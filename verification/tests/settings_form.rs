use papyro::models::AppLanguage;
use papyro::settings_form::{cleaned_tag_name, is_tag_color, normalized_tag_color, theme_options};

#[test]
fn tag_form_helpers_normalize_inputs() {
    assert_eq!(cleaned_tag_name("  #Planning  "), "Planning");
    assert_eq!(normalized_tag_color(" #abcdef "), "#ABCDEF");
    assert!(is_tag_color("#ABCDEF"));
    assert!(!is_tag_color("ABCDEF"));
    assert!(!is_tag_color("#ABCDEG"));
}

#[test]
fn theme_options_include_curated_themes() {
    let options = theme_options(AppLanguage::English);
    let values = options
        .iter()
        .map(|option| option.value.as_str())
        .collect::<Vec<_>>();

    assert_eq!(
        values,
        vec![
            "system",
            "light",
            "dark",
            "github_light",
            "github_dark",
            "high_contrast",
            "warm_reading"
        ]
    );
    assert_eq!(options[3].label, "GitHub Light");
    assert_eq!(theme_options(AppLanguage::Chinese)[0].label, "跟随系统");
}

#[test]
fn tag_helpers_edge_cases() {
    assert_eq!(cleaned_tag_name("## # deep"), "# deep");
    assert_eq!(cleaned_tag_name("   "), "");
    assert!(!is_tag_color("#abcde"));
    assert!(is_tag_color("#a1B2c3"));
    assert!(!is_tag_color("#é1234"));
    assert!(!is_tag_color("#1234567"));
}
