use papyro::asset_cleanup::{add_existing_assets, orphaned_assets};
use papyro::paths::{compare_std_paths, same_std_path, std_path_starts_with};

fn strings(v: &[&str]) -> Vec<String> {
    v.iter().map(|s| s.to_string()).collect()
}

#[test]
fn paths_compare_component_by_component() {
    assert!(same_std_path("/w/a//b/./c", "/w/a/b/c"));
    assert!(!same_std_path("/w/a", "w/a"));
    assert!(same_std_path("./a", "././a"));
    assert!(!same_std_path("./a", "a"));
    assert_eq!(compare_std_paths("/a/b", "/a/c"), -1);
    assert_eq!(compare_std_paths("/a/b/c", "/a/b"), 1);
    assert_eq!(compare_std_paths("/a/b", "/a//b/"), 0);
    // The root comes before names, `..` after `.`.
    assert_eq!(compare_std_paths("/z", "a"), -1);
    assert_eq!(compare_std_paths("./x", "../x"), -1);
    assert_eq!(compare_std_paths("../x", "a"), -1);
    // Components, not characters: "a/b" < "a-b" although '/' > '-'.
    assert_eq!(compare_std_paths("a/b", "a-b"), -1);
    assert!(std_path_starts_with("/w/assets/x.png", "/w/assets"));
    assert!(std_path_starts_with("/w/assets", "/w/assets/"));
    assert!(!std_path_starts_with("/w/assets-old/x.png", "/w/assets"));
    assert!(std_path_starts_with("/anything", ""));
}

#[test]
fn existing_assets_are_collected_once_from_the_assets_folder() {
    let mut output = strings(&["/w/assets/a.png"]);
    add_existing_assets(
        "/w/assets",
        &strings(&["/w/assets/b.png", "/w/other/c.png", "/w/assets//a.png", "/w/assets/b.png"]),
        &mut output,
    );
    assert_eq!(output, strings(&["/w/assets/a.png", "/w/assets/b.png"]));
}

#[test]
fn orphaned_assets_skip_referenced_ones_and_come_sorted() {
    let deleting = strings(&["/w/assets/c.png", "/w/assets/a.png", "/w/assets/b.png", "/w/assets//a.png"]);
    let retained = strings(&["/w/assets/b.png", "/w/assets/z.png"]);
    assert_eq!(
        orphaned_assets(&deleting, &retained),
        strings(&["/w/assets/a.png", "/w/assets/c.png"])
    );
    assert!(orphaned_assets(&[], &retained).is_empty());
    assert!(orphaned_assets(&strings(&["/w/assets/b.png"]), &retained).is_empty());
    assert_eq!(
        orphaned_assets(&strings(&["/w/assets/x.png"]), &[]),
        strings(&["/w/assets/x.png"])
    );
}
