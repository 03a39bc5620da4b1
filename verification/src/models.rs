//! Application settings values shared by the interface: the language,
//! the color theme, the editor view mode and the save status of a note,
//! with the stored string value of each and the bilingual label text.
use vstd::prelude::*;
use crate::text::{chars_equal, chars_of};

verus! {

broadcast use vstd::string::group_string_axioms;

/// The interface language.
#[derive(Debug, Clone, Copy, PartialEq, Eq, Structural)]
pub enum AppLanguage {
    English,
    Chinese,
}

/// The color theme.
#[derive(Debug, Clone, Copy, PartialEq, Eq, Structural)]
pub enum Theme {
    System,
    Light,
    Dark,
    GitHubLight,
    GitHubDark,
    HighContrast,
    WarmReading,
}

/// How the editor renders a note.
#[derive(Debug, Clone, Copy, PartialEq, Eq, Structural)]
pub enum ViewMode {
    Source,
    Hybrid,
    Preview,
}

impl ViewMode {
    /// Whether the mode edits the text: every mode but `Preview`.
    pub open spec fn spec_is_editable(&self) -> bool {
        !(self is Preview)
    }

    /// Whether the mode edits the text: every mode but `Preview`.
    #[verifier::when_used_as_spec(spec_is_editable)]
    pub fn is_editable(&self) -> (b: bool)
        ensures
            b == self.spec_is_editable(),
    {
        match self {
            ViewMode::Preview => false,
            _ => true,
        }
    }
}

/// Whether the content of an open note is on disk.
#[derive(Debug, Clone, Copy, PartialEq, Eq, Structural)]
pub enum SaveStatus {
    Saved,
    Dirty,
    Saving,
    Conflict,
    Failed,
}

// ---------------------------------------------------------------------
// Bilingual text
// ---------------------------------------------------------------------

/// The text for `language`: `en` in English, `zh` in Chinese.
pub open spec fn tr(language: AppLanguage, en: Seq<char>, zh: Seq<char>) -> Seq<char> {
    match language {
        AppLanguage::English => en,
        AppLanguage::Chinese => zh,
    }
}

/// Picks the text for `language`.
pub fn text(language: AppLanguage, en: &'static str, zh: &'static str) -> (r: &'static str)
    ensures
        r@ == tr(language, en@, zh@),
{
    match language {
        AppLanguage::English => en,
        AppLanguage::Chinese => zh,
    }
}

// ---------------------------------------------------------------------
// Stored values
// ---------------------------------------------------------------------

/// Whether `value` holds exactly the characters of `literal`.
fn is_value(value: &Vec<char>, literal: &str) -> (b: bool)
    ensures
        b == (value@ == literal@),
{
    chars_equal(value, &chars_of(literal))
}

/// The stored value of a language.
pub open spec fn language_str(language: AppLanguage) -> Seq<char> {
    match language {
        AppLanguage::English => "english"@,
        AppLanguage::Chinese => "chinese"@,
    }
}

/// The language stored as `value`, if any.
pub open spec fn language_of(value: Seq<char>) -> Option<AppLanguage> {
    if value == "english"@ {
        Some(AppLanguage::English)
    } else if value == "chinese"@ {
        Some(AppLanguage::Chinese)
    } else {
        None
    }
}

/// The stored value of `language`.
pub fn language_value(language: AppLanguage) -> (r: &'static str)
    ensures
        r@ == language_str(language),
{
    match language {
        AppLanguage::English => "english",
        AppLanguage::Chinese => "chinese",
    }
}

/// The language stored as `value`.
pub fn language_from_value(value: &str) -> (r: Option<AppLanguage>)
    ensures
        r == language_of(value@),
{
    let v = chars_of(value);
    if is_value(&v, "english") {
        Some(AppLanguage::English)
    } else if is_value(&v, "chinese") {
        Some(AppLanguage::Chinese)
    } else {
        None
    }
}

/// The stored value of a theme.
pub open spec fn theme_str(theme: Theme) -> Seq<char> {
    match theme {
        Theme::System => "system"@,
        Theme::Light => "light"@,
        Theme::Dark => "dark"@,
        Theme::GitHubLight => "github_light"@,
        Theme::GitHubDark => "github_dark"@,
        Theme::HighContrast => "high_contrast"@,
        Theme::WarmReading => "warm_reading"@,
    }
}

/// The theme stored as `value`, if any.
pub open spec fn theme_of(value: Seq<char>) -> Option<Theme> {
    if value == "system"@ {
        Some(Theme::System)
    } else if value == "light"@ {
        Some(Theme::Light)
    } else if value == "dark"@ {
        Some(Theme::Dark)
    } else if value == "github_light"@ {
        Some(Theme::GitHubLight)
    } else if value == "github_dark"@ {
        Some(Theme::GitHubDark)
    } else if value == "high_contrast"@ {
        Some(Theme::HighContrast)
    } else if value == "warm_reading"@ {
        Some(Theme::WarmReading)
    } else {
        None
    }
}

/// The stored value of `theme`.
pub fn theme_value(theme: Theme) -> (r: &'static str)
    ensures
        r@ == theme_str(theme),
{
    match theme {
        Theme::System => "system",
        Theme::Light => "light",
        Theme::Dark => "dark",
        Theme::GitHubLight => "github_light",
        Theme::GitHubDark => "github_dark",
        Theme::HighContrast => "high_contrast",
        Theme::WarmReading => "warm_reading",
    }
}

/// The theme stored as `value`.
pub fn theme_from_value(value: &str) -> (r: Option<Theme>)
    ensures
        r == theme_of(value@),
{
    let v = chars_of(value);
    if is_value(&v, "system") {
        Some(Theme::System)
    } else if is_value(&v, "light") {
        Some(Theme::Light)
    } else if is_value(&v, "dark") {
        Some(Theme::Dark)
    } else if is_value(&v, "github_light") {
        Some(Theme::GitHubLight)
    } else if is_value(&v, "github_dark") {
        Some(Theme::GitHubDark)
    } else if is_value(&v, "high_contrast") {
        Some(Theme::HighContrast)
    } else if is_value(&v, "warm_reading") {
        Some(Theme::WarmReading)
    } else {
        None
    }
}

/// The stored value of a view mode.
pub open spec fn view_mode_str(mode: ViewMode) -> Seq<char> {
    match mode {
        ViewMode::Source => "source"@,
        ViewMode::Hybrid => "hybrid"@,
        ViewMode::Preview => "preview"@,
    }
}

/// The view mode stored as `value`, if any.
pub open spec fn view_mode_of(value: Seq<char>) -> Option<ViewMode> {
    if value == "source"@ {
        Some(ViewMode::Source)
    } else if value == "hybrid"@ {
        Some(ViewMode::Hybrid)
    } else if value == "preview"@ {
        Some(ViewMode::Preview)
    } else {
        None
    }
}

/// The stored value of `mode`.
pub fn view_mode_value(mode: ViewMode) -> (r: &'static str)
    ensures
        r@ == view_mode_str(mode),
{
    match mode {
        ViewMode::Source => "source",
        ViewMode::Hybrid => "hybrid",
        ViewMode::Preview => "preview",
    }
}

/// The view mode stored as `value`.
pub fn view_mode_from_value(value: &str) -> (r: Option<ViewMode>)
    ensures
        r == view_mode_of(value@),
{
    let v = chars_of(value);
    if is_value(&v, "source") {
        Some(ViewMode::Source)
    } else if is_value(&v, "hybrid") {
        Some(ViewMode::Hybrid)
    } else if is_value(&v, "preview") {
        Some(ViewMode::Preview)
    } else {
        None
    }
}

/// Reading back the stored value of a language, theme or view mode gives
/// that language, theme or view mode; and a value read as one is that
/// one's stored value.
pub proof fn stored_values_round_trip(language: AppLanguage, theme: Theme, mode: ViewMode, value: Seq<char>)
    ensures
        language_of(language_str(language)) == Some(language),
        theme_of(theme_str(theme)) == Some(theme),
        view_mode_of(view_mode_str(mode)) == Some(mode),
        language_of(value) matches Some(l) ==> value == language_str(l),
        theme_of(value) matches Some(t) ==> value == theme_str(t),
        view_mode_of(value) matches Some(m) ==> value == view_mode_str(m),
{
    reveal_strlit("english");
    reveal_strlit("chinese");
    reveal_strlit("system");
    reveal_strlit("light");
    reveal_strlit("dark");
    reveal_strlit("github_light");
    reveal_strlit("github_dark");
    reveal_strlit("high_contrast");
    reveal_strlit("warm_reading");
    reveal_strlit("source");
    reveal_strlit("hybrid");
    reveal_strlit("preview");
    assert("english"@[0] != "chinese"@[0]);
    assert("system"@.len() == 6 && "light"@.len() == 5 && "dark"@.len() == 4);
    assert("github_light"@.len() == 12 && "github_dark"@.len() == 11);
    assert("high_contrast"@.len() == 13 && "warm_reading"@.len() == 12);
    assert("github_light"@[0] != "warm_reading"@[0]);
    assert("source"@.len() == 6 && "hybrid"@.len() == 6 && "preview"@.len() == 7);
    assert("source"@[0] != "hybrid"@[0]);
}

} // verus!
