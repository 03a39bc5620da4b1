//! Helpers of the settings dialog: tag names and colors typed by the user,
//! and the theme choices.
use vstd::prelude::*;
use crate::front_matter::{strip_hashes, without_leading_hashes};
use crate::labels::{theme_label, theme_name};
use crate::models::{theme_str, theme_value, AppLanguage, Theme};
use crate::primitives::DropdownOption;
use crate::search::str_byte_len;
use crate::text::{byte_len, chars_of, string_from, trim, trimmed};

verus! {

broadcast use vstd::string::group_string_axioms;

/// A tag name as typed: trimmed, leading `#`s removed, trimmed again.
pub open spec fn cleaned_name(value: Seq<char>) -> Seq<char> {
    trim(strip_hashes(trim(value)))
}

/// The tag name typed as `value`.
pub fn cleaned_tag_name(value: &str) -> (r: String)
    ensures
        r@ == cleaned_name(value@),
{
    let a = trimmed(&chars_of(value));
    let b = without_leading_hashes(&a);
    string_from(trimmed(&b).as_slice())
}

/// ASCII uppercase of one character.
pub open spec fn ascii_upper(c: char) -> char {
    if 'a' <= c <= 'z' {
        (((c as u8) - 32) as u8) as char
    } else {
        c
    }
}

/// A color as typed, trimmed and in ASCII uppercase.
pub open spec fn normalized_color(value: Seq<char>) -> Seq<char> {
    trim(value).map_values(|c: char| ascii_upper(c))
}

/// The color typed as `value`.
pub fn normalized_tag_color(value: &str) -> (r: String)
    ensures
        r@ == normalized_color(value@),
{
    let t = trimmed(&chars_of(value));
    let mut out: Vec<char> = Vec::new();
    let mut i: usize = 0;
    while i < t.len()
        invariant
            i <= t.len(),
            out@ == t@.take(i as int).map_values(|c: char| ascii_upper(c)),
        decreases t.len() - i,
    {
        let c = t[i];
        let u = if 'a' <= c && c <= 'z' {
            ((c as u8) - 32) as char
        } else {
            c
        };
        out.push(u);
        i = i + 1;
        assert(out@ =~= t@.take(i as int).map_values(|c: char| ascii_upper(c)));
    }
    assert(t@.take(t.len() as int) =~= t@);
    string_from(out.as_slice())
}

/// An ASCII hexadecimal digit.
pub open spec fn is_hex_digit(c: char) -> bool {
    ('0' <= c <= '9') || ('a' <= c <= 'f') || ('A' <= c <= 'F')
}

/// A tag color: seven bytes, `#` and six hexadecimal digits.
pub open spec fn tag_color(value: Seq<char>) -> bool {
    &&& byte_len(value) == 7
    &&& value.len() > 0
    &&& value[0] == '#'
    &&& forall|i: int| 1 <= i < value.len() ==> is_hex_digit(#[trigger] value[i])
}

/// Whether `value` is a tag color.
pub fn is_tag_color(value: &str) -> (b: bool)
    ensures
        b == tag_color(value@),
{
    if str_byte_len(value) != 7 {
        return false;
    }
    let v = chars_of(value);
    if v.len() == 0 || v[0] != '#' {
        return false;
    }
    let mut i: usize = 1;
    while i < v.len()
        invariant
            1 <= i <= v.len(),
            v@ == value@,
            forall|k: int| 1 <= k < i ==> is_hex_digit(#[trigger] v@[k]),
        decreases v.len() - i,
    {
        let c = v[i];
        if !(('0' <= c && c <= '9') || ('a' <= c && c <= 'f') || ('A' <= c && c <= 'F')) {
            return false;
        }
        i = i + 1;
    }
    true
}

/// The themes offered, in order.
pub open spec fn theme_list() -> Seq<Theme> {
    seq![
        Theme::System,
        Theme::Light,
        Theme::Dark,
        Theme::GitHubLight,
        Theme::GitHubDark,
        Theme::HighContrast,
        Theme::WarmReading,
    ]
}

/// The dropdown options of the theme setting: each theme's name and
/// stored value.
pub fn theme_options(language: AppLanguage) -> (r: Vec<DropdownOption>)
    ensures
        r.len() == 7,
        forall|i: int|
            0 <= i < 7 ==> (#[trigger] r@[i]).label@ == theme_name(language, theme_list()[i])
                && r@[i].value@ == theme_str(theme_list()[i]),
{
    let themes = [
        Theme::System,
        Theme::Light,
        Theme::Dark,
        Theme::GitHubLight,
        Theme::GitHubDark,
        Theme::HighContrast,
        Theme::WarmReading,
    ];
    assert(themes@ =~= theme_list());
    let mut r: Vec<DropdownOption> = Vec::new();
    let mut i: usize = 0;
    while i < 7
        invariant
            i <= 7,
            themes@ == theme_list(),
            r.len() == i,
            forall|k: int|
                0 <= k < i ==> (#[trigger] r@[k]).label@ == theme_name(language, theme_list()[k])
                    && r@[k].value@ == theme_str(theme_list()[k]),
        decreases 7 - i,
    {
        let theme = themes[i];
        r.push(DropdownOption::new(theme_label(language, theme), theme_value(theme)));
        i = i + 1;
    }
    r
}

} // verus!
