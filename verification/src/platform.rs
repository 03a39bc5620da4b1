//! Platform services: the application data directory, native file dialog
//! requests, and the checks made before a path or link is handed to the
//! system opener.
use vstd::prelude::*;
use crate::paths::{join, path_join};
use crate::text::{chars_of, concat, is_ws, string_from, trim, trimmed};

verus! {

broadcast use vstd::string::group_string_axioms;

/// The desktop platform (native dialogs, the system file opener).
pub struct DesktopPlatform;

/// The mobile platform.
pub struct MobilePlatform;

// ---------------------------------------------------------------------
// Application data
// ---------------------------------------------------------------------

/// The application's data directory under `base` (or under `.` when the
/// system gives no base): `base/papyro`.
pub fn app_data_dir(base: Option<String>) -> (r: String)
    ensures
        r@ == join(
            match base {
                Some(b) => b@,
                None => "."@,
            },
            "papyro"@,
        ),
{
    let b = match base {
        Some(b) => chars_of(b.as_str()),
        None => chars_of("."),
    };
    string_from(path_join(&b, &chars_of("papyro")).as_slice())
}

// ---------------------------------------------------------------------
// File dialogs
// ---------------------------------------------------------------------

/// A named group of file extensions offered by a file dialog.
#[derive(Debug, Clone, PartialEq, Eq)]
pub struct FileDialogFilter {
    pub name: String,
    pub extensions: Vec<String>,
}

/// What an open-file dialog is asked to show.
#[derive(Debug, Clone, PartialEq, Eq)]
pub struct OpenFileDialogRequest {
    pub title: String,
    pub filters: Vec<FileDialogFilter>,
}

/// What a save-file dialog is asked to show.
#[derive(Debug, Clone, PartialEq, Eq)]
pub struct SaveFileDialogRequest {
    pub title: String,
    pub filters: Vec<FileDialogFilter>,
    pub default_name: String,
    pub directory: Option<String>,
}

/// The views of a filter: its name and its extensions.
pub open spec fn filter_view(f: FileDialogFilter) -> (Seq<char>, Seq<Seq<char>>) {
    (f.name@, f.extensions@.map_values(|e: String| e@))
}

/// The views of the `(name, extensions)` pairs given by a caller.
pub open spec fn pairs_view(filters: Seq<(&str, &[&str])>) -> Seq<(Seq<char>, Seq<Seq<char>>)> {
    filters.map_values(|p: (&str, &[&str])| (p.0@, p.1@.map_values(|e: &str| e@)))
}

/// Owned filters for the `(name, extensions)` pairs, in order.
pub fn normalize_filters(filters: &[(&str, &[&str])]) -> (r: Vec<FileDialogFilter>)
    ensures
        r@.map_values(|f: FileDialogFilter| filter_view(f)) == pairs_view(filters@),
{
    let mut r: Vec<FileDialogFilter> = Vec::new();
    let mut i: usize = 0;
    while i < filters.len()
        invariant
            i <= filters.len(),
            r.len() == i,
            forall|k: int| 0 <= k < i ==> #[trigger] filter_view(r@[k]) == pairs_view(filters@)[k],
        decreases filters.len() - i,
    {
        let (name, exts) = filters[i];
        let mut extensions: Vec<String> = Vec::new();
        let mut j: usize = 0;
        while j < exts.len()
            invariant
                j <= exts.len(),
                extensions.len() == j,
                forall|k: int| 0 <= k < j ==> #[trigger] extensions@[k]@ == exts@[k]@,
            decreases exts.len() - j,
        {
            extensions.push(exts[j].to_owned());
            j = j + 1;
        }
        assert(extensions@.map_values(|e: String| e@) =~= exts@.map_values(|e: &str| e@));
        r.push(FileDialogFilter { name: name.to_owned(), extensions });
        i = i + 1;
    }
    assert(r@.map_values(|f: FileDialogFilter| filter_view(f)) =~= pairs_view(filters@));
    r
}

/// The request for an open-file dialog titled `title` with `filters`.
pub fn open_file_request(title: &str, filters: &[(&str, &[&str])]) -> (r: OpenFileDialogRequest)
    ensures
        r.title@ == title@,
        r.filters@.map_values(|f: FileDialogFilter| filter_view(f)) == pairs_view(filters@),
{
    OpenFileDialogRequest { title: title.to_owned(), filters: normalize_filters(filters) }
}

/// The request for a save-file dialog.
pub fn save_file_request(
    title: &str,
    filters: &[(&str, &[&str])],
    default_name: &str,
    directory: Option<String>,
) -> (r: SaveFileDialogRequest)
    ensures
        r.title@ == title@,
        r.filters@.map_values(|f: FileDialogFilter| filter_view(f)) == pairs_view(filters@),
        r.default_name@ == default_name@,
        r.directory == directory,
{
    SaveFileDialogRequest {
        title: title.to_owned(),
        filters: normalize_filters(filters),
        default_name: default_name.to_owned(),
        directory,
    }
}

/// `failed to show {kind} dialog: {title}`.
pub open spec fn dialog_failure_text(kind: Seq<char>, title: Seq<char>) -> Seq<char> {
    "failed to show "@ + kind + " dialog: "@ + title
}

/// The context added to an error of a native dialog.
pub fn dialog_error_context(kind: &str, title: &str) -> (r: String)
    ensures
        r@ == dialog_failure_text(kind@, title@),
{
    let a = concat(&chars_of("failed to show "), &chars_of(kind));
    let b = concat(&a, &chars_of(" dialog: "));
    string_from(concat(&b, &chars_of(title)).as_slice())
}

// ---------------------------------------------------------------------
// External links
// ---------------------------------------------------------------------

/// Why a link cannot be opened outside the application.
#[derive(Debug, Clone, Copy, PartialEq, Eq, Structural)]
pub enum ExternalUrlError {
    /// Nothing but whitespace.
    Empty,
    /// Whitespace or a control character inside the link.
    WhitespaceOrControl,
    /// Not an `http`, `https` or `mailto` URL.
    NotExternal,
}

/// The message of each error.
pub open spec fn external_url_error_text(e: ExternalUrlError) -> Seq<char> {
    match e {
        ExternalUrlError::Empty => "Preview link is empty"@,
        ExternalUrlError::WhitespaceOrControl => "Preview link must not contain whitespace or control characters"@,
        ExternalUrlError::NotExternal => "Preview link must be an external http, https, or mailto URL"@,
    }
}

impl ExternalUrlError {
    /// The message shown for this error.
    pub fn message(&self) -> (r: String)
        ensures
            r@ == external_url_error_text(*self),
    {
        match self {
            ExternalUrlError::Empty => "Preview link is empty".to_owned(),
            ExternalUrlError::WhitespaceOrControl => "Preview link must not contain whitespace or control characters".to_owned(),
            ExternalUrlError::NotExternal => "Preview link must be an external http, https, or mailto URL".to_owned(),
        }
    }
}

/// ASCII whitespace (`char::is_ascii_whitespace`): space, tab, line feed,
/// form feed, carriage return.
pub open spec fn is_ascii_ws(c: char) -> bool {
    c == ' ' || c == '\t' || c == '\n' || c == '\x0C' || c == '\r'
}

/// Control characters (`char::is_control`, general category Cc).
pub open spec fn is_control_char(c: char) -> bool {
    let u = c as u32;
    u <= 0x1f || (0x7f <= u <= 0x9f)
}

/// Characters allowed in a URL scheme.
pub open spec fn is_scheme_char(c: char) -> bool {
    ('a' <= c <= 'z') || ('A' <= c <= 'Z') || ('0' <= c <= '9') || c == '+' || c == '-' || c == '.'
}

/// The ASCII lowercase of a string.
pub open spec fn ascii_lowercase(s: Seq<char>) -> Seq<char> {
    s.map_values(|c: char| crate::text::ascii_lower(c))
}

/// The scheme of a link: what precedes its first `:`.
pub open spec fn scheme_of(s: Seq<char>) -> Option<Seq<char>> {
    let i = crate::text::first_occurrence(s, seq![':']);
    match i {
        Some(i) => Some(s.take(i)),
        None => None,
    }
}

/// Whether a link may be opened outside the application, and the link
/// then opened: the trimmed text, when it holds no whitespace or control
/// character and its scheme is `http`, `https` or `mailto` (in any case).
pub open spec fn external_url(url: Seq<char>) -> Result<Seq<char>, ExternalUrlError> {
    let t = trim(url);
    if t.len() == 0 {
        Err(ExternalUrlError::Empty)
    } else if exists|i: int| 0 <= i < t.len() && (is_ascii_ws(#[trigger] t[i]) || is_control_char(t[i])) {
        Err(ExternalUrlError::WhitespaceOrControl)
    } else {
        match scheme_of(t) {
            None => Err(ExternalUrlError::NotExternal),
            Some(scheme) => {
                let low = ascii_lowercase(scheme);
                if scheme.len() > 0 && (forall|i: int| 0 <= i < scheme.len() ==> is_scheme_char(#[trigger] scheme[i]))
                    && (low == "http"@ || low == "https"@ || low == "mailto"@) {
                    Ok(t)
                } else {
                    Err(ExternalUrlError::NotExternal)
                }
            },
        }
    }
}

/// Checks a link before it is opened outside the application and gives
/// back the trimmed link.
pub fn validate_external_url(url: &str) -> (r: Result<String, ExternalUrlError>)
    ensures
        match r {
            Ok(s) => external_url(url@) == Ok::<Seq<char>, ExternalUrlError>(s@),
            Err(e) => external_url(url@) == Err::<Seq<char>, ExternalUrlError>(e),
        },
{
    let t = trimmed(&chars_of(url));
    if t.len() == 0 {
        return Err(ExternalUrlError::Empty);
    }
    let mut i: usize = 0;
    while i < t.len()
        invariant
            i <= t.len(),
            t@ == trim(url@),
            t.len() > 0,
            forall|k: int| 0 <= k < i ==> !(is_ascii_ws(#[trigger] t@[k]) || is_control_char(t@[k])),
        decreases t.len() - i,
    {
        let c = t[i];
        let u = c as u32;
        if c == ' ' || c == '\t' || c == '\n' || c == '\x0C' || c == '\r' || u <= 0x1f || (0x7f <= u
            && u <= 0x9f) {
            assert(is_ascii_ws(t@[i as int]) || is_control_char(t@[i as int]));
            return Err(ExternalUrlError::WhitespaceOrControl);
        }
        i = i + 1;
    }
    let mut colon: Vec<char> = Vec::new();
    colon.push(':');
    assert(colon@ =~= seq![':']);
    let k = match crate::text::find_first(&t, &colon) {
        Some(k) => k,
        None => {
            return Err(ExternalUrlError::NotExternal);
        },
    };
    proof {
        crate::text::lemma_first_occurrence_bound(t@, colon@);
    }
    let scheme = crate::text::slice_vec(&t, 0, k);
    assert(scheme@ =~= t@.take(k as int));
    let mut low: Vec<char> = Vec::new();
    let mut valid = scheme.len() > 0;
    let mut j: usize = 0;
    while j < scheme.len()
        invariant
            j <= scheme.len(),
            low@ == ascii_lowercase(scheme@.take(j as int)),
            valid == (scheme.len() > 0 && forall|m: int| 0 <= m < j ==> is_scheme_char(#[trigger] scheme@[m])),
        decreases scheme.len() - j,
    {
        let c = scheme[j];
        if !(('a' <= c && c <= 'z') || ('A' <= c && c <= 'Z') || ('0' <= c && c <= '9') || c == '+'
            || c == '-' || c == '.') {
            valid = false;
        }
        low.push(crate::text::to_ascii_lower(c));
        j = j + 1;
        assert(low@ =~= ascii_lowercase(scheme@.take(j as int)));
    }
    assert(scheme@.take(scheme.len() as int) =~= scheme@);
    let known = crate::text::chars_equal(&low, &chars_of("http")) || crate::text::chars_equal(
        &low,
        &chars_of("https"),
    ) || crate::text::chars_equal(&low, &chars_of("mailto"));
    if valid && known {
        Ok(string_from(t.as_slice()))
    } else {
        Err(ExternalUrlError::NotExternal)
    }
}


/// Why a link was not opened.
#[derive(Debug, Clone, PartialEq, Eq)]
pub enum OpenLinkError {
    /// The link was refused before reaching the opener.
    Invalid(ExternalUrlError),
    /// The opener failed on the (trimmed) link.
    Failed { url: String, cause: String },
}

impl OpenLinkError {
    /// The full message: for a failure of the opener,
    /// `failed to open external URL {url}: {cause}`.
    pub fn message(&self) -> (r: String)
        ensures
            r@ == match *self {
                OpenLinkError::Invalid(e) => external_url_error_text(e),
                OpenLinkError::Failed { url, cause } => "failed to open external URL "@ + url@ + ": "@
                    + cause@,
            },
    {
        match self {
            OpenLinkError::Invalid(e) => e.message(),
            OpenLinkError::Failed { url, cause } => {
                let a = concat(&chars_of("failed to open external URL "), &chars_of(url.as_str()));
                let b = concat(&a, &chars_of(": "));
                string_from(concat(&b, &chars_of(cause.as_str())).as_slice())
            },
        }
    }
}

/// Opens a link with `open` once it passes `validate_external_url`; a
/// refused link never reaches `open`, and a failure of `open` is reported
/// with the link.
pub fn open_external_url_with<F: FnOnce(&str) -> Result<(), String>>(url: &str, open: F) -> (r: Result<(), OpenLinkError>)
    requires
        external_url(url@) matches Ok(t) ==> forall|s: &str| s@ == t ==> call_requires(open, (s,)),
    ensures
        match external_url(url@) {
            Err(e) => r == Err::<(), OpenLinkError>(OpenLinkError::Invalid(e)),
            Ok(t) => match r {
                Ok(_) => exists|s: &str| s@ == t && call_ensures(open, (s,), Ok::<(), String>(())),
                Err(OpenLinkError::Failed { url: u, cause: c }) => u@ == t && exists|s: &str|
                    s@ == t && call_ensures(open, (s,), Err::<(), String>(c)),
                Err(OpenLinkError::Invalid(_)) => false,
            },
        },
{
    match validate_external_url(url) {
        Err(e) => Err(OpenLinkError::Invalid(e)),
        Ok(t) => {
            let s = t.as_str();
            let res = open(s);
            assert(call_ensures(open, (s,), res));
            match res {
                Ok(u) => {
                    assert(res == Ok::<(), String>(()));
                    assert(s@ == t@ && call_ensures(open, (s,), Ok::<(), String>(())));
                    Ok(u)
                },
                Err(cause) => {
                    assert(s@ == t@ && call_ensures(open, (s,), Err::<(), String>(cause)));
                    Err(OpenLinkError::Failed { url: t, cause })
                },
            }
        },
    }
}

/// Why a path was not revealed: the opener failed on it.
#[derive(Debug, Clone, PartialEq, Eq)]
pub struct RevealError {
    pub path: String,
    pub cause: String,
}

impl RevealError {
    /// The full message: `failed to open {path}: {cause}`.
    pub fn message(&self) -> (r: String)
        ensures
            r@ == "failed to open "@ + self.path@ + ": "@ + self.cause@,
    {
        let a = concat(&chars_of("failed to open "), &chars_of(self.path.as_str()));
        let b = concat(&a, &chars_of(": "));
        string_from(concat(&b, &chars_of(self.cause.as_str())).as_slice())
    }
}

/// Hands `path` to `open` (the system file browser) and reports a failure
/// with the path.
pub fn reveal_path_with<F: FnOnce(&str) -> Result<(), String>>(path: &str, open: F) -> (r: Result<(), RevealError>)
    requires
        call_requires(open, (path,)),
    ensures
        match r {
            Ok(_) => call_ensures(open, (path,), Ok::<(), String>(())),
            Err(e) => e.path@ == path@ && call_ensures(open, (path,), Err::<(), String>(e.cause)),
        },
{
    let res = open(path);
    assert(call_ensures(open, (path,), res));
    match res {
        Ok(u) => {
            assert(res == Ok::<(), String>(()));
            Ok(u)
        },
        Err(cause) => Err(RevealError { path: path.to_owned(), cause }),
    }
}

} // verus!
