//! Images pasted into a note: which types are accepted, the file names
//! tried in the workspace's assets folder, and the Markdown that links the
//! saved file.
use vstd::prelude::*;
use crate::paths::{
    is_prefix_of, joined_parts, path_std_components, path_strip_prefix, path_text_chars,
    std_components, std_path_starts_with, strip_prefix,
};
use crate::text::{
    ascii_lower, chars_of, concat, decimal, decimal_chars, first_occurrence, string_from, trim,
    trimmed,
};

verus! {

broadcast use vstd::string::group_string_axioms;

/// The part of a MIME type before its parameters: everything before the
/// first `;`.
pub open spec fn before_semicolon(m: Seq<char>) -> Seq<char> {
    match first_occurrence(m, seq![';']) {
        Some(i) => m.take(i),
        None => m,
    }
}

/// The essence of a MIME type: before its parameters, trimmed, in ASCII
/// lowercase.
pub open spec fn mime_essence(m: Seq<char>) -> Seq<char> {
    trim(before_semicolon(m)).map_values(|c: char| ascii_lower(c))
}

/// The file extension for an image of MIME type `m`, or the message of
/// the refusal.
pub open spec fn image_extension_of(m: Seq<char>) -> Result<Seq<char>, Seq<char>> {
    let e = mime_essence(m);
    if e == "image/png"@ {
        Ok("png"@)
    } else if e == "image/jpeg"@ || e == "image/jpg"@ {
        Ok("jpg"@)
    } else if e == "image/gif"@ {
        Ok("gif"@)
    } else if e == "image/webp"@ {
        Ok("webp"@)
    } else {
        Err("unsupported pasted image type: "@ + e)
    }
}

/// The essence of a MIME type.
fn essence(mime_type: &str) -> (r: Vec<char>)
    ensures
        r@ == mime_essence(mime_type@),
{
    let m = chars_of(mime_type);
    let mut semi: Vec<char> = Vec::new();
    semi.push(';');
    assert(semi@ =~= seq![';']);
    let head = match crate::text::find_first(&m, &semi) {
        Some(i) => {
            proof {
                crate::text::lemma_first_occurrence_bound(m@, semi@);
            }
            crate::text::slice_vec(&m, 0, i)
        },
        None => m.clone(),
    };
    assert(head@ =~= before_semicolon(mime_type@));
    let t = trimmed(&head);
    let mut out: Vec<char> = Vec::new();
    let mut i: usize = 0;
    while i < t.len()
        invariant
            i <= t.len(),
            out@ == t@.take(i as int).map_values(|c: char| ascii_lower(c)),
        decreases t.len() - i,
    {
        out.push(crate::text::to_ascii_lower(t[i]));
        i = i + 1;
        assert(out@ =~= t@.take(i as int).map_values(|c: char| ascii_lower(c)));
    }
    assert(t@.take(t.len() as int) =~= t@);
    out
}

/// The file extension for a pasted image of type `mime_type`.
pub fn image_extension(mime_type: &str) -> (r: Result<&'static str, String>)
    ensures
        match r {
            Ok(e) => image_extension_of(mime_type@) == Ok::<Seq<char>, Seq<char>>(e@),
            Err(m) => image_extension_of(mime_type@) == Err::<Seq<char>, Seq<char>>(m@),
        },
{
    let e = essence(mime_type);
    let eq = |lit: &str| -> (b: bool)
        ensures
            b == (e@ == lit@),
        { crate::text::chars_equal(&e, &chars_of(lit)) };
    if eq("image/png") {
        Ok("png")
    } else if eq("image/jpeg") || eq("image/jpg") {
        Ok("jpg")
    } else if eq("image/gif") {
        Ok("gif")
    } else if eq("image/webp") {
        Ok("webp")
    } else {
        Err(string_from(concat(&chars_of("unsupported pasted image type: "), &e).as_slice()))
    }
}

/// The stem of a pasted image's file name for the time `millis`.
pub fn pasted_image_stem(millis: u64) -> (r: String)
    ensures
        r@ == "pasted-image-"@ + decimal(millis as nat),
{
    string_from(concat(&chars_of("pasted-image-"), &decimal_chars(millis)).as_slice())
}

/// The file name tried for a pasted image: `{stem}.{ext}` first, then
/// `{stem}-{n}.{ext}`.
pub open spec fn asset_name(stem: Seq<char>, n: nat, ext: Seq<char>) -> Seq<char> {
    if n == 0 {
        stem + seq!['.'] + ext
    } else {
        stem + seq!['-'] + decimal(n) + seq!['.'] + ext
    }
}

/// The `n`-th file name tried for a pasted image.
pub fn asset_file_name(stem: &str, n: u32, extension: &str) -> (r: String)
    ensures
        r@ == asset_name(stem@, n as nat, extension@),
{
    let mut head = chars_of(stem);
    if n > 0 {
        head.push('-');
        head = concat(&head, &decimal_chars(n as u64));
    }
    head.push('.');
    string_from(concat(&head, &chars_of(extension)).as_slice())
}

/// A path written for a Markdown link: its components (as
/// `Path::components` yields them) joined by `/`.
pub fn markdown_path(path: &str) -> (r: String)
    ensures
        r@ == joined_parts(std_components(path@)),
{
    string_from(path_text_chars(false, &path_std_components(&chars_of(path))).as_slice())
}

/// The Markdown that shows the image at `link`.
pub fn image_markdown(link: &str) -> (r: String)
    ensures
        r@ == "![image]("@ + link@ + ")"@,
{
    let a = concat(&chars_of("![image]("), &chars_of(link));
    string_from(concat(&a, &chars_of(")")).as_slice())
}

/// Where a pasted image may be saved for the note at `tab_path`: refused
/// when the note lies outside the workspace, else the extension for its
/// MIME type (or the refusal of the type).
pub open spec fn paste_target(workspace_path: Seq<char>, tab_path: Seq<char>, mime_type: Seq<char>) -> Result<Seq<char>, Seq<char>> {
    if !is_prefix_of(std_components(workspace_path), std_components(tab_path)) {
        Err("active note is outside the current workspace"@)
    } else {
        image_extension_of(mime_type)
    }
}

/// Checks a paste into the note at `tab_path` of an image of type
/// `mime_type`: the note must lie in the workspace, and the type must be
/// one of the accepted images. Gives the file extension to use.
pub fn pasted_image_extension(workspace_path: &str, tab_path: &str, mime_type: &str) -> (r: Result<&'static str, String>)
    ensures
        match r {
            Ok(e) => paste_target(workspace_path@, tab_path@, mime_type@) == Ok::<Seq<char>, Seq<char>>(e@),
            Err(m) => paste_target(workspace_path@, tab_path@, mime_type@) == Err::<Seq<char>, Seq<char>>(m@),
        },
{
    if !std_path_starts_with(tab_path, workspace_path) {
        let m = "active note is outside the current workspace".to_owned();
        return Err(m);
    }
    image_extension(mime_type)
}

/// Checks the decoded bytes of a pasted image: refused when there are
/// none.
pub fn check_pasted_bytes(byte_count: usize) -> (r: Result<(), String>)
    ensures
        match r {
            Ok(_) => byte_count > 0,
            Err(m) => byte_count == 0 && m@ == "pasted image data is empty"@,
        },
{
    if byte_count == 0 {
        Err("pasted image data is empty".to_owned())
    } else {
        Ok(())
    }
}

/// The Markdown that links a pasted image saved at `asset_path`: its path
/// relative to the workspace, written with `/`.
pub open spec fn pasted_image_link(workspace_path: Seq<char>, asset_path: Seq<char>) -> Seq<char> {
    let relative = match strip_prefix(asset_path, workspace_path) {
        Some(r) => r,
        None => asset_path,
    };
    "![image]("@ + joined_parts(std_components(relative)) + ")"@
}

/// The Markdown inserted for a pasted image saved at `asset_path`.
pub fn pasted_image_markdown(workspace_path: &str, asset_path: &str) -> (r: String)
    ensures
        r@ == pasted_image_link(workspace_path@, asset_path@),
{
    let relative = match path_strip_prefix(&chars_of(asset_path), &chars_of(workspace_path)) {
        Some(v) => string_from(v.as_slice()),
        None => asset_path.to_owned(),
    };
    image_markdown(markdown_path(relative.as_str()).as_str())
}

} // verus!
