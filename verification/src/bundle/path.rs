//! Relative paths inside a bundle, and UTF-8 text read from a bundle.
use vstd::prelude::*;
use vstd::utf8::{encode_utf8, valid_utf8};

use crate::error::Error;

verus! {

/// How a path is split into components: as on Unix, or as on Windows.
#[derive(Clone, Copy, Debug, PartialEq, Eq)]
pub enum PathStyle {
    /// `/` is the only separator, and there are no prefixes.
    Unix,
    /// `/` and `\` both separate components, and a path may open with a
    /// prefix: a drive such as `C:`, or a UNC or device prefix that opens
    /// with two separators.
    Windows,
}

/// The byte `/`.
pub const SLASH: u8 = 47;

/// The byte `\`.
pub const BACKSLASH: u8 = 92;

/// The byte `:`.
pub const COLON: u8 = 58;

/// The byte `.`.
pub const DOT: u8 = 46;

/// Whether `byte` separates components in `style`.
pub open spec fn is_separator(byte: u8, style: PathStyle) -> bool {
    match style {
        PathStyle::Unix => byte == SLASH,
        PathStyle::Windows => byte == SLASH || byte == BACKSLASH,
    }
}

/// Whether `byte` is an ASCII letter.
pub open spec fn is_ascii_letter(byte: u8) -> bool {
    (65 <= byte <= 90) || (97 <= byte <= 122)
}

/// Whether `b` opens with a drive prefix, a letter and a colon, which
/// Windows reads as a prefix component.
pub open spec fn drive_prefix(b: Seq<u8>) -> bool {
    b.len() >= 2 && is_ascii_letter(b[0]) && b[1] == COLON
}

/// Whether a `..` component starts at byte `i` of the path `b`: two dots
/// that make up a whole segment between separators of `style`.
pub open spec fn parent_component_at(b: Seq<u8>, i: int, style: PathStyle) -> bool {
    &&& 0 <= i
    &&& i + 2 <= b.len()
    &&& b[i] == DOT
    &&& b[i + 1] == DOT
    &&& (i == 0 || is_separator(b[i - 1], style))
    &&& (i + 2 == b.len() || is_separator(b[i + 2], style))
}

/// Whether the path whose UTF-8 bytes are `b`, read in `style`, may name a
/// bundle member: it is not empty; it does not open with a separator, so
/// it has no root (and, on Windows, no UNC or device prefix); on Windows it
/// does not open with a drive prefix; and none of its components climbs to
/// a parent directory (`..`).
pub open spec fn relative_path(b: Seq<u8>, style: PathStyle) -> bool {
    &&& b.len() > 0
    &&& !is_separator(b[0], style)
    &&& !(style == PathStyle::Windows && drive_prefix(b))
    &&& forall|i: int| !parent_component_at(b, i, style)
}

/// Whether `byte` separates components in `style`.
pub fn separator(byte: u8, style: PathStyle) -> (r: bool)
    ensures
        r == is_separator(byte, style),
{
    match style {
        PathStyle::Unix => byte == SLASH,
        PathStyle::Windows => byte == SLASH || byte == BACKSLASH,
    }
}

/// Accepts `path` when, read in `style`, it is relative and free of
/// parent components (see [`relative_path`]); otherwise reports an invalid
/// bundle path.
pub fn validate_relative(path: &str, style: PathStyle) -> (r: Result<(), Error>)
    ensures
        r is Ok <==> relative_path(encode_utf8(path@), style),
        r matches Err(e) ==> e is InvalidBundlePath,
{
    let b = path.as_bytes();
    if b.len() == 0 || separator(b[0], style) {
        return Err(Error::InvalidBundlePath);
    }
    let windows = match style {
        PathStyle::Windows => true,
        PathStyle::Unix => false,
    };
    if windows && b.len() >= 2 && ((65 <= b[0] && b[0] <= 90) || (97 <= b[0] && b[0] <= 122))
        && b[1] == COLON {
        return Err(Error::InvalidBundlePath);
    }
    let mut i: usize = 0;
    while i < b.len()
        invariant
            i <= b@.len(),
            b@ == encode_utf8(path@),
            forall|j: int| 0 <= j < i ==> !parent_component_at(b@, j, style),
        decreases b@.len() - i,
    {
        if b[i] == DOT && i + 1 < b.len() && b[i + 1] == DOT && (i == 0 || separator(b[i - 1], style))
            && (i + 2 == b.len() || separator(b[i + 2], style)) {
            assert(parent_component_at(b@, i as int, style));
            return Err(Error::InvalidBundlePath);
        }
        i = i + 1;
    }
    Ok(())
}

/// Whether bytes `i` to `j` (exclusive) of `b` are one whole component of
/// the path in `style`: no separator inside (`/`, and on Windows also
/// `\`), and a separator or an end of the path on each side.
pub open spec fn whole_component(b: Seq<u8>, i: int, j: int, style: PathStyle) -> bool {
    &&& 0 <= i <= j <= b.len()
    &&& (i == 0 || b[i - 1] == 47 || (style == PathStyle::Windows && b[i - 1] == 92))
    &&& (j == b.len() || b[j] == 47 || (style == PathStyle::Windows && b[j] == 92))
    &&& forall|k: int|
        i <= k < j ==> !(b[k] == 47 || (style == PathStyle::Windows && b[k] == 92))
}

/// A path is accepted exactly when it is not empty, does not open with a
/// separator (`/`, and on Windows also `\`), does not open on Windows with
/// a drive (an ASCII letter and `:`), and none of its whole components is
/// `..`. Every other byte, a space, a dot inside a name or any non-ASCII
/// byte, is part of a name and plays no role.
pub proof fn lemma_relative_path_components(b: Seq<u8>, style: PathStyle)
    ensures
        relative_path(b, style) <==> {
            &&& b.len() > 0
            &&& b[0] != 47
            &&& !(style == PathStyle::Windows && b[0] == 92)
            &&& !(style == PathStyle::Windows && b.len() >= 2 && b[1] == 58 && ((65 <= b[0] <= 90)
                || (97 <= b[0] <= 122)))
            &&& forall|i: int, j: int|
                #[trigger] whole_component(b, i, j, style) ==> b.subrange(i, j) != seq![46u8, 46u8]
        },
{
    if relative_path(b, style) {
        assert forall|i: int, j: int| #[trigger]
            whole_component(b, i, j, style) implies b.subrange(i, j) != seq![46u8, 46u8] by {
            if b.subrange(i, j) == seq![46u8, 46u8] {
                assert(b.subrange(i, j).len() == 2);
                assert(b[i] == b.subrange(i, j)[0]);
                assert(b[i + 1] == b.subrange(i, j)[1]);
                assert(parent_component_at(b, i, style));
            }
        }
    }
    if b.len() > 0 && b[0] != 47 && !(style == PathStyle::Windows && b[0] == 92) && !(style
        == PathStyle::Windows && b.len() >= 2 && b[1] == 58 && ((65 <= b[0] <= 90) || (97 <= b[0]
        <= 122))) && (forall|i: int, j: int|
        #[trigger] whole_component(b, i, j, style) ==> b.subrange(i, j) != seq![46u8, 46u8]) {
        assert forall|i: int| !parent_component_at(b, i, style) by {
            if parent_component_at(b, i, style) {
                assert(whole_component(b, i, i + 2, style));
                assert(b.subrange(i, i + 2) =~= seq![46u8, 46u8]);
            }
        }
    }
}

/// Calls `String::from_utf8` on `bytes` and keeps the string, dropping the
/// error. Trusted: `std` documents that it fails exactly on bytes that are
/// not valid UTF-8, and that the string it returns holds those bytes.
#[verifier::external_body]
pub(crate) fn string_from_utf8(bytes: Vec<u8>) -> (r: Option<String>)
    ensures
        r is Some <==> valid_utf8(bytes@),
        r matches Some(s) ==> encode_utf8(s@) == bytes@,
{
    String::from_utf8(bytes).ok()
}

} // verus!
