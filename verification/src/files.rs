//! Telling files apart by the extension of their path.

use vstd::prelude::*;
use crate::text::chars_of;

verus! {

/// The lower-case form of an ASCII capital; any other character is left
/// as it is.
pub open spec fn ascii_lower(c: char) -> char {
    if 'A' <= c && c <= 'Z' {
        ((c as u8) + 32) as char
    } else {
        c
    }
}

/// A text with its ASCII capitals in lower case.
pub open spec fn lowered(s: Seq<char>) -> Seq<char> {
    Seq::new(s.len(), |i: int| ascii_lower(s[i]))
}

/// The extension names an image format: `jpg`, `jpeg`, `png` or `jxl`, in
/// any mix of upper and lower case.
pub open spec fn names_image(extension: Seq<char>) -> bool {
    let l = lowered(extension);
    l == seq!['j', 'p', 'g'] || l == seq!['j', 'p', 'e', 'g'] || l == seq!['p', 'n', 'g'] || l
        == seq!['j', 'x', 'l']
}

/// The extension is `jxl`, in any mix of upper and lower case.
pub open spec fn names_jxl(extension: Seq<char>) -> bool {
    lowered(extension) == seq!['j', 'x', 'l']
}

/// The lower-case form of an ASCII capital.
pub fn to_ascii_lower(c: char) -> (r: char)
    ensures
        r == ascii_lower(c),
{
    if c >= 'A' && c <= 'Z' {
        ((c as u8) + 32) as char
    } else {
        c
    }
}

/// Whether a text, with its ASCII capitals lowered, is the given word.
fn lowered_is(text: &Vec<char>, word: &Vec<char>) -> (r: bool)
    ensures
        r == (lowered(text@) == word@),
{
    if text.len() != word.len() {
        return false;
    }
    let mut i: usize = 0;
    while i < text.len()
        invariant
            i <= text@.len(),
            text@.len() == word@.len(),
            forall|j: int| 0 <= j < i ==> ascii_lower(text@[j]) == word@[j],
        decreases text@.len() - i,
    {
        if to_ascii_lower(text[i]) != word[i] {
            assert(lowered(text@)[i as int] != word@[i as int]);
            return false;
        }
        i += 1;
    }
    assert(lowered(text@) =~= word@);
    true
}

/// Whether an extension names an image format.
pub fn is_image_extension(extension: &str) -> (r: bool)
    ensures
        r == names_image(extension@),
{
    let e = chars_of(extension);
    lowered_is(&e, &vec!['j', 'p', 'g']) || lowered_is(&e, &vec!['j', 'p', 'e', 'g'])
        || lowered_is(&e, &vec!['p', 'n', 'g']) || lowered_is(&e, &vec!['j', 'x', 'l'])
}

/// Whether an extension is that of a JPEG XL file.
pub fn is_jxl_extension(extension: &str) -> (r: bool)
    ensures
        r == names_jxl(extension@),
{
    let e = chars_of(extension);
    lowered_is(&e, &vec!['j', 'x', 'l'])
}

/// The extension of a path as text: what `std::path::Path::extension`
/// makes of the path on the platform at hand, where that is valid UTF-8.
pub uninterp spec fn path_extension(path: Seq<char>) -> Option<Seq<char>>;

/// Reads the extension of a path with `Path::extension` and turns it into
/// text with `OsStr::to_str`; `None` where the path has no extension or the
/// extension is not valid UTF-8.
///
/// Trusted: the result depends on the text of the path alone.
#[verifier::external_body]
fn extension_of(path: &str) -> (r: Option<String>)
    ensures
        match r {
            Some(e) => path_extension(path@) == Some(e@),
            None => path_extension(path@) is None,
        },
{
    std::path::Path::new(path).extension().and_then(|e| e.to_str()).map(|e| e.to_owned())
}

/// Whether a path has the extension of an image file.
pub fn is_image_file(path: &str) -> (r: bool)
    ensures
        r == match path_extension(path@) {
            Some(e) => names_image(e),
            None => false,
        },
{
    match extension_of(path) {
        Some(e) => is_image_extension(e.as_str()),
        None => false,
    }
}

/// Whether a path has the extension of a JPEG XL file.
pub fn is_jxl_file(path: &str) -> (r: bool)
    ensures
        r == match path_extension(path@) {
            Some(e) => names_jxl(e),
            None => false,
        },
{
    match extension_of(path) {
        Some(e) => is_jxl_extension(e.as_str()),
        None => false,
    }
}

} // verus!
