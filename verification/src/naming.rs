//! Names for output files: a tensor name is shortened to an abbreviation,
//! and the abbreviations of the transformed tensors are joined into the name
//! of the file that holds the result.

use vstd::prelude::*;
use crate::text::{
    append_chars,
    chars_of,
    copy_range,
    cut,
    ranges_within,
    segments,
    split_ranges,
    string_of,
    strings_view,
};

verus! {

/// A tensor name has a segment of which nothing can be kept: an empty one,
/// as two separators in a row or a separator at the end leave it.
#[derive(Clone, Copy, Debug, PartialEq, Eq, Structural)]
pub enum NamingError {
    EmptySegment,
}

/// The characters that separate the segments of a tensor name.
pub open spec fn name_separators() -> Seq<char> {
    seq!['_', '.']
}

/// The segments of a tensor name.
pub open spec fn name_segments(key: Seq<char>) -> Seq<Seq<char>> {
    segments(key, name_separators())
}

/// A decimal digit.
pub open spec fn is_digit(c: char) -> bool {
    '0' <= c && c <= '9'
}

/// The number that a sequence of decimal digits writes.
pub open spec fn digits_value(digits: Seq<char>) -> nat
    decreases digits.len(),
{
    if digits.len() == 0 {
        0
    } else {
        digits_value(digits.drop_last()) * 10 + (digits.last() as nat - '0' as nat) as nat
    }
}

/// A segment without the `+` that may stand before its digits.
pub open spec fn unsigned_part(part: Seq<char>) -> Seq<char> {
    if part.len() > 0 && part[0] == '+' {
        part.drop_first()
    } else {
        part
    }
}

/// At least one decimal digit and nothing else, with a value that a
/// machine index can hold.
pub open spec fn is_number(digits: Seq<char>) -> bool {
    &&& digits.len() > 0
    &&& forall|i: int| 0 <= i < digits.len() ==> is_digit(#[trigger] digits[i])
    &&& digits_value(digits) <= usize::MAX
}

/// The segment writes an index: a number, after an optional `+`.
pub open spec fn is_index(part: Seq<char>) -> bool {
    is_number(unsigned_part(part))
}

/// The segment is one of the two text-encoder tags, which are kept whole.
pub open spec fn is_group_tag(part: Seq<char>) -> bool {
    part == seq!['t', 'e', '1'] || part == seq!['t', 'e', '2']
}

/// The segment only says to which family the tensor belongs, and is
/// dropped: the first segment, and the second where the first is `lora` or
/// a text-encoder tag.
pub open spec fn is_leading(parts: Seq<Seq<char>>, i: int) -> bool {
    i == 0 || (i == 1 && (parts[0] == seq!['l', 'o', 'r', 'a'] || is_group_tag(parts[0])))
}

/// What segment `i` adds to the abbreviation; `None` for a segment of
/// which nothing can be kept.
pub open spec fn piece(parts: Seq<Seq<char>>, i: int) -> Option<Seq<char>> {
    let part = parts[i];
    if is_group_tag(part) {
        Some(part)
    } else if is_leading(parts, i) {
        Some(Seq::empty())
    } else if is_index(part) {
        Some(part)
    } else if part.len() == 0 {
        None
    } else {
        Some(seq![part[0]])
    }
}

/// The pieces of the first `upto` segments, one after another.
pub open spec fn pieces(parts: Seq<Seq<char>>, upto: int) -> Option<Seq<char>>
    decreases upto,
{
    if upto <= 0 {
        Some(Seq::empty())
    } else {
        match (pieces(parts, upto - 1), piece(parts, upto - 1)) {
            (Some(a), Some(p)) => Some(a + p),
            _ => None,
        }
    }
}

/// The abbreviation of a tensor name.
pub open spec fn abbreviation(key: Seq<char>) -> Option<Seq<char>> {
    pieces(name_segments(key), name_segments(key).len() as int)
}

/// The abbreviations of the first `upto` names, joined by `+`.
pub open spec fn joined_abbreviations(keys: Seq<Seq<char>>, upto: int) -> Option<Seq<char>>
    decreases upto,
{
    if upto <= 0 {
        Some(Seq::empty())
    } else {
        match (joined_abbreviations(keys, upto - 1), abbreviation(keys[upto - 1])) {
            (Some(a), Some(b)) => Some(
                if upto == 1 {
                    b
                } else {
                    a + seq!['+'] + b
                },
            ),
            _ => None,
        }
    }
}

/// The name of an output file: stem, operation tag and abbreviations joined
/// by `-`, then the extension after a dot.
pub open spec fn file_name(
    stem: Seq<char>,
    tag: Seq<char>,
    joined: Seq<char>,
    extension: Seq<char>,
) -> Seq<char> {
    stem + seq!['-'] + tag + seq!['-'] + joined + seq!['.'] + extension
}

/// The character sequences held by a list of character vectors.
pub open spec fn rows(parts: Seq<Vec<char>>) -> Seq<Seq<char>> {
    Seq::new(parts.len(), |i: int| parts[i]@)
}

/// Splits a name at its separators.
fn split_segments(key: &Vec<char>) -> (parts: Vec<Vec<char>>)
    ensures
        rows(parts@) == name_segments(key@),
{
    let separators: Vec<char> = vec!['_', '.'];
    assert(separators@ =~= name_separators());
    let ranges = split_ranges(key, &separators);
    let mut parts: Vec<Vec<char>> = Vec::new();
    let mut k: usize = 0;
    while k < ranges.len()
        invariant
            k <= ranges@.len(),
            ranges_within(ranges@, key@.len()),
            parts@.len() == k,
            forall|j: int| 0 <= j < k ==> (#[trigger] parts@[j])@ == cut(key@, ranges@)[j],
        decreases ranges@.len() - k,
    {
        let (from, to) = ranges[k];
        assert(ranges@[k as int].0 <= ranges@[k as int].1 <= key@.len());
        parts.push(copy_range(key, from, to));
        k += 1;
    }
    assert(rows(parts@) =~= cut(key@, ranges@));
    parts
}

/// A longer run of digits does not write a smaller number.
proof fn lemma_digits_grow(digits: Seq<char>, k: int)
    requires
        0 <= k <= digits.len(),
        forall|i: int| 0 <= i < digits.len() ==> is_digit(#[trigger] digits[i]),
    ensures
        digits_value(digits.take(k)) <= digits_value(digits),
    decreases digits.len() - k,
{
    if k == digits.len() {
        assert(digits.take(k) =~= digits);
    } else {
        lemma_digits_grow(digits, k + 1);
        let next = digits.take(k + 1);
        assert(next.drop_last() =~= digits.take(k));
        assert(is_digit(digits[k]));
        assert(next.last() == digits[k]);
    }
}

/// Whether a segment writes an index.
fn segment_is_index(part: &Vec<char>) -> (r: bool)
    ensures
        r == is_index(part@),
{
    let start: usize = if part.len() > 0 && part[0] == '+' {
        1
    } else {
        0
    };
    let ghost digits = part@.subrange(start as int, part@.len() as int);
    assert(start == 1 ==> digits =~= part@.drop_first());
    assert(start == 0 ==> digits =~= part@);
    if start == part.len() {
        return false;
    }
    let mut value: usize = 0;
    let mut i: usize = start;
    while i < part.len()
        invariant
            start <= i <= part@.len(),
            digits == part@.subrange(start as int, part@.len() as int),
            digits == unsigned_part(part@),
            forall|j: int| 0 <= j < i - start ==> is_digit(#[trigger] digits[j]),
            value == digits_value(digits.take(i - start)),
        decreases part@.len() - i,
    {
        let c: char = part[i];
        assert(c == digits[i - start]);
        if !(c >= '0' && c <= '9') {
            assert(!is_digit(digits[i - start]));
            return false;
        }
        proof {
            let next = digits.take(i - start + 1);
            assert(next.drop_last() =~= digits.take(i - start));
            assert(next.last() == c);
        }
        let d: usize = (c as u32 - '0' as u32) as usize;
        let grown = match value.checked_mul(10) {
            Some(v) => v.checked_add(d),
            None => None,
        };
        match grown {
            Some(v) => {
                value = v;
            },
            None => {
                proof {
                    if forall|j: int| 0 <= j < digits.len() ==> is_digit(#[trigger] digits[j]) {
                        lemma_digits_grow(digits, i - start + 1);
                    }
                }
                return false;
            },
        }
        i += 1;
    }
    assert(digits.take(i - start) =~= digits);
    true
}

/// Whether a segment is one of the two text-encoder tags.
fn segment_is_group_tag(part: &Vec<char>) -> (r: bool)
    ensures
        r == is_group_tag(part@),
{
    let r = part.len() == 3 && part[0] == 't' && part[1] == 'e' && (part[2] == '1' || part[2]
        == '2');
    proof {
        if r {
            assert(part@ =~= seq!['t', 'e', part@[2]]);
        } else if is_group_tag(part@) {
            assert(part@.len() == 3);
            assert(part@[0] == 't' && part@[1] == 'e');
        }
    }
    r
}

/// Whether a segment is the word `lora`.
fn segment_is_lora(part: &Vec<char>) -> (r: bool)
    ensures
        r == (part@ == seq!['l', 'o', 'r', 'a']),
{
    let r = part.len() == 4 && part[0] == 'l' && part[1] == 'o' && part[2] == 'r' && part[3]
        == 'a';
    proof {
        if r {
            assert(part@ =~= seq!['l', 'o', 'r', 'a']);
        } else if part@ == seq!['l', 'o', 'r', 'a'] {
            assert(part@.len() == 4);
            assert(part@[0] == 'l' && part@[1] == 'o' && part@[2] == 'r' && part@[3] == 'a');
        }
    }
    r
}

/// The abbreviation of a tensor name, as characters.
fn abbreviate_chars(key: &Vec<char>) -> (r: Result<Vec<char>, NamingError>)
    ensures
        match r {
            Ok(a) => abbreviation(key@) == Some(a@),
            Err(_) => abbreviation(key@) is None,
        },
{
    let parts = split_segments(key);
    let ghost segs = name_segments(key@);
    let mut out: Vec<char> = Vec::new();
    let mut i: usize = 0;
    while i < parts.len()
        invariant
            i <= parts@.len(),
            segs == rows(parts@),
            segs == name_segments(key@),
            pieces(segs, i as int) == Some(out@),
        decreases parts@.len() - i,
    {
        let part = &parts[i];
        assert(part@ == segs[i as int]);
        let ghost before = out@;
        if segment_is_group_tag(part) {
            append_chars(&mut out, part);
        } else if i == 0 || (i == 1 && (segment_is_lora(&parts[0]) || segment_is_group_tag(
            &parts[0],
        ))) {
            assert(parts@[0]@ == segs[0]);
            assert(is_leading(segs, i as int));
            assert(before + Seq::<char>::empty() =~= before);
        } else if segment_is_index(part) {
            assert(parts@[0]@ == segs[0]);
            append_chars(&mut out, part);
        } else if part.len() == 0 {
            assert(parts@[0]@ == segs[0]);
            assert(piece(segs, i as int) is None);
            proof {
                lemma_pieces_fail(segs, i as int + 1, segs.len() as int);
            }
            return Err(NamingError::EmptySegment);
        } else {
            assert(parts@[0]@ == segs[0]);
            out.push(part[0]);
            assert(out@ =~= before + seq![part@[0]]);
        }
        i += 1;
    }
    Ok(out)
}

/// Once a segment fails, no longer run of segments has an abbreviation.
proof fn lemma_pieces_fail(parts: Seq<Seq<char>>, k: int, upto: int)
    requires
        0 <= k <= upto,
        pieces(parts, k) is None,
    ensures
        pieces(parts, upto) is None,
    decreases upto - k,
{
    if k < upto {
        lemma_pieces_fail(parts, k, upto - 1);
    }
}

/// Abbreviates a tensor name. The name is split at `_` and `.`; the two
/// text-encoder tags `te1` and `te2` are kept whole wherever they stand;
/// the first segment is dropped, and so is the second where the first is
/// `lora` or a text-encoder tag; a segment that writes an index is kept
/// whole; of any other segment the first character is kept.
///
/// Fails where a segment that is not dropped is empty.
pub fn abbreviate_key(key: &str) -> (r: Result<String, NamingError>)
    ensures
        match r {
            Ok(a) => abbreviation(key@) == Some(a@),
            Err(_) => abbreviation(key@) is None,
        },
{
    let chars = chars_of(key);
    match abbreviate_chars(&chars) {
        Ok(a) => Ok(string_of(&a)),
        Err(e) => Err(e),
    }
}

/// The name of the file that holds a container after an operation on the
/// tensors named by `keys`: `{stem}-{tag}-{abbreviations}.{extension}`, the
/// abbreviations of the keys joined by `+` in the order given.
///
/// Fails where one of the keys has no abbreviation.
pub fn generate_new_filename(stem: &str, tag: &str, extension: &str, keys: &Vec<String>) -> (r:
    Result<String, NamingError>)
    ensures
        match r {
            Ok(name) => joined_abbreviations(
                strings_view(keys@),
                keys@.len() as int,
            ) matches Some(joined)
                && name@ == file_name(stem@, tag@, joined, extension@),
            Err(_) => joined_abbreviations(strings_view(keys@), keys@.len() as int) is None,
        },
{
    let mut joined: Vec<char> = Vec::new();
    let mut i: usize = 0;
    while i < keys.len()
        invariant
            i <= keys@.len(),
            joined_abbreviations(strings_view(keys@), i as int) == Some(joined@),
        decreases keys@.len() - i,
    {
        let chars = chars_of(keys[i].as_str());
        match abbreviate_chars(&chars) {
            Ok(a) => {
                let ghost before = joined@;
                if i > 0 {
                    joined.push('+');
                }
                append_chars(&mut joined, &a);
                proof {
                    if i > 0 {
                        assert(joined@ =~= before + seq!['+'] + a@);
                    } else {
                        assert(joined@ =~= a@);
                    }
                }
            },
            Err(e) => {
                proof {
                    lemma_join_fails(strings_view(keys@), i as int + 1, keys@.len() as int);
                }
                return Err(e);
            },
        }
        i += 1;
    }
    let mut name: Vec<char> = chars_of(stem);
    name.push('-');
    append_chars(&mut name, &chars_of(tag));
    name.push('-');
    append_chars(&mut name, &joined);
    name.push('.');
    append_chars(&mut name, &chars_of(extension));
    assert(name@ =~= file_name(stem@, tag@, joined@, extension@));
    Ok(string_of(&name))
}

/// Once a key fails, no longer list of keys has joined abbreviations.
proof fn lemma_join_fails(keys: Seq<Seq<char>>, k: int, upto: int)
    requires
        0 <= k <= upto,
        joined_abbreviations(keys, k) is None,
    ensures
        joined_abbreviations(keys, upto) is None,
    decreases upto - k,
{
    if k < upto {
        lemma_join_fails(keys, k, upto - 1);
    }
}

} // verus!
