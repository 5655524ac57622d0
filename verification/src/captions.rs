//! Caption files: a list of tags separated by commas, which a sentence may
//! follow.

use vstd::prelude::*;
use vstd::string::StrSliceExecFns;
use crate::text::{
    append_chars,
    chars_of,
    copy_range,
    cut,
    ranges_within,
    segments,
    split_ranges,
    string_of,
    trim_range,
    trimmed,
};

verus! {

/// What parts the tags of a caption from its sentences: a full stop, a
/// comma and a space.
pub open spec fn sentence_mark() -> Seq<char> {
    seq!['.', ',', ' ']
}

/// The sentence mark stands at position `i` of the text.
pub open spec fn mark_at(s: Seq<char>, i: int) -> bool {
    0 <= i && i + 3 <= s.len() && s[i] == '.' && s[i + 1] == ',' && s[i + 2] == ' '
}

/// The first position at or after `from` where the sentence mark stands;
/// the length of the text where it stands nowhere.
pub open spec fn next_mark(s: Seq<char>, from: int) -> int
    decreases s.len() - from,
{
    if from < 0 || from + 3 > s.len() {
        s.len() as int
    } else if mark_at(s, from) {
        from
    } else {
        next_mark(s, from + 1)
    }
}

/// The tags of a caption, still in one piece: what stands before the first
/// sentence mark.
pub open spec fn tag_part(content: Seq<char>) -> Seq<char> {
    content.subrange(0, next_mark(content, 0))
}

/// The sentences of a caption: what stands between the first sentence mark
/// and the second; nothing where there is no mark.
pub open spec fn sentence_part(content: Seq<char>) -> Seq<char> {
    let first = next_mark(content, 0);
    if first >= content.len() {
        Seq::empty()
    } else {
        content.subrange(first + 3, next_mark(content, first + 3))
    }
}

/// The character sequences of a list of string slices.
pub open spec fn strs_view(strs: Seq<&str>) -> Seq<Seq<char>> {
    Seq::new(strs.len(), |i: int| strs[i]@)
}

/// The texts joined, with the separator between each two.
pub open spec fn joined_with(items: Seq<Seq<char>>, separator: Seq<char>) -> Seq<char>
    decreases items.len(),
{
    if items.len() == 0 {
        Seq::empty()
    } else if items.len() == 1 {
        items[0]
    } else {
        joined_with(items.drop_last(), separator) + separator + items.last()
    }
}

/// The first `upto` parts, each trimmed, without those of which nothing is
/// left.
pub open spec fn kept_tags(parts: Seq<Seq<char>>, upto: int) -> Seq<Seq<char>>
    decreases upto,
{
    if upto <= 0 {
        Seq::empty()
    } else if trimmed(parts[upto - 1]).len() == 0 {
        kept_tags(parts, upto - 1)
    } else {
        kept_tags(parts, upto - 1).push(trimmed(parts[upto - 1]))
    }
}

/// A caption with its tags put right: the text is split at commas and line
/// breaks, each part is trimmed, empty parts are dropped, and what is left
/// is joined by a comma and a space.
pub open spec fn fixed_tags(content: Seq<char>) -> Seq<char> {
    let parts = segments(content, seq![',', '\n']);
    joined_with(kept_tags(parts, parts.len() as int), seq![',', ' '])
}

/// The next sentence mark at or after `from`.
fn find_mark(s: &Vec<char>, from: usize) -> (r: usize)
    requires
        from <= s@.len(),
    ensures
        r == next_mark(s@, from as int),
        from <= r <= s@.len(),
        r < s@.len() ==> r + 3 <= s@.len(),
{
    let mut i: usize = from;
    while i < s.len() && s.len() - i >= 3
        invariant
            from <= i <= s@.len(),
            next_mark(s@, from as int) == next_mark(s@, i as int),
        decreases s@.len() - i,
    {
        if s[i] == '.' && s[i + 1] == ',' && s[i + 2] == ' ' {
            return i;
        }
        i += 1;
    }
    s.len()
}

/// Splits a caption into its tags and its sentences. The tags are what
/// stands before the first sentence mark, split at every comma; the
/// sentences are what stands between the first mark and the second, trimmed,
/// and empty where the caption has no mark.
pub fn split_content<'a>(content: &'a str) -> (r: (Vec<&'a str>, &'a str))
    ensures
        strs_view(r.0@) == segments(tag_part(content@), seq![',']),
        r.1@ == trimmed(sentence_part(content@)),
{
    let chars = chars_of(content);
    let first: usize = find_mark(&chars, 0);
    let head = copy_range(&chars, 0, first);
    let commas: Vec<char> = vec![','];
    assert(commas@ =~= seq![',']);
    let ranges = split_ranges(&head, &commas);
    let mut tags: Vec<&'a str> = Vec::new();
    let mut k: usize = 0;
    while k < ranges.len()
        invariant
            k <= ranges@.len(),
            chars@ == content@,
            first <= chars@.len(),
            head@ == chars@.subrange(0, first as int),
            ranges_within(ranges@, head@.len()),
            tags@.len() == k,
            forall|j: int| 0 <= j < k ==> (#[trigger] tags@[j])@ == cut(head@, ranges@)[j],
        decreases ranges@.len() - k,
    {
        let (from, to) = ranges[k];
        assert(ranges@[k as int].0 <= ranges@[k as int].1 <= head@.len());
        let tag = content.substring_char(from, to);
        assert(tag@ =~= head@.subrange(from as int, to as int));
        tags.push(tag);
        k += 1;
    }
    assert(strs_view(tags@) =~= cut(head@, ranges@));
    let sentences = if first >= chars.len() {
        content.substring_char(0, 0)
    } else {
        let second: usize = find_mark(&chars, first + 3);
        let (a, b) = trim_range(&chars, first + 3, second);
        content.substring_char(a, b)
    };
    proof {
        if first >= chars.len() {
            assert(content@.subrange(0, 0) =~= trimmed(Seq::<char>::empty()));
        }
    }
    (tags, sentences)
}

/// Puts the tags of a caption right: splits the text at commas and line
/// breaks, trims each part, drops the empty ones, and joins what is left by
/// a comma and a space.
pub fn fix_tags(content: &str) -> (r: String)
    ensures
        r@ == fixed_tags(content@),
{
    let chars = chars_of(content);
    let breaks: Vec<char> = vec![',', '\n'];
    assert(breaks@ =~= seq![',', '\n']);
    let ranges = split_ranges(&chars, &breaks);
    let ghost parts = segments(content@, seq![',', '\n']);
    let ghost separator = seq![',', ' '];
    let mut out: Vec<char> = Vec::new();
    let mut kept: usize = 0;
    let mut k: usize = 0;
    while k < ranges.len()
        invariant
            k <= ranges@.len(),
            chars@ == content@,
            ranges_within(ranges@, chars@.len()),
            parts == cut(chars@, ranges@),
            separator == seq![',', ' '],
            kept == kept_tags(parts, k as int).len(),
            kept <= k,
            out@ == joined_with(kept_tags(parts, k as int), separator),
        decreases ranges@.len() - k,
    {
        let (from, to) = ranges[k];
        assert(ranges@[k as int].0 <= ranges@[k as int].1 <= chars@.len());
        assert(parts[k as int] == chars@.subrange(from as int, to as int));
        let (a, b) = trim_range(&chars, from, to);
        if a < b {
            let tag = copy_range(&chars, a, b);
            let ghost before = out@;
            let ghost tags = kept_tags(parts, k as int);
            let ghost grown = kept_tags(parts, k as int + 1);
            assert(grown == tags.push(tag@));
            assert(grown.drop_last() =~= tags);
            if kept > 0 {
                out.push(',');
                out.push(' ');
                assert(before.push(',').push(' ') =~= before + separator);
            }
            append_chars(&mut out, &tag);
            kept += 1;
        }
        k += 1;
    }
    string_of(&out)
}

} // verus!
