//! The order of a tensor table: by the start of the span, then by its end,
//! then by name. Every set of entries with different names has exactly one
//! table in this order, so a header read twice gives the same table.

use vstd::prelude::*;
use crate::header::{entries_view, lists, EntryModel, RawEntry};
use crate::text::{
    lemma_text_before_asymmetric,
    lemma_text_before_total,
    lemma_text_before_transitive,
    str_before,
    text_before,
};

verus! {

/// What decides the place of a tensor in a table: its span and its name.
pub struct Key {
    pub start: usize,
    pub end: usize,
    pub name: Seq<char>,
}

/// Key `a` comes before key `b`: its span starts earlier; or as early, and
/// ends earlier; or the spans are the same, and its name comes first.
pub open spec fn key_before(a: Key, b: Key) -> bool {
    a.start < b.start || (a.start == b.start && (a.end < b.end || (a.end == b.end && text_before(
        a.name,
        b.name,
    ))))
}

/// The key of a header entry.
pub open spec fn entry_key(e: EntryModel) -> Key {
    Key { start: e.start, end: e.end, name: e.name }
}

/// Entry `a` stands before entry `b` in a table.
pub open spec fn entry_before(a: EntryModel, b: EntryModel) -> bool {
    key_before(entry_key(a), entry_key(b))
}

/// Every entry of the table stands before those that follow it.
pub open spec fn ordered(table: Seq<EntryModel>) -> bool {
    forall|i: int, j: int|
        0 <= i < j < table.len() ==> entry_before(#[trigger] table[i], #[trigger] table[j])
}

/// No entry of the table stands before one that precedes it.
pub open spec fn sorted(table: Seq<EntryModel>) -> bool {
    forall|i: int, j: int|
        0 <= i < j < table.len() ==> !entry_before(#[trigger] table[j], #[trigger] table[i])
}

/// No two entries of the table share a name.
pub open spec fn names_differ(table: Seq<EntryModel>) -> bool {
    forall|i: int, j: int|
        0 <= i < j < table.len() ==> (#[trigger] table[i]).name != (#[trigger] table[j]).name
}

/// The table holds the entry.
pub open spec fn holds(table: Seq<EntryModel>, e: EntryModel) -> bool {
    exists|j: int| 0 <= j < table.len() && #[trigger] table[j] == e
}

/// The two tables hold the same entries.
pub open spec fn same_entries(a: Seq<EntryModel>, b: Seq<EntryModel>) -> bool {
    &&& forall|i: int| 0 <= i < a.len() ==> holds(b, #[trigger] a[i])
    &&& forall|j: int| 0 <= j < b.len() ==> holds(a, #[trigger] b[j])
}

/// The table of a set of entries: the one sequence that lists them in
/// order.
pub open spec fn table_of(entries: Map<Seq<char>, EntryModel>) -> Seq<EntryModel> {
    choose|table: Seq<EntryModel>| ordered(table) && lists(table, entries)
}

/// Of two keys at most one comes before the other.
pub proof fn lemma_before_asymmetric(a: Key, b: Key)
    requires
        key_before(a, b),
    ensures
        !key_before(b, a),
{
    if a.start == b.start && a.end == b.end {
        lemma_text_before_asymmetric(a.name, b.name);
    }
}

/// Of two keys with different names one comes before the other.
pub proof fn lemma_before_total(a: Key, b: Key)
    requires
        a.name != b.name,
    ensures
        key_before(a, b) || key_before(b, a),
{
    lemma_text_before_total(a.name, b.name);
}

/// What comes before a key that comes before a third comes before the
/// third.
pub proof fn lemma_before_transitive(a: Key, b: Key, c: Key)
    requires
        key_before(a, b),
        key_before(b, c),
    ensures
        key_before(a, c),
{
    if a.start == b.start && a.end == b.end && b.start == c.start && b.end == c.end {
        lemma_text_before_transitive(a.name, b.name, c.name);
    }
}

/// Whatever `b` is, a key `c` that comes before `a` comes before `b`, or
/// `b` comes before `a`.
pub proof fn lemma_before_splits(c: Key, a: Key, b: Key)
    requires
        key_before(c, a),
    ensures
        key_before(c, b) || key_before(b, a),
{
    if c.start == b.start && c.end == b.end && b.start == a.start && b.end == a.end {
        if c.name == b.name {
        } else {
            lemma_text_before_total(c.name, b.name);
            if text_before(b.name, c.name) {
                lemma_text_before_transitive(b.name, c.name, a.name);
            }
        }
    }
}

/// A sorted table without a name twice is in order.
pub proof fn lemma_sorted_is_ordered(table: Seq<EntryModel>)
    requires
        sorted(table),
        names_differ(table),
    ensures
        ordered(table),
{
    assert forall|i: int, j: int| 0 <= i < j < table.len() implies entry_before(
        #[trigger] table[i],
        #[trigger] table[j],
    ) by {
        lemma_before_total(entry_key(table[i]), entry_key(table[j]));
    }
}

/// Two tables in order that hold the same entries are the same table.
pub proof fn lemma_ordered_unique(a: Seq<EntryModel>, b: Seq<EntryModel>)
    requires
        ordered(a),
        ordered(b),
        same_entries(a, b),
    ensures
        a == b,
    decreases a.len(),
{
    if a.len() == 0 {
        if b.len() > 0 {
            assert(holds(a, b[0]));
        }
        assert(a =~= b);
    } else if b.len() == 0 {
        assert(holds(b, a[0]));
    } else {
        lemma_same_first(a, b);
        let ta = a.drop_first();
        let tb = b.drop_first();
        lemma_tail_holds(a, b);
        lemma_tail_holds(b, a);
        assert(ordered(ta)) by {
            assert forall|i: int, j: int| 0 <= i < j < ta.len() implies entry_before(
                #[trigger] ta[i],
                #[trigger] ta[j],
            ) by {
                assert(entry_before(a[i + 1], a[j + 1]));
            }
        }
        assert(ordered(tb)) by {
            assert forall|i: int, j: int| 0 <= i < j < tb.len() implies entry_before(
                #[trigger] tb[i],
                #[trigger] tb[j],
            ) by {
                assert(entry_before(b[i + 1], b[j + 1]));
            }
        }
        lemma_ordered_unique(ta, tb);
        assert(a =~= seq![a[0]] + ta);
        assert(b =~= seq![b[0]] + tb);
    }
}

/// Two tables in order that hold the same entries begin with the same
/// entry.
proof fn lemma_same_first(a: Seq<EntryModel>, b: Seq<EntryModel>)
    requires
        ordered(a),
        ordered(b),
        same_entries(a, b),
        a.len() > 0,
        b.len() > 0,
    ensures
        a[0] == b[0],
{
    assert(holds(b, a[0]));
    assert(holds(a, b[0]));
    let j = choose|j: int| 0 <= j < b.len() && #[trigger] b[j] == a[0];
    let k = choose|k: int| 0 <= k < a.len() && #[trigger] a[k] == b[0];
    if j > 0 {
        assert(entry_before(b[0], b[j]));
        if k > 0 {
            assert(entry_before(a[0], a[k]));
            lemma_before_asymmetric(entry_key(a[0]), entry_key(b[0]));
        }
    }
}

/// Of two tables in order that hold the same entries, what follows the
/// first entry of the one is held by what follows the first entry of the
/// other.
proof fn lemma_tail_holds(a: Seq<EntryModel>, b: Seq<EntryModel>)
    requires
        ordered(a),
        ordered(b),
        same_entries(a, b),
        a.len() > 0,
        b.len() > 0,
        a[0] == b[0],
    ensures
        forall|i: int| 0 <= i < a.len() - 1 ==> holds(b.drop_first(), #[trigger] a.drop_first()[i]),
{
    let ta = a.drop_first();
    let tb = b.drop_first();
    assert forall|i: int| 0 <= i < ta.len() implies holds(tb, #[trigger] ta[i]) by {
        assert(ta[i] == a[i + 1]);
        assert(holds(b, a[i + 1]));
        let q = choose|q: int| 0 <= q < b.len() && #[trigger] b[q] == a[i + 1];
        assert(entry_before(a[0], a[i + 1]));
        if q == 0 {
            lemma_before_asymmetric(entry_key(a[0]), entry_key(a[i + 1]));
        }
        assert(tb[q - 1] == ta[i]);
    }
}

/// A table in order that lists a set of entries is the table of the set.
pub proof fn lemma_table_of(table: Seq<EntryModel>, entries: Map<Seq<char>, EntryModel>)
    requires
        ordered(table),
        lists(table, entries),
    ensures
        table_of(entries) == table,
{
    let other = table_of(entries);
    assert(ordered(other) && lists(other, entries));
    assert forall|i: int| 0 <= i < table.len() implies holds(other, #[trigger] table[i]) by {
        let j = choose|j: int| 0 <= j < other.len() && (#[trigger] other[j]).name == table[i].name;
        assert(other[j] == table[i]);
    }
    assert forall|j: int| 0 <= j < other.len() implies holds(table, #[trigger] other[j]) by {
        let i = choose|i: int| 0 <= i < table.len() && (#[trigger] table[i]).name == other[j].name;
        assert(table[i] == other[j]);
    }
    lemma_ordered_unique(table, other);
}

/// A sorted table that holds the entries of a list of a set of entries,
/// each once, is the table of the set.
pub proof fn lemma_sorted_lists(
    table: Seq<EntryModel>,
    given: Seq<EntryModel>,
    entries: Map<Seq<char>, EntryModel>,
)
    requires
        lists(given, entries),
        sorted(table),
        same_entries(table, given),
        names_differ(given) ==> names_differ(table),
    ensures
        table_of(entries) == table,
{
    assert(names_differ(given));
    lemma_sorted_is_ordered(table);
    assert forall|i: int| 0 <= i < table.len() implies entries.dom().contains(
        (#[trigger] table[i]).name,
    ) && entries[table[i].name] == table[i] by {
        let j = choose|j: int| 0 <= j < given.len() && given[j] == table[i];
        assert(entries[given[j].name] == given[j]);
    }
    assert forall|name: Seq<char>| entries.dom().contains(name) implies exists|i: int|
        0 <= i < table.len() && (#[trigger] table[i]).name == name by {
        let j = choose|j: int| 0 <= j < given.len() && (#[trigger] given[j]).name == name;
        let i = choose|i: int| 0 <= i < table.len() && table[i] == given[j];
        assert(table[i].name == name);
    }
    lemma_table_of(table, entries);
}

/// Whether an entry stands before another in a table.
pub fn entry_precedes(a: &RawEntry, b: &RawEntry) -> (r: bool)
    ensures
        r == entry_before(a@, b@),
{
    if a.start != b.start {
        a.start < b.start
    } else if a.end != b.end {
        a.end < b.end
    } else {
        str_before(a.name.as_str(), b.name.as_str())
    }
}

/// An entry put into a sorted table behind everything that stands before
/// it, and in front of something that does not, leaves the table sorted.
proof fn lemma_insert_sorted(table: Seq<EntryModel>, p: int, e: EntryModel)
    requires
        sorted(table),
        0 <= p <= table.len(),
        forall|q: int| 0 <= q < p ==> entry_before(#[trigger] table[q], e),
        p < table.len() ==> !entry_before(table[p], e),
    ensures
        sorted(table.insert(p, e)),
{
    let after = table.insert(p, e);
    assert forall|i: int, j: int| 0 <= i < j < after.len() implies !entry_before(
        #[trigger] after[j],
        #[trigger] after[i],
    ) by {
        if j == p {
            assert(entry_before(table[i], e));
            lemma_before_asymmetric(entry_key(table[i]), entry_key(e));
        } else if i == p {
            assert(after[j] == table[j - 1]);
            if entry_before(after[j], e) {
                lemma_before_splits(entry_key(after[j]), entry_key(e), entry_key(table[p]));
                if j - 1 > p {
                    assert(!entry_before(table[j - 1], table[p]));
                }
            }
        } else {
            let bi = if i < p { i } else { i - 1 };
            let bj = if j < p { j } else { j - 1 };
            assert(after[i] == table[bi] && after[j] == table[bj]);
        }
    }
}

/// A table that holds the entries of a list holds, with one more entry put
/// in, the entries of the list with that entry put in front.
proof fn lemma_insert_same(table: Seq<EntryModel>, list: Seq<EntryModel>, p: int, e: EntryModel)
    requires
        same_entries(table, list),
        0 <= p <= table.len(),
    ensures
        same_entries(table.insert(p, e), seq![e] + list),
{
    let after = table.insert(p, e);
    let longer = seq![e] + list;
    assert forall|i: int| 0 <= i < after.len() implies holds(longer, #[trigger] after[i]) by {
        if i == p {
            assert(longer[0] == e);
        } else {
            let bi = if i < p { i } else { i - 1 };
            assert(after[i] == table[bi]);
            assert(holds(list, table[bi]));
            let k = choose|k: int| 0 <= k < list.len() && #[trigger] list[k] == table[bi];
            assert(longer[k + 1] == after[i]);
        }
    }
    assert forall|k: int| 0 <= k < longer.len() implies holds(after, #[trigger] longer[k]) by {
        if k == 0 {
            assert(after[p] == e);
        } else {
            assert(longer[k] == list[k - 1]);
            assert(holds(table, list[k - 1]));
            let bj = choose|bj: int| 0 <= bj < table.len() && #[trigger] table[bj] == list[k - 1];
            let j = if bj < p { bj } else { bj + 1 };
            assert(after[j] == longer[k]);
        }
    }
}

/// An entry whose name no entry of a list has can be put into a table
/// that holds entries of the list only, and no name will be there twice.
proof fn lemma_insert_names(table: Seq<EntryModel>, list: Seq<EntryModel>, p: int, e: EntryModel)
    requires
        names_differ(table),
        forall|i: int| 0 <= i < table.len() ==> holds(list, #[trigger] table[i]),
        forall|k: int| 0 <= k < list.len() ==> (#[trigger] list[k]).name != e.name,
        0 <= p <= table.len(),
    ensures
        names_differ(table.insert(p, e)),
{
    let after = table.insert(p, e);
    assert forall|i: int, j: int| 0 <= i < j < after.len() implies (#[trigger] after[i]).name != (
    #[trigger] after[j]).name by {
        let bi = if i < p { i } else { i - 1 };
        let bj = if j < p { j } else { j - 1 };
        if i == p {
            assert(after[j] == table[bj]);
            assert(holds(list, table[bj]));
        } else if j == p {
            assert(after[i] == table[bi]);
            assert(holds(list, table[bi]));
        } else {
            assert(after[i] == table[bi] && after[j] == table[bj]);
        }
    }
}

/// Sorts the entries of a header into the order of a table. The result
/// holds the same entries, none before one that should precede it.
pub fn sort_entries(entries: Vec<RawEntry>) -> (r: Vec<RawEntry>)
    ensures
        r@.len() == entries@.len(),
        sorted(entries_view(r@)),
        same_entries(entries_view(r@), entries_view(entries@)),
        names_differ(entries_view(entries@)) ==> names_differ(entries_view(r@)),
{
    let ghost given = entries_view(entries@);
    let mut rest = entries;
    let mut out: Vec<RawEntry> = Vec::new();
    assert(given.skip(given.len() as int) =~= Seq::<EntryModel>::empty());
    assert(entries_view(rest@) =~= given.take(rest@.len() as int));
    while rest.len() > 0
        invariant
            rest@.len() <= given.len(),
            out@.len() + rest@.len() == given.len(),
            entries_view(rest@) == given.take(rest@.len() as int),
            sorted(entries_view(out@)),
            same_entries(entries_view(out@), given.skip(rest@.len() as int)),
            names_differ(given) ==> names_differ(entries_view(out@)),
        decreases rest@.len(),
    {
        let ghost before = entries_view(out@);
        let ghost at = rest@.len() - 1;
        let ghost held = rest@;
        let e = rest.pop().unwrap();
        assert(e@ == given[at]) by {
            assert(entries_view(held)[at] == given.take(held.len() as int)[at]);
        }
        assert(entries_view(rest@) =~= given.take(rest@.len() as int)) by {
            assert forall|q: int| 0 <= q < rest@.len() implies entries_view(rest@)[q]
                == given.take(rest@.len() as int)[q] by {
                assert(entries_view(held)[q] == given.take(held.len() as int)[q]);
            }
        }
        let mut p: usize = 0;
        while p < out.len() && entry_precedes(&out[p], &e)
            invariant
                p <= out@.len(),
                before == entries_view(out@),
                forall|q: int| 0 <= q < p ==> entry_before(#[trigger] before[q], e@),
            decreases out@.len() - p,
        {
            p += 1;
        }
        out.insert(p, e);
        proof {
            let list = given.skip(at + 1);
            assert(entries_view(out@) =~= before.insert(p as int, e@));
            assert(given.skip(at) =~= seq![e@] + list);
            lemma_insert_sorted(before, p as int, e@);
            lemma_insert_same(before, list, p as int, e@);
            if names_differ(given) {
                assert forall|k: int| 0 <= k < list.len() implies (#[trigger] list[k]).name
                    != e@.name by {
                    assert(list[k] == given[at + 1 + k]);
                }
                lemma_insert_names(before, list, p as int, e@);
            }
        }
    }
    assert(given.skip(0) =~= given);
    out
}

} // verus!
