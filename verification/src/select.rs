//! Choosing tensors by name: those whose name begins with one of a set of
//! prefixes, and a random sample of them without replacement.

use vstd::prelude::*;
use crate::container::{Container, ContainerModel, TensorModel};
use crate::error::SelectionError;
use crate::text::{chars_of, strings_view};

verus! {

/// `name` begins with `prefix`.
pub open spec fn has_prefix(name: Seq<char>, prefix: Seq<char>) -> bool {
    prefix.len() <= name.len() && name.subrange(0, prefix.len() as int) == prefix
}

/// `name` begins with one of the prefixes.
pub open spec fn matches_any(name: Seq<char>, prefixes: Seq<Seq<char>>) -> bool {
    exists|p: int| 0 <= p < prefixes.len() && has_prefix(name, #[trigger] prefixes[p])
}

/// Number of tensors among the first `upto` whose name begins with one of
/// the prefixes.
pub open spec fn match_count(tensors: Seq<TensorModel>, prefixes: Seq<Seq<char>>, upto: int) -> nat
    decreases upto,
{
    if upto <= 0 {
        0
    } else {
        match_count(tensors, prefixes, upto - 1) + if matches_any(
            tensors[upto - 1].name,
            prefixes,
        ) {
            1nat
        } else {
            0nat
        }
    }
}

/// No position occurs twice.
pub open spec fn distinct(positions: Seq<usize>) -> bool {
    forall|i: int, j: int| 0 <= i < j < positions.len() ==> positions[i] != positions[j]
}

/// The positions are in strictly increasing order.
pub open spec fn increasing(positions: Seq<usize>) -> bool {
    forall|i: int, j: int| 0 <= i < j < positions.len() ==> positions[i] < positions[j]
}

/// `positions` lists, in increasing order, exactly the tensors whose name
/// begins with one of the prefixes.
pub open spec fn lists_matches(
    c: ContainerModel,
    prefixes: Seq<Seq<char>>,
    positions: Seq<usize>,
) -> bool {
    &&& increasing(positions)
    &&& positions.len() == match_count(c.tensors, prefixes, c.tensors.len() as int)
    &&& forall|q: int|
        0 <= q < positions.len() ==> (#[trigger] positions[q]) < c.tensors.len() && matches_any(
            c.tensors[positions[q] as int].name,
            prefixes,
        )
    &&& forall|t: int|
        0 <= t < c.tensors.len() && matches_any((#[trigger] c.tensors[t]).name, prefixes)
            ==> exists|q: int| 0 <= q < positions.len() && (#[trigger] positions[q]) == t
}

/// Whether a name begins with a prefix.
pub fn starts_with(name: &str, prefix: &str) -> (r: bool)
    ensures
        r == has_prefix(name@, prefix@),
{
    let n = chars_of(name);
    let p = chars_of(prefix);
    if p.len() > n.len() {
        return false;
    }
    let mut i: usize = 0;
    while i < p.len()
        invariant
            i <= p@.len() <= n@.len(),
            n@ == name@,
            p@ == prefix@,
            forall|j: int| 0 <= j < i ==> n@[j] == p@[j],
        decreases p@.len() - i,
    {
        if n[i] != p[i] {
            assert(!has_prefix(name@, prefix@)) by {
                if has_prefix(name@, prefix@) {
                    assert(name@.subrange(0, prefix@.len() as int)[i as int] == prefix@[i as int]);
                }
            }
            return false;
        }
        i += 1;
    }
    assert(n@.subrange(0, p@.len() as int) =~= p@);
    true
}

/// Whether a name begins with one of the prefixes.
pub fn starts_with_any(name: &str, prefixes: &Vec<String>) -> (r: bool)
    ensures
        r == matches_any(name@, strings_view(prefixes@)),
{
    let mut p: usize = 0;
    while p < prefixes.len()
        invariant
            p <= prefixes@.len(),
            forall|q: int| 0 <= q < p ==> !has_prefix(name@, #[trigger] strings_view(prefixes@)[q]),
        decreases prefixes@.len() - p,
    {
        if starts_with(name, prefixes[p].as_str()) {
            assert(has_prefix(name@, strings_view(prefixes@)[p as int]));
            return true;
        }
        p += 1;
    }
    false
}

/// The positions of the tensors whose name begins with one of the
/// prefixes, in table order.
pub fn matching_tensors(c: &Container, prefixes: &Vec<String>) -> (r: Vec<usize>)
    ensures
        lists_matches(c@, strings_view(prefixes@), r@),
{
    let n: usize = c.tensor_count();
    let mut found: Vec<usize> = Vec::new();
    let mut t: usize = 0;
    while t < n
        invariant
            t <= n,
            n == c@.tensors.len(),
            increasing(found@),
            found@.len() == match_count(c@.tensors, strings_view(prefixes@), t as int),
            forall|q: int|
                0 <= q < found@.len() ==> (#[trigger] found@[q]) < t && matches_any(
                    c@.tensors[found@[q] as int].name,
                    strings_view(prefixes@),
                ),
            forall|j: int|
                0 <= j < t && matches_any((#[trigger] c@.tensors[j]).name, strings_view(prefixes@))
                    ==> exists|q: int| 0 <= q < found@.len() && (#[trigger] found@[q]) == j,
        decreases n - t,
    {
        let ghost before = found@;
        if starts_with_any(c.descriptor(t).name.as_str(), prefixes) {
            found.push(t);
            assert(found@[before.len() as int] == t);
        }
        proof {
            assert forall|j: int|
                0 <= j < t + 1 && matches_any(
                    (#[trigger] c@.tensors[j]).name,
                    strings_view(prefixes@),
                ) implies exists|q: int| 0 <= q < found@.len() && (#[trigger] found@[q]) == j by {
                if j < t {
                    let q = choose|q: int| 0 <= q < before.len() && (#[trigger] before[q]) == j;
                    assert(found@[q] == j);
                }
            }
        }
        t += 1;
    }
    found
}

/// Draws `amount` distinct indices below `length` with
/// `rand::seq::index::sample`, from a `rand::rngs::StdRng` seeded with
/// `seed`.
///
/// Trusted, from the documentation of `sample`: it returns exactly `amount`
/// distinct indices from `0..length`, and panics where `amount` exceeds
/// `length`. Which indices come out is left open.
#[verifier::external_body]
fn sample_indices(seed: u64, length: usize, amount: usize) -> (r: Vec<usize>)
    requires
        amount <= length,
    ensures
        r@.len() == amount,
        distinct(r@),
        forall|i: int| 0 <= i < r@.len() ==> r@[i] < length,
{
    let mut rng = <rand::rngs::StdRng as rand::SeedableRng>::seed_from_u64(seed);
    rand::seq::index::sample(&mut rng, length, amount).into_vec()
}

/// Looks up each pick in the list of candidates: the result holds
/// `candidates[picks[i]]` at place `i`. `None` where a pick is no index into
/// the candidates.
pub fn pick_tensors(candidates: &Vec<usize>, picks: &Vec<usize>) -> (r: Option<Vec<usize>>)
    ensures
        match r {
            Some(v) => {
                &&& v@.len() == picks@.len()
                &&& forall|i: int|
                    0 <= i < picks@.len() ==> (#[trigger] picks@[i]) < candidates@.len()
                &&& forall|i: int|
                    0 <= i < picks@.len() ==> (#[trigger] v@[i]) == candidates@[picks@[i] as int]
            },
            None => exists|i: int|
                0 <= i < picks@.len() && (#[trigger] picks@[i]) >= candidates@.len(),
        },
{
    let mut chosen: Vec<usize> = Vec::new();
    let mut i: usize = 0;
    while i < picks.len()
        invariant
            i <= picks@.len(),
            chosen@.len() == i,
            forall|j: int| 0 <= j < i ==> (#[trigger] picks@[j]) < candidates@.len(),
            forall|j: int|
                0 <= j < i ==> (#[trigger] chosen@[j]) == candidates@[picks@[j] as int],
        decreases picks@.len() - i,
    {
        let p: usize = picks[i];
        if p >= candidates.len() {
            return None;
        }
        chosen.push(candidates[p]);
        i += 1;
    }
    Some(chosen)
}

/// A choice of `k` tensors among those whose name begins with one of the
/// prefixes: `k` positions of the table, no position twice, each of a
/// matching tensor.
pub open spec fn is_selection(
    c: ContainerModel,
    prefixes: Seq<Seq<char>>,
    k: usize,
    chosen: Seq<usize>,
) -> bool {
    &&& chosen.len() == k
    &&& distinct(chosen)
    &&& forall|q: int|
        0 <= q < chosen.len() ==> (#[trigger] chosen[q]) < c.tensors.len() && matches_any(
            c.tensors[chosen[q] as int].name,
            prefixes,
        )
}

/// Chooses `k` distinct tensors at random, without replacement, among those
/// whose name begins with one of the prefixes. The sample is drawn from a
/// generator seeded with `seed`.
///
/// Fails exactly where fewer than `k` tensors match, and says how many do.
pub fn select_tensors(c: &Container, prefixes: &Vec<String>, k: usize, seed: u64) -> (r: Result<
    Vec<usize>,
    SelectionError,
>)
    ensures
        match r {
            Ok(chosen) => {
                &&& k <= match_count(c@.tensors, strings_view(prefixes@), c@.tensors.len() as int)
                &&& is_selection(c@, strings_view(prefixes@), k, chosen@)
            },
            Err(e) => {
                &&& e.requested == k
                &&& e.available == match_count(
                    c@.tensors,
                    strings_view(prefixes@),
                    c@.tensors.len() as int,
                )
                &&& e.available < k
            },
        },
{
    let candidates = matching_tensors(c, prefixes);
    if candidates.len() < k {
        return Err(SelectionError { requested: k, available: candidates.len() });
    }
    let picks = sample_indices(seed, candidates.len(), k);
    match pick_tensors(&candidates, &picks) {
        Some(chosen) => {
            assert(distinct(chosen@)) by {
                assert forall|i: int, j: int| 0 <= i < j < chosen@.len() implies chosen@[i]
                    != chosen@[j] by {
                    let a = picks@[i] as int;
                    let b = picks@[j] as int;
                    assert(a != b);
                    if a < b {
                        assert(candidates@[a] < candidates@[b]);
                    } else {
                        assert(candidates@[b] < candidates@[a]);
                    }
                }
            }
            Ok(chosen)
        },
        None => {
            proof {
                assert(false);
            }
            Err(SelectionError { requested: k, available: candidates.len() })
        },
    }
}

} // verus!
