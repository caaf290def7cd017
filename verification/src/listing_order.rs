//! The order the training panel lists saved arenas and fitted models in:
//! alphabetical by name, with the current arena ahead of all others.
use vstd::prelude::*;
use crate::debug_state::str_eq;
use crate::text::{lemma_text_lt_irreflexive, lemma_text_lt_transitive, str_lt, text_lt};
use crate::training_panel::CURRENT_ARENA;

verus! {

/// The listing order: with `current_first`, the current arena ahead of every
/// other name; otherwise, and among the rest, alphabetical.
pub open spec fn listed_before(a: Seq<char>, b: Seq<char>, current_first: bool) -> bool {
    if current_first && (a == CURRENT_ARENA@) != (b == CURRENT_ARENA@) {
        a == CURRENT_ARENA@
    } else {
        text_lt(a, b)
    }
}

/// `order` lists every index below `n` exactly once.
pub open spec fn is_permutation(order: Seq<usize>, n: nat) -> bool {
    &&& order.len() == n
    &&& forall|i: int| 0 <= i < order.len() ==> (#[trigger] order[i]) < n
    &&& forall|i: int, j: int| 0 <= i < j < order.len() ==> order[i] != order[j]
}

/// No name in the listing comes before one listed ahead of it.
pub open spec fn listed_in_order(names: Seq<Seq<char>>, order: Seq<usize>, current_first: bool) -> bool {
    forall|i: int, j: int|
        0 <= i < j < order.len() ==> !listed_before(
            #[trigger] names[order[j] as int],
            #[trigger] names[order[i] as int],
            current_first,
        )
}

proof fn lemma_listed_before_irreflexive(a: Seq<char>, current_first: bool)
    ensures
        !listed_before(a, a, current_first),
{
    lemma_text_lt_irreflexive(a);
}

proof fn lemma_listed_before_transitive(a: Seq<char>, b: Seq<char>, c: Seq<char>, current_first: bool)
    requires
        listed_before(a, b, current_first),
        listed_before(b, c, current_first),
    ensures
        listed_before(a, c, current_first),
{
    if current_first {
        if (a == CURRENT_ARENA@) == (b == CURRENT_ARENA@) && (b == CURRENT_ARENA@) == (c == CURRENT_ARENA@) {
            lemma_text_lt_transitive(a, b, c);
        }
    } else {
        lemma_text_lt_transitive(a, b, c);
    }
}

fn before(a: &str, b: &str, current_first: bool) -> (r: bool)
    ensures
        r == listed_before(a@, b@, current_first),
{
    if current_first {
        let ac = str_eq(a, CURRENT_ARENA);
        let bc = str_eq(b, CURRENT_ARENA);
        if ac != bc {
            return ac;
        }
    }
    str_lt(a, b)
}

/// The listing order of `names`: the indices of `names`, each once, in
/// listing order.
fn listing_order(names: &Vec<String>, current_first: bool) -> (order: Vec<usize>)
    ensures
        is_permutation(order@, names@.len()),
        listed_in_order(names@.map_values(|s: String| s@), order@, current_first),
{
    let ghost views = names@.map_values(|s: String| s@);
    let mut order: Vec<usize> = Vec::new();
    let mut k: usize = 0;
    while k < names.len()
        invariant
            k <= names@.len(),
            views == names@.map_values(|s: String| s@),
            is_permutation(order@, k as nat),
            listed_in_order(views, order@, current_first),
        decreases names@.len() - k,
    {
        // Insert `k` after every entry it does not come before.
        let mut p: usize = 0;
        while p < order.len() && !before(names[k].as_str(), names[order[p]].as_str(), current_first)
            invariant
                p <= order@.len(),
                k < names@.len(),
                views == names@.map_values(|s: String| s@),
                is_permutation(order@, k as nat),
                forall|q: int| 0 <= q < p ==> !listed_before(views[k as int], #[trigger] views[order@[q] as int], current_first),
            decreases order@.len() - p,
        {
            p += 1;
        }
        let ghost old_order = order@;
        proof {
            assert(p < old_order.len() ==> listed_before(views[k as int], views[old_order[p as int] as int], current_first));
        }
        order.insert(p, k);
        proof {
            assert(order@ == old_order.insert(p as int, k));
            assert forall|i: int| 0 <= i < order@.len() implies (#[trigger] order@[i]) < k + 1 by {
                if i < p {
                    assert(order@[i] == old_order[i]);
                } else if i > p {
                    assert(order@[i] == old_order[i - 1]);
                }
            }
            assert forall|i: int, j: int| 0 <= i < j < order@.len() implies order@[i] != order@[j] by {
                if i < p && j < p {
                    assert(order@[i] == old_order[i] && order@[j] == old_order[j]);
                } else if i < p && j == p {
                    assert(old_order[i] < k);
                } else if i < p && j > p {
                    assert(order@[i] == old_order[i] && order@[j] == old_order[j - 1]);
                } else if i == p {
                    assert(old_order[j - 1] < k);
                } else {
                    assert(order@[i] == old_order[i - 1] && order@[j] == old_order[j - 1]);
                }
            }
            assert forall|i: int, j: int| 0 <= i < j < order@.len() implies !listed_before(
                #[trigger] views[order@[j] as int],
                #[trigger] views[order@[i] as int],
                current_first,
            ) by {
                let vk = views[k as int];
                if j < p {
                    assert(order@[i] == old_order[i] && order@[j] == old_order[j]);
                } else if j == p {
                    assert(order@[i] == old_order[i]);
                    assert(!listed_before(vk, views[old_order[i] as int], current_first));
                } else if i < p {
                    assert(order@[i] == old_order[i] && order@[j] == old_order[j - 1]);
                } else if i == p {
                    // `k` comes before the entry it was placed ahead of, which
                    // comes no later than any entry after it.
                    let x = views[old_order[j - 1] as int];
                    let y = views[old_order[p as int] as int];
                    if listed_before(x, vk, current_first) {
                        lemma_listed_before_transitive(x, vk, y, current_first);
                        if j - 1 == p {
                            lemma_listed_before_irreflexive(x, current_first);
                        } else {
                            assert(!listed_before(views[old_order[j - 1] as int], views[old_order[p as int] as int], current_first));
                        }
                    }
                } else {
                    assert(order@[i] == old_order[i - 1] && order@[j] == old_order[j - 1]);
                }
            }
        }
        k += 1;
    }
    order
}

/// Nothing is listed ahead of the current arena but the current arena.
pub proof fn lemma_nothing_ahead_of_current(names: Seq<Seq<char>>, order: Seq<usize>)
    requires
        listed_in_order(names, order, true),
    ensures
        forall|i: int, j: int|
            0 <= i < j < order.len() && #[trigger] names[order[j] as int] == CURRENT_ARENA@
                ==> #[trigger] names[order[i] as int] == CURRENT_ARENA@,
{
}

/// Saved arenas in listing order (current first, then alphabetical), as
/// indices into `names`.
pub fn arena_order(names: &Vec<String>) -> (order: Vec<usize>)
    ensures
        is_permutation(order@, names@.len()),
        listed_in_order(names@.map_values(|s: String| s@), order@, true),
{
    listing_order(names, true)
}

/// Fitted models in listing order (alphabetical), as indices into `names`.
pub fn model_order(names: &Vec<String>) -> (order: Vec<usize>)
    ensures
        is_permutation(order@, names@.len()),
        listed_in_order(names@.map_values(|s: String| s@), order@, false),
{
    listing_order(names, false)
}

} // verus!
