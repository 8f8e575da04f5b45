//! The implicit binary tree that a buddy root keeps in its bitmap: node `i`
//! has children `2i + 1` and `2i + 2`, and the nodes of generation `g` are
//! the indices `2^g - 1 .. 2^(g+1) - 1`.
use vstd::prelude::*;
use vstd::arithmetic::power2::{pow2, lemma_pow2_unfold, lemma_pow2_pos};
use crate::math::{log2_floor, floor_log2};

verus! {

/// Generation (depth) of node `i`.
pub open spec fn generation_of(i: int) -> nat {
    log2_floor((i + 1) as nat)
}

/// Parent of node `i`.
pub open spec fn parent(i: int) -> int {
    (i - 1) / 2
}

/// The ancestor `n` generations above node `j`.
pub open spec fn ancestor(j: int, n: nat) -> int
    decreases n,
{
    if n == 0 {
        j
    } else {
        ancestor(parent(j), (n - 1) as nat)
    }
}

/// `i` is `j` or one of the `d` nearest ancestors of `j`.
pub open spec fn on_path(i: int, j: int, d: nat) -> bool
    decreases d,
{
    i == j || (d > 0 && on_path(i, parent(j), (d - 1) as nat))
}

/// First node `m` generations below node `s`; its descendants in that
/// generation are the `2^m` indices starting there.
pub open spec fn first_descendant(s: int, m: nat) -> int {
    (s + 1) * pow2(m) - 1
}

/// `b` with node `j` and its `d` nearest ancestors marked as used.
pub open spec fn mark_path(b: Seq<bool>, j: int, d: nat) -> Seq<bool> {
    Seq::new(b.len(), |i: int| b[i] || on_path(i, j, d))
}

/// Node `j` lies in the generation-`m`-below descendant range of `s`.
pub open spec fn in_descendants(j: int, s: int, m: nat) -> bool {
    first_descendant(s, m) <= j < first_descendant(s, m) + pow2(m)
}

/// The children of a node are one generation below it.
pub proof fn lemma_children_generation(s: int)
    requires
        s >= 0,
    ensures
        generation_of(2 * s + 1) == generation_of(s) + 1,
        generation_of(2 * s + 2) == generation_of(s) + 1,
{
    assert(((2 * s + 2) as nat) / 2 == (s + 1) as nat);
    assert(((2 * s + 3) as nat) / 2 == (s + 1) as nat);
}

/// The descendants `m` generations below a node split into those of its
/// left child followed by those of its right child.
pub proof fn lemma_children_ranges(s: int, m: nat)
    requires
        s >= 0,
        m >= 1,
    ensures
        pow2(m) == 2 * pow2((m - 1) as nat),
        first_descendant(2 * s + 1, (m - 1) as nat) == first_descendant(s, m),
        first_descendant(2 * s + 2, (m - 1) as nat) == first_descendant(s, m) + pow2(
            (m - 1) as nat,
        ),
        first_descendant(s, m) >= s,
{
    lemma_pow2_unfold(m);
    let p = pow2((m - 1) as nat);
    lemma_pow2_pos((m - 1) as nat);
    assert((2 * s + 2) * p == (s + 1) * (2 * p)) by (nonlinear_arith);
    assert((2 * s + 3) * p == (s + 1) * (2 * p) + p) by (nonlinear_arith);
    assert((s + 1) * (2 * p) >= s + 1) by (nonlinear_arith)
        requires
            s >= 0,
            p >= 1,
    ;
}

/// A node is its own first descendant zero generations down.
pub proof fn lemma_first_descendant_zero(s: int)
    ensures
        first_descendant(s, 0) == s,
        pow2(0) == 1,
{
    vstd::arithmetic::power2::lemma2_to64();
    assert((s + 1) * pow2(0) == s + 1) by (nonlinear_arith)
        requires
            pow2(0) == 1,
    ;
}

/// Descendants have indices at least their ancestor's.
pub proof fn lemma_first_descendant_ge(s: int, m: nat)
    requires
        s >= 0,
    ensures
        first_descendant(s, m) >= s,
{
    lemma_pow2_pos(m);
    let p = pow2(m);
    assert((s + 1) * p >= s + 1) by (nonlinear_arith)
        requires
            s >= 0,
            p >= 1,
    ;
}

/// A node in the descendant range of `s` has `s` as its ancestor.
pub proof fn lemma_ancestor_of_descendant(j: int, s: int, m: nat)
    requires
        s >= 0,
        in_descendants(j, s, m),
    ensures
        ancestor(j, m) == s,
    decreases m,
{
    if m == 0 {
        lemma_first_descendant_zero(s);
    } else {
        lemma_pow2_unfold(m);
        let p = pow2((m - 1) as nat);
        lemma_pow2_pos((m - 1) as nat);
        assert((s + 1) * (2 * p) == 2 * ((s + 1) * p)) by (nonlinear_arith);
        assert((s + 2) * (2 * p) == 2 * ((s + 2) * p)) by (nonlinear_arith);
        assert((s + 1) * p + p == (s + 2) * p) by (nonlinear_arith);
        assert(first_descendant(s, m) == 2 * ((s + 1) * p) - 1);
        assert(first_descendant(s, (m - 1) as nat) == (s + 1) * p - 1);
        assert(in_descendants(parent(j), s, (m - 1) as nat));
        lemma_ancestor_of_descendant(parent(j), s, (m - 1) as nat);
        assert(ancestor(j, m) == ancestor(parent(j), (m - 1) as nat));
    }
}

/// Extending a path by one generation adds exactly the next ancestor.
pub proof fn lemma_on_path_extend(i: int, j: int, d: nat)
    ensures
        on_path(i, j, d + 1) == (on_path(i, j, d) || i == ancestor(j, d + 1)),
    decreases d,
{
    reveal_with_fuel(on_path, 2);
    reveal_with_fuel(ancestor, 2);
    if d > 0 {
        lemma_on_path_extend(i, parent(j), (d - 1) as nat);
        assert(ancestor(j, d + 1) == ancestor(parent(j), d));
    }
}

/// Searches the subtree of `sub_tree` for the leftmost unused node of
/// generation `target_generation`; on success marks it and every node on the
/// way down from `sub_tree` as used.
pub fn find_free_index_by_bitmap(
    target_generation: u8,
    bitmap: &mut Vec<bool>,
    sub_tree: usize,
) -> (r: Option<usize>)
    requires
        generation_of(sub_tree as int) <= target_generation,
        old(bitmap).len() <= usize::MAX / 2,
    ensures
        final(bitmap).len() == old(bitmap).len(),
        ({
            let m = (target_generation - generation_of(sub_tree as int)) as nat;
            let lo = first_descendant(sub_tree as int, m);
            match r {
                None => {
                    &&& final(bitmap)@ == old(bitmap)@
                    &&& forall|k: int|
                        lo <= k < lo + pow2(m) && k < old(bitmap).len() ==> old(bitmap)@[k]
                },
                Some(j) => {
                    &&& lo <= j < lo + pow2(m)
                    &&& j < old(bitmap).len()
                    &&& !old(bitmap)@[j as int]
                    &&& forall|k: int| lo <= k < j ==> old(bitmap)@[k]
                    &&& final(bitmap)@ == mark_path(old(bitmap)@, j as int, m)
                },
            }
        }),
    decreases (if sub_tree < old(bitmap)@.len() { old(bitmap)@.len() - sub_tree } else { 0 }),
{
    let ghost s = sub_tree as int;
    let ghost m = (target_generation - generation_of(s)) as nat;
    proof {
        lemma_first_descendant_ge(s, m);
    }
    if sub_tree >= bitmap.len() {
        return None;
    }
    let curr_gen = floor_log2(sub_tree + 1) as u8;
    if curr_gen == target_generation {
        proof {
            assert(m == 0);
            lemma_first_descendant_zero(s);
        }
        if bitmap[sub_tree] {
            return None;
        } else {
            bitmap.set(sub_tree, true);
            proof {
                assert(final(bitmap)@ =~= mark_path(old(bitmap)@, s, 0));
            }
            return Some(sub_tree);
        }
    }
    proof {
        lemma_children_generation(s);
        lemma_children_ranges(s, m);
    }
    let left_child_idx = (sub_tree * 2) + 1;
    if let Some(idx) = find_free_index_by_bitmap(target_generation, bitmap, left_child_idx) {
        let ghost mid = bitmap@;
        bitmap.set(sub_tree, true);
        proof {
            lemma_ancestor_of_descendant(idx as int, s, m);
            assert forall|i: int| 0 <= i < bitmap@.len() implies bitmap@[i] == mark_path(
                old(bitmap)@,
                idx as int,
                m,
            )[i] by {
                lemma_on_path_extend(i, idx as int, (m - 1) as nat);
            }
            assert(bitmap@ =~= mark_path(old(bitmap)@, idx as int, m));
        }
        return Some(idx);
    }
    let right_child_idx = (sub_tree * 2) + 2;
    if let Some(idx) = find_free_index_by_bitmap(target_generation, bitmap, right_child_idx) {
        bitmap.set(sub_tree, true);
        proof {
            lemma_ancestor_of_descendant(idx as int, s, m);
            assert forall|i: int| 0 <= i < bitmap@.len() implies bitmap@[i] == mark_path(
                old(bitmap)@,
                idx as int,
                m,
            )[i] by {
                lemma_on_path_extend(i, idx as int, (m - 1) as nat);
            }
            assert(bitmap@ =~= mark_path(old(bitmap)@, idx as int, m));
        }
        return Some(idx);
    }
    None
}

} // verus!
