//! The mathematical model of the booklet page order.
//!
//! A booklet places four logical pages on each physical sheet (two per side).
//! These functions describe, over unbounded integers, how many sheets a page
//! count needs, how many slots on the final sheet stay blank, and the order in
//! which the physical slots are visited when the sheets are printed.  The
//! executable engine in `calculate` carries these functions in its contracts;
//! the lemmas here prove the global shape of the walk: it visits every slot of
//! the padded range exactly once.

use vstd::prelude::*;

verus! {

use vstd::arithmetic::div_mod::lemma_fundamental_div_mod;
use vstd::arithmetic::div_mod::lemma_fundamental_div_mod_converse;
use vstd::arithmetic::div_mod::lemma_mod_bound;
use vstd::set_lib::set_int_range;
use vstd::set_lib::lemma_int_range;
use vstd::set_lib::lemma_map_size;
use vstd::set_lib::lemma_set_subset_finite;

/// How many physical sheets of paper a booklet of `pages` content pages
/// needs: the page count divided by four, rounded up.
pub open spec fn leaves_for(pages: int) -> int {
    (pages - 1) / 4 + 1
}

/// How many slots on the final sheet hold no content: the distance from
/// `pages` up to the next multiple of four.
pub open spec fn blanks_for(pages: int) -> int {
    (4 - pages % 4) % 4
}

/// The fold-transition rule: the physical slot printed after `slot`, on a
/// stack of `padded` slots whose walk begins at `start`.  An even slot
/// mirrors across the sheet stack; an odd slot steps to its neighbour, away
/// from the start in the latter half and towards slot one in the former.
/// Zero means the walk is over.
pub open spec fn next_slot_for(padded: int, start: int, slot: int) -> int {
    if slot % 2 == 0 {
        padded - slot + 1
    } else if slot > start {
        slot + 1
    } else {
        slot - 1
    }
}

/// The slot visited by the `i`-th step of the fold walk on a booklet of
/// `leaves` sheets: the walk starts on the middle face and repeatedly applies
/// the transition rule.
pub open spec fn slot_walk(leaves: int, i: int) -> int
    decreases i,
{
    if i <= 0 {
        2 * leaves
    } else {
        next_slot_for(4 * leaves, 2 * leaves, slot_walk(leaves, i - 1))
    }
}

/// The walk in closed form: step `i` lands on sheet `i / 4` of the stack (counted
/// from the middle outwards), on one of four faces selected by `i % 4`.
pub open spec fn slot_closed(leaves: int, i: int) -> int {
    let k: int = i / 4;
    if i % 4 == 0 {
        2 * leaves - 2 * k
    } else if i % 4 == 1 {
        2 * leaves + 2 * k + 1
    } else if i % 4 == 2 {
        2 * leaves + 2 * k + 2
    } else {
        2 * leaves - 2 * k - 1
    }
}

/// Where the fold walk visits slot `v`: the inverse of `slot_closed`.
pub open spec fn slot_index(leaves: int, v: int) -> int {
    if v % 2 == 0 {
        if v <= 2 * leaves {
            4 * ((2 * leaves - v) / 2)
        } else {
            4 * ((v - 2 * leaves - 2) / 2) + 2
        }
    } else {
        if v > 2 * leaves {
            4 * ((v - 2 * leaves - 1) / 2) + 1
        } else {
            4 * ((2 * leaves - 1 - v) / 2) + 3
        }
    }
}

/// The full print order for `pages` content pages: one entry per physical
/// slot, `Some(slot)` where the slot carries a content page and `None` where
/// it is a trailing blank.
pub open spec fn print_order_for(pages: int) -> Seq<Option<u32>> {
    let leaves: int = leaves_for(pages);
    Seq::new(
        (4 * leaves) as nat,
        |i: int|
            if slot_walk(leaves, i) <= pages {
                Some(slot_walk(leaves, i) as u32)
            } else {
                None
            },
    )
}

/// The positions of a print order that carry a content page.
pub open spec fn content_positions(s: Seq<Option<u32>>) -> Set<int> {
    Set::new(|i: int| 0 <= i < s.len() && s[i] is Some)
}

/// The positions of a print order that carry a blank.
pub open spec fn blank_positions(s: Seq<Option<u32>>) -> Set<int> {
    Set::new(|i: int| 0 <= i < s.len() && s[i] is None)
}

/// The sheet count is the page count divided by four and rounded up, and the
/// final sheet pads the count to an exact multiple of four with at most three
/// blanks.
pub proof fn lemma_leaf_count(pages: int)
    requires
        pages >= 1,
    ensures
        leaves_for(pages) == (pages + 3) / 4,
        leaves_for(pages) >= 1,
        4 * leaves_for(pages) - pages == blanks_for(pages),
        0 <= blanks_for(pages) < 4,
        pages <= 4 * leaves_for(pages),
{
    let q: int = (pages - 1) / 4;
    let r: int = (pages - 1) % 4;
    lemma_fundamental_div_mod(pages - 1, 4);
    lemma_fundamental_div_mod_converse(pages + 3, 4, q + 1, r);
    lemma_fundamental_div_mod_converse(pages, 4, if r == 3 { q + 1 } else { q }, (r + 1) % 4);
}

/// The trailing-blank count depends only on the page count's residue
/// modulo four.
pub proof fn lemma_blanks_residue(n: int, m: int)
    requires
        n % 4 == m % 4,
    ensures
        blanks_for(n) == blanks_for(m),
{
}

/// Each step of the recursive fold walk lands where the closed form says.
pub proof fn lemma_walk_closed(leaves: int, i: int)
    requires
        leaves >= 1,
        0 <= i < 4 * leaves,
    ensures
        slot_walk(leaves, i) == slot_closed(leaves, i),
    decreases i,
{
    if i == 0 {
        lemma_fundamental_div_mod_converse(0, 4, 0, 0);
    } else {
        lemma_walk_closed(leaves, i - 1);
        let k1: int = (i - 1) / 4;
        let r1: int = (i - 1) % 4;
        lemma_fundamental_div_mod(i - 1, 4);
        lemma_mod_bound(i - 1, 4);
        if r1 == 3 {
            lemma_fundamental_div_mod_converse(i, 4, k1 + 1, 0);
        } else {
            lemma_fundamental_div_mod_converse(i, 4, k1, r1 + 1);
        }
        let prev: int = slot_closed(leaves, i - 1);
        if r1 == 0 {
            lemma_fundamental_div_mod_converse(prev, 2, leaves - k1, 0);
        } else if r1 == 1 {
            lemma_fundamental_div_mod_converse(prev, 2, leaves + k1, 1);
        } else if r1 == 2 {
            lemma_fundamental_div_mod_converse(prev, 2, leaves + k1 + 1, 0);
        } else {
            lemma_fundamental_div_mod_converse(prev, 2, leaves - k1 - 1, 1);
        }
    }
}

/// Every value of the closed form lies inside the padded slot range.
pub proof fn lemma_closed_bounds(leaves: int, i: int)
    requires
        leaves >= 1,
        0 <= i < 4 * leaves,
    ensures
        1 <= slot_closed(leaves, i) <= 4 * leaves,
{
    lemma_fundamental_div_mod(i, 4);
    lemma_mod_bound(i, 4);
}

/// Every step of the walk lies inside the padded slot range.
pub proof fn lemma_walk_bounds(leaves: int, i: int)
    requires
        leaves >= 1,
        0 <= i < 4 * leaves,
    ensures
        1 <= slot_walk(leaves, i) <= 4 * leaves,
{
    lemma_walk_closed(leaves, i);
    lemma_closed_bounds(leaves, i);
}

/// `slot_index` recovers the step at which the closed form visits a slot.
pub proof fn lemma_closed_then_index(leaves: int, i: int)
    requires
        leaves >= 1,
        0 <= i < 4 * leaves,
    ensures
        slot_index(leaves, slot_closed(leaves, i)) == i,
{
    let k: int = i / 4;
    let r: int = i % 4;
    lemma_fundamental_div_mod(i, 4);
    lemma_mod_bound(i, 4);
    let v: int = slot_closed(leaves, i);
    if r == 0 {
        lemma_fundamental_div_mod_converse(v, 2, leaves - k, 0);
        lemma_fundamental_div_mod_converse(2 * leaves - v, 2, k, 0);
    } else if r == 1 {
        lemma_fundamental_div_mod_converse(v, 2, leaves + k, 1);
        lemma_fundamental_div_mod_converse(v - 2 * leaves - 1, 2, k, 0);
    } else if r == 2 {
        lemma_fundamental_div_mod_converse(v, 2, leaves + k + 1, 0);
        lemma_fundamental_div_mod_converse(v - 2 * leaves - 2, 2, k, 0);
    } else {
        lemma_fundamental_div_mod_converse(v, 2, leaves - k - 1, 1);
        lemma_fundamental_div_mod_converse(2 * leaves - 1 - v, 2, k, 0);
    }
}

/// Every slot of the padded range is visited by the walk, at the step that
/// `slot_index` names.
pub proof fn lemma_index_then_closed(leaves: int, v: int)
    requires
        leaves >= 1,
        1 <= v <= 4 * leaves,
    ensures
        0 <= slot_index(leaves, v) < 4 * leaves,
        slot_closed(leaves, slot_index(leaves, v)) == v,
{
    lemma_fundamental_div_mod(v, 2);
    lemma_mod_bound(v, 2);
    let a: int = v / 2;
    if v % 2 == 0 {
        if v <= 2 * leaves {
            lemma_fundamental_div_mod_converse(2 * leaves - v, 2, leaves - a, 0);
            lemma_fundamental_div_mod_converse(4 * (leaves - a), 4, leaves - a, 0);
        } else {
            lemma_fundamental_div_mod_converse(v - 2 * leaves - 2, 2, a - leaves - 1, 0);
            lemma_fundamental_div_mod_converse(4 * (a - leaves - 1) + 2, 4, a - leaves - 1, 2);
        }
    } else {
        if v > 2 * leaves {
            lemma_fundamental_div_mod_converse(v - 2 * leaves - 1, 2, a - leaves, 0);
            lemma_fundamental_div_mod_converse(4 * (a - leaves) + 1, 4, a - leaves, 1);
        } else {
            lemma_fundamental_div_mod_converse(2 * leaves - 1 - v, 2, leaves - a - 1, 0);
            lemma_fundamental_div_mod_converse(4 * (leaves - a - 1) + 3, 4, leaves - a - 1, 3);
        }
    }
}

/// The fold walk is a simple cycle: no slot is visited twice before the walk
/// ends.
pub proof fn lemma_walk_no_repeat(leaves: int)
    requires
        leaves >= 1,
    ensures
        forall|i: int, j: int|
            0 <= i < j < 4 * leaves ==> slot_walk(leaves, i) != slot_walk(leaves, j),
{
    assert forall|i: int, j: int|
        0 <= i < j < 4 * leaves implies slot_walk(leaves, i) != slot_walk(leaves, j) by {
        lemma_walk_closed(leaves, i);
        lemma_walk_closed(leaves, j);
        lemma_closed_then_index(leaves, i);
        lemma_closed_then_index(leaves, j);
    }
}

/// The fold walk covers the padded range: every slot is visited at some step.
pub proof fn lemma_walk_covers(leaves: int, v: int)
    requires
        leaves >= 1,
        1 <= v <= 4 * leaves,
    ensures
        exists|i: int| 0 <= i < 4 * leaves && slot_walk(leaves, i) == v,
{
    lemma_index_then_closed(leaves, v);
    lemma_walk_closed(leaves, slot_index(leaves, v));
    assert(slot_walk(leaves, slot_index(leaves, v)) == v);
}

/// The walk ends on slot one: the last step lands there, and the transition
/// rule maps slot one to zero.
pub proof fn lemma_walk_last(leaves: int)
    requires
        leaves >= 1,
    ensures
        slot_walk(leaves, 4 * leaves - 1) == 1,
        next_slot_for(4 * leaves, 2 * leaves, 1) == 0,
{
    lemma_walk_closed(leaves, 4 * leaves - 1);
    lemma_fundamental_div_mod_converse(4 * leaves - 1, 4, leaves - 1, 3);
    lemma_fundamental_div_mod_converse(1, 2, 0, 1);
}

/// Applied to a slot of the padded range, the transition rule answers either
/// zero or another slot of the padded range.
pub proof fn lemma_next_slot_range(leaves: int, slot: int)
    requires
        leaves >= 1,
        1 <= slot <= 4 * leaves,
    ensures
        0 <= next_slot_for(4 * leaves, 2 * leaves, slot) <= 4 * leaves,
{
    lemma_fundamental_div_mod(slot, 2);
    lemma_mod_bound(slot, 2);
}

/// Of the `4 * leaves` steps of the walk, exactly `bound` land on slots at or
/// below `bound`, and the rest land above it.
proof fn lemma_walk_partition(leaves: int, bound: int)
    requires
        leaves >= 1,
        0 <= bound <= 4 * leaves,
    ensures
        Set::new(|i: int| 0 <= i < 4 * leaves && slot_walk(leaves, i) <= bound).finite(),
        Set::new(|i: int| 0 <= i < 4 * leaves && slot_walk(leaves, i) <= bound).len() == bound,
        Set::new(|i: int| 0 <= i < 4 * leaves && slot_walk(leaves, i) > bound).finite(),
        Set::new(|i: int| 0 <= i < 4 * leaves && slot_walk(leaves, i) > bound).len() == 4 * leaves
            - bound,
{
    let f = |i: int| slot_walk(leaves, i);
    let below = Set::new(|i: int| 0 <= i < 4 * leaves && slot_walk(leaves, i) <= bound);
    let above = Set::new(|i: int| 0 <= i < 4 * leaves && slot_walk(leaves, i) > bound);
    let steps = set_int_range(0, 4 * leaves);
    lemma_int_range(0, 4 * leaves);
    lemma_set_subset_finite(steps, below);
    lemma_set_subset_finite(steps, above);
    assert forall|v: int| set_int_range(1, bound + 1).contains(v) implies below.map(
        f,
    ).contains(v) by {
        lemma_index_then_closed(leaves, v);
        lemma_walk_closed(leaves, slot_index(leaves, v));
        assert(below.contains(slot_index(leaves, v)));
    }
    assert forall|i: int| below.contains(i) implies set_int_range(1, bound + 1).contains(
        f(i),
    ) by {
        lemma_walk_bounds(leaves, i);
    }
    assert(below.map(f) =~= set_int_range(1, bound + 1));
    assert forall|v: int| set_int_range(bound + 1, 4 * leaves + 1).contains(v) implies above.map(
        f,
    ).contains(v) by {
        lemma_index_then_closed(leaves, v);
        lemma_walk_closed(leaves, slot_index(leaves, v));
        assert(above.contains(slot_index(leaves, v)));
    }
    assert forall|i: int| above.contains(i) implies set_int_range(bound + 1, 4 * leaves
        + 1).contains(f(i)) by {
        lemma_walk_bounds(leaves, i);
    }
    assert(above.map(f) =~= set_int_range(bound + 1, 4 * leaves + 1));
    lemma_walk_no_repeat(leaves);
    lemma_map_size(below, set_int_range(1, bound + 1), f);
    lemma_map_size(above, set_int_range(bound + 1, 4 * leaves + 1), f);
    lemma_int_range(1, bound + 1);
    lemma_int_range(bound + 1, 4 * leaves + 1);
}

/// The print order for `pages` content pages has exactly `4 * leaves_for(pages)`
/// entries, of which exactly `pages` carry a content page and the remaining
/// `blanks_for(pages)` are blanks.
pub proof fn lemma_print_order_counts(pages: int)
    requires
        pages >= 1,
    ensures
        print_order_for(pages).len() == 4 * leaves_for(pages),
        content_positions(print_order_for(pages)).len() == pages,
        blank_positions(print_order_for(pages)).len() == blanks_for(pages),
{
    lemma_leaf_count(pages);
    let l: int = leaves_for(pages);
    let s = print_order_for(pages);
    lemma_walk_partition(l, pages);
    assert(content_positions(s) =~= Set::new(
        |i: int| 0 <= i < 4 * l && slot_walk(l, i) <= pages,
    ));
    assert(blank_positions(s) =~= Set::new(|i: int| 0 <= i < 4 * l && slot_walk(l, i) > pages));
}

} // verus!
