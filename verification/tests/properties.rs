//! Scenario and property checks for the layout arithmetic, the boundary page
//! counts, and the rejection of a zero page count.

use booklet::NonZero;
use booklet::OrderError;
use booklet::PageList;
use booklet::PageProps;
use booklet::invalid;
use booklet::nonzero_error;

fn props(pages: u32) -> PageProps {
    let nz = NonZero::new(pages).expect("page count must be positive");
    PageProps::new(&nz)
}

fn collect_slots(pp: &PageProps) -> Vec<u32> {
    let mut list = PageList::new(pp);
    let mut slots: Vec<u32> = Vec::new();
    while let Some(slot) = list.next() {
        slots.push(slot);
    }
    slots
}

/// `new_pages` is four times the leaf count, which is the page count rounded
/// up to the next multiple of four.
#[test]
fn test_padded_counts() {
    assert_eq!(4, props(1).new_pages());
    assert_eq!(4, props(4).new_pages());
    assert_eq!(8, props(5).new_pages());
    assert_eq!(20, props(19).new_pages());
    assert_eq!(20, props(20).new_pages());
    assert_eq!(24, props(21).new_pages());
}

/// The trailing-blank count `new_pages - pages` only depends on the page
/// count's residue modulo four.
#[test]
fn test_blanks_depend_on_residue() {
    for n in 1u32..=12 {
        let m = n + 4;
        let blanks_n = props(n).new_pages() - n;
        let blanks_m = props(m).new_pages() - m;
        assert_eq!(blanks_n, blanks_m);
        assert!(blanks_n < 4);
    }
}

/// The enumeration yields exactly `new_pages` entries: `pages` of them carry
/// content, the rest are blanks.
#[test]
fn test_print_order_counts() {
    for n in 1u32..=25 {
        let pp = props(n);
        let order = pp.print_order();
        assert_eq!(pp.new_pages() as usize, order.len());
        let somes = order.iter().filter(|o| o.is_some()).count();
        let nones = order.iter().filter(|o| o.is_none()).count();
        assert_eq!(n as usize, somes);
        assert_eq!((pp.new_pages() - n) as usize, nones);
    }
}

/// No physical slot is visited twice within one enumeration, and every slot
/// of the padded range appears.
#[test]
fn test_no_slot_visited_twice() {
    for n in 1u32..=25 {
        let pp = props(n);
        let mut slots = collect_slots(&pp);
        slots.sort();
        let expected: Vec<u32> = (1..=pp.new_pages()).collect();
        assert_eq!(expected, slots);
    }
}

/// The boundary scenario of a single page: one sheet, slots 2, 3 and 4 blank,
/// the single content page emitted last.
#[test]
fn test_single_page() {
    let pp = props(1);
    assert_eq!(4, pp.new_pages());
    let order = pp.print_order();
    assert_eq!(vec![None, None, None, Some(1)], order);
    let somes = order.iter().filter(|o| o.is_some()).count();
    assert_eq!(1, somes);
}

/// The boundary scenario of an exact multiple of four: no blanks at all.
#[test]
fn test_exact_multiple() {
    let pp = props(4);
    let order = pp.print_order();
    assert_eq!(vec![Some(2), Some(3), Some(4), Some(1)], order);
    assert!(order.iter().all(|o| o.is_some()));
}

/// A zero page count is refused at the single admission gate, so no layout
/// can be derived from it.
#[test]
fn test_zero_pages_rejected() {
    assert_eq!(None, NonZero::new(0));
    assert!(NonZero::new(1).is_some());
}

/// The walk is exhausted after `new_pages` steps and stays exhausted: more
/// calls keep answering `None`.
#[test]
fn test_exhaustion_is_idempotent() {
    let pp = props(19);
    let mut list = PageList::new(&pp);
    let mut count = 0u32;
    while let Some(_) = list.next() {
        count += 1;
    }
    assert_eq!(20, count);
    assert_eq!(None, list.next());
    assert_eq!(None, list.next());
}

/// The error constructors report what failed.
#[test]
fn test_error_values() {
    let empty = nonzero_error();
    assert!(matches!(empty, OrderError::EmptyDocument));
    assert_eq!("Need nonzero document length", empty.message());

    let bad = invalid("Can't find Pages reference");
    assert!(matches!(bad, OrderError::InvalidData(_)));
    assert_eq!("Can't find Pages reference", bad.message());
}
