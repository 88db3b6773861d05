//! The original unit tests of the calculation engine, driven through the
//! public API: the worked 19-page example of the fold walk.

use booklet::NonZero;
use booklet::PageList;
use booklet::PageProps;

fn props(pages: u32) -> PageProps {
    let nz = NonZero::new(pages).expect("page count must be positive");
    PageProps::new(&nz)
}

fn collect_slots(pp: &PageProps) -> Vec<u32> {
    let mut list = PageList::new(pp);
    let mut slots: Vec<u32> = Vec::new();
    while let Some(slot) = list.next() {
        slots.push(slot);
    }
    slots
}

#[test]
fn calculate_test_next_page() {
    let test_ps = props(19);

    assert_eq!(11, test_ps.next_page_no(10));
    assert_eq!(12, test_ps.next_page_no(11));
    assert_eq!(09, test_ps.next_page_no(12));
    assert_eq!(08, test_ps.next_page_no(09));
    assert_eq!(13, test_ps.next_page_no(08));

    let pages0: Vec<u32> = vec![10, 11, 12, 9, 8, 13, 14, 7, 6, 15, 16, 5, 4, 17, 18, 3, 2, 19, 1];
    let pages1: Vec<u32> = vec![11, 12, 9, 8, 13, 14, 7, 6, 15, 16, 5, 4, 17, 18, 3, 2, 19, 20, 0];
    let next_pages: Vec<u32> = pages0.iter().map(|x| test_ps.next_page_no(*x)).collect();

    assert_eq!(pages1, next_pages);
}

#[test]
fn calculate_test_gen_pages() {
    let test_ps = props(19);
    assert_eq!(
        vec![10, 11, 12, 9, 8, 13, 14, 7, 6, 15, 16, 5, 4, 17, 18, 3, 2, 19, 20, 1],
        collect_slots(&test_ps)
    )
}

#[test]
fn calculate_test_print_order() {
    let test_ps = props(19);
    let test_out = PageList::new(&test_ps).print_order();
    assert_eq!(
        vec![
            Some(10),
            Some(11),
            Some(12),
            Some(9),
            Some(8),
            Some(13),
            Some(14),
            Some(7),
            Some(6),
            Some(15),
            Some(16),
            Some(5),
            Some(4),
            Some(17),
            Some(18),
            Some(3),
            Some(2),
            Some(19),
            None,
            Some(1)
        ],
        test_out
    )
}

#[test]
fn reorder_test_next_page() {
    let test_ps = props(19);

    assert_eq!(11, test_ps.next_page_no(10));
    assert_eq!(12, test_ps.next_page_no(11));
    assert_eq!(09, test_ps.next_page_no(12));
    assert_eq!(08, test_ps.next_page_no(09));
    assert_eq!(13, test_ps.next_page_no(08));

    let pages0: Vec<u32> = vec![10, 11, 12, 9, 8, 13, 14, 7, 6, 15, 16, 5, 4, 17, 18, 3, 2, 19, 1];
    let pages1: Vec<u32> = vec![11, 12, 9, 8, 13, 14, 7, 6, 15, 16, 5, 4, 17, 18, 3, 2, 19, 20, 0];
    let next_pages: Vec<u32> = pages0.iter().map(|x| test_ps.next_page_no(*x)).collect();

    assert_eq!(pages1, next_pages);
}

#[test]
fn reorder_test_gen_pages() {
    let test_ps = props(19);
    assert_eq!(
        vec![10, 11, 12, 9, 8, 13, 14, 7, 6, 15, 16, 5, 4, 17, 18, 3, 2, 19, 20, 1],
        collect_slots(&test_ps)
    )
}

#[test]
fn reorder_test_print_order() {
    let test_ps = props(19);
    let test_out = PageList::new(&test_ps).print_order();
    assert_eq!(
        vec![
            Some(10),
            Some(11),
            Some(12),
            Some(9),
            Some(8),
            Some(13),
            Some(14),
            Some(7),
            Some(6),
            Some(15),
            Some(16),
            Some(5),
            Some(4),
            Some(17),
            Some(18),
            Some(3),
            Some(2),
            Some(19),
            None,
            Some(1)
        ],
        test_out
    )
}
