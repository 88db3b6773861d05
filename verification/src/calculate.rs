//! Calculate the order of pages for printing a document as a booklet.
//!
//! A booklet prints 4 A4 pages in A5, two on each side (2-up).  `PageProps`
//! derives the sheet layout from a positive page count, and `PageList` walks
//! the physical slots in print order by repeatedly applying the
//! fold-transition rule.

use vstd::prelude::*;

verus! {

use crate::order::blanks_for;
use crate::order::leaves_for;
use crate::order::lemma_leaf_count;
use crate::order::lemma_next_slot_range;
use crate::order::lemma_walk_bounds;
use crate::order::lemma_walk_last;
use crate::order::next_slot_for;
use crate::order::print_order_for;
use crate::order::slot_walk;

/// Compiler-guaranteed positive integer: the sole admission gate into the
/// page-order calculation.  Every later step divides by, or subtracts from,
/// the wrapped value, so zero must be rejected here.
#[derive(Debug, PartialEq, Eq, Structural)]
pub struct NonZero(u32);

impl NonZero {
    /// The wrapped page count, for use in specifications.
    pub closed spec fn spec_ex(&self) -> u32 {
        self.0
    }

    /// A `NonZero` is well formed exactly when it wraps a positive value.
    pub open spec fn wf(&self) -> bool {
        self.spec_ex() > 0
    }

    /// Wrap a page count, refusing zero.
    pub fn new(u: u32) -> (r: Option<NonZero>)
        ensures
            match r {
                Some(nz) => nz.wf() && nz.spec_ex() == u && u > 0,
                None => u == 0,
            },
    {
        if u == 0 {
            None
        } else {
            Some(NonZero(u))
        }
    }

    /// Read the wrapped value back out.
    pub fn ex(&self) -> (r: u32)
        ensures
            r == self.spec_ex(),
    {
        self.0
    }
}

/// Into which half of the sheet stack does a given slot fall?
///
/// The half decides the direction of the step that follows an odd slot.
#[derive(Debug)]
enum Half {
    Former,
    Latter,
}

/// The set of page properties: the sheet layout derived once from a positive
/// page count, immutable afterwards.
#[derive(Debug, Clone, Copy)]
pub struct PageProps {
    /// How many sheets of paper.
    leaves: u32,
    /// How many pages of content.
    pages: u32,
    /// How many pages total, including blanks.
    new_pages: u32,
    /// Which is the first page for the rearranged output.
    start_page: u32,
    /// How many blank pages added at the end of the final sheet.
    blanks: u32,
}

impl PageProps {
    /// How many pages of content, for use in specifications.
    pub closed spec fn spec_pages(&self) -> u32 {
        self.pages
    }

    /// How many sheets of paper, for use in specifications.
    pub closed spec fn spec_leaves(&self) -> u32 {
        self.leaves
    }

    /// How many slots in total, padding included, for use in specifications.
    pub closed spec fn spec_new_pages(&self) -> u32 {
        self.new_pages
    }

    /// The slot the walk starts from, for use in specifications.
    pub closed spec fn spec_start_page(&self) -> u32 {
        self.start_page
    }

    /// How many trailing blanks, for use in specifications.
    pub closed spec fn spec_blanks(&self) -> u32 {
        self.blanks
    }

    /// Every field agrees with the layout that `leaves_for` and `blanks_for`
    /// derive from the page count.  The bound on `pages` keeps the padded
    /// count inside `u32`.
    pub open spec fn wf(&self) -> bool {
        &&& 1 <= self.spec_pages() <= u32::MAX - 3
        &&& self.spec_leaves() as int == leaves_for(self.spec_pages() as int)
        &&& self.spec_new_pages() as int == 4 * self.spec_leaves() as int
        &&& self.spec_start_page() as int == 2 * self.spec_leaves() as int
        &&& self.spec_blanks() as int == blanks_for(self.spec_pages() as int)
    }

    /// Derive the layout.  This is only valid for a positive integer, so the
    /// input is restricted to that; the upper bound keeps the padded page
    /// count representable.
    pub fn new(pgs: &NonZero) -> (r: PageProps)
        requires
            pgs.wf(),
            pgs.spec_ex() <= u32::MAX - 3,
        ensures
            r.wf(),
            r.spec_pages() == pgs.spec_ex(),
    {
        let pages = pgs.ex();

        // round up for the sheets of paper used
        let leaves = get_leaves(pgs);

        proof {
            lemma_leaf_count(pages as int);
        }

        // four pages per leaf
        let new_pages = leaves * 4;

        // The first page is the middle face, LHS
        let start_page = leaves * 2;

        let blanks = trailing_blanks(pages);

        PageProps { leaves, pages, new_pages, start_page, blanks }
    }

    /// Given an original page number, what original page is next?  Zero
    /// signals that the walk is over.
    pub fn next_page_no(&self, page: u32) -> (r: u32)
        requires
            self.wf(),
            1 <= page <= self.spec_new_pages(),
        ensures
            r as int == next_slot_for(
                self.spec_new_pages() as int,
                self.spec_start_page() as int,
                page as int,
            ),
    {
        let half = if page > self.start_page {
            Half::Latter
        } else {
            Half::Former
        };
        next_page_no(self.new_pages, half, page)
    }

    /// Produce the new order of original page numbers, one entry per physical
    /// slot: `Some(page)` where the slot carries a content page, `None` where
    /// it is a trailing blank.
    pub fn print_order(&self) -> (r: Vec<Option<u32>>)
        requires
            self.wf(),
        ensures
            r@ == print_order_for(self.spec_pages() as int),
    {
        PageList::new(self).print_order()
    }

    /// Rather than making the `new_pages` field public, provide the same
    /// value with a function.
    pub fn new_pages(&self) -> (r: u32)
        ensures
            r == self.spec_new_pages(),
    {
        self.new_pages
    }
}

/// How many sheets of paper a positive page count fills, rounding up.
fn get_leaves(pages: &NonZero) -> (r: u32)
    requires
        pages.wf(),
    ensures
        r as int == leaves_for(pages.spec_ex() as int),
{
    (pages.ex() - 1) / 4 + 1
}

/// How many pages are blank on the final leaf?
///
/// Note: the modulo operations are safe for unsigned ints.
fn trailing_blanks(pages: u32) -> (r: u32)
    ensures
        r as int == blanks_for(pages as int),
{
    (4 - pages % 4) % 4
}

/// This (private) function implements the logic of the corresponding
/// `next_page_no` method: an even slot mirrors across the sheet stack, an odd
/// slot steps to its neighbour, with the direction set by the half.
fn next_page_no(pages: u32, half: Half, page: u32) -> (r: u32)
    requires
        1 <= page <= pages,
        pages < u32::MAX,
    ensures
        r as int == (match half {
            Half::Former => if page % 2 == 0 { pages - page + 1 } else { page - 1 },
            Half::Latter => if page % 2 == 0 { pages - page + 1 } else { page + 1 },
        }),
{
    let parity = page % 2;
    match half {
        Half::Former => if parity == 0 { pages - page + 1 } else { page - 1 },
        Half::Latter => if parity == 0 { pages - page + 1 } else { page + 1 },
    }
}

/// The traversal state of the fold walk: not yet started while the first
/// field is `None`, afterwards the slot that was emitted last.  This type is
/// required to iterate through the page numbers.
#[derive(Debug)]
pub struct PageList(Option<u32>, PageProps);

impl PageList {
    /// The slot emitted last, for use in specifications.
    pub closed spec fn spec_state(&self) -> Option<u32> {
        self.0
    }

    /// The layout the walk runs on, for use in specifications.
    pub closed spec fn spec_props(&self) -> PageProps {
        self.1
    }

    /// The layout is well formed and the current slot, if any, lies inside
    /// the padded range.
    pub open spec fn wf(&self) -> bool {
        &&& self.spec_props().wf()
        &&& (self.spec_state() matches Some(s) ==> 1 <= s <= self.spec_props().spec_new_pages())
    }

    /// The start state has no page number, meaning the walk emits the first
    /// page with the first call to `next`.
    pub fn new(pp: &PageProps) -> (r: PageList)
        requires
            pp.wf(),
        ensures
            r.wf(),
            r.spec_props() == *pp,
            r.spec_state() is None,
    {
        PageList(None, *pp)
    }

    /// Advance the walk: emit the start slot first, then the successor of the
    /// slot emitted last, and `None` once the transition rule reports the end.
    /// Calling `next` after exhaustion keeps answering `None`.
    pub fn next(&mut self) -> (r: Option<u32>)
        requires
            old(self).wf(),
        ensures
            final(self).wf(),
            final(self).spec_props() == old(self).spec_props(),
            (match old(self).spec_state() {
                None => {
                    &&& r == Some(old(self).spec_props().spec_start_page())
                    &&& final(self).spec_state() == r
                },
                Some(s) => {
                    let nx = next_slot_for(
                        old(self).spec_props().spec_new_pages() as int,
                        old(self).spec_props().spec_start_page() as int,
                        s as int,
                    );
                    if nx == 0 {
                        r is None && final(self).spec_state() == old(self).spec_state()
                    } else {
                        r == Some(nx as u32) && final(self).spec_state() == r
                    }
                },
            }),
    {
        proof {
            lemma_leaf_count(self.1.spec_pages() as int);
            if let Some(s) = self.0 {
                lemma_next_slot_range(self.1.spec_leaves() as int, s as int);
            }
        }
        match self.0 {
            None => {
                self.0 = Some(self.1.start_page);
            },
            Some(current) => {
                let x = self.1.next_page_no(current);

                if x == 0 {
                    return None;
                }

                self.0 = Some(x);
            },
        }
        self.0
    }

    /// Drive the walk to exhaustion, classifying every slot: any numbers
    /// outside the original page number list correspond to blank pages,
    /// represented here as `None`.
    pub fn print_order(self) -> (r: Vec<Option<u32>>)
        requires
            self.wf(),
            self.spec_state() is None,
        ensures
            r@ == print_order_for(self.spec_props().spec_pages() as int),
    {
        let ghost props = self.spec_props();
        let ghost leaves: int = leaves_for(props.spec_pages() as int);
        let pages = self.1.pages;
        proof {
            lemma_leaf_count(pages as int);
        }
        let mut list = self;
        let mut out: Vec<Option<u32>> = Vec::new();
        let mut cur = list.next();
        while cur.is_some()
            invariant
                props.wf(),
                pages == props.spec_pages(),
                leaves == leaves_for(pages as int),
                list.wf(),
                list.spec_props() == props,
                out@.len() <= 4 * leaves,
                forall|j: int|
                    0 <= j < out@.len() ==> out@[j] == print_order_for(pages as int)[j],
                (if out@.len() < 4 * leaves {
                    &&& cur matches Some(c)
                    &&& c as int == slot_walk(leaves, out@.len() as int)
                    &&& list.spec_state() == cur
                } else {
                    cur is None
                }),
            decreases 4 * leaves - out@.len(),
        {
            let ghost i: int = out@.len() as int;
            proof {
                lemma_walk_bounds(leaves, i);
            }
            let x = cur.unwrap();
            if x > pages {
                out.push(None);
            } else {
                out.push(Some(x));
            }
            cur = list.next();
            proof {
                assert(slot_walk(leaves, i + 1) == next_slot_for(
                    4 * leaves,
                    2 * leaves,
                    slot_walk(leaves, i),
                ));
                if i + 1 < 4 * leaves {
                    lemma_walk_bounds(leaves, i + 1);
                } else {
                    lemma_walk_last(leaves);
                }
            }
        }
        proof {
            assert(out@ =~= print_order_for(pages as int));
        }
        out
    }
}

} // verus!
