//! Fixed-size pages over dense 1-based post positions.
use vstd::prelude::*;

verus! {

/// Number of posts (or threads) listed on one page.
pub const PAGE_SIZE: u32 = 10;

/// The 1-based page that holds a 1-based position: the ceiling of
/// `pos / PAGE_SIZE`.
pub open spec fn page_of_spec(pos: nat) -> nat {
    ((pos + PAGE_SIZE - 1) as int / PAGE_SIZE as int) as nat
}

/// The number of entries that precede page `page` (1-based).
pub open spec fn offset_of_spec(page: nat) -> nat {
    ((page - 1) * PAGE_SIZE as int) as nat
}

/// Page number of the entry at position `pos`, the same at append time and
/// at listing time.
pub fn page_of(pos: u32) -> (r: u32)
    requires
        pos >= 1,
    ensures
        r as nat == page_of_spec(pos as nat),
        r >= 1,
        offset_of_spec(r as nat) < pos <= offset_of_spec(r as nat) + PAGE_SIZE,
{
    let r = (pos - 1) / PAGE_SIZE + 1;
    proof {
        lemma_position_on_its_page(pos as nat);
        let n = pos as int;
        assert((n + 9) / 10 == (n - 1) / 10 + 1) by (nonlinear_arith)
            requires n >= 1;
    }
    r
}

/// Number of entries to skip to list page `page_num`; `None` for page 0,
/// which does not exist, or for a page beyond what a `u32` offset reaches.
pub fn page_offset(page_num: u32) -> (r: Option<u32>)
    ensures
        page_num == 0 ==> r is None,
        page_num >= 1 && offset_of_spec(page_num as nat) <= u32::MAX ==> r == Some(
            offset_of_spec(page_num as nat) as u32,
        ),
        page_num >= 1 && offset_of_spec(page_num as nat) > u32::MAX ==> r is None,
{
    if page_num == 0 {
        None
    } else {
        (page_num - 1).checked_mul(PAGE_SIZE)
    }
}

/// The page that holds a position starts before it and ends at or after it,
/// so the listing of `page_of(pos)` shows the entry at `pos`.
pub proof fn lemma_position_on_its_page(pos: nat)
    requires
        pos >= 1,
    ensures
        page_of_spec(pos) >= 1,
        offset_of_spec(page_of_spec(pos)) < pos <= offset_of_spec(page_of_spec(pos)) + PAGE_SIZE,
{
    let p = page_of_spec(pos);
    assert(p == (pos - 1) / 10 + 1) by (nonlinear_arith)
        requires p == (pos + 9) / 10, pos >= 1;
    assert((p - 1) * 10 < pos <= (p - 1) * 10 + 10) by (nonlinear_arith)
        requires p == (pos - 1) / 10 + 1, pos >= 1;
}

} // verus!
