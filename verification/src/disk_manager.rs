//! Page numbering and placement inside the heap file.
//!
//! A heap file is a sequence of bytes cut into pages of [`PAGE_SIZE`] bytes.
//! Page `n` occupies the bytes from `n * PAGE_SIZE` up to, not including,
//! `(n + 1) * PAGE_SIZE`. The [`DiskManager`] hands out page numbers and
//! computes offsets; moving the bytes is left to whoever owns the file.

use vstd::prelude::*;

verus! {

/// Number of bytes in one page.
pub const PAGE_SIZE: usize = 4096;

/// Identifies one page of the heap file.
#[derive(PartialEq, Eq, Debug, Clone, Copy, Hash, Structural)]
pub struct PageId(pub u64);

/// Offset of the first byte of page `page_id` in the heap file.
pub open spec fn page_start(page_id: PageId) -> int {
    PAGE_SIZE * page_id.0
}

/// A run of `len` zero bytes, which is what a file grows by when it is
/// written past its end.
pub open spec fn zeros(len: nat) -> Seq<u8> {
    Seq::new(len, |i: int| 0u8)
}

/// The content of page `page_id` in a heap file holding `heap`, or `None`
/// when the file ends before the end of that page.
pub open spec fn stored_page(heap: Seq<u8>, page_id: PageId) -> Option<Seq<u8>> {
    if page_start(page_id) + PAGE_SIZE <= heap.len() {
        Some(heap.subrange(page_start(page_id), page_start(page_id) + PAGE_SIZE))
    } else {
        None
    }
}

/// The heap file after `data` was written as page `page_id` into a file
/// holding `heap`. A file that ends before the page starts is first grown
/// with zero bytes.
pub open spec fn store_page(heap: Seq<u8>, page_id: PageId, data: Seq<u8>) -> Seq<u8> {
    let start = page_start(page_id);
    let end = start + data.len();
    let grown = if heap.len() < start {
        heap + zeros((start - heap.len()) as nat)
    } else {
        heap
    };
    let tail = if end < grown.len() {
        grown.subrange(end, grown.len() as int)
    } else {
        Seq::<u8>::empty()
    };
    grown.subrange(0, start) + data + tail
}

/// A page that was written is read back unchanged.
pub proof fn lemma_stored_after_store(heap: Seq<u8>, page_id: PageId, data: Seq<u8>)
    requires
        data.len() == PAGE_SIZE,
    ensures
        stored_page(store_page(heap, page_id, data), page_id) == Some(data),
{
    let start = page_start(page_id);
    let after = store_page(heap, page_id, data);
    assert(after.subrange(start, start + PAGE_SIZE) =~= data);
}

/// Writing one page leaves every other readable page as it was.
pub proof fn lemma_store_keeps_other_pages(
    heap: Seq<u8>,
    page_id: PageId,
    data: Seq<u8>,
    other: PageId,
)
    requires
        data.len() == PAGE_SIZE,
        other != page_id,
        stored_page(heap, other) is Some,
    ensures
        stored_page(store_page(heap, page_id, data), other) == stored_page(heap, other),
{
    let start = page_start(page_id);
    let at = page_start(other);
    let after = store_page(heap, page_id, data);
    assert(at + PAGE_SIZE <= start || start + PAGE_SIZE <= at) by {
        if other.0 < page_id.0 {
            assert(PAGE_SIZE * (other.0 + 1) <= PAGE_SIZE * page_id.0) by (nonlinear_arith)
                requires
                    other.0 + 1 <= page_id.0,
            ;
        } else {
            assert(PAGE_SIZE * (page_id.0 + 1) <= PAGE_SIZE * other.0) by (nonlinear_arith)
                requires
                    page_id.0 + 1 <= other.0,
            ;
        }
    }
    assert(after.subrange(at, at + PAGE_SIZE) =~= heap.subrange(at, at + PAGE_SIZE));
}

/// Writing a page never shortens the heap file.
pub proof fn lemma_store_never_shrinks(heap: Seq<u8>, page_id: PageId, data: Seq<u8>)
    ensures
        store_page(heap, page_id, data).len() >= heap.len(),
        store_page(heap, page_id, data).len() >= page_start(page_id) + data.len(),
{
}

/// Hands out page numbers for one heap file, each larger than every number
/// handed out before.
#[derive(Debug)]
pub struct DiskManager {
    next_page_id: u64,
}

impl View for DiskManager {
    type V = nat;

    /// The number that the next allocated page gets.
    closed spec fn view(&self) -> nat {
        self.next_page_id as nat
    }
}

impl DiskManager {
    /// Starts numbering after the whole pages that a heap file of
    /// `heap_file_size` bytes already holds.
    pub fn new(heap_file_size: u64) -> (dm: Self)
        ensures
            dm@ == heap_file_size as nat / PAGE_SIZE as nat,
    {
        DiskManager { next_page_id: heap_file_size / PAGE_SIZE as u64 }
    }

    /// The number that the next allocated page gets.
    pub fn next_page_id(&self) -> (id: u64)
        ensures
            id == self@,
    {
        self.next_page_id
    }

    /// Returns a page number that was never returned before.
    pub fn allocate_page(&mut self) -> (page_id: PageId)
        requires
            old(self)@ < u64::MAX,
        ensures
            page_id.0 == old(self)@,
            final(self)@ == old(self)@ + 1,
    {
        let page_id: u64 = self.next_page_id;
        self.next_page_id = page_id + 1;
        PageId(page_id)
    }

    /// True when `allocate_page` may be called: the page numbers are not
    /// used up.
    pub fn can_allocate(&self) -> (yes: bool)
        ensures
            yes == (self@ < u64::MAX),
    {
        self.next_page_id < u64::MAX
    }

    /// Offset in the heap file at which page `page_id` starts, or `None`
    /// when that offset does not fit in 64 bits.
    pub fn page_offset(page_id: PageId) -> (offset: Option<u64>)
        ensures
            offset == if page_start(page_id) <= u64::MAX {
                Some(page_start(page_id) as u64)
            } else {
                None
            },
    {
        (PAGE_SIZE as u64).checked_mul(page_id.0)
    }
}

/// A page allocated by a manager made for a heap file is not yet in that
/// file, and neither is any page allocated after it.
pub proof fn lemma_allocated_page_is_new(heap: Seq<u8>, next_page_id: nat, page_id: PageId)
    requires
        next_page_id == heap.len() / PAGE_SIZE as nat,
        page_id.0 >= next_page_id,
    ensures
        stored_page(heap, page_id) is None,
{
    let whole: int = heap.len() as int / PAGE_SIZE as int;
    assert(heap.len() < PAGE_SIZE * (whole + 1)) by (nonlinear_arith)
        requires
            whole == heap.len() as int / 4096,
            PAGE_SIZE == 4096,
    ;
    assert(PAGE_SIZE * (whole + 1) <= PAGE_SIZE * (page_id.0 + 1)) by (nonlinear_arith)
        requires
            whole <= page_id.0,
    ;
    assert(PAGE_SIZE * (page_id.0 + 1) == page_start(page_id) + PAGE_SIZE) by (nonlinear_arith)
        requires
            page_start(page_id) == PAGE_SIZE * page_id.0,
    ;
}

} // verus!
