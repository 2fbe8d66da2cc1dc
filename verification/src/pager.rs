use vstd::prelude::*;

use crate::errors::ErrorKind;

verus! {

/// Size in bytes of one page.
pub const PAGE_SIZE: usize = 4096;

/// Fixed upper bound on the number of pages a store may hold, keeping
/// resource usage bounded and deterministic.
pub const MAX_PAGES: usize = 100;

/// A freshly allocated page: `PAGE_SIZE` zero bytes.
pub open spec fn zero_page() -> Seq<u8> {
    Seq::new(PAGE_SIZE as nat, |i: int| 0u8)
}

/// An in-memory store of fixed-size pages, grown lazily one page at a
/// time and never shrunk. Pages are owned exclusively by the store and
/// addressed only by zero-based index.
pub struct Pager {
    pages: Vec<Vec<u8>>,
}

impl View for Pager {
    type V = Seq<Seq<u8>>;

    closed spec fn view(&self) -> Seq<Seq<u8>> {
        Seq::new(self.pages@.len(), |i: int| self.pages@[i]@)
    }
}

/// Builds one zero-filled page.
fn new_zero_page() -> (p: Vec<u8>)
    ensures
        p@ == zero_page(),
{
    let mut p: Vec<u8> = Vec::new();
    let mut i: usize = 0;
    while i < PAGE_SIZE
        invariant
            i <= PAGE_SIZE,
            p@ =~= Seq::new(i as nat, |j: int| 0u8),
        decreases PAGE_SIZE - i,
    {
        p.push(0u8);
        assert(p@ =~= Seq::new((i + 1) as nat, |j: int| 0u8));
        i += 1;
    }
    assert(p@ =~= zero_page());
    p
}

impl Pager {
    /// Every page has exactly `PAGE_SIZE` bytes and the page count stays
    /// within the fixed bound.
    pub open spec fn wf(&self) -> bool {
        &&& self@.len() <= MAX_PAGES
        &&& forall|i: int| 0 <= i < self@.len() ==> (#[trigger] self@[i]).len() == PAGE_SIZE
    }

    /// An empty store.
    pub fn new() -> (p: Pager)
        ensures
            p.wf(),
            p@ =~= Seq::<Seq<u8>>::empty(),
    {
        Pager { pages: Vec::new() }
    }

    /// How many pages have been allocated so far.
    pub fn num_pages(&self) -> (n: usize)
        ensures
            n == self@.len(),
    {
        self.pages.len()
    }

    /// Allocates zero-filled pages up to and including `page_index` if they
    /// do not exist yet. Fails with `TableFull` exactly when `page_index`
    /// lies beyond the fixed page bound; existing pages are never touched.
    pub fn ensure_page(&mut self, page_index: usize) -> (r: Result<(), ErrorKind>)
        requires
            old(self).wf(),
        ensures
            final(self).wf(),
            match r {
                Ok(()) => {
                    &&& page_index < MAX_PAGES
                    &&& final(self)@.len() == if page_index < old(self)@.len() {
                        old(self)@.len() as int
                    } else {
                        page_index + 1
                    }
                    &&& forall|i: int|
                        0 <= i < old(self)@.len() ==> final(self)@[i] == old(self)@[i]
                    &&& forall|i: int|
                        old(self)@.len() <= i < final(self)@.len() ==> final(self)@[i]
                            == zero_page()
                },
                Err(e) => {
                    &&& e == ErrorKind::TableFull
                    &&& page_index >= MAX_PAGES
                    &&& final(self)@ == old(self)@
                },
            },
    {
        if page_index >= MAX_PAGES {
            return Err(ErrorKind::TableFull);
        }
        while self.pages.len() <= page_index
            invariant
                page_index < MAX_PAGES,
                self@.len() >= old(self)@.len(),
                self@.len() <= page_index + 1 || self@.len() == old(self)@.len(),
                self.wf(),
                forall|i: int| 0 <= i < old(self)@.len() ==> self@[i] == old(self)@[i],
                forall|i: int|
                    old(self)@.len() <= i < self@.len() ==> self@[i] == zero_page(),
            decreases page_index + 1 - self@.len(),
        {
            let ghost prev = self@;
            let p = new_zero_page();
            self.pages.push(p);
            proof {
                assert(self@.len() == prev.len() + 1);
                assert(self@[prev.len() as int] == zero_page());
                assert forall|i: int| 0 <= i < self@.len() implies (#[trigger] self@[i]).len()
                    == PAGE_SIZE by {
                    if i < prev.len() {
                        assert(self@[i] == prev[i]);
                    }
                }
                assert forall|i: int|
                    old(self)@.len() <= i < self@.len() implies #[trigger] self@[i]
                    == zero_page() by {
                    if i < prev.len() {
                        assert(self@[i] == prev[i]);
                    }
                }
            }
        }
        Ok(())
    }

    /// Copies `bytes` into the page at `page_index` starting at `offset`.
    /// Fails with `OutOfBounds` exactly when the page does not exist or the
    /// range does not fit in a page; nothing else is changed either way.
    pub fn write(&mut self, page_index: usize, offset: usize, bytes: &Vec<u8>) -> (r: Result<
        (),
        ErrorKind,
    >)
        requires
            old(self).wf(),
        ensures
            final(self).wf(),
            match r {
                Ok(()) => {
                    &&& page_index < old(self)@.len()
                    &&& offset + bytes@.len() <= PAGE_SIZE
                    &&& final(self)@.len() == old(self)@.len()
                    &&& final(self)@[page_index as int] == old(self)@[page_index as int].subrange(
                        0,
                        offset as int,
                    ) + bytes@ + old(self)@[page_index as int].subrange(
                        offset + bytes@.len(),
                        PAGE_SIZE as int,
                    )
                    &&& forall|i: int|
                        0 <= i < old(self)@.len() && i != page_index ==> final(self)@[i] == old(
                            self,
                        )@[i]
                },
                Err(e) => {
                    &&& e == ErrorKind::OutOfBounds
                    &&& !(page_index < old(self)@.len() && offset + bytes@.len() <= PAGE_SIZE)
                    &&& final(self)@ == old(self)@
                },
            },
    {
        let n = bytes.len();
        if page_index >= self.pages.len() || n > PAGE_SIZE || offset > PAGE_SIZE - n {
            return Err(ErrorKind::OutOfBounds);
        }
        let mut i: usize = 0;
        while i < n
            invariant
                i <= n == bytes@.len(),
                offset + n <= PAGE_SIZE,
                page_index < self@.len(),
                self@.len() == old(self)@.len(),
                self.wf(),
                forall|k: int|
                    0 <= k < self@.len() && k != page_index ==> self@[k] == old(self)@[k],
                forall|j: int|
                    0 <= j < PAGE_SIZE ==> self@[page_index as int][j] == if offset <= j < offset
                        + i {
                        bytes@[j - offset]
                    } else {
                        old(self)@[page_index as int][j]
                    },
            decreases n - i,
        {
            let ghost prev = self@;
            proof {
                assert(self.pages@[page_index as int]@ == self@[page_index as int]);
            }
            self.pages[page_index][offset + i] = bytes[i];
            proof {
                assert(self@.len() == prev.len());
                assert(forall|k: int|
                    0 <= k < prev.len() && k != page_index ==> self@[k] == prev[k]);
                assert(self@[page_index as int] =~= prev[page_index as int].update(
                    offset + i,
                    bytes@[i as int],
                ));
                assert forall|k: int| 0 <= k < self@.len() implies (#[trigger] self@[k]).len()
                    == PAGE_SIZE by {
                    if k != page_index {
                        assert(self@[k] == prev[k]);
                    }
                }
            }
            i += 1;
        }
        proof {
            let pi = page_index as int;
            assert(self@[pi] =~= old(self)@[pi].subrange(0, offset as int) + bytes@ + old(
                self,
            )@[pi].subrange(offset + bytes@.len(), PAGE_SIZE as int));
        }
        Ok(())
    }

    /// Returns a copy of `length` bytes of the page at `page_index`
    /// starting at `offset`. Fails with `OutOfBounds` exactly when the page
    /// does not exist or the range does not fit in a page. Never mutates.
    pub fn read(&self, page_index: usize, offset: usize, length: usize) -> (r: Result<
        Vec<u8>,
        ErrorKind,
    >)
        requires
            self.wf(),
        ensures
            match r {
                Ok(b) => {
                    &&& page_index < self@.len()
                    &&& offset + length <= PAGE_SIZE
                    &&& b@ == self@[page_index as int].subrange(offset as int, offset + length)
                },
                Err(e) => {
                    &&& e == ErrorKind::OutOfBounds
                    &&& !(page_index < self@.len() && offset + length <= PAGE_SIZE)
                },
            },
    {
        if page_index >= self.pages.len() || length > PAGE_SIZE || offset > PAGE_SIZE - length {
            return Err(ErrorKind::OutOfBounds);
        }
        let mut b: Vec<u8> = Vec::new();
        let mut i: usize = 0;
        while i < length
            invariant
                i <= length,
                page_index < self@.len(),
                offset + length <= PAGE_SIZE,
                self.wf(),
                b@ == self@[page_index as int].subrange(offset as int, offset + i),
            decreases length - i,
        {
            let page = &self.pages[page_index];
            b.push(page[offset + i]);
            assert(b@ =~= self@[page_index as int].subrange(offset as int, offset + i + 1));
            i += 1;
        }
        Ok(b)
    }
}

} // verus!
