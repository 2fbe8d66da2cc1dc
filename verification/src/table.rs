use vstd::prelude::*;

use vstd::arithmetic::div_mod::{
    lemma_div_is_ordered, lemma_div_pos_is_pos, lemma_fundamental_div_mod, lemma_mod_bound,
};
use vstd::arithmetic::mul::lemma_mul_inequality;

use crate::errors::ErrorKind;
use crate::pager::{MAX_PAGES, PAGE_SIZE, Pager};
use crate::row::{decode, decode_row, encode, stored_row, valid_row, Row, RowV, ROW_SIZE};

verus! {

/// How many whole rows fit in one page; the remainder of a page is unused.
pub const ROWS_PER_PAGE: usize = PAGE_SIZE / ROW_SIZE;

/// The fixed row capacity of a table: every page filled with rows.
pub const TABLE_MAX_ROWS: usize = ROWS_PER_PAGE * MAX_PAGES;

/// The page that holds row `i`.
pub open spec fn slot_page(i: int) -> int {
    i / (ROWS_PER_PAGE as int)
}

/// The byte offset of row `i` inside its page.
pub open spec fn slot_offset(i: int) -> int {
    (i % (ROWS_PER_PAGE as int)) * (ROW_SIZE as int)
}

/// How many pages a table with `n` rows occupies: pages are allocated
/// lazily, one as soon as a row lands on it, and never given back.
pub open spec fn pages_needed(n: int) -> int {
    if n == 0 {
        0
    } else {
        (n - 1) / (ROWS_PER_PAGE as int) + 1
    }
}

/// The layout constants, evaluated: naming their values lets the solver
/// reason about the divisions and products that define them.
pub proof fn lemma_layout_constants()
    ensures
        ROW_SIZE == 291,
        PAGE_SIZE == 4096,
        ROWS_PER_PAGE == 14,
        MAX_PAGES == 100,
        TABLE_MAX_ROWS == 1400,
{
}

/// A row slot lies entirely inside its page.
proof fn lemma_slot_in_page(i: int)
    requires
        0 <= i,
    ensures
        0 <= slot_page(i),
        0 <= slot_offset(i),
        slot_offset(i) + ROW_SIZE <= PAGE_SIZE,
{
    let c = ROWS_PER_PAGE as int;
    lemma_layout_constants();
    lemma_div_pos_is_pos(i, c);
    lemma_mod_bound(i, c);
    lemma_mul_inequality(0, i % c, ROW_SIZE as int);
    lemma_mul_inequality(i % c, c - 1, ROW_SIZE as int);
}

/// Every row of a table with `n` rows lives on an allocated page.
proof fn lemma_row_slot_bounds(i: int, n: int)
    requires
        0 <= i < n,
    ensures
        0 <= slot_page(i) < pages_needed(n),
{
    let c = ROWS_PER_PAGE as int;
    lemma_layout_constants();
    lemma_div_pos_is_pos(i, c);
    lemma_div_is_ordered(i, n - 1, c);
}

/// Two rows on the same page sit at disjoint, ordered offsets.
proof fn lemma_same_page_order(i: int, n: int)
    requires
        0 <= i < n,
        slot_page(i) == slot_page(n),
    ensures
        slot_offset(i) + ROW_SIZE <= slot_offset(n),
{
    let c = ROWS_PER_PAGE as int;
    lemma_layout_constants();
    lemma_fundamental_div_mod(i, c);
    lemma_fundamental_div_mod(n, c);
    assert(i % c < n % c);
    lemma_mul_inequality(i % c + 1, n % c, ROW_SIZE as int);
}

/// Adding one row occupies exactly the pages up to and including its own.
proof fn lemma_pages_growth(n: int)
    requires
        0 <= n,
    ensures
        pages_needed(n + 1) == slot_page(n) + 1,
        pages_needed(n) <= slot_page(n) + 1,
{
    let c = ROWS_PER_PAGE as int;
    lemma_layout_constants();
    if n > 0 {
        lemma_div_is_ordered(n - 1, n, c);
    } else {
        lemma_div_pos_is_pos(n, c);
    }
}

/// One relation: a page store holding serialized rows in slot order, and
/// the count of rows inserted so far. Rows are only ever appended.
pub struct Table {
    pager: Pager,
    row_count: usize,
}

impl View for Table {
    type V = Seq<RowV>;

    /// The rows the table holds, in insertion order, as they read back.
    closed spec fn view(&self) -> Seq<RowV> {
        Seq::new(self.row_count as nat, |i: int| decode_row(self.row_bytes(i)))
    }
}

impl Table {
    /// The serialized bytes of row `i`.
    closed spec fn row_bytes(&self, i: int) -> Seq<u8> {
        self.pager@[slot_page(i)].subrange(slot_offset(i), slot_offset(i) + ROW_SIZE)
    }

    /// The pager is well formed, the count respects the fixed capacity,
    /// and exactly the pages the rows occupy are allocated.
    pub closed spec fn wf(&self) -> bool {
        &&& self.pager.wf()
        &&& self.row_count <= TABLE_MAX_ROWS
        &&& self.pager@.len() == pages_needed(self.row_count as int)
    }

    /// An empty table with no pages allocated yet.
    pub fn new() -> (t: Table)
        ensures
            t.wf(),
            t@ =~= Seq::<RowV>::empty(),
    {
        Table { pager: Pager::new(), row_count: 0 }
    }

    /// How many rows the table holds.
    pub fn row_count(&self) -> (n: usize)
        ensures
            n == self@.len(),
    {
        self.row_count
    }

    /// Appends a row: serializes it, places the bytes in the slot for the
    /// next row index, and counts it. Fails with `FieldTooLong` exactly
    /// when a text field is over its fixed width, and with `TableFull`
    /// exactly when the fixed capacity is already reached; a failed insert
    /// leaves the table unchanged. A stored text field loses any trailing
    /// zero bytes: they cannot be told apart from padding.
    pub fn insert(&mut self, row: &Row) -> (r: Result<(), ErrorKind>)
        requires
            old(self).wf(),
        ensures
            final(self).wf(),
            match r {
                Ok(()) => {
                    &&& valid_row(row@)
                    &&& old(self)@.len() < TABLE_MAX_ROWS
                    &&& final(self)@ == old(self)@.push(stored_row(row@))
                },
                Err(e) => {
                    &&& final(self)@ == old(self)@
                    &&& !valid_row(row@) || old(self)@.len() == TABLE_MAX_ROWS
                    &&& (e == ErrorKind::FieldTooLong <==> !valid_row(row@))
                    &&& (e == ErrorKind::TableFull <==> valid_row(row@) && old(self)@.len()
                        == TABLE_MAX_ROWS)
                },
            },
    {
        let bytes = match encode(row) {
            Ok(b) => b,
            Err(e) => {
                return Err(e);
            },
        };
        if self.row_count >= TABLE_MAX_ROWS {
            return Err(ErrorKind::TableFull);
        }
        let rc = self.row_count;
        proof {
            lemma_layout_constants();
            lemma_slot_in_page(rc as int);
            lemma_row_slot_bounds(rc as int, TABLE_MAX_ROWS as int);
            lemma_pages_growth(rc as int);
            assert(pages_needed(TABLE_MAX_ROWS as int) == MAX_PAGES);
        }
        let page_num = rc / ROWS_PER_PAGE;
        let offset = (rc % ROWS_PER_PAGE) * ROW_SIZE;
        let ghost before = *self;
        let r_ensure = self.pager.ensure_page(page_num);
        proof {
            assert(r_ensure is Ok);
        }
        let ghost mid = *self;
        let r_write = self.pager.write(page_num, offset, &bytes);
        proof {
            assert(r_write is Ok);
        }
        self.row_count = rc + 1;
        proof {
            let c = ROWS_PER_PAGE as int;
            let pn = slot_page(rc as int);
            let off = slot_offset(rc as int);
            assert(self.pager@.len() == pages_needed(rc + 1));
            assert forall|i: int| 0 <= i < rc + 1 implies Seq::new(
                (rc + 1) as nat,
                |j: int| decode_row(self.row_bytes(j)),
            )[i] == before@.push(stored_row(row@))[i] by {
                if i < rc {
                    lemma_row_slot_bounds(i, rc as int);
                    lemma_slot_in_page(i);
                    let pi = slot_page(i);
                    assert(mid.pager@[pi] == before.pager@[pi]);
                    if pi == pn {
                        lemma_same_page_order(i, rc as int);
                        assert(self.pager@[pi].subrange(slot_offset(i), slot_offset(i) + ROW_SIZE)
                            =~= before.pager@[pi].subrange(
                            slot_offset(i),
                            slot_offset(i) + ROW_SIZE,
                        ));
                    } else {
                        assert(self.pager@[pi] == mid.pager@[pi]);
                    }
                    assert(self.row_bytes(i) == before.row_bytes(i));
                } else {
                    assert(self.pager@[pn].subrange(off, off + ROW_SIZE) =~= bytes@);
                    crate::row::lemma_decode_encode(row@);
                }
            }
            assert(self@ =~= before@.push(stored_row(row@)));
        }
        Ok(())
    }

    /// Reads every row back in insertion order, from index zero up to the
    /// row count: a fresh, complete pass that never mutates the table.
    pub fn scan(&self) -> (rows: Vec<Row>)
        requires
            self.wf(),
        ensures
            rows@.len() == self@.len(),
            forall|i: int| 0 <= i < rows@.len() ==> (#[trigger] rows@[i])@ == self@[i],
    {
        let mut rows: Vec<Row> = Vec::new();
        let mut i: usize = 0;
        while i < self.row_count
            invariant
                i <= self.row_count,
                self.wf(),
                rows@.len() == i,
                forall|k: int| 0 <= k < i ==> (#[trigger] rows@[k])@ == self@[k],
            decreases self.row_count - i,
        {
            proof {
                lemma_slot_in_page(i as int);
                lemma_row_slot_bounds(i as int, self.row_count as int);
            }
            let page_num = i / ROWS_PER_PAGE;
            let offset = (i % ROWS_PER_PAGE) * ROW_SIZE;
            let bytes = match self.pager.read(page_num, offset, ROW_SIZE) {
                Ok(b) => b,
                Err(_) => {
                    proof {
                        assert(false);
                    }
                    vstd::pervasive::unreached()
                },
            };
            let row = decode(&bytes);
            rows.push(row);
            i += 1;
        }
        rows
    }
}

} // verus!
