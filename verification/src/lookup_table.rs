//! A table with one entry for each of the 65 536 possible packed rows,
//! filled once at engine start from a supplied per-row computation.

use vstd::prelude::*;
use crate::row::Row;

verus! {

/// One entry per possible packed row, indexed by the row's raw bits.
pub struct LookupTable<T> {
    pub entries: Vec<T>,
}

impl<T> LookupTable<T> {
    /// A full table: one entry per possible row.
    pub open spec fn wf(&self) -> bool {
        self.entries@.len() == 0x10000
    }

    /// Fills the table by evaluating `calc` on every row in increasing
    /// order of packed value.
    pub fn new<F: Fn(Row) -> T>(calc: F) -> (r: LookupTable<T>)
        requires
            forall|row: Row| calc.requires((row,)),
        ensures
            r.wf(),
            forall|i: int|
                0 <= i < 0x10000 ==> calc.ensures((Row(i as u16),), #[trigger] r.entries@[i]),
    {
        let mut entries: Vec<T> = Vec::new();
        let mut i: usize = 0;
        while i < 0x10000
            invariant
                i <= 0x10000,
                entries@.len() == i,
                forall|row: Row| calc.requires((row,)),
                forall|j: int|
                    0 <= j < i ==> calc.ensures((Row(j as u16),), #[trigger] entries@[j]),
            decreases 0x10000 - i
        {
            let v = calc(Row(i as u16));
            entries.push(v);
            i = i + 1;
        }
        LookupTable { entries }
    }

    /// The entry for a given row.
    pub fn index(&self, row: Row) -> (r: &T)
        requires
            self.wf(),
        ensures
            r == &self.entries@[row.0 as int],
    {
        &self.entries[row.0 as usize]
    }
}

} // verus!
