use vstd::prelude::*;

verus! {

use crate::field::Felt;
use crate::errors::HintError;

/// A memory cell value: a field element or an address.
#[derive(Debug, Clone, PartialEq, Eq)]
pub enum MaybeRelocatable {
    Int(Felt),
    Address(usize),
}

/// The mathematical value of a memory cell.
pub enum CellVal {
    Num(nat),
    Addr(nat),
}

/// The value of a cell.
pub open spec fn cell_val(c: MaybeRelocatable) -> CellVal {
    match c {
        MaybeRelocatable::Int(f) => CellVal::Num(f@),
        MaybeRelocatable::Address(a) => CellVal::Addr(a as nat),
    }
}

/// The value of a possibly unset cell.
pub open spec fn opt_cell_val(c: Option<MaybeRelocatable>) -> Option<CellVal> {
    match c {
        Some(mr) => Some(cell_val(mr)),
        None => None,
    }
}

/// Whether a cell's field element, if any, is well formed.
pub open spec fn cell_wf(c: Option<MaybeRelocatable>) -> bool {
    match c {
        Some(MaybeRelocatable::Int(f)) => f.wf(),
        _ => true,
    }
}

/// An addressable store of cells, addressed by index; a cell may be unset.
/// Cells holding integers are read targets; unset cells are write targets,
/// and a written cell is never overwritten.
pub struct VirtualMachine {
    memory: Vec<Option<MaybeRelocatable>>,
}

impl View for VirtualMachine {
    type V = Seq<Option<CellVal>>;

    closed spec fn view(&self) -> Seq<Option<CellVal>> {
        self.memory@.map(|i: int, c: Option<MaybeRelocatable>| opt_cell_val(c))
    }
}

impl VirtualMachine {
    /// Whether every stored field element is well formed.
    pub open spec fn wf(&self) -> bool {
        self@.len() <= usize::MAX && self.cells_ok()
    }

    pub closed spec fn cells_ok(&self) -> bool {
        forall|i: int| 0 <= i < self.memory@.len() ==> cell_wf(#[trigger] self.memory@[i])
    }

    /// Build a machine over the given cells.
    pub fn new(cells: Vec<Option<MaybeRelocatable>>) -> (r: VirtualMachine)
        requires
            forall|i: int| 0 <= i < cells@.len() ==> cell_wf(#[trigger] cells@[i]),
        ensures
            r.wf(),
            r@.len() == cells@.len(),
            forall|i: int| 0 <= i < cells@.len() ==> r@[i] == opt_cell_val(#[trigger] cells@[i]),
    {
        let n = cells.len();
        let r = VirtualMachine { memory: cells };
        proof {
            assert(r@.len() == n);
        }
        r
    }

    /// The number of cells.
    pub fn memory_len(&self) -> (r: usize)
        ensures
            r == self@.len(),
    {
        self.memory.len()
    }

    /// Read one cell as a field element; None when the cell is out of range,
    /// unset, or holds an address.
    pub fn get_integer(&self, addr: usize) -> (r: Option<Felt>)
        requires
            self.wf(),
        ensures
            match r {
                Some(f) => f.wf() && addr < self@.len() && self@[addr as int] == Some(
                    CellVal::Num(f@),
                ),
                None => addr >= self@.len() || !(self@[addr as int] matches Some(
                    CellVal::Num(_),
                )),
            },
    {
        if addr < self.memory.len() {
            match &self.memory[addr] {
                Some(MaybeRelocatable::Int(f)) => Some(f.dup()),
                _ => None,
            }
        } else {
            None
        }
    }

    /// Whether one cell exists and is still unset.
    pub fn can_write(&self, addr: usize) -> (r: bool)
        ensures
            r == (addr < self@.len() && self@[addr as int] is None),
    {
        addr < self.memory.len() && matches!(self.memory[addr], Option::None)
    }

    /// Write a field element into an unset cell; errors, leaving the memory
    /// unchanged, when the cell is out of range or already set.
    pub fn insert_value(&mut self, addr: usize, val: Felt) -> (r: Result<(), HintError>)
        requires
            old(self).wf(),
            val.wf(),
        ensures
            final(self).wf(),
            match r {
                Ok(()) => addr < old(self)@.len() && old(self)@[addr as int] is None
                    && final(self)@ == old(self)@.update(addr as int, Some(CellVal::Num(val@))),
                Err(e) => e == HintError::Memory && final(self)@ == old(self)@
                    && !(addr < old(self)@.len() && old(self)@[addr as int] is None),
            },
    {
        if addr < self.memory.len() {
            let free = matches!(self.memory[addr], Option::None);
            if free {
                self.memory.remove(addr);
                self.memory.insert(addr, Some(MaybeRelocatable::Int(val)));
                proof {
                    assert(self.memory@ =~= old(self).memory@.update(
                        addr as int,
                        Some(MaybeRelocatable::Int(val)),
                    ));
                    assert(self@ =~= old(self)@.update(addr as int, Some(CellVal::Num(val@))));
                }
                Ok(())
            } else {
                Err(HintError::Memory)
            }
        } else {
            Err(HintError::Memory)
        }
    }
}

} // verus!
