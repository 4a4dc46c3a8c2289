use vstd::prelude::*;

verus! {

use crate::bytes::be_bytes;
use crate::field::Felt;
use crate::field::to_padded_bytes;
use crate::ec::derive_point;
use crate::ec::random_ec_point;
use crate::errors::HintError;
use crate::errors::Identifier;
use crate::errors::Member;
use crate::vm::VirtualMachine;
use crate::vm::CellVal;

/// The resolved base addresses of the identifiers the handler uses: the two
/// input points p and q, the scalar m, and the output point s.
#[derive(Debug, Clone, Copy, PartialEq, Eq, Structural)]
pub struct IdsData {
    pub p: usize,
    pub q: usize,
    pub m: usize,
    pub s: usize,
}

/// Read one cell of a memory as an integer, at the spec level.
pub open spec fn read_int(mem: Seq<Option<CellVal>>, a: int) -> Option<nat> {
    if 0 <= a < mem.len() {
        match mem[a] {
            Some(CellVal::Num(n)) => Some(n),
            _ => None,
        }
    } else {
        None
    }
}

/// Whether one cell exists and is still unset.
pub open spec fn writable(mem: Seq<Option<CellVal>>, a: int) -> bool {
    0 <= a < mem.len() && mem[a] is None
}

/// The 160-byte seed for five input values: the concatenation of their
/// 32-byte big-endian encodings, in the order p.x, p.y, m, q.x, q.y.
pub open spec fn seed_bytes(px: nat, py: nat, m: nat, qx: nat, qy: nat) -> Seq<u8> {
    be_bytes(px, 32) + be_bytes(py, 32) + be_bytes(m, 32) + be_bytes(qx, 32) + be_bytes(qy, 32)
}

/// What the handler does, as a function of the memory it starts from and the
/// resolved addresses: either the memory it leaves behind or the error it
/// reports. Reads happen in the order p, q, m; a missing point coordinate is
/// always reported as a missing member x, whichever coordinate it was.
pub open spec fn hint_outcome(mem: Seq<Option<CellVal>>, ids: IdsData) -> Result<
    Seq<Option<CellVal>>,
    HintError,
> {
    if read_int(mem, ids.p as int) is None || read_int(mem, ids.p as int + 1) is None {
        Err(HintError::IdentifierHasNoMember(Identifier::P, Member::X))
    } else if read_int(mem, ids.q as int) is None || read_int(mem, ids.q as int + 1) is None {
        Err(HintError::IdentifierHasNoMember(Identifier::Q, Member::X))
    } else if read_int(mem, ids.m as int) is None {
        Err(HintError::IdentifierNotInteger(Identifier::M))
    } else {
        let px = read_int(mem, ids.p as int).unwrap();
        let py = read_int(mem, ids.p as int + 1).unwrap();
        let qx = read_int(mem, ids.q as int).unwrap();
        let qy = read_int(mem, ids.q as int + 1).unwrap();
        let m = read_int(mem, ids.m as int).unwrap();
        match derive_point(seed_bytes(px, py, m, qx, qy)) {
            None => Err(HintError::RandomEcPointNotOnCurve),
            Some(pt) => if writable(mem, ids.s as int) && writable(mem, ids.s as int + 1) {
                Ok(
                    mem.update(ids.s as int, Some(CellVal::Num(pt.0))).update(
                        ids.s as int + 1,
                        Some(CellVal::Num(pt.1)),
                    ),
                )
            } else {
                Err(HintError::Memory)
            },
        }
    }
}

/// A point read from two consecutive integer cells.
pub struct EcPoint {
    pub x: Felt,
    pub y: Felt,
}

impl EcPoint {
    /// Read the two coordinate cells of a point identifier at the given base
    /// address: offset 0 is x, offset 1 is y. Either failure names member x,
    /// whichever coordinate could not be read.
    pub fn from_var_name(id: Identifier, base: usize, vm: &VirtualMachine) -> (r: Result<
        EcPoint,
        HintError,
    >)
        requires
            vm.wf(),
        ensures
            match r {
                Ok(pt) => pt.x.wf() && pt.y.wf() && read_int(vm@, base as int) == Some(pt.x@)
                    && read_int(vm@, base as int + 1) == Some(pt.y@),
                Err(e) => e == HintError::IdentifierHasNoMember(id, Member::X) && (read_int(
                    vm@,
                    base as int,
                ) is None || read_int(vm@, base as int + 1) is None),
            },
    {
        let x = match vm.get_integer(base) {
            Some(f) => f,
            None => {
                return Err(HintError::IdentifierHasNoMember(id, Member::X));
            },
        };
        let y = match vm.get_integer(base + 1) {
            Some(f) => f,
            None => {
                return Err(HintError::IdentifierHasNoMember(id, Member::X));
            },
        };
        Ok(EcPoint { x, y })
    }
}

/// The marker handler: read the points p and q and the scalar m from memory,
/// derive a curve point from their 160-byte seed, and write its coordinates
/// into the two cells at s. On any error no cell is written.
pub fn random_ec_point_hint(vm: &mut VirtualMachine, ids_data: &IdsData) -> (res: Result<
    (),
    HintError,
>)
    requires
        old(vm).wf(),
    ensures
        final(vm).wf(),
        match res {
            Ok(()) => hint_outcome(old(vm)@, *ids_data) == Ok::<Seq<Option<CellVal>>, HintError>(
                final(vm)@,
            ),
            Err(e) => hint_outcome(old(vm)@, *ids_data) == Err::<Seq<Option<CellVal>>, HintError>(e)
                && final(vm)@ == old(vm)@,
        },
{
    let p = match EcPoint::from_var_name(Identifier::P, ids_data.p, vm) {
        Ok(pt) => pt,
        Err(e) => {
            return Err(e);
        },
    };
    let q = match EcPoint::from_var_name(Identifier::Q, ids_data.q, vm) {
        Ok(pt) => pt,
        Err(e) => {
            return Err(e);
        },
    };
    let m = match vm.get_integer(ids_data.m) {
        Some(f) => f,
        None => {
            return Err(HintError::IdentifierNotInteger(Identifier::M));
        },
    };
    let mut bytes = to_padded_bytes(&p.x);
    let mut t = to_padded_bytes(&p.y);
    bytes.append(&mut t);
    let mut t = to_padded_bytes(&m);
    bytes.append(&mut t);
    let mut t = to_padded_bytes(&q.x);
    bytes.append(&mut t);
    let mut t = to_padded_bytes(&q.y);
    bytes.append(&mut t);
    proof {
        assert(bytes@ =~= seed_bytes(p.x@, p.y@, m@, q.x@, q.y@));
    }
    match random_ec_point(bytes) {
        Ok(pt) => {
            let (x, y) = pt;
            if !vm.can_write(ids_data.s) {
                return Err(HintError::Memory);
            }
            if !vm.can_write(ids_data.s + 1) {
                return Err(HintError::Memory);
            }
            let r1 = vm.insert_value(ids_data.s, x);
            match r1 {
                Ok(()) => {},
                Err(_) => {
                    return Err(HintError::Memory);
                },
            }
            let r2 = vm.insert_value(ids_data.s + 1, y);
            match r2 {
                Ok(()) => {},
                Err(_) => {
                    return Err(HintError::Memory);
                },
            }
            Ok(())
        },
        Err(e) => Err(e),
    }
}

/// Law: an erring handler leaves every cell as it was, and a successful one
/// changes exactly the two output cells.
pub proof fn lemma_hint_atomicity(mem: Seq<Option<CellVal>>, ids: IdsData)
    ensures
        match hint_outcome(mem, ids) {
            Ok(mem2) => mem2.len() == mem.len() && forall|i: int|
                0 <= i < mem.len() && i != ids.s && i != ids.s + 1 ==> mem2[i] == #[trigger] mem[i],
            Err(_) => true,
        },
{
}

} // verus!
