use ec_hint::errors::{HintError, Identifier, Member};
use ec_hint::field::{to_padded_bytes, Felt};
use ec_hint::hint::{random_ec_point_hint, IdsData};
use ec_hint::vm::{MaybeRelocatable, VirtualMachine};

fn zero() -> MaybeRelocatable {
    MaybeRelocatable::Int(Felt::from_be_bytes(vec![]).unwrap())
}

fn ids() -> IdsData {
    IdsData { p: 0, q: 2, m: 4, s: 5 }
}

fn zero_input_cells() -> Vec<Option<MaybeRelocatable>> {
    vec![Some(zero()), Some(zero()), Some(zero()), Some(zero()), Some(zero()), None, None]
}

#[test]
fn handler_writes_derived_point_to_s() {
    let mut vm = VirtualMachine::new(zero_input_cells());
    let res = random_ec_point_hint(&mut vm, &ids());
    assert_eq!(res, Ok(()));
    let x = vm.get_integer(5).unwrap();
    let y = vm.get_integer(6).unwrap();
    assert_eq!(to_padded_bytes(&x), vec![5, 124, 24, 121, 46, 137, 193, 51, 34, 185, 103, 137, 40, 103, 111, 22, 140, 69, 97, 243, 56, 46, 55, 230, 89, 212, 128, 55, 254, 7, 251, 119]);
    assert_eq!(to_padded_bytes(&y), vec![7, 147, 66, 8, 249, 11, 95, 241, 45, 23, 109, 94, 19, 221, 31, 61, 115, 65, 110, 158, 114, 7, 74, 52, 26, 18, 209, 53, 108, 139, 51, 92]);
}

#[test]
fn handler_leaves_inputs_alone() {
    let mut vm = VirtualMachine::new(zero_input_cells());
    random_ec_point_hint(&mut vm, &ids()).unwrap();
    for a in 0..5 {
        let f = vm.get_integer(a).unwrap();
        assert_eq!(to_padded_bytes(&f), vec![0u8; 32]);
    }
}

#[test]
fn handler_reports_missing_point_member() {
    let mut cells = zero_input_cells();
    cells[1] = Some(MaybeRelocatable::Address(7));
    let mut vm = VirtualMachine::new(cells);
    let res = random_ec_point_hint(&mut vm, &ids());
    assert_eq!(res, Err(HintError::IdentifierHasNoMember(Identifier::P, Member::X)));
    assert!(vm.get_integer(5).is_none());
    assert!(vm.get_integer(6).is_none());
}

#[test]
fn handler_reports_missing_q_member() {
    let mut cells = zero_input_cells();
    cells[3] = None;
    let mut vm = VirtualMachine::new(cells);
    let res = random_ec_point_hint(&mut vm, &ids());
    assert_eq!(res, Err(HintError::IdentifierHasNoMember(Identifier::Q, Member::X)));
    assert!(vm.get_integer(5).is_none());
}

#[test]
fn handler_reports_non_integer_scalar() {
    let mut cells = zero_input_cells();
    cells[4] = Some(MaybeRelocatable::Address(1));
    let mut vm = VirtualMachine::new(cells);
    let res = random_ec_point_hint(&mut vm, &ids());
    assert_eq!(res, Err(HintError::IdentifierNotInteger(Identifier::M)));
    assert!(vm.get_integer(5).is_none());
    assert!(vm.get_integer(6).is_none());
}

#[test]
fn handler_refuses_occupied_output_cell() {
    let mut cells = zero_input_cells();
    cells[6] = Some(zero());
    let mut vm = VirtualMachine::new(cells);
    let res = random_ec_point_hint(&mut vm, &ids());
    assert_eq!(res, Err(HintError::Memory));
    // The first output cell was not written either.
    assert!(vm.get_integer(5).is_none());
}

#[test]
fn handler_is_deterministic() {
    let mut vm1 = VirtualMachine::new(zero_input_cells());
    let mut vm2 = VirtualMachine::new(zero_input_cells());
    random_ec_point_hint(&mut vm1, &ids()).unwrap();
    random_ec_point_hint(&mut vm2, &ids()).unwrap();
    for a in 5..7 {
        let f1 = vm1.get_integer(a).unwrap();
        let f2 = vm2.get_integer(a).unwrap();
        assert_eq!(to_padded_bytes(&f1), to_padded_bytes(&f2));
    }
}
