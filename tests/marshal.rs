use clar2wasm::equal::values_equal;
use clar2wasm::slots::clarity_value_to_slots;
use clar2wasm::marshal::{
    read_from_wasm, read_from_wasm_indirect, wasm_to_clarity_value, write_to_wasm, MarshalError, WasmVal,
};
use clar2wasm::value::{get_type_size, wasm_slots, ClarityType, Principal, Value, WasmType};

fn round_trip(ty: &ClarityType, v: &Value) -> Value {
    let mut mem = vec![0u8; 4096];
    let (prim, payload) = write_to_wasm(&mut mem, ty, 64, 1024, v, true).expect("fits");
    assert_eq!(prim, get_type_size(ty));
    assert!(payload < 3000);
    read_from_wasm_indirect(&mem, ty, 64).expect("readable")
}

fn response_int() -> ClarityType {
    ClarityType::Response(Box::new(ClarityType::Int), Box::new(ClarityType::UInt))
}

#[test]
fn int_layout_is_little_endian_low_then_high() {
    let mut mem = vec![0u8; 64];
    write_to_wasm(&mut mem, &ClarityType::Int, 0, 32, &Value::Int(-2), true).unwrap();
    assert_eq!(&mem[0..16], &[0xfe, 0xff, 0xff, 0xff, 0xff, 0xff, 0xff, 0xff, 0xff, 0xff, 0xff, 0xff, 0xff, 0xff, 0xff, 0xff]);
    let mut mem = vec![0u8; 64];
    write_to_wasm(&mut mem, &ClarityType::UInt, 0, 32, &Value::UInt(1u128 << 64 | 5), true).unwrap();
    assert_eq!(mem[0], 5);
    assert_eq!(mem[8], 1);
}

#[test]
fn scalars_round_trip() {
    for x in [0i128, 1, -1, i128::MAX, i128::MIN, 123456789] {
        match round_trip(&ClarityType::Int, &Value::Int(x)) {
            Value::Int(y) => assert_eq!(x, y),
            other => panic!("unexpected {:?}", other),
        }
    }
    match round_trip(&ClarityType::UInt, &Value::UInt(u128::MAX)) {
        Value::UInt(y) => assert_eq!(y, u128::MAX),
        other => panic!("unexpected {:?}", other),
    }
    match round_trip(&ClarityType::Bool, &Value::Bool(true)) {
        Value::Bool(b) => assert!(b),
        other => panic!("unexpected {:?}", other),
    }
}

#[test]
fn buffer_writes_repr_and_payload() {
    let mut mem = vec![0u8; 64];
    let v = Value::Buffer(vec![0x12, 0x34, 0x56, 0x78]);
    let written = write_to_wasm(&mut mem, &ClarityType::Buffer(4), 0, 40, &v, true).unwrap();
    assert_eq!(written, (8, 4));
    assert_eq!(&mem[0..8], &[40, 0, 0, 0, 4, 0, 0, 0]);
    assert_eq!(&mem[40..44], &[0x12, 0x34, 0x56, 0x78]);
    let back = read_from_wasm(&mem, &ClarityType::Buffer(4), 40, 4).unwrap();
    assert!(values_equal(&back, &v));
    let mut mem2 = vec![0u8; 64];
    let written = write_to_wasm(&mut mem2, &ClarityType::Buffer(4), 0, 40, &v, false).unwrap();
    assert_eq!(written, (0, 4));
    assert_eq!(&mem2[0..8], &[0; 8]);
}

#[test]
fn compound_values_round_trip() {
    let list_ty = ClarityType::List(Box::new(response_int()), 5);
    let list = Value::List(vec![
        Value::Response(true, Box::new(Value::Int(-1475))),
        Value::Response(false, Box::new(Value::UInt(115911259112154807243168097824046874107))),
    ]);
    assert!(values_equal(&round_trip(&list_ty, &list), &list));

    let tuple_ty = ClarityType::Tuple(vec![
        (b"a".to_vec(), ClarityType::StringAscii(20)),
        (b"b".to_vec(), ClarityType::Optional(Box::new(ClarityType::Buffer(8)))),
        (b"c".to_vec(), ClarityType::StringUtf8(8)),
    ]);
    let tuple = Value::Tuple(vec![
        (b"a".to_vec(), Value::StringAscii(b"hello world".to_vec())),
        (b"b".to_vec(), Value::Optional(Some(Box::new(Value::Buffer(vec![1, 2, 3]))))),
        (b"c".to_vec(), Value::StringUtf8(vec![0x68, 0x1F98A])),
    ]);
    assert!(values_equal(&round_trip(&tuple_ty, &tuple), &tuple));

    let principal = Value::Principal(Principal {
        version: 26,
        hash: vec![7; 20],
        name: b"my-contract".to_vec(),
    });
    assert!(values_equal(&round_trip(&ClarityType::Principal, &principal), &principal));

    let nested_ty = ClarityType::List(Box::new(ClarityType::List(Box::new(ClarityType::Int), 3)), 3);
    let nested = Value::List(vec![
        Value::List(vec![Value::Int(1), Value::Int(2)]),
        Value::List(vec![]),
        Value::List(vec![Value::Int(3)]),
    ]);
    assert!(values_equal(&round_trip(&nested_ty, &nested), &nested));
}

#[test]
fn out_of_bounds_write_leaves_memory() {
    let mut mem = vec![9u8; 20];
    let r = write_to_wasm(&mut mem, &ClarityType::Int, 8, 0, &Value::Int(1), true);
    assert_eq!(r, Err(MarshalError::OutOfBounds));
    assert_eq!(mem, vec![9u8; 20]);
}

#[test]
fn bad_indicator_is_unreadable() {
    let mut mem = vec![0u8; 64];
    mem[0] = 7;
    let ty = ClarityType::Optional(Box::new(ClarityType::Int));
    assert_eq!(read_from_wasm_indirect(&mem, &ty, 0).map(|_| ()), Err(MarshalError::InvalidIndicator(7)));
    let resp = ClarityType::Response(Box::new(ClarityType::Int), Box::new(ClarityType::Int));
    assert_eq!(read_from_wasm(&mem, &resp, 0, 36).map(|_| ()), Err(MarshalError::InvalidIndicator(7)));
}

#[test]
fn slots_follow_the_layout_table() {
    let ty = ClarityType::Response(Box::new(ClarityType::Int), Box::new(ClarityType::Buffer(4)));
    assert_eq!(
        wasm_slots(&ty),
        vec![WasmType::I32, WasmType::I64, WasmType::I64, WasmType::I32, WasmType::I32]
    );
    assert_eq!(get_type_size(&ty), 4 + 16 + 8);
    let opt = ClarityType::Optional(Box::new(ClarityType::Bool));
    assert_eq!(wasm_slots(&opt), vec![WasmType::I32, WasmType::I32]);
    assert_eq!(get_type_size(&opt), 8);
}

#[test]
fn values_from_flat_slots() {
    let mem = vec![0u8; 64];
    let vals = vec![WasmVal::I64(-2), WasmVal::I64(-1)];
    match wasm_to_clarity_value(&ClarityType::Int, 0, &vals, &mem) {
        Ok((Some(Value::Int(-2)), 2)) => {}
        other => panic!("unexpected {:?}", other),
    }
    let vals = vec![WasmVal::I64(5), WasmVal::I64(1)];
    match wasm_to_clarity_value(&ClarityType::UInt, 0, &vals, &mem) {
        Ok((Some(Value::UInt(x)), 2)) => assert_eq!(x, (1u128 << 64) + 5),
        other => panic!("unexpected {:?}", other),
    }
    let ty = ClarityType::Response(Box::new(ClarityType::Int), Box::new(ClarityType::Bool));
    let vals = vec![WasmVal::I32(0), WasmVal::I64(0), WasmVal::I64(0), WasmVal::I32(1)];
    match wasm_to_clarity_value(&ty, 0, &vals, &mem) {
        Ok((Some(Value::Response(false, b)), 4)) => assert!(matches!(*b, Value::Bool(true))),
        other => panic!("unexpected {:?}", other),
    }
    let mut mem = vec![0u8; 64];
    mem[32..35].copy_from_slice(b"abc");
    let ty = ClarityType::Tuple(vec![
        (b"a".to_vec(), ClarityType::Bool),
        (b"b".to_vec(), ClarityType::StringAscii(10)),
    ]);
    let vals = vec![WasmVal::I32(1), WasmVal::I32(32), WasmVal::I32(3)];
    match wasm_to_clarity_value(&ty, 0, &vals, &mem) {
        Ok((Some(Value::Tuple(fields)), 3)) => {
            assert_eq!(fields[0].0, b"a".to_vec());
            assert!(matches!(fields[0].1, Value::Bool(true)));
            assert!(matches!(&fields[1].1, Value::StringAscii(s) if s == &b"abc".to_vec()));
        }
        other => panic!("unexpected {:?}", other),
    }
    assert!(wasm_to_clarity_value(&ClarityType::Int, 0, &vec![WasmVal::I32(1)], &mem).is_err());
    match wasm_to_clarity_value(&ClarityType::NoType, 0, &vec![], &mem) {
        Ok((None, 1)) => {}
        other => panic!("unexpected {:?}", other),
    }
}

#[test]
fn in_place_comparison_matches_values() {
    let elem = ClarityType::Response(Box::new(ClarityType::Int), Box::new(ClarityType::Int));
    let ty = ClarityType::List(Box::new(elem), 2);
    let l1 = Value::List(vec![
        Value::Response(true, Box::new(Value::Int(1))),
        Value::Response(false, Box::new(Value::Int(2))),
    ]);
    let l2 = Value::List(vec![
        Value::Response(true, Box::new(Value::Int(1))),
        Value::Response(false, Box::new(Value::Int(3))),
    ]);
    let mut mem = vec![0u8; 1024];
    write_to_wasm(&mut mem, &ty, 0, 100, &l1, true).unwrap();
    write_to_wasm(&mut mem, &ty, 8, 300, &l1, true).unwrap();
    write_to_wasm(&mut mem, &ty, 16, 500, &l2, true).unwrap();
    assert!(clar2wasm::mem_equal::wasm_equal(&mem, &ty, 0, 8));
    assert!(!clar2wasm::mem_equal::wasm_equal(&mem, &ty, 0, 16));
    let s = ClarityType::StringAscii(10);
    write_to_wasm(&mut mem, &s, 32, 700, &Value::StringAscii(b"abc".to_vec()), true).unwrap();
    write_to_wasm(&mut mem, &s, 40, 710, &Value::StringAscii(b"abc".to_vec()), true).unwrap();
    write_to_wasm(&mut mem, &s, 48, 720, &Value::StringAscii(b"abd".to_vec()), true).unwrap();
    assert!(clar2wasm::mem_equal::wasm_equal(&mem, &s, 32, 40));
    assert!(!clar2wasm::mem_equal::wasm_equal(&mem, &s, 32, 48));
    assert!(!clar2wasm::mem_equal::wasm_equal(&mem, &ClarityType::NoType, 0, 0));
}

#[test]
fn values_round_trip_through_slots() {
    check_slots_round_trip(
        &ClarityType::Response(Box::new(ClarityType::Int), Box::new(ClarityType::Buffer(4))),
        &Value::Response(false, Box::new(Value::Buffer(vec![9, 8, 7]))),
    );
    check_slots_round_trip(
        &ClarityType::Tuple(vec![
            (b"a".to_vec(), ClarityType::Int),
            (b"b".to_vec(), ClarityType::List(Box::new(ClarityType::UInt), 4)),
        ]),
        &Value::Tuple(vec![
            (b"a".to_vec(), Value::Int(-7)),
            (b"b".to_vec(), Value::List(vec![Value::UInt(1), Value::UInt(u128::MAX)])),
        ]),
    );
    check_slots_round_trip(
        &ClarityType::Optional(Box::new(ClarityType::StringUtf8(4))),
        &Value::Optional(None),
    );
}

fn check_slots_round_trip(ty: &ClarityType, v: &Value) {
    let base = 200u32;
    let (slots, payload) = clarity_value_to_slots(ty, v, base);
    assert_eq!(slots.len(), wasm_slots(ty).len());
    let mut mem = vec![0u8; 1024];
    for (i, b) in payload.iter().enumerate() {
        if let Some(b) = b {
            mem[base as usize + i] = *b;
        }
    }
    let (back, used) = wasm_to_clarity_value(ty, 0, &slots, &mem).unwrap();
    assert_eq!(used, slots.len());
    assert!(values_equal(&back.unwrap(), v));
}

#[test]
fn inactive_arms_are_passed_over() {
    let mut mem = vec![1u8; 8];
    let ty = ClarityType::Optional(Box::new(ClarityType::Bool));
    let written = write_to_wasm(&mut mem, &ty, 0, 8, &Value::Optional(None), true).unwrap();
    assert_eq!(written, (8, 0));
    assert_eq!(mem, vec![0, 0, 0, 0, 1, 1, 1, 1]);

    let resp = ClarityType::Response(Box::new(ClarityType::Bool), Box::new(ClarityType::Bool));
    let mut mem = vec![7u8; 12];
    write_to_wasm(&mut mem, &resp, 0, 12, &Value::Response(false, Box::new(Value::Bool(true))), true).unwrap();
    assert_eq!(mem, vec![0, 0, 0, 0, 7, 7, 7, 7, 1, 0, 0, 0]);
    let mut mem = vec![7u8; 12];
    write_to_wasm(&mut mem, &resp, 0, 12, &Value::Response(true, Box::new(Value::Bool(true))), true).unwrap();
    assert_eq!(mem, vec![1, 0, 0, 0, 1, 0, 0, 0, 7, 7, 7, 7]);
}

#[test]
fn mistyped_values_are_refused() {
    let mut mem = vec![5u8; 64];
    assert_eq!(
        write_to_wasm(&mut mem, &ClarityType::Int, 0, 32, &Value::UInt(1), true),
        Err(MarshalError::ValueTypeMismatch)
    );
    let ty = ClarityType::Optional(Box::new(ClarityType::Int));
    assert_eq!(
        write_to_wasm(&mut mem, &ty, 0, 32, &Value::Bool(true), true),
        Err(MarshalError::ValueTypeMismatch)
    );
    let tuple = ClarityType::Tuple(vec![(b"a".to_vec(), ClarityType::Int)]);
    let wrong_field = Value::Tuple(vec![(b"b".to_vec(), Value::Int(1))]);
    assert_eq!(
        write_to_wasm(&mut mem, &tuple, 0, 32, &wrong_field, true),
        Err(MarshalError::ValueTypeMismatch)
    );
    assert_eq!(mem, vec![5u8; 64]);
}

#[test]
fn wrong_slot_kinds_are_refused() {
    let mem = vec![0u8; 16];
    let r = wasm_to_clarity_value(&ClarityType::Int, 0, &vec![WasmVal::I32(1), WasmVal::I64(0)], &mem);
    assert_eq!(r.map(|_| ()), Err(MarshalError::ValueTypeMismatch));
    let ty = ClarityType::Optional(Box::new(ClarityType::Bool));
    let r = wasm_to_clarity_value(&ty, 0, &vec![WasmVal::I64(1), WasmVal::I32(1)], &mem);
    assert_eq!(r.map(|_| ()), Err(MarshalError::ValueTypeMismatch));
}
