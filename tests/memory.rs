use lua_engine_ex::memory::{checked_address, element_address, read_type, write_type, MemoryError, RawPtr, TypeName, ValueKind};

#[test]
fn pointer_chain_resolves_through_loads() {
    let b: usize = 0x1000;
    let mut p = RawPtr::new();
    p.set_base(b);
    p.offsets(&[8, -4]);
    let mut w = p.walk();
    assert_eq!(w.pending_load(), Some(b + 8));
    let word: usize = 0x2000;
    w.supply(word);
    assert_eq!(w.pending_load(), None);
    assert_eq!(w.address(), Some(word - 4));
    assert_eq!(read_type("i32"), Ok(TypeName::I32));
    assert_eq!(TypeName::I32.width(), Some(4));
}

#[test]
fn offsets_accumulate() {
    let mut p = RawPtr::new();
    p.set_base(100);
    p.offset(4);
    p.offsets(&[8]);
    let mut w = p.walk();
    assert_eq!(w.pending_load(), Some(104));
    w.supply(500);
    assert_eq!(w.address(), Some(508));
}

#[test]
fn chain_without_offsets_is_the_base() {
    let mut p = RawPtr::new();
    assert_eq!(p.walk().address(), None);
    p.set_base(0x40);
    let w = p.walk();
    assert_eq!(w.pending_load(), None);
    assert_eq!(w.address(), Some(0x40));
}

#[test]
fn null_load_breaks_the_chain() {
    let mut p = RawPtr::new();
    p.set_base(0x1000);
    p.offsets(&[8, 16, 0]);
    let mut w = p.walk();
    w.supply(0);
    assert_eq!(w.pending_load(), None);
    assert_eq!(w.address(), None);
}

#[test]
fn out_of_range_address_breaks_the_chain() {
    let mut p = RawPtr::new();
    p.set_base(4);
    p.offsets(&[-8]);
    assert_eq!(p.walk().address(), None);
}

#[test]
fn write_needs_a_tag_for_numbers() {
    assert_eq!(write_type(ValueKind::Number, Some("f32")), Ok(TypeName::F32));
    assert_eq!(3.5f32.to_bits(), 0x4060_0000);
    assert_eq!(write_type(ValueKind::Number, None), Err(MemoryError::TypeTagRequired));
    assert_eq!(write_type(ValueKind::Integer, None), Err(MemoryError::TypeTagRequired));
    assert_eq!(write_type(ValueKind::Boolean, None), Ok(TypeName::Bool));
}

#[test]
fn write_checks_value_against_tag() {
    assert_eq!(write_type(ValueKind::Boolean, Some("i32")), Err(MemoryError::TypeMismatch));
    assert_eq!(write_type(ValueKind::Integer, Some("f64")), Err(MemoryError::TypeMismatch));
    assert_eq!(write_type(ValueKind::Integer, Some("i16")), Ok(TypeName::I16));
    assert_eq!(write_type(ValueKind::Number, Some("i8")), Ok(TypeName::I8));
    assert_eq!(write_type(ValueKind::Number, Some("bool")), Err(MemoryError::TypeMismatch));
    assert_eq!(write_type(ValueKind::Integer, Some("u32")), Err(MemoryError::InvalidType));
    assert_eq!(write_type(ValueKind::Text, Some("string")), Err(MemoryError::UnsupportedType));
    assert_eq!(write_type(ValueKind::Other, None), Err(MemoryError::UnsupportedValue));
}

#[test]
fn read_tags() {
    assert_eq!(read_type("string"), Err(MemoryError::UnsupportedType));
    assert_eq!(read_type("u8"), Err(MemoryError::InvalidType));
    assert_eq!(read_type("bool"), Ok(TypeName::Bool));
    assert_eq!(TypeName::from_str("f64"), Some(TypeName::F64));
    assert_eq!(TypeName::from_str("String"), None);
    assert_eq!(TypeName::String.width(), None);
}

#[test]
fn elements_are_contiguous() {
    assert_eq!(element_address(0x100, TypeName::I32, 3), Some(0x10c));
    assert_eq!(element_address(0x100, TypeName::F64, 0), Some(0x100));
    assert_eq!(element_address(usize::MAX - 2, TypeName::I32, 1), None);
    assert_eq!(element_address(0x100, TypeName::String, 1), None);
}

#[test]
fn unknown_tag_is_reported_first() {
    assert_eq!(write_type(ValueKind::Text, Some("u8")), Err(MemoryError::InvalidType));
    assert_eq!(write_type(ValueKind::Other, Some("u8")), Err(MemoryError::InvalidType));
    assert_eq!(write_type(ValueKind::Boolean, Some("u8")), Err(MemoryError::InvalidType));
    assert_eq!(write_type(ValueKind::Other, Some("i32")), Err(MemoryError::UnsupportedValue));
}

#[test]
fn null_address_is_refused() {
    assert_eq!(checked_address(0), Err(MemoryError::AddressResolutionFailed));
    assert_eq!(checked_address(0x10), Ok(0x10));
}
