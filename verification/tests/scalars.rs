use context_deserialize::{ContextDeserialize, DecodeError, Decoder, PlainDeserialize, Token};

#[test]
fn test_scalar_round_trip_u64() {
    let mut d = Decoder::new(vec![Token::U64(42)]);
    let v = <u64 as ContextDeserialize<()>>::context_deserialize(&mut d, ()).unwrap();
    assert_eq!(v, 42u64);
    assert!(d.is_finished());
}

#[test]
fn test_scalar_round_trip_bool() {
    let mut d = Decoder::new(vec![Token::Bool(true), Token::Bool(false)]);
    let a = <bool as ContextDeserialize<u64>>::context_deserialize(&mut d, 7).unwrap();
    let b = <bool as ContextDeserialize<u64>>::context_deserialize(&mut d, 7).unwrap();
    assert_eq!(a, true);
    assert_eq!(b, false);
}

#[test]
fn test_scalar_round_trip_all_widths() {
    let mut d = Decoder::new(vec![
        Token::U8(8),
        Token::U16(16),
        Token::U32(32),
        Token::U128(128),
        Token::I8(-8),
        Token::I16(-16),
        Token::I32(-32),
        Token::I64(-64),
        Token::I128(-128),
    ]);
    let ctx = String::from("schema-v2");
    assert_eq!(
        <u8 as ContextDeserialize<String>>::context_deserialize(&mut d, ctx.clone()).unwrap(),
        8u8
    );
    assert_eq!(
        <u16 as ContextDeserialize<String>>::context_deserialize(&mut d, ctx.clone()).unwrap(),
        16u16
    );
    assert_eq!(
        <u32 as ContextDeserialize<String>>::context_deserialize(&mut d, ctx.clone()).unwrap(),
        32u32
    );
    assert_eq!(
        <u128 as ContextDeserialize<String>>::context_deserialize(&mut d, ctx.clone()).unwrap(),
        128u128
    );
    assert_eq!(
        <i8 as ContextDeserialize<String>>::context_deserialize(&mut d, ctx.clone()).unwrap(),
        -8i8
    );
    assert_eq!(
        <i16 as ContextDeserialize<String>>::context_deserialize(&mut d, ctx.clone()).unwrap(),
        -16i16
    );
    assert_eq!(
        <i32 as ContextDeserialize<String>>::context_deserialize(&mut d, ctx.clone()).unwrap(),
        -32i32
    );
    assert_eq!(
        <i64 as ContextDeserialize<String>>::context_deserialize(&mut d, ctx.clone()).unwrap(),
        -64i64
    );
    assert_eq!(
        <i128 as ContextDeserialize<String>>::context_deserialize(&mut d, ctx).unwrap(),
        -128i128
    );
    assert!(d.is_finished());
}

#[test]
fn test_scalar_type_mismatch() {
    let mut d = Decoder::new(vec![Token::Bool(true)]);
    let r = <u64 as ContextDeserialize<()>>::context_deserialize(&mut d, ());
    assert_eq!(r, Err(DecodeError::UnexpectedToken));
}

#[test]
fn test_scalar_truncated_input() {
    let mut d = Decoder::new(vec![]);
    let r = <u64 as ContextDeserialize<()>>::context_deserialize(&mut d, ());
    assert_eq!(r, Err(DecodeError::UnexpectedEnd));
}

#[test]
fn test_string_plain_decode() {
    let mut d = Decoder::new(vec![Token::Str(String::from("test"))]);
    let v = <String as PlainDeserialize>::plain_deserialize(&mut d).unwrap();
    assert_eq!(v, "test");
}

#[test]
fn test_decoder_cursor_advances_once_per_leaf() {
    let mut d = Decoder::new(vec![Token::U64(1), Token::U64(2)]);
    assert!(!d.is_finished());
    let a = <u64 as ContextDeserialize<()>>::context_deserialize(&mut d, ()).unwrap();
    assert_eq!(a, 1);
    assert!(!d.is_finished());
    let b = <u64 as ContextDeserialize<()>>::context_deserialize(&mut d, ()).unwrap();
    assert_eq!(b, 2);
    assert!(d.is_finished());
}
