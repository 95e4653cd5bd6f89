use context_deserialize::{
    decode_sequence, Bitfield, ContextDeserialize, DecodeError, Decoder, FixedVector, Token,
};
use std::sync::Arc;

#[test]
fn test_vec_round_trip_preserves_order() {
    let tokens = vec![
        Token::SeqStart,
        Token::U64(1),
        Token::U64(2),
        Token::U64(3),
        Token::SeqEnd,
    ];
    let mut d = Decoder::new(tokens);
    let ctx = String::from("any clonable context");
    let v = <Vec<u64> as ContextDeserialize<String>>::context_deserialize(&mut d, ctx).unwrap();
    assert_eq!(v, vec![1u64, 2u64, 3u64]);
    assert!(d.is_finished());
}

#[test]
fn test_vec_round_trip_stateless_context() {
    let tokens = vec![Token::SeqStart, Token::U64(1), Token::U64(2), Token::U64(3), Token::SeqEnd];
    let mut d = Decoder::new(tokens);
    let v = <Vec<u64> as ContextDeserialize<()>>::context_deserialize(&mut d, ()).unwrap();
    assert_eq!(v, vec![1u64, 2u64, 3u64]);
}

#[test]
fn test_vec_empty() {
    let mut d = Decoder::new(vec![Token::SeqStart, Token::SeqEnd]);
    let v = <Vec<u64> as ContextDeserialize<()>>::context_deserialize(&mut d, ()).unwrap();
    assert_eq!(v, Vec::<u64>::new());
}

#[test]
fn test_vec_nested() {
    let tokens = vec![
        Token::SeqStart,
        Token::SeqStart,
        Token::U64(1),
        Token::SeqEnd,
        Token::SeqStart,
        Token::U64(2),
        Token::U64(3),
        Token::SeqEnd,
        Token::SeqEnd,
    ];
    let mut d = Decoder::new(tokens);
    let v =
        <Vec<Vec<u64>> as ContextDeserialize<bool>>::context_deserialize(&mut d, true).unwrap();
    assert_eq!(v, vec![vec![1u64], vec![2u64, 3u64]]);
}

#[test]
fn test_vec_element_failure_aborts() {
    let tokens = vec![Token::SeqStart, Token::U64(1), Token::Bool(true), Token::SeqEnd];
    let mut d = Decoder::new(tokens);
    let r = <Vec<u64> as ContextDeserialize<()>>::context_deserialize(&mut d, ());
    assert_eq!(r, Err(DecodeError::UnexpectedToken));
}

#[test]
fn test_vec_missing_start() {
    let mut d = Decoder::new(vec![Token::U64(1)]);
    let r = <Vec<u64> as ContextDeserialize<()>>::context_deserialize(&mut d, ());
    assert_eq!(r, Err(DecodeError::UnexpectedToken));
}

#[test]
fn test_vec_unterminated() {
    let mut d = Decoder::new(vec![Token::SeqStart, Token::U64(1)]);
    let r = <Vec<u64> as ContextDeserialize<()>>::context_deserialize(&mut d, ());
    assert_eq!(r, Err(DecodeError::UnexpectedEnd));
}

#[test]
fn test_arc_matches_direct_decode() {
    let ctx = String::from("fork-id");
    let mut d1 = Decoder::new(vec![Token::U64(42)]);
    let direct =
        <u64 as ContextDeserialize<String>>::context_deserialize(&mut d1, ctx.clone()).unwrap();
    let mut d2 = Decoder::new(vec![Token::U64(42)]);
    let wrapped =
        <Arc<u64> as ContextDeserialize<String>>::context_deserialize(&mut d2, ctx).unwrap();
    assert_eq!(*wrapped, direct);
}

#[test]
fn test_arc_error_passes_through() {
    let mut d = Decoder::new(vec![Token::Bool(false)]);
    let r = <Arc<u64> as ContextDeserialize<()>>::context_deserialize(&mut d, ());
    assert!(matches!(r, Err(DecodeError::UnexpectedToken)));
}

#[test]
fn test_fixed_vector_exact_capacity() {
    let tokens = vec![Token::SeqStart, Token::U64(1), Token::U64(2), Token::U64(3), Token::SeqEnd];
    let mut d = Decoder::new(tokens);
    let r = <FixedVector<u64, 3> as ContextDeserialize<()>>::context_deserialize(&mut d, ());
    match r {
        Ok(fv) => {
            assert_eq!(fv.len(), 3);
            assert_eq!(fv.into_vec(), vec![1u64, 2u64, 3u64]);
        }
        Err(_) => panic!("decoding exactly the declared capacity must succeed"),
    }
}

#[test]
fn test_fixed_vector_too_few_elements() {
    let tokens = vec![Token::SeqStart, Token::U64(1), Token::U64(2), Token::SeqEnd];
    let mut d = Decoder::new(tokens);
    let r = <FixedVector<u64, 3> as ContextDeserialize<()>>::context_deserialize(&mut d, ());
    match r {
        Ok(_) => panic!("a short sequence must not be padded"),
        Err(e) => assert_eq!(e, DecodeError::WrongLength { expected: 3, actual: 2 }),
    }
}

#[test]
fn test_fixed_vector_too_many_elements() {
    let tokens = vec![
        Token::SeqStart,
        Token::U64(1),
        Token::U64(2),
        Token::U64(3),
        Token::U64(4),
        Token::SeqEnd,
    ];
    let mut d = Decoder::new(tokens);
    let r = <FixedVector<u64, 3> as ContextDeserialize<()>>::context_deserialize(&mut d, ());
    match r {
        Ok(_) => panic!("a long sequence must not be truncated"),
        Err(e) => assert_eq!(e, DecodeError::WrongLength { expected: 3, actual: 4 }),
    }
}

#[test]
fn test_fixed_vector_new_checks_cardinality() {
    match FixedVector::<u64, 2>::new(vec![5, 6]) {
        Ok(fv) => assert_eq!(fv.into_vec(), vec![5u64, 6u64]),
        Err(_) => panic!("matching cardinality must convert"),
    }
    match FixedVector::<u64, 2>::new(vec![5]) {
        Ok(_) => panic!("mismatched cardinality must not convert"),
        Err(e) => assert_eq!(e, DecodeError::WrongLength { expected: 2, actual: 1 }),
    }
}

#[test]
fn test_bitfield_ignores_context() {
    let tokens = vec![Token::Bits(vec![true, false, true])];
    let mut d1 = Decoder::new(tokens.clone());
    let a = <Bitfield as ContextDeserialize<()>>::context_deserialize(&mut d1, ()).unwrap();
    let mut d2 = Decoder::new(tokens);
    let b = <Bitfield as ContextDeserialize<String>>::context_deserialize(
        &mut d2,
        String::from("ignored"),
    )
    .unwrap();
    assert_eq!(a.into_bits(), vec![true, false, true]);
    assert_eq!(b.into_bits(), vec![true, false, true]);
}

#[test]
fn test_bitfield_type_mismatch() {
    let mut d = Decoder::new(vec![Token::U64(1)]);
    let r = <Bitfield as ContextDeserialize<()>>::context_deserialize(&mut d, ());
    assert!(matches!(r, Err(DecodeError::UnexpectedToken)));
}

#[test]
fn test_decode_sequence_engine() {
    let tokens = vec![Token::SeqStart, Token::Bool(true), Token::Bool(false), Token::SeqEnd];
    let mut d = Decoder::new(tokens);
    let v: Vec<bool> = decode_sequence(&mut d, String::from("ctx")).unwrap();
    assert_eq!(v, vec![true, false]);
    assert!(d.is_finished());
}
