//! Scalar leaf implementations.
//!
//! Every primitive type accepts any context type, ignores the context
//! value, and delegates to the decoder's unconditional decode for that
//! primitive.  These leaves terminate the recursion of a nested decode.
//!
//! Each primitive also comes with its round-trip law: decoding the encoding
//! of a value yields exactly that value, under every context.

use crate::decode::{ContextDeserialize, PlainDeserialize};
use crate::token::{DecodeError, Decoder, Token};
use vstd::prelude::*;

verus! {

impl PlainDeserialize for bool {
    open spec fn plain_decodes_to(input: Seq<Token>, v: bool, n: int) -> bool {
        &&& input.len() >= 1
        &&& input[0] == Token::Bool(v)
        &&& n == 1
    }

    open spec fn plain_decode_error(input: Seq<Token>) -> DecodeError {
        if input.len() == 0 {
            DecodeError::UnexpectedEnd
        } else {
            DecodeError::UnexpectedToken
        }
    }

    proof fn lemma_plain_deterministic(input: Seq<Token>, v1: bool, n1: int, v2: bool, n2: int) {
    }

    fn plain_deserialize(d: &mut Decoder) -> (r: Result<bool, DecodeError>) {
        d.decode_bool()
    }
}

impl<C> ContextDeserialize<C> for bool {
    open spec fn decodes_to(input: Seq<Token>, ctx: C, v: bool, n: int) -> bool {
        bool::plain_decodes_to(input, v, n)
    }

    open spec fn decode_error(input: Seq<Token>, ctx: C) -> DecodeError {
        bool::plain_decode_error(input)
    }

    proof fn lemma_decodes_wf(input: Seq<Token>, ctx: C, v: bool, n: int) {
    }

    proof fn lemma_decodes_deterministic(
        input: Seq<Token>,
        ctx: C,
        v1: bool,
        n1: int,
        v2: bool,
        n2: int,
    ) {
    }

    proof fn lemma_decodes_extends(input: Seq<Token>, ctx: C, v: bool, n: int, other: Seq<Token>) {
        assert(other[0] == other.take(n)[0]);
        assert(input[0] == input.take(n)[0]);
    }

    fn context_deserialize(d: &mut Decoder, ctx: C) -> (r: Result<bool, DecodeError>) {
        let ghost rem = d.remaining();
        let r = bool::plain_deserialize(d);
        proof {
            assert(forall|v: bool, n: int|
                #![all_triggers]
                <bool as ContextDeserialize<C>>::decodes_to(rem, ctx, v, n) == bool::plain_decodes_to(
                    rem,
                    v,
                    n,
                ));
        }
        r
    }
}

/// The encoding of a `bool` value: a single leaf token.
pub open spec fn encode_bool(t: bool) -> Seq<Token> {
    seq![Token::Bool(t)]
}

/// Round trip for `bool`: under every context, decoding the encoding of `t`
/// (whatever input follows it) yields exactly `t` and consumes one token,
/// and nothing else can be decoded from that input.
pub proof fn lemma_round_trip_bool<C>(t: bool, ctx: C, rest: Seq<Token>, v: bool, n: int)
    ensures
        <bool as ContextDeserialize<C>>::decodes_to(encode_bool(t).add(rest), ctx, t, 1),
        <bool as ContextDeserialize<C>>::decodes_to(encode_bool(t).add(rest), ctx, v, n) ==> v == t
            && n == 1,
{
    assert(encode_bool(t).add(rest)[0] == Token::Bool(t));
}

impl PlainDeserialize for u8 {
    open spec fn plain_decodes_to(input: Seq<Token>, v: u8, n: int) -> bool {
        &&& input.len() >= 1
        &&& input[0] == Token::U8(v)
        &&& n == 1
    }

    open spec fn plain_decode_error(input: Seq<Token>) -> DecodeError {
        if input.len() == 0 {
            DecodeError::UnexpectedEnd
        } else {
            DecodeError::UnexpectedToken
        }
    }

    proof fn lemma_plain_deterministic(input: Seq<Token>, v1: u8, n1: int, v2: u8, n2: int) {
    }

    fn plain_deserialize(d: &mut Decoder) -> (r: Result<u8, DecodeError>) {
        d.decode_u8()
    }
}

impl<C> ContextDeserialize<C> for u8 {
    open spec fn decodes_to(input: Seq<Token>, ctx: C, v: u8, n: int) -> bool {
        u8::plain_decodes_to(input, v, n)
    }

    open spec fn decode_error(input: Seq<Token>, ctx: C) -> DecodeError {
        u8::plain_decode_error(input)
    }

    proof fn lemma_decodes_wf(input: Seq<Token>, ctx: C, v: u8, n: int) {
    }

    proof fn lemma_decodes_deterministic(
        input: Seq<Token>,
        ctx: C,
        v1: u8,
        n1: int,
        v2: u8,
        n2: int,
    ) {
    }

    proof fn lemma_decodes_extends(input: Seq<Token>, ctx: C, v: u8, n: int, other: Seq<Token>) {
        assert(other[0] == other.take(n)[0]);
        assert(input[0] == input.take(n)[0]);
    }

    fn context_deserialize(d: &mut Decoder, ctx: C) -> (r: Result<u8, DecodeError>) {
        let ghost rem = d.remaining();
        let r = u8::plain_deserialize(d);
        proof {
            assert(forall|v: u8, n: int|
                #![all_triggers]
                <u8 as ContextDeserialize<C>>::decodes_to(rem, ctx, v, n) == u8::plain_decodes_to(
                    rem,
                    v,
                    n,
                ));
        }
        r
    }
}

/// The encoding of a `u8` value: a single leaf token.
pub open spec fn encode_u8(t: u8) -> Seq<Token> {
    seq![Token::U8(t)]
}

/// Round trip for `u8`: under every context, decoding the encoding of `t`
/// (whatever input follows it) yields exactly `t` and consumes one token,
/// and nothing else can be decoded from that input.
pub proof fn lemma_round_trip_u8<C>(t: u8, ctx: C, rest: Seq<Token>, v: u8, n: int)
    ensures
        <u8 as ContextDeserialize<C>>::decodes_to(encode_u8(t).add(rest), ctx, t, 1),
        <u8 as ContextDeserialize<C>>::decodes_to(encode_u8(t).add(rest), ctx, v, n) ==> v == t
            && n == 1,
{
    assert(encode_u8(t).add(rest)[0] == Token::U8(t));
}

impl PlainDeserialize for u16 {
    open spec fn plain_decodes_to(input: Seq<Token>, v: u16, n: int) -> bool {
        &&& input.len() >= 1
        &&& input[0] == Token::U16(v)
        &&& n == 1
    }

    open spec fn plain_decode_error(input: Seq<Token>) -> DecodeError {
        if input.len() == 0 {
            DecodeError::UnexpectedEnd
        } else {
            DecodeError::UnexpectedToken
        }
    }

    proof fn lemma_plain_deterministic(input: Seq<Token>, v1: u16, n1: int, v2: u16, n2: int) {
    }

    fn plain_deserialize(d: &mut Decoder) -> (r: Result<u16, DecodeError>) {
        d.decode_u16()
    }
}

impl<C> ContextDeserialize<C> for u16 {
    open spec fn decodes_to(input: Seq<Token>, ctx: C, v: u16, n: int) -> bool {
        u16::plain_decodes_to(input, v, n)
    }

    open spec fn decode_error(input: Seq<Token>, ctx: C) -> DecodeError {
        u16::plain_decode_error(input)
    }

    proof fn lemma_decodes_wf(input: Seq<Token>, ctx: C, v: u16, n: int) {
    }

    proof fn lemma_decodes_deterministic(
        input: Seq<Token>,
        ctx: C,
        v1: u16,
        n1: int,
        v2: u16,
        n2: int,
    ) {
    }

    proof fn lemma_decodes_extends(input: Seq<Token>, ctx: C, v: u16, n: int, other: Seq<Token>) {
        assert(other[0] == other.take(n)[0]);
        assert(input[0] == input.take(n)[0]);
    }

    fn context_deserialize(d: &mut Decoder, ctx: C) -> (r: Result<u16, DecodeError>) {
        let ghost rem = d.remaining();
        let r = u16::plain_deserialize(d);
        proof {
            assert(forall|v: u16, n: int|
                #![all_triggers]
                <u16 as ContextDeserialize<C>>::decodes_to(rem, ctx, v, n) == u16::plain_decodes_to(
                    rem,
                    v,
                    n,
                ));
        }
        r
    }
}

/// The encoding of a `u16` value: a single leaf token.
pub open spec fn encode_u16(t: u16) -> Seq<Token> {
    seq![Token::U16(t)]
}

/// Round trip for `u16`: under every context, decoding the encoding of `t`
/// (whatever input follows it) yields exactly `t` and consumes one token,
/// and nothing else can be decoded from that input.
pub proof fn lemma_round_trip_u16<C>(t: u16, ctx: C, rest: Seq<Token>, v: u16, n: int)
    ensures
        <u16 as ContextDeserialize<C>>::decodes_to(encode_u16(t).add(rest), ctx, t, 1),
        <u16 as ContextDeserialize<C>>::decodes_to(encode_u16(t).add(rest), ctx, v, n) ==> v == t
            && n == 1,
{
    assert(encode_u16(t).add(rest)[0] == Token::U16(t));
}

impl PlainDeserialize for u32 {
    open spec fn plain_decodes_to(input: Seq<Token>, v: u32, n: int) -> bool {
        &&& input.len() >= 1
        &&& input[0] == Token::U32(v)
        &&& n == 1
    }

    open spec fn plain_decode_error(input: Seq<Token>) -> DecodeError {
        if input.len() == 0 {
            DecodeError::UnexpectedEnd
        } else {
            DecodeError::UnexpectedToken
        }
    }

    proof fn lemma_plain_deterministic(input: Seq<Token>, v1: u32, n1: int, v2: u32, n2: int) {
    }

    fn plain_deserialize(d: &mut Decoder) -> (r: Result<u32, DecodeError>) {
        d.decode_u32()
    }
}

impl<C> ContextDeserialize<C> for u32 {
    open spec fn decodes_to(input: Seq<Token>, ctx: C, v: u32, n: int) -> bool {
        u32::plain_decodes_to(input, v, n)
    }

    open spec fn decode_error(input: Seq<Token>, ctx: C) -> DecodeError {
        u32::plain_decode_error(input)
    }

    proof fn lemma_decodes_wf(input: Seq<Token>, ctx: C, v: u32, n: int) {
    }

    proof fn lemma_decodes_deterministic(
        input: Seq<Token>,
        ctx: C,
        v1: u32,
        n1: int,
        v2: u32,
        n2: int,
    ) {
    }

    proof fn lemma_decodes_extends(input: Seq<Token>, ctx: C, v: u32, n: int, other: Seq<Token>) {
        assert(other[0] == other.take(n)[0]);
        assert(input[0] == input.take(n)[0]);
    }

    fn context_deserialize(d: &mut Decoder, ctx: C) -> (r: Result<u32, DecodeError>) {
        let ghost rem = d.remaining();
        let r = u32::plain_deserialize(d);
        proof {
            assert(forall|v: u32, n: int|
                #![all_triggers]
                <u32 as ContextDeserialize<C>>::decodes_to(rem, ctx, v, n) == u32::plain_decodes_to(
                    rem,
                    v,
                    n,
                ));
        }
        r
    }
}

/// The encoding of a `u32` value: a single leaf token.
pub open spec fn encode_u32(t: u32) -> Seq<Token> {
    seq![Token::U32(t)]
}

/// Round trip for `u32`: under every context, decoding the encoding of `t`
/// (whatever input follows it) yields exactly `t` and consumes one token,
/// and nothing else can be decoded from that input.
pub proof fn lemma_round_trip_u32<C>(t: u32, ctx: C, rest: Seq<Token>, v: u32, n: int)
    ensures
        <u32 as ContextDeserialize<C>>::decodes_to(encode_u32(t).add(rest), ctx, t, 1),
        <u32 as ContextDeserialize<C>>::decodes_to(encode_u32(t).add(rest), ctx, v, n) ==> v == t
            && n == 1,
{
    assert(encode_u32(t).add(rest)[0] == Token::U32(t));
}

impl PlainDeserialize for u64 {
    open spec fn plain_decodes_to(input: Seq<Token>, v: u64, n: int) -> bool {
        &&& input.len() >= 1
        &&& input[0] == Token::U64(v)
        &&& n == 1
    }

    open spec fn plain_decode_error(input: Seq<Token>) -> DecodeError {
        if input.len() == 0 {
            DecodeError::UnexpectedEnd
        } else {
            DecodeError::UnexpectedToken
        }
    }

    proof fn lemma_plain_deterministic(input: Seq<Token>, v1: u64, n1: int, v2: u64, n2: int) {
    }

    fn plain_deserialize(d: &mut Decoder) -> (r: Result<u64, DecodeError>) {
        d.decode_u64()
    }
}

impl<C> ContextDeserialize<C> for u64 {
    open spec fn decodes_to(input: Seq<Token>, ctx: C, v: u64, n: int) -> bool {
        u64::plain_decodes_to(input, v, n)
    }

    open spec fn decode_error(input: Seq<Token>, ctx: C) -> DecodeError {
        u64::plain_decode_error(input)
    }

    proof fn lemma_decodes_wf(input: Seq<Token>, ctx: C, v: u64, n: int) {
    }

    proof fn lemma_decodes_deterministic(
        input: Seq<Token>,
        ctx: C,
        v1: u64,
        n1: int,
        v2: u64,
        n2: int,
    ) {
    }

    proof fn lemma_decodes_extends(input: Seq<Token>, ctx: C, v: u64, n: int, other: Seq<Token>) {
        assert(other[0] == other.take(n)[0]);
        assert(input[0] == input.take(n)[0]);
    }

    fn context_deserialize(d: &mut Decoder, ctx: C) -> (r: Result<u64, DecodeError>) {
        let ghost rem = d.remaining();
        let r = u64::plain_deserialize(d);
        proof {
            assert(forall|v: u64, n: int|
                #![all_triggers]
                <u64 as ContextDeserialize<C>>::decodes_to(rem, ctx, v, n) == u64::plain_decodes_to(
                    rem,
                    v,
                    n,
                ));
        }
        r
    }
}

/// The encoding of a `u64` value: a single leaf token.
pub open spec fn encode_u64(t: u64) -> Seq<Token> {
    seq![Token::U64(t)]
}

/// Round trip for `u64`: under every context, decoding the encoding of `t`
/// (whatever input follows it) yields exactly `t` and consumes one token,
/// and nothing else can be decoded from that input.
pub proof fn lemma_round_trip_u64<C>(t: u64, ctx: C, rest: Seq<Token>, v: u64, n: int)
    ensures
        <u64 as ContextDeserialize<C>>::decodes_to(encode_u64(t).add(rest), ctx, t, 1),
        <u64 as ContextDeserialize<C>>::decodes_to(encode_u64(t).add(rest), ctx, v, n) ==> v == t
            && n == 1,
{
    assert(encode_u64(t).add(rest)[0] == Token::U64(t));
}

impl PlainDeserialize for u128 {
    open spec fn plain_decodes_to(input: Seq<Token>, v: u128, n: int) -> bool {
        &&& input.len() >= 1
        &&& input[0] == Token::U128(v)
        &&& n == 1
    }

    open spec fn plain_decode_error(input: Seq<Token>) -> DecodeError {
        if input.len() == 0 {
            DecodeError::UnexpectedEnd
        } else {
            DecodeError::UnexpectedToken
        }
    }

    proof fn lemma_plain_deterministic(input: Seq<Token>, v1: u128, n1: int, v2: u128, n2: int) {
    }

    fn plain_deserialize(d: &mut Decoder) -> (r: Result<u128, DecodeError>) {
        d.decode_u128()
    }
}

impl<C> ContextDeserialize<C> for u128 {
    open spec fn decodes_to(input: Seq<Token>, ctx: C, v: u128, n: int) -> bool {
        u128::plain_decodes_to(input, v, n)
    }

    open spec fn decode_error(input: Seq<Token>, ctx: C) -> DecodeError {
        u128::plain_decode_error(input)
    }

    proof fn lemma_decodes_wf(input: Seq<Token>, ctx: C, v: u128, n: int) {
    }

    proof fn lemma_decodes_deterministic(
        input: Seq<Token>,
        ctx: C,
        v1: u128,
        n1: int,
        v2: u128,
        n2: int,
    ) {
    }

    proof fn lemma_decodes_extends(input: Seq<Token>, ctx: C, v: u128, n: int, other: Seq<Token>) {
        assert(other[0] == other.take(n)[0]);
        assert(input[0] == input.take(n)[0]);
    }

    fn context_deserialize(d: &mut Decoder, ctx: C) -> (r: Result<u128, DecodeError>) {
        let ghost rem = d.remaining();
        let r = u128::plain_deserialize(d);
        proof {
            assert(forall|v: u128, n: int|
                #![all_triggers]
                <u128 as ContextDeserialize<C>>::decodes_to(rem, ctx, v, n) == u128::plain_decodes_to(
                    rem,
                    v,
                    n,
                ));
        }
        r
    }
}

/// The encoding of a `u128` value: a single leaf token.
pub open spec fn encode_u128(t: u128) -> Seq<Token> {
    seq![Token::U128(t)]
}

/// Round trip for `u128`: under every context, decoding the encoding of `t`
/// (whatever input follows it) yields exactly `t` and consumes one token,
/// and nothing else can be decoded from that input.
pub proof fn lemma_round_trip_u128<C>(t: u128, ctx: C, rest: Seq<Token>, v: u128, n: int)
    ensures
        <u128 as ContextDeserialize<C>>::decodes_to(encode_u128(t).add(rest), ctx, t, 1),
        <u128 as ContextDeserialize<C>>::decodes_to(encode_u128(t).add(rest), ctx, v, n) ==> v == t
            && n == 1,
{
    assert(encode_u128(t).add(rest)[0] == Token::U128(t));
}

impl PlainDeserialize for i8 {
    open spec fn plain_decodes_to(input: Seq<Token>, v: i8, n: int) -> bool {
        &&& input.len() >= 1
        &&& input[0] == Token::I8(v)
        &&& n == 1
    }

    open spec fn plain_decode_error(input: Seq<Token>) -> DecodeError {
        if input.len() == 0 {
            DecodeError::UnexpectedEnd
        } else {
            DecodeError::UnexpectedToken
        }
    }

    proof fn lemma_plain_deterministic(input: Seq<Token>, v1: i8, n1: int, v2: i8, n2: int) {
    }

    fn plain_deserialize(d: &mut Decoder) -> (r: Result<i8, DecodeError>) {
        d.decode_i8()
    }
}

impl<C> ContextDeserialize<C> for i8 {
    open spec fn decodes_to(input: Seq<Token>, ctx: C, v: i8, n: int) -> bool {
        i8::plain_decodes_to(input, v, n)
    }

    open spec fn decode_error(input: Seq<Token>, ctx: C) -> DecodeError {
        i8::plain_decode_error(input)
    }

    proof fn lemma_decodes_wf(input: Seq<Token>, ctx: C, v: i8, n: int) {
    }

    proof fn lemma_decodes_deterministic(
        input: Seq<Token>,
        ctx: C,
        v1: i8,
        n1: int,
        v2: i8,
        n2: int,
    ) {
    }

    proof fn lemma_decodes_extends(input: Seq<Token>, ctx: C, v: i8, n: int, other: Seq<Token>) {
        assert(other[0] == other.take(n)[0]);
        assert(input[0] == input.take(n)[0]);
    }

    fn context_deserialize(d: &mut Decoder, ctx: C) -> (r: Result<i8, DecodeError>) {
        let ghost rem = d.remaining();
        let r = i8::plain_deserialize(d);
        proof {
            assert(forall|v: i8, n: int|
                #![all_triggers]
                <i8 as ContextDeserialize<C>>::decodes_to(rem, ctx, v, n) == i8::plain_decodes_to(
                    rem,
                    v,
                    n,
                ));
        }
        r
    }
}

/// The encoding of a `i8` value: a single leaf token.
pub open spec fn encode_i8(t: i8) -> Seq<Token> {
    seq![Token::I8(t)]
}

/// Round trip for `i8`: under every context, decoding the encoding of `t`
/// (whatever input follows it) yields exactly `t` and consumes one token,
/// and nothing else can be decoded from that input.
pub proof fn lemma_round_trip_i8<C>(t: i8, ctx: C, rest: Seq<Token>, v: i8, n: int)
    ensures
        <i8 as ContextDeserialize<C>>::decodes_to(encode_i8(t).add(rest), ctx, t, 1),
        <i8 as ContextDeserialize<C>>::decodes_to(encode_i8(t).add(rest), ctx, v, n) ==> v == t
            && n == 1,
{
    assert(encode_i8(t).add(rest)[0] == Token::I8(t));
}

impl PlainDeserialize for i16 {
    open spec fn plain_decodes_to(input: Seq<Token>, v: i16, n: int) -> bool {
        &&& input.len() >= 1
        &&& input[0] == Token::I16(v)
        &&& n == 1
    }

    open spec fn plain_decode_error(input: Seq<Token>) -> DecodeError {
        if input.len() == 0 {
            DecodeError::UnexpectedEnd
        } else {
            DecodeError::UnexpectedToken
        }
    }

    proof fn lemma_plain_deterministic(input: Seq<Token>, v1: i16, n1: int, v2: i16, n2: int) {
    }

    fn plain_deserialize(d: &mut Decoder) -> (r: Result<i16, DecodeError>) {
        d.decode_i16()
    }
}

impl<C> ContextDeserialize<C> for i16 {
    open spec fn decodes_to(input: Seq<Token>, ctx: C, v: i16, n: int) -> bool {
        i16::plain_decodes_to(input, v, n)
    }

    open spec fn decode_error(input: Seq<Token>, ctx: C) -> DecodeError {
        i16::plain_decode_error(input)
    }

    proof fn lemma_decodes_wf(input: Seq<Token>, ctx: C, v: i16, n: int) {
    }

    proof fn lemma_decodes_deterministic(
        input: Seq<Token>,
        ctx: C,
        v1: i16,
        n1: int,
        v2: i16,
        n2: int,
    ) {
    }

    proof fn lemma_decodes_extends(input: Seq<Token>, ctx: C, v: i16, n: int, other: Seq<Token>) {
        assert(other[0] == other.take(n)[0]);
        assert(input[0] == input.take(n)[0]);
    }

    fn context_deserialize(d: &mut Decoder, ctx: C) -> (r: Result<i16, DecodeError>) {
        let ghost rem = d.remaining();
        let r = i16::plain_deserialize(d);
        proof {
            assert(forall|v: i16, n: int|
                #![all_triggers]
                <i16 as ContextDeserialize<C>>::decodes_to(rem, ctx, v, n) == i16::plain_decodes_to(
                    rem,
                    v,
                    n,
                ));
        }
        r
    }
}

/// The encoding of a `i16` value: a single leaf token.
pub open spec fn encode_i16(t: i16) -> Seq<Token> {
    seq![Token::I16(t)]
}

/// Round trip for `i16`: under every context, decoding the encoding of `t`
/// (whatever input follows it) yields exactly `t` and consumes one token,
/// and nothing else can be decoded from that input.
pub proof fn lemma_round_trip_i16<C>(t: i16, ctx: C, rest: Seq<Token>, v: i16, n: int)
    ensures
        <i16 as ContextDeserialize<C>>::decodes_to(encode_i16(t).add(rest), ctx, t, 1),
        <i16 as ContextDeserialize<C>>::decodes_to(encode_i16(t).add(rest), ctx, v, n) ==> v == t
            && n == 1,
{
    assert(encode_i16(t).add(rest)[0] == Token::I16(t));
}

impl PlainDeserialize for i32 {
    open spec fn plain_decodes_to(input: Seq<Token>, v: i32, n: int) -> bool {
        &&& input.len() >= 1
        &&& input[0] == Token::I32(v)
        &&& n == 1
    }

    open spec fn plain_decode_error(input: Seq<Token>) -> DecodeError {
        if input.len() == 0 {
            DecodeError::UnexpectedEnd
        } else {
            DecodeError::UnexpectedToken
        }
    }

    proof fn lemma_plain_deterministic(input: Seq<Token>, v1: i32, n1: int, v2: i32, n2: int) {
    }

    fn plain_deserialize(d: &mut Decoder) -> (r: Result<i32, DecodeError>) {
        d.decode_i32()
    }
}

impl<C> ContextDeserialize<C> for i32 {
    open spec fn decodes_to(input: Seq<Token>, ctx: C, v: i32, n: int) -> bool {
        i32::plain_decodes_to(input, v, n)
    }

    open spec fn decode_error(input: Seq<Token>, ctx: C) -> DecodeError {
        i32::plain_decode_error(input)
    }

    proof fn lemma_decodes_wf(input: Seq<Token>, ctx: C, v: i32, n: int) {
    }

    proof fn lemma_decodes_deterministic(
        input: Seq<Token>,
        ctx: C,
        v1: i32,
        n1: int,
        v2: i32,
        n2: int,
    ) {
    }

    proof fn lemma_decodes_extends(input: Seq<Token>, ctx: C, v: i32, n: int, other: Seq<Token>) {
        assert(other[0] == other.take(n)[0]);
        assert(input[0] == input.take(n)[0]);
    }

    fn context_deserialize(d: &mut Decoder, ctx: C) -> (r: Result<i32, DecodeError>) {
        let ghost rem = d.remaining();
        let r = i32::plain_deserialize(d);
        proof {
            assert(forall|v: i32, n: int|
                #![all_triggers]
                <i32 as ContextDeserialize<C>>::decodes_to(rem, ctx, v, n) == i32::plain_decodes_to(
                    rem,
                    v,
                    n,
                ));
        }
        r
    }
}

/// The encoding of a `i32` value: a single leaf token.
pub open spec fn encode_i32(t: i32) -> Seq<Token> {
    seq![Token::I32(t)]
}

/// Round trip for `i32`: under every context, decoding the encoding of `t`
/// (whatever input follows it) yields exactly `t` and consumes one token,
/// and nothing else can be decoded from that input.
pub proof fn lemma_round_trip_i32<C>(t: i32, ctx: C, rest: Seq<Token>, v: i32, n: int)
    ensures
        <i32 as ContextDeserialize<C>>::decodes_to(encode_i32(t).add(rest), ctx, t, 1),
        <i32 as ContextDeserialize<C>>::decodes_to(encode_i32(t).add(rest), ctx, v, n) ==> v == t
            && n == 1,
{
    assert(encode_i32(t).add(rest)[0] == Token::I32(t));
}

impl PlainDeserialize for i64 {
    open spec fn plain_decodes_to(input: Seq<Token>, v: i64, n: int) -> bool {
        &&& input.len() >= 1
        &&& input[0] == Token::I64(v)
        &&& n == 1
    }

    open spec fn plain_decode_error(input: Seq<Token>) -> DecodeError {
        if input.len() == 0 {
            DecodeError::UnexpectedEnd
        } else {
            DecodeError::UnexpectedToken
        }
    }

    proof fn lemma_plain_deterministic(input: Seq<Token>, v1: i64, n1: int, v2: i64, n2: int) {
    }

    fn plain_deserialize(d: &mut Decoder) -> (r: Result<i64, DecodeError>) {
        d.decode_i64()
    }
}

impl<C> ContextDeserialize<C> for i64 {
    open spec fn decodes_to(input: Seq<Token>, ctx: C, v: i64, n: int) -> bool {
        i64::plain_decodes_to(input, v, n)
    }

    open spec fn decode_error(input: Seq<Token>, ctx: C) -> DecodeError {
        i64::plain_decode_error(input)
    }

    proof fn lemma_decodes_wf(input: Seq<Token>, ctx: C, v: i64, n: int) {
    }

    proof fn lemma_decodes_deterministic(
        input: Seq<Token>,
        ctx: C,
        v1: i64,
        n1: int,
        v2: i64,
        n2: int,
    ) {
    }

    proof fn lemma_decodes_extends(input: Seq<Token>, ctx: C, v: i64, n: int, other: Seq<Token>) {
        assert(other[0] == other.take(n)[0]);
        assert(input[0] == input.take(n)[0]);
    }

    fn context_deserialize(d: &mut Decoder, ctx: C) -> (r: Result<i64, DecodeError>) {
        let ghost rem = d.remaining();
        let r = i64::plain_deserialize(d);
        proof {
            assert(forall|v: i64, n: int|
                #![all_triggers]
                <i64 as ContextDeserialize<C>>::decodes_to(rem, ctx, v, n) == i64::plain_decodes_to(
                    rem,
                    v,
                    n,
                ));
        }
        r
    }
}

/// The encoding of a `i64` value: a single leaf token.
pub open spec fn encode_i64(t: i64) -> Seq<Token> {
    seq![Token::I64(t)]
}

/// Round trip for `i64`: under every context, decoding the encoding of `t`
/// (whatever input follows it) yields exactly `t` and consumes one token,
/// and nothing else can be decoded from that input.
pub proof fn lemma_round_trip_i64<C>(t: i64, ctx: C, rest: Seq<Token>, v: i64, n: int)
    ensures
        <i64 as ContextDeserialize<C>>::decodes_to(encode_i64(t).add(rest), ctx, t, 1),
        <i64 as ContextDeserialize<C>>::decodes_to(encode_i64(t).add(rest), ctx, v, n) ==> v == t
            && n == 1,
{
    assert(encode_i64(t).add(rest)[0] == Token::I64(t));
}

impl PlainDeserialize for i128 {
    open spec fn plain_decodes_to(input: Seq<Token>, v: i128, n: int) -> bool {
        &&& input.len() >= 1
        &&& input[0] == Token::I128(v)
        &&& n == 1
    }

    open spec fn plain_decode_error(input: Seq<Token>) -> DecodeError {
        if input.len() == 0 {
            DecodeError::UnexpectedEnd
        } else {
            DecodeError::UnexpectedToken
        }
    }

    proof fn lemma_plain_deterministic(input: Seq<Token>, v1: i128, n1: int, v2: i128, n2: int) {
    }

    fn plain_deserialize(d: &mut Decoder) -> (r: Result<i128, DecodeError>) {
        d.decode_i128()
    }
}

impl<C> ContextDeserialize<C> for i128 {
    open spec fn decodes_to(input: Seq<Token>, ctx: C, v: i128, n: int) -> bool {
        i128::plain_decodes_to(input, v, n)
    }

    open spec fn decode_error(input: Seq<Token>, ctx: C) -> DecodeError {
        i128::plain_decode_error(input)
    }

    proof fn lemma_decodes_wf(input: Seq<Token>, ctx: C, v: i128, n: int) {
    }

    proof fn lemma_decodes_deterministic(
        input: Seq<Token>,
        ctx: C,
        v1: i128,
        n1: int,
        v2: i128,
        n2: int,
    ) {
    }

    proof fn lemma_decodes_extends(input: Seq<Token>, ctx: C, v: i128, n: int, other: Seq<Token>) {
        assert(other[0] == other.take(n)[0]);
        assert(input[0] == input.take(n)[0]);
    }

    fn context_deserialize(d: &mut Decoder, ctx: C) -> (r: Result<i128, DecodeError>) {
        let ghost rem = d.remaining();
        let r = i128::plain_deserialize(d);
        proof {
            assert(forall|v: i128, n: int|
                #![all_triggers]
                <i128 as ContextDeserialize<C>>::decodes_to(rem, ctx, v, n) == i128::plain_decodes_to(
                    rem,
                    v,
                    n,
                ));
        }
        r
    }
}

/// The encoding of a `i128` value: a single leaf token.
pub open spec fn encode_i128(t: i128) -> Seq<Token> {
    seq![Token::I128(t)]
}

/// Round trip for `i128`: under every context, decoding the encoding of `t`
/// (whatever input follows it) yields exactly `t` and consumes one token,
/// and nothing else can be decoded from that input.
pub proof fn lemma_round_trip_i128<C>(t: i128, ctx: C, rest: Seq<Token>, v: i128, n: int)
    ensures
        <i128 as ContextDeserialize<C>>::decodes_to(encode_i128(t).add(rest), ctx, t, 1),
        <i128 as ContextDeserialize<C>>::decodes_to(encode_i128(t).add(rest), ctx, v, n) ==> v == t
            && n == 1,
{
    assert(encode_i128(t).add(rest)[0] == Token::I128(t));
}

impl PlainDeserialize for String {
    open spec fn plain_decodes_to(input: Seq<Token>, v: String, n: int) -> bool {
        &&& input.len() >= 1
        &&& input[0] matches Token::Str(s) && v@ == s@
        &&& n == 1
    }

    open spec fn plain_decode_error(input: Seq<Token>) -> DecodeError {
        if input.len() == 0 {
            DecodeError::UnexpectedEnd
        } else {
            DecodeError::UnexpectedToken
        }
    }

    proof fn lemma_plain_deterministic(input: Seq<Token>, v1: String, n1: int, v2: String, n2: int) {
    }

    fn plain_deserialize(d: &mut Decoder) -> (r: Result<String, DecodeError>) {
        d.decode_str()
    }
}

} // verus!
