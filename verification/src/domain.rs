//! Domain leaves: a fixed-capacity vector and a self-describing bit-field.
//!
//! Decoding the fixed-capacity vector first runs the sequence composition
//! with the context forwarded unchanged, then rebuilds the fixed-capacity
//! form from the decoded dynamic sequence; a cardinality mismatch surfaces
//! as a decode failure that describes the underlying conversion error.
//! The bit-field encodes its own length, so it decodes through its own
//! unconditional decode; the context is accepted generically for interface
//! uniformity and has no influence on the result.

use crate::decode::{CloneContext, ContextDeserialize, PlainDeserialize};
use crate::sequence::{
    decode_sequence, lemma_seq_decodes_deterministic, lemma_seq_decodes_wf, lemma_take_parts,
    lemma_seq_decodes_extends, seq_decode_error, seq_decodes_to, seq_deep_view,
};
use crate::token::{DecodeError, Decoder, Token};
use vstd::prelude::*;

verus! {

/// An ordered vector whose cardinality is fixed at the type level.
pub struct FixedVector<T, const N: usize> {
    items: Vec<T>,
}

impl<T, const N: usize> View for FixedVector<T, N> {
    type V = Seq<T>;

    closed spec fn view(&self) -> Seq<T> {
        self.items@
    }
}

impl<T: DeepView, const N: usize> DeepView for FixedVector<T, N> {
    type V = Seq<T::V>;

    open spec fn deep_view(&self) -> Seq<T::V> {
        seq_deep_view(self@)
    }
}

impl<T, const N: usize> FixedVector<T, N> {
    /// Rebuild the fixed-capacity form from a dynamic vector; when the
    /// cardinality mismatches the declared capacity the conversion fails,
    /// and the failure describes the mismatch — no silent truncation or
    /// padding.
    pub fn new(items: Vec<T>) -> (r: Result<Self, DecodeError>)
        ensures
            items@.len() == N ==> (r matches Ok(v) && v@ == items@),
            items@.len() != N ==> r == Err::<FixedVector<T, N>, DecodeError>(
                DecodeError::WrongLength { expected: N, actual: items@.len() as usize },
            ),
    {
        if items.len() == N {
            Ok(FixedVector { items })
        } else {
            Err(DecodeError::WrongLength { expected: N, actual: items.len() })
        }
    }

    pub fn len(&self) -> (r: usize)
        ensures
            r == self@.len(),
    {
        self.items.len()
    }

    pub fn get(&self, i: usize) -> (r: &T)
        requires
            i < self@.len(),
        ensures
            *r == self@[i as int],
    {
        &self.items[i]
    }

    pub fn into_vec(self) -> (r: Vec<T>)
        ensures
            r@ == self@,
    {
        self.items
    }
}

impl<T: ContextDeserialize<C>, C: CloneContext, const N: usize> ContextDeserialize<
    C,
> for FixedVector<T, N> {
    open spec fn decodes_to(input: Seq<Token>, ctx: C, v: FixedVector<T, N>, n: int) -> bool {
        &&& v@.len() == N
        &&& input.len() >= 1
        &&& input[0] is SeqStart
        &&& seq_decodes_to(input.skip(1), ctx, v@, n - 1)
    }

    open spec fn decode_error(input: Seq<Token>, ctx: C) -> DecodeError {
        if input.len() == 0 {
            DecodeError::UnexpectedEnd
        } else if !(input[0] is SeqStart) {
            DecodeError::UnexpectedToken
        } else if exists|s0: Seq<T>, m0: int|
            #![auto]
            seq_decodes_to(input.skip(1), ctx, s0, m0) {
            let (s0, m0) = choose|s0: Seq<T>, m0: int|
                #![auto]
                seq_decodes_to(input.skip(1), ctx, s0, m0);
            DecodeError::WrongLength { expected: N, actual: s0.len() as usize }
        } else {
            seq_decode_error::<T, C>(input.skip(1), ctx)
        }
    }

    proof fn lemma_decodes_wf(input: Seq<Token>, ctx: C, v: FixedVector<T, N>, n: int) {
        lemma_seq_decodes_wf::<T, C>(input.skip(1), ctx, v@, n - 1);
    }

    proof fn lemma_decodes_deterministic(
        input: Seq<Token>,
        ctx: C,
        v1: FixedVector<T, N>,
        n1: int,
        v2: FixedVector<T, N>,
        n2: int,
    ) {
        lemma_seq_decodes_deterministic::<T, C>(input.skip(1), ctx, v1@, n1 - 1, v2@, n2 - 1);
    }

    proof fn lemma_decodes_extends(
        input: Seq<Token>,
        ctx: C,
        v: FixedVector<T, N>,
        n: int,
        other: Seq<Token>,
    ) {
        lemma_seq_decodes_wf::<T, C>(input.skip(1), ctx, v@, n - 1);
        assert(other[0] == other.take(n)[0]);
        assert(input[0] == input.take(n)[0]);
        lemma_take_parts(other, input, 1, n);
        lemma_seq_decodes_extends::<T, C>(input.skip(1), ctx, v@, n - 1, other.skip(1));
    }

    /// Decode a dynamic sequence of `T` with the context forwarded
    /// unchanged, then convert into the fixed-capacity form.  Whenever the
    /// input does carry a sequence body, a cardinality mismatch is
    /// reported as exactly the conversion failure for that cardinality.
    fn context_deserialize(d: &mut Decoder, ctx: C) -> (r: Result<FixedVector<T, N>, DecodeError>)
        ensures
            r is Ok <==> (old(d).remaining().len() >= 1 && old(d).remaining()[0] is SeqStart && (
            exists|s: Seq<T>, m: int|
                #![auto]
                seq_decodes_to(old(d).remaining().skip(1), ctx, s, m) && s.len() == N)),
            forall|s: Seq<T>, m: int|
                #![auto]
                (old(d).remaining().len() >= 1 && old(d).remaining()[0] is SeqStart
                    && seq_decodes_to(old(d).remaining().skip(1), ctx, s, m) && s.len() != N)
                    ==> r == Err::<FixedVector<T, N>, DecodeError>(
                    DecodeError::WrongLength { expected: N, actual: s.len() as usize },
                ),
    {
        let ghost rem = d.remaining();
        let ghost pos_in = d.pos();
        let ghost c = ctx;
        let vec = match decode_sequence::<T, C>(d, ctx) {
            Ok(v) => v,
            Err(e) => {
                proof {
                    assert forall|fv: FixedVector<T, N>, n: int|
                        !(<FixedVector<T, N> as ContextDeserialize<C>>::decodes_to(
                            rem,
                            c,
                            fv,
                            n,
                        )) by {
                        if <FixedVector<T, N> as ContextDeserialize<C>>::decodes_to(
                            rem,
                            c,
                            fv,
                            n,
                        ) {
                            assert(seq_decodes_to(rem.skip(1), c, fv@, n - 1));
                        }
                    }
                    if rem.len() >= 1 && rem[0] is SeqStart {
                        assert(!(exists|s0: Seq<T>, m0: int|
                            #![auto]
                            seq_decodes_to(rem.skip(1), c, s0, m0)));
                        assert(<FixedVector<T, N> as ContextDeserialize<C>>::decode_error(rem, c)
                            == seq_decode_error::<T, C>(rem.skip(1), c));
                    }
                }
                return Err(e);
            },
        };
        let ghost vs = vec@;
        let ghost k = d.pos() - pos_in;
        match FixedVector::<T, N>::new(vec) {
            Ok(fv) => {
                proof {
                    assert(vs.len() == N);
                    assert(seq_decodes_to(rem.skip(1), c, vs, k - 1) && vs.len() == N);
                    assert(<FixedVector<T, N> as ContextDeserialize<C>>::decodes_to(rem, c, fv, k));
                    assert forall|s: Seq<T>, m: int|
                        #![auto]
                        seq_decodes_to(rem.skip(1), c, s, m) implies s.len() == N by {
                        lemma_seq_decodes_deterministic::<T, C>(rem.skip(1), c, s, m, vs, k - 1);
                        assert(seq_deep_view(s).len() == s.len());
                        assert(seq_deep_view(vs).len() == vs.len());
                    }
                }
                Ok(fv)
            },
            Err(e) => {
                proof {
                    assert forall|fv: FixedVector<T, N>, n: int|
                        !(<FixedVector<T, N> as ContextDeserialize<C>>::decodes_to(
                            rem,
                            c,
                            fv,
                            n,
                        )) by {
                        if <FixedVector<T, N> as ContextDeserialize<C>>::decodes_to(
                            rem,
                            c,
                            fv,
                            n,
                        ) {
                            lemma_seq_decodes_deterministic::<T, C>(
                                rem.skip(1),
                                c,
                                fv@,
                                n - 1,
                                vs,
                                k - 1,
                            );
                            assert(seq_deep_view(fv@).len() == fv@.len());
                            assert(seq_deep_view(vs).len() == vs.len());
                        }
                    }
                    assert forall|s: Seq<T>, m: int|
                        #![auto]
                        seq_decodes_to(rem.skip(1), c, s, m) implies s.len() == vs.len() by {
                        lemma_seq_decodes_deterministic::<T, C>(rem.skip(1), c, s, m, vs, k - 1);
                        assert(seq_deep_view(s).len() == s.len());
                        assert(seq_deep_view(vs).len() == vs.len());
                    }
                    assert(vs.len() != N);
                    let (s0, m0) = choose|s0: Seq<T>, m0: int|
                        #![auto]
                        seq_decodes_to(rem.skip(1), c, s0, m0);
                    assert(s0.len() == vs.len());
                    assert(<FixedVector<T, N> as ContextDeserialize<C>>::decode_error(rem, c)
                        == DecodeError::WrongLength { expected: N, actual: s0.len() as usize });
                    assert(e == DecodeError::WrongLength {
                        expected: N,
                        actual: vs.len() as usize,
                    });
                    assert(!(exists|s: Seq<T>, m: int|
                        #![auto]
                        seq_decodes_to(rem.skip(1), c, s, m) && s.len() == N));
                }
                Err(e)
            },
        }
    }
}

/// A bit-field: an ordered run of bits that encodes its own length, and so
/// is already self-describing.
pub struct Bitfield {
    bits: Vec<bool>,
}

impl View for Bitfield {
    type V = Seq<bool>;

    closed spec fn view(&self) -> Seq<bool> {
        self.bits@
    }
}

impl DeepView for Bitfield {
    type V = Seq<bool>;

    open spec fn deep_view(&self) -> Seq<bool> {
        self.view()
    }
}

impl Bitfield {
    pub fn new(bits: Vec<bool>) -> (r: Bitfield)
        ensures
            r@ == bits@,
    {
        Bitfield { bits }
    }

    pub fn into_bits(self) -> (r: Vec<bool>)
        ensures
            r@ == self@,
    {
        self.bits
    }
}

impl PlainDeserialize for Bitfield {
    open spec fn plain_decodes_to(input: Seq<Token>, v: Bitfield, n: int) -> bool {
        &&& input.len() >= 1
        &&& input[0] matches Token::Bits(b) && v@ == b@
        &&& n == 1
    }

    open spec fn plain_decode_error(input: Seq<Token>) -> DecodeError {
        if input.len() == 0 {
            DecodeError::UnexpectedEnd
        } else {
            DecodeError::UnexpectedToken
        }
    }

    proof fn lemma_plain_deterministic(
        input: Seq<Token>,
        v1: Bitfield,
        n1: int,
        v2: Bitfield,
        n2: int,
    ) {
    }

    fn plain_deserialize(d: &mut Decoder) -> (r: Result<Bitfield, DecodeError>) {
        let ghost rem = d.remaining();
        match d.decode_bits() {
            Ok(bits) => {
                let b = Bitfield::new(bits);
                proof {
                    assert(Bitfield::plain_decodes_to(rem, b, 1));
                }
                Ok(b)
            },
            Err(e) => Err(e),
        }
    }
}

impl<C> ContextDeserialize<C> for Bitfield {
    open spec fn decodes_to(input: Seq<Token>, ctx: C, v: Bitfield, n: int) -> bool {
        Bitfield::plain_decodes_to(input, v, n)
    }

    open spec fn decode_error(input: Seq<Token>, ctx: C) -> DecodeError {
        Bitfield::plain_decode_error(input)
    }

    proof fn lemma_decodes_wf(input: Seq<Token>, ctx: C, v: Bitfield, n: int) {
    }

    proof fn lemma_decodes_deterministic(
        input: Seq<Token>,
        ctx: C,
        v1: Bitfield,
        n1: int,
        v2: Bitfield,
        n2: int,
    ) {
    }

    proof fn lemma_decodes_extends(
        input: Seq<Token>,
        ctx: C,
        v: Bitfield,
        n: int,
        other: Seq<Token>,
    ) {
        assert(other[0] == other.take(n)[0]);
        assert(input[0] == input.take(n)[0]);
    }

    /// Accept the context for interface uniformity, ignore it entirely,
    /// and decode through the bit-field's own self-describing decode.
    fn context_deserialize(d: &mut Decoder, ctx: C) -> (r: Result<Bitfield, DecodeError>) {
        let ghost rem = d.remaining();
        let r = Bitfield::plain_deserialize(d);
        proof {
            assert(forall|v: Bitfield, n: int|
                #![all_triggers]
                <Bitfield as ContextDeserialize<C>>::decodes_to(rem, ctx, v, n)
                    == Bitfield::plain_decodes_to(rem, v, n));
        }
        r
    }
}

/// Fixed-capacity success law: whenever the input carries a sequence body
/// of some cardinality, a fixed-capacity decode exists only at the exact
/// declared capacity, and it preserves the element order of the dynamic
/// sequence.
pub proof fn lemma_fixed_vector_cardinality<
    T: ContextDeserialize<C>,
    C: CloneContext,
    const N: usize,
>(
    input: Seq<Token>,
    ctx: C,
    s: Seq<T>,
    m: int,
    fv: FixedVector<T, N>,
    n: int,
)
    requires
        input.len() >= 1,
        input[0] is SeqStart,
        seq_decodes_to(input.skip(1), ctx, s, m),
        <FixedVector<T, N> as ContextDeserialize<C>>::decodes_to(input, ctx, fv, n),
    ensures
        s.len() == N,
        seq_deep_view(fv@) == seq_deep_view(s),
        n == m + 1,
{
    lemma_seq_decodes_deterministic::<T, C>(input.skip(1), ctx, fv@, n - 1, s, m);
    assert(seq_deep_view(fv@).len() == fv@.len());
    assert(seq_deep_view(s).len() == s.len());
}

/// Fixed-capacity failure law: a sequence body of any cardinality other
/// than the declared capacity admits no fixed-capacity decode at all — the
/// mismatch is a conversion failure, never a silent truncation or padding.
pub proof fn lemma_fixed_vector_wrong_length<
    T: ContextDeserialize<C>,
    C: CloneContext,
    const N: usize,
>(input: Seq<Token>, ctx: C, s: Seq<T>, m: int)
    requires
        input.len() >= 1,
        input[0] is SeqStart,
        seq_decodes_to(input.skip(1), ctx, s, m),
        s.len() != N,
    ensures
        !(exists|fv: FixedVector<T, N>, n: int|
            <FixedVector<T, N> as ContextDeserialize<C>>::decodes_to(input, ctx, fv, n)),
{
    assert forall|fv: FixedVector<T, N>, n: int|
        !(<FixedVector<T, N> as ContextDeserialize<C>>::decodes_to(input, ctx, fv, n)) by {
        if <FixedVector<T, N> as ContextDeserialize<C>>::decodes_to(input, ctx, fv, n) {
            lemma_fixed_vector_cardinality::<T, C, N>(input, ctx, s, m, fv, n);
        }
    }
}

} // verus!
