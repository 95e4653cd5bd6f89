//! Sequence composition: decoding a growable, ordered sequence whose
//! elements themselves need the context to decode.
//!
//! The decoder's sequence-access sub-protocol visits elements one at a time
//! through a single-use seed, so each element decode needs its own usable
//! copy of the shared context: the context type must offer
//! [`CloneContext`], and one duplicate is made per element.

use crate::decode::{CloneContext, ContextDeserialize};
use crate::token::{DecodeError, Decoder, Token};
use core::marker::PhantomData;
use vstd::prelude::*;

verus! {

/// The decode relation of a dynamic sequence body: the elements of `s`, in
/// order, each decoded under `ctx` from where the previous one stopped,
/// then the closing delimiter; `n` tokens in all.
pub open spec fn seq_decodes_to<T: ContextDeserialize<C>, C>(
    input: Seq<Token>,
    ctx: C,
    s: Seq<T>,
    n: int,
) -> bool
    decreases s.len(),
{
    if s.len() == 0 {
        &&& n == 1
        &&& input.len() >= 1
        &&& input[0] is SeqEnd
    } else {
        exists|k: int|
            #![auto]
            T::decodes_to(input, ctx, s[0], k) && seq_decodes_to(
                input.skip(k),
                ctx,
                s.skip(1),
                n - k,
            )
    }
}

/// The elementwise abstraction of a sequence of values.
pub open spec fn seq_deep_view<T: DeepView>(s: Seq<T>) -> Seq<T::V> {
    Seq::new(s.len(), |i: int| s[i].deep_view())
}

/// The failure a sequence-body decode reports: walking the elements in
/// order from `input`, the error of the first position where neither the
/// terminator stands nor an element decodes — that element's own error
/// surfaced unchanged, or the truncation error at the end of the input.
/// It is consulted only for inputs whose body does not decode, so the
/// terminator branch never decides a reported failure.
pub open spec fn seq_decode_error<T: ContextDeserialize<C>, C>(input: Seq<Token>, ctx: C) -> DecodeError
    decreases input.len(),
{
    if input.len() == 0 {
        DecodeError::UnexpectedEnd
    } else if input[0] is SeqEnd {
        DecodeError::UnexpectedEnd
    } else if exists|v0: T, k0: int| #![auto] T::decodes_to(input, ctx, v0, k0) {
        let (v0, k0) = choose|v0: T, k0: int| #![auto] T::decodes_to(input, ctx, v0, k0);
        if 1 <= k0 <= input.len() {
            seq_decode_error::<T, C>(input.skip(k0), ctx)
        } else {
            DecodeError::UnexpectedEnd
        }
    } else {
        T::decode_error(input, ctx)
    }
}

/// Two inputs that agree on a prefix agree on every part of that prefix.
pub(crate) proof fn lemma_take_parts<A>(a: Seq<A>, b: Seq<A>, k: int, n: int)
    requires
        0 <= k <= n,
        n <= a.len(),
        n <= b.len(),
        a.take(n) == b.take(n),
    ensures
        a.take(k) == b.take(k),
        a.skip(k).take(n - k) == b.skip(k).take(n - k),
{
    assert(a.take(k) =~= a.take(n).subrange(0, k));
    assert(b.take(k) =~= b.take(n).subrange(0, k));
    assert(a.skip(k).take(n - k) =~= a.take(n).subrange(k, n));
    assert(b.skip(k).take(n - k) =~= b.take(n).subrange(k, n));
}

/// A decoded sequence body is non-empty and lies within the input.
pub proof fn lemma_seq_decodes_wf<T: ContextDeserialize<C>, C>(
    input: Seq<Token>,
    ctx: C,
    s: Seq<T>,
    n: int,
)
    requires
        seq_decodes_to(input, ctx, s, n),
    ensures
        1 <= n <= input.len(),
    decreases s.len(),
{
    if s.len() == 0 {
    } else {
        let k = choose|k: int|
            #![auto]
            T::decodes_to(input, ctx, s[0], k) && seq_decodes_to(
                input.skip(k),
                ctx,
                s.skip(1),
                n - k,
            );
        T::lemma_decodes_wf(input, ctx, s[0], k);
        lemma_seq_decodes_wf(input.skip(k), ctx, s.skip(1), n - k);
    }
}

/// The sequence relation determines the element views and the consumed
/// length.
pub proof fn lemma_seq_decodes_deterministic<T: ContextDeserialize<C>, C>(
    input: Seq<Token>,
    ctx: C,
    s1: Seq<T>,
    n1: int,
    s2: Seq<T>,
    n2: int,
)
    requires
        seq_decodes_to(input, ctx, s1, n1),
        seq_decodes_to(input, ctx, s2, n2),
    ensures
        seq_deep_view(s1) == seq_deep_view(s2),
        n1 == n2,
    decreases s1.len(),
{
    if s1.len() == 0 {
        if s2.len() == 0 {
            assert(seq_deep_view(s1) =~= seq_deep_view(s2));
        } else {
            let k = choose|k: int|
                #![auto]
                T::decodes_to(input, ctx, s2[0], k) && seq_decodes_to(
                    input.skip(k),
                    ctx,
                    s2.skip(1),
                    n2 - k,
                );
            T::lemma_decodes_wf(input, ctx, s2[0], k);
            assert(false);
        }
    } else {
        if s2.len() == 0 {
            let k = choose|k: int|
                #![auto]
                T::decodes_to(input, ctx, s1[0], k) && seq_decodes_to(
                    input.skip(k),
                    ctx,
                    s1.skip(1),
                    n1 - k,
                );
            T::lemma_decodes_wf(input, ctx, s1[0], k);
            assert(false);
        } else {
            let k1 = choose|k: int|
                #![auto]
                T::decodes_to(input, ctx, s1[0], k) && seq_decodes_to(
                    input.skip(k),
                    ctx,
                    s1.skip(1),
                    n1 - k,
                );
            let k2 = choose|k: int|
                #![auto]
                T::decodes_to(input, ctx, s2[0], k) && seq_decodes_to(
                    input.skip(k),
                    ctx,
                    s2.skip(1),
                    n2 - k,
                );
            T::lemma_decodes_deterministic(input, ctx, s1[0], k1, s2[0], k2);
            lemma_seq_decodes_deterministic(input.skip(k1), ctx, s1.skip(1), n1 - k1, s2.skip(1), n2 - k2);
            assert(seq_deep_view(s1.skip(1)).len() == s1.len() - 1);
            assert(seq_deep_view(s2.skip(1)).len() == s2.len() - 1);
            assert(s1.len() == s2.len());
            assert forall|i: int| 0 <= i < s1.len() implies seq_deep_view(s1)[i] == seq_deep_view(
                s2,
            )[i] by {
                if i > 0 {
                    assert(seq_deep_view(s1.skip(1))[i - 1] == seq_deep_view(s2.skip(1))[i - 1]);
                    assert(s1.skip(1)[i - 1] == s1[i]);
                    assert(s2.skip(1)[i - 1] == s2[i]);
                }
            }
            assert(seq_deep_view(s1) =~= seq_deep_view(s2));
        }
    }
}

/// The sequence relation depends only on the consumed prefix of the input.
pub proof fn lemma_seq_decodes_extends<T: ContextDeserialize<C>, C>(
    input: Seq<Token>,
    ctx: C,
    s: Seq<T>,
    n: int,
    other: Seq<Token>,
)
    requires
        seq_decodes_to(input, ctx, s, n),
        n <= other.len(),
        other.take(n) == input.take(n),
    ensures
        seq_decodes_to(other, ctx, s, n),
    decreases s.len(),
{
    lemma_seq_decodes_wf(input, ctx, s, n);
    if s.len() == 0 {
        assert(other[0] == other.take(n)[0]);
        assert(input[0] == input.take(n)[0]);
    } else {
        let k = choose|k: int|
            #![auto]
            T::decodes_to(input, ctx, s[0], k) && seq_decodes_to(
                input.skip(k),
                ctx,
                s.skip(1),
                n - k,
            );
        T::lemma_decodes_wf(input, ctx, s[0], k);
        lemma_seq_decodes_wf(input.skip(k), ctx, s.skip(1), n - k);
        lemma_take_parts(other, input, k, n);
        T::lemma_decodes_extends(input, ctx, s[0], k, other);
        lemma_seq_decodes_extends(input.skip(k), ctx, s.skip(1), n - k, other.skip(k));
        assert(T::decodes_to(other, ctx, s[0], k) && seq_decodes_to(
            other.skip(k),
            ctx,
            s.skip(1),
            n - k,
        ));
    }
}

/// An ephemeral, single-use binding of one context value to a target
/// element type: the sequence-access sub-protocol invokes one seed per
/// element, and the seed's context is consumed on its first and only use.
pub struct ContextSeed<T, C> {
    pub context: C,
    pub element: PhantomData<T>,
}

impl<T: ContextDeserialize<C>, C> ContextSeed<T, C> {
    pub fn new(context: C) -> (s: Self)
        ensures
            s.context == context,
    {
        ContextSeed { context, element: PhantomData }
    }

    /// Decode the one element this seed was made for, consuming the seed
    /// and the context value it carries.
    pub fn deserialize(self, d: &mut Decoder) -> (r: Result<T, DecodeError>)
        requires
            old(d).wf(),
        ensures
            final(d).wf(),
            final(d).tokens() == old(d).tokens(),
            old(d).pos() <= final(d).pos(),
            (r matches Ok(v) ==> T::decodes_to(
                old(d).remaining(),
                self.context,
                v,
                final(d).pos() - old(d).pos(),
            )),
            (r matches Err(e) ==> e == T::decode_error(old(d).remaining(), self.context)),
            r is Ok <==> exists|v: T, n: int|
                T::decodes_to(old(d).remaining(), self.context, v, n),
    {
        T::context_deserialize(d, self.context)
    }
}

impl Decoder {
    /// The sequence-access sub-protocol: decode the next element with the
    /// given seed, or consume the terminator and report that the sequence
    /// is finished — which is successful completion, not an error.
    pub fn next_element_seed<T: ContextDeserialize<C>, C>(
        &mut self,
        seed: ContextSeed<T, C>,
    ) -> (r: Result<Option<T>, DecodeError>)
        requires
            old(self).wf(),
        ensures
            final(self).wf(),
            final(self).tokens() == old(self).tokens(),
            old(self).pos() <= final(self).pos(),
            match r {
                Ok(opt) => match opt {
                    Option::None => old(self).remaining().len() >= 1 && old(self).remaining()[0]
                        is SeqEnd && final(self).pos() == old(self).pos() + 1,
                    Option::Some(v) => old(self).remaining().len() >= 1 && !(old(
                        self,
                    ).remaining()[0] is SeqEnd) && T::decodes_to(
                        old(self).remaining(),
                        seed.context,
                        v,
                        final(self).pos() - old(self).pos(),
                    ),
                },
                Err(e) => (old(self).remaining().len() == 0 && e == DecodeError::UnexpectedEnd
                    && final(self).pos() == old(self).pos()) || (old(self).remaining().len() >= 1
                    && !(old(self).remaining()[0] is SeqEnd) && !(exists|v: T, n: int|
                    T::decodes_to(old(self).remaining(), seed.context, v, n)) && e
                    == T::decode_error(old(self).remaining(), seed.context)),
            },
    {
        let ghost rem_in = self.remaining();
        match self.try_end_seq() {
            Err(e) => Err(e),
            Ok(true) => Ok(None),
            Ok(false) => {
                proof {
                    assert(self.remaining() == rem_in);
                }
                match seed.deserialize(self) {
                    Ok(v) => Ok(Some(v)),
                    Err(e) => Err(e),
                }
            },
        }
    }
}

impl<T: ContextDeserialize<C>, C: CloneContext> ContextDeserialize<C> for Vec<T> {
    open spec fn decodes_to(input: Seq<Token>, ctx: C, v: Vec<T>, n: int) -> bool {
        &&& input.len() >= 1
        &&& input[0] is SeqStart
        &&& seq_decodes_to(input.skip(1), ctx, v@, n - 1)
    }

    open spec fn decode_error(input: Seq<Token>, ctx: C) -> DecodeError {
        if input.len() == 0 {
            DecodeError::UnexpectedEnd
        } else if !(input[0] is SeqStart) {
            DecodeError::UnexpectedToken
        } else {
            seq_decode_error::<T, C>(input.skip(1), ctx)
        }
    }

    proof fn lemma_decodes_wf(input: Seq<Token>, ctx: C, v: Vec<T>, n: int) {
        lemma_seq_decodes_wf::<T, C>(input.skip(1), ctx, v@, n - 1);
    }

    proof fn lemma_decodes_deterministic(
        input: Seq<Token>,
        ctx: C,
        v1: Vec<T>,
        n1: int,
        v2: Vec<T>,
        n2: int,
    ) {
        lemma_seq_decodes_deterministic::<T, C>(input.skip(1), ctx, v1@, n1 - 1, v2@, n2 - 1);
        assert(v1.deep_view() =~= seq_deep_view(v1@));
        assert(v2.deep_view() =~= seq_deep_view(v2@));
    }

    proof fn lemma_decodes_extends(
        input: Seq<Token>,
        ctx: C,
        v: Vec<T>,
        n: int,
        other: Seq<Token>,
    ) {
        lemma_seq_decodes_wf::<T, C>(input.skip(1), ctx, v@, n - 1);
        assert(other[0] == other.take(n)[0]);
        assert(input[0] == input.take(n)[0]);
        lemma_take_parts(other, input, 1, n);
        lemma_seq_decodes_extends::<T, C>(input.skip(1), ctx, v@, n - 1, other.skip(1));
    }

    /// Decode a dynamic sequence through the sequence composition engine.
    /// Success needs only a decodable sequence body; the first failing
    /// element's error is handed back unchanged.
    fn context_deserialize(d: &mut Decoder, ctx: C) -> (r: Result<Vec<T>, DecodeError>)
        ensures
            r is Ok <==> (old(d).remaining().len() >= 1 && old(d).remaining()[0] is SeqStart && (
            exists|s: Seq<T>, m: int|
                #![auto]
                seq_decodes_to(old(d).remaining().skip(1), ctx, s, m))),
    {
        let ghost rem = d.remaining();
        let ghost pos_in = d.pos();
        let ghost c = ctx;
        match decode_sequence::<T, C>(d, ctx) {
            Ok(v) => {
                proof {
                    assert(<Vec<T> as ContextDeserialize<C>>::decodes_to(
                        rem,
                        c,
                        v,
                        d.pos() - pos_in,
                    ));
                }
                Ok(v)
            },
            Err(e) => {
                proof {
                    assert forall|v: Vec<T>, n: int|
                        !(<Vec<T> as ContextDeserialize<C>>::decodes_to(rem, c, v, n)) by {
                        if <Vec<T> as ContextDeserialize<C>>::decodes_to(rem, c, v, n) {
                            assert(seq_decodes_to(rem.skip(1), c, v@, n - 1));
                        }
                    }
                }
                Err(e)
            },
        }
    }
}

/// The sequence composition engine: request sequence access from the
/// decoder, then decode element after element, each through a fresh
/// single-use seed holding its own duplicate of the shared context,
/// accumulating the results in decode order.  The decoder signalling "no
/// more elements" completes the operation; any element failure aborts it,
/// propagating the error.
pub fn decode_sequence<T: ContextDeserialize<C>, C: CloneContext>(d: &mut Decoder, ctx: C) -> (r:
    Result<Vec<T>, DecodeError>)
    requires
        old(d).wf(),
    ensures
        final(d).wf(),
        final(d).tokens() == old(d).tokens(),
        old(d).pos() <= final(d).pos(),
        (r matches Ok(v) ==> old(d).remaining().len() >= 1 && old(d).remaining()[0] is SeqStart
            && seq_decodes_to(
            old(d).remaining().skip(1),
            ctx,
            v@,
            final(d).pos() - old(d).pos() - 1,
        )),
        r is Ok <==> (old(d).remaining().len() >= 1 && old(d).remaining()[0] is SeqStart && (
        exists|s: Seq<T>, m: int|
            #![auto]
            seq_decodes_to(old(d).remaining().skip(1), ctx, s, m))),
        (r matches Err(e) ==> e == (if old(d).remaining().len() == 0 {
            DecodeError::UnexpectedEnd
        } else if !(old(d).remaining()[0] is SeqStart) {
            DecodeError::UnexpectedToken
        } else {
            seq_decode_error::<T, C>(old(d).remaining().skip(1), ctx)
        })),
{
    let ghost tokens0 = d.tokens();
    let ghost rem0 = d.remaining();
    let ghost pos0 = d.pos();
    match d.begin_seq() {
        Err(e) => {
            return Err(e);
        },
        Ok(_) => {},
    }
    let ghost pos1 = d.pos();
    let ghost rem1 = d.remaining();
    proof {
        assert(rem1 =~= rem0.skip(1));
    }
    let mut out: Vec<T> = Vec::new();
    #[verifier::loop_isolation(false)]
    loop
        invariant
            d.wf(),
            d.tokens() == tokens0,
            pos1 <= d.pos() <= tokens0.len(),
            pos0 + 1 == pos1,
            rem0 == tokens0.skip(pos0),
            rem1 == tokens0.skip(pos1),
            rem0.len() >= 1 && rem0[0] is SeqStart,
            forall|s: Seq<T>, m: int|
                #![auto]
                seq_decodes_to(d.remaining(), ctx, s, m) ==> seq_decodes_to(
                    rem1,
                    ctx,
                    out@ + s,
                    (d.pos() - pos1) + m,
                ),
            (exists|s: Seq<T>, m: int| #![auto] seq_decodes_to(rem1, ctx, s, m)) ==> (
            exists|s: Seq<T>, m: int| #![auto] seq_decodes_to(d.remaining(), ctx, s, m)),
            seq_decode_error::<T, C>(rem1, ctx) == seq_decode_error::<T, C>(d.remaining(), ctx),
        decreases tokens0.len() - d.pos(),
    {
        let ghost rem_head = d.remaining();
        let ghost pos_head = d.pos();
        let ghost out_head = out@;
        let seed = ContextSeed::<T, C>::new(ctx.clone_context());
        match d.next_element_seed(seed) {
            Ok(Some(elem)) => {
                let ghost k = d.pos() - pos_head;
                proof {
                    T::lemma_decodes_wf(rem_head, ctx, elem, k);
                    assert(d.remaining() =~= rem_head.skip(k));
                }
                out.push(elem);
                proof {
                    let ghost rem_new = d.remaining();
                    let ghost pos_new = d.pos();
                    assert forall|s: Seq<T>, m: int|
                        #![auto]
                        seq_decodes_to(rem_new, ctx, s, m) implies seq_decodes_to(
                        rem1,
                        ctx,
                        out@ + s,
                        (pos_new - pos1) + m,
                    ) by {
                        let cons = seq![elem] + s;
                        assert(cons[0] == elem);
                        assert(cons.skip(1) =~= s);
                        assert(T::decodes_to(rem_head, ctx, cons[0], k));
                        assert(seq_decodes_to(rem_head.skip(k), ctx, cons.skip(1), m));
                        assert(seq_decodes_to(rem_head, ctx, cons, k + m));
                        assert(seq_decodes_to(
                            rem1,
                            ctx,
                            out_head + cons,
                            (pos_head - pos1) + (k + m),
                        ));
                        assert(out_head + cons =~= out@ + s);
                    }
                    if exists|s: Seq<T>, m: int| #![auto] seq_decodes_to(rem1, ctx, s, m) {
                        let (s2, m2) = choose|s2: Seq<T>, m2: int|
                            #![auto]
                            seq_decodes_to(rem_head, ctx, s2, m2);
                        if s2.len() == 0 {
                            assert(false);
                        } else {
                            let k2 = choose|k2: int|
                                #![auto]
                                T::decodes_to(rem_head, ctx, s2[0], k2) && seq_decodes_to(
                                    rem_head.skip(k2),
                                    ctx,
                                    s2.skip(1),
                                    m2 - k2,
                                );
                            T::lemma_decodes_deterministic(rem_head, ctx, s2[0], k2, elem, k);
                            assert(seq_decodes_to(rem_new, ctx, s2.skip(1), m2 - k));
                        }
                    }
                    let (v3, k3) = choose|v0: T, k0: int|
                        #![auto]
                        T::decodes_to(rem_head, ctx, v0, k0);
                    T::lemma_decodes_wf(rem_head, ctx, v3, k3);
                    T::lemma_decodes_deterministic(rem_head, ctx, v3, k3, elem, k);
                    assert(rem_head.skip(k3) == d.remaining());
                    assert(seq_decode_error::<T, C>(rem_head, ctx) == seq_decode_error::<T, C>(
                        d.remaining(),
                        ctx,
                    ));
                }
            },
            Ok(None) => {
                proof {
                    assert(seq_decodes_to(rem_head, ctx, Seq::<T>::empty(), 1));
                    assert(seq_decodes_to(rem1, ctx, out@ + Seq::<T>::empty(), (pos_head
                        - pos1) + 1));
                    assert(out@ + Seq::<T>::empty() =~= out@);
                    assert(seq_decodes_to(rem1, ctx, out@, d.pos() - pos0 - 1));
                }
                return Ok(out);
            },
            Err(e) => {
                proof {
                    if exists|s: Seq<T>, m: int| #![auto] seq_decodes_to(rem1, ctx, s, m) {
                        let (s2, m2) = choose|s2: Seq<T>, m2: int|
                            #![auto]
                            seq_decodes_to(rem_head, ctx, s2, m2);
                        lemma_seq_decodes_wf(rem_head, ctx, s2, m2);
                        if s2.len() == 0 {
                            assert(false);
                        } else {
                            let k2 = choose|k2: int|
                                #![auto]
                                T::decodes_to(rem_head, ctx, s2[0], k2) && seq_decodes_to(
                                    rem_head.skip(k2),
                                    ctx,
                                    s2.skip(1),
                                    m2 - k2,
                                );
                            assert(false);
                        }
                    }
                }
                return Err(e);
            },
        }
    }
}

/// The concatenation of per-element encodings.
pub open spec fn concat_encodings(encs: Seq<Seq<Token>>) -> Seq<Token>
    decreases encs.len(),
{
    if encs.len() == 0 {
        Seq::empty()
    } else {
        encs[0] + concat_encodings(encs.skip(1))
    }
}

/// Order preservation of the sequence body: if each `values[i]` is decoded
/// exactly by its encoding `encs[i]` under `ctx`, then the concatenation of
/// those encodings followed by the sequence terminator decodes to exactly
/// the values, in their original order.
pub proof fn lemma_seq_decode_preserves_order<T: ContextDeserialize<C>, C>(
    encs: Seq<Seq<Token>>,
    values: Seq<T>,
    ctx: C,
)
    requires
        encs.len() == values.len(),
        forall|i: int| 0 <= i < encs.len() ==> #[trigger] T::decodes_to(
            encs[i],
            ctx,
            values[i],
            encs[i].len() as int,
        ),
    ensures
        seq_decodes_to(
            concat_encodings(encs) + seq![Token::SeqEnd],
            ctx,
            values,
            concat_encodings(encs).len() as int + 1,
        ),
    decreases encs.len(),
{
    let input = concat_encodings(encs) + seq![Token::SeqEnd];
    if encs.len() == 0 {
        assert(concat_encodings(encs) =~= Seq::<Token>::empty());
        assert(input[0] is SeqEnd);
    } else {
        let e0 = encs[0];
        let k = e0.len() as int;
        assert(T::decodes_to(e0, ctx, values[0], k));
        T::lemma_decodes_wf(e0, ctx, values[0], k);
        assert(input.take(k) =~= e0.take(k));
        T::lemma_decodes_extends(e0, ctx, values[0], k, input);
        assert forall|i: int| 0 <= i < encs.skip(1).len() implies #[trigger] T::decodes_to(
            encs.skip(1)[i],
            ctx,
            values.skip(1)[i],
            encs.skip(1)[i].len() as int,
        ) by {
            assert(encs.skip(1)[i] == encs[i + 1]);
            assert(values.skip(1)[i] == values[i + 1]);
        }
        lemma_seq_decode_preserves_order::<T, C>(encs.skip(1), values.skip(1), ctx);
        assert(input.skip(k) =~= concat_encodings(encs.skip(1)) + seq![Token::SeqEnd]);
        assert(seq_decodes_to(
            input.skip(k),
            ctx,
            values.skip(1),
            concat_encodings(encs.skip(1)).len() as int + 1,
        ));
        assert(seq_decodes_to(input, ctx, values, concat_encodings(encs).len() as int + 1));
    }
}

/// Order preservation, stated of the `Vec` implementation: whatever `Vec`
/// value the composed relation admits for the encoding of `values` under
/// any context, its elements are exactly `values` in their original order.
pub proof fn lemma_vec_decode_preserves_order<T: ContextDeserialize<C>, C: CloneContext>(
    encs: Seq<Seq<Token>>,
    values: Seq<T>,
    ctx: C,
    v: Vec<T>,
    n: int,
)
    requires
        encs.len() == values.len(),
        forall|i: int| 0 <= i < encs.len() ==> #[trigger] T::decodes_to(
            encs[i],
            ctx,
            values[i],
            encs[i].len() as int,
        ),
        <Vec<T> as ContextDeserialize<C>>::decodes_to(
            seq![Token::SeqStart] + concat_encodings(encs) + seq![Token::SeqEnd],
            ctx,
            v,
            n,
        ),
    ensures
        v.deep_view() == seq_deep_view(values),
        n == concat_encodings(encs).len() + 2,
{
    lemma_seq_decode_preserves_order::<T, C>(encs, values, ctx);
    let full = seq![Token::SeqStart] + concat_encodings(encs) + seq![Token::SeqEnd];
    assert(full.skip(1) =~= concat_encodings(encs) + seq![Token::SeqEnd]);
    lemma_seq_decodes_deterministic::<T, C>(
        full.skip(1),
        ctx,
        v@,
        n - 1,
        values,
        concat_encodings(encs).len() as int + 1,
    );
    assert(v.deep_view() =~= seq_deep_view(v@));
}

} // verus!
