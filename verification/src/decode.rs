//! The base capability contract and the capabilities it builds on.

use crate::token::{DecodeError, Decoder, Token};
use vstd::prelude::*;

verus! {

/// The base capability contract: decode a value of the implementing type
/// from a decoder, given a context value of type `C`.
///
/// The contract of [`Self::context_deserialize`] is stated through the
/// decode relation [`Self::decodes_to`]: decoding succeeds exactly when some
/// prefix of the remaining input stands in the relation, and on success it
/// consumes exactly that prefix — no more, no less — and returns the related
/// value.  On failure the error is exactly [`Self::decode_error`] — the
/// first failing step's error, passed through unchanged — and no partial
/// result is returned.  Three laws accompany the relation: a decoded prefix is non-empty,
/// never begins at a sequence terminator, and lies within the input
/// (`lemma_decodes_wf`); the relation determines the decoded value and the
/// consumed length (`lemma_decodes_deterministic`); and the relation depends
/// only on the consumed prefix, so a decode is unaffected by whatever input
/// follows it (`lemma_decodes_extends`).
pub trait ContextDeserialize<C>: Sized + DeepView {
    /// The decode relation: from an input whose first `n` tokens encode a
    /// value, decoding under `ctx` yields `v` and consumes those `n` tokens.
    spec fn decodes_to(input: Seq<Token>, ctx: C, v: Self, n: int) -> bool;

    /// The failure a decode of this type reports from `input` under `ctx`:
    /// the error of the first failing step, surfaced through every
    /// composite boundary with no wrapping.  It is consulted only when no
    /// prefix of `input` decodes.
    spec fn decode_error(input: Seq<Token>, ctx: C) -> DecodeError;

    /// A decoded prefix is non-empty, lies within the input, and never
    /// begins at a sequence terminator.
    proof fn lemma_decodes_wf(input: Seq<Token>, ctx: C, v: Self, n: int)
        requires
            Self::decodes_to(input, ctx, v, n),
        ensures
            1 <= n <= input.len(),
            !(input[0] is SeqEnd),
    ;

    /// The relation determines the decoded value (up to its abstract view)
    /// and the consumed length.
    proof fn lemma_decodes_deterministic(
        input: Seq<Token>,
        ctx: C,
        v1: Self,
        n1: int,
        v2: Self,
        n2: int,
    )
        requires
            Self::decodes_to(input, ctx, v1, n1),
            Self::decodes_to(input, ctx, v2, n2),
        ensures
            v1.deep_view() == v2.deep_view(),
            n1 == n2,
    ;

    /// The relation depends only on the consumed prefix of the input.
    proof fn lemma_decodes_extends(input: Seq<Token>, ctx: C, v: Self, n: int, other: Seq<Token>)
        requires
            Self::decodes_to(input, ctx, v, n),
            n <= other.len(),
            other.take(n) == input.take(n),
        ensures
            Self::decodes_to(other, ctx, v, n),
    ;

    /// Deserialize one value from the given decoder with additional context.
    ///
    /// Succeeds exactly when a prefix of the remaining input decodes under
    /// `ctx`; on success the decoder has consumed exactly that prefix.  On
    /// failure the error is surfaced to the caller unchanged; no partial
    /// result is returned.
    fn context_deserialize(d: &mut Decoder, ctx: C) -> (r: Result<Self, DecodeError>)
        requires
            old(d).wf(),
        ensures
            final(d).wf(),
            final(d).tokens() == old(d).tokens(),
            old(d).pos() <= final(d).pos(),
            (r matches Ok(v) ==> Self::decodes_to(
                old(d).remaining(),
                ctx,
                v,
                final(d).pos() - old(d).pos(),
            )),
            (r matches Err(e) ==> e == Self::decode_error(old(d).remaining(), ctx)),
            r is Ok <==> exists|v: Self, n: int| Self::decodes_to(old(d).remaining(), ctx, v, n),
    ;
}

/// The unconditional decode capability: a self-describing type that needs no
/// context at all.
///
/// Context-oblivious implementations of [`ContextDeserialize`] — the ones
/// the code-generation facility emits — delegate to this capability and
/// ignore the context entirely.
pub trait PlainDeserialize: Sized + DeepView {
    /// The decode relation of the unconditional decode.
    spec fn plain_decodes_to(input: Seq<Token>, v: Self, n: int) -> bool;

    /// The failure the unconditional decode reports from `input`; consulted
    /// only when no prefix of `input` decodes.
    spec fn plain_decode_error(input: Seq<Token>) -> DecodeError;

    /// The relation determines the decoded value (up to its abstract view)
    /// and the consumed length.
    proof fn lemma_plain_deterministic(input: Seq<Token>, v1: Self, n1: int, v2: Self, n2: int)
        requires
            Self::plain_decodes_to(input, v1, n1),
            Self::plain_decodes_to(input, v2, n2),
        ensures
            v1.deep_view() == v2.deep_view(),
            n1 == n2,
    ;

    /// Deserialize one value from the given decoder, without context.
    fn plain_deserialize(d: &mut Decoder) -> (r: Result<Self, DecodeError>)
        requires
            old(d).wf(),
        ensures
            final(d).wf(),
            final(d).tokens() == old(d).tokens(),
            old(d).pos() <= final(d).pos(),
            (r matches Ok(v) ==> Self::plain_decodes_to(
                old(d).remaining(),
                v,
                final(d).pos() - old(d).pos(),
            )),
            (r matches Err(e) ==> e == Self::plain_decode_error(old(d).remaining())),
            r is Ok <==> exists|v: Self, n: int| Self::plain_decodes_to(old(d).remaining(), v, n),
    ;
}

/// The duplication capability a context type must offer wherever composition
/// fans out to more than one sub-value: sequence elements each receive their
/// own usable copy of the shared context.
pub trait CloneContext: Sized {
    /// Duplicate the context; the copy is indistinguishable from the
    /// original.
    fn clone_context(&self) -> (c: Self)
        ensures
            c == *self,
    ;
}

impl CloneContext for () {
    fn clone_context(&self) -> (c: ()) {
        ()
    }
}

impl CloneContext for bool {
    fn clone_context(&self) -> (c: bool) {
        *self
    }
}

impl CloneContext for u64 {
    fn clone_context(&self) -> (c: u64) {
        *self
    }
}

impl CloneContext for String {
    fn clone_context(&self) -> (c: String) {
        self.clone()
    }
}

} // verus!
