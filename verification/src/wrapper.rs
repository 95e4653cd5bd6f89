//! Ownership-forwarding implementation for a shared-ownership wrapper.
//!
//! A reference-counted box holds exactly one inner value, so the context is
//! forwarded by move, not by clone, and errors pass through unchanged from
//! the inner decode.

use crate::decode::ContextDeserialize;
use crate::token::{DecodeError, Decoder, Token};
use std::sync::Arc;
use vstd::prelude::*;

verus! {

/// The value a shared-ownership wrapper points to.
spec fn arc_inner<T>(a: &Arc<T>) -> T {
    **a
}

impl<T: ContextDeserialize<C>, C> ContextDeserialize<C> for Arc<T> {
    open spec fn decodes_to(input: Seq<Token>, ctx: C, v: Arc<T>, n: int) -> bool {
        T::decodes_to(input, ctx, *v, n)
    }

    open spec fn decode_error(input: Seq<Token>, ctx: C) -> DecodeError {
        T::decode_error(input, ctx)
    }

    proof fn lemma_decodes_wf(input: Seq<Token>, ctx: C, v: Arc<T>, n: int) {
        T::lemma_decodes_wf(input, ctx, arc_inner(&v), n);
    }

    proof fn lemma_decodes_deterministic(
        input: Seq<Token>,
        ctx: C,
        v1: Arc<T>,
        n1: int,
        v2: Arc<T>,
        n2: int,
    ) {
        T::lemma_decodes_deterministic(input, ctx, arc_inner(&v1), n1, arc_inner(&v2), n2);
    }

    proof fn lemma_decodes_extends(input: Seq<Token>, ctx: C, v: Arc<T>, n: int, other: Seq<Token>) {
        T::lemma_decodes_extends(input, ctx, arc_inner(&v), n, other);
    }

    /// Decode the inner value with the given context, then take shared
    /// ownership of the result.  The decode succeeds exactly when the
    /// inner type's does, and an inner failure passes through unchanged.
    fn context_deserialize(d: &mut Decoder, ctx: C) -> (r: Result<Arc<T>, DecodeError>)
        ensures
            r is Ok <==> exists|v: T, n: int| T::decodes_to(old(d).remaining(), ctx, v, n),
            (r matches Err(e) ==> e == T::decode_error(old(d).remaining(), ctx)),
    {
        let ghost rem = d.remaining();
        let ghost pos_in = d.pos();
        match T::context_deserialize(d, ctx) {
            Ok(v) => {
                let a = Arc::new(v);
                proof {
                    assert(<Arc<T> as ContextDeserialize<C>>::decodes_to(
                        rem,
                        ctx,
                        a,
                        d.pos() - pos_in,
                    ));
                }
                Ok(a)
            },
            Err(e) => {
                proof {
                    assert forall|av: Arc<T>, an: int|
                        !(<Arc<T> as ContextDeserialize<C>>::decodes_to(rem, ctx, av, an)) by {
                        if <Arc<T> as ContextDeserialize<C>>::decodes_to(rem, ctx, av, an) {
                            assert(T::decodes_to(rem, ctx, *av, an));
                        }
                    }
                }
                Err(e)
            },
        }
    }
}

/// Shared-ownership law: a wrapper decode stands in exactly the relation
/// of decoding the wrapped type directly with the same context — the
/// decoded wrapper is observably the directly decoded value.
pub proof fn lemma_arc_decode_transparent<T: ContextDeserialize<C>, C>(
    input: Seq<Token>,
    ctx: C,
    a: Arc<T>,
    n: int,
)
    ensures
        <Arc<T> as ContextDeserialize<C>>::decodes_to(input, ctx, a, n) <==> T::decodes_to(
            input,
            ctx,
            *a,
            n,
        ),
{
}

} // verus!
