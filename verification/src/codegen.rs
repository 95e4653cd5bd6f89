//! The code-generation facility, planning half.
//!
//! A declarative annotation on a type definition names one or more context
//! types and, optionally, one explicit generic-bound clause.  For every
//! declared context type one context-oblivious implementation of the base
//! capability contract is emitted; each ignores the supplied context
//! entirely and delegates to the annotated type's own unconditional
//! decode.  This module holds the part of that facility that decides: the
//! validation of the attribute arguments, the plan of the implementations
//! to emit, and — proved once for every type with the unconditional decode
//! capability — the body those implementations share.

use crate::decode::PlainDeserialize;
use crate::token::{DecodeError, Decoder, Token};
use vstd::prelude::*;

verus! {

/// The shape of the literal in a name/value attribute argument.
#[derive(Debug)]
pub enum AttrValue {
    Str(String),
    NotStr,
}

/// One argument of the code-generation attribute, as the surrounding
/// attribute parser hands it over.
#[derive(Debug)]
pub enum AttrArg {
    /// A bare path: a declared context type.
    Path(String),
    /// A `name = <literal>` entry.
    NameValue { name: String, value: AttrValue },
    /// Anything else: a bare literal, a nested list, ...
    Unsupported,
}

/// Why code generation was refused; these surface as compile-time
/// diagnostics, never at runtime.
#[derive(Debug, PartialEq, Eq)]
pub enum CodegenError {
    /// No context type was declared at all.
    NoContextTypes,
    /// A `bound = ...` entry whose value is not a string literal; carries
    /// the position of the malformed argument.
    ExpectedStringBound { argument: usize },
    /// An argument that is neither a path nor a `bound = ...` entry;
    /// carries the position of the malformed argument.
    UnsupportedArgument { argument: usize },
    /// A `bound` string that does not parse as a constraint clause; carries
    /// the position of the offending argument, the rejected text and the
    /// parser's description of the failure.
    InvalidBound { argument: usize, clause: String, detail: String },
}

/// The plan of the implementations to emit: one context-oblivious
/// implementation per declared context type, in declaration order, under
/// either the automatically carried-over bounds or, when present, the
/// explicit override.
pub struct ImplPlan {
    pub context_types: Vec<String>,
    pub explicit_bound: Option<String>,
}

/// Whether a constraint text is accepted by the bound parser.
pub uninterp spec fn where_clause_ok(s: Seq<char>) -> bool;

/// Relies on `syn::parse_str::<syn::WhereClause>`: whether constraint text
/// parses is a function of the text alone.  The text is parsed as the body
/// of a constraint clause; on failure the parser's own error description
/// is handed back so it can be surfaced in the diagnostic.
#[verifier::external_body]
fn parse_bound_text(s: &String) -> (r: Result<(), String>)
    ensures
        r is Ok <==> where_clause_ok(s@),
{
    match syn::parse_str::<syn::WhereClause>(&format!("where {}", s)) {
        Ok(_) => Ok(()),
        Err(e) => Err(format!("{}", e)),
    }
}

/// The abstract refusals of the planner, each pinpointing the offending
/// argument's position.
pub enum PlanError {
    NoContextTypes,
    ExpectedStringBound { at: int },
    UnsupportedArgument { at: int },
    InvalidBound { at: int, clause: Seq<char> },
}

/// Whether a concrete refusal reports the abstract one.
pub open spec fn error_matches(pe: PlanError, ce: CodegenError) -> bool {
    match pe {
        PlanError::NoContextTypes => ce is NoContextTypes,
        PlanError::ExpectedStringBound { at } => {
            &&& ce matches CodegenError::ExpectedStringBound { argument }
            &&& argument as int == at
        },
        PlanError::UnsupportedArgument { at } => {
            &&& ce matches CodegenError::UnsupportedArgument { argument }
            &&& argument as int == at
        },
        PlanError::InvalidBound { at, clause } => {
            &&& ce matches CodegenError::InvalidBound { argument, clause: c, detail: _ }
            &&& argument as int == at
            &&& c@ == clause
        },
    }
}

/// The outcome of planning the arguments not yet examined, the first of
/// which stands at position `at` of the whole list, given the context
/// types and override bound gathered so far.  Arguments are examined in
/// order and the first offending one decides the refusal; declaring no
/// context type at all is checked last; a later `bound` entry replaces an
/// earlier one.
pub open spec fn plan_rest(
    args: Seq<AttrArg>,
    at: int,
    ctxs: Seq<Seq<char>>,
    bound: Option<Seq<char>>,
) -> Result<(Seq<Seq<char>>, Option<Seq<char>>), PlanError>
    decreases args.len(),
{
    if args.len() == 0 {
        if ctxs.len() == 0 {
            Err(PlanError::NoContextTypes)
        } else {
            Ok((ctxs, bound))
        }
    } else {
        match args[0] {
            AttrArg::Path(p) => plan_rest(args.skip(1), at + 1, ctxs.push(p@), bound),
            AttrArg::NameValue { name, value } => {
                if name@ == "bound"@ {
                    match value {
                        AttrValue::Str(text) => {
                            if where_clause_ok(text@) {
                                plan_rest(args.skip(1), at + 1, ctxs, Some(text@))
                            } else {
                                Err(PlanError::InvalidBound { at, clause: text@ })
                            }
                        },
                        AttrValue::NotStr => Err(PlanError::ExpectedStringBound { at }),
                    }
                } else {
                    Err(PlanError::UnsupportedArgument { at })
                }
            },
            AttrArg::Unsupported => Err(PlanError::UnsupportedArgument { at }),
        }
    }
}

/// The outcome of planning a whole argument list.
pub open spec fn plan_outcome(args: Seq<AttrArg>) -> Result<
    (Seq<Seq<char>>, Option<Seq<char>>),
    PlanError,
> {
    plan_rest(args, 0, Seq::empty(), None)
}

/// Validate the attribute arguments and plan the implementations to emit.
///
/// Succeeds exactly when every argument is a context-type path or a
/// well-formed `bound` override and at least one context type is declared;
/// the plan then lists the context types in declaration order.  Otherwise
/// the first offending argument decides the diagnostic and is pinpointed
/// by its position, and an unparsable bound carries both the rejected
/// text and the parse failure.
pub fn plan_context_impls(args: Vec<AttrArg>) -> (r: Result<ImplPlan, CodegenError>)
    ensures
        match plan_outcome(args@) {
            Ok(pair) => (r matches Ok(plan) && plan.context_types.deep_view() == pair.0
                && plan.explicit_bound.deep_view() == pair.1),
            Err(pe) => (r matches Err(ce) && error_matches(pe, ce)),
        },
{
    let bound_key: String = "bound".to_owned();
    let mut ctxs: Vec<String> = Vec::new();
    let mut bound: Option<String> = None;
    let mut i: usize = 0;
    proof {
        assert(args@.skip(0) =~= args@);
        assert(ctxs.deep_view() =~= Seq::<Seq<char>>::empty());
    }
    #[verifier::loop_isolation(false)]
    while i < args.len()
        invariant
            0 <= i <= args@.len(),
            plan_outcome(args@) == plan_rest(
                args@.skip(i as int),
                i as int,
                ctxs.deep_view(),
                bound.deep_view(),
            ),
        decreases args@.len() - i,
    {
        let ghost pre_ctxs = ctxs.deep_view();
        let ghost pre_bound = bound.deep_view();
        proof {
            assert(args@.skip(i as int)[0] == args@[i as int]);
            assert(args@.skip(i as int).skip(1) =~= args@.skip(i as int + 1));
        }
        match &args[i] {
            AttrArg::Path(p) => {
                ctxs.push(p.clone());
                proof {
                    assert(ctxs.deep_view() =~= pre_ctxs.push(p@));
                }
            },
            AttrArg::NameValue { name, value } => {
                if *name == bound_key {
                    match value {
                        AttrValue::Str(text) => {
                            match parse_bound_text(text) {
                                Ok(()) => {
                                    bound = Some(text.clone());
                                    proof {
                                        assert(bound.deep_view() == Some(text@));
                                    }
                                },
                                Err(detail) => {
                                    return Err(
                                        CodegenError::InvalidBound {
                                            argument: i,
                                            clause: text.clone(),
                                            detail,
                                        },
                                    );
                                },
                            }
                        },
                        AttrValue::NotStr => {
                            return Err(CodegenError::ExpectedStringBound { argument: i });
                        },
                    }
                } else {
                    return Err(CodegenError::UnsupportedArgument { argument: i });
                }
            },
            AttrArg::Unsupported => {
                return Err(CodegenError::UnsupportedArgument { argument: i });
            },
        }
        i = i + 1;
    }
    proof {
        assert(args@.skip(i as int) =~= Seq::<AttrArg>::empty());
    }
    if ctxs.len() == 0 {
        return Err(CodegenError::NoContextTypes);
    }
    Ok(ImplPlan { context_types: ctxs, explicit_bound: bound })
}

/// Whether the emitted implementations must inject the borrowed-input
/// lifetime the base capability contract requires: only when the annotated
/// type does not already declare a lifetime of that name.
pub fn needs_de_lifetime(lifetimes: &Vec<String>) -> (r: bool)
    ensures
        r == !lifetimes.deep_view().contains("de"@),
{
    let key: String = "de".to_owned();
    let mut i: usize = 0;
    #[verifier::loop_isolation(false)]
    while i < lifetimes.len()
        invariant
            0 <= i <= lifetimes@.len(),
            forall|j: int| 0 <= j < i ==> lifetimes.deep_view()[j] != "de"@,
        decreases lifetimes@.len() - i,
    {
        if lifetimes[i] == key {
            proof {
                assert(lifetimes.deep_view()[i as int] == "de"@);
            }
            return false;
        }
        i = i + 1;
    }
    proof {
        assert(!lifetimes.deep_view().contains("de"@));
    }
    true
}

/// The body every emitted implementation shares, proved once for every
/// type with the unconditional decode capability: accept any context type,
/// ignore the supplied context entirely, and delegate to the type's own
/// context-free decode.  Emitted implementations are purely additive: they
/// never alter the annotated type's own unconditional decode behaviour,
/// which this contract restates verbatim.
pub fn context_deserialize_oblivious<T: PlainDeserialize, C>(d: &mut Decoder, _ctx: C) -> (r:
    Result<T, DecodeError>)
    requires
        old(d).wf(),
    ensures
        final(d).wf(),
        final(d).tokens() == old(d).tokens(),
        old(d).pos() <= final(d).pos(),
        (r matches Ok(v) ==> T::plain_decodes_to(
            old(d).remaining(),
            v,
            final(d).pos() - old(d).pos(),
        )),
        (r matches Err(e) ==> e == T::plain_decode_error(old(d).remaining())),
        r is Ok <==> exists|v: T, n: int| T::plain_decodes_to(old(d).remaining(), v, n),
{
    T::plain_deserialize(d)
}

/// Context-obliviousness law: decoding the same input through emitted
/// implementations — under context values of different types or of no
/// meaningful state at all — stands in the same context-free relation, so
/// both decodes succeed alike and yield equal values consuming equal
/// prefixes.
pub proof fn lemma_oblivious_context_free<T: PlainDeserialize>(
    input: Seq<Token>,
    v1: T,
    n1: int,
    v2: T,
    n2: int,
)
    requires
        T::plain_decodes_to(input, v1, n1),
        T::plain_decodes_to(input, v2, n2),
    ensures
        v1.deep_view() == v2.deep_view(),
        n1 == n2,
{
    T::lemma_plain_deterministic(input, v1, n1, v2, n2);
}

} // verus!
