use context_deserialize::{
    context_deserialize_oblivious, needs_de_lifetime, plan_context_impls, AttrArg, AttrValue,
    CodegenError, Decoder, Token,
};

#[test]
fn test_context_deserialize_derive() {
    type TestContext = ();

    struct Test {
        field: String,
    }

    // One declared context type: the plan emits exactly one implementation.
    let plan = plan_context_impls(vec![AttrArg::Path(String::from("TestContext"))]).unwrap();
    assert_eq!(plan.context_types, vec![String::from("TestContext")]);
    assert!(plan.explicit_bound.is_none());

    // The emitted implementation ignores the context and delegates to the
    // type's own unconditional decode.
    let encoded = vec![Token::Str(String::from("test"))];
    let mut d = Decoder::new(encoded);
    let ctx: TestContext = ();
    let decoded = Test {
        field: context_deserialize_oblivious::<String, TestContext>(&mut d, ctx).unwrap(),
    };
    assert_eq!(decoded.field, "test");
}

#[test]
fn test_context_deserialize_derive_multiple_types() {
    #[allow(dead_code)]
    struct TestContext1(u64);
    #[allow(dead_code)]
    struct TestContext2(String);

    // Two declared context types: one implementation per type, in order.
    let plan = plan_context_impls(vec![
        AttrArg::Path(String::from("TestContext1")),
        AttrArg::Path(String::from("TestContext2")),
    ])
    .unwrap();
    assert_eq!(
        plan.context_types,
        vec![String::from("TestContext1"), String::from("TestContext2")]
    );

    // Decoding the same encoding under either context yields equal values.
    let encoded = vec![Token::Str(String::from("test"))];
    let mut d1 = Decoder::new(encoded.clone());
    let a = context_deserialize_oblivious::<String, TestContext1>(&mut d1, TestContext1(1))
        .unwrap();
    let mut d2 = Decoder::new(encoded);
    let b = context_deserialize_oblivious::<String, TestContext2>(
        &mut d2,
        TestContext2(String::from("2")),
    )
    .unwrap();
    assert_eq!(a, b);
}

#[test]
fn test_context_deserialize_derive_bound() {
    struct TestContext;

    let plan = plan_context_impls(vec![
        AttrArg::Path(String::from("TestContext")),
        AttrArg::NameValue {
            name: String::from("bound"),
            value: AttrValue::Str(String::from(
                "T: Serialize + for<'a> Deserialize<'a> + Debug + PartialEq",
            )),
        },
    ])
    .unwrap();
    assert_eq!(plan.context_types, vec![String::from("TestContext")]);
    assert_eq!(
        plan.explicit_bound,
        Some(String::from("T: Serialize + for<'a> Deserialize<'a> + Debug + PartialEq"))
    );

    let mut d = Decoder::new(vec![Token::U64(42)]);
    let value = context_deserialize_oblivious::<u64, TestContext>(&mut d, TestContext).unwrap();
    assert_eq!(value, 42);
}

#[test]
fn test_plan_requires_a_context_type() {
    match plan_context_impls(vec![]) {
        Ok(_) => panic!("an empty declaration must be refused"),
        Err(e) => assert_eq!(e, CodegenError::NoContextTypes),
    }
}

#[test]
fn test_plan_rejects_non_string_bound() {
    let args = vec![
        AttrArg::Path(String::from("Ctx")),
        AttrArg::NameValue { name: String::from("bound"), value: AttrValue::NotStr },
    ];
    match plan_context_impls(args) {
        Ok(_) => panic!("a non-string bound value must be refused"),
        Err(e) => assert_eq!(e, CodegenError::ExpectedStringBound { argument: 1 }),
    }
}

#[test]
fn test_plan_rejects_unknown_name_value() {
    let args = vec![AttrArg::NameValue {
        name: String::from("bounds"),
        value: AttrValue::Str(String::from("T: Clone")),
    }];
    match plan_context_impls(args) {
        Ok(_) => panic!("only `bound` may be assigned"),
        Err(e) => assert_eq!(e, CodegenError::UnsupportedArgument { argument: 0 }),
    }
}

#[test]
fn test_plan_rejects_unsupported_argument() {
    let args = vec![AttrArg::Path(String::from("Ctx")), AttrArg::Unsupported];
    match plan_context_impls(args) {
        Ok(_) => panic!("a stray literal must be refused"),
        Err(e) => assert_eq!(e, CodegenError::UnsupportedArgument { argument: 1 }),
    }
}

#[test]
fn test_plan_surfaces_bound_parse_error() {
    let args = vec![
        AttrArg::Path(String::from("Ctx")),
        AttrArg::NameValue {
            name: String::from("bound"),
            value: AttrValue::Str(String::from("T +++ nonsense")),
        },
    ];
    match plan_context_impls(args) {
        Ok(_) => panic!("an unparsable bound must be refused"),
        Err(CodegenError::InvalidBound { argument, clause, detail }) => {
            assert_eq!(argument, 1);
            assert_eq!(clause, "T +++ nonsense");
            assert!(!detail.is_empty());
        }
        Err(e) => panic!("wrong diagnostic: {:?}", e),
    }
}

#[test]
fn test_plan_accepts_bound_the_parser_accepts() {
    // The planner really consults the constraint parser: a clause it
    // accepts passes, an overridden earlier clause is replaced.
    let args = vec![
        AttrArg::Path(String::from("Ctx")),
        AttrArg::NameValue {
            name: String::from("bound"),
            value: AttrValue::Str(String::from("T: Clone")),
        },
        AttrArg::NameValue {
            name: String::from("bound"),
            value: AttrValue::Str(String::from("T: Default")),
        },
    ];
    let plan = plan_context_impls(args).unwrap();
    assert_eq!(plan.explicit_bound, Some(String::from("T: Default")));
}

#[test]
fn test_needs_de_lifetime() {
    assert!(needs_de_lifetime(&vec![]));
    assert!(needs_de_lifetime(&vec![String::from("a")]));
    assert!(!needs_de_lifetime(&vec![String::from("a"), String::from("de")]));
}
