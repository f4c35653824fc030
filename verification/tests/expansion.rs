//! The `#[message]` rules on the inputs the attribute sees.

use tracing_wide::catalogue::LevelName;
use tracing_wide::expansion::{
    check_tag_case, expand_message, ArrayElement, AttrBody, AttrPath, Attribute, Expression, FieldInput,
    GenericArg, ItemBody, ItemInput, Literal, MessageDefinition, MessageError, MetaArg,
    NestedMeta, PathArgs, PathSegment, TypeShape,
};

fn ident(name: &str) -> AttrPath {
    AttrPath { ident: Some(name.to_string()) }
}

fn multi_segment() -> AttrPath {
    AttrPath { ident: None }
}

fn lit_str(s: &str) -> Expression {
    Expression::Lit(Literal::Str(s.to_string()))
}

fn kv(key: &str, value: Expression) -> MetaArg {
    MetaArg::NameValue(ident(key), value)
}

fn usize_ty() -> TypeShape {
    TypeShape::Path {
        qualified: false,
        last: Some(PathSegment { ident: "usize".to_string(), args: PathArgs::Bare }),
    }
}

fn option_ty(inner: &str) -> TypeShape {
    TypeShape::Path {
        qualified: false,
        last: Some(PathSegment {
            ident: "Option".to_string(),
            args: PathArgs::AngleBracketed(vec![GenericArg::Type(inner.to_string())]),
        }),
    }
}

fn field(name: &str) -> FieldInput {
    FieldInput { ident: name.to_string(), attrs: vec![], ty: usize_ty() }
}

fn field_with(name: &str, attrs: Vec<Attribute>) -> FieldInput {
    FieldInput { ident: name.to_string(), attrs, ty: usize_ty() }
}

fn doc(line: &str) -> Attribute {
    Attribute { path: ident("doc"), body: AttrBody::NameValue(lit_str(line)) }
}

fn field_attr(pairs: &[(&str, &str)]) -> Attribute {
    Attribute {
        path: ident("field"),
        body: AttrBody::List(
            pairs.iter().map(|(k, v)| NestedMeta::Pair(ident(k), lit_str(v))).collect(),
        ),
    }
}

fn item(name: &str, attrs: Vec<Attribute>, fields: Vec<FieldInput>) -> ItemInput {
    ItemInput {
        name: name.to_string(),
        has_generics: false,
        attrs,
        body: ItemBody::NamedStruct(fields),
    }
}

/// `struct M { a: usize }`
fn plain_m() -> ItemInput {
    item("M", vec![], vec![field("a")])
}

fn expand(args: Vec<MetaArg>, input: ItemInput) -> Result<MessageDefinition, MessageError> {
    expand_message(&Ok(args), &input)
}

fn err_text(args: Vec<MetaArg>, input: ItemInput) -> String {
    expand(args, input).unwrap_err().describe()
}

#[test]
fn message_expansion_pretty_prints() {
    // msg = "hi", level = warn, owner = "x" on
    // /// A demo event.
    // struct Demo { a: usize, #[field(unit = "ms")] b: usize }
    let args = vec![
        kv("msg", lit_str("hi")),
        kv("level", Expression::Path(ident("warn"))),
        kv("owner", lit_str("x")),
    ];
    let input = item(
        "Demo",
        vec![doc(" A demo event.")],
        vec![field("a"), field_with("b", vec![field_attr(&[("unit", "ms")])])],
    );
    let d = expand(args, input).expect("expansion succeeds");

    assert_eq!(d.name, "Demo");
    assert_eq!(d.msg, "hi");
    assert_eq!(d.level, LevelName::WARN);
    assert_eq!(d.meta, vec![("owner".to_string(), "x".to_string())]);
    assert_eq!(d.doc, Some("A demo event.".to_string()));
    assert_eq!(d.fields.len(), 2);
    assert_eq!(d.fields[1].meta, vec![("unit".to_string(), "ms".to_string())]);
}

#[test]
fn message_harvests_deprecation() {
    let deprecated = |body: AttrBody| Attribute { path: ident("deprecated"), body };

    let noted = expand(
        vec![kv("msg", lit_str("m"))],
        item("M", vec![deprecated(AttrBody::NameValue(lit_str("use `n`")))], vec![field("a")]),
    )
    .expect("expansion succeeds");
    assert_eq!(noted.deprecated, Some("use `n`".to_string()));

    let bare = expand(
        vec![kv("msg", lit_str("m"))],
        item("M", vec![deprecated(AttrBody::Word)], vec![field("a")]),
    )
    .expect("expansion succeeds");
    assert_eq!(bare.deprecated, Some("true".to_string()));

    let meta = expand(
        vec![kv("msg", lit_str("m"))],
        item(
            "M",
            vec![deprecated(AttrBody::List(vec![
                NestedMeta::Pair(ident("since"), lit_str("0.2")),
                NestedMeta::Pair(ident("note"), lit_str("gone")),
            ]))],
            vec![field("a")],
        ),
    )
    .expect("expansion succeeds");
    assert_eq!(meta.deprecated, Some("gone".to_string()));

    let on_field = expand(
        vec![kv("msg", lit_str("m"))],
        item(
            "M",
            vec![],
            vec![field_with("a", vec![deprecated(AttrBody::NameValue(lit_str("old")))])],
        ),
    )
    .expect("expansion succeeds");
    assert_eq!(on_field.fields[0].deprecated, Some("old".to_string()));
    assert_eq!(on_field.deprecated, None);

    let plain = expand(vec![kv("msg", lit_str("m"))], plain_m()).expect("expansion succeeds");
    assert_eq!(plain.deprecated, None);
    assert_eq!(plain.fields[0].deprecated, None);
}

#[test]
fn message_rejects_non_literal_meta() {
    let text = err_text(vec![kv("owner", Expression::Path(ident("some_path")))], plain_m());
    assert!(text.contains("must be literals"));
}

#[test]
fn message_rejects_bare_flag() {
    let text = err_text(vec![MetaArg::Flag(ident("serialize"))], plain_m());
    assert!(text.contains("takes no bare flags"));
}

#[test]
fn message_rejects_non_struct() {
    let input = ItemInput {
        name: "E".to_string(),
        has_generics: false,
        attrs: vec![],
        body: ItemBody::NotStruct,
    };
    assert!(err_text(vec![], input).contains("can only be applied to structs"));
}

#[test]
fn message_rejects_unnamed_fields() {
    let input = ItemInput {
        name: "T".to_string(),
        has_generics: false,
        attrs: vec![],
        body: ItemBody::UnnamedStruct,
    };
    assert!(err_text(vec![], input).contains("requires named fields"));
}

#[test]
fn message_rejects_meta_list() {
    let text = err_text(vec![MetaArg::List(ident("owner"))], plain_m());
    assert!(text.contains("not a list"));
}

#[test]
fn message_rejects_duplicate_meta_key() {
    let text = err_text(vec![kv("owner", lit_str("a")), kv("owner", lit_str("b"))], plain_m());
    assert!(text.contains("duplicate metadata key `owner`"));

    let input = item(
        "M",
        vec![],
        vec![field_with("a", vec![field_attr(&[("unit", "ms"), ("unit", "s")])])],
    );
    assert!(err_text(vec![], input).contains("duplicate metadata key `unit`"));
}

#[test]
fn message_rejects_field_named_message() {
    let text = err_text(vec![], item("M", vec![], vec![field("message")]));
    assert!(text.contains("must not be named `message`"));
}

#[test]
fn message_rejects_generic_params() {
    // struct M<T>, struct M<'a>, struct M<const N: usize>: all have generic parameters.
    for _ in 0..3 {
        let mut input = plain_m();
        input.has_generics = true;
        assert!(err_text(vec![], input).contains("generic parameters"));
    }
}

#[test]
fn message_escapes_braces_in_recorded_msg() {
    let d = expand(vec![kv("msg", lit_str("rate {limit} hit"))], plain_m())
        .expect("expansion succeeds");
    assert_eq!(d.msg, "rate {limit} hit");
    assert_eq!(d.msg_record, "rate {{limit}} hit");
}

#[test]
fn message_rejects_non_ident_meta_key() {
    let text = err_text(
        vec![MetaArg::NameValue(multi_segment(), Expression::Lit(Literal::Int("1".to_string())))],
        plain_m(),
    );
    assert!(text.contains("must be identifiers"));
}

#[test]
fn message_rejects_non_string_msg() {
    let text = err_text(vec![kv("msg", Expression::Lit(Literal::Int("5".to_string())))], plain_m());
    assert!(text.contains("must be a string literal"));
}

#[test]
fn message_rejects_unknown_level() {
    let text = err_text(vec![kv("level", Expression::Path(ident("bogus")))], plain_m());
    assert!(text.contains("unknown level"));
}

#[test]
fn message_sorts_and_dedups_tags() {
    let tags = Expression::Array(vec![
        ArrayElement::Lit(Literal::Str("b".to_string())),
        ArrayElement::Lit(Literal::Str("a".to_string())),
        ArrayElement::Lit(Literal::Str("a".to_string())),
    ]);
    let d = expand(vec![kv("msg", lit_str("m")), kv("tags", tags)], item("M", vec![], vec![field("x")]))
        .expect("expansion succeeds");
    assert_eq!(d.tags, vec!["a".to_string(), "b".to_string()]);
}

#[test]
fn message_rejects_non_lowercase_tag() {
    let tags = Expression::Array(vec![ArrayElement::Lit(Literal::Str("Security".to_string()))]);
    let text = err_text(vec![kv("tags", tags)], plain_m());
    assert!(text.contains("lowercase"), "{text}");
    assert!(text.contains("security"), "{text}");
}

#[test]
fn message_rejects_empty_tag() {
    let tags = Expression::Array(vec![ArrayElement::Lit(Literal::Str(String::new()))]);
    assert!(err_text(vec![kv("tags", tags)], plain_m()).contains("must not be empty"));
}

#[test]
fn message_rejects_non_string_tag() {
    let tags = Expression::Array(vec![ArrayElement::Lit(Literal::Int("1".to_string()))]);
    assert!(err_text(vec![kv("tags", tags)], plain_m()).contains("string literal"));
}

#[test]
fn message_rejects_non_array_tags() {
    let text = err_text(vec![kv("tags", lit_str("security"))], plain_m());
    assert!(text.contains("array of string literals"));
}

#[test]
fn message_defaults_msg_to_struct_name_and_level_to_info() {
    let d = expand(vec![], item("Renamed", vec![], vec![field("x")])).unwrap();
    assert_eq!(d.msg, "Renamed");
    assert_eq!(d.level, LevelName::INFO);
    assert!(d.tags.is_empty());
    assert!(d.meta.is_empty());
}

#[test]
fn message_level_accepts_every_name_and_string_form() {
    let cases = [
        ("trace", LevelName::TRACE),
        ("debug", LevelName::DEBUG),
        ("info", LevelName::INFO),
        ("warn", LevelName::WARN),
        ("error", LevelName::ERROR),
    ];
    for (name, level) in cases {
        let by_path = expand(vec![kv("level", Expression::Path(ident(name)))], plain_m()).unwrap();
        assert_eq!(by_path.level, level);
        let by_string = expand(vec![kv("level", lit_str(name))], plain_m()).unwrap();
        assert_eq!(by_string.level, level);
    }
    let upper = expand(vec![kv("level", lit_str("WARN"))], plain_m()).unwrap_err();
    assert_eq!(upper, MessageError::UnknownLevel("WARN".to_string()));
    assert_eq!(
        upper.describe(),
        "unknown level `WARN` (expected trace/debug/info/warn/error)"
    );
    let odd = expand(vec![kv("level", Expression::Lit(Literal::Int("3".to_string())))], plain_m());
    assert_eq!(odd.unwrap_err(), MessageError::LevelNotName);
}

#[test]
fn message_meta_values_are_stringified_literals() {
    let d = expand(
        vec![
            kv("owner", lit_str("platform")),
            kv("retries", Expression::Lit(Literal::Int("3".to_string()))),
            kv("ratio", Expression::Lit(Literal::Float("0.5".to_string()))),
            kv("public", Expression::Lit(Literal::Bool(true))),
            kv("internal", Expression::Lit(Literal::Bool(false))),
        ],
        plain_m(),
    )
    .unwrap();
    let pairs: Vec<(&str, &str)> = d.meta.iter().map(|(k, v)| (k.as_str(), v.as_str())).collect();
    assert_eq!(
        pairs,
        [
            ("owner", "platform"),
            ("retries", "3"),
            ("ratio", "0.5"),
            ("public", "true"),
            ("internal", "false"),
        ]
    );
    let err = expand(vec![kv("owner", Expression::Lit(Literal::Other))], plain_m()).unwrap_err();
    assert_eq!(err, MessageError::MetaValueNotLiteral);
}

#[test]
fn message_first_error_wins() {
    // Generics are checked before the arguments.
    let mut generic = plain_m();
    generic.has_generics = true;
    assert_eq!(
        expand(vec![MetaArg::Flag(ident("x"))], generic).unwrap_err(),
        MessageError::GenericParams
    );
    // Arguments left to right.
    assert_eq!(
        expand(vec![MetaArg::List(ident("a")), MetaArg::Flag(ident("b"))], plain_m()).unwrap_err(),
        MessageError::MetaList
    );
    // An unknown level is reported before a bad field.
    assert_eq!(
        expand(
            vec![kv("level", Expression::Path(ident("loud")))],
            item("M", vec![], vec![field("message")])
        )
        .unwrap_err(),
        MessageError::UnknownLevel("loud".to_string())
    );
    // An argument list that did not parse.
    let err = expand_message(&Err("expected `,`".to_string()), &plain_m()).unwrap_err();
    assert_eq!(err.describe(), "expected `,`");
}

#[test]
fn message_docs_join_trimmed_lines() {
    let d = expand(
        vec![],
        item(
            "M",
            vec![doc(" First line.  "), doc(" Second line."), Attribute {
                path: ident("allow"),
                body: AttrBody::List(vec![]),
            }],
            vec![field_with("a", vec![doc(" Logical name of the service.")])],
        ),
    )
    .unwrap();
    assert_eq!(d.doc, Some("First line.\nSecond line.".to_string()));
    assert_eq!(d.fields[0].doc, Some("Logical name of the service.".to_string()));
}

#[test]
fn message_marks_option_fields_for_the_ambient_join() {
    let fields = vec![
        FieldInput { ident: "attempt".to_string(), attrs: vec![], ty: option_ty("usize") },
        FieldInput { ident: "component".to_string(), attrs: vec![], ty: option_ty("String") },
        field("payload"),
        FieldInput {
            ident: "qualified".to_string(),
            attrs: vec![],
            ty: TypeShape::Path {
                qualified: true,
                last: Some(PathSegment {
                    ident: "Option".to_string(),
                    args: PathArgs::AngleBracketed(vec![GenericArg::Type("u8".to_string())]),
                }),
            },
        },
        FieldInput { ident: "tuple".to_string(), attrs: vec![], ty: TypeShape::Other },
    ];
    let d = expand(vec![], item("Joined", vec![], fields)).unwrap();
    let ambient: Vec<Option<&str>> = d.fields.iter().map(|f| f.ambient.as_deref()).collect();
    assert_eq!(ambient, [Some("usize"), Some("String"), None, None, None]);
}

#[test]
fn message_field_attribute_forms() {
    let word = Attribute { path: ident("field"), body: AttrBody::Word };
    assert_eq!(
        err_text(vec![], item("M", vec![], vec![field_with("a", vec![word])])),
        "expected attribute arguments in parentheses: #[field(...)]"
    );
    let malformed = Attribute {
        path: ident("field"),
        body: AttrBody::List(vec![
            NestedMeta::Pair(ident("unit"), lit_str("ms")),
            NestedMeta::Malformed("expected `=`".to_string()),
        ]),
    };
    assert_eq!(
        expand(vec![], item("M", vec![], vec![field_with("a", vec![malformed])])).unwrap_err(),
        MessageError::Syntax("expected `=`".to_string())
    );
}

#[test]
fn tag_case_check_takes_the_lowercase_form() {
    assert!(check_tag_case("security", "security".to_string()).is_ok());
    let err = check_tag_case("Security", "security".to_string()).unwrap_err();
    assert!(matches!(&err, MessageError::TagNotLowercase(l) if l == "security"));
    assert!(err.describe().contains("`security`"), "{}", err.describe());
    let err = check_tag_case("ÉTÉ", "été".to_string()).unwrap_err();
    assert!(matches!(&err, MessageError::TagNotLowercase(l) if l == "été"));
}
