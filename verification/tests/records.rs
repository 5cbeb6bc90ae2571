use anno_lua::data::{Class, Field, Span, Type};
use anno_lua::decl::{Argument, Arguments, Body, Declaration, FieldDecl, Ident, Segment, TypeShape};
use anno_lua::docs::collect_docs;
use anno_lua::error::{Error, Report};
use anno_lua::model::anno;
use anno_lua::structs::{collect_fields, parse, try_classify_type, ClassMeta};
use anno_lua::token::{Attribute, Meta, Token};

fn rsp(id: usize) -> Span {
    Span { id }
}

fn rid(name: &str, at: usize) -> Token {
    Token::Ident { name: name.to_string(), span: rsp(at) }
}

fn req(at: usize) -> Token {
    Token::Punct { ch: '=', span: rsp(at) }
}

fn rcomma(at: usize) -> Token {
    Token::Punct { ch: ',', span: rsp(at) }
}

fn rst(value: &str, at: usize) -> Token {
    Token::Str { value: value.to_string(), span: rsp(at) }
}

fn ranno(tokens: Vec<Token>, at: usize) -> Attribute {
    Attribute { span: rsp(at), name: "anno".to_string(), meta: Meta::List(tokens) }
}

fn rdoc(text: &str, at: usize) -> Attribute {
    Attribute { span: rsp(at), name: "doc".to_string(), meta: Meta::NameValue(rst(text, at)) }
}

fn plain(name: &str) -> TypeShape {
    TypeShape::Path {
        leading_colon: false,
        segments: vec![Segment { ident: name.to_string(), arguments: Arguments::Absent }],
    }
}

fn wrap(name: &str, inner: TypeShape) -> TypeShape {
    TypeShape::Path {
        leading_colon: false,
        segments: vec![Segment {
            ident: name.to_string(),
            arguments: Arguments::Angle(vec![Argument::Type(inner)]),
        }],
    }
}

fn named(name: &str, at: usize, attrs: Vec<Attribute>, ty: TypeShape) -> FieldDecl {
    FieldDecl {
        span: rsp(at),
        attrs,
        ident: Some(Ident { name: name.to_string(), span: rsp(at + 1) }),
        ty,
    }
}

fn typed(name: &str, at: usize, lua: &str) -> FieldDecl {
    named(
        name,
        at,
        vec![ranno(vec![rid("lua_type", at + 2), req(at + 3), rst(lua, at + 4)], at + 5)],
        plain("i32"),
    )
}

fn renamed(name: &str, at: usize, lua: &str, to: &str) -> FieldDecl {
    named(
        name,
        at,
        vec![ranno(
            vec![
                rid("lua_type", at + 2),
                req(at + 3),
                rst(lua, at + 4),
                rcomma(at + 5),
                rid("name", at + 6),
                req(at + 7),
                rst(to, at + 8),
            ],
            at + 9,
        )],
        plain("i32"),
    )
}

fn ignored(name: &str, at: usize) -> FieldDecl {
    named(name, at, vec![ranno(vec![rid("ignore", at + 2)], at + 3)], TypeShape::Other)
}

fn record(name: &str, attrs: Vec<Attribute>, fields: Vec<FieldDecl>) -> Declaration {
    Declaration {
        span: rsp(1000),
        attrs,
        ident: Ident { name: name.to_string(), span: rsp(1001) },
        body: Body::Struct(fields),
    }
}

fn field(name: &str, ty: &str, docs: &[&str]) -> Field {
    Field {
        name: name.to_string(),
        ty: ty.to_string(),
        docs: docs.iter().map(|d| d.to_string()).collect(),
    }
}

fn model_record(decl: &Declaration) -> Result<Class, Report> {
    match &decl.body {
        Body::Struct(fields) => parse(decl, fields),
        _ => panic!("not a record"),
    }
}

#[test]
fn record_without_metadata_keeps_its_name() {
    let decl = record("Foo", vec![], vec![]);
    assert_eq!(
        ClassMeta::parse(&decl),
        Ok(ClassMeta { exact: false, guess: false, name: "Foo".to_string() })
    );
    assert_eq!(
        model_record(&decl),
        Ok(Class { exact: false, docs: vec![], name: "Foo".to_string(), fields: vec![] })
    );
}

#[test]
fn record_with_docs_only_keeps_its_name() {
    let decl = record("Foo", vec![rdoc(" Counts stuff", 1)], vec![]);
    assert_eq!(
        model_record(&decl),
        Ok(Class {
            exact: false,
            docs: vec!["Counts stuff".to_string()],
            name: "Foo".to_string(),
            fields: vec![],
        })
    );
}

#[test]
fn record_rename_is_reported_as_name() {
    let decl = record(
        "Foo",
        vec![ranno(vec![rid("name", 1), req(2), rst("Foobar", 3), rcomma(4), rid("exact", 5)], 6)],
        vec![],
    );
    assert_eq!(
        ClassMeta::parse(&decl),
        Ok(ClassMeta { exact: true, guess: false, name: "Foobar".to_string() })
    );
}

#[test]
fn record_flags_without_rename_keep_the_name() {
    let decl = record("Foo", vec![ranno(vec![rid("guess", 1), rcomma(2), rid("exact", 3)], 4)], vec![]);
    assert_eq!(
        ClassMeta::parse(&decl),
        Ok(ClassMeta { exact: true, guess: true, name: "Foo".to_string() })
    );
}

#[test]
fn record_empty_rename_is_rejected() {
    let decl = record("Foo", vec![ranno(vec![rid("name", 1), req(2), rst("  ", 3)], 4)], vec![]);
    assert_eq!(ClassMeta::parse(&decl), Err(Error::EmptyName(rsp(3))));
    assert_eq!(model_record(&decl), Err(Report { findings: vec![Error::EmptyName(rsp(3))] }));
}

#[test]
fn record_second_rename_is_rejected() {
    let decl = record(
        "Foo",
        vec![ranno(
            vec![rid("name", 1), req(2), rst("A", 3), rcomma(4), rid("name", 5), req(6), rst("B", 7)],
            8,
        )],
        vec![],
    );
    assert_eq!(ClassMeta::parse(&decl), Err(Error::DuplicateName(rsp(5))));
}

#[test]
fn record_metadata_must_follow_the_grammar() {
    let decl = record("Foo", vec![ranno(vec![rid("exact", 1), req(2), rst("x", 3)], 4)], vec![]);
    assert_eq!(ClassMeta::parse(&decl), Err(Error::Syntax(rsp(2))));
    let decl = record("Foo", vec![ranno(vec![rid("name", 1)], 4)], vec![]);
    assert_eq!(ClassMeta::parse(&decl), Err(Error::Syntax(rsp(4))));
    let bare = Attribute { span: rsp(9), name: "anno".to_string(), meta: Meta::Path };
    let decl = record("Foo", vec![bare], vec![]);
    assert_eq!(ClassMeta::parse(&decl), Err(Error::Syntax(rsp(9))));
}

#[test]
fn record_unknown_class_key_is_passed_over() {
    let decl = record("Foo", vec![ranno(vec![rid("whatever", 1)], 2)], vec![]);
    assert_eq!(
        ClassMeta::parse(&decl),
        Ok(ClassMeta { exact: false, guess: false, name: "Foo".to_string() })
    );
}

#[test]
fn guess_base_types() {
    assert_eq!(try_classify_type(&plain("String")), Some("string".to_string()));
    assert_eq!(try_classify_type(&plain("bool")), Some("boolean".to_string()));
    assert_eq!(try_classify_type(&plain("f32")), Some("number".to_string()));
    assert_eq!(try_classify_type(&plain("f64")), Some("number".to_string()));
    for name in
        ["i8", "i16", "i32", "i64", "i128", "isize", "u8", "u16", "u32", "u64", "u128", "usize"]
    {
        assert_eq!(try_classify_type(&plain(name)), Some("integer".to_string()));
    }
}

#[test]
fn guess_wrappers_apply_inner_to_outer() {
    assert_eq!(
        try_classify_type(&wrap("Option", wrap("Vec", plain("i32")))),
        Some("integer[]?".to_string())
    );
    assert_eq!(
        try_classify_type(&wrap("Vec", wrap("Option", plain("String")))),
        Some("string?[]".to_string())
    );
    assert_eq!(try_classify_type(&wrap("Option", plain("bool"))), Some("boolean?".to_string()));
    assert_eq!(
        try_classify_type(&wrap("Vec", wrap("Vec", wrap("Option", plain("f64"))))),
        Some("number?[][]".to_string())
    );
}

#[test]
fn guess_wide_integers() {
    assert_eq!(try_classify_type(&plain("u128")), Some("integer".to_string()));
    assert_eq!(try_classify_type(&wrap("Vec", plain("i128"))), Some("integer[]".to_string()));
    let fields = vec![named("big", 10, vec![], plain("u128"))];
    assert_eq!(collect_fields(&fields, true), Ok(vec![field("big", "integer", &[])]));
}

#[test]
fn guess_gives_up_on_other_shapes() {
    assert_eq!(try_classify_type(&TypeShape::Other), None);
    assert_eq!(try_classify_type(&plain("char")), None);
    assert_eq!(try_classify_type(&plain("i256")), None);
    assert_eq!(try_classify_type(&plain("Foo")), None);
    assert_eq!(try_classify_type(&plain("Option")), None);
    assert_eq!(try_classify_type(&wrap("Box", plain("i32"))), None);
    assert_eq!(try_classify_type(&wrap("Option", TypeShape::Other)), None);
    assert_eq!(try_classify_type(&wrap("Option", plain("Foo"))), None);
    let two = TypeShape::Path {
        leading_colon: false,
        segments: vec![Segment {
            ident: "Option".to_string(),
            arguments: Arguments::Angle(vec![
                Argument::Type(plain("i32")),
                Argument::Type(plain("i32")),
            ]),
        }],
    };
    assert_eq!(try_classify_type(&two), None);
    let none = TypeShape::Path {
        leading_colon: false,
        segments: vec![Segment { ident: "Vec".to_string(), arguments: Arguments::Angle(vec![]) }],
    };
    assert_eq!(try_classify_type(&none), None);
    let lifetime = TypeShape::Path {
        leading_colon: false,
        segments: vec![Segment {
            ident: "Vec".to_string(),
            arguments: Arguments::Angle(vec![Argument::Other]),
        }],
    };
    assert_eq!(try_classify_type(&lifetime), None);
    let qualified = TypeShape::Path {
        leading_colon: false,
        segments: vec![
            Segment { ident: "std".to_string(), arguments: Arguments::Absent },
            Segment { ident: "string".to_string(), arguments: Arguments::Absent },
            Segment { ident: "String".to_string(), arguments: Arguments::Absent },
        ],
    };
    assert_eq!(try_classify_type(&qualified), None);
    let rooted = TypeShape::Path {
        leading_colon: true,
        segments: vec![Segment { ident: "String".to_string(), arguments: Arguments::Absent }],
    };
    assert_eq!(try_classify_type(&rooted), None);
    let call = TypeShape::Path {
        leading_colon: false,
        segments: vec![Segment { ident: "Option".to_string(), arguments: Arguments::Parenthesized }],
    };
    assert_eq!(try_classify_type(&call), None);
    let empty = TypeShape::Path { leading_colon: false, segments: vec![] };
    assert_eq!(try_classify_type(&empty), None);
}

#[test]
fn fields_with_types_are_collected_in_order() {
    let fields = vec![typed("count", 10, "integer"), renamed("optional", 20, "string?", "user_name")];
    assert_eq!(
        collect_fields(&fields, false),
        Ok(vec![field("count", "integer", &[]), field("user_name", "string?", &[])])
    );
}

#[test]
fn field_docs_are_collected() {
    let mut decl = typed("count", 10, "integer");
    decl.attrs.insert(0, rdoc(" The foo count", 1));
    decl.attrs.push(rdoc(" second line ", 2));
    assert_eq!(
        collect_fields(&vec![decl], false),
        Ok(vec![field("count", "integer", &["The foo count", "second line"])])
    );
}

#[test]
fn field_without_type_is_an_error_without_guessing() {
    let fields = vec![named("count", 10, vec![], plain("i32"))];
    assert_eq!(
        collect_fields(&fields, false),
        Err(Report { findings: vec![Error::TyRequire(rsp(11))] })
    );
}

#[test]
fn every_field_without_type_is_reported() {
    let fields =
        vec![named("a", 10, vec![], plain("i32")), typed("b", 20, "x"), named("c", 30, vec![], plain("i32"))];
    assert_eq!(
        collect_fields(&fields, false),
        Err(Report { findings: vec![Error::TyRequire(rsp(31)), Error::TyRequire(rsp(11))] })
    );
}

#[test]
fn guessing_resolves_optional_list_of_integer() {
    let fields = vec![named("items", 10, vec![], wrap("Option", wrap("Vec", plain("u8"))))];
    assert_eq!(collect_fields(&fields, true), Ok(vec![field("items", "integer[]?", &[])]));
}

#[test]
fn guessing_falls_back_to_any() {
    let fields = vec![
        named("a", 10, vec![], TypeShape::Other),
        named("b", 20, vec![], plain("HashMap")),
    ];
    assert_eq!(
        collect_fields(&fields, true),
        Ok(vec![field("a", "any", &[]), field("b", "any", &[])])
    );
}

#[test]
fn explicit_type_wins_over_guessing() {
    let fields = vec![typed("count", 10, "number")];
    assert_eq!(collect_fields(&fields, true), Ok(vec![field("count", "number", &[])]));
}

#[test]
fn two_fields_under_one_name_conflict() {
    let fields = vec![typed("count", 10, "integer"), renamed("other", 20, "integer", "count")];
    assert_eq!(
        collect_fields(&fields, false),
        Err(Report { findings: vec![Error::NameConflict { span: rsp(28), previous: rsp(11) }] })
    );
}

#[test]
fn two_renames_to_one_name_conflict() {
    let fields = vec![renamed("a", 10, "integer", "x"), renamed("b", 20, "integer", "x")];
    assert_eq!(
        collect_fields(&fields, false),
        Err(Report { findings: vec![Error::NameConflict { span: rsp(28), previous: rsp(18) }] })
    );
}

#[test]
fn third_conflict_refers_to_the_second() {
    let fields = vec![typed("x", 10, "a"), typed("x", 20, "b"), typed("x", 30, "c")];
    assert_eq!(
        collect_fields(&fields, false),
        Err(Report {
            findings: vec![
                Error::NameConflict { span: rsp(31), previous: rsp(21) },
                Error::NameConflict { span: rsp(21), previous: rsp(11) },
            ],
        })
    );
}

#[test]
fn ignored_fields_never_appear() {
    let fields = vec![ignored("skip", 10), typed("count", 20, "integer"), ignored("also", 30)];
    assert_eq!(collect_fields(&fields, false), Ok(vec![field("count", "integer", &[])]));
}

#[test]
fn ignored_fields_take_no_part_in_uniqueness() {
    let fields = vec![
        ignored("count", 10),
        typed("count", 20, "integer"),
        ignored("count", 30),
    ];
    assert_eq!(collect_fields(&fields, false), Ok(vec![field("count", "integer", &[])]));
    let with = vec![
        typed("a", 10, "x"),
        named(
            "b",
            20,
            vec![ranno(
                vec![rid("ignore", 22), rcomma(23), rid("name", 24), req(25), rst("a", 26)],
                27,
            )],
            plain("i32"),
        ),
    ];
    assert_eq!(collect_fields(&with, false), Ok(vec![field("a", "x", &[])]));
}

#[test]
fn ignored_field_needs_no_type() {
    assert_eq!(collect_fields(&vec![ignored("skip", 10)], false), Ok(vec![]));
}

#[test]
fn unnamed_field_is_rejected_outright() {
    let unnamed = FieldDecl { span: rsp(50), attrs: vec![], ident: None, ty: plain("i32") };
    let fields = vec![named("a", 10, vec![], plain("i32")), unnamed, typed("b", 60, "x")];
    assert_eq!(
        collect_fields(&fields, false),
        Err(Report { findings: vec![Error::UnnamedField(rsp(50))] })
    );
}

#[test]
fn field_metadata_errors_are_merged_last_first() {
    let bad_first = named(
        "a",
        10,
        vec![ranno(
            vec![rid("foo", 12), req(13), rst("x", 14), rcomma(15), rid("name", 16), req(17), rst("", 18)],
            19,
        )],
        plain("i32"),
    );
    let bad_second = named("b", 20, vec![ranno(vec![rid("name", 22)], 23)], plain("i32"));
    let fields = vec![bad_first, typed("c", 30, "x"), bad_second];
    assert_eq!(
        collect_fields(&fields, false),
        Err(Report {
            findings: vec![
                Error::Syntax(rsp(23)),
                Error::EmptyValue(rsp(18)),
                Error::UnknownKey {
                    span: rsp(12),
                    key: "foo".to_string(),
                    supported: vec![
                        "ignore".to_string(),
                        "lua_type".to_string(),
                        "name".to_string(),
                    ],
                },
            ],
        })
    );
}

#[test]
fn record_is_modeled_whole() {
    let decl = record(
        "Foo",
        vec![
            rdoc(" Counts stuff from the user", 1),
            ranno(vec![rid("name", 2), req(3), rst("Foobar", 4), rcomma(5), rid("exact", 6)], 7),
        ],
        vec![
            {
                let mut f = typed("count", 10, "integer");
                f.attrs.insert(0, rdoc(" The foo count", 8));
                f
            },
            ignored("something", 20),
            renamed("optional", 30, "string?", "user_name"),
        ],
    );
    let expected = Class {
        exact: true,
        docs: vec!["Counts stuff from the user".to_string()],
        name: "Foobar".to_string(),
        fields: vec![
            field("count", "integer", &["The foo count"]),
            field("user_name", "string?", &[]),
        ],
    };
    assert_eq!(model_record(&decl), Ok(expected.clone()));
    assert_eq!(anno(&decl), Ok(Type::Class(expected)));
}

#[test]
fn record_guess_flag_reaches_the_fields() {
    let decl = record(
        "Foo",
        vec![ranno(vec![rid("guess", 1)], 2)],
        vec![named("flag", 10, vec![], plain("bool")), named("x", 20, vec![], TypeShape::Other)],
    );
    assert_eq!(
        model_record(&decl),
        Ok(Class {
            exact: false,
            docs: vec![],
            name: "Foo".to_string(),
            fields: vec![field("flag", "boolean", &[]), field("x", "any", &[])],
        })
    );
}

#[test]
fn union_is_not_supported() {
    let decl = Declaration {
        span: rsp(7),
        attrs: vec![],
        ident: Ident { name: "U".to_string(), span: rsp(8) },
        body: Body::Union,
    };
    assert_eq!(anno(&decl), Err(Report { findings: vec![Error::Union(rsp(7))] }));
}

#[test]
fn docs_are_trimmed_and_kept_in_order() {
    let attrs = vec![
        rdoc(" A user name", 1),
        ranno(vec![], 2),
        rdoc("", 3),
        rdoc("   This can be optional  ", 4),
        Attribute { span: rsp(5), name: "doc".to_string(), meta: Meta::Path },
        Attribute {
            span: rsp(6),
            name: "doc".to_string(),
            meta: Meta::NameValue(Token::Int { digits: "1".to_string(), span: rsp(6) }),
        },
        Attribute { span: rsp(7), name: "doc".to_string(), meta: Meta::List(vec![rid("hidden", 7)]) },
        Attribute { span: rsp(8), name: "other".to_string(), meta: Meta::NameValue(rst("x", 8)) },
    ];
    assert_eq!(
        collect_docs(&attrs),
        vec!["A user name".to_string(), String::new(), "This can be optional".to_string()]
    );
    assert_eq!(collect_docs(&vec![]), Vec::<String>::new());
}

#[test]
fn conflict_is_found_among_many_members() {
    let ignored_twin = named(
        "x",
        30,
        vec![ranno(vec![rid("ignore", 32)], 33)],
        plain("i32"),
    );
    let fields = vec![
        typed("a", 10, "integer"),
        typed("x", 20, "string"),
        ignored_twin,
        typed("b", 40, "boolean"),
        renamed("c", 50, "number", "x"),
        typed("d", 60, "any"),
    ];
    assert_eq!(
        collect_fields(&fields, false),
        Err(Report { findings: vec![Error::NameConflict { span: rsp(58), previous: rsp(21) }] })
    );
}

#[test]
fn conflict_stays_in_the_report_with_other_findings() {
    let fields = vec![
        typed("x", 10, "integer"),
        named("untyped", 20, vec![], plain("i32")),
        typed("x", 30, "string"),
        named("late", 40, vec![], plain("i32")),
    ];
    assert_eq!(
        collect_fields(&fields, false),
        Err(Report {
            findings: vec![
                Error::TyRequire(rsp(41)),
                Error::NameConflict { span: rsp(31), previous: rsp(11) },
                Error::TyRequire(rsp(21)),
            ],
        })
    );
}
