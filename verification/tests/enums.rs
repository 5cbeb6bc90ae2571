use anno_lua::attrs::Attr;
use anno_lua::data::{Discriminant, Enum, Span, Type, Variant};
use anno_lua::decl::{Body, Declaration, Expr, Ident, VariantDecl};
use anno_lua::enums::{
    collect_variants, eval_expr, evaluate, make_variant_mapping, parse, EnumMeta,
};
use anno_lua::error::{Error, Report};
use anno_lua::model::anno;
use anno_lua::token::{literal_token, Attribute, Meta, Token};

fn esp(id: usize) -> Span {
    Span { id }
}

fn eid(name: &str, at: usize) -> Token {
    Token::Ident { name: name.to_string(), span: esp(at) }
}

fn eeq(at: usize) -> Token {
    Token::Punct { ch: '=', span: esp(at) }
}

fn ecomma(at: usize) -> Token {
    Token::Punct { ch: ',', span: esp(at) }
}

fn est(value: &str, at: usize) -> Token {
    Token::Str { value: value.to_string(), span: esp(at) }
}

fn eanno(tokens: Vec<Token>, at: usize) -> Attribute {
    Attribute { span: esp(at), name: "anno".to_string(), meta: Meta::List(tokens) }
}

fn edoc(text: &str, at: usize) -> Attribute {
    Attribute { span: esp(at), name: "doc".to_string(), meta: Meta::NameValue(est(text, at)) }
}

fn unit(name: &str, at: usize) -> VariantDecl {
    VariantDecl {
        span: esp(at),
        attrs: vec![],
        ident: Ident { name: name.to_string(), span: esp(at + 1) },
        unit: true,
        discriminant: None,
    }
}

fn valued(name: &str, at: usize, expr: Expr) -> VariantDecl {
    VariantDecl { discriminant: Some(expr), ..unit(name, at) }
}

fn renamed_to(name: &str, at: usize, to: &str) -> VariantDecl {
    VariantDecl {
        attrs: vec![eanno(vec![eid("name", at + 2), eeq(at + 3), est(to, at + 4)], at + 5)],
        ..unit(name, at)
    }
}

fn lit(text: &str, at: usize) -> Expr {
    Expr::Lit(literal_token(text, esp(at)))
}

fn neg(inner: Expr, at: usize) -> Expr {
    Expr::Neg { span: esp(at), operand: Box::new(inner) }
}

fn numbered(variant: &str, at: usize, name: &str, n: isize) -> Variant {
    Variant {
        span: esp(at),
        variant: variant.to_string(),
        name: name.to_string(),
        discriminant: Discriminant::Number(n),
        docs: vec![],
    }
}

fn called(variant: &str, at: usize, name: &str, value: &str) -> Variant {
    Variant {
        span: esp(at),
        variant: variant.to_string(),
        name: name.to_string(),
        discriminant: Discriminant::Named(value.to_string()),
        docs: vec![],
    }
}

fn enumeration(name: &str, attrs: Vec<Attribute>, variants: Vec<VariantDecl>) -> Declaration {
    Declaration {
        span: esp(1000),
        attrs,
        ident: Ident { name: name.to_string(), span: esp(1001) },
        body: Body::Enum(variants),
    }
}

fn model_enum(decl: &Declaration) -> Result<Enum, Report> {
    match &decl.body {
        Body::Enum(variants) => parse(decl, variants),
        _ => panic!("not an enumeration"),
    }
}

fn one(error: Error) -> Report {
    Report { findings: vec![error] }
}

#[test]
fn members_are_numbered_from_zero() {
    let variants = vec![unit("A", 10), unit("B", 20), unit("C", 30)];
    assert_eq!(
        collect_variants(&variants, "E", false),
        Ok(vec![numbered("A", 10, "A", 0), numbered("B", 20, "B", 1), numbered("C", 30, "C", 2)])
    );
}

#[test]
fn explicit_discriminant_does_not_move_the_counter() {
    let variants = vec![unit("A", 10), valued("B", 20, lit("10", 25)), unit("C", 30)];
    assert_eq!(
        collect_variants(&variants, "E", false),
        Ok(vec![numbered("A", 10, "A", 0), numbered("B", 20, "B", 10), numbered("C", 30, "C", 2)])
    );
}

#[test]
fn two_members_may_share_a_number() {
    let variants = vec![unit("A", 10), valued("B", 20, lit("2", 25)), unit("C", 30)];
    assert_eq!(
        collect_variants(&variants, "E", false),
        Ok(vec![numbered("A", 10, "A", 0), numbered("B", 20, "B", 2), numbered("C", 30, "C", 2)])
    );
}

#[test]
fn negative_discriminant_is_read() {
    let variants = vec![valued("A", 10, neg(lit("5", 16), 15)), unit("B", 20)];
    assert_eq!(
        collect_variants(&variants, "E", false),
        Ok(vec![numbered("A", 10, "A", -5), numbered("B", 20, "B", 1)])
    );
}

#[test]
fn discriminant_in_another_base_is_read() {
    assert_eq!(evaluate(&lit("0x1F", 1)), Ok(31));
    assert_eq!(evaluate(&lit("1_000", 1)), Ok(1000));
    assert_eq!(evaluate(&neg(lit("0", 2), 1)), Ok(0));
    assert_eq!(evaluate(&lit("9223372036854775807", 1)), Ok(isize::MAX));
}

#[test]
fn discriminant_must_be_a_number() {
    assert_eq!(evaluate(&Expr::Other(esp(3))), Err(Error::ExpectedNumber(esp(3))));
    assert_eq!(evaluate(&lit("\"x\"", 4)), Err(Error::ExpectedNumber(esp(4))));
    assert_eq!(evaluate(&lit("1.5", 4)), Err(Error::ExpectedNumber(esp(4))));
    assert_eq!(evaluate(&neg(Expr::Other(esp(6)), 5)), Err(Error::ExpectedNumber(esp(6))));
    assert_eq!(
        evaluate(&neg(neg(lit("1", 9), 8), 7)),
        Err(Error::ExpectedNumber(esp(8)))
    );
    assert_eq!(evaluate(&neg(lit("\"x\"", 6), 5)), Err(Error::ExpectedNumber(esp(6))));
}

#[test]
fn discriminant_must_fit() {
    assert_eq!(
        evaluate(&lit("99999999999999999999999", 4)),
        Err(Error::NumberTooLarge(esp(4)))
    );
    assert_eq!(
        evaluate(&neg(lit("9223372036854775808", 6), 5)),
        Err(Error::NumberTooLarge(esp(6)))
    );
}

#[test]
fn eval_expr_collects_the_error() {
    let mut errors = vec![one(Error::Union(esp(1)))];
    assert_eq!(eval_expr(&lit("7", 2), &mut errors), Some(7));
    assert_eq!(errors, vec![one(Error::Union(esp(1)))]);
    assert_eq!(eval_expr(&Expr::Other(esp(3)), &mut errors), None);
    assert_eq!(errors, vec![one(Error::Union(esp(1))), one(Error::ExpectedNumber(esp(3)))]);
}

#[test]
fn failed_discriminant_leaves_the_counter() {
    let variants = vec![unit("A", 10), valued("B", 20, Expr::Other(esp(25))), unit("C", 30)];
    assert_eq!(
        collect_variants(&variants, "E", false),
        Err(one(Error::ExpectedNumber(esp(25))))
    );
}

#[test]
fn self_mode_names_every_member_after_the_enum() {
    let variants = vec![unit("Up", 10), unit("Down", 20), unit("Left", 30)];
    assert_eq!(
        collect_variants(&variants, "Dir", true),
        Ok(vec![
            called("Up", 10, "Up", "Dir"),
            called("Down", 20, "Down", "Dir"),
            called("Left", 30, "Left", "Dir"),
        ])
    );
}

#[test]
fn self_mode_rejects_explicit_discriminants() {
    let variants = vec![unit("Up", 10), valued("Down", 20, lit("1", 25)), unit("Left", 30)];
    assert_eq!(
        collect_variants(&variants, "Dir", true),
        Err(one(Error::SelfDiscriminant(esp(20))))
    );
}

#[test]
fn members_with_data_are_rejected() {
    let tuple = VariantDecl { unit: false, ..unit("Pair", 20) };
    let variants = vec![unit("A", 10), tuple, unit("C", 30)];
    assert_eq!(
        collect_variants(&variants, "E", false),
        Err(one(Error::OnlyUnitVariants(esp(20))))
    );
    let tuple = VariantDecl { unit: false, ..unit("Pair", 20) };
    assert_eq!(
        collect_variants(&vec![tuple], "E", true),
        Err(one(Error::OnlyUnitVariants(esp(20))))
    );
}

#[test]
fn member_rename_is_reported_as_name() {
    let variants = vec![unit("Up", 10), renamed_to("Forward", 20, "right")];
    assert_eq!(
        collect_variants(&variants, "Dir", false),
        Ok(vec![numbered("Up", 10, "Up", 0), numbered("Forward", 20, "right", 1)])
    );
}

#[test]
fn member_empty_rename_is_rejected() {
    let variants = vec![renamed_to("Forward", 20, " ")];
    assert_eq!(collect_variants(&variants, "Dir", false), Err(one(Error::EmptyValue(esp(24)))));
}

#[test]
fn member_metadata_accepts_only_name() {
    let bad = VariantDecl {
        attrs: vec![eanno(vec![eid("ignore", 12)], 13)],
        ..unit("A", 10)
    };
    let result = collect_variants(&vec![bad], "E", false).unwrap_err();
    assert_eq!(
        result.findings,
        vec![Error::Syntax(esp(13))]
    );
    let bad = VariantDecl {
        attrs: vec![eanno(vec![eid("lua_type", 12), eeq(13), est("x", 14)], 15)],
        ..unit("A", 10)
    };
    assert_eq!(
        collect_variants(&vec![bad], "E", false),
        Err(one(Error::UnknownKey {
            span: esp(12),
            key: "lua_type".to_string(),
            supported: vec!["name".to_string()],
        }))
    );
}

#[test]
fn two_members_under_one_name_conflict() {
    let variants = vec![unit("right", 10), renamed_to("Forward", 20, "right")];
    assert_eq!(
        collect_variants(&variants, "Dir", false),
        Err(one(Error::NameConflict { span: esp(24), previous: esp(11) }))
    );
}

#[test]
fn member_errors_are_merged_last_first() {
    let tuple = VariantDecl { unit: false, ..unit("Pair", 10) };
    let variants = vec![
        tuple,
        valued("B", 20, Expr::Other(esp(25))),
        unit("C", 30),
        unit("C", 40),
    ];
    assert_eq!(
        collect_variants(&variants, "E", false),
        Err(Report {
            findings: vec![
                Error::NameConflict { span: esp(41), previous: esp(31) },
                Error::ExpectedNumber(esp(25)),
                Error::OnlyUnitVariants(esp(10)),
            ],
        })
    );
}

#[test]
fn member_docs_are_collected() {
    let documented = VariantDecl { attrs: vec![edoc(" Go up", 5)], ..unit("Up", 10) };
    let mut expected = numbered("Up", 10, "Up", 0);
    expected.docs = vec!["Go up".to_string()];
    assert_eq!(collect_variants(&vec![documented], "Dir", false), Ok(vec![expected]));
}

#[test]
fn enum_without_metadata_keeps_its_name() {
    let decl = enumeration("Direction", vec![], vec![]);
    assert_eq!(
        EnumMeta::parse(&decl),
        Ok(EnumMeta { use_self: false, name: "Direction".to_string(), alias: None })
    );
}

#[test]
fn enum_rename_and_self() {
    let decl = enumeration(
        "Direction",
        vec![eanno(vec![eid("name", 1), eeq(2), est("Dir", 3), ecomma(4), eid("self", 5)], 6)],
        vec![],
    );
    assert_eq!(
        EnumMeta::parse(&decl),
        Ok(EnumMeta { use_self: true, name: "Dir".to_string(), alias: None })
    );
}

#[test]
fn enum_empty_rename_is_rejected() {
    let decl = enumeration("D", vec![eanno(vec![eid("name", 1), eeq(2), est("", 3)], 6)], vec![]);
    assert_eq!(EnumMeta::parse(&decl), Err(Error::EmptyName(esp(3))));
    assert_eq!(model_enum(&decl), Err(one(Error::EmptyName(esp(3)))));
}

#[test]
fn enum_second_rename_is_rejected() {
    let decl = enumeration(
        "D",
        vec![eanno(
            vec![eid("name", 1), eeq(2), est("A", 3), ecomma(4), eid("name", 5), eeq(6), est("B", 7)],
            8,
        )],
        vec![],
    );
    assert_eq!(EnumMeta::parse(&decl), Err(Error::DuplicateName(esp(5))));
}

#[test]
fn enum_alias_is_read() {
    let decl = enumeration("D", vec![eanno(vec![eid("alias", 1), eeq(2), est("Other", 3)], 6)], vec![]);
    assert_eq!(
        EnumMeta::parse(&decl),
        Ok(EnumMeta {
            use_self: false,
            name: "D".to_string(),
            alias: Some(Attr { key: esp(1), value: esp(3), data: "Other".to_string() }),
        })
    );
}

#[test]
fn enum_self_and_alias_exclude_each_other() {
    let decl = enumeration(
        "D",
        vec![eanno(vec![eid("self", 1), ecomma(2), eid("alias", 3), eeq(4), est("O", 5)], 6)],
        vec![unit("A", 10)],
    );
    assert_eq!(EnumMeta::parse(&decl), Err(Error::SelfAndAlias(esp(3))));
    assert_eq!(model_enum(&decl), Err(one(Error::SelfAndAlias(esp(3)))));
    let decl = enumeration(
        "D",
        vec![eanno(vec![eid("alias", 1), eeq(2), est("O", 3), ecomma(4), eid("self", 5)], 6)],
        vec![unit("A", 10)],
    );
    assert_eq!(EnumMeta::parse(&decl), Err(Error::SelfAndAlias(esp(5))));
}

#[test]
fn enum_alias_must_be_given_once_and_not_blank() {
    let decl = enumeration(
        "D",
        vec![eanno(
            vec![eid("alias", 1), eeq(2), est("A", 3), ecomma(4), eid("alias", 5), eeq(6), est("B", 7)],
            8,
        )],
        vec![],
    );
    assert_eq!(
        EnumMeta::parse(&decl),
        Err(Error::DuplicateKey { span: esp(5), previous: esp(1) })
    );
    let decl = enumeration("D", vec![eanno(vec![eid("alias", 1), eeq(2), est(" ", 3)], 8)], vec![]);
    assert_eq!(EnumMeta::parse(&decl), Err(Error::EmptyValue(esp(3))));
}

#[test]
fn enum_metadata_must_follow_the_grammar() {
    let decl = enumeration("D", vec![eanno(vec![eid("self", 1), eeq(2), est("x", 3)], 4)], vec![]);
    assert_eq!(EnumMeta::parse(&decl), Err(Error::Syntax(esp(2))));
    let decl = enumeration("D", vec![eanno(vec![eid("alias", 1)], 4)], vec![]);
    assert_eq!(EnumMeta::parse(&decl), Err(Error::Syntax(esp(4))));
}

#[test]
fn enum_is_modeled_whole() {
    let decl = enumeration(
        "Direction",
        vec![
            edoc(" Some cardinal directions", 1),
            eanno(vec![eid("name", 2), eeq(3), est("Dir", 4), ecomma(5), eid("self", 6)], 7),
        ],
        vec![
            unit("Up", 10),
            unit("Down", 20),
            renamed_to("Forward", 30, "right"),
            renamed_to("Back", 40, "left"),
        ],
    );
    let expected = Enum {
        docs: vec!["Some cardinal directions".to_string()],
        name: "Dir".to_string(),
        variants: vec![
            called("Up", 10, "Up", "Dir"),
            called("Down", 20, "Down", "Dir"),
            called("Forward", 30, "right", "Dir"),
            called("Back", 40, "left", "Dir"),
        ],
    };
    assert_eq!(model_enum(&decl), Ok(expected.clone()));
    assert_eq!(anno(&decl), Ok(Type::Enum(expected)));
}

#[test]
fn enum_alias_names_every_member() {
    let decl = enumeration(
        "Direction",
        vec![eanno(vec![eid("alias", 2), eeq(3), est("Heading", 4)], 7)],
        vec![unit("Up", 10), unit("Down", 20)],
    );
    assert_eq!(
        model_enum(&decl),
        Ok(Enum {
            docs: vec![],
            name: "Direction".to_string(),
            variants: vec![called("Up", 10, "Up", "Heading"), called("Down", 20, "Down", "Heading")],
        })
    );
}

#[test]
fn enum_alias_rejects_explicit_discriminants() {
    let decl = enumeration(
        "Direction",
        vec![eanno(vec![eid("alias", 2), eeq(3), est("Heading", 4)], 7)],
        vec![valued("Up", 10, lit("1", 15))],
    );
    assert_eq!(model_enum(&decl), Err(one(Error::SelfDiscriminant(esp(10)))));
}

#[test]
fn variant_mapping_pairs_names_with_members() {
    let variants = vec![numbered("Up", 10, "Up", 0), numbered("Forward", 20, "right", 1)];
    assert_eq!(
        make_variant_mapping(&variants),
        vec![
            ("Up".to_string(), "Up".to_string()),
            ("right".to_string(), "Forward".to_string()),
        ]
    );
    assert_eq!(make_variant_mapping(&vec![]), Vec::<(String, String)>::new());
}

#[test]
fn negative_literal_is_a_number() {
    assert_eq!(evaluate(&lit("-5", 1)), Ok(-5));
    assert_eq!(evaluate(&neg(lit("-5", 2), 1)), Ok(5));
    assert_eq!(evaluate(&lit(&isize::MIN.to_string(), 1)), Ok(isize::MIN));
    assert_eq!(
        evaluate(&neg(lit(&isize::MIN.to_string(), 2), 1)),
        Err(Error::NumberTooLarge(esp(2)))
    );
    assert_eq!(evaluate(&neg(lit(&isize::MAX.to_string(), 2), 1)), Ok(-isize::MAX));
}

#[test]
fn member_conflict_is_found_among_many_members() {
    let variants = vec![
        unit("A", 10),
        unit("x", 20),
        valued("B", 30, lit("7", 35)),
        renamed_to("C", 40, "x"),
        unit("D", 50),
    ];
    assert_eq!(
        collect_variants(&variants, "E", false),
        Err(one(Error::NameConflict { span: esp(44), previous: esp(21) }))
    );
    let bare = vec![unit("A", 10), unit("x", 20), renamed_to("C", 40, "x")];
    assert_eq!(
        collect_variants(&bare, "E", true),
        Err(one(Error::NameConflict { span: esp(44), previous: esp(21) }))
    );
}
