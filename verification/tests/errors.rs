use anno_lua::data::Span;
use anno_lua::error::{combine, Error, Report};

fn at(id: usize) -> Span {
    Span { id }
}

#[test]
fn nothing_collected_is_no_error() {
    assert_eq!(combine(vec![]), None);
}

#[test]
fn one_report_stays_as_it_is() {
    let report = Report { findings: vec![Error::Union(at(1)), Error::EmptyName(at(2))] };
    assert_eq!(combine(vec![report.clone()]), Some(report));
}

#[test]
fn last_collected_becomes_primary() {
    let merged = combine(vec![
        Report::single(Error::TyRequire(at(1))),
        Report::single(Error::UnnamedField(at(2))),
        Report::single(Error::EmptyName(at(3))),
    ]);
    assert_eq!(
        merged,
        Some(Report {
            findings: vec![
                Error::EmptyName(at(3)),
                Error::UnnamedField(at(2)),
                Error::TyRequire(at(1)),
            ],
        })
    );
}

#[test]
fn findings_of_one_report_keep_their_order() {
    let first = Report { findings: vec![Error::Syntax(at(1)), Error::Syntax(at(2))] };
    let second = Report { findings: vec![Error::Syntax(at(3)), Error::Syntax(at(4))] };
    assert_eq!(
        combine(vec![first, second]),
        Some(Report {
            findings: vec![
                Error::Syntax(at(3)),
                Error::Syntax(at(4)),
                Error::Syntax(at(1)),
                Error::Syntax(at(2)),
            ],
        })
    );
}

#[test]
fn five_problems_give_five_findings() {
    let reports: Vec<Report> = (0..5).map(|i| Report::single(Error::TyRequire(at(i)))).collect();
    let merged = combine(reports).unwrap();
    assert_eq!(merged.findings.len(), 5);
    assert_eq!(merged.findings[0], Error::TyRequire(at(4)));
    assert_eq!(merged.findings[4], Error::TyRequire(at(0)));
}

#[test]
fn single_holds_one_finding() {
    assert_eq!(
        Report::single(Error::Union(at(9))),
        Report { findings: vec![Error::Union(at(9))] }
    );
}

#[test]
fn findings_know_their_places() {
    assert_eq!(Error::Syntax(at(1)).span(), at(1));
    assert_eq!(Error::Syntax(at(1)).related(), None);
    let conflict = Error::NameConflict { span: at(2), previous: at(3) };
    assert_eq!(conflict.span(), at(2));
    assert_eq!(conflict.related(), Some(at(3)));
    let duplicate = Error::DuplicateKey { span: at(4), previous: at(5) };
    assert_eq!(duplicate.span(), at(4));
    assert_eq!(duplicate.related(), Some(at(5)));
    let unknown = Error::UnknownKey { span: at(6), key: "k".to_string(), supported: vec![] };
    assert_eq!(unknown.span(), at(6));
    assert_eq!(unknown.related(), None);
    for (error, place) in [
        (Error::EmptyValue(at(7)), at(7)),
        (Error::Union(at(8)), at(8)),
        (Error::UnnamedField(at(9)), at(9)),
        (Error::TyRequire(at(10)), at(10)),
        (Error::SelfDiscriminant(at(11)), at(11)),
        (Error::SelfAndAlias(at(12)), at(12)),
        (Error::ExpectedNumber(at(13)), at(13)),
        (Error::NumberTooLarge(at(14)), at(14)),
        (Error::OnlyUnitVariants(at(15)), at(15)),
        (Error::DuplicateName(at(16)), at(16)),
        (Error::EmptyName(at(17)), at(17)),
    ] {
        assert_eq!(error.span(), place);
        assert_eq!(error.related(), None);
    }
}

#[test]
fn findings_say_what_is_wrong() {
    assert_eq!(Error::Union(at(0)).message(), "unions are not supported");
    assert_eq!(Error::UnnamedField(at(0)).message(), "unnamed fields are not allowed");
    assert_eq!(Error::TyRequire(at(0)).message(), "lua_type = \"type\" is required");
    assert_eq!(
        Error::SelfDiscriminant(at(0)).message(),
        "a discriminant was provided when `self` was requested"
    );
    assert_eq!(Error::ExpectedNumber(at(0)).message(), "expected a number here");
    assert_eq!(Error::OnlyUnitVariants(at(0)).message(), "only unit variants are allowed");
    assert_eq!(Error::DuplicateName(at(0)).message(), "duplicate name provided");
    assert_eq!(Error::EmptyName(at(0)).message(), "name cannot be empty");
    assert_eq!(Error::EmptyValue(at(0)).message(), "attribute cannot be empty");
    assert_eq!(
        Error::DuplicateKey { span: at(0), previous: at(1) }.message(),
        "duplicate attribute found"
    );
    assert_eq!(
        Error::NameConflict { span: at(0), previous: at(1) }.message(),
        "duplicate name found"
    );
    assert_eq!(
        Error::NumberTooLarge(at(0)).message(),
        "number too large to fit in target type"
    );
    assert_eq!(
        Error::SelfAndAlias(at(0)).message(),
        "`self` and `alias` cannot be used together"
    );
    assert_eq!(
        Error::Syntax(at(0)).message(),
        "malformed attribute, expected `key` or `key = \"value\"`"
    );
}

#[test]
fn unknown_key_message_lists_the_keys() {
    let none = Error::UnknownKey { span: at(0), key: "k".to_string(), supported: vec![] };
    assert_eq!(none.message(), "unknown ident: k, supported: ");
    let one =
        Error::UnknownKey { span: at(0), key: "k".to_string(), supported: vec!["a".to_string()] };
    assert_eq!(one.message(), "unknown ident: k, supported: a");
    let two = Error::UnknownKey {
        span: at(0),
        key: "k".to_string(),
        supported: vec!["a".to_string(), "b".to_string()],
    };
    assert_eq!(two.message(), "unknown ident: k, supported: a, b");
}
