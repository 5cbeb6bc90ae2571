//! Diagnostics: what can be wrong with a declaration, and how several
//! findings are merged into one report.

use crate::data::{texts, Span};
use vstd::prelude::*;
use vstd::string::StringExecFns;

verus! {

/// One finding about a declaration.
#[derive(Clone, Debug, PartialEq, Eq)]
pub enum Error {
    /// The metadata does not follow the grammar `key` or `key = "value"`,
    /// separated by commas, inside `anno(...)`.
    Syntax(Span),
    /// A key that the place does not accept; `supported` names those it
    /// does, in ascending order, each once.
    UnknownKey { span: Span, key: String, supported: Vec<String> },
    /// A value made of white space alone.
    EmptyValue(Span),
    /// A key given again in one block; `previous` is its first use, whose
    /// entry is the one that counts.
    DuplicateKey { span: Span, previous: Span },
    /// The declaration is a union.
    Union(Span),
    /// A record member without a name.
    UnnamedField(Span),
    /// A field without a type, where types are not guessed.
    TyRequire(Span),
    /// An explicit discriminant on a member of an enum in `self` mode.
    SelfDiscriminant(Span),
    /// Both `self` and `alias` on one enum.
    SelfAndAlias(Span),
    /// A discriminant that is not an integer literal, nor the negation of one.
    ExpectedNumber(Span),
    /// A discriminant that does not fit the machine's integers.
    NumberTooLarge(Span),
    /// An enum member that carries data.
    OnlyUnitVariants(Span),
    /// The name of the declaration given twice.
    DuplicateName(Span),
    /// A name of the declaration made of white space alone.
    EmptyName(Span),
    /// Two members under one rendered name; `previous` is the earlier one.
    NameConflict { span: Span, previous: Span },
}

pub enum ErrorView {
    Syntax(Span),
    UnknownKey { span: Span, key: Seq<char>, supported: Seq<Seq<char>> },
    EmptyValue(Span),
    DuplicateKey { span: Span, previous: Span },
    Union(Span),
    UnnamedField(Span),
    TyRequire(Span),
    SelfDiscriminant(Span),
    SelfAndAlias(Span),
    ExpectedNumber(Span),
    NumberTooLarge(Span),
    OnlyUnitVariants(Span),
    DuplicateName(Span),
    EmptyName(Span),
    NameConflict { span: Span, previous: Span },
}

impl View for Error {
    type V = ErrorView;

    open spec fn view(&self) -> ErrorView {
        match self {
            Error::Syntax(s) => ErrorView::Syntax(*s),
            Error::UnknownKey { span, key, supported } => ErrorView::UnknownKey {
                span: *span,
                key: key@,
                supported: texts(supported@),
            },
            Error::EmptyValue(s) => ErrorView::EmptyValue(*s),
            Error::DuplicateKey { span, previous } => ErrorView::DuplicateKey {
                span: *span,
                previous: *previous,
            },
            Error::Union(s) => ErrorView::Union(*s),
            Error::UnnamedField(s) => ErrorView::UnnamedField(*s),
            Error::TyRequire(s) => ErrorView::TyRequire(*s),
            Error::SelfDiscriminant(s) => ErrorView::SelfDiscriminant(*s),
            Error::SelfAndAlias(s) => ErrorView::SelfAndAlias(*s),
            Error::ExpectedNumber(s) => ErrorView::ExpectedNumber(*s),
            Error::NumberTooLarge(s) => ErrorView::NumberTooLarge(*s),
            Error::OnlyUnitVariants(s) => ErrorView::OnlyUnitVariants(*s),
            Error::DuplicateName(s) => ErrorView::DuplicateName(*s),
            Error::EmptyName(s) => ErrorView::EmptyName(*s),
            Error::NameConflict { span, previous } => ErrorView::NameConflict {
                span: *span,
                previous: *previous,
            },
        }
    }
}

impl ErrorView {
    /// Where the finding is.
    pub open spec fn span(self) -> Span {
        match self {
            ErrorView::Syntax(s) => s,
            ErrorView::UnknownKey { span, .. } => span,
            ErrorView::EmptyValue(s) => s,
            ErrorView::DuplicateKey { span, .. } => span,
            ErrorView::Union(s) => s,
            ErrorView::UnnamedField(s) => s,
            ErrorView::TyRequire(s) => s,
            ErrorView::SelfDiscriminant(s) => s,
            ErrorView::SelfAndAlias(s) => s,
            ErrorView::ExpectedNumber(s) => s,
            ErrorView::NumberTooLarge(s) => s,
            ErrorView::OnlyUnitVariants(s) => s,
            ErrorView::DuplicateName(s) => s,
            ErrorView::EmptyName(s) => s,
            ErrorView::NameConflict { span, .. } => span,
        }
    }

    /// The other place that the finding refers to, if it has one.
    pub open spec fn related(self) -> Option<Span> {
        match self {
            ErrorView::DuplicateKey { previous, .. } => Some(previous),
            ErrorView::NameConflict { previous, .. } => Some(previous),
            _ => None,
        }
    }

    /// What the finding says of the other place, if it refers to one.
    pub open spec fn related_message(self) -> Seq<char> {
        match self {
            ErrorView::DuplicateKey { .. } => "previous use here"@,
            ErrorView::NameConflict { .. } => "previous used here"@,
            _ => Seq::empty(),
        }
    }

    /// What the finding says.
    pub open spec fn message(self) -> Seq<char> {
        match self {
            ErrorView::Syntax(_) => "malformed attribute, expected `key` or `key = \"value\"`"@,
            ErrorView::UnknownKey { key, supported, .. } => "unknown ident: "@ + key
                + ", supported: "@ + joined(supported),
            ErrorView::EmptyValue(_) => "attribute cannot be empty"@,
            ErrorView::DuplicateKey { .. } => "duplicate attribute found"@,
            ErrorView::Union(_) => "unions are not supported"@,
            ErrorView::UnnamedField(_) => "unnamed fields are not allowed"@,
            ErrorView::TyRequire(_) => "lua_type = \"type\" is required"@,
            ErrorView::SelfDiscriminant(_) =>
                "a discriminant was provided when `self` was requested"@,
            ErrorView::SelfAndAlias(_) => "`self` and `alias` cannot be used together"@,
            ErrorView::ExpectedNumber(_) => "expected a number here"@,
            ErrorView::NumberTooLarge(_) => "number too large to fit in target type"@,
            ErrorView::OnlyUnitVariants(_) => "only unit variants are allowed"@,
            ErrorView::DuplicateName(_) => "duplicate name provided"@,
            ErrorView::EmptyName(_) => "name cannot be empty"@,
            ErrorView::NameConflict { .. } => "duplicate name found"@,
        }
    }
}

/// The texts `items`, with `", "` between each two.
pub open spec fn joined(items: Seq<Seq<char>>) -> Seq<char>
    decreases items.len(),
{
    if items.len() == 0 {
        Seq::empty()
    } else if items.len() == 1 {
        items[0]
    } else {
        joined(items.drop_last()) + ", "@ + items.last()
    }
}

/// The texts `items`, with `", "` between each two.
fn join(items: &Vec<String>) -> (r: String)
    ensures
        r@ == joined(texts(items@)),
{
    let ghost all = texts(items@);
    let mut out = String::new();
    let mut i: usize = 0;
    assert(all.take(0) =~= Seq::empty());
    while i < items.len()
        invariant
            i <= items.len(),
            all == texts(items@),
            out@ == joined(all.take(i as int)),
        decreases items.len() - i,
    {
        proof {
            assert(all.take(i + 1).drop_last() =~= all.take(i as int));
            assert(all.take(i + 1).last() == items@[i as int]@);
            if i == 0 {
                assert(all.take(1)[0] == items@[0]@);
            }
        }
        let ghost before = out@;
        if i > 0 {
            out.append(", ");
        }
        out.append(items[i].as_str());
        assert(out@ =~= joined(all.take(i + 1)));
        i = i + 1;
    }
    assert(all.take(items.len() as int) =~= all);
    out
}

impl Error {
    /// Where the finding is.
    pub fn span(&self) -> (r: Span)
        ensures
            r == self@.span(),
    {
        match self {
            Error::Syntax(s) => *s,
            Error::UnknownKey { span, .. } => *span,
            Error::EmptyValue(s) => *s,
            Error::DuplicateKey { span, .. } => *span,
            Error::Union(s) => *s,
            Error::UnnamedField(s) => *s,
            Error::TyRequire(s) => *s,
            Error::SelfDiscriminant(s) => *s,
            Error::SelfAndAlias(s) => *s,
            Error::ExpectedNumber(s) => *s,
            Error::NumberTooLarge(s) => *s,
            Error::OnlyUnitVariants(s) => *s,
            Error::DuplicateName(s) => *s,
            Error::EmptyName(s) => *s,
            Error::NameConflict { span, .. } => *span,
        }
    }

    /// The other place that the finding refers to, if it has one.
    pub fn related(&self) -> (r: Option<Span>)
        ensures
            r == self@.related(),
    {
        match self {
            Error::DuplicateKey { previous, .. } => Some(*previous),
            Error::NameConflict { previous, .. } => Some(*previous),
            _ => None,
        }
    }

    /// What the finding says of the other place, if it refers to one.
    pub fn related_message(&self) -> (r: String)
        ensures
            r@ == self@.related_message(),
    {
        match self {
            Error::DuplicateKey { .. } => String::from_str("previous use here"),
            Error::NameConflict { .. } => String::from_str("previous used here"),
            _ => String::new(),
        }
    }

    /// What the finding says.
    pub fn message(&self) -> (r: String)
        ensures
            r@ == self@.message(),
    {
        match self {
            Error::Syntax(_) => String::from_str(
                "malformed attribute, expected `key` or `key = \"value\"`",
            ),
            Error::UnknownKey { key, supported, .. } => {
                let mut out = String::from_str("unknown ident: ");
                out.append(key.as_str());
                out.append(", supported: ");
                out.append(join(supported).as_str());
                out
            },
            Error::EmptyValue(_) => String::from_str("attribute cannot be empty"),
            Error::DuplicateKey { .. } => String::from_str("duplicate attribute found"),
            Error::Union(_) => String::from_str("unions are not supported"),
            Error::UnnamedField(_) => String::from_str("unnamed fields are not allowed"),
            Error::TyRequire(_) => String::from_str("lua_type = \"type\" is required"),
            Error::SelfDiscriminant(_) => String::from_str(
                "a discriminant was provided when `self` was requested",
            ),
            Error::SelfAndAlias(_) => String::from_str(
                "`self` and `alias` cannot be used together",
            ),
            Error::ExpectedNumber(_) => String::from_str("expected a number here"),
            Error::NumberTooLarge(_) => String::from_str("number too large to fit in target type"),
            Error::OnlyUnitVariants(_) => String::from_str("only unit variants are allowed"),
            Error::DuplicateName(_) => String::from_str("duplicate name provided"),
            Error::EmptyName(_) => String::from_str("name cannot be empty"),
            Error::NameConflict { .. } => String::from_str("duplicate name found"),
        }
    }
}

/// The findings about one declaration or one member: at least one, the
/// primary one first.
#[derive(Clone, Debug, PartialEq, Eq)]
pub struct Report {
    pub findings: Vec<Error>,
}

/// The views of a list of findings.
pub open spec fn error_views(v: Seq<Error>) -> Seq<ErrorView> {
    Seq::new(v.len(), |i: int| v[i]@)
}

impl View for Report {
    type V = Seq<ErrorView>;

    open spec fn view(&self) -> Seq<ErrorView> {
        error_views(self.findings@)
    }
}

/// The views of a list of reports.
pub open spec fn report_views(v: Seq<Report>) -> Seq<Seq<ErrorView>> {
    Seq::new(v.len(), |i: int| v[i]@)
}

/// The findings of `collected` as one list: those of the report collected
/// last come first, those of the first come last; inside one report the order
/// stays.
pub open spec fn merged(collected: Seq<Seq<ErrorView>>) -> Seq<ErrorView>
    decreases collected.len(),
{
    if collected.len() == 0 {
        Seq::empty()
    } else {
        collected.last() + merged(collected.drop_last())
    }
}

impl Report {
    /// A report holds at least one finding.
    pub open spec fn wf(&self) -> bool {
        self.findings@.len() > 0
    }

    /// The report of one finding.
    pub fn single(error: Error) -> (r: Report)
        ensures
            r@ == seq![error@],
            r.wf(),
    {
        let mut findings = Vec::new();
        findings.push(error);
        let r = Report { findings };
        assert(r@ =~= seq![error@]);
        r
    }
}

/// Whether every report of `errors` holds a finding.
pub open spec fn all_wf(errors: Seq<Report>) -> bool {
    forall|i: int| 0 <= i < errors.len() ==> (#[trigger] errors[i]).wf()
}

/// Adds the report `found` to the reports collected.
pub fn keep(errors: &mut Vec<Report>, found: Report)
    ensures
        final(errors)@ == old(errors)@.push(found),
        report_views(final(errors)@) == report_views(old(errors)@).push(found@),
        all_wf(old(errors)@) && found.wf() ==> all_wf(final(errors)@),
{
    errors.push(found);
    assert(report_views(errors@) =~= report_views(old(errors)@).push(found@));
    assert(all_wf(old(errors)@) && found.wf() ==> all_wf(errors@)) by {
        if all_wf(old(errors)@) && found.wf() {
            assert forall|i: int| 0 <= i < errors@.len() implies (#[trigger] errors@[i]).wf() by {
                if i < old(errors)@.len() {
                    assert(errors@[i] == old(errors)@[i]);
                }
            }
        }
    }
}

/// Adds the report of the one finding `error` to the reports collected.
pub fn report(errors: &mut Vec<Report>, error: Error)
    ensures
        report_views(final(errors)@) == report_views(old(errors)@).push(seq![error@]),
        all_wf(old(errors)@) ==> all_wf(final(errors)@),
{
    keep(errors, Report::single(error));
}

/// Merges the reports collected about a declaration into one, or none where
/// nothing was collected. The report collected last becomes the primary one.
pub fn combine(errors: Vec<Report>) -> (r: Option<Report>)
    ensures
        r is None <==> errors@.len() == 0,
        r matches Some(report) ==> report@ == merged(report_views(errors@)),
        r matches Some(report) ==> ((forall|i: int|
            0 <= i < errors@.len() ==> (#[trigger] errors@[i]).wf()) ==> report.wf()),
{
    let ghost all = report_views(errors@);
    let mut errors = errors;
    if errors.len() == 0 {
        return None;
    }
    let ghost total = errors@.len();
    let mut findings: Vec<Error> = Vec::new();
    assert(all.take(total as int) =~= all);
    assert(merged(all) =~= error_views(findings@) + merged(all.take(errors@.len() as int)));
    while errors.len() > 0
        invariant
            errors@.len() <= total,
            total == all.len(),
            report_views(errors@) =~= all.take(errors@.len() as int),
            merged(all) == error_views(findings@) + merged(all.take(errors@.len() as int)),
            errors@.len() < total && all.last().len() > 0 ==> findings@.len() > 0,
        decreases errors.len(),
    {
        let ghost n = errors@.len();
        let ghost before = error_views(findings@);
        let mut last = errors.pop().unwrap();
        proof {
            assert(last@ == all[n - 1]);
            assert(all.take(n as int).drop_last() =~= all.take(n - 1));
            assert(all.take(n as int).last() == all[n - 1]);
        }
        findings.append(&mut last.findings);
        proof {
            assert(error_views(findings@) =~= before + all[n - 1]);
            assert(merged(all) =~= error_views(findings@) + merged(all.take(n - 1)));
            assert(report_views(errors@) =~= all.take(n - 1));
        }
    }
    assert(merged(all.take(0)) =~= Seq::empty());
    let report = Report { findings };
    assert(report@ =~= merged(all));
    Some(report)
}

} // verus!
