//! Certifying a file: a rule check that finds no error, and then the certificate.

use laterite_ags4_core::index::{
    EditionInput, Sidecar, TierCoverage, ValidationStamp, ENGINE_IDENTITY,
};
use laterite_ags4_reference::dict::DictResolution;
use laterite_ags4_validator::parse::parse_str;
use laterite_ags4_validator::{
    check_parsed, findings, tran_ags_of, CheckOptions, DictVersion as EngineEdition, Dictionary,
    WorldScope, ENGINE_FINGERPRINT,
};
use vstd::prelude::*;
use vstd::string::*;

use crate::ags::{codec, group_of};
use crate::cert::{
    certificate, edition_label, faithful, idx_path_for, only_span, slice_of, sliced, stands_alone,
    vouched, DictVersion, IndexView, SidecarView, VerdictView,
};
use crate::checkable::{checkable, columns_of_text, is_checkable, typed_columns};
use crate::file_dict::dict_names;
use crate::read_ags::{bound_rows, declares, group_columns, read_answer, the_fast_read_agrees};
use crate::registry::standard;
use crate::table::{
    column, columns_view, opt_cell, option_cell, row_view, rows_view, str_cell, well_typed,
    Cell, CellView, ColType, Column, Table,
};
use crate::text::{decimal, decimal_text, opt_text, str_view, trimmed};
use crate::validate::{findings_view, Finding, FindingView, Severity};

verus! {

/// How many of the findings are of a severity.
pub open spec fn count(findings: Seq<FindingView>, s: Severity) -> nat
    decreases findings.len(),
{
    if findings.len() == 0 {
        0
    } else if findings.last().severity == s {
        count(findings.drop_last(), s) + 1
    } else {
        count(findings.drop_last(), s)
    }
}

/// How many errors, warnings and notes the findings hold.
pub fn severity_counts(findings: &Vec<Finding>) -> (r: (u64, u64, u64))
    ensures
        r.0 == count(findings_view(findings@), Severity::Error),
        r.1 == count(findings_view(findings@), Severity::Warning),
        r.2 == count(findings_view(findings@), Severity::Fyi),
{
    let ghost all = findings_view(findings@);
    let mut errors: u64 = 0;
    let mut warnings: u64 = 0;
    let mut fyi: u64 = 0;
    let mut i: usize = 0;
    assert(all.take(0) =~= Seq::empty());
    while i < findings.len()
        invariant
            i <= findings@.len(),
            all == findings_view(findings@),
            errors == count(all.take(i as int), Severity::Error),
            warnings == count(all.take(i as int), Severity::Warning),
            fyi == count(all.take(i as int), Severity::Fyi),
            errors + warnings + fyi == i,
        decreases findings@.len() - i,
    {
        let ghost next = all.take(i + 1);
        assert(next.drop_last() =~= all.take(i as int));
        assert(next.last() == all[i as int]);
        match findings[i].severity {
            Severity::Error => {
                errors = errors + 1;
            },
            Severity::Warning => {
                warnings = warnings + 1;
            },
            Severity::Fyi => {
                fyi = fyi + 1;
            },
        }
        i = i + 1;
    }
    assert(all.take(i as int) =~= all);
    (errors, warnings, fyi)
}

/// Each finding is counted once.
pub proof fn every_finding_is_counted(findings: Seq<FindingView>)
    ensures
        count(findings, Severity::Error) + count(findings, Severity::Warning) + count(
            findings,
            Severity::Fyi,
        ) == findings.len(),
    decreases findings.len(),
{
    if findings.len() > 0 {
        every_finding_is_counted(findings.drop_last());
    }
}

/// How the edition of a check was chosen where nobody forced it: by the file's own
/// edition label, as the bundled edition nearest to that, or for want of a usable
/// label.
#[derive(Clone, Copy, Debug, PartialEq, Eq, Structural)]
pub enum Chosen {
    Exact,
    Guessed,
    Fallback,
}

/// What the certificate says of the check behind it, which looked for errors alone
/// and counted them: when it was, the edition, how that was chosen or that it was
/// forced (`None`), and the encoding.
pub struct Stamp {
    pub checked_at: String,
    pub edition: String,
    pub chosen: Option<Chosen>,
    pub encoding: String,
    pub errors: u32,
}

/// What an index of a file's bytes says, or why there is none.
pub uninterp spec fn indexed(bytes: Seq<u8>) -> Result<IndexView, Seq<char>>;

/// What a certificate calls the way in which an edition was chosen.
pub open spec fn chosen_name(chosen: Option<Chosen>) -> Seq<char> {
    match chosen {
        None => "forced"@,
        Some(Chosen::Exact) => "exact"@,
        Some(Chosen::Guessed) => "guessed"@,
        Some(Chosen::Fallback) => "fallback"@,
    }
}

/// What a certificate records of a check that looked for errors alone.
pub open spec fn recorded(
    checked_at: Seq<char>,
    edition: Seq<char>,
    chosen: Option<Chosen>,
    encoding: Seq<char>,
    errors: u32,
) -> VerdictView {
    VerdictView {
        checked_at,
        edition,
        how: chosen_name(chosen),
        encoding,
        errors: Some(errors),
        warnings: None,
        fyi: None,
    }
}

/// Whether every span of a certificate lies within its file.
pub open spec fn spans_within(s: IndexView) -> bool {
    forall|g: Seq<char>, k: int|
        s.groups.contains_key(g) && 0 <= k < s.groups[g].len() ==> (#[trigger] s.groups[g][k]).0
            <= s.groups[g][k].1 <= s.size
}

/// The edition that a check was forced to, where it was.
pub open spec fn forced_to(forced: bool, edition: Seq<char>) -> Option<Seq<char>> {
    if forced {
        Some(edition)
    } else {
        None
    }
}

/// `laterite_ags4_core::index::Sidecar::assemble` indexes a file's bytes and joins
/// the stamp to it, and `Sidecar::to_json` writes that down, which never fails: the
/// number of groups, and the text, which reads back as the certificate. It is for a
/// file of this size, every span lies within it, and, where the stamp counts no
/// errors, it answers a check for errors of the same file, edition and encoding. A
/// section starts at the row that names its group and runs to the next such row, so
/// the codec finds in it what it finds in the file, on the terms of `faithful`. Which
/// spans there are, and what is said of bytes that cannot be indexed, is left to the
/// name `indexed`; the order in which the text lists the groups is not fixed.
#[verifier::external_body]
pub(crate) fn assemble(bytes: &[u8], stamp: Stamp) -> (r: Result<
    (usize, Result<Vec<u8>, String>),
    String,
>)
    ensures
        match r {
            Ok((groups, json)) => {
                &&& indexed(bytes@) is Ok
                &&& groups == indexed(bytes@)->Ok_0.order.len()
                &&& indexed(bytes@)->Ok_0.size == bytes@.len()
                &&& spans_within(indexed(bytes@)->Ok_0)
                &&& faithful(indexed(bytes@)->Ok_0, bytes@)
                &&& json is Ok
                &&& {
                    &&& certificate(json->Ok_0@) == Some(
                        SidecarView {
                            index: indexed(bytes@)->Ok_0,
                            verdict: recorded(
                                stamp.checked_at@,
                                stamp.edition@,
                                stamp.chosen,
                                stamp.encoding@,
                                stamp.errors,
                            ),
                        },
                    )
                    &&& vstd::utf8::valid_utf8(json->Ok_0@)
                    &&& stamp.errors == 0 ==> vouched(
                        json->Ok_0@,
                        bytes@,
                        false,
                        false,
                        forced_to(stamp.chosen is None, stamp.edition@),
                        stamp.encoding@,
                    )
                }
            },
            Err(e) => indexed(bytes@) == Err::<IndexView, Seq<char>>(e@),
        },
{
    let Stamp { checked_at, edition, chosen, encoding, errors } = stamp;
    let edition = match chosen {
        None => EditionInput::Forced { edition },
        Some(c) => EditionInput::Auto { resolved: edition, resolution: match c {
            Chosen::Exact => DictResolution::ExactTranAgs,
            Chosen::Guessed => DictResolution::GuessedPatch,
            Chosen::Fallback => DictResolution::Fallback,
        } },
    };
    let s = Sidecar::assemble(bytes, ValidationStamp { validator: ENGINE_IDENTITY.into(),
        engine: ENGINE_FINGERPRINT.into(), compat: None, checked_at, edition, encoding,
        custom_dict: None, errors: TierCoverage::Measured { count: errors },
        warnings: TierCoverage::NotMeasured, fyi: TierCoverage::NotMeasured,
    }).map_err(|e| e.to_string())?;
    Ok((s.order.len(), s.to_json().map_err(|e| e.to_string())))
}

/// Whether a label is that of a bundled edition.
pub open spec fn is_edition(label: Seq<char>) -> bool {
    exists|v: DictVersion| label == #[trigger] edition_label(v)
}

/// The edition label that AGS4 text gives itself, where it gives one, or why the
/// text does not parse.
pub uninterp spec fn text_edition(content: Seq<char>) -> Result<Option<Seq<char>>, Seq<char>>;

/// `laterite_ags4_validator::parse::parse_str` parses AGS4 text, and
/// `laterite_ags4_validator::tran_ags_of` reads the edition label out of it. Which
/// text parses, and what it gives, is left to the name.
#[verifier::external_body]
pub(crate) fn tran_of_text(content: &str) -> (r: Result<Option<String>, String>)
    ensures
        match r {
            Ok(t) => text_edition(content@) == Ok::<Option<Seq<char>>, Seq<char>>(opt_text(t)),
            Err(e) => text_edition(content@) == Err::<Option<Seq<char>>, Seq<char>>(e@),
        },
{
    parse_str(content).map(|p| tran_ags_of(&p)).map_err(|e| e.to_string())
}

/// The edition to check against and how it was chosen (`None`: forced), from a
/// forced edition or the label that a file gives itself, or why there is none.
pub uninterp spec fn resolution(forced: Option<Seq<char>>, given: Option<Seq<char>>) -> Result<
    (Seq<char>, Option<Chosen>),
    Seq<char>,
>;

/// `laterite_ags4_validator::resolve_dict_version` picks the bundled edition to
/// check against. A forced edition is taken as it is; a file that gives no label
/// is checked against 4.1.1; a label of a bundled edition is taken as it is. What
/// other labels lead to, or that they are refused, is left to the name.
#[verifier::external_body]
pub(crate) fn resolve_dict_version(forced: Option<&str>, given: Option<&str>) -> (r: Result<
    (String, Option<Chosen>),
    String,
>)
    requires
        forced is Some ==> is_edition(forced->Some_0@),
    ensures
        match r {
            Ok((label, chosen)) => {
                &&& resolution(str_view(forced), str_view(given)) == Ok::<
                    (Seq<char>, Option<Chosen>),
                    Seq<char>,
                >((label@, chosen))
                &&& is_edition(label@)
                &&& chosen is None <==> forced is Some
                &&& forced is Some ==> label@ == forced->Some_0@
                &&& forced is None && (given is None || trimmed(given->Some_0@).len() == 0)
                    ==> label@ == "4.1.1"@ && chosen == Some(Chosen::Fallback)
                &&& forced is None && given is Some && is_edition(trimmed(given->Some_0@))
                    ==> label@ == trimmed(given->Some_0@) && chosen == Some(Chosen::Exact)
            },
            Err(e) => {
                &&& resolution(str_view(forced), str_view(given)) == Err::<
                    (Seq<char>, Option<Chosen>),
                    Seq<char>,
                >(e@)
                &&& forced is None && given is Some && trimmed(given->Some_0@).len() > 0
                    && !is_edition(trimmed(given->Some_0@))
            },
        },
{
    let forced = forced.and_then(EngineEdition::from_edition);
    let (v, how) = laterite_ags4_validator::resolve_dict_version(forced, given)
        .map_err(|e| e.to_string())?;
    Ok((v.as_str().to_string(), match how {
        DictResolution::Forced => None,
        DictResolution::ExactTranAgs => Some(Chosen::Exact),
        DictResolution::GuessedPatch => Some(Chosen::Guessed),
        DictResolution::Fallback => Some(Chosen::Fallback),
        DictResolution::StructuralBase => Some(Chosen::Fallback),
        DictResolution::Replacement => Some(Chosen::Fallback),
    }))
}

/// The findings of a check of AGS4 text for errors, against an edition that may be
/// forced, or why the text does not parse.
pub uninterp spec fn text_findings(content: Seq<char>, edition: Seq<char>, forced: bool) -> Result<
    Seq<FindingView>,
    Seq<char>,
>;

/// `laterite_ags4_validator::check_parsed` checks parsed AGS4 text against the
/// rules, with the default options and nothing but the text: the findings, rule by
/// rule. It reports on all text that parses. What it finds is left to the name. It
/// panics on some values under some TYPE codes, which `checkable` leaves out.
#[verifier::external_body]
pub(crate) fn check_text(content: &str, edition: &str, forced: bool) -> (r: Result<
    Vec<Finding>,
    String,
>)
    requires
        is_edition(edition@),
        typed_columns(content@) is Ok ==> checkable(typed_columns(content@)->Ok_0),
    ensures
        match r {
            Ok(found) => text_findings(content@, edition@, forced) == Ok::<
                Seq<FindingView>,
                Seq<char>,
            >(findings_view(found@)),
            Err(e) => text_findings(content@, edition@, forced) == Err::<
                Seq<FindingView>,
                Seq<char>,
            >(e@),
        },
        r is Ok <==> text_edition(content@) is Ok,
{
    let version = EngineEdition::from_edition(edition).unwrap_or_default();
    let dict = Dictionary::bundled(version);
    let dict_version = forced.then_some(version);
    let opts = CheckOptions { dict_version, ..CheckOptions::default() };
    let found = parse_str(content)
        .and_then(|p| check_parsed(&p, &dict, &opts, &WorldScope::None))
        .map_err(|e| e.to_string())?;
    Ok(found.into_iter().flat_map(|(rule, items)| items.into_iter().map(move |f| Finding {
        rule: rule.clone(), line: f.line, group: f.group, severity: match f.severity {
            findings::Severity::Error => Severity::Error,
            findings::Severity::Warning => Severity::Warning,
            findings::Severity::Fyi => Severity::Fyi,
        }, desc: f.desc,
    })).collect())
}

/// `String::from_utf8` makes text of bytes that are UTF-8, and fails on others.
#[verifier::external_body]
pub(crate) fn text_of_utf8(bytes: Vec<u8>) -> (r: Result<String, String>)
    ensures
        r is Ok <==> vstd::utf8::valid_utf8(bytes@),
        r is Ok ==> vstd::utf8::encode_utf8(r->Ok_0@) == bytes@,
{
    String::from_utf8(bytes).map_err(|e| e.to_string())
}

/// The columns of `certify_ags`.
pub open spec fn status_columns() -> Seq<(Seq<char>, ColType)> {
    seq![
        ("path"@, ColType::Varchar),
        ("index_path"@, ColType::Varchar),
        ("certified"@, ColType::Boolean),
        ("groups"@, ColType::BigInt),
        ("errors"@, ColType::BigInt),
        ("warnings"@, ColType::BigInt),
        ("fyi"@, ColType::BigInt),
        ("dict_version"@, ColType::Varchar),
        ("message"@, ColType::Varchar),
    ]
}

/// The columns of `certify_ags_text`.
pub open spec fn status_text_columns() -> Seq<(Seq<char>, ColType)> {
    seq![
        ("certified"@, ColType::Boolean),
        ("groups"@, ColType::BigInt),
        ("errors"@, ColType::BigInt),
        ("warnings"@, ColType::BigInt),
        ("fyi"@, ColType::BigInt),
        ("dict_version"@, ColType::Varchar),
        ("cert"@, ColType::Varchar),
        ("message"@, ColType::Varchar),
    ]
}

/// What a check counted: errors, warnings and notes.
#[derive(Clone, Copy, Debug, PartialEq, Eq, Structural)]
pub struct Counts {
    pub errors: u64,
    pub warnings: u64,
    pub fyi: u64,
}

/// The row of `certify_ags`.
pub open spec fn status_row(
    path: Seq<char>,
    certified: bool,
    groups: nat,
    counts: Counts,
    edition: Seq<char>,
    message: Seq<char>,
) -> Seq<CellView> {
    seq![
        CellView::Str(path),
        CellView::Str(path + ".idx"@),
        CellView::Bool(certified),
        CellView::Int(groups as i64),
        CellView::Int(counts.errors as i64),
        CellView::Int(counts.warnings as i64),
        CellView::Int(counts.fyi as i64),
        CellView::Str(edition),
        CellView::Str(message),
    ]
}

/// The row of `certify_ags_text`.
pub open spec fn status_text_row(
    certified: bool,
    groups: nat,
    counts: Counts,
    edition: Seq<char>,
    cert: Option<Seq<char>>,
    message: Seq<char>,
) -> Seq<CellView> {
    seq![
        CellView::Bool(certified),
        CellView::Int(groups as i64),
        CellView::Int(counts.errors as i64),
        CellView::Int(counts.warnings as i64),
        CellView::Int(counts.fyi as i64),
        CellView::Str(edition),
        opt_cell(cert),
        CellView::Str(message),
    ]
}

fn int_cell(n: u64) -> (r: Cell)
    ensures
        r@ == CellView::Int(n as i64),
{
    Cell::Int(
        #[verifier::truncate]
        (n as i64),
    )
}

/// The one row of `certify_ags`.
pub fn status(
    path: &str,
    certified: bool,
    groups: usize,
    counts: &Counts,
    edition: &str,
    message: String,
) -> (r: Vec<Cell>)
    ensures
        row_view(r@) == status_row(path@, certified, groups as nat, *counts, edition@, message@),
{
    let ghost said = message@;
    let mut row: Vec<Cell> = Vec::new();
    row.push(str_cell(path));
    row.push(Cell::Str(idx_path_for(path)));
    row.push(Cell::Bool(certified));
    row.push(int_cell(groups as u64));
    row.push(int_cell(counts.errors));
    row.push(int_cell(counts.warnings));
    row.push(int_cell(counts.fyi));
    row.push(str_cell(edition));
    row.push(Cell::Str(message));
    assert(row_view(row@) =~= status_row(path@, certified, groups as nat, *counts, edition@, said));
    row
}

/// The one row of `certify_ags_text`.
pub fn status_text(
    certified: bool,
    groups: usize,
    counts: &Counts,
    edition: &str,
    cert: &Option<String>,
    message: String,
) -> (r: Vec<Cell>)
    ensures
        row_view(r@) == status_text_row(
            certified,
            groups as nat,
            *counts,
            edition@,
            opt_text(*cert),
            message@,
        ),
{
    let ghost said = message@;
    let mut row: Vec<Cell> = Vec::new();
    row.push(Cell::Bool(certified));
    row.push(int_cell(groups as u64));
    row.push(int_cell(counts.errors));
    row.push(int_cell(counts.warnings));
    row.push(int_cell(counts.fyi));
    row.push(str_cell(edition));
    row.push(option_cell(cert));
    row.push(Cell::Str(message));
    assert(row_view(row@) =~= status_text_row(
        certified,
        groups as nat,
        *counts,
        edition@,
        opt_text(*cert),
        said,
    ));
    row
}

/// What a check counted in its findings.
pub open spec fn counted(findings: Seq<FindingView>) -> Counts {
    Counts {
        errors: count(findings, Severity::Error) as u64,
        warnings: count(findings, Severity::Warning) as u64,
        fyi: count(findings, Severity::Fyi) as u64,
    }
}

/// Counts the findings of a check.
pub fn tally(findings: &Vec<Finding>) -> (r: Counts)
    ensures
        r == counted(findings_view(findings@)),
        r.errors == count(findings_view(findings@), Severity::Error),
        r.warnings == count(findings_view(findings@), Severity::Warning),
        r.fyi == count(findings_view(findings@), Severity::Fyi),
{
    let (errors, warnings, fyi) = severity_counts(findings);
    Counts { errors, warnings, fyi }
}

/// What is said of a file that has errors.
pub open spec fn refusal(errors: nat, call: Seq<char>) -> Seq<char> {
    "not certified: "@ + decimal(errors) + " error finding(s) — run "@ + call
        + " and fix them first"@
}

fn refusal_text(errors: u64, call: &str) -> (r: String)
    ensures
        r@ == refusal(errors as nat, call@),
        r@ == "not certified: "@ + decimal(errors as nat) + " error finding(s) — run "@ + call@
            + " and fix them first"@,
{
    let mut m = "not certified: ".to_owned();
    m.append(decimal_text(errors).as_str());
    m.append(" error finding(s) — run ");
    m.append(call);
    m.append(" and fix them first");
    m
}

/// The row that refuses to certify a file, where a check of it found errors.
/// `None` lets the certificate be minted.
pub fn refuse(path: &str, findings: &Vec<Finding>, edition: &str) -> (r: Option<Vec<Cell>>)
    ensures
        ({
            let counts = counted(findings_view(findings@));
            let errors = count(findings_view(findings@), Severity::Error);
            match r {
                Some(row) => errors > 0 && row_view(row@) == status_row(
                    path@,
                    false,
                    0,
                    counts,
                    edition@,
                    refusal(errors, "validate_ags('"@ + path@ + "')"@),
                ),
                None => errors == 0,
            }
        }),
{
    let counts = tally(findings);
    if counts.errors > 0 {
        let mut call = "validate_ags('".to_owned();
        call.append(path);
        call.append("')");
        let message = refusal_text(counts.errors, call.as_str());
        return Some(status(path, false, 0, &counts, edition, message));
    }
    None
}

/// The row that says that a file was certified, and where its certificate is.
pub fn certified(path: &str, findings: &Vec<Finding>, edition: &str, groups: usize) -> (r: Vec<Cell>)
    requires
        count(findings_view(findings@), Severity::Error) == 0,
    ensures
        row_view(r@) == status_row(
            path@,
            true,
            groups as nat,
            counted(findings_view(findings@)),
            edition@,
            "certified "@ + decimal(groups as nat) + " group(s) → "@ + (path@ + ".idx"@),
        ),
{
    let counts = tally(findings);
    let mut m = "certified ".to_owned();
    m.append(decimal_text(groups as u64).as_str());
    m.append(" group(s) → ");
    m.append(idx_path_for(path).as_str());
    status(path, true, groups, &counts, edition, m)
}

/// The stamp of a check that found no errors.
pub fn clean_stamp(edition: &str, chosen: Option<Chosen>, encoding: &str, checked_at: &str) -> (r: Stamp)
    ensures
        r.errors == 0,
        r.edition@ == edition@,
        r.chosen == chosen,
        r.encoding@ == encoding@,
        r.checked_at@ == checked_at@,
{
    Stamp {
        checked_at: checked_at.to_owned(),
        edition: edition.to_owned(),
        chosen,
        encoding: encoding.to_owned(),
        errors: 0,
    }
}

/// Whether `json` is a certificate for a file's bytes: it records the check, which
/// found no errors, is for a file of that size, says of it where its groups are, and
/// answers a check for errors under the same edition and encoding.
pub open spec fn certifies(
    json: Seq<u8>,
    bytes: Seq<u8>,
    edition: Seq<char>,
    chosen: Option<Chosen>,
    encoding: Seq<char>,
    checked_at: Seq<char>,
) -> bool {
    &&& indexed(bytes) is Ok
    &&& certificate(json) == Some(
        SidecarView {
            index: indexed(bytes)->Ok_0,
            verdict: recorded(checked_at, edition, chosen, encoding, 0),
        },
    )
    &&& indexed(bytes)->Ok_0.size == bytes.len()
    &&& spans_within(indexed(bytes)->Ok_0)
    &&& faithful(indexed(bytes)->Ok_0, bytes)
    &&& vouched(json, bytes, false, false, forced_to(chosen is None, edition), encoding)
}

/// The certificate of a file that was found clean, with the number of its groups:
/// an error where, and only where, the bytes cannot be indexed.
pub fn mint(
    path: &str,
    bytes: &[u8],
    edition: &str,
    chosen: Option<Chosen>,
    encoding: &str,
    checked_at: &str,
) -> (r: Result<(usize, Vec<u8>), String>)
    ensures
        match r {
            Ok((groups, json)) => {
                &&& certifies(json@, bytes@, edition@, chosen, encoding@, checked_at@)
                &&& groups == indexed(bytes@)->Ok_0.order.len()
            },
            Err(e) => indexed(bytes@) is Err && e@ == "certify_ags: indexing '"@ + path@ + "': "@
                + indexed(bytes@)->Err_0,
        },
        r is Ok ==> {
            let json = r->Ok_0.1@;
            &&& certificate(json) is Some
            &&& certificate(json)->Some_0.index == indexed(bytes@)->Ok_0
            &&& certificate(json)->Some_0.verdict.checked_at == checked_at@
            &&& certificate(json)->Some_0.verdict.edition == edition@
            &&& certificate(json)->Some_0.verdict.encoding == encoding@
            &&& certificate(json)->Some_0.verdict.errors == Some(0u32)
            &&& certificate(json)->Some_0.verdict.how == match chosen {
                None => "forced"@,
                Some(Chosen::Exact) => "exact"@,
                Some(Chosen::Guessed) => "guessed"@,
                Some(Chosen::Fallback) => "fallback"@,
            }
            &&& vouched(
                json,
                bytes@,
                false,
                false,
                if chosen is None {
                    Some(edition@)
                } else {
                    None
                },
                encoding@,
            )
        },
{
    match assemble(bytes, clean_stamp(edition, chosen, encoding, checked_at)) {
        Ok((groups, Ok(json))) => Ok((groups, json)),
        Ok((_, Err(e))) => {
            let mut m = "certify_ags: serializing cert for '".to_owned();
            m.append(path);
            m.append("': ");
            m.append(e.as_str());
            Err(m)
        },
        Err(e) => {
            let mut m = "certify_ags: indexing '".to_owned();
            m.append(path);
            m.append("': ");
            m.append(e.as_str());
            Err(m)
        },
    }
}

/// The table of `certify_ags_text`, from its one row.
fn one_row_table(row: Vec<Cell>) -> (r: Table)
    ensures
        columns_view(r.columns@) == status_text_columns(),
        rows_view(r.rows@) == seq![row_view(row@)],
{
    let ghost cells = row_view(row@);
    let mut columns: Vec<Column> = Vec::new();
    columns.push(column("certified", ColType::Boolean));
    columns.push(column("groups", ColType::BigInt));
    columns.push(column("errors", ColType::BigInt));
    columns.push(column("warnings", ColType::BigInt));
    columns.push(column("fyi", ColType::BigInt));
    columns.push(column("dict_version", ColType::Varchar));
    columns.push(column("cert", ColType::Varchar));
    columns.push(column("message", ColType::Varchar));
    assert(columns_view(columns@) =~= status_text_columns());
    let mut rows: Vec<Vec<Cell>> = Vec::new();
    rows.push(row);
    assert(rows_view(rows@) =~= seq![cells]);
    Table { columns, rows }
}

/// The table of `certify_ags`, from its one row.
pub fn status_table(row: Vec<Cell>) -> (r: Table)
    ensures
        columns_view(r.columns@) == status_columns(),
        rows_view(r.rows@) == seq![row_view(row@)],
{
    let ghost cells = row_view(row@);
    let mut columns: Vec<Column> = Vec::new();
    columns.push(column("path", ColType::Varchar));
    columns.push(column("index_path", ColType::Varchar));
    columns.push(column("certified", ColType::Boolean));
    columns.push(column("groups", ColType::BigInt));
    columns.push(column("errors", ColType::BigInt));
    columns.push(column("warnings", ColType::BigInt));
    columns.push(column("fyi", ColType::BigInt));
    columns.push(column("dict_version", ColType::Varchar));
    columns.push(column("message", ColType::Varchar));
    assert(columns_view(columns@) =~= status_columns());
    let mut rows: Vec<Vec<Cell>> = Vec::new();
    rows.push(row);
    assert(rows_view(rows@) =~= seq![cells]);
    Table { columns, rows }
}

/// What is said of text that was certified.
pub open spec fn certified_text(groups: nat) -> Seq<char> {
    "certified "@ + decimal(groups) + " group(s) (cert JSON in the `cert` column)"@
}

/// The row of a check of text: it refuses where there are errors, and otherwise
/// holds the certificate.
pub fn text_row(findings: &Vec<Finding>, edition: &str, minted: &Option<(usize, String)>) -> (r: Vec<
    Cell,
>)
    requires
        minted is Some <==> count(findings_view(findings@), Severity::Error) == 0,
    ensures
        row_view(r@) == match *minted {
            Some((groups, cert)) => status_text_row(
                true,
                groups as nat,
                counted(findings_view(findings@)),
                edition@,
                Some(cert@),
                certified_text(groups as nat),
            ),
            None => status_text_row(
                false,
                0,
                counted(findings_view(findings@)),
                edition@,
                None,
                refusal(
                    count(findings_view(findings@), Severity::Error),
                    "validate_ags_text(...)"@,
                ),
            ),
        },
{
    let counts = tally(findings);
    match minted {
        Some((groups, cert)) => {
            let mut m = "certified ".to_owned();
            m.append(decimal_text(*groups as u64).as_str());
            m.append(" group(s) (cert JSON in the `cert` column)");
            let held = Some(cert.clone());
            status_text(true, *groups, &counts, edition, &held, m)
        },
        None => {
            let message = refusal_text(counts.errors, "validate_ags_text(...)");
            status_text(false, 0, &counts, edition, &None, message)
        },
    }
}

/// Whether `r` is the answer to certifying text, from its findings against an
/// edition: refused where there are errors; otherwise the certificate of the text,
/// or an error where the text cannot be indexed.
pub open spec fn certified_answer(
    content: Seq<char>,
    findings: Seq<FindingView>,
    edition: Seq<char>,
    chosen: Option<Chosen>,
    checked_at: Seq<char>,
    r: Result<Table, String>,
) -> bool {
    let bytes = vstd::utf8::encode_utf8(content);
    if count(findings, Severity::Error) > 0 {
        &&& r is Ok
        &&& columns_view(r->Ok_0.columns@) == status_text_columns()
        &&& rows_view(r->Ok_0.rows@) == seq![
            status_text_row(
                false,
                0,
                counted(findings),
                edition,
                None,
                refusal(count(findings, Severity::Error), "validate_ags_text(...)"@),
            ),
        ]
    } else if indexed(bytes) is Err {
        r is Err && r->Err_0@ == "certify_ags_text: indexing input: "@ + indexed(bytes)->Err_0
    } else {
        &&& r is Ok
        &&& columns_view(r->Ok_0.columns@) == status_text_columns()
        &&& exists|cert: Seq<char>|
            {
                &&& #[trigger] certifies(
                    vstd::utf8::encode_utf8(cert),
                    bytes,
                    edition,
                    chosen,
                    "UTF-8"@,
                    checked_at,
                )
                &&& rows_view(r->Ok_0.rows@) == seq![
                    status_text_row(
                        true,
                        indexed(bytes)->Ok_0.order.len(),
                        counted(findings),
                        edition,
                        Some(cert),
                        certified_text(indexed(bytes)->Ok_0.order.len()),
                    ),
                ]
            }
    }
}

/// Certifies text, from its findings against an edition.
pub fn certify_checked(
    content: &str,
    findings: &Vec<Finding>,
    edition: &str,
    chosen: Option<Chosen>,
    checked_at: &str,
) -> (r: Result<Table, String>)
    ensures
        certified_answer(
            content@,
            findings_view(findings@),
            edition@,
            chosen,
            checked_at@,
            r,
        ),
{
    let counts = tally(findings);
    if counts.errors > 0 {
        return Ok(one_row_table(text_row(findings, edition, &None)));
    }
    match assemble(content.as_bytes(), clean_stamp(edition, chosen, "UTF-8", checked_at)) {
        Ok((groups, Ok(json))) => {
            match text_of_utf8(json) {
                Ok(text) => {
                    let ghost cert = text@;
                    let row = text_row(findings, edition, &Some((groups, text)));
                    assert(certifies(
                        vstd::utf8::encode_utf8(cert),
                        vstd::utf8::encode_utf8(content@),
                        edition@,
                        chosen,
                        "UTF-8"@,
                        checked_at@,
                    ));
                    Ok(one_row_table(row))
                },
                Err(e) => {
                    let mut m = "certify_ags_text: cert JSON not UTF-8: ".to_owned();
                    m.append(e.as_str());
                    Err(m)
                },
            }
        },
        Ok((_, Err(e))) => {
            let mut m = "certify_ags_text: serializing cert: ".to_owned();
            m.append(e.as_str());
            Err(m)
        },
        Err(e) => {
            let mut m = "certify_ags_text: indexing input: ".to_owned();
            m.append(e.as_str());
            Err(m)
        },
    }
}

/// What is said of text that the rules cannot be run on.
pub open spec fn uncheckable() -> Seq<char> {
    "certify_ags_text: a TYPE code in the input has a count that the rules cannot check its values against"@
}

/// `certify_ags_text(content[, dict_version])`: checks AGS4 text against the forced
/// edition, or the one that it names, and certifies it where the check finds no
/// error. Text that the rules cannot be run on is an error.
pub fn certify_ags_text(content: &str, forced: Option<DictVersion>, checked_at: &str) -> (r: Result<
    Table,
    String,
>)
    ensures
        ({
            let label = match forced {
                Some(v) => Some(edition_label(v)),
                None => None,
            };
            match text_edition(content@) {
                Err(e) => r is Err && r->Err_0@
                    == "certify_ags_text: input did not parse as AGS4 ("@ + e + ")"@,
                Ok(given) => match resolution(label, given) {
                    Err(e) => r is Err && r->Err_0@ == "certify_ags_text: "@ + e,
                    Ok((edition, chosen)) => {
                        &&& typed_columns(content@) is Ok
                        &&& if checkable(typed_columns(content@)->Ok_0) {
                            &&& text_findings(content@, edition, forced is Some) is Ok
                            &&& certified_answer(
                                content@,
                                text_findings(content@, edition, forced is Some)->Ok_0,
                                edition,
                                chosen,
                                checked_at@,
                                r,
                            )
                        } else {
                            &&& r is Err
                            &&& r->Err_0@ == uncheckable()
                            &&& r->Err_0@
                                == "certify_ags_text: a TYPE code in the input has a count that the rules cannot check its values against"@
                        }
                    },
                },
            }
        }),
{
    let given = match tran_of_text(content) {
        Ok(t) => t,
        Err(e) => {
            let mut m = "certify_ags_text: input did not parse as AGS4 (".to_owned();
            m.append(e.as_str());
            m.append(")");
            return Err(m);
        },
    };
    let label: Option<&str> = match forced {
        Some(v) => Some(v.as_str()),
        None => None,
    };
    let tran: Option<&str> = match &given {
        Some(t) => Some(t.as_str()),
        None => None,
    };
    match resolve_dict_version(label, tran) {
        Ok((edition, chosen)) => {
            let columns = match columns_of_text(content) {
                Ok(c) => c,
                Err(e) => {
                    return Err(e);
                },
            };
            if !is_checkable(&columns) {
                return Err(
                    "certify_ags_text: a TYPE code in the input has a count that the rules cannot check its values against".to_owned(),
                );
            }
            match check_text(content, edition.as_str(), forced.is_some()) {
                Ok(findings) => certify_checked(
                    content,
                    &findings,
                    edition.as_str(),
                    chosen,
                    checked_at,
                ),
                Err(e) => Err(e),
            }
        },
        Err(e) => {
            let mut m = "certify_ags_text: ".to_owned();
            m.append(e.as_str());
            Err(m)
        },
    }
}

/// Text with errors is never certified: the answer says so, and holds no
/// certificate.
pub proof fn errors_are_never_certified(
    content: Seq<char>,
    findings: Seq<FindingView>,
    edition: Seq<char>,
    chosen: Option<Chosen>,
    checked_at: Seq<char>,
    r: Result<Table, String>,
)
    requires
        certified_answer(content, findings, edition, chosen, checked_at, r),
        count(findings, Severity::Error) > 0,
    ensures
        r is Ok,
        rows_view(r->Ok_0.rows@).len() == 1,
        rows_view(r->Ok_0.rows@)[0][0] == CellView::Bool(false),
        rows_view(r->Ok_0.rows@)[0][6] is Null,
{
}

/// The certificate of a file leads a reader of that file to its groups: the size
/// is the file's, and each group that the file declares once is read at its span.
pub proof fn a_new_certificate_is_followed(
    json: Seq<u8>,
    bytes: Seq<u8>,
    edition: Seq<char>,
    chosen: Option<Chosen>,
    encoding: Seq<char>,
    checked_at: Seq<char>,
    group: Seq<char>,
)
    requires
        certifies(json, bytes, edition, chosen, encoding, checked_at),
    ensures
        certificate(json) is Some,
        slice_of(certificate(json)->Some_0.index, bytes.len() as u64, group) == only_span(
            certificate(json)->Some_0.index,
            group,
        ),
{
    let s = certificate(json)->Some_0.index;
    if only_span(s, group) is Some {
        let span = s.groups[group][0];
        assert(span.0 <= span.1 <= s.size);
    }
}

/// A read by a new certificate answers as a read of the whole file does: the same
/// columns and every row. It holds of each group whose section stands alone in its
/// file, and that the standard dictionary has or the file declares, or of which the
/// file's own dictionary, where its section stands alone too, says nothing.
pub proof fn a_new_certificate_reads_as_the_file(
    json: Seq<u8>,
    bytes: Seq<u8>,
    edition: Seq<char>,
    chosen: Option<Chosen>,
    encoding: Seq<char>,
    checked_at: Seq<char>,
    group: Seq<char>,
)
    requires
        certifies(json, bytes, edition, chosen, encoding, checked_at),
        codec(bytes) is Ok,
        stands_alone(indexed(bytes)->Ok_0, bytes, group),
        ({
            let file = codec(bytes)->Ok_0;
            ||| standard(group) is Some
            ||| declares(file, group)
            ||| {
                &&& trimmed(group) == group
                &&& stands_alone(indexed(bytes)->Ok_0, bytes, "DICT"@)
                &&& !dict_names(file, group)
            }
        }),
    ensures
        ({
            let s = certificate(json)->Some_0.index;
            let size = bytes.len() as u64;
            let (start, end) = only_span(s, group)->Some_0;
            match sliced(s, size, bytes.subrange(start as int, end as int), group) {
                Some((g, binding)) => {
                    &&& group_of(codec(bytes)->Ok_0, group) == Some(g)
                    &&& read_answer(codec(bytes)->Ok_0, group) == Ok::<
                        (Seq<(Seq<char>, ColType)>, Seq<Seq<CellView>>),
                        Seq<char>,
                    >((group_columns(g), bound_rows(g, group, binding)))
                },
                None => true,
            }
        }),
{
    let s = certificate(json)->Some_0.index;
    let (start, end) = only_span(s, group)->Some_0;
    let slice = bytes.subrange(start as int, end as int);
    if sliced(s, bytes.len() as u64, slice, group) is Some {
        the_fast_read_agrees(s, bytes.len() as u64, slice, codec(bytes)->Ok_0, group);
    }
}

/// Every row of `certify_ags` and of `certify_ags_text` has a cell for each column,
/// and each cell fits its column.
pub proof fn status_is_well_typed(
    path: Seq<char>,
    certified: bool,
    groups: nat,
    counts: Counts,
    edition: Seq<char>,
    cert: Option<Seq<char>>,
    message: Seq<char>,
)
    ensures
        well_typed(
            status_columns(),
            seq![status_row(path, certified, groups, counts, edition, message)],
        ),
        well_typed(
            status_text_columns(),
            seq![status_text_row(certified, groups, counts, edition, cert, message)],
        ),
{
}

/// A finding counts for its own severity and for no other, wherever it stands.
pub proof fn a_finding_counts_for_its_own_severity(
    before: Seq<FindingView>,
    f: FindingView,
    after: Seq<FindingView>,
    s: Severity,
)
    ensures
        count(Seq::empty(), s) == 0,
        count(before + seq![f] + after, s) == count(before, s) + count(after, s) + if f.severity
            == s {
            1nat
        } else {
            0
        },
    decreases after.len(),
{
    let all = before + seq![f] + after;
    if after.len() == 0 {
        assert(all.drop_last() =~= before);
        assert(all.last() == f);
    } else {
        a_finding_counts_for_its_own_severity(before, f, after.drop_last(), s);
        assert(all.drop_last() =~= before + seq![f] + after.drop_last());
        assert(all.last() == after.last());
    }
}

/// A row of `certify_ags` names the file and its certificate, and says whether it was
/// certified, how many groups it has, how many findings of each severity, the edition
/// and what there is to say.
pub proof fn a_status_row_says_what_was_found(
    path: Seq<char>,
    certified: bool,
    groups: nat,
    findings: Seq<FindingView>,
    edition: Seq<char>,
    message: Seq<char>,
)
    ensures
        status_row(path, certified, groups, counted(findings), edition, message) == seq![
            CellView::Str(path),
            CellView::Str(path + ".idx"@),
            CellView::Bool(certified),
            CellView::Int(groups as i64),
            CellView::Int((count(findings, Severity::Error) as u64) as i64),
            CellView::Int((count(findings, Severity::Warning) as u64) as i64),
            CellView::Int((count(findings, Severity::Fyi) as u64) as i64),
            CellView::Str(edition),
            CellView::Str(message),
        ],
{
}

/// What is said of text with errors: that it was not certified, how many findings there
/// are of each severity, and to check it and mend the errors first.
pub proof fn a_refusal_says_what_was_found(
    content: Seq<char>,
    findings: Seq<FindingView>,
    edition: Seq<char>,
    chosen: Option<Chosen>,
    checked_at: Seq<char>,
    r: Result<Table, String>,
)
    requires
        certified_answer(content, findings, edition, chosen, checked_at, r),
        count(findings, Severity::Error) > 0,
    ensures
        r is Ok,
        rows_view(r->Ok_0.rows@) == seq![
            seq![
                CellView::Bool(false),
                CellView::Int(0),
                CellView::Int((count(findings, Severity::Error) as u64) as i64),
                CellView::Int((count(findings, Severity::Warning) as u64) as i64),
                CellView::Int((count(findings, Severity::Fyi) as u64) as i64),
                CellView::Str(edition),
                CellView::Null,
                CellView::Str(
                    "not certified: "@ + decimal(count(findings, Severity::Error))
                        + " error finding(s) — run "@ + "validate_ags_text(...)"@
                        + " and fix them first"@,
                ),
            ],
        ],
{
}

/// Text without errors that can be indexed is certified: the row holds how many groups
/// it has, how many findings there are of each severity, the edition, and a certificate
/// that reads back with the index of the text, the time, the edition, how that was
/// chosen, the encoding and that no error was counted; and which answers a check for
/// errors of the same text.
pub proof fn clean_text_is_certified(
    content: Seq<char>,
    findings: Seq<FindingView>,
    edition: Seq<char>,
    chosen: Option<Chosen>,
    checked_at: Seq<char>,
    r: Result<Table, String>,
)
    requires
        certified_answer(content, findings, edition, chosen, checked_at, r),
        count(findings, Severity::Error) == 0,
        indexed(vstd::utf8::encode_utf8(content)) is Ok,
    ensures
        ({
            let bytes = vstd::utf8::encode_utf8(content);
            let index = indexed(bytes)->Ok_0;
            let row = rows_view(r->Ok_0.rows@)[0];
            let json = vstd::utf8::encode_utf8(row[6]->Str_0);
            &&& r is Ok
            &&& rows_view(r->Ok_0.rows@).len() == 1
            &&& row.len() == 8
            &&& row[0] == CellView::Bool(true)
            &&& row[1] == CellView::Int(index.order.len() as i64)
            &&& row[2] == CellView::Int(0)
            &&& row[3] == CellView::Int((count(findings, Severity::Warning) as u64) as i64)
            &&& row[4] == CellView::Int((count(findings, Severity::Fyi) as u64) as i64)
            &&& row[5] == CellView::Str(edition)
            &&& row[6] is Str
            &&& row[7] == CellView::Str(
                "certified "@ + decimal(index.order.len())
                    + " group(s) (cert JSON in the `cert` column)"@,
            )
            &&& certificate(json) is Some
            &&& certificate(json)->Some_0.index == index
            &&& certificate(json)->Some_0.verdict == (VerdictView {
                checked_at,
                edition,
                how: match chosen {
                    None => "forced"@,
                    Some(Chosen::Exact) => "exact"@,
                    Some(Chosen::Guessed) => "guessed"@,
                    Some(Chosen::Fallback) => "fallback"@,
                },
                encoding: "UTF-8"@,
                errors: Some(0u32),
                warnings: None,
                fyi: None,
            })
            &&& vouched(
                json,
                bytes,
                false,
                false,
                if chosen is None {
                    Some(edition)
                } else {
                    None
                },
                "UTF-8"@,
            )
        }),
{
}

/// Text that cannot be indexed is not certified: the answer is why.
pub proof fn text_without_an_index_is_not_certified(
    content: Seq<char>,
    findings: Seq<FindingView>,
    edition: Seq<char>,
    chosen: Option<Chosen>,
    checked_at: Seq<char>,
    r: Result<Table, String>,
)
    requires
        certified_answer(content, findings, edition, chosen, checked_at, r),
        count(findings, Severity::Error) == 0,
        indexed(vstd::utf8::encode_utf8(content)) is Err,
    ensures
        r is Err,
        r->Err_0@ == "certify_ags_text: indexing input: "@ + indexed(
            vstd::utf8::encode_utf8(content),
        )->Err_0,
{
}

/// The columns of `certify_ags` and of `certify_ags_text` by name, in their order.
pub proof fn status_columns_by_name()
    ensures
        status_columns().map_values(|c: (Seq<char>, ColType)| c.0) == seq![
            "path"@,
            "index_path"@,
            "certified"@,
            "groups"@,
            "errors"@,
            "warnings"@,
            "fyi"@,
            "dict_version"@,
            "message"@,
        ],
        status_text_columns().map_values(|c: (Seq<char>, ColType)| c.0) == seq![
            "certified"@,
            "groups"@,
            "errors"@,
            "warnings"@,
            "fyi"@,
            "dict_version"@,
            "cert"@,
            "message"@,
        ],
{
}

} // verus!
