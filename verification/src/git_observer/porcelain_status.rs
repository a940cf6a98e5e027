//! Summary parser for `git status --porcelain=v2 --branch -z`.

use vstd::prelude::*;
use vstd::string::StringExecFns;

use crate::bytes::{
    ascii_chars, ascii_string, copy_range, eq_bytes, find_byte, has_prefix, is_digit_byte,
    is_hex_byte, is_object_id, object_id, split_bytes, split_on, starts_with, views,
};
use crate::git_observer::porcelain::{first_index_of, lemma_first_index_of, opt_bytes, opt_string, MAX_PORCELAIN_FIELD_BYTES};
use crate::message::{decimal_chars, lemma_usize_decimal_len, push_decimal};

verus! {

/// Status metadata and counts without persisted pathnames.
#[derive(Debug, Clone, PartialEq, Eq)]
pub struct StatusSummary {
    pub branch_oid: Option<String>,
    pub branch_head: Option<Vec<u8>>,
    pub detached: bool,
    pub initial: bool,
    pub upstream: Option<Vec<u8>>,
    pub ahead: Option<u64>,
    pub behind: Option<u64>,
    pub staged_count: u64,
    pub unstaged_count: u64,
    pub untracked_count: u64,
    pub conflicted_count: u64,
    pub tracked_record_count: u64,
    pub rename_or_copy_count: u64,
    pub ignored_count: u64,
    pub unknown_header_count: u64,
}

/// Stable classification for malformed status porcelain.
#[derive(Debug, Clone, PartialEq, Eq)]
pub enum StatusParseErrorKind {
    MissingTerminator,
    MissingBranchOid,
    MissingBranchHead,
    DuplicateHeader(&'static str),
    InvalidBranchOid,
    InvalidAheadBehind,
    InvalidTrackedRecord,
    InvalidUnmergedRecord,
    InvalidXy,
    EmptyPath,
    MissingRenameSource,
    UnknownRecordType,
    FieldTooLong { actual: usize, max: usize },
}

/// Bounded parse error that never embeds filenames or raw fields.
#[derive(Debug, Clone, PartialEq, Eq)]
pub struct StatusParseError {
    pub field_index: usize,
    pub kind: StatusParseErrorKind,
}

/// Mathematical view of a status summary.
pub struct SummaryView {
    pub branch_oid: Option<Seq<char>>,
    pub branch_head: Option<Seq<u8>>,
    pub detached: bool,
    pub initial: bool,
    pub upstream: Option<Seq<u8>>,
    pub ahead: Option<u64>,
    pub behind: Option<u64>,
    pub staged_count: nat,
    pub unstaged_count: nat,
    pub untracked_count: nat,
    pub conflicted_count: nat,
    pub tracked_record_count: nat,
    pub rename_or_copy_count: nat,
    pub ignored_count: nat,
    pub unknown_header_count: nat,
}

impl View for StatusSummary {
    type V = SummaryView;

    open spec fn view(&self) -> SummaryView {
        SummaryView {
            branch_oid: opt_string(self.branch_oid),
            branch_head: opt_bytes(self.branch_head),
            detached: self.detached,
            initial: self.initial,
            upstream: opt_bytes(self.upstream),
            ahead: self.ahead,
            behind: self.behind,
            staged_count: self.staged_count as nat,
            unstaged_count: self.unstaged_count as nat,
            untracked_count: self.untracked_count as nat,
            conflicted_count: self.conflicted_count as nat,
            tracked_record_count: self.tracked_record_count as nat,
            rename_or_copy_count: self.rename_or_copy_count as nat,
            ignored_count: self.ignored_count as nat,
            unknown_header_count: self.unknown_header_count as nat,
        }
    }
}

pub open spec fn empty_summary() -> SummaryView {
    SummaryView {
        branch_oid: None,
        branch_head: None,
        detached: false,
        initial: false,
        upstream: None,
        ahead: None,
        behind: None,
        staged_count: 0,
        unstaged_count: 0,
        untracked_count: 0,
        conflicted_count: 0,
        tracked_record_count: 0,
        rename_or_copy_count: 0,
        ignored_count: 0,
        unknown_header_count: 0,
    }
}

pub open spec fn serr(fi: usize, kind: StatusParseErrorKind) -> StatusParseError {
    StatusParseError { field_index: fi, kind }
}

pub open spec fn lit_oid_header() -> Seq<u8> {
    seq![35u8, 32u8, 98u8, 114u8, 97u8, 110u8, 99u8, 104u8, 46u8, 111u8, 105u8, 100u8, 32u8]
}

pub open spec fn lit_head_header() -> Seq<u8> {
    seq![35u8, 32u8, 98u8, 114u8, 97u8, 110u8, 99u8, 104u8, 46u8, 104u8, 101u8, 97u8, 100u8, 32u8]
}

pub open spec fn lit_upstream_header() -> Seq<u8> {
    seq![35u8, 32u8, 98u8, 114u8, 97u8, 110u8, 99u8, 104u8, 46u8, 117u8, 112u8, 115u8, 116u8, 114u8, 101u8, 97u8, 109u8, 32u8]
}

pub open spec fn lit_ab_header() -> Seq<u8> {
    seq![35u8, 32u8, 98u8, 114u8, 97u8, 110u8, 99u8, 104u8, 46u8, 97u8, 98u8, 32u8]
}

pub open spec fn lit_initial() -> Seq<u8> {
    seq![40u8, 105u8, 110u8, 105u8, 116u8, 105u8, 97u8, 108u8, 41u8]
}

pub open spec fn lit_detached_marker() -> Seq<u8> {
    seq![40u8, 100u8, 101u8, 116u8, 97u8, 99u8, 104u8, 101u8, 100u8, 41u8]
}

/// Which branch headers have been seen, and whether the next field is a rename source.
pub struct StatusState {
    pub summary: SummaryView,
    pub oid_seen: bool,
    pub head_seen: bool,
    pub upstream_seen: bool,
    pub ab_seen: bool,
    pub expect_rename_source: bool,
}

pub open spec fn initial_status_state() -> StatusState {
    StatusState {
        summary: empty_summary(),
        oid_seen: false,
        head_seen: false,
        upstream_seen: false,
        ab_seen: false,
        expect_rename_source: false,
    }
}

/// Decimal value of a digit string.
pub open spec fn digits_value(d: Seq<u8>) -> nat
    decreases d.len(),
{
    if d.len() == 0 {
        0
    } else {
        digits_value(d.drop_last()) * 10 + (d.last() - 48) as nat
    }
}

/// `prefix` followed by a nonempty run of decimal digits whose value fits in `u64`.
pub open spec fn signed_count(value: Seq<u8>, prefix: u8) -> Option<u64> {
    if value.len() >= 2 && value[0] == prefix && (forall|i: int| 1 <= i < value.len() ==> is_digit_byte(#[trigger] value[i]))
        && digits_value(value.skip(1)) <= u64::MAX {
        Some(digits_value(value.skip(1)) as u64)
    } else {
        None
    }
}

/// `+<ahead> -<behind>`.
pub open spec fn ahead_behind(value: Seq<u8>) -> Option<(u64, u64)> {
    let parts = split_bytes(value, 32u8);
    if parts.len() == 2 && signed_count(parts[0], 43u8) is Some && signed_count(parts[1], 45u8) is Some {
        Some((signed_count(parts[0], 43u8).unwrap(), signed_count(parts[1], 45u8).unwrap()))
    } else {
        None
    }
}

/// Effect of a `# branch.oid <value>` header.
pub open spec fn apply_oid(st: StatusState, value: Seq<u8>, fi: usize) -> Result<StatusState, StatusParseError> {
    let s = st.summary;
    if st.oid_seen {
        Err(serr(fi, StatusParseErrorKind::DuplicateHeader("branch.oid")))
    } else if value == lit_initial() {
        Ok(StatusState { oid_seen: true, summary: SummaryView { initial: true, ..s }, ..st })
    } else if !is_object_id(value) {
        Err(serr(fi, StatusParseErrorKind::InvalidBranchOid))
    } else {
        Ok(StatusState { oid_seen: true, summary: SummaryView { branch_oid: Some(ascii_chars(value)), ..s }, ..st })
    }
}

/// Effect of a `# branch.head <value>` header.
pub open spec fn apply_head(st: StatusState, value: Seq<u8>, fi: usize) -> Result<StatusState, StatusParseError> {
    let s = st.summary;
    if st.head_seen {
        Err(serr(fi, StatusParseErrorKind::DuplicateHeader("branch.head")))
    } else if value == lit_detached_marker() {
        Ok(StatusState { head_seen: true, summary: SummaryView { detached: true, ..s }, ..st })
    } else if value.len() == 0 {
        Err(serr(fi, StatusParseErrorKind::MissingBranchHead))
    } else {
        Ok(StatusState { head_seen: true, summary: SummaryView { branch_head: Some(value), ..s }, ..st })
    }
}

/// Effect of a `# branch.upstream <value>` header.
pub open spec fn apply_upstream(st: StatusState, value: Seq<u8>, fi: usize) -> Result<StatusState, StatusParseError> {
    let s = st.summary;
    if st.upstream_seen {
        Err(serr(fi, StatusParseErrorKind::DuplicateHeader("branch.upstream")))
    } else if value.len() == 0 {
        Err(serr(fi, StatusParseErrorKind::InvalidAheadBehind))
    } else {
        Ok(StatusState { upstream_seen: true, summary: SummaryView { upstream: Some(value), ..s }, ..st })
    }
}

/// Effect of a `# branch.ab <value>` header.
pub open spec fn apply_ab(st: StatusState, value: Seq<u8>, fi: usize) -> Result<StatusState, StatusParseError> {
    let s = st.summary;
    if st.ab_seen {
        Err(serr(fi, StatusParseErrorKind::DuplicateHeader("branch.ab")))
    } else {
        match ahead_behind(value) {
            None => Err(serr(fi, StatusParseErrorKind::InvalidAheadBehind)),
            Some(ab) => Ok(StatusState {
                ab_seen: true,
                summary: SummaryView { ahead: Some(ab.0), behind: Some(ab.1), ..s },
                ..st
            }),
        }
    }
}

/// Effect of a `# ...` header field; unknown headers are only counted.
pub open spec fn apply_header(st: StatusState, f: Seq<u8>, fi: usize) -> Result<StatusState, StatusParseError> {
    let s = st.summary;
    if has_prefix(f, lit_oid_header()) {
        apply_oid(st, f.skip(13), fi)
    } else if has_prefix(f, lit_head_header()) {
        apply_head(st, f.skip(14), fi)
    } else if has_prefix(f, lit_upstream_header()) {
        apply_upstream(st, f.skip(18), fi)
    } else if has_prefix(f, lit_ab_header()) {
        apply_ab(st, f.skip(12), fi)
    } else {
        Ok(StatusState { summary: SummaryView { unknown_header_count: s.unknown_header_count + 1, ..s }, ..st })
    }
}

/// At most `n` pieces split at spaces, the last piece holding the rest (`splitn`).
pub open spec fn splitn_spaces(s: Seq<u8>, n: nat) -> Seq<Seq<u8>>
    decreases n,
{
    if n <= 1 {
        seq![s]
    } else {
        match first_index_of(s, 32u8) {
            None => seq![s],
            Some(p) => seq![s.take(p)] + splitn_spaces(s.skip(p + 1), (n - 1) as nat),
        }
    }
}

/// Exactly `n` nonempty space-separated pieces.
pub open spec fn record_parts_ok(s: Seq<u8>, n: nat) -> bool {
    splitn_spaces(s, n).len() == n && forall|i: int| 0 <= i < n ==> #[trigger] splitn_spaces(s, n)[i].len() > 0
}

pub open spec fn valid_xy_byte_spec(b: u8) -> bool {
    b == 46u8 || b == 77u8 || b == 84u8 || b == 65u8 || b == 68u8 || b == 82u8 || b == 67u8 || b == 85u8
}

pub open spec fn valid_xy(xy: Seq<u8>) -> bool {
    xy.len() == 2 && valid_xy_byte_spec(xy[0]) && valid_xy_byte_spec(xy[1])
}

/// Effect of a tracked (`1`), renamed/copied (`2`) or unmerged (`u`) record.
pub open spec fn apply_tracked(st: StatusState, f: Seq<u8>, fi: usize) -> Result<StatusState, StatusParseError> {
    let s = st.summary;
    let kind = f[0];
    if kind == 49u8 || kind == 50u8 || kind == 117u8 {
        let n: nat = if kind == 49u8 { 9 } else if kind == 50u8 { 10 } else { 11 };
        let bad = if kind == 117u8 { StatusParseErrorKind::InvalidUnmergedRecord } else { StatusParseErrorKind::InvalidTrackedRecord };
        if !record_parts_ok(f, n) || splitn_spaces(f, n)[0] != seq![kind] {
            Err(serr(fi, bad))
        } else if !valid_xy(splitn_spaces(f, n)[1]) {
            Err(serr(fi, StatusParseErrorKind::InvalidXy))
        } else {
            let xy = splitn_spaces(f, n)[1];
            Ok(StatusState {
                summary: SummaryView {
                    staged_count: if xy[0] != 46u8 { s.staged_count + 1 } else { s.staged_count },
                    unstaged_count: if xy[1] != 46u8 { s.unstaged_count + 1 } else { s.unstaged_count },
                    tracked_record_count: s.tracked_record_count + 1,
                    rename_or_copy_count: if kind == 50u8 { s.rename_or_copy_count + 1 } else { s.rename_or_copy_count },
                    conflicted_count: if kind == 117u8 { s.conflicted_count + 1 } else { s.conflicted_count },
                    ..s
                },
                expect_rename_source: kind == 50u8,
                ..st
            })
        }
    } else {
        Err(serr(fi, StatusParseErrorKind::UnknownRecordType))
    }
}

/// Effect of one field.
pub open spec fn status_step(st: StatusState, f: Seq<u8>, fi: usize) -> Result<StatusState, StatusParseError> {
    let s = st.summary;
    if f.len() > MAX_PORCELAIN_FIELD_BYTES {
        Err(serr(fi, StatusParseErrorKind::FieldTooLong { actual: f.len() as usize, max: MAX_PORCELAIN_FIELD_BYTES }))
    } else if st.expect_rename_source {
        if f.len() == 0 {
            Err(serr(fi, StatusParseErrorKind::EmptyPath))
        } else {
            Ok(StatusState { expect_rename_source: false, ..st })
        }
    } else if has_prefix(f, seq![35u8, 32u8]) {
        apply_header(st, f, fi)
    } else if has_prefix(f, seq![63u8, 32u8]) {
        if f.len() == 2 {
            Err(serr(fi, StatusParseErrorKind::EmptyPath))
        } else {
            Ok(StatusState { summary: SummaryView { untracked_count: s.untracked_count + 1, ..s }, ..st })
        }
    } else if has_prefix(f, seq![33u8, 32u8]) {
        if f.len() == 2 {
            Err(serr(fi, StatusParseErrorKind::EmptyPath))
        } else {
            Ok(StatusState { summary: SummaryView { ignored_count: s.ignored_count + 1, ..s }, ..st })
        }
    } else if f.len() == 0 {
        Err(serr(fi, StatusParseErrorKind::UnknownRecordType))
    } else {
        apply_tracked(st, f, fi)
    }
}

/// End of the fields: a pending rename source and missing branch headers are errors.
pub open spec fn finish_status(st: StatusState) -> Result<SummaryView, StatusParseError> {
    if st.expect_rename_source {
        Err(serr(0, StatusParseErrorKind::MissingRenameSource))
    } else if !st.oid_seen {
        Err(serr(0, StatusParseErrorKind::MissingBranchOid))
    } else if !st.head_seen {
        Err(serr(0, StatusParseErrorKind::MissingBranchHead))
    } else {
        Ok(st.summary)
    }
}

pub open spec fn run_status(fields: Seq<Seq<u8>>, i: int, st: StatusState) -> Result<SummaryView, StatusParseError>
    decreases fields.len() - i,
{
    if i < 0 || i >= fields.len() {
        finish_status(st)
    } else {
        match status_step(st, fields[i], i as usize) {
            Err(e) => Err(e),
            Ok(st2) => run_status(fields, i + 1, st2),
        }
    }
}

/// The summary that NUL-terminated `git status --porcelain=v2 --branch -z` output
/// describes, or the first malformation found in it.
pub open spec fn parse_status_spec(input: Seq<u8>) -> Result<SummaryView, StatusParseError> {
    if input.len() == 0 || input.last() != 0u8 {
        Err(serr(0, StatusParseErrorKind::MissingTerminator))
    } else {
        run_status(split_bytes(input.drop_last(), 0u8), 0, initial_status_state())
    }
}

/// Counts and branch facts that every parsed summary satisfies.
pub open spec fn summary_consistent(s: SummaryView) -> bool {
    &&& s.staged_count <= s.tracked_record_count
    &&& s.unstaged_count <= s.tracked_record_count
    &&& s.rename_or_copy_count <= s.tracked_record_count
    &&& s.conflicted_count <= s.tracked_record_count
    &&& s.rename_or_copy_count + s.conflicted_count <= s.tracked_record_count
    &&& (s.ahead is Some) == (s.behind is Some)
    &&& s.initial ==> s.branch_oid is None
    &&& s.detached ==> s.branch_head is None
    &&& !(s.initial && s.branch_oid is Some)
}

pub open spec fn status_state_inv(st: StatusState) -> bool {
    &&& summary_consistent(st.summary)
    &&& (st.summary.initial || st.summary.branch_oid is Some) ==> st.oid_seen
    &&& (st.summary.detached || st.summary.branch_head is Some) ==> st.head_seen
    &&& st.summary.ahead is Some ==> st.ab_seen
}

proof fn lemma_status_step_inv(st: StatusState, f: Seq<u8>, fi: usize)
    requires
        status_state_inv(st),
    ensures
        status_step(st, f, fi) matches Ok(st2) ==> status_state_inv(st2),
{
}

proof fn lemma_run_status_inv(fields: Seq<Seq<u8>>, i: int, st: StatusState)
    requires
        status_state_inv(st),
    ensures
        run_status(fields, i, st) matches Ok(s) ==> summary_consistent(s),
    decreases fields.len() - i,
{
    if 0 <= i < fields.len() {
        lemma_status_step_inv(st, fields[i], i as usize);
        if let Ok(st2) = status_step(st, fields[i], i as usize) {
            lemma_run_status_inv(fields, i + 1, st2);
        }
    }
}

/// Every parsed summary is consistent.
pub proof fn lemma_parsed_summary_consistent(input: Seq<u8>)
    ensures
        parse_status_spec(input) matches Ok(s) ==> summary_consistent(s),
{
    if input.len() > 0 && input.last() == 0u8 {
        lemma_run_status_inv(split_bytes(input.drop_last(), 0u8), 0, initial_status_state());
    }
}

impl StatusParseError {
    fn new(field_index: usize, kind: StatusParseErrorKind) -> (e: Self)
        ensures
            e == serr(field_index, kind),
    {
        Self { field_index, kind }
    }
}

/// Copy of `s[start..]`.
fn tail(s: &[u8], start: usize) -> (r: Vec<u8>)
    requires
        start <= s.len(),
    ensures
        r@ == s@.skip(start as int),
{
    let r = copy_range(s, start, s.len());
    assert(r@ =~= s@.skip(start as int));
    r
}

/// Parser state kept beside the summary.
struct HeaderState {
    oid_seen: bool,
    head_seen: bool,
    upstream_seen: bool,
    ab_seen: bool,
    expect_rename_source: bool,
}

spec fn mk_state(s: StatusSummary, h: HeaderState) -> StatusState {
    StatusState {
        summary: s@,
        oid_seen: h.oid_seen,
        head_seen: h.head_seen,
        upstream_seen: h.upstream_seen,
        ab_seen: h.ab_seen,
        expect_rename_source: h.expect_rename_source,
    }
}

spec fn step_matches(r: Result<(), StatusParseError>, expected: Result<StatusState, StatusParseError>, s: StatusSummary, h: HeaderState) -> bool {
    match r {
        Ok(()) => expected == Ok::<StatusState, StatusParseError>(mk_state(s, h)),
        Err(e) => expected == Err::<StatusState, StatusParseError>(e),
    }
}

fn parse_oid(value: &[u8], summary: &mut StatusSummary, headers: &mut HeaderState, field_index: usize) -> (r: Result<(), StatusParseError>)
    ensures
        step_matches(r, apply_oid(mk_state(*old(summary), *old(headers)), value@, field_index), *final(summary), *final(headers)),
{
    if headers.oid_seen {
        return Err(StatusParseError::new(field_index, StatusParseErrorKind::DuplicateHeader("branch.oid")));
    }
    headers.oid_seen = true;
    let initial: [u8; 9] = [40u8, 105u8, 110u8, 105u8, 116u8, 105u8, 97u8, 108u8, 41u8];
    assert(initial@ == lit_initial());
    if eq_bytes(value, &initial) {
        summary.initial = true;
        return Ok(());
    }
    if !object_id(value) {
        return Err(StatusParseError::new(field_index, StatusParseErrorKind::InvalidBranchOid));
    }
    proof {
        assert forall|i: int| 0 <= i < value@.len() implies #[trigger] value@[i] < 128 by {
            assert(is_hex_byte(value@[i]));
        }
    }
    summary.branch_oid = Some(ascii_string(value));
    Ok(())
}

fn parse_head(value: &[u8], summary: &mut StatusSummary, headers: &mut HeaderState, field_index: usize) -> (r: Result<(), StatusParseError>)
    ensures
        step_matches(r, apply_head(mk_state(*old(summary), *old(headers)), value@, field_index), *final(summary), *final(headers)),
{
    if headers.head_seen {
        return Err(StatusParseError::new(field_index, StatusParseErrorKind::DuplicateHeader("branch.head")));
    }
    headers.head_seen = true;
    let detached: [u8; 10] = [40u8, 100u8, 101u8, 116u8, 97u8, 99u8, 104u8, 101u8, 100u8, 41u8];
    assert(detached@ == lit_detached_marker());
    if eq_bytes(value, &detached) {
        summary.detached = true;
    } else if value.len() == 0 {
        return Err(StatusParseError::new(field_index, StatusParseErrorKind::MissingBranchHead));
    } else {
        summary.branch_head = Some(copy_range(value, 0, value.len()));
        assert(value@.subrange(0, value@.len() as int) =~= value@);
    }
    Ok(())
}

fn parse_upstream(value: &[u8], summary: &mut StatusSummary, headers: &mut HeaderState, field_index: usize) -> (r: Result<(), StatusParseError>)
    ensures
        step_matches(r, apply_upstream(mk_state(*old(summary), *old(headers)), value@, field_index), *final(summary), *final(headers)),
{
    if headers.upstream_seen {
        return Err(StatusParseError::new(field_index, StatusParseErrorKind::DuplicateHeader("branch.upstream")));
    }
    headers.upstream_seen = true;
    if value.len() == 0 {
        return Err(StatusParseError::new(field_index, StatusParseErrorKind::InvalidAheadBehind));
    }
    summary.upstream = Some(copy_range(value, 0, value.len()));
    assert(value@.subrange(0, value@.len() as int) =~= value@);
    Ok(())
}

pub(crate) proof fn lemma_digits_value_push(d: Seq<u8>, b: u8)
    ensures
        digits_value(d.push(b)) == digits_value(d) * 10 + (b - 48) as nat,
{
    assert(d.push(b).drop_last() =~= d);
}

/// `prefix` followed by a nonempty run of digits whose value fits in `u64`.
fn parse_signed_count(value: &[u8], prefix: u8) -> (r: Option<u64>)
    ensures
        r == signed_count(value@, prefix),
{
    if value.len() < 2 || value[0] != prefix {
        return None;
    }
    let mut total: u64 = 0;
    let mut i: usize = 1;
    proof {
        assert(value@.subrange(1, 1) =~= Seq::<u8>::empty());
    }
    while i < value.len()
        invariant
            1 <= i <= value.len(),
            value.len() >= 2,
            forall|j: int| 1 <= j < i ==> is_digit_byte(#[trigger] value@[j]),
            total as nat == digits_value(value@.subrange(1, i as int)),
        decreases value.len() - i,
    {
        let b = value[i];
        if !(48 <= b && b <= 57) {
            assert(!is_digit_byte(value@[i as int]));
            return None;
        }
        proof {
            lemma_digits_value_push(value@.subrange(1, i as int), b);
            assert(value@.subrange(1, i + 1) =~= value@.subrange(1, i as int).push(b));
        }
        let digit: u64 = (b - 48) as u64;
        if total > 1844674407370955161u64 || (total == 1844674407370955161u64 && digit > 5) {
            proof {
                if forall|j: int| 1 <= j < value@.len() ==> is_digit_byte(#[trigger] value@[j]) {
                    let d = value@.skip(1);
                    assert forall|j: int| 0 <= j < d.len() implies is_digit_byte(#[trigger] d[j]) by {
                        assert(d[j] == value@[j + 1]);
                    }
                    lemma_digits_prefix_bound(d, (i - 1) as int);
                    assert(d.take(i as int) =~= value@.subrange(1, i + 1));
                }
            }
            return None;
        }
        total = total * 10 + digit;
        i += 1;
    }
    assert(value@.subrange(1, value@.len() as int) =~= value@.skip(1));
    Some(total)
}

/// A longer digit string has at least the value of its prefix times ten.
pub(crate) proof fn lemma_digits_prefix_bound(d: Seq<u8>, k: int)
    requires
        0 <= k < d.len(),
        forall|j: int| 0 <= j < d.len() ==> is_digit_byte(#[trigger] d[j]),
    ensures
        digits_value(d) >= digits_value(d.take(k + 1)),
    decreases d.len(),
{
    if d.len() > k + 1 {
        lemma_digits_prefix_bound(d.drop_last(), k);
        assert(d.drop_last().take(k + 1) =~= d.take(k + 1));
    } else {
        assert(d.take(k + 1) =~= d);
    }
}

fn parse_ab(value: &[u8], summary: &mut StatusSummary, headers: &mut HeaderState, field_index: usize) -> (r: Result<(), StatusParseError>)
    ensures
        step_matches(r, apply_ab(mk_state(*old(summary), *old(headers)), value@, field_index), *final(summary), *final(headers)),
{
    if headers.ab_seen {
        return Err(StatusParseError::new(field_index, StatusParseErrorKind::DuplicateHeader("branch.ab")));
    }
    headers.ab_seen = true;
    let parts = split_on(value, 32u8);
    proof {
        crate::bytes::lemma_split_bytes_nonempty(value@, 32u8);
        assert(parts@[0]@ == split_bytes(value@, 32u8)[0]);
    }
    let ahead = parse_signed_count(parts[0].as_slice(), 43u8);
    let behind = if parts.len() >= 2 {
        assert(parts@[1]@ == split_bytes(value@, 32u8)[1]);
        parse_signed_count(parts[1].as_slice(), 45u8)
    } else {
        None
    };
    if ahead.is_none() || behind.is_none() || parts.len() > 2 {
        return Err(StatusParseError::new(field_index, StatusParseErrorKind::InvalidAheadBehind));
    }
    summary.ahead = ahead;
    summary.behind = behind;
    Ok(())
}


fn parse_header(field: &[u8], summary: &mut StatusSummary, headers: &mut HeaderState, field_index: usize) -> (r: Result<(), StatusParseError>)
    requires
        old(summary).unknown_header_count < u64::MAX,
    ensures
        step_matches(r, apply_header(mk_state(*old(summary), *old(headers)), field@, field_index), *final(summary), *final(headers)),
{
    let oid: [u8; 13] = [35u8, 32u8, 98u8, 114u8, 97u8, 110u8, 99u8, 104u8, 46u8, 111u8, 105u8, 100u8, 32u8];
    let head: [u8; 14] = [35u8, 32u8, 98u8, 114u8, 97u8, 110u8, 99u8, 104u8, 46u8, 104u8, 101u8, 97u8, 100u8, 32u8];
    let upstream: [u8; 18] = [35u8, 32u8, 98u8, 114u8, 97u8, 110u8, 99u8, 104u8, 46u8, 117u8, 112u8, 115u8, 116u8, 114u8, 101u8, 97u8, 109u8, 32u8];
    let ab: [u8; 12] = [35u8, 32u8, 98u8, 114u8, 97u8, 110u8, 99u8, 104u8, 46u8, 97u8, 98u8, 32u8];
    assert(oid@ == lit_oid_header());
    assert(head@ == lit_head_header());
    assert(upstream@ == lit_upstream_header());
    assert(ab@ == lit_ab_header());
    if starts_with(field, &oid) {
        let value = tail(field, 13);
        parse_oid(value.as_slice(), summary, headers, field_index)
    } else if starts_with(field, &head) {
        let value = tail(field, 14);
        parse_head(value.as_slice(), summary, headers, field_index)
    } else if starts_with(field, &upstream) {
        let value = tail(field, 18);
        parse_upstream(value.as_slice(), summary, headers, field_index)
    } else if starts_with(field, &ab) {
        let value = tail(field, 12);
        parse_ab(value.as_slice(), summary, headers, field_index)
    } else {
        summary.unknown_header_count = summary.unknown_header_count + 1;
        Ok(())
    }
}

/// At most `n` space-separated pieces of `s`, the last holding the rest.
fn splitn_spaces_exec(s: &[u8], n: usize) -> (parts: Vec<Vec<u8>>)
    requires
        n >= 1,
    ensures
        views(parts@) == splitn_spaces(s@, n as nat),
{
    let mut parts: Vec<Vec<u8>> = Vec::new();
    let mut start: usize = 0;
    let mut remaining: usize = n;
    proof {
        assert(s@.skip(0) =~= s@);
        assert(views(parts@) + splitn_spaces(s@.skip(0), n as nat) =~= splitn_spaces(s@, n as nat));
    }
    loop
        invariant_except_break
            start <= s.len(),
            1 <= remaining <= n,
            views(parts@) + splitn_spaces(s@.skip(start as int), remaining as nat) == splitn_spaces(s@, n as nat),
        ensures
            views(parts@) == splitn_spaces(s@, n as nat),
        decreases remaining,
    {
        let ghost rest = s@.skip(start as int);
        let ghost before = views(parts@);
        if remaining <= 1 {
            let piece = tail(s, start);
            parts.push(piece);
            assert(views(parts@) =~= before + splitn_spaces(rest, remaining as nat));
            break;
        }
        match find_byte(s, 32u8, start) {
            None => {
                proof {
                    if exists|p: int| 0 <= p < rest.len() && rest[p] == 32u8 && forall|j: int| 0 <= j < p ==> rest[j] != 32u8 {
                        let p = choose|p: int| 0 <= p < rest.len() && rest[p] == 32u8 && forall|j: int| 0 <= j < p ==> rest[j] != 32u8;
                        assert(s@[start + p] == 32u8);
                    }
                    assert(first_index_of(rest, 32u8) is None);
                }
                let piece = tail(s, start);
                parts.push(piece);
                assert(views(parts@) =~= before + splitn_spaces(rest, remaining as nat));
                break;
            },
            Some(p) => {
                proof {
                    lemma_first_index_of(rest, 32u8, p - start);
                    assert(rest.skip(p - start + 1) =~= s@.skip(p + 1));
                    assert(rest.take(p - start) =~= s@.subrange(start as int, p as int));
                }
                let piece = copy_range(s, start, p);
                parts.push(piece);
                assert(views(parts@) =~= before.push(rest.take(p - start)));
                assert(splitn_spaces(rest, remaining as nat) =~= seq![rest.take(p - start)] + splitn_spaces(s@.skip(p + 1), (remaining - 1) as nat));
                assert(views(parts@) + splitn_spaces(s@.skip(p + 1), (remaining - 1) as nat) =~= before + splitn_spaces(rest, remaining as nat));
                start = p + 1;
                remaining = remaining - 1;
            },
        }
    }
    parts
}

fn valid_xy_byte(value: u8) -> (r: bool)
    ensures
        r == valid_xy_byte_spec(value),
{
    value == 46u8 || value == 77u8 || value == 84u8 || value == 65u8 || value == 68u8 || value == 82u8 || value == 67u8 || value == 85u8
}

/// Bounds of the counters before one more record is counted.
pub open spec fn counts_below(s: SummaryView, bound: nat) -> bool {
    &&& s.staged_count <= bound
    &&& s.unstaged_count <= bound
    &&& s.untracked_count <= bound
    &&& s.conflicted_count <= bound
    &&& s.tracked_record_count <= bound
    &&& s.rename_or_copy_count <= bound
    &&& s.ignored_count <= bound
    &&& s.unknown_header_count <= bound
}

fn parse_tracked(field: &[u8], summary: &mut StatusSummary, headers: &HeaderState, field_index: usize) -> (r: Result<bool, StatusParseError>)
    requires
        field.len() > 0,
        counts_below(old(summary)@, (u64::MAX - 1) as nat),
    ensures
        match r {
            Ok(expect) => apply_tracked(mk_state(*old(summary), *headers), field@, field_index) == Ok::<StatusState, StatusParseError>(
                mk_state(*final(summary), HeaderState { expect_rename_source: expect, ..*headers })),
            Err(e) => apply_tracked(mk_state(*old(summary), *headers), field@, field_index) == Err::<StatusState, StatusParseError>(e),
        },
{
    let kind = field[0];
    if !(kind == 49u8 || kind == 50u8 || kind == 117u8) {
        return Err(StatusParseError::new(field_index, StatusParseErrorKind::UnknownRecordType));
    }
    let n: usize = if kind == 49u8 { 9 } else if kind == 50u8 { 10 } else { 11 };
    let bad = if kind == 117u8 { StatusParseErrorKind::InvalidUnmergedRecord } else { StatusParseErrorKind::InvalidTrackedRecord };
    let parts = splitn_spaces_exec(field, n);
    let ghost sp = splitn_spaces(field@, n as nat);
    let mut ok = parts.len() == n;
    let mut k: usize = 0;
    while ok && k < parts.len()
        invariant
            views(parts@) == sp,
            sp == splitn_spaces(field@, n as nat),
            k <= parts.len(),
            ok ==> parts.len() == n,
            ok ==> forall|j: int| 0 <= j < k ==> #[trigger] sp[j].len() > 0,
            !ok ==> !record_parts_ok(field@, n as nat),
        decreases parts.len() - k,
    {
        assert(views(parts@)[k as int] == parts@[k as int]@);
        assert(parts@[k as int]@ == sp[k as int]);
        if parts[k].len() == 0 {
            assert(splitn_spaces(field@, n as nat)[k as int].len() == 0);
            ok = false;
        }
        k += 1;
    }
    if !ok {
        return Err(StatusParseError::new(field_index, bad));
    }
    assert(record_parts_ok(field@, n as nat));
    assert(parts@[0]@ == sp[0]);
    assert(parts@[1]@ == sp[1]);
    let first: [u8; 1] = [kind];
    assert(first@ == seq![kind]);
    if !eq_bytes(parts[0].as_slice(), &first) {
        return Err(StatusParseError::new(field_index, bad));
    }
    let xy = parts[1].as_slice();
    if xy.len() != 2 || !valid_xy_byte(xy[0]) || !valid_xy_byte(xy[1]) {
        return Err(StatusParseError::new(field_index, StatusParseErrorKind::InvalidXy));
    }
    if xy[0] != 46u8 {
        summary.staged_count = summary.staged_count + 1;
    }
    if xy[1] != 46u8 {
        summary.unstaged_count = summary.unstaged_count + 1;
    }
    summary.tracked_record_count = summary.tracked_record_count + 1;
    if kind == 50u8 {
        summary.rename_or_copy_count = summary.rename_or_copy_count + 1;
    }
    if kind == 117u8 {
        summary.conflicted_count = summary.conflicted_count + 1;
    }
    Ok(kind == 50u8)
}

fn empty_status_summary() -> (s: StatusSummary)
    ensures
        s@ == empty_summary(),
{
    StatusSummary {
        branch_oid: None,
        branch_head: None,
        detached: false,
        initial: false,
        upstream: None,
        ahead: None,
        behind: None,
        staged_count: 0,
        unstaged_count: 0,
        untracked_count: 0,
        conflicted_count: 0,
        tracked_record_count: 0,
        rename_or_copy_count: 0,
        ignored_count: 0,
        unknown_header_count: 0,
    }
}

/// Parse status porcelain into branch metadata and counts only.
pub fn parse_status_porcelain_v2(input: &[u8]) -> (r: Result<StatusSummary, StatusParseError>)
    ensures
        match r {
            Ok(s) => parse_status_spec(input@) == Ok::<SummaryView, StatusParseError>(s@),
            Err(e) => parse_status_spec(input@) == Err::<SummaryView, StatusParseError>(e),
        },
        r matches Ok(s) ==> summary_consistent(s@),
        r matches Err(e) ==> status_error_message(e).len() <= 192,
{
    proof {
        lemma_parsed_summary_consistent(input@);
        lemma_status_parse_errors_bounded(input@);
    }
    if input.len() == 0 || input[input.len() - 1] != 0u8 {
        return Err(StatusParseError::new(0, StatusParseErrorKind::MissingTerminator));
    }
    let body = copy_range(input, 0, input.len() - 1);
    assert(body@ =~= input@.drop_last());
    let fields = split_on(body.as_slice(), 0u8);
    let ghost fs = split_bytes(input@.drop_last(), 0u8);
    let mut summary = empty_status_summary();
    let mut headers = HeaderState { oid_seen: false, head_seen: false, upstream_seen: false, ab_seen: false, expect_rename_source: false };
    let mut i: usize = 0;
    while i < fields.len()
        invariant
            views(fields@) == fs,
            i <= fields.len(),
            counts_below(summary@, i as nat),
            parse_status_spec(input@) matches Err(e) ==> status_error_message(e).len() <= 192,
            run_status(fs, i as int, mk_state(summary, headers)) == parse_status_spec(input@),
        decreases fields.len() - i,
    {
        let field: &Vec<u8> = &fields[i];
        assert(field@ == fs[i as int]);
        let ghost st = mk_state(summary, headers);
        if field.len() > MAX_PORCELAIN_FIELD_BYTES {
            return Err(StatusParseError::new(i, StatusParseErrorKind::FieldTooLong { actual: field.len(), max: MAX_PORCELAIN_FIELD_BYTES }));
        }
        let untracked: [u8; 2] = [63u8, 32u8];
        let ignored: [u8; 2] = [33u8, 32u8];
        let header: [u8; 2] = [35u8, 32u8];
        assert(untracked@ == seq![63u8, 32u8]);
        assert(ignored@ == seq![33u8, 32u8]);
        assert(header@ == seq![35u8, 32u8]);
        if headers.expect_rename_source {
            if field.len() == 0 {
                return Err(StatusParseError::new(i, StatusParseErrorKind::EmptyPath));
            }
            headers.expect_rename_source = false;
        } else if starts_with(field.as_slice(), &header) {
            parse_header(field.as_slice(), &mut summary, &mut headers, i)?;
        } else if starts_with(field.as_slice(), &untracked) {
            if field.len() == 2 {
                return Err(StatusParseError::new(i, StatusParseErrorKind::EmptyPath));
            }
            summary.untracked_count = summary.untracked_count + 1;
        } else if starts_with(field.as_slice(), &ignored) {
            if field.len() == 2 {
                return Err(StatusParseError::new(i, StatusParseErrorKind::EmptyPath));
            }
            summary.ignored_count = summary.ignored_count + 1;
        } else if field.len() == 0 {
            return Err(StatusParseError::new(i, StatusParseErrorKind::UnknownRecordType));
        } else {
            let expect = parse_tracked(field.as_slice(), &mut summary, &headers, i)?;
            headers.expect_rename_source = expect;
        }
        assert(status_step(st, fs[i as int], i) == Ok::<StatusState, StatusParseError>(mk_state(summary, headers)));
        i += 1;
    }
    if headers.expect_rename_source {
        return Err(StatusParseError::new(0, StatusParseErrorKind::MissingRenameSource));
    }
    if !headers.oid_seen {
        return Err(StatusParseError::new(0, StatusParseErrorKind::MissingBranchOid));
    }
    if !headers.head_seen {
        return Err(StatusParseError::new(0, StatusParseErrorKind::MissingBranchHead));
    }
    Ok(summary)
}

} // verus!

verus! {

/// Human-readable text for an error kind.
pub open spec fn status_kind_message(k: StatusParseErrorKind) -> Seq<char> {
    match k {
        StatusParseErrorKind::MissingTerminator => "input is missing its final NUL"@,
        StatusParseErrorKind::MissingBranchOid => "branch.oid header is missing"@,
        StatusParseErrorKind::MissingBranchHead => "branch.head header is missing"@,
        StatusParseErrorKind::DuplicateHeader(name) => "duplicate "@ + name@ + " header"@,
        StatusParseErrorKind::InvalidBranchOid => "branch.oid is invalid"@,
        StatusParseErrorKind::InvalidAheadBehind => "branch.ab is invalid"@,
        StatusParseErrorKind::InvalidTrackedRecord => "tracked record is malformed"@,
        StatusParseErrorKind::InvalidUnmergedRecord => "unmerged record is malformed"@,
        StatusParseErrorKind::InvalidXy => "XY status is invalid"@,
        StatusParseErrorKind::EmptyPath => "record pathname is empty"@,
        StatusParseErrorKind::MissingRenameSource => "rename source pathname is missing"@,
        StatusParseErrorKind::UnknownRecordType => "record type is unknown"@,
        StatusParseErrorKind::FieldTooLong { actual, max } => "field is "@ + decimal_chars(actual as nat) + " bytes; maximum is "@ + decimal_chars(max as nat),
    }
}

/// Human-readable text for an error: its field index and classification only.
pub open spec fn status_error_message(e: StatusParseError) -> Seq<char> {
    "status porcelain field "@ + decimal_chars(e.field_index as nat) + ": "@ + status_kind_message(e.kind)
}

pub open spec fn status_kind_name_short(k: StatusParseErrorKind) -> bool {
    match k {
        StatusParseErrorKind::DuplicateHeader(name) => name@.len() <= 16,
        _ => true,
    }
}

/// Error messages are bounded: at most 192 characters.
pub proof fn lemma_status_error_message_bounded(e: StatusParseError)
    requires
        status_kind_name_short(e.kind),
    ensures
        status_error_message(e).len() <= 192,
{
    lemma_usize_decimal_len(e.field_index);
    reveal_strlit("status porcelain field ");
    reveal_strlit(": ");
    match e.kind {
        StatusParseErrorKind::MissingTerminator => { reveal_strlit("input is missing its final NUL"); },
        StatusParseErrorKind::MissingBranchOid => { reveal_strlit("branch.oid header is missing"); },
        StatusParseErrorKind::MissingBranchHead => { reveal_strlit("branch.head header is missing"); },
        StatusParseErrorKind::DuplicateHeader(name) => { reveal_strlit("duplicate "); reveal_strlit(" header"); },
        StatusParseErrorKind::InvalidBranchOid => { reveal_strlit("branch.oid is invalid"); },
        StatusParseErrorKind::InvalidAheadBehind => { reveal_strlit("branch.ab is invalid"); },
        StatusParseErrorKind::InvalidTrackedRecord => { reveal_strlit("tracked record is malformed"); },
        StatusParseErrorKind::InvalidUnmergedRecord => { reveal_strlit("unmerged record is malformed"); },
        StatusParseErrorKind::InvalidXy => { reveal_strlit("XY status is invalid"); },
        StatusParseErrorKind::EmptyPath => { reveal_strlit("record pathname is empty"); },
        StatusParseErrorKind::MissingRenameSource => { reveal_strlit("rename source pathname is missing"); },
        StatusParseErrorKind::UnknownRecordType => { reveal_strlit("record type is unknown"); },
        StatusParseErrorKind::FieldTooLong { actual, max } => {
            reveal_strlit("field is ");
            reveal_strlit(" bytes; maximum is ");
            lemma_usize_decimal_len(actual);
            lemma_usize_decimal_len(max);
        },
    }
}

proof fn lemma_status_step_err_short(st: StatusState, f: Seq<u8>, fi: usize)
    ensures
        status_step(st, f, fi) matches Err(e) ==> status_kind_name_short(e.kind),
{
    reveal_strlit("branch.oid");
    reveal_strlit("branch.head");
    reveal_strlit("branch.upstream");
    reveal_strlit("branch.ab");
}

proof fn lemma_run_status_err_short(fields: Seq<Seq<u8>>, i: int, st: StatusState)
    ensures
        run_status(fields, i, st) matches Err(e) ==> status_kind_name_short(e.kind),
    decreases fields.len() - i,
{
    if 0 <= i < fields.len() {
        lemma_status_step_err_short(st, fields[i], i as usize);
        if let Ok(st2) = status_step(st, fields[i], i as usize) {
            lemma_run_status_err_short(fields, i + 1, st2);
        }
    }
}

/// Every error the status parser reports renders in at most 192 characters.
pub proof fn lemma_status_parse_errors_bounded(input: Seq<u8>)
    ensures
        parse_status_spec(input) matches Err(e) ==> status_error_message(e).len() <= 192,
{
    if input.len() > 0 && input.last() == 0u8 {
        lemma_run_status_err_short(split_bytes(input.drop_last(), 0u8), 0, initial_status_state());
    }
    if let Err(e) = parse_status_spec(input) {
        reveal_strlit("branch.oid");
        lemma_status_error_message_bounded(e);
    }
}

fn push_status_kind_message(out: &mut String, kind: &StatusParseErrorKind)
    ensures
        final(out)@ == old(out)@ + status_kind_message(*kind),
{
    let ghost start = out@;
    match kind {
        StatusParseErrorKind::MissingTerminator => out.append("input is missing its final NUL"),
        StatusParseErrorKind::MissingBranchOid => out.append("branch.oid header is missing"),
        StatusParseErrorKind::MissingBranchHead => out.append("branch.head header is missing"),
        StatusParseErrorKind::DuplicateHeader(name) => {
            out.append("duplicate ");
            out.append(name);
            out.append(" header");
            assert(out@ =~= start + ("duplicate "@ + name@ + " header"@));
        },
        StatusParseErrorKind::InvalidBranchOid => out.append("branch.oid is invalid"),
        StatusParseErrorKind::InvalidAheadBehind => out.append("branch.ab is invalid"),
        StatusParseErrorKind::InvalidTrackedRecord => out.append("tracked record is malformed"),
        StatusParseErrorKind::InvalidUnmergedRecord => out.append("unmerged record is malformed"),
        StatusParseErrorKind::InvalidXy => out.append("XY status is invalid"),
        StatusParseErrorKind::EmptyPath => out.append("record pathname is empty"),
        StatusParseErrorKind::MissingRenameSource => out.append("rename source pathname is missing"),
        StatusParseErrorKind::UnknownRecordType => out.append("record type is unknown"),
        StatusParseErrorKind::FieldTooLong { actual, max } => {
            out.append("field is ");
            push_decimal(out, *actual);
            out.append(" bytes; maximum is ");
            push_decimal(out, *max);
            assert(out@ =~= start + ("field is "@ + decimal_chars(*actual as nat) + " bytes; maximum is "@ + decimal_chars(*max as nat)));
        },
    }
}

impl StatusParseError {
    /// The error's message: `status porcelain field F: <kind>`.
    pub fn to_string(&self) -> (s: String)
        ensures
            s@ == status_error_message(*self),
    {
        let mut out = String::new();
        out.append("status porcelain field ");
        push_decimal(&mut out, self.field_index);
        out.append(": ");
        push_status_kind_message(&mut out, &self.kind);
        assert(out@ =~= status_error_message(*self));
        out
    }
}

impl StatusParseErrorKind {
    /// The kind's message.
    pub fn to_string(&self) -> (s: String)
        ensures
            s@ == status_kind_message(*self),
    {
        let mut out = String::new();
        push_status_kind_message(&mut out, self);
        assert(out@ =~= status_kind_message(*self));
        out
    }
}

} // verus!
