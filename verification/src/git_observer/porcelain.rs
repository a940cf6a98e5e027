//! NUL-safe parser for `git worktree list --porcelain -z`.

use vstd::prelude::*;

use crate::message::{decimal_chars, lemma_usize_decimal_len, push_decimal};
use vstd::string::StringExecFns;
use crate::bytes::{
    ascii_chars, ascii_string, copy_range, eq_bytes, find_byte, is_object_id, object_id,
    split_bytes, split_on, starts_with, has_prefix, views,
};

verus! {

/// Maximum accepted byte length for one NUL-delimited porcelain field.
pub const MAX_PORCELAIN_FIELD_BYTES: usize = 16384;

/// Maximum number of worktree records accepted from one listing.
pub const MAX_PORCELAIN_RECORDS: usize = 4096;

/// Unknown future porcelain field retained without decoding.
#[derive(Debug, Clone, PartialEq, Eq)]
pub struct PorcelainField {
    pub label: Vec<u8>,
    pub value: Option<Vec<u8>>,
}

/// Parsed record from `git worktree list --porcelain -z`.
#[derive(Debug, Clone, PartialEq, Eq)]
pub struct WorktreeRecord {
    pub path: Vec<u8>,
    pub head: Option<String>,
    pub branch: Option<Vec<u8>>,
    pub detached: bool,
    pub bare: bool,
    pub locked: bool,
    pub lock_reason: Option<Vec<u8>>,
    pub prunable: bool,
    pub prune_reason: Option<Vec<u8>>,
    pub unknown_fields: Vec<PorcelainField>,
}

/// Stable classification for malformed porcelain input.
#[derive(Debug, Clone, PartialEq, Eq)]
pub enum PorcelainParseErrorKind {
    ExpectedWorktreeFirst,
    EmptyWorktreePath,
    DuplicateField(&'static str),
    EmptyFieldValue(&'static str),
    InvalidHead,
    MissingHead,
    MissingBranchOrDetached,
    ConflictingState,
    BareHasHeadOrBranch,
    MissingPruneReason,
    MissingRecordTerminator,
    UnexpectedRecordSeparator,
    TooManyRecords { max: usize },
    FieldTooLong { actual: usize, max: usize },
}

/// Bounded parse error containing only location and classification.
#[derive(Debug, Clone, PartialEq, Eq)]
pub struct PorcelainParseError {
    pub record_index: usize,
    pub field_index: usize,
    pub kind: PorcelainParseErrorKind,
}

/// Mathematical view of an unknown field.
pub struct FieldView {
    pub label: Seq<u8>,
    pub value: Option<Seq<u8>>,
}

/// Mathematical view of a worktree record (also of a record under construction).
pub struct WorktreeView {
    pub path: Seq<u8>,
    pub head: Option<Seq<char>>,
    pub branch: Option<Seq<u8>>,
    pub detached: bool,
    pub bare: bool,
    pub locked: bool,
    pub lock_reason: Option<Seq<u8>>,
    pub prunable: bool,
    pub prune_reason: Option<Seq<u8>>,
    pub unknown_fields: Seq<FieldView>,
}

pub open spec fn opt_bytes(o: Option<Vec<u8>>) -> Option<Seq<u8>> {
    match o {
        Some(v) => Some(v@),
        None => None,
    }
}

pub open spec fn opt_string(o: Option<String>) -> Option<Seq<char>> {
    match o {
        Some(s) => Some(s@),
        None => None,
    }
}

impl View for PorcelainField {
    type V = FieldView;

    open spec fn view(&self) -> FieldView {
        FieldView { label: self.label@, value: opt_bytes(self.value) }
    }
}

pub open spec fn field_views(v: Seq<PorcelainField>) -> Seq<FieldView> {
    Seq::new(v.len(), |i: int| v[i]@)
}

impl View for WorktreeRecord {
    type V = WorktreeView;

    open spec fn view(&self) -> WorktreeView {
        WorktreeView {
            path: self.path@,
            head: opt_string(self.head),
            branch: opt_bytes(self.branch),
            detached: self.detached,
            bare: self.bare,
            locked: self.locked,
            lock_reason: opt_bytes(self.lock_reason),
            prunable: self.prunable,
            prune_reason: opt_bytes(self.prune_reason),
            unknown_fields: field_views(self.unknown_fields@),
        }
    }
}

pub open spec fn record_views(v: Seq<WorktreeRecord>) -> Seq<WorktreeView> {
    Seq::new(v.len(), |i: int| v[i]@)
}

pub open spec fn lit_worktree() -> Seq<u8> {
    seq![119u8, 111u8, 114u8, 107u8, 116u8, 114u8, 101u8, 101u8]
}

pub open spec fn lit_worktree_prefix() -> Seq<u8> {
    seq![119u8, 111u8, 114u8, 107u8, 116u8, 114u8, 101u8, 101u8, 32u8]
}

pub open spec fn lit_head() -> Seq<u8> {
    seq![72u8, 69u8, 65u8, 68u8]
}

pub open spec fn lit_branch() -> Seq<u8> {
    seq![98u8, 114u8, 97u8, 110u8, 99u8, 104u8]
}

pub open spec fn lit_detached() -> Seq<u8> {
    seq![100u8, 101u8, 116u8, 97u8, 99u8, 104u8, 101u8, 100u8]
}

pub open spec fn lit_bare() -> Seq<u8> {
    seq![98u8, 97u8, 114u8, 101u8]
}

pub open spec fn lit_locked() -> Seq<u8> {
    seq![108u8, 111u8, 99u8, 107u8, 101u8, 100u8]
}

pub open spec fn lit_prunable() -> Seq<u8> {
    seq![112u8, 114u8, 117u8, 110u8, 97u8, 98u8, 108u8, 101u8]
}

/// Index of the first `b` in `s`, if any.
pub open spec fn first_index_of(s: Seq<u8>, b: u8) -> Option<int> {
    if exists|p: int| 0 <= p < s.len() && s[p] == b && forall|j: int| 0 <= j < p ==> s[j] != b {
        Some(choose|p: int| 0 <= p < s.len() && s[p] == b && forall|j: int| 0 <= j < p ==> s[j] != b)
    } else {
        None
    }
}

/// The first `b` in `s` is at `p`.
pub proof fn lemma_first_index_of(s: Seq<u8>, b: u8, p: int)
    requires
        0 <= p < s.len(),
        s[p] == b,
        forall|j: int| 0 <= j < p ==> s[j] != b,
    ensures
        first_index_of(s, b) == Some(p),
{
    let c = choose|q: int| 0 <= q < s.len() && s[q] == b && forall|j: int| 0 <= j < q ==> s[j] != b;
    assert(0 <= c < s.len() && s[c] == b && forall|j: int| 0 <= j < c ==> s[j] != b);
    if c < p {
        assert(s[c] != b);
    } else if c > p {
        assert(s[p] != b);
    }
}

/// A field is a label, optionally followed by one space and a value.
pub open spec fn split_field_spec(f: Seq<u8>) -> (Seq<u8>, Option<Seq<u8>>) {
    match first_index_of(f, 32u8) {
        Some(p) => (f.take(p), Some(f.skip(p + 1))),
        None => (f, None),
    }
}

pub open spec fn perr(ri: usize, fi: usize, kind: PorcelainParseErrorKind) -> PorcelainParseError {
    PorcelainParseError { record_index: ri, field_index: fi, kind }
}

/// A fresh record under construction for the given worktree path.
pub open spec fn new_builder(path: Seq<u8>) -> WorktreeView {
    WorktreeView {
        path,
        head: None,
        branch: None,
        detached: false,
        bare: false,
        locked: false,
        lock_reason: None,
        prunable: false,
        prune_reason: None,
        unknown_fields: Seq::empty(),
    }
}

/// `Some(v)` with `v` nonempty, else `None`.
pub open spec fn nonempty(value: Option<Seq<u8>>) -> Option<Seq<u8>> {
    match value {
        Some(v) => if v.len() > 0 { Some(v) } else { None },
        None => None,
    }
}

/// Effect of one non-first field of a record on the record under construction.
pub open spec fn apply_field(b: WorktreeView, f: Seq<u8>, ri: usize, fi: usize) -> Result<WorktreeView, PorcelainParseError> {
    let label = split_field_spec(f).0;
    let value = split_field_spec(f).1;
    if label == lit_worktree() {
        Err(perr(ri, fi, PorcelainParseErrorKind::DuplicateField("worktree")))
    } else if label == lit_head() {
        if b.head is Some {
            Err(perr(ri, fi, PorcelainParseErrorKind::DuplicateField("HEAD")))
        } else {
            match nonempty(value) {
                None => Err(perr(ri, fi, PorcelainParseErrorKind::EmptyFieldValue("HEAD"))),
                Some(v) => if is_object_id(v) {
                    Ok(WorktreeView { head: Some(ascii_chars(v)), ..b })
                } else {
                    Err(perr(ri, fi, PorcelainParseErrorKind::InvalidHead))
                },
            }
        }
    } else if label == lit_branch() {
        if b.branch is Some {
            Err(perr(ri, fi, PorcelainParseErrorKind::DuplicateField("branch")))
        } else {
            match nonempty(value) {
                None => Err(perr(ri, fi, PorcelainParseErrorKind::EmptyFieldValue("branch"))),
                Some(v) => Ok(WorktreeView { branch: Some(v), ..b }),
            }
        }
    } else if label == lit_detached() && value is None {
        if b.detached {
            Err(perr(ri, fi, PorcelainParseErrorKind::DuplicateField("detached")))
        } else {
            Ok(WorktreeView { detached: true, ..b })
        }
    } else if label == lit_bare() && value is None {
        if b.bare {
            Err(perr(ri, fi, PorcelainParseErrorKind::DuplicateField("bare")))
        } else {
            Ok(WorktreeView { bare: true, ..b })
        }
    } else if label == lit_locked() {
        if b.locked {
            Err(perr(ri, fi, PorcelainParseErrorKind::DuplicateField("locked")))
        } else {
            Ok(WorktreeView { locked: true, lock_reason: nonempty(value), ..b })
        }
    } else if label == lit_prunable() {
        if b.prunable {
            Err(perr(ri, fi, PorcelainParseErrorKind::DuplicateField("prunable")))
        } else {
            match nonempty(value) {
                None => Err(perr(ri, fi, PorcelainParseErrorKind::MissingPruneReason)),
                Some(v) => Ok(WorktreeView { prunable: true, prune_reason: Some(v), ..b }),
            }
        }
    } else {
        Ok(
            WorktreeView {
                unknown_fields: b.unknown_fields.push(FieldView { label, value }),
                ..b
            },
        )
    }
}

/// The checks a record must pass once its terminating empty field is seen.
pub open spec fn finish_record(b: WorktreeView, ri: usize, fi: usize) -> Result<WorktreeView, PorcelainParseError> {
    if b.bare && (b.head is Some || b.branch is Some || b.detached) {
        Err(perr(ri, fi, PorcelainParseErrorKind::BareHasHeadOrBranch))
    } else if !b.bare && b.head is None {
        Err(perr(ri, fi, PorcelainParseErrorKind::MissingHead))
    } else if !b.bare && b.branch is Some && b.detached {
        Err(perr(ri, fi, PorcelainParseErrorKind::ConflictingState))
    } else if !b.bare && b.branch is None && !b.detached {
        Err(perr(ri, fi, PorcelainParseErrorKind::MissingBranchOrDetached))
    } else if b.prunable && b.prune_reason is None {
        Err(perr(ri, fi, PorcelainParseErrorKind::MissingPruneReason))
    } else {
        Ok(b)
    }
}

/// Parser state between fields.
pub struct ParseState {
    pub records: Seq<WorktreeView>,
    pub builder: Option<WorktreeView>,
    pub record_index: usize,
    pub field_index: usize,
}

/// Effect of one field that is not the final empty piece of the input.
pub open spec fn step(st: ParseState, f: Seq<u8>) -> Result<ParseState, PorcelainParseError> {
    let ri = st.record_index;
    let fi = st.field_index;
    if f.len() == 0 {
        match st.builder {
            None => Err(perr(ri, fi, PorcelainParseErrorKind::UnexpectedRecordSeparator)),
            Some(b) => match finish_record(b, ri, fi) {
                Err(e) => Err(e),
                Ok(r) => if st.records.len() + 1 > MAX_PORCELAIN_RECORDS {
                    Err(perr(ri, fi, PorcelainParseErrorKind::TooManyRecords { max: MAX_PORCELAIN_RECORDS }))
                } else {
                    Ok(ParseState {
                        records: st.records.push(r),
                        builder: None,
                        record_index: (ri + 1) as usize,
                        field_index: 0,
                    })
                },
            },
        }
    } else if f.len() > MAX_PORCELAIN_FIELD_BYTES {
        Err(perr(ri, fi, PorcelainParseErrorKind::FieldTooLong { actual: f.len() as usize, max: MAX_PORCELAIN_FIELD_BYTES }))
    } else {
        match st.builder {
            Some(b) => match apply_field(b, f, ri, fi) {
                Err(e) => Err(e),
                Ok(b2) => Ok(ParseState { builder: Some(b2), field_index: (fi + 1) as usize, ..st }),
            },
            None => if has_prefix(f, lit_worktree_prefix()) {
                let path = f.skip(9);
                if path.len() == 0 {
                    Err(perr(ri, fi, PorcelainParseErrorKind::EmptyWorktreePath))
                } else {
                    Ok(ParseState { builder: Some(new_builder(path)), field_index: (fi + 1) as usize, ..st })
                }
            } else {
                Err(perr(ri, fi, PorcelainParseErrorKind::ExpectedWorktreeFirst))
            },
        }
    }
}

/// End of input: a record still under construction lacks its terminator.
pub open spec fn finish_input(st: ParseState) -> Result<Seq<WorktreeView>, PorcelainParseError> {
    if st.builder is Some {
        Err(perr(st.record_index, st.field_index, PorcelainParseErrorKind::MissingRecordTerminator))
    } else {
        Ok(st.records)
    }
}

/// Processing of the NUL-separated fields from index `i` on; a final empty piece
/// (the input's trailing NUL) ends the input.
pub open spec fn run_fields(fields: Seq<Seq<u8>>, i: int, st: ParseState) -> Result<Seq<WorktreeView>, PorcelainParseError>
    decreases fields.len() - i,
{
    if i < 0 || i >= fields.len() {
        finish_input(st)
    } else if fields[i].len() == 0 && i == fields.len() - 1 {
        finish_input(st)
    } else {
        match step(st, fields[i]) {
            Err(e) => Err(e),
            Ok(st2) => run_fields(fields, i + 1, st2),
        }
    }
}

pub open spec fn initial_state() -> ParseState {
    ParseState { records: Seq::empty(), builder: None, record_index: 0, field_index: 0 }
}

/// The records that `git worktree list --porcelain -z` output describes, or the
/// first malformation found in it.
pub open spec fn parse_worktree_spec(input: Seq<u8>) -> Result<Seq<WorktreeView>, PorcelainParseError> {
    if input.len() == 0 {
        Ok(Seq::empty())
    } else {
        run_fields(split_bytes(input, 0u8), 0, initial_state())
    }
}

pub open spec fn result_views(r: Result<Vec<WorktreeRecord>, PorcelainParseError>) -> Result<Seq<WorktreeView>, PorcelainParseError> {
    match r {
        Ok(v) => Ok(record_views(v@)),
        Err(e) => Err(e),
    }
}

/// A record as Git can report it: a bare worktree has no HEAD, branch or detached
/// marker; any other has a 40- or 64-digit hex HEAD and exactly one of branch and
/// detached; values that are present are nonempty, and reasons only accompany
/// their flags.
pub open spec fn well_formed_record(r: WorktreeView) -> bool {
    &&& r.path.len() > 0
    &&& r.bare ==> (r.head is None && r.branch is None && !r.detached)
    &&& !r.bare ==> (r.head is Some && (r.branch is Some) != r.detached)
    &&& r.head matches Some(h) ==> exists|v: Seq<u8>| is_object_id(v) && h == ascii_chars(v)
    &&& r.branch matches Some(v) ==> v.len() > 0
    &&& r.prunable <==> r.prune_reason is Some
    &&& r.prune_reason matches Some(v) ==> v.len() > 0
    &&& r.lock_reason matches Some(v) ==> (r.locked && v.len() > 0)
}

/// Invariant of a record under construction.
pub open spec fn builder_inv(b: WorktreeView) -> bool {
    &&& b.path.len() > 0
    &&& b.head matches Some(h) ==> exists|v: Seq<u8>| is_object_id(v) && h == ascii_chars(v)
    &&& b.branch matches Some(v) ==> v.len() > 0
    &&& b.prunable <==> b.prune_reason is Some
    &&& b.prune_reason matches Some(v) ==> v.len() > 0
    &&& b.lock_reason matches Some(v) ==> (b.locked && v.len() > 0)
}

pub open spec fn state_inv(st: ParseState) -> bool {
    &&& st.records.len() <= MAX_PORCELAIN_RECORDS
    &&& forall|k: int| 0 <= k < st.records.len() ==> well_formed_record(#[trigger] st.records[k])
    &&& st.builder matches Some(b) ==> builder_inv(b)
}

proof fn lemma_apply_field_inv(b: WorktreeView, f: Seq<u8>, ri: usize, fi: usize)
    requires
        builder_inv(b),
    ensures
        apply_field(b, f, ri, fi) matches Ok(b2) ==> builder_inv(b2),
{
    let value = split_field_spec(f).1;
    if let Ok(b2) = apply_field(b, f, ri, fi) {
        if let Some(h) = b2.head {
            if b.head is None {
                let v = nonempty(value).unwrap();
                assert(is_object_id(v) && h == ascii_chars(v));
            }
        }
    }
}

proof fn lemma_step_inv(st: ParseState, f: Seq<u8>)
    requires
        state_inv(st),
    ensures
        step(st, f) matches Ok(st2) ==> state_inv(st2),
{
    if let Ok(st2) = step(st, f) {
        if f.len() == 0 {
            let b = st.builder.unwrap();
            let r = finish_record(b, st.record_index, st.field_index).unwrap();
            assert(well_formed_record(r));
            assert forall|k: int| 0 <= k < st2.records.len() implies well_formed_record(#[trigger] st2.records[k]) by {
                if k < st.records.len() {
                    assert(st2.records[k] == st.records[k]);
                }
            }
        } else if let Some(b) = st.builder {
            lemma_apply_field_inv(b, f, st.record_index, st.field_index);
        }
    }
}

proof fn lemma_run_inv(fields: Seq<Seq<u8>>, i: int, st: ParseState)
    requires
        state_inv(st),
    ensures
        run_fields(fields, i, st) matches Ok(rs) ==> (rs.len() <= MAX_PORCELAIN_RECORDS
            && forall|k: int| 0 <= k < rs.len() ==> well_formed_record(#[trigger] rs[k])),
    decreases fields.len() - i,
{
    if i < 0 || i >= fields.len() {
    } else if fields[i].len() == 0 && i == fields.len() - 1 {
    } else {
        lemma_step_inv(st, fields[i]);
        if let Ok(st2) = step(st, fields[i]) {
            lemma_run_inv(fields, i + 1, st2);
        }
    }
}

/// Parsed records are well formed and bounded in number.
pub proof fn lemma_parsed_records_well_formed(input: Seq<u8>)
    ensures
        parse_worktree_spec(input) matches Ok(rs) ==> (rs.len() <= MAX_PORCELAIN_RECORDS
            && forall|k: int| 0 <= k < rs.len() ==> well_formed_record(#[trigger] rs[k])),
{
    if input.len() > 0 {
        lemma_run_inv(split_bytes(input, 0u8), 0, initial_state());
    }
}

proof fn lemma_step_err_short(st: ParseState, f: Seq<u8>)
    ensures
        step(st, f) matches Err(e) ==> kind_names_short(e.kind),
{
    reveal_strlit("worktree");
    reveal_strlit("HEAD");
    reveal_strlit("branch");
    reveal_strlit("detached");
    reveal_strlit("bare");
    reveal_strlit("locked");
    reveal_strlit("prunable");
}

proof fn lemma_run_err_short(fields: Seq<Seq<u8>>, i: int, st: ParseState)
    ensures
        run_fields(fields, i, st) matches Err(e) ==> kind_names_short(e.kind),
    decreases fields.len() - i,
{
    if i < 0 || i >= fields.len() {
    } else if fields[i].len() == 0 && i == fields.len() - 1 {
    } else {
        lemma_step_err_short(st, fields[i]);
        if let Ok(st2) = step(st, fields[i]) {
            lemma_run_err_short(fields, i + 1, st2);
        }
    }
}

/// Every error the parser reports renders in at most 192 characters.
pub proof fn lemma_parse_errors_bounded(input: Seq<u8>)
    ensures
        parse_worktree_spec(input) matches Err(e) ==> error_message(e).len() <= 192,
{
    if input.len() > 0 {
        lemma_run_err_short(split_bytes(input, 0u8), 0, initial_state());
        if let Err(e) = parse_worktree_spec(input) {
            lemma_error_message_bounded(e);
        }
    }
}

impl PorcelainParseError {
    fn new(record_index: usize, field_index: usize, kind: PorcelainParseErrorKind) -> (e: Self)
        ensures
            e == perr(record_index, field_index, kind),
    {
        Self { record_index, field_index, kind }
    }
}

/// Record under construction.
struct RecordBuilder {
    path: Vec<u8>,
    head: Option<String>,
    branch: Option<Vec<u8>>,
    detached: bool,
    bare: bool,
    locked: bool,
    lock_reason: Option<Vec<u8>>,
    prunable: bool,
    prune_reason: Option<Vec<u8>>,
    unknown_fields: Vec<PorcelainField>,
}

impl View for RecordBuilder {
    type V = WorktreeView;

    closed spec fn view(&self) -> WorktreeView {
        WorktreeView {
            path: self.path@,
            head: opt_string(self.head),
            branch: opt_bytes(self.branch),
            detached: self.detached,
            bare: self.bare,
            locked: self.locked,
            lock_reason: opt_bytes(self.lock_reason),
            prunable: self.prunable,
            prune_reason: opt_bytes(self.prune_reason),
            unknown_fields: field_views(self.unknown_fields@),
        }
    }
}

impl RecordBuilder {
    fn new(path: &[u8]) -> (b: Self)
        ensures
            b@ == new_builder(path@),
    {
        let b = RecordBuilder {
            path: copy_range(path, 0, path.len()),
            head: None,
            branch: None,
            detached: false,
            bare: false,
            locked: false,
            lock_reason: None,
            prunable: false,
            prune_reason: None,
            unknown_fields: Vec::new(),
        };
        assert(path@.subrange(0, path@.len() as int) =~= path@);
        assert(b@.unknown_fields =~= Seq::<FieldView>::empty());
        b
    }

    fn finish(self, record_index: usize, field_index: usize) -> (r: Result<WorktreeRecord, PorcelainParseError>)
        ensures
            match r {
                Ok(rec) => finish_record(self@, record_index, field_index) == Ok::<WorktreeView, PorcelainParseError>(rec@),
                Err(e) => finish_record(self@, record_index, field_index) == Err::<WorktreeView, PorcelainParseError>(e),
            },
    {
        if self.bare {
            if self.head.is_some() || self.branch.is_some() || self.detached {
                return Err(PorcelainParseError::new(record_index, field_index, PorcelainParseErrorKind::BareHasHeadOrBranch));
            }
        } else {
            if self.head.is_none() {
                return Err(PorcelainParseError::new(record_index, field_index, PorcelainParseErrorKind::MissingHead));
            }
            if self.branch.is_some() && self.detached {
                return Err(PorcelainParseError::new(record_index, field_index, PorcelainParseErrorKind::ConflictingState));
            }
            if self.branch.is_none() && !self.detached {
                return Err(PorcelainParseError::new(record_index, field_index, PorcelainParseErrorKind::MissingBranchOrDetached));
            }
        }
        if self.prunable && self.prune_reason.is_none() {
            return Err(PorcelainParseError::new(record_index, field_index, PorcelainParseErrorKind::MissingPruneReason));
        }
        let ghost v = self@;
        let rec = WorktreeRecord {
            path: self.path,
            head: self.head,
            branch: self.branch,
            detached: self.detached,
            bare: self.bare,
            locked: self.locked,
            lock_reason: self.lock_reason,
            prunable: self.prunable,
            prune_reason: self.prune_reason,
            unknown_fields: self.unknown_fields,
        };
        assert(rec@ == v);
        Ok(rec)
    }
}

/// Label and optional value of a field, split at its first space.
fn split_field(field: &[u8]) -> (r: (Vec<u8>, Option<Vec<u8>>))
    ensures
        r.0@ == split_field_spec(field@).0,
        opt_bytes(r.1) == split_field_spec(field@).1,
{
    match find_byte(field, 32u8, 0) {
        Some(index) => {
            proof {
                lemma_first_index_of(field@, 32u8, index as int);
                assert(field@.subrange(0, index as int) =~= field@.take(index as int));
                assert(field@.subrange(index + 1, field@.len() as int) =~= field@.skip(index + 1));
            }
            (copy_range(field, 0, index), Some(copy_range(field, index + 1, field.len())))
        },
        None => {
            assert(field@.subrange(0, field@.len() as int) =~= field@);
            (copy_range(field, 0, field.len()), None)
        },
    }
}

spec fn opt_builder(b: Option<RecordBuilder>) -> Option<WorktreeView> {
    match b {
        Some(b) => Some(b@),
        None => None,
    }
}

fn duplicate(record_index: usize, field_index: usize, name: &'static str) -> (e: PorcelainParseError)
    ensures
        e == perr(record_index, field_index, PorcelainParseErrorKind::DuplicateField(name)),
{
    PorcelainParseError::new(record_index, field_index, PorcelainParseErrorKind::DuplicateField(name))
}

/// The value, when present and nonempty.
fn required_value(value: Option<Vec<u8>>, record_index: usize, field_index: usize, name: &'static str) -> (r: Result<Vec<u8>, PorcelainParseError>)
    ensures
        match r {
            Ok(v) => nonempty(opt_bytes(value)) == Some(v@),
            Err(e) => nonempty(opt_bytes(value)) is None && e == perr(record_index, field_index, PorcelainParseErrorKind::EmptyFieldValue(name)),
        },
{
    match value {
        Some(v) => {
            if v.len() > 0 {
                Ok(v)
            } else {
                Err(PorcelainParseError::new(record_index, field_index, PorcelainParseErrorKind::EmptyFieldValue(name)))
            }
        },
        None => Err(PorcelainParseError::new(record_index, field_index, PorcelainParseErrorKind::EmptyFieldValue(name))),
    }
}

/// A HEAD value decoded as its hex object ID, when it is one.
fn parse_head(value: &[u8]) -> (r: Option<String>)
    ensures
        match r {
            Some(s) => is_object_id(value@) && s@ == ascii_chars(value@),
            None => !is_object_id(value@),
        },
{
    if object_id(value) {
        proof {
            assert forall|i: int| 0 <= i < value@.len() implies #[trigger] value@[i] < 128 by {
                assert(crate::bytes::is_hex_byte(value@[i]));
            }
        }
        Some(ascii_string(value))
    } else {
        None
    }
}

fn nonempty_value(value: Option<Vec<u8>>) -> (r: Option<Vec<u8>>)
    ensures
        opt_bytes(r) == nonempty(opt_bytes(value)),
{
    match value {
        Some(v) => if v.len() > 0 { Some(v) } else { None },
        None => None,
    }
}

/// Apply one non-first field to the record under construction.
fn parse_record_field(builder: &mut RecordBuilder, field: &[u8], record_index: usize, field_index: usize) -> (r: Result<(), PorcelainParseError>)
    ensures
        match r {
            Ok(()) => apply_field(old(builder)@, field@, record_index, field_index) == Ok::<WorktreeView, PorcelainParseError>(final(builder)@),
            Err(e) => apply_field(old(builder)@, field@, record_index, field_index) == Err::<WorktreeView, PorcelainParseError>(e),
        },
{
    let ghost b0 = builder@;
    let (label, value) = split_field(field);
    let ghost value_v = opt_bytes(value);
    let lit_worktree_a: [u8; 8] = [119u8, 111u8, 114u8, 107u8, 116u8, 114u8, 101u8, 101u8];
    let lit_head_a: [u8; 4] = [72u8, 69u8, 65u8, 68u8];
    let lit_branch_a: [u8; 6] = [98u8, 114u8, 97u8, 110u8, 99u8, 104u8];
    let lit_detached_a: [u8; 8] = [100u8, 101u8, 116u8, 97u8, 99u8, 104u8, 101u8, 100u8];
    let lit_bare_a: [u8; 4] = [98u8, 97u8, 114u8, 101u8];
    let lit_locked_a: [u8; 6] = [108u8, 111u8, 99u8, 107u8, 101u8, 100u8];
    let lit_prunable_a: [u8; 8] = [112u8, 114u8, 117u8, 110u8, 97u8, 98u8, 108u8, 101u8];
    assert(lit_worktree_a@ == lit_worktree());
    assert(lit_head_a@ == lit_head());
    assert(lit_branch_a@ == lit_branch());
    assert(lit_detached_a@ == lit_detached());
    assert(lit_bare_a@ == lit_bare());
    assert(lit_locked_a@ == lit_locked());
    assert(lit_prunable_a@ == lit_prunable());
    if eq_bytes(label.as_slice(), &lit_worktree_a) {
        Err(duplicate(record_index, field_index, "worktree"))
    } else if eq_bytes(label.as_slice(), &lit_head_a) {
        if builder.head.is_some() {
            return Err(duplicate(record_index, field_index, "HEAD"));
        }
        let v = required_value(value, record_index, field_index, "HEAD")?;
        let head = parse_head(v.as_slice());
        if head.is_none() {
            return Err(PorcelainParseError::new(record_index, field_index, PorcelainParseErrorKind::InvalidHead));
        }
        builder.head = head;
        Ok(())
    } else if eq_bytes(label.as_slice(), &lit_branch_a) {
        if builder.branch.is_some() {
            return Err(duplicate(record_index, field_index, "branch"));
        }
        let v = required_value(value, record_index, field_index, "branch")?;
        builder.branch = Some(v);
        Ok(())
    } else if eq_bytes(label.as_slice(), &lit_detached_a) && value.is_none() {
        if builder.detached {
            return Err(duplicate(record_index, field_index, "detached"));
        }
        builder.detached = true;
        Ok(())
    } else if eq_bytes(label.as_slice(), &lit_bare_a) && value.is_none() {
        if builder.bare {
            return Err(duplicate(record_index, field_index, "bare"));
        }
        builder.bare = true;
        Ok(())
    } else if eq_bytes(label.as_slice(), &lit_locked_a) {
        if builder.locked {
            return Err(duplicate(record_index, field_index, "locked"));
        }
        builder.locked = true;
        builder.lock_reason = nonempty_value(value);
        Ok(())
    } else if eq_bytes(label.as_slice(), &lit_prunable_a) {
        if builder.prunable {
            return Err(duplicate(record_index, field_index, "prunable"));
        }
        let reason = nonempty_value(value);
        match reason {
            None => Err(PorcelainParseError::new(record_index, field_index, PorcelainParseErrorKind::MissingPruneReason)),
            Some(r) => {
                builder.prunable = true;
                builder.prune_reason = Some(r);
                Ok(())
            },
        }
    } else {
        let ghost old_unknown = field_views(builder.unknown_fields@);
        builder.unknown_fields.push(PorcelainField { label, value });
        assert(field_views(builder.unknown_fields@) =~= old_unknown.push(FieldView { label: split_field_spec(field@).0, value: value_v }));
        Ok(())
    }
}

/// Parse `git worktree list --porcelain -z` output without UTF-8 conversion.
pub fn parse_worktree_porcelain(input: &[u8]) -> (r: Result<Vec<WorktreeRecord>, PorcelainParseError>)
    ensures
        result_views(r) == parse_worktree_spec(input@),
        r matches Ok(records) ==> records.len() <= MAX_PORCELAIN_RECORDS && forall|k: int|
            0 <= k < records.len() ==> well_formed_record(#[trigger] records@[k]@),
        r matches Err(e) ==> error_message(e).len() <= 192,
{
    proof {
        lemma_parsed_records_well_formed(input@);
        lemma_parse_errors_bounded(input@);
    }
    if input.len() == 0 {
        let empty: Vec<WorktreeRecord> = Vec::new();
        assert(record_views(empty@) =~= Seq::<WorktreeView>::empty());
        return Ok(empty);
    }
    let fields = split_on(input, 0u8);
    let ghost fs = split_bytes(input@, 0u8);
    let mut records: Vec<WorktreeRecord> = Vec::new();
    let mut builder: Option<RecordBuilder> = None;
    let mut record_index: usize = 0;
    let mut field_index: usize = 0;
    let mut i: usize = 0;
    proof {
        assert(record_views(records@) =~= Seq::<WorktreeView>::empty());
    }
    while i < fields.len()
        invariant
            views(fields@) == fs,
            i <= fields.len(),
            field_index <= i,
            record_index <= records.len(),
            records.len() <= MAX_PORCELAIN_RECORDS,
            parse_worktree_spec(input@) matches Err(e) ==> error_message(e).len() <= 192,
            run_fields(fs, i as int, ParseState {
                records: record_views(records@),
                builder: opt_builder(builder),
                record_index,
                field_index,
            }) == parse_worktree_spec(input@),
        ensures
            i == fields.len() || (fs[i as int].len() == 0 && i + 1 == fields.len()),
            run_fields(fs, i as int, ParseState {
                records: record_views(records@),
                builder: opt_builder(builder),
                record_index,
                field_index,
            }) == parse_worktree_spec(input@),
        decreases fields.len() - i,
    {
        let ghost st = ParseState {
            records: record_views(records@),
            builder: opt_builder(builder),
            record_index,
            field_index,
        };
        let field: &Vec<u8> = &fields[i];
        assert(field@ == fs[i as int]);
        if field.len() == 0 && i + 1 == fields.len() {
            break;
        }
        if field.len() == 0 {
            let current = builder.take();
            match current {
                None => {
                    return Err(PorcelainParseError::new(record_index, field_index, PorcelainParseErrorKind::UnexpectedRecordSeparator));
                },
                Some(b) => {
                    let rec = b.finish(record_index, field_index)?;
                    if records.len() + 1 > MAX_PORCELAIN_RECORDS {
                        return Err(PorcelainParseError::new(record_index, field_index, PorcelainParseErrorKind::TooManyRecords { max: MAX_PORCELAIN_RECORDS }));
                    }
                    let ghost rv = rec@;
                    records.push(rec);
                    assert(record_views(records@) =~= st.records.push(rv));
                    record_index = record_index + 1;
                    field_index = 0;
                },
            }
        } else if field.len() > MAX_PORCELAIN_FIELD_BYTES {
            return Err(PorcelainParseError::new(record_index, field_index, PorcelainParseErrorKind::FieldTooLong { actual: field.len(), max: MAX_PORCELAIN_FIELD_BYTES }));
        } else {
            match builder.take() {
                Some(current) => {
                    let mut current = current;
                    parse_record_field(&mut current, field.as_slice(), record_index, field_index)?;
                    builder = Some(current);
                },
                None => {
                    let prefix: [u8; 9] = [119u8, 111u8, 114u8, 107u8, 116u8, 114u8, 101u8, 101u8, 32u8];
                    assert(prefix@ == lit_worktree_prefix());
                    if starts_with(field.as_slice(), &prefix) {
                        let path = copy_range(field.as_slice(), 9, field.len());
                        assert(path@ =~= field@.skip(9));
                        if path.len() == 0 {
                            return Err(PorcelainParseError::new(record_index, field_index, PorcelainParseErrorKind::EmptyWorktreePath));
                        }
                        builder = Some(RecordBuilder::new(path.as_slice()));
                    } else {
                        return Err(PorcelainParseError::new(record_index, field_index, PorcelainParseErrorKind::ExpectedWorktreeFirst));
                    }
                },
            }
            field_index = field_index + 1;
        }
        i += 1;
    }
    if builder.is_some() {
        return Err(PorcelainParseError::new(record_index, field_index, PorcelainParseErrorKind::MissingRecordTerminator));
    }
    proof {
        let rs = record_views(records@);
        assert(parse_worktree_spec(input@) == Ok::<Seq<WorktreeView>, PorcelainParseError>(rs));
        assert forall|k: int| 0 <= k < records.len() implies well_formed_record(#[trigger] records@[k]@) by {
            assert(rs[k] == records@[k]@);
        }
    }
    Ok(records)
}

} // verus!

verus! {

/// Human-readable text for an error kind.
pub open spec fn kind_message(k: PorcelainParseErrorKind) -> Seq<char> {
    match k {
        PorcelainParseErrorKind::ExpectedWorktreeFirst => "record must start with worktree"@,
        PorcelainParseErrorKind::EmptyWorktreePath => "worktree path is empty"@,
        PorcelainParseErrorKind::DuplicateField(f) => "duplicate "@ + f@ + " field"@,
        PorcelainParseErrorKind::EmptyFieldValue(f) => f@ + " value is empty"@,
        PorcelainParseErrorKind::InvalidHead => "HEAD must be a 40- or 64-byte hex object ID"@,
        PorcelainParseErrorKind::MissingHead => "non-bare worktree is missing HEAD"@,
        PorcelainParseErrorKind::MissingBranchOrDetached => "non-bare worktree needs branch or detached"@,
        PorcelainParseErrorKind::ConflictingState => "branch and detached are mutually exclusive"@,
        PorcelainParseErrorKind::BareHasHeadOrBranch => "bare worktree cannot include HEAD, branch, or detached"@,
        PorcelainParseErrorKind::MissingPruneReason => "prunable field requires a reason"@,
        PorcelainParseErrorKind::MissingRecordTerminator => "record is missing the blank NUL terminator"@,
        PorcelainParseErrorKind::UnexpectedRecordSeparator => "unexpected empty record"@,
        PorcelainParseErrorKind::TooManyRecords { max } => "record count exceeds "@ + decimal_chars(max as nat),
        PorcelainParseErrorKind::FieldTooLong { actual, max } => "field is "@ + decimal_chars(actual as nat) + " bytes; maximum is "@ + decimal_chars(max as nat),
    }
}

/// Human-readable text for an error: its location and classification only.
pub open spec fn error_message(e: PorcelainParseError) -> Seq<char> {
    "worktree porcelain record "@ + decimal_chars(e.record_index as nat) + " field "@ + decimal_chars(e.field_index as nat) + ": "@ + kind_message(e.kind)
}

/// The field name an error kind carries, if any, is short.
pub open spec fn kind_names_short(k: PorcelainParseErrorKind) -> bool {
    match k {
        PorcelainParseErrorKind::DuplicateField(f) => f@.len() <= 16,
        PorcelainParseErrorKind::EmptyFieldValue(f) => f@.len() <= 16,
        _ => true,
    }
}

/// Error messages are bounded: at most 192 characters.
pub proof fn lemma_error_message_bounded(e: PorcelainParseError)
    requires
        kind_names_short(e.kind),
    ensures
        error_message(e).len() <= 192,
{
    lemma_usize_decimal_len(e.record_index);
    lemma_usize_decimal_len(e.field_index);
    reveal_strlit("worktree porcelain record ");
    reveal_strlit(" field ");
    reveal_strlit(": ");
    match e.kind {
        PorcelainParseErrorKind::ExpectedWorktreeFirst => { reveal_strlit("record must start with worktree"); },
        PorcelainParseErrorKind::EmptyWorktreePath => { reveal_strlit("worktree path is empty"); },
        PorcelainParseErrorKind::DuplicateField(f) => { reveal_strlit("duplicate "); reveal_strlit(" field"); },
        PorcelainParseErrorKind::EmptyFieldValue(f) => { reveal_strlit(" value is empty"); },
        PorcelainParseErrorKind::InvalidHead => { reveal_strlit("HEAD must be a 40- or 64-byte hex object ID"); },
        PorcelainParseErrorKind::MissingHead => { reveal_strlit("non-bare worktree is missing HEAD"); },
        PorcelainParseErrorKind::MissingBranchOrDetached => { reveal_strlit("non-bare worktree needs branch or detached"); },
        PorcelainParseErrorKind::ConflictingState => { reveal_strlit("branch and detached are mutually exclusive"); },
        PorcelainParseErrorKind::BareHasHeadOrBranch => { reveal_strlit("bare worktree cannot include HEAD, branch, or detached"); },
        PorcelainParseErrorKind::MissingPruneReason => { reveal_strlit("prunable field requires a reason"); },
        PorcelainParseErrorKind::MissingRecordTerminator => { reveal_strlit("record is missing the blank NUL terminator"); },
        PorcelainParseErrorKind::UnexpectedRecordSeparator => { reveal_strlit("unexpected empty record"); },
        PorcelainParseErrorKind::TooManyRecords { max } => {
            reveal_strlit("record count exceeds ");
            lemma_usize_decimal_len(max);
        },
        PorcelainParseErrorKind::FieldTooLong { actual, max } => {
            reveal_strlit("field is ");
            reveal_strlit(" bytes; maximum is ");
            lemma_usize_decimal_len(actual);
            lemma_usize_decimal_len(max);
        },
    }
}

fn push_kind_message(out: &mut String, kind: &PorcelainParseErrorKind)
    ensures
        final(out)@ == old(out)@ + kind_message(*kind),
{
    let ghost start = out@;
    match kind {
        PorcelainParseErrorKind::ExpectedWorktreeFirst => out.append("record must start with worktree"),
        PorcelainParseErrorKind::EmptyWorktreePath => out.append("worktree path is empty"),
        PorcelainParseErrorKind::DuplicateField(f) => {
            out.append("duplicate ");
            out.append(f);
            out.append(" field");
            assert(out@ =~= start + ("duplicate "@ + f@ + " field"@));
        },
        PorcelainParseErrorKind::EmptyFieldValue(f) => {
            out.append(f);
            out.append(" value is empty");
            assert(out@ =~= start + (f@ + " value is empty"@));
        },
        PorcelainParseErrorKind::InvalidHead => out.append("HEAD must be a 40- or 64-byte hex object ID"),
        PorcelainParseErrorKind::MissingHead => out.append("non-bare worktree is missing HEAD"),
        PorcelainParseErrorKind::MissingBranchOrDetached => out.append("non-bare worktree needs branch or detached"),
        PorcelainParseErrorKind::ConflictingState => out.append("branch and detached are mutually exclusive"),
        PorcelainParseErrorKind::BareHasHeadOrBranch => out.append("bare worktree cannot include HEAD, branch, or detached"),
        PorcelainParseErrorKind::MissingPruneReason => out.append("prunable field requires a reason"),
        PorcelainParseErrorKind::MissingRecordTerminator => out.append("record is missing the blank NUL terminator"),
        PorcelainParseErrorKind::UnexpectedRecordSeparator => out.append("unexpected empty record"),
        PorcelainParseErrorKind::TooManyRecords { max } => {
            out.append("record count exceeds ");
            push_decimal(out, *max);
            assert(out@ =~= start + ("record count exceeds "@ + decimal_chars(*max as nat)));
        },
        PorcelainParseErrorKind::FieldTooLong { actual, max } => {
            out.append("field is ");
            push_decimal(out, *actual);
            out.append(" bytes; maximum is ");
            push_decimal(out, *max);
            assert(out@ =~= start + ("field is "@ + decimal_chars(*actual as nat) + " bytes; maximum is "@ + decimal_chars(*max as nat)));
        },
    }
}

impl PorcelainParseError {
    /// The error's message: `worktree porcelain record R field F: <kind>`.
    pub fn to_string(&self) -> (s: String)
        ensures
            s@ == error_message(*self),
    {
        let mut out = String::new();
        out.append("worktree porcelain record ");
        push_decimal(&mut out, self.record_index);
        out.append(" field ");
        push_decimal(&mut out, self.field_index);
        out.append(": ");
        let ghost prefix = out@;
        push_kind_message(&mut out, &self.kind);
        assert(out@ =~= error_message(*self));
        out
    }
}

impl PorcelainParseErrorKind {
    /// The kind's message.
    pub fn to_string(&self) -> (s: String)
        ensures
            s@ == kind_message(*self),
    {
        let mut out = String::new();
        push_kind_message(&mut out, self);
        assert(out@ =~= kind_message(*self));
        out
    }
}

} // verus!
