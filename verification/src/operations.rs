//! Database maintenance reports: the integrity report assembled from what the
//! database answered, and the default name of a backup file.
use vstd::prelude::*;
use std::path::Path;
use crate::review::owned;
use crate::text::{push_str, str_eq};

verus! {

pub struct OperationError {
    pub category: String,
    pub code: String,
    pub message: String,
    pub path: String,
}

pub struct BackupResponse {
    pub schema_version: String,
    pub command: String,
    pub ok: bool,
    pub source: String,
    pub destination: Option<String>,
    pub errors: Vec<OperationError>,
}

pub struct Count {
    pub entity: String,
    pub count: i64,
}

pub struct IntegrityFinding {
    pub category: String,
    pub code: String,
    pub entity: String,
    pub count: i64,
}

pub struct IntegrityResponse {
    pub schema_version: String,
    pub command: String,
    pub ok: bool,
    pub sqlite_integrity: String,
    pub user_version: Option<i64>,
    pub counts: Vec<Count>,
    pub findings: Vec<IntegrityFinding>,
    pub errors: Vec<OperationError>,
}

/// The schema version the integrity report expects.
pub const EXPECTED_USER_VERSION: i64 = 1;

/// What the database answered to the integrity probe, in the order the
/// questions are asked; an `Err` carries the error text, and nothing is asked
/// after the first error.
pub struct IntegrityProbe {
    /// Opening the database read-only.
    pub open: Result<(), String>,
    /// `PRAGMA integrity_check`.
    pub integrity_check: Result<String, String>,
    /// `PRAGMA user_version`, when it could be read.
    pub user_version: Option<i64>,
    /// Row counts of the tables named by `integrity_entities`, in that order.
    pub table_counts: Vec<Result<i64, String>>,
    /// Counts of the reference checks named by `integrity_checks`, in that order.
    pub reference_checks: Vec<Result<i64, String>>,
}

/// Entities whose rows the integrity report counts.
pub open spec fn spec_entities() -> Seq<Seq<char>> {
    seq!["accounts"@, "categories"@, "income_sources"@, "canonical_transactions"@, "transaction_lines"@,
        "canonical_transfer_pairs"@, "provenance"@]
}

/// Category, code and entity of each referential check, in order.
pub open spec fn spec_checks() -> Seq<(Seq<char>, Seq<char>, Seq<char>)> {
    seq![
        ("broken_reference"@, "transaction_account_missing"@, "canonical_transactions"@),
        ("broken_reference"@, "transaction_income_source_missing"@, "canonical_transactions"@),
        ("broken_reference"@, "line_transaction_missing"@, "transaction_lines"@),
        ("broken_reference"@, "line_category_missing"@, "transaction_lines"@),
        ("broken_reference"@, "transfer_leg_missing_or_incompatible"@, "canonical_transfer_pairs"@),
        ("broken_reference"@, "provenance_target_missing"@, "provenance"@),
    ]
}

/// The entities whose rows are counted, in order.
pub fn integrity_entities() -> (r: Vec<&'static str>)
    ensures
        r@.len() == spec_entities().len(),
        forall|i: int| 0 <= i < r@.len() ==> (#[trigger] r@[i])@ == spec_entities()[i],
{
    let r = vec!["accounts", "categories", "income_sources", "canonical_transactions", "transaction_lines",
        "canonical_transfer_pairs", "provenance"];
    assert(r@.len() == 7);
    r
}

/// The referential checks, in order: category, code and entity.
pub fn integrity_checks() -> (r: Vec<(&'static str, &'static str, &'static str)>)
    ensures
        r@.len() == spec_checks().len(),
        forall|i: int| 0 <= i < r@.len() ==> ((#[trigger] r@[i]).0@, r@[i].1@, r@[i].2@) == spec_checks()[i],
{
    let r = vec![
        ("broken_reference", "transaction_account_missing", "canonical_transactions"),
        ("broken_reference", "transaction_income_source_missing", "canonical_transactions"),
        ("broken_reference", "line_transaction_missing", "transaction_lines"),
        ("broken_reference", "line_category_missing", "transaction_lines"),
        ("broken_reference", "transfer_leg_missing_or_incompatible", "canonical_transfer_pairs"),
        ("broken_reference", "provenance_target_missing", "provenance"),
    ];
    assert(r@.len() == 6);
    r
}

/// The integrity report is healthy: the integrity check said `ok`, the schema
/// version is the expected one, every table could be counted and no
/// reference check found a broken row.
pub open spec fn spec_integrity_ok(p: IntegrityProbe) -> bool {
    &&& p.open is Ok
    &&& (p.integrity_check matches Ok(v) && v@ == "ok"@)
    &&& p.user_version == Some(EXPECTED_USER_VERSION)
    &&& p.table_counts@.len() >= 7
    &&& forall|i: int| 0 <= i < 7 ==> (#[trigger] p.table_counts@[i]) is Ok
    &&& p.reference_checks@.len() >= 6
    &&& forall|i: int| 0 <= i < 6 ==> (#[trigger] p.reference_checks@[i]) is Ok
    &&& forall|i: int| 0 <= i < 6 ==> (#[trigger] p.reference_checks@[i])->Ok_0 <= 0
}

/// A finding as category, code, entity and count.
pub open spec fn finding_view(f: IntegrityFinding) -> (Seq<char>, Seq<char>, Seq<char>, int) {
    (f.category@, f.code@, f.entity@, f.count as int)
}

pub open spec fn finding_views(f: Seq<IntegrityFinding>) -> Seq<(Seq<char>, Seq<char>, Seq<char>, int)> {
    f.map_values(|x: IntegrityFinding| finding_view(x))
}

/// The findings raised before any table is counted: a failed integrity
/// check, then an unexpected schema version.
pub open spec fn base_findings(check: Seq<char>, user_version: Option<i64>) -> Seq<(Seq<char>, Seq<char>, Seq<char>, int)> {
    (if check != "ok"@ {
        seq![("sqlite_corruption"@, "sqlite_integrity_failed"@, "database"@, 1int)]
    } else {
        Seq::empty()
    }) + (if user_version != Some(EXPECTED_USER_VERSION) {
        seq![("schema_incompatibility"@, "unsupported_schema_version"@, "schema"@, 1int)]
    } else {
        Seq::empty()
    })
}

/// The findings of the reference checks among the first `n` that found
/// broken rows, with the number they found.
pub open spec fn broken_checks(p: IntegrityProbe, n: nat) -> Seq<(Seq<char>, Seq<char>, Seq<char>, int)>
    decreases n,
{
    if n == 0 {
        Seq::empty()
    } else {
        match p.reference_checks@[n - 1] {
            Ok(c) => if c > 0 {
                broken_checks(p, (n - 1) as nat).push(
                    (spec_checks()[n - 1].0, spec_checks()[n - 1].1, spec_checks()[n - 1].2, c as int),
                )
            } else {
                broken_checks(p, (n - 1) as nat)
            },
            Err(_) => broken_checks(p, (n - 1) as nat),
        }
    }
}

/// Every question of the probe was answered: the database opened, the
/// integrity check ran, and every table count and reference check came
/// back.
pub open spec fn probe_answered(p: IntegrityProbe) -> bool {
    &&& p.open is Ok
    &&& p.integrity_check is Ok
    &&& p.table_counts@.len() >= 7
    &&& forall|i: int| 0 <= i < 7 ==> (#[trigger] p.table_counts@[i]) is Ok
    &&& p.reference_checks@.len() >= 6
    &&& forall|i: int| 0 <= i < 6 ==> (#[trigger] p.reference_checks@[i]) is Ok
}

/// The answer at `i` failed with `message`, or is missing and `message` is
/// the one for a missing answer.
pub open spec fn failed_at(answers: Seq<Result<i64, String>>, i: int, missing: Seq<char>, message: Seq<char>) -> bool {
    if i < answers.len() {
        answers[i] matches Err(m) && m@ == message
    } else {
        message == missing
    }
}

pub open spec fn error_is(e: OperationError, category: Seq<char>, code: Seq<char>, message: Seq<char>, path: Seq<char>) -> bool {
    e.category@ == category && e.code@ == code && e.message@ == message && e.path@ == path
}

fn op_error(category: &str, code: &str, message: &String, path: &str) -> (r: OperationError)
    ensures
        r.category@ == category@,
        r.code@ == code@,
        r.message@ == message@,
        r.path@ == path@,
{
    OperationError { category: owned(category), code: owned(code), message: message.clone(), path: owned(path) }
}

/// Assembles the integrity report from what the database answered: at most
/// one error, which stops the report where it arose; the findings of the
/// integrity check, the schema version and the reference checks; and the
/// row counts of the tables.
pub fn integrity(probe: &IntegrityProbe) -> (r: IntegrityResponse)
    ensures
        r.schema_version@ == "tracky.integrity.v1"@,
        r.command@ == "integrity"@,
        r.ok == spec_integrity_ok(*probe),
        r.errors@.len() <= 1,
        forall|j: int| 0 <= j < r.findings@.len() ==> (#[trigger] r.findings@[j]).count >= 1,
        (probe.open matches Err(m) ==> (r.errors@.len() == 1 && error_is(r.errors@[0], "operational"@,
            "database_open_failed"@, m@, "db"@) && r.sqlite_integrity@ == "not_run"@ && r.user_version is None
            && r.findings@.len() == 0 && r.counts@.len() == 0)),
        (probe.open is Ok && probe.integrity_check is Err) ==> (r.errors@.len() == 1 && error_is(r.errors@[0],
            "sqlite_corruption"@, "integrity_check_failed"@, probe.integrity_check->Err_0@, "db"@)
            && r.sqlite_integrity@ == "not_run"@ && r.user_version is None && r.findings@.len() == 0
            && r.counts@.len() == 0),
        (probe.open is Ok && probe.integrity_check is Ok) ==> {
            let v = probe.integrity_check->Ok_0;
            let base = base_findings(v@, probe.user_version);
            &&& r.sqlite_integrity == v
            &&& r.user_version == probe.user_version
            &&& r.counts@.len() <= 7
            &&& forall|i: int| 0 <= i < r.counts@.len() ==> (#[trigger] r.counts@[i]).entity@ == spec_entities()[i]
                && probe.table_counts@[i] == Ok::<i64, String>(r.counts@[i].count)
            &&& finding_views(r.findings@).take(base.len() as int) == base
            &&& (r.errors@.len() == 0 <==> probe_answered(*probe))
            &&& r.errors@.len() == 0 ==> r.counts@.len() == 7 && finding_views(r.findings@) == base + broken_checks(
                *probe, 6)
            &&& (r.errors@.len() == 1 && r.counts@.len() < 7) ==> error_is(r.errors@[0], "schema_incompatibility"@,
                "required_table_unavailable"@, r.errors@[0].message@, "schema"@) && failed_at(probe.table_counts@,
                r.counts@.len() as int, "table count unavailable"@, r.errors@[0].message@)
            &&& (r.errors@.len() == 1 && r.counts@.len() == 7) ==> error_is(r.errors@[0], "operational"@,
                "integrity_query_failed"@, r.errors@[0].message@, "db"@) && exists|k: int| 0 <= k < 6
                && (forall|j: int| 0 <= j < k ==> (#[trigger] probe.reference_checks@[j]) is Ok) && #[trigger] failed_at(
                probe.reference_checks@, k, "integrity check unavailable"@, r.errors@[0].message@)
        },
{
    let mut r = IntegrityResponse {
        schema_version: owned("tracky.integrity.v1"),
        command: owned("integrity"),
        ok: false,
        sqlite_integrity: owned("not_run"),
        user_version: None,
        counts: Vec::new(),
        findings: Vec::new(),
        errors: Vec::new(),
    };
    match &probe.open {
        Ok(()) => {},
        Err(m) => {
            r.errors.push(op_error("operational", "database_open_failed", m, "db"));
            return r;
        },
    }
    let v = match &probe.integrity_check {
        Ok(v) => v,
        Err(m) => {
            r.errors.push(op_error("sqlite_corruption", "integrity_check_failed", m, "db"));
            return r;
        },
    };
    r.sqlite_integrity = v.clone();
    if !str_eq(v.as_str(), "ok") {
        r.findings.push(IntegrityFinding {
            category: owned("sqlite_corruption"),
            code: owned("sqlite_integrity_failed"),
            entity: owned("database"),
            count: 1,
        });
    }
    r.user_version = probe.user_version;
    let version_ok = match probe.user_version {
        Some(u) => u == EXPECTED_USER_VERSION,
        None => false,
    };
    if !version_ok {
        r.findings.push(IntegrityFinding {
            category: owned("schema_incompatibility"),
            code: owned("unsupported_schema_version"),
            entity: owned("schema"),
            count: 1,
        });
    }
    let ghost base = base_findings(v@, probe.user_version);
    assert(finding_views(r.findings@) =~= base);
    let entities = integrity_entities();
    let mut i: usize = 0;
    while i < entities.len()
        invariant
            i <= entities.len() == 7,
            forall|j: int| 0 <= j < 7 ==> (#[trigger] entities@[j])@ == spec_entities()[j],
            r.counts@.len() == i,
            forall|j: int| 0 <= j < i ==> (#[trigger] r.counts@[j]).entity@ == spec_entities()[j]
                && j < probe.table_counts@.len() && probe.table_counts@[j] == Ok::<i64, String>(r.counts@[j].count),
            !r.ok,
            r.schema_version@ == "tracky.integrity.v1"@,
            r.command@ == "integrity"@,
            probe.open is Ok,
            probe.integrity_check == Ok::<String, String>(*v),
            r.sqlite_integrity == *v,
            r.user_version == probe.user_version,
            base == base_findings(v@, probe.user_version),
            finding_views(r.findings@) == base,
            forall|j: int| 0 <= j < r.findings@.len() ==> (#[trigger] r.findings@[j]).count >= 1,
            forall|j: int| 0 <= j < i ==> (#[trigger] probe.table_counts@[j]) is Ok,
            r.errors@.len() == 0,
        decreases entities.len() - i,
    {
        if i >= probe.table_counts.len() {
            let m = owned("table count unavailable");
            r.errors.push(op_error("schema_incompatibility", "required_table_unavailable", &m, "schema"));
            assert(finding_views(r.findings@).take(base.len() as int) =~= base);
            return r;
        }
        match &probe.table_counts[i] {
            Ok(count) => {
                r.counts.push(Count { entity: owned(entities[i]), count: *count });
            },
            Err(m) => {
                r.errors.push(op_error("schema_incompatibility", "required_table_unavailable", m, "schema"));
                assert(finding_views(r.findings@).take(base.len() as int) =~= base);
                return r;
            },
        }
        i = i + 1;
    }
    assert(r.counts@[6].entity@ == spec_entities()[6]);
    let checks = integrity_checks();
    let mut k: usize = 0;
    while k < checks.len()
        invariant
            k <= checks.len() == 6,
            forall|j: int| 0 <= j < 6 ==> ((#[trigger] checks@[j]).0@, checks@[j].1@, checks@[j].2@) == spec_checks()[j],
            probe.table_counts@.len() >= 7,
            r.counts@.len() == 7,
            forall|j: int| 0 <= j < 7 ==> (#[trigger] r.counts@[j]).entity@ == spec_entities()[j]
                && j < probe.table_counts@.len() && probe.table_counts@[j] == Ok::<i64, String>(r.counts@[j].count),
            !r.ok,
            r.schema_version@ == "tracky.integrity.v1"@,
            r.command@ == "integrity"@,
            probe.open is Ok,
            probe.integrity_check == Ok::<String, String>(*v),
            r.sqlite_integrity == *v,
            r.user_version == probe.user_version,
            base == base_findings(v@, probe.user_version),
            finding_views(r.findings@) == base + broken_checks(*probe, k as nat),
            k <= probe.reference_checks@.len() || k == 0,
            forall|j: int| 0 <= j < k ==> (#[trigger] probe.reference_checks@[j]) is Ok,
            forall|j: int| 0 <= j < r.findings@.len() ==> (#[trigger] r.findings@[j]).count >= 1,
            forall|j: int| 0 <= j < 7 ==> (#[trigger] probe.table_counts@[j]) is Ok,
            r.errors@.len() == 0,
        decreases checks.len() - k,
    {
        if k >= probe.reference_checks.len() {
            let m = owned("integrity check unavailable");
            r.errors.push(op_error("operational", "integrity_query_failed", &m, "db"));
            assert(finding_views(r.findings@).take(base.len() as int) =~= base);
            assert(failed_at(probe.reference_checks@, k as int, "integrity check unavailable"@, r.errors@[0].message@));
            assert(!probe_answered(*probe));
            return r;
        }
        let (category, code, entity) = checks[k];
        match &probe.reference_checks[k] {
            Ok(count) => {
                if *count > 0 {
                    let ghost before = r.findings@;
                    assert(checks@[k as int].1@ == spec_checks()[k as int].1);
                    r.findings.push(IntegrityFinding {
                        category: owned(category),
                        code: owned(code),
                        entity: owned(entity),
                        count: *count,
                    });
                    assert(finding_views(r.findings@) =~= finding_views(before).push((category@, code@, entity@, *count as int)));
                    assert(finding_views(r.findings@) =~= base + broken_checks(*probe, (k + 1) as nat));
                } else {
                    assert(broken_checks(*probe, (k + 1) as nat) == broken_checks(*probe, k as nat));
                }
            },
            Err(m) => {
                r.errors.push(op_error("operational", "integrity_query_failed", m, "db"));
                assert(finding_views(r.findings@).take(base.len() as int) =~= base);
                assert(failed_at(probe.reference_checks@, k as int, "integrity check unavailable"@, r.errors@[0].message@));
                assert(!probe_answered(*probe)) by {
                    assert(probe.reference_checks@[k as int] is Err);
                }
                return r;
            },
        }
        k = k + 1;
    }
    assert(finding_views(r.findings@).take(base.len() as int) =~= base);
    proof {
        lemma_broken_checks_empty(*probe, 6);
        assert(finding_views(r.findings@).len() == r.findings@.len());
        assert forall|j: int| 0 <= j < 7 implies (#[trigger] probe.table_counts@[j]) is Ok by {
            assert(r.counts@[j].entity@ == spec_entities()[j]);
        }
        assert(base.len() == 0 <==> (v@ == "ok"@ && probe.user_version == Some(EXPECTED_USER_VERSION)));
        assert((base + broken_checks(*probe, 6)).len() == base.len() + broken_checks(*probe, 6).len());
    }
    r.ok = str_eq(r.sqlite_integrity.as_str(), "ok") && r.findings.len() == 0;
    r
}

/// No broken check among the first `n` exactly when every one of them found
/// no broken row.
proof fn lemma_broken_checks_empty(p: IntegrityProbe, n: nat)
    requires
        n <= p.reference_checks@.len(),
        forall|j: int| 0 <= j < n ==> (#[trigger] p.reference_checks@[j]) is Ok,
    ensures
        broken_checks(p, n).len() == 0 <==> forall|j: int| 0 <= j < n ==> (#[trigger] p.reference_checks@[j])->Ok_0 <= 0,
    decreases n,
{
    if n > 0 {
        lemma_broken_checks_empty(p, (n - 1) as nat);
    }
}

/// The file stem of `path` (`Path::file_stem`), when there is one.
pub uninterp spec fn file_stem_of(path: Seq<char>) -> Option<Seq<char>>;

/// The final component of `path` (`Path::file_name`), when there is one.
pub uninterp spec fn file_name_of(path: Seq<char>) -> Option<Seq<char>>;

/// Calls `std::path::Path::file_name` on `path`.  Claimed: the result is the
/// name named by `file_name_of`; a name taken from a `str` path is valid UTF-8.
#[verifier::external_body]
pub(crate) fn file_name(path: &str) -> (r: Option<String>)
    ensures
        match r {
            Some(s) => file_name_of(path@) == Some(s@),
            None => file_name_of(path@) is None,
        },
{
    Path::new(path).file_name().and_then(|x| x.to_str()).map(|x| x.to_owned())
}

/// `path` with its file name replaced by `name` (`Path::with_file_name`).
pub uninterp spec fn with_file_name_of(path: Seq<char>, name: Seq<char>) -> Seq<char>;

/// Calls `std::path::Path::file_stem` on `path`.  Claimed: the result is the
/// stem named by `file_stem_of`; a stem of a `str` path is valid UTF-8.
#[verifier::external_body]
pub(crate) fn file_stem(path: &str) -> (r: Option<String>)
    ensures
        match r {
            Some(s) => file_stem_of(path@) == Some(s@),
            None => file_stem_of(path@) is None,
        },
{
    Path::new(path).file_stem().and_then(|x| x.to_str()).map(|x| x.to_owned())
}

/// Calls `std::path::Path::with_file_name`.  Claimed: the result is the path
/// named by `with_file_name_of`; it is valid UTF-8 as both inputs are.
#[verifier::external_body]
fn with_file_name(path: &str, name: &str) -> (r: String)
    ensures
        r@ == with_file_name_of(path@, name@),
{
    Path::new(path).with_file_name(name).to_string_lossy().into_owned()
}

/// The backup file name for a source stem and a timestamp.
pub open spec fn backup_file_name(source: Seq<char>, timestamp: Seq<char>) -> Seq<char> {
    let stem = match file_stem_of(source) {
        Some(s) => s,
        None => "tracky"@,
    };
    stem + "-"@ + timestamp + ".sqlite3"@
}

/// Where a backup of `source` taken at `timestamp` goes by default: beside
/// the source, named `<stem>-<timestamp>.sqlite3` (stem `tracky` when the
/// source has none).
pub fn default_backup_path(source: &str, timestamp: &str) -> (r: String)
    ensures
        r@ == with_file_name_of(source@, backup_file_name(source@, timestamp@)),
{
    let stem = match file_stem(source) {
        Some(s) => s,
        None => owned("tracky"),
    };
    let mut name = String::new();
    push_str(&mut name, stem.as_str());
    push_str(&mut name, "-");
    push_str(&mut name, timestamp);
    push_str(&mut name, ".sqlite3");
    with_file_name(source, name.as_str())
}

/// `e` is the operation error with these fields.
pub open spec fn is_operation_error(e: OperationError, category: Seq<char>, code: Seq<char>, message: Seq<char>, path: Seq<char>) -> bool {
    e.category@ == category && e.code@ == code && e.message@ == message && e.path@ == path
}

/// The report of a backup of `source` to `destination`: refused when the
/// destination already exists (nothing is copied then), else successful
/// exactly when the copy succeeded, with the copy's failure as the error.
pub fn backup_response(
    source: &str,
    destination: &str,
    destination_exists: bool,
    outcome: Result<(), String>,
) -> (r: BackupResponse)
    ensures
        r.schema_version@ == "tracky.backup.v1"@,
        r.command@ == "backup"@,
        r.source@ == source@,
        destination_exists ==> !r.ok && r.destination is None && r.errors.len() == 1 && is_operation_error(
            r.errors@[0],
            "operational"@,
            "destination_exists"@,
            "Backup destination already exists."@,
            "destination"@,
        ),
        !destination_exists ==> match outcome {
            Ok(_) => r.ok && r.errors.len() == 0 && (r.destination matches Some(d) && d@ == destination@),
            Err(m) => !r.ok && r.destination is None && r.errors.len() == 1 && is_operation_error(
                r.errors@[0],
                "operational"@,
                "backup_failed"@,
                m@,
                "backup"@,
            ),
        },
{
    let mut errors: Vec<OperationError> = Vec::new();
    if destination_exists {
        errors.push(OperationError {
            category: owned("operational"),
            code: owned("destination_exists"),
            message: owned("Backup destination already exists."),
            path: owned("destination"),
        });
        return BackupResponse {
            schema_version: owned("tracky.backup.v1"),
            command: owned("backup"),
            ok: false,
            source: owned(source),
            destination: None,
            errors,
        };
    }
    match outcome {
        Ok(()) => BackupResponse {
            schema_version: owned("tracky.backup.v1"),
            command: owned("backup"),
            ok: true,
            source: owned(source),
            destination: Some(owned(destination)),
            errors,
        },
        Err(m) => {
            errors.push(OperationError {
                category: owned("operational"),
                code: owned("backup_failed"),
                message: m,
                path: owned("backup"),
            });
            BackupResponse {
                schema_version: owned("tracky.backup.v1"),
                command: owned("backup"),
                ok: false,
                source: owned(source),
                destination: None,
                errors,
            }
        },
    }
}

} // verus!
