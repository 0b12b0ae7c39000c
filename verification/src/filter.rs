//! The log filter: classifies a log record's message with logcheck rules and
//! annotates the record with what was found.
use vstd::prelude::*;

use crate::json_text::{json_object, member_views, null_text, object_text, scalar_text, JsonScalar};
use crate::json_api::json_quoted;
use crate::regex_api::regex_compiles;
use crate::rules::{category_name, category_rank, compile_succeeds, LogcheckDatabase, RuleCategory};
use crate::text::{decimal, decimal_chars, owned, push_all, push_str, string_from_chars, views};

verus! {

/// A log record as the log processor hands it over.
#[derive(Debug, Clone, PartialEq, Eq)]
pub struct LogEntry {
    /// `@timestamp`
    pub timestamp: String,
    /// `MESSAGE`
    pub message: String,
    /// `PRIORITY`
    pub priority: Option<String>,
    /// `SYSTEMD_UNIT`
    pub systemd_unit: Option<String>,
    /// `PID`
    pub pid: Option<String>,
    /// `HOSTNAME`
    pub hostname: Option<String>,
    /// `SYSLOG_IDENTIFIER`
    pub syslog_identifier: Option<String>,
}

/// The built-in security violation rules.
pub open spec fn embedded_violation_patterns() -> Seq<Seq<char>> {
    seq![
        "^.*authentication failure.*$"@,
        "^.*[Ff]ailed password.*$"@,
        "^.*sudo.*authentication failure.*$"@,
        "^.*segfault|segmentation fault.*$"@,
        "^.*Out of memory|OOM.*$"@,
    ]
}

/// The built-in rules for normal server events.
pub open spec fn embedded_server_patterns() -> Seq<Seq<char>> {
    seq![
        "^.*Started Session \\d+ of user.*$"@,
        "^.*Stopped Session \\d+ of user.*$"@,
        "^.*systemd-logind.*: New session.*of user.*$"@,
        "^.*systemd-logind.*: Session.*logged out.*$"@,
        "^.*sshd.*: Accepted (password|publickey) for.*$"@,
        "^.*sshd.*: Connection closed by.*$"@,
    ]
}

/// The patterns of `ps` that compile, in order.
pub open spec fn compiling(ps: Seq<Seq<char>>) -> Seq<Seq<char>>
    decreases ps.len(),
{
    if ps.len() == 0 {
        seq![]
    } else if regex_compiles(ps.last()) {
        compiling(ps.drop_last()).push(ps.last())
    } else {
        compiling(ps.drop_last())
    }
}

/// The database of built-in rules: the violation and server rules that compile,
/// every other rule set empty and uncompiled; each of the two rule sets matches
/// with exactly its patterns once compiled. Compiling goes in category order and
/// stops at the first failure: the violation rules are compiled when they compile
/// (and there are any), the server rules when both they and the violation rules
/// compile; an uncompiled rule set matches nothing.
pub open spec fn is_embedded_database(db: LogcheckDatabase) -> bool {
    let viol = compiling(embedded_violation_patterns());
    let serv = compiling(embedded_server_patterns());
    &&& db.well_formed()
    &&& views(db.violations_rules.patterns@) == compiling(embedded_violation_patterns())
    &&& views(db.server.patterns@) == compiling(embedded_server_patterns())
    &&& forall|c: RuleCategory|
        c != RuleCategory::Violations && c != RuleCategory::Server ==> {
            &&& (#[trigger] db.rule_set(c)).patterns@.len() == 0
            &&& db.rule_set(c).compiled is None
        }
    &&& db.violations_rules.compiled is Some ==> db.violations_rules.active_patterns() == views(
        db.violations_rules.patterns@,
    )
    &&& db.server.compiled is Some ==> db.server.active_patterns() == views(db.server.patterns@)
    &&& db.violations_rules.compiled is Some <==> (viol.len() > 0 && compile_succeeds(viol))
    &&& db.server.compiled is Some <==> (serv.len() > 0 && compile_succeeds(viol) && compile_succeeds(
        serv,
    ))
}

/// The character views of string slices.
pub open spec fn str_views(v: Seq<&str>) -> Seq<Seq<char>> {
    v.map_values(|p: &str| p@)
}

/// Adds the patterns that compile, in order.
fn add_valid_patterns(set: &mut crate::rules::RuleSet, patterns: &Vec<&str>)
    ensures
        final(set).category == old(set).category,
        final(set).compiled == old(set).compiled,
        final(set).source_files@ == old(set).source_files@,
        views(final(set).patterns@) == views(old(set).patterns@) + compiling(str_views(patterns@)),
{
    let ghost pv = str_views(patterns@);
    let mut i: usize = 0;
    assert(pv.take(0) =~= Seq::<Seq<char>>::empty());
    assert(views(set.patterns@) =~= views(old(set).patterns@) + compiling(pv.take(0)));
    while i < patterns.len()
        invariant
            i <= patterns@.len(),
            pv == str_views(patterns@),
            set.category == old(set).category,
            set.compiled == old(set).compiled,
            set.source_files@ == old(set).source_files@,
            views(set.patterns@) == views(old(set).patterns@) + compiling(pv.take(i as int)),
        decreases patterns.len() - i,
    {
        let ghost before = views(set.patterns@);
        let r = set.add_pattern(owned(patterns[i]));
        proof {
            assert(pv.take(i + 1).drop_last() =~= pv.take(i as int));
            assert(pv.take(i + 1).last() == patterns@[i as int]@);
            if regex_compiles(patterns@[i as int]@) {
                assert(views(set.patterns@) =~= before.push(patterns@[i as int]@));
                assert(views(set.patterns@) =~= views(old(set).patterns@) + compiling(pv.take(i + 1)));
            } else {
                assert(views(set.patterns@) =~= before);
            }
        }
        i = i + 1;
    }
    assert(pv.take(patterns@.len() as int) =~= pv);
}

/// The database of built-in rules, compiled.
pub fn embedded_database() -> (db: LogcheckDatabase)
    ensures
        is_embedded_database(db),
{
    let mut db = LogcheckDatabase::new();
    let ghost db0 = db;
    assert(db.rule_set(RuleCategory::Violations).patterns@.len() == 0);
    assert(db.rule_set(RuleCategory::Server).patterns@.len() == 0);
    let mut violations: Vec<&str> = Vec::new();
    violations.push("^.*authentication failure.*$");
    violations.push("^.*[Ff]ailed password.*$");
    violations.push("^.*sudo.*authentication failure.*$");
    violations.push("^.*segfault|segmentation fault.*$");
    violations.push("^.*Out of memory|OOM.*$");
    let mut server: Vec<&str> = Vec::new();
    server.push("^.*Started Session \\d+ of user.*$");
    server.push("^.*Stopped Session \\d+ of user.*$");
    server.push("^.*systemd-logind.*: New session.*of user.*$");
    server.push("^.*systemd-logind.*: Session.*logged out.*$");
    server.push("^.*sshd.*: Accepted (password|publickey) for.*$");
    server.push("^.*sshd.*: Connection closed by.*$");
    assert(str_views(violations@) =~= embedded_violation_patterns());
    assert(str_views(server@) =~= embedded_server_patterns());
    add_valid_patterns(&mut db.violations_rules, &violations);
    add_valid_patterns(&mut db.server, &server);
    assert(views(db.violations_rules.patterns@) =~= compiling(embedded_violation_patterns()));
    assert(views(db.server.patterns@) =~= compiling(embedded_server_patterns()));
    let ghost before = db;
    let compiled = db.compile_all();
    proof {
        let viol = compiling(embedded_violation_patterns());
        let serv = compiling(embedded_server_patterns());
        assert forall|c: RuleCategory|
            c != RuleCategory::Violations && c != RuleCategory::Server implies compile_succeeds(
                views(#[trigger] before.rule_set(c).patterns@),
            ) by {
            assert(before.rule_set(c) == db0.rule_set(c));
            assert(db0.rule_set(c).patterns@.len() == 0);
        }
        assert(views(before.rule_set(RuleCategory::Violations).patterns@) == viol);
        assert(views(before.rule_set(RuleCategory::Server).patterns@) == serv);
        assert(before.violations_rules.compiled is None);
        assert(before.server.compiled is None);
        if compiled.is_ok() {
            assert(compile_succeeds(views(before.rule_set(RuleCategory::Violations).patterns@)));
            assert(compile_succeeds(views(before.rule_set(RuleCategory::Server).patterns@)));
            assert(db.rule_set(RuleCategory::Violations).compiled_from(before.rule_set(RuleCategory::Violations)));
            assert(db.rule_set(RuleCategory::Server).compiled_from(before.rule_set(RuleCategory::Server)));
        } else {
            let f = choose|f: RuleCategory|
                #[trigger] db.failed_at(before, f) && !compile_succeeds(
                    views(before.rule_set(f).patterns@),
                ) && forall|c: RuleCategory|
                    category_rank(c) < category_rank(f) ==> compile_succeeds(
                        views(#[trigger] before.rule_set(c).patterns@),
                    );
            assert(f == RuleCategory::Violations || f == RuleCategory::Server);
            if f == RuleCategory::Violations {
                assert(db.rule_set(RuleCategory::Violations).unchanged_from(before.rule_set(RuleCategory::Violations)));
                assert(db.rule_set(RuleCategory::Server).unchanged_from(before.rule_set(RuleCategory::Server)));
            } else {
                assert(category_rank(RuleCategory::Violations) < category_rank(f));
                assert(compile_succeeds(views(before.rule_set(RuleCategory::Violations).patterns@)));
                assert(db.rule_set(RuleCategory::Violations).compiled_from(before.rule_set(RuleCategory::Violations)));
                assert(db.rule_set(RuleCategory::Server).unchanged_from(before.rule_set(RuleCategory::Server)));
            }
        }
        assert(db.rule_set(RuleCategory::Violations).compiled_from(before.rule_set(RuleCategory::Violations))
            || db.rule_set(RuleCategory::Violations).unchanged_from(before.rule_set(RuleCategory::Violations)));
        assert(db.rule_set(RuleCategory::Server).compiled_from(before.rule_set(RuleCategory::Server))
            || db.rule_set(RuleCategory::Server).unchanged_from(before.rule_set(RuleCategory::Server)));
        assert forall|c: RuleCategory|
            c != RuleCategory::Violations && c != RuleCategory::Server implies {
                &&& (#[trigger] db.rule_set(c)).patterns@.len() == 0
                &&& db.rule_set(c).compiled is None
            } by {
            assert(db.rule_set(c).compiled_from(before.rule_set(c)) || db.rule_set(c).unchanged_from(
                before.rule_set(c),
            ));
            assert(before.rule_set(c) == db0.rule_set(c));
            assert(db0.rule_set(c).patterns@.len() == 0);
        }
        assert forall|c: RuleCategory| #[trigger] db.rule_set(c).category == c by {
            assert(db.rule_set(c).compiled_from(before.rule_set(c)) || db.rule_set(c).unchanged_from(
                before.rule_set(c),
            ));
            assert(before.rule_set(c).category == db0.rule_set(c).category);
            assert(db0.well_formed());
        }
        assert(views(db.violations_rules.patterns@) == views(before.violations_rules.patterns@));
        assert(views(db.server.patterns@) == views(before.server.patterns@));
    }
    db
}

/// Apply logcheck rules to a log entry with the given database.
pub fn apply_rules_with(db: &LogcheckDatabase, log_entry: &LogEntry) -> (r: Option<RuleCategory>)
    ensures
        r == db.spec_match_message(log_entry.message@),
{
    db.match_message(log_entry.message.as_str())
}

/// Apply the built-in logcheck rules to a log entry.
pub fn apply_logcheck_rules(log_entry: &LogEntry) -> (r: Option<RuleCategory>)
    ensures
        exists|db: LogcheckDatabase|
            is_embedded_database(db) && r == db.spec_match_message(log_entry.message@),
{
    let db = embedded_database();
    apply_rules_with(&db, log_entry)
}

/// The rule type and the description reported for a classification.
pub open spec fn annotation(c: Option<RuleCategory>) -> (Seq<char>, Seq<char>) {
    match c {
        Some(RuleCategory::Cracking) => ("cracking"@, "Active intrusion attempt detected"@),
        Some(RuleCategory::CrackingIgnore) => (
            "cracking_ignore"@,
            "Known false positive for cracking detection"@,
        ),
        Some(RuleCategory::Violations) => (
            "violations"@,
            "Security violation or critical system event"@,
        ),
        Some(RuleCategory::ViolationsIgnore) => (
            "violations_ignore"@,
            "Known false positive for security violation"@,
        ),
        Some(RuleCategory::SystemEvents) => ("ignore"@, "Normal system event"@),
        Some(RuleCategory::Workstation) => ("ignore"@, "Normal workstation event"@),
        Some(RuleCategory::Server) => ("ignore"@, "Normal server event"@),
        Some(RuleCategory::Local) => ("ignore"@, "Local custom rule match"@),
        None => ("unclassified"@, "No matching logcheck rule found"@),
    }
}

/// The four ignore categories: the rule sets whose matches are normal events.
pub open spec fn is_ignore_category(c: RuleCategory) -> bool {
    c == RuleCategory::SystemEvents || c == RuleCategory::Workstation || c == RuleCategory::Server
        || c == RuleCategory::Local
}

/// What the annotation says of a classification: the rule type is
/// `violations`, and the description the security-violation one, exactly for a
/// violation; every ignore category has the rule type `ignore` and a
/// description of its own, different from the violation one; an unmatched
/// message is `unclassified`.
pub proof fn lemma_annotation_kinds(c: Option<RuleCategory>)
    ensures
        annotation(c).0 == "violations"@ <==> c == Some(RuleCategory::Violations),
        annotation(c).1 == "Security violation or critical system event"@ <==> c == Some(
            RuleCategory::Violations,
        ),
        annotation(c).0 == "ignore"@ <==> (c matches Some(k) && is_ignore_category(k)),
        annotation(c).0 == "unclassified"@ <==> c is None,
        c == Some(RuleCategory::SystemEvents) ==> annotation(c).1 == "Normal system event"@,
{
    reveal_strlit("cracking");
    reveal_strlit("cracking_ignore");
    reveal_strlit("violations");
    reveal_strlit("violations_ignore");
    reveal_strlit("ignore");
    reveal_strlit("unclassified");
    reveal_strlit("Active intrusion attempt detected");
    reveal_strlit("Known false positive for cracking detection");
    reveal_strlit("Security violation or critical system event");
    reveal_strlit("Known false positive for security violation");
    reveal_strlit("Normal system event");
    reveal_strlit("Normal workstation event");
    reveal_strlit("Normal server event");
    reveal_strlit("Local custom rule match");
    reveal_strlit("No matching logcheck rule found");
    let v = "violations"@;
    let d = "Security violation or critical system event"@;
    match c {
        Some(RuleCategory::Violations) => {},
        Some(RuleCategory::Cracking) => {
            assert(annotation(c).0[0] != v[0]);
            assert(annotation(c).1[0] != d[0]);
        },
        Some(RuleCategory::CrackingIgnore) => {
            assert(annotation(c).0[0] != v[0]);
            assert(annotation(c).1[0] != d[0]);
        },
        Some(RuleCategory::ViolationsIgnore) => {
            assert(annotation(c).0.len() != v.len());
            assert(annotation(c).1[0] != d[0]);
        },
        Some(RuleCategory::SystemEvents) => {
            assert(annotation(c).0[0] != v[0]);
            assert(annotation(c).1[0] != d[0]);
        },
        Some(RuleCategory::Workstation) => {
            assert(annotation(c).0[0] != v[0]);
            assert(annotation(c).1[0] != d[0]);
        },
        Some(RuleCategory::Server) => {
            assert(annotation(c).0[0] != v[0]);
            assert(annotation(c).1[0] != d[0]);
        },
        Some(RuleCategory::Local) => {
            assert(annotation(c).0[0] != v[0]);
            assert(annotation(c).1[0] != d[0]);
        },
        None => {
            assert(annotation(c).0[0] != v[0]);
            assert(annotation(c).1[0] != d[0]);
        },
    }
    assert("ignore"@[0] != "unclassified"@[0]);
    assert("cracking"@[0] != "ignore"@[0]);
    assert("cracking_ignore"@[0] != "ignore"@[0]);
    assert("violations"@[0] != "ignore"@[0]);
    assert("violations_ignore"@[0] != "ignore"@[0]);
    assert("cracking"@[0] != "unclassified"@[0]);
    assert("cracking_ignore"@[0] != "unclassified"@[0]);
    assert("violations"@[0] != "unclassified"@[0]);
    assert("violations_ignore"@[0] != "unclassified"@[0]);
}

/// The annotated record of a message classified with a database reports the
/// rule type `violations` exactly when the message matched a violation rule and
/// no violation-ignore rule, and no unignored cracking rule; it reports `ignore`
/// exactly when it matched none of those but one of the ignore rule sets.
pub proof fn lemma_annotation_of_classification(db: LogcheckDatabase, msg: Seq<char>)
    ensures
        annotation(db.spec_match_message(msg)).0 == "violations"@ <==> {
            &&& !(db.cracking_rules.spec_matches(msg) && !db.cracking_ignore.spec_matches(msg))
            &&& db.violations_rules.spec_matches(msg)
            &&& !db.violations_ignore.spec_matches(msg)
        },
        annotation(db.spec_match_message(msg)).0 == "ignore"@ <==> {
            &&& !(db.cracking_rules.spec_matches(msg) && !db.cracking_ignore.spec_matches(msg))
            &&& !(db.violations_rules.spec_matches(msg) && !db.violations_ignore.spec_matches(msg))
            &&& (db.system_events.spec_matches(msg) || db.server.spec_matches(msg)
                || db.workstation.spec_matches(msg) || db.local.spec_matches(msg))
        },
{
    lemma_annotation_kinds(db.spec_match_message(msg));
    crate::rules::lemma_classification_by_rule_sets(db, msg);
}

/// The text of an optional string field: the quoted string, or `null`.
pub open spec fn optional_text(o: Option<String>) -> Option<Seq<char>> {
    match o {
        Some(s) => json_quoted(s@),
        None => Some(null_text()),
    }
}

/// The members of the annotated record, in the order serde_json writes the keys
/// of a JSON object (sorted by their bytes): the record's fields, then, when a
/// rule matched, the category name, the description, the matched flag and the
/// rule type; otherwise the description, the matched flag and the rule type.
pub open spec fn filtered_members(e: LogEntry, c: Option<RuleCategory>) -> Seq<(Seq<char>, Option<Seq<char>>)> {
    let fields = seq![
        ("@timestamp"@, json_quoted(e.timestamp@)),
        ("HOSTNAME"@, optional_text(e.hostname)),
        ("MESSAGE"@, json_quoted(e.message@)),
        ("PID"@, optional_text(e.pid)),
        ("PRIORITY"@, optional_text(e.priority)),
        ("SYSLOG_IDENTIFIER"@, optional_text(e.syslog_identifier)),
        ("SYSTEMD_UNIT"@, optional_text(e.systemd_unit)),
    ];
    match c {
        Some(cat) => fields + seq![
            ("logcheck_category"@, json_quoted(category_name(cat))),
            ("logcheck_description"@, json_quoted(annotation(c).1)),
            ("logcheck_matched"@, Some(crate::json_text::bool_text(true))),
            ("logcheck_rule_type"@, json_quoted(annotation(c).0)),
        ],
        None => fields + seq![
            ("logcheck_description"@, json_quoted(annotation(c).1)),
            ("logcheck_matched"@, Some(crate::json_text::bool_text(false))),
            ("logcheck_rule_type"@, json_quoted(annotation(c).0)),
        ],
    }
}

/// The record as a JSON text with the logcheck annotation (`{}` if it could not be
/// written; quoting strings never fails, so that does not happen).
pub open spec fn spec_filtered_entry(e: LogEntry, c: Option<RuleCategory>) -> Seq<char> {
    match object_text(filtered_members(e, c)) {
        Some(t) => t,
        None => "{}"@,
    }
}

/// A JSON value for an optional string.
fn optional_scalar(o: &Option<String>) -> (r: JsonScalar)
    ensures
        scalar_text(r) == optional_text(*o),
{
    match o {
        Some(s) => JsonScalar::Str(s.clone()),
        None => JsonScalar::Null,
    }
}

/// Create a filtered log entry with logcheck metadata, as JSON text.
pub fn create_filtered_entry(log_entry: &LogEntry, matched_category: Option<RuleCategory>) -> (r: String)
    ensures
        r@ == spec_filtered_entry(*log_entry, matched_category),
{
    let mut m: Vec<(String, JsonScalar)> = Vec::new();
    // serde_json writes an object's keys sorted
    m.push((owned("@timestamp"), JsonScalar::Str(log_entry.timestamp.clone())));
    m.push((owned("HOSTNAME"), optional_scalar(&log_entry.hostname)));
    m.push((owned("MESSAGE"), JsonScalar::Str(log_entry.message.clone())));
    m.push((owned("PID"), optional_scalar(&log_entry.pid)));
    m.push((owned("PRIORITY"), optional_scalar(&log_entry.priority)));
    m.push((owned("SYSLOG_IDENTIFIER"), optional_scalar(&log_entry.syslog_identifier)));
    m.push((owned("SYSTEMD_UNIT"), optional_scalar(&log_entry.systemd_unit)));
    match matched_category {
        Some(category) => {
            let (rule_type, description): (&str, &str) = match category {
                RuleCategory::Cracking => ("cracking", "Active intrusion attempt detected"),
                RuleCategory::CrackingIgnore => (
                    "cracking_ignore",
                    "Known false positive for cracking detection",
                ),
                RuleCategory::Violations => (
                    "violations",
                    "Security violation or critical system event",
                ),
                RuleCategory::ViolationsIgnore => (
                    "violations_ignore",
                    "Known false positive for security violation",
                ),
                RuleCategory::SystemEvents => ("ignore", "Normal system event"),
                RuleCategory::Workstation => ("ignore", "Normal workstation event"),
                RuleCategory::Server => ("ignore", "Normal server event"),
                RuleCategory::Local => ("ignore", "Local custom rule match"),
            };
            m.push((owned("logcheck_category"), JsonScalar::Str(owned(category.name()))));
            m.push((owned("logcheck_description"), JsonScalar::Str(owned(description))));
            m.push((owned("logcheck_matched"), JsonScalar::Bool(true)));
            m.push((owned("logcheck_rule_type"), JsonScalar::Str(owned(rule_type))));
        },
        None => {
            m.push((
                owned("logcheck_description"),
                JsonScalar::Str(owned("No matching logcheck rule found")),
            ));
            m.push((owned("logcheck_matched"), JsonScalar::Bool(false)));
            m.push((owned("logcheck_rule_type"), JsonScalar::Str(owned("unclassified"))));
        },
    }
    assert(member_views(m@) =~= filtered_members(*log_entry, matched_category));
    match json_object(&m) {
        Some(t) => t,
        None => {
            proof {
                reveal_strlit("{}");
            }
            owned("{}")
        },
    }
}

/// The demonstration record: a greeting, the time it was handed over, and a
/// processed flag.
pub open spec fn spec_demo_json(time_sec: u32) -> Seq<char> {
    "{\"logcheck_demo\":\"Hello from Rust WASM logcheck filter!\",\"timestamp\":"@ + decimal(
        time_sec as nat,
    ) + ",\"processed\":true}"@
}

/// The demonstration record for a time in seconds.
pub fn demo_json(time_sec: u32) -> (r: String)
    ensures
        r@ == spec_demo_json(time_sec),
{
    let mut out: Vec<char> = Vec::new();
    push_str(&mut out, "{\"logcheck_demo\":\"Hello from Rust WASM logcheck filter!\",\"timestamp\":");
    let digits = decimal_chars(time_sec as usize);
    push_all(&mut out, &digits);
    push_str(&mut out, ",\"processed\":true}");
    string_from_chars(&out)
}

} // verus!
