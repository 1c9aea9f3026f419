//! A parser for the InfluxQL statements the engine understands. It reads
//! the text one character at a time from a position: white space is
//! skipped, keywords are read in upper case, and each statement kind reads
//! its own clauses.
//!
//! Numbers that the engine reads as floating point (limits, field values,
//! timestamps of `INSERT`, the replication factor) are kept here as their
//! text; only texts that `f64`'s `FromStr` accepts are kept.

use vstd::prelude::*;
use vstd::string::*;
use crate::chars::{CharClass, scan, lemma_scan, scan_from, upper_case, to_upper, trim, trim_seq, in_class, class_holds};
use crate::text::push_str;
use crate::numbers::{float_text, is_float_text, u64_of_text, parse_u64};
use crate::text::str_eq;

verus! {

/// `CREATE RETENTION POLICY`: its name, database, duration in seconds,
/// the text of its replication factor (when one that reads as a number was
/// given; one copy otherwise) and whether it is the default.
#[derive(Debug, Clone)]
pub struct CreateRetentionPolicy {
    pub name: String,
    pub database: String,
    pub duration_seconds: u64,
    pub replication: Option<String>,
    pub default: bool,
}

/// `SELECT`: the fields (upper case), the measurement, the `WHERE` text,
/// the texts of `LIMIT`, `SLIMIT` and `SOFFSET`, and the `ORDER BY` word.
#[derive(Debug, Clone)]
pub struct SelectStatement {
    pub fields: Vec<String>,
    pub measurement: String,
    pub condition: Option<String>,
    pub limit: Option<String>,
    pub slimit: Option<String>,
    pub soffset: Option<String>,
    pub order_by: Option<String>,
}

/// A parsed statement.
#[derive(Debug, Clone)]
pub enum Statement {
    Select(SelectStatement),
    CreateDatabase(String),
    CreateRetentionPolicy(CreateRetentionPolicy),
    DropDatabase(String),
    DropMeasurement(String),
    DropSeries { condition: Option<String> },
    Delete { condition: Option<String> },
    ShowDatabases,
    ShowMeasurements,
    ShowRetentionPolicies(Option<String>),
    ShowTagKeys(Option<String>),
    ShowTagValues(Option<String>, String),
    ShowFieldKeys(Option<String>),
    ShowSeries,
    Use { database: String },
    /// `INSERT`: the measurement, the tags and the fields in the order
    /// written (a later one of the same key replaces an earlier one), each
    /// field value as its text, and the text of the timestamp.
    Insert { measurement: String, tags: Vec<(String, String)>, fields: Vec<(String, String)>, timestamp: Option<String> },
}

/// The abstract value of `CREATE RETENTION POLICY`.
pub struct RetentionPolicyView {
    pub name: Seq<char>,
    pub database: Seq<char>,
    pub duration_seconds: u64,
    pub replication: Option<Seq<char>>,
    pub default: bool,
}

/// The abstract value of `SELECT`.
pub struct SelectView {
    pub fields: Seq<Seq<char>>,
    pub measurement: Seq<char>,
    pub condition: Option<Seq<char>>,
    pub limit: Option<Seq<char>>,
    pub slimit: Option<Seq<char>>,
    pub soffset: Option<Seq<char>>,
    pub order_by: Option<Seq<char>>,
}

/// The abstract value of a statement.
pub enum StatementView {
    Select(SelectView),
    CreateDatabase(Seq<char>),
    CreateRetentionPolicy(RetentionPolicyView),
    DropDatabase(Seq<char>),
    DropMeasurement(Seq<char>),
    DropSeries(Option<Seq<char>>),
    Delete(Option<Seq<char>>),
    ShowDatabases,
    ShowMeasurements,
    ShowRetentionPolicies(Option<Seq<char>>),
    ShowTagKeys(Option<Seq<char>>),
    ShowTagValues(Option<Seq<char>>, Seq<char>),
    ShowFieldKeys(Option<Seq<char>>),
    ShowSeries,
    Use(Seq<char>),
    Insert(Seq<char>, Seq<(Seq<char>, Seq<char>)>, Seq<(Seq<char>, Seq<char>)>, Option<Seq<char>>),
}

/// The characters of an optional string.
pub open spec fn opt_view(o: Option<String>) -> Option<Seq<char>> {
    match o {
        Some(s) => Some(s@),
        None => None,
    }
}

/// The characters of each string of a list.
pub open spec fn strings_view(v: Seq<String>) -> Seq<Seq<char>> {
    v.map_values(|s: String| s@)
}

/// The characters of each pair of strings of a list.
pub open spec fn pairs_view(v: Seq<(String, String)>) -> Seq<(Seq<char>, Seq<char>)> {
    v.map_values(|p: (String, String)| (p.0@, p.1@))
}

impl View for Statement {
    type V = StatementView;

    open spec fn view(&self) -> StatementView {
        match self {
            Statement::Select(s) => StatementView::Select(SelectView {
                fields: strings_view(s.fields@),
                measurement: s.measurement@,
                condition: opt_view(s.condition),
                limit: opt_view(s.limit),
                slimit: opt_view(s.slimit),
                soffset: opt_view(s.soffset),
                order_by: opt_view(s.order_by),
            }),
            Statement::CreateDatabase(n) => StatementView::CreateDatabase(n@),
            Statement::CreateRetentionPolicy(p) => StatementView::CreateRetentionPolicy(RetentionPolicyView {
                name: p.name@,
                database: p.database@,
                duration_seconds: p.duration_seconds,
                replication: opt_view(p.replication),
                default: p.default,
            }),
            Statement::DropDatabase(n) => StatementView::DropDatabase(n@),
            Statement::DropMeasurement(n) => StatementView::DropMeasurement(n@),
            Statement::DropSeries { condition } => StatementView::DropSeries(opt_view(*condition)),
            Statement::Delete { condition } => StatementView::Delete(opt_view(*condition)),
            Statement::ShowDatabases => StatementView::ShowDatabases,
            Statement::ShowMeasurements => StatementView::ShowMeasurements,
            Statement::ShowRetentionPolicies(d) => StatementView::ShowRetentionPolicies(opt_view(*d)),
            Statement::ShowTagKeys(m) => StatementView::ShowTagKeys(opt_view(*m)),
            Statement::ShowTagValues(m, k) => StatementView::ShowTagValues(opt_view(*m), k@),
            Statement::ShowFieldKeys(m) => StatementView::ShowFieldKeys(opt_view(*m)),
            Statement::ShowSeries => StatementView::ShowSeries,
            Statement::Use { database } => StatementView::Use(database@),
            Statement::Insert { measurement, tags, fields, timestamp } =>
                StatementView::Insert(measurement@, pairs_view(tags@), pairs_view(fields@), opt_view(*timestamp)),
        }
    }
}

/// The abstract value of an optional statement.
pub open spec fn statement_opt_view(r: Option<Statement>) -> Option<StatementView> {
    match r {
        Some(s) => Some(s@),
        None => None,
    }
}

// ----- the lexical steps, over the characters `s` and a position `p` -----

/// The position after the white space at `p`.
pub open spec fn ws(s: Seq<char>, p: int) -> int {
    scan(s, p, CharClass::White)
}

/// The character at `p`, if any.
pub open spec fn char_at(s: Seq<char>, p: int) -> Option<char> {
    if 0 <= p < s.len() { Some(s[p]) } else { None }
}

/// A word at `p` (letters, digits, `_`, `*`), in upper case, and the
/// position after it.
pub open spec fn word_at(s: Seq<char>, p: int) -> (Seq<char>, int) {
    let e = scan(s, p, CharClass::Word);
    (upper_case(s.subrange(p, e)), e)
}

/// After white space, an identifier (a letter or `_`, then letters,
/// digits and `_`), and the position after it; without one, the position
/// after the white space.
pub open spec fn ident_at(s: Seq<char>, p: int) -> (Option<Seq<char>>, int) {
    let q = ws(s, p);
    if q < s.len() && (crate::chars::alphabetic(s[q]) || s[q] == '_') {
        let e = scan(s, q + 1, CharClass::Ident);
        (Some(s.subrange(q, e)), e)
    } else {
        (None, q)
    }
}

/// After white space, a non-empty run of characters of a class, and the
/// position after the run.
pub open spec fn run_at(s: Seq<char>, p: int, k: CharClass) -> (Option<Seq<char>>, int) {
    let q = ws(s, p);
    let e = scan(s, q, k);
    if q < e { (Some(s.subrange(q, e)), e) } else { (None, e) }
}

/// After white space, a run of characters of a class that reads as a
/// floating-point number, and the position after the run (which is
/// consumed whether it reads as one or not).
pub open spec fn float_at(s: Seq<char>, p: int, k: CharClass) -> (Option<Seq<char>>, int) {
    let q = ws(s, p);
    let e = scan(s, q, k);
    if q < e && float_text(s.subrange(q, e)) { (Some(s.subrange(q, e)), e) } else { (None, e) }
}

/// A duration: an optional `=`, a number of whole units (zero when the
/// digits do not read as a `u64`), and a unit word; seconds, minutes,
/// hours, days or weeks, each under a few spellings, in wrapping
/// arithmetic; an unknown unit counts seconds.
pub open spec fn duration_at(s: Seq<char>, p: int) -> (u64, int) {
    let q = ws(s, p);
    let q1 = if q < s.len() && s[q] == '=' { q + 1 } else { q };
    let q2 = ws(s, q1);
    let e = scan(s, q2, CharClass::Digits);
    let num: u64 = match u64_of_text(s.subrange(q2, e)) { Some(v) => v, None => 0 };
    let (w, e2) = word_at(s, ws(s, e));
    let unit = upper_case(w);
    let secs: u64 = if unit == "s"@ || unit == "S"@ || unit == "SEC"@ || unit == "SECOND"@ || unit == "SECONDS"@ {
        num
    } else if unit == "m"@ || unit == "M"@ || unit == "MIN"@ || unit == "MINUTE"@ || unit == "MINUTES"@ {
        num.wrapping_mul(60)
    } else if unit == "h"@ || unit == "H"@ || unit == "HR"@ || unit == "HOUR"@ || unit == "HOURS"@ {
        num.wrapping_mul(3600)
    } else if unit == "d"@ || unit == "D"@ || unit == "DAY"@ || unit == "DAYS"@ {
        num.wrapping_mul(86400)
    } else if unit == "w"@ || unit == "W"@ || unit == "WK"@ || unit == "WEEK"@ || unit == "WEEKS"@ {
        num.wrapping_mul(604800)
    } else {
        num
    };
    (secs, e2)
}

/// `WHERE` and the rest of the text, trimmed; without a `WHERE` followed
/// by something, nothing, and the position after the white space.
pub open spec fn where_at(s: Seq<char>, p: int) -> (Option<Seq<char>>, int) {
    let q = ws(s, p);
    let (w, e) = word_at(s, q);
    if upper_case(w) == "WHERE"@ {
        let c = ws(s, e);
        if c < s.len() { (Some(trim_seq(s.subrange(c, s.len() as int))), s.len() as int) } else { (None, q) }
    } else {
        (None, q)
    }
}

/// `FROM` and a measurement, for the `SHOW` statements; without a word
/// starting with `F` or `f` that reads `FROM`, nothing, and the position
/// after the white space.
pub open spec fn from_at(s: Seq<char>, p: int) -> (Option<Seq<char>>, int) {
    let q = ws(s, p);
    if q < s.len() && (s[q] == 'F' || s[q] == 'f') {
        let (w, e) = word_at(s, q);
        if upper_case(w) == "FROM"@ { ident_at(s, ws(s, e)) } else { (None, q) }
    } else {
        (None, q)
    }
}

// ----- the statements -----

/// Where a field that is a call ends: after the `)` that closes the `(` at
/// `e` (or at the end of the text when none does); at `e` itself when no
/// `(` stands there.
pub open spec fn call_end(s: Seq<char>, e: int) -> int {
    if 0 <= e < s.len() && s[e] == '(' {
        let k = scan(s, e + 1, CharClass::NotParenClose);
        if k < s.len() { k + 1 } else { k }
    } else {
        e
    }
}

/// Where a call ends: not before it starts, not past the end.
pub proof fn lemma_call_end(s: Seq<char>, e: int)
    requires
        0 <= e <= s.len(),
    ensures
        e <= call_end(s, e) <= s.len(),
{
    if e < s.len() && s[e] == '(' {
        lemma_scan(s, e + 1, CharClass::NotParenClose);
    }
}

/// The fields of a `SELECT`, added to `acc`, up to the word `FROM` (which
/// is left to be read) or a point where no word follows. A field is a word
/// in upper case, followed by its arguments as written when it is a call
/// (`COUNT(value)`).
pub open spec fn select_fields(s: Seq<char>, p: int, acc: Seq<Seq<char>>) -> (Seq<Seq<char>>, int)
    decreases s.len() - p,
{
    if !(0 <= p <= s.len()) {
        (acc, p)
    } else {
        let (w, e) = word_at(s, p);
        if e <= p || w.len() == 0 {
            (acc, e)
        } else if w == "FROM"@ {
            (acc, p)
        } else {
            let c = call_end(s, e);
            let q = ws(s, c);
            let q2 = if q < s.len() && s[q] == ',' { ws(s, q + 1) } else { q };
            proof {
                lemma_scan(s, p, CharClass::Word);
                lemma_call_end(s, e);
                lemma_scan(s, c, CharClass::White);
                if q < s.len() { lemma_scan(s, q + 1, CharClass::White); }
            }
            select_fields(s, q2, acc.push(w + s.subrange(e, c)))
        }
    }
}

/// What the clauses of a `SELECT` have set so far.
pub struct Clauses {
    pub condition: Option<Seq<char>>,
    pub limit: Option<Seq<char>>,
    pub slimit: Option<Seq<char>>,
    pub soffset: Option<Seq<char>>,
    pub order_by: Option<Seq<char>>,
}

/// Whether a word that ends a `WHERE` condition starts at `q`: `LIMIT`,
/// `SLIMIT`, `SOFFSET` or `ORDER`.
pub open spec fn clause_word(s: Seq<char>, q: int) -> bool {
    let w = word_at(s, q).0;
    w == "LIMIT"@ || w == "SLIMIT"@ || w == "SOFFSET"@ || w == "ORDER"@
}

/// Where a `WHERE` condition that starts at `p` ends: at a line break, at
/// the end of the text, or at white space followed by a word that starts
/// another clause.
pub open spec fn where_end(s: Seq<char>, p: int) -> int
    decreases s.len() - p,
{
    if !(0 <= p < s.len()) {
        p
    } else if s[p] == '\n' || s[p] == '\r' {
        p
    } else if in_class(CharClass::White, s[p]) && clause_word(s, ws(s, p)) {
        p
    } else {
        where_end(s, p + 1)
    }
}

/// Where a condition ends: not before it starts, not past the end.
pub proof fn lemma_where_end(s: Seq<char>, p: int)
    requires
        0 <= p <= s.len(),
    ensures
        p <= where_end(s, p) <= s.len(),
    decreases s.len() - p,
{
    if p < s.len() && !(s[p] == '\n' || s[p] == '\r') && !(in_class(CharClass::White, s[p]) && clause_word(s, ws(s, p))) {
        lemma_where_end(s, p + 1);
    }
}

/// The clauses of a `SELECT` after its measurement: `WHERE` takes the text
/// up to the end of the line or to the next clause (`LIMIT`, `SLIMIT`,
/// `SOFFSET`, `ORDER`), trimmed; `LIMIT`, `SLIMIT` and `SOFFSET` a number;
/// `ORDER BY` a word; other words are passed over; the clauses end where no
/// word follows.
pub open spec fn select_clauses(s: Seq<char>, p: int, acc: Clauses) -> (Clauses, int)
    decreases s.len() - p,
{
    if !(0 <= p <= s.len()) {
        (acc, p)
    } else {
        let q = ws(s, p);
        let (k, e) = word_at(s, q);
        proof {
            lemma_scan(s, p, CharClass::White);
            lemma_scan(s, q, CharClass::Word);
            lemma_scan(s, e, CharClass::White);
            lemma_where_end(s, e);
            lemma_scan(s, ws(s, e), CharClass::SignedNumber);
        }
        if e <= q || k.len() == 0 {
            (acc, e)
        } else if k == "WHERE"@ {
            let stop = where_end(s, e);
            select_clauses(s, stop, Clauses { condition: Some(trim_seq(s.subrange(e, stop))), ..acc })
        } else if k == "LIMIT"@ {
            let (v, e2) = float_at(s, e, CharClass::SignedNumber);
            select_clauses(s, e2, Clauses { limit: v, ..acc })
        } else if k == "SLIMIT"@ {
            let (v, e2) = float_at(s, e, CharClass::SignedNumber);
            select_clauses(s, e2, Clauses { slimit: v, ..acc })
        } else if k == "SOFFSET"@ {
            let (v, e2) = float_at(s, e, CharClass::SignedNumber);
            select_clauses(s, e2, Clauses { soffset: v, ..acc })
        } else if k == "ORDER"@ {
            let q2 = ws(s, e);
            let (by, e2) = word_at(s, q2);
            proof { lemma_scan(s, q2, CharClass::Word); }
            if upper_case(by) == "BY"@ {
                let q3 = ws(s, e2);
                let (ob, e3) = word_at(s, q3);
                proof {
                    lemma_scan(s, e2, CharClass::White);
                    lemma_scan(s, q3, CharClass::Word);
                }
                select_clauses(s, e3, Clauses { order_by: Some(ob), ..acc })
            } else {
                select_clauses(s, e2, acc)
            }
        } else if e < s.len() {
            select_clauses(s, e, acc)
        } else {
            (acc, e)
        }
    }
}

/// A `SELECT` after its keyword.
pub open spec fn select_at(s: Seq<char>, p: int) -> (Option<StatementView>, int) {
    let (fields, p1) = select_fields(s, ws(s, p), Seq::empty());
    let (f, p2) = word_at(s, p1);
    if f != "FROM"@ {
        (None, p2)
    } else {
        let (m, p3) = ident_at(s, p2);
        match m {
            None => (None, p3),
            Some(m) => {
                let none = Clauses { condition: None, limit: None, slimit: None, soffset: None, order_by: None };
                let (c, p4) = select_clauses(s, p3, none);
                (Some(StatementView::Select(SelectView {
                    fields,
                    measurement: m,
                    condition: c.condition,
                    limit: c.limit,
                    slimit: c.slimit,
                    soffset: c.soffset,
                    order_by: c.order_by,
                })), p4)
            },
        }
    }
}

/// What the options of `CREATE RETENTION POLICY` have set so far.
pub struct PolicyOptions {
    pub database: Seq<char>,
    pub duration_seconds: u64,
    pub replication: Option<Seq<char>>,
    pub default: bool,
}

/// The options of `CREATE RETENTION POLICY`: `ON` a database, `DURATION`
/// a duration, `REPLICATION` a number, `DEFAULT`; other words are passed
/// over; the options end where no word follows. `ON` without a database
/// fails the statement.
pub open spec fn policy_options(s: Seq<char>, p: int, acc: PolicyOptions) -> (Option<PolicyOptions>, int)
    decreases s.len() - p,
{
    if !(0 <= p <= s.len()) {
        (Some(acc), p)
    } else {
        let q = ws(s, p);
        let (w, e) = word_at(s, q);
        proof {
            lemma_scan(s, p, CharClass::White);
            lemma_scan(s, q, CharClass::Word);
        }
        if e <= q || w.len() == 0 {
            (Some(acc), e)
        } else {
            let u = upper_case(w);
            if u == "ON"@ {
                let (d, e2) = ident_at(s, e);
                proof {
                    lemma_scan(s, e, CharClass::White);
                    let q2 = ws(s, e);
                    if q2 < s.len() { lemma_scan(s, q2 + 1, CharClass::Ident); }
                }
                match d {
                    None => (None, e2),
                    Some(d) => policy_options(s, e2, PolicyOptions { database: d, ..acc }),
                }
            } else if u == "DURATION"@ {
                let (secs, e2) = duration_at(s, e);
                proof { lemma_duration_at(s, e); }
                policy_options(s, e2, PolicyOptions { duration_seconds: secs, ..acc })
            } else if u == "REPLICATION"@ {
                let q2 = ws(s, e);
                let q3 = if q2 < s.len() && s[q2] == '=' { q2 + 1 } else { q2 };
                let (n, e2) = float_at(s, ws(s, q3), CharClass::Number);
                proof {
                    lemma_scan(s, e, CharClass::White);
                    lemma_scan(s, q3, CharClass::White);
                    lemma_scan(s, ws(s, q3), CharClass::White);
                    lemma_scan(s, ws(s, ws(s, q3)), CharClass::Number);
                }
                match n {
                    Some(t) => policy_options(s, e2, PolicyOptions { replication: Some(t), ..acc }),
                    None => policy_options(s, e2, acc),
                }
            } else if u == "DEFAULT"@ {
                policy_options(s, e, PolicyOptions { default: true, ..acc })
            } else {
                policy_options(s, e, acc)
            }
        }
    }
}

/// The number of a duration: its digits after an optional `=` and white
/// space, read as a `u64` (zero when they do not read as one).
pub open spec fn duration_number(s: Seq<char>, p: int) -> u64 {
    let q = ws(s, p);
    let q1 = if q < s.len() && s[q] == '=' { q + 1 } else { q };
    let q2 = ws(s, q1);
    match u64_of_text(s.subrange(q2, scan(s, q2, CharClass::Digits))) { Some(v) => v, None => 0 }
}

/// The unit word of a duration, after its number and white space.
pub open spec fn duration_unit(s: Seq<char>, p: int) -> Seq<char> {
    let q = ws(s, p);
    let q1 = if q < s.len() && s[q] == '=' { q + 1 } else { q };
    let q2 = ws(s, q1);
    word_at(s, ws(s, scan(s, q2, CharClass::Digits))).0
}

/// A duration is its number times the length of its unit in seconds (in
/// wrapping arithmetic): a second is 1, a minute 60, an hour 3600, a day
/// 86400 and a week 604800 seconds; a word that names no unit counts
/// seconds.
pub proof fn law_duration_is_number_times_unit(s: Seq<char>, p: int)
    ensures
        ({
            let n = duration_number(s, p);
            let u = duration_unit(s, p);
            let secs = duration_at(s, p).0;
            &&& (u == "M"@ || u == "MIN"@ || u == "MINUTE"@ || u == "MINUTES"@) ==> secs == n.wrapping_mul(60)
            &&& (u == "H"@ || u == "HR"@ || u == "HOUR"@ || u == "HOURS"@) ==> secs == n.wrapping_mul(3600)
            &&& (u == "D"@ || u == "DAY"@ || u == "DAYS"@) ==> secs == n.wrapping_mul(86400)
            &&& (u == "W"@ || u == "WK"@ || u == "WEEK"@ || u == "WEEKS"@) ==> secs == n.wrapping_mul(604800)
            &&& (u == "S"@ || u == "SEC"@ || u == "SECOND"@ || u == "SECONDS"@) ==> secs == n
        }),
{
    let u = duration_unit(s, p);
    reveal_strlit("s"); reveal_strlit("m"); reveal_strlit("h"); reveal_strlit("d"); reveal_strlit("w");
    reveal_strlit("S");
    reveal_strlit("SEC");
    reveal_strlit("SECOND");
    reveal_strlit("SECONDS");
    reveal_strlit("M");
    reveal_strlit("MIN");
    reveal_strlit("MINUTE");
    reveal_strlit("MINUTES");
    reveal_strlit("H");
    reveal_strlit("HR");
    reveal_strlit("HOUR");
    reveal_strlit("HOURS");
    reveal_strlit("D");
    reveal_strlit("DAY");
    reveal_strlit("DAYS");
    reveal_strlit("W");
    reveal_strlit("WK");
    reveal_strlit("WEEK");
    reveal_strlit("WEEKS");
    assert("s"@[0] == 's');
    assert("S"@[0] == 'S');
    assert("SEC"@[0] == 'S');
    assert("SECOND"@[0] == 'S');
    assert("SECONDS"@[0] == 'S');
    assert("m"@[0] == 'm');
    assert("M"@[0] == 'M');
    assert("MIN"@[0] == 'M');
    assert("MINUTE"@[0] == 'M');
    assert("MINUTES"@[0] == 'M');
    assert("h"@[0] == 'h');
    assert("H"@[0] == 'H');
    assert("HR"@[0] == 'H');
    assert("HOUR"@[0] == 'H');
    assert("HOURS"@[0] == 'H');
    assert("d"@[0] == 'd');
    assert("D"@[0] == 'D');
    assert("DAY"@[0] == 'D');
    assert("DAYS"@[0] == 'D');
    assert("w"@[0] == 'w');
    assert("W"@[0] == 'W');
    assert("WK"@[0] == 'W');
    assert("WEEK"@[0] == 'W');
    assert("WEEKS"@[0] == 'W');
    if u == "S"@ { lemma_upper_fixed(u); }
    if u == "SEC"@ { lemma_upper_fixed(u); }
    if u == "SECOND"@ { lemma_upper_fixed(u); }
    if u == "SECONDS"@ { lemma_upper_fixed(u); }
    if u == "M"@ { lemma_upper_fixed(u); }
    if u == "MIN"@ { lemma_upper_fixed(u); }
    if u == "MINUTE"@ { lemma_upper_fixed(u); }
    if u == "MINUTES"@ { lemma_upper_fixed(u); }
    if u == "H"@ { lemma_upper_fixed(u); }
    if u == "HR"@ { lemma_upper_fixed(u); }
    if u == "HOUR"@ { lemma_upper_fixed(u); }
    if u == "HOURS"@ { lemma_upper_fixed(u); }
    if u == "D"@ { lemma_upper_fixed(u); }
    if u == "DAY"@ { lemma_upper_fixed(u); }
    if u == "DAYS"@ { lemma_upper_fixed(u); }
    if u == "W"@ { lemma_upper_fixed(u); }
    if u == "WK"@ { lemma_upper_fixed(u); }
    if u == "WEEK"@ { lemma_upper_fixed(u); }
    if u == "WEEKS"@ { lemma_upper_fixed(u); }
}

/// A text of capital letters is its own upper case.
proof fn lemma_upper_fixed(t: Seq<char>)
    requires
        forall|i: int| 0 <= i < t.len() ==> 'A' <= #[trigger] t[i] && t[i] <= 'Z',
    ensures
        upper_case(t) == t,
{
    assert(crate::chars::all_ascii(t));
    assert(t.map_values(|c: char| crate::chars::ascii_upper(c)) =~= t);
}

/// Where a duration ends: not before it starts, not past the end.
pub proof fn lemma_duration_at(s: Seq<char>, p: int)
    requires
        0 <= p <= s.len(),
    ensures
        p <= duration_at(s, p).1 <= s.len(),
{
    let q = ws(s, p);
    lemma_scan(s, p, CharClass::White);
    let q1 = if q < s.len() && s[q] == '=' { q + 1 } else { q };
    lemma_scan(s, q1, CharClass::White);
    let q2 = ws(s, q1);
    lemma_scan(s, q2, CharClass::Digits);
    let e = scan(s, q2, CharClass::Digits);
    lemma_scan(s, e, CharClass::White);
    lemma_scan(s, ws(s, e), CharClass::Word);
}

/// The lexical steps move forward and stay within the text.
pub proof fn lemma_steps(s: Seq<char>, p: int)
    requires
        0 <= p <= s.len(),
    ensures
        p <= ws(s, p) <= s.len(),
        p <= word_at(s, p).1 <= s.len(),
        p <= ident_at(s, p).1 <= s.len(),
        forall|k: CharClass| p <= #[trigger] run_at(s, p, k).1 <= s.len(),
        forall|k: CharClass| p <= #[trigger] float_at(s, p, k).1 <= s.len(),
{
    lemma_scan(s, p, CharClass::White);
    lemma_scan(s, p, CharClass::Word);
    let q = ws(s, p);
    lemma_scan(s, q, CharClass::White);
    if q < s.len() { lemma_scan(s, q + 1, CharClass::Ident); }
    assert forall|k: CharClass| p <= #[trigger] run_at(s, p, k).1 <= s.len() by {
        lemma_scan(s, q, k);
    }
    assert forall|k: CharClass| p <= #[trigger] float_at(s, p, k).1 <= s.len() by {
        lemma_scan(s, q, k);
    }
}

/// A `CREATE` after its keyword.
pub open spec fn create_at(s: Seq<char>, p: int) -> (Option<StatementView>, int) {
    let (n, e1) = word_at(s, ws(s, p));
    if n == "DATABASE"@ {
        let (name, e2) = ident_at(s, ws(s, e1));
        match name {
            Some(name) => (Some(StatementView::CreateDatabase(name)), e2),
            None => (None, e2),
        }
    } else if n == "RETENTION"@ {
        let (n2, e2) = word_at(s, ws(s, e1));
        if n2 == "POLICY"@ || n2 == "RP"@ {
            let (rp, e3) = ident_at(s, ws(s, e2));
            match rp {
                None => (None, e3),
                Some(rp) => {
                    let defaults = PolicyOptions { database: Seq::empty(), duration_seconds: 604800, replication: None, default: false };
                    let (o, e4) = policy_options(s, ws(s, e3), defaults);
                    match o {
                        None => (None, e4),
                        Some(o) => (Some(StatementView::CreateRetentionPolicy(RetentionPolicyView {
                            name: rp,
                            database: o.database,
                            duration_seconds: o.duration_seconds,
                            replication: o.replication,
                            default: o.default,
                        })), e4),
                    }
                },
            }
        } else {
            (None, e2)
        }
    } else {
        (None, e1)
    }
}

/// An `ALTER DATABASE .. SET RETENTION POLICY` after its keyword: it sets
/// the policy of the database as `CREATE RETENTION POLICY .. ON` the
/// database would, with the options that follow the policy's name.
pub open spec fn alter_at(s: Seq<char>, p: int) -> (Option<StatementView>, int) {
    let (n, e1) = word_at(s, ws(s, p));
    if n != "DATABASE"@ {
        (None, e1)
    } else {
        let (db, e2) = ident_at(s, ws(s, e1));
        match db {
            None => (None, e2),
            Some(db) => {
                let (w3, e3) = word_at(s, ws(s, e2));
                let (w4, e4) = word_at(s, ws(s, e3));
                let (w5, e5) = word_at(s, ws(s, e4));
                if w3 != "SET"@ {
                    (None, e3)
                } else if w4 != "RETENTION"@ {
                    (None, e4)
                } else if !(w5 == "POLICY"@ || w5 == "RP"@) {
                    (None, e5)
                } else {
                    let (rp, e6) = ident_at(s, ws(s, e5));
                    match rp {
                        None => (None, e6),
                        Some(rp) => {
                            let defaults = PolicyOptions { database: Seq::empty(), duration_seconds: 604800, replication: None, default: false };
                            let (o, e7) = policy_options(s, ws(s, e6), defaults);
                            match o {
                                None => (None, e7),
                                Some(o) => (Some(StatementView::CreateRetentionPolicy(RetentionPolicyView {
                                    name: rp,
                                    database: db,
                                    duration_seconds: o.duration_seconds,
                                    replication: o.replication,
                                    default: o.default,
                                })), e7),
                            }
                        },
                    }
                }
            },
        }
    }
}

/// A `DROP` after its keyword.
pub open spec fn drop_at(s: Seq<char>, p: int) -> (Option<StatementView>, int) {
    let (n, e1) = word_at(s, ws(s, p));
    if n == "DATABASE"@ {
        let (name, e2) = ident_at(s, ws(s, e1));
        match name {
            Some(name) => (Some(StatementView::DropDatabase(name)), e2),
            None => (None, e2),
        }
    } else if n == "MEASUREMENT"@ {
        let (name, e2) = ident_at(s, ws(s, e1));
        match name {
            Some(name) => (Some(StatementView::DropMeasurement(name)), e2),
            None => (None, e2),
        }
    } else if n == "SERIES"@ {
        let (c, e2) = where_at(s, ws(s, e1));
        (Some(StatementView::DropSeries(c)), e2)
    } else {
        (None, e1)
    }
}

/// A `SHOW` after its keyword.
pub open spec fn show_at(s: Seq<char>, p: int) -> (Option<StatementView>, int) {
    let (n, e1) = word_at(s, ws(s, p));
    if n == "DATABASES"@ {
        (Some(StatementView::ShowDatabases), e1)
    } else if n == "MEASUREMENTS"@ {
        (Some(StatementView::ShowMeasurements), e1)
    } else if n == "SERIES"@ {
        (Some(StatementView::ShowSeries), e1)
    } else if n == "RETENTION"@ {
        let (n2, e2) = word_at(s, ws(s, e1));
        if n2 == "POLICIES"@ || n2 == "RP"@ {
            let (d, e3) = word_at(s, e2);
            (Some(StatementView::ShowRetentionPolicies(if d.len() == 0 { None } else { Some(d) })), e3)
        } else {
            (None, e2)
        }
    } else if n == "TAG"@ {
        let (n2, e2) = word_at(s, ws(s, e1));
        if n2 == "KEYS"@ {
            let (m, e3) = from_at(s, e2);
            (Some(StatementView::ShowTagKeys(m)), e3)
        } else if n2 == "VALUES"@ {
            let (m, e3) = from_at(s, e2);
            let (k, e4) = ident_at(s, e3);
            (Some(StatementView::ShowTagValues(m, match k { Some(k) => k, None => Seq::empty() })), e4)
        } else {
            (None, e2)
        }
    } else if n == "FIELD"@ {
        let (n2, e2) = word_at(s, ws(s, e1));
        if n2 == "KEYS"@ {
            let (m, e3) = from_at(s, e2);
            (Some(StatementView::ShowFieldKeys(m)), e3)
        } else {
            (None, e2)
        }
    } else {
        (None, e1)
    }
}

/// The tags of an `INSERT`, added to `acc`: each `,` is followed by an
/// identifier, `=` and a tag value; a part that is missing drops that tag.
pub open spec fn insert_tags(s: Seq<char>, p: int, acc: Seq<(Seq<char>, Seq<char>)>) -> (Seq<(Seq<char>, Seq<char>)>, int)
    decreases s.len() - p,
{
    if !(0 <= p <= s.len()) {
        (acc, p)
    } else {
        let q = ws(s, p);
        proof { lemma_scan(s, p, CharClass::White); }
        if q < s.len() && s[q] == ',' {
            let (k, e1) = ident_at(s, ws(s, q + 1));
            proof {
                lemma_scan(s, q + 1, CharClass::White);
                lemma_scan(s, ws(s, q + 1), CharClass::White);
                let q2 = ws(s, ws(s, q + 1));
                if q2 < s.len() { lemma_scan(s, q2 + 1, CharClass::Ident); }
            }
            match k {
                None => insert_tags(s, e1, acc),
                Some(k) => if e1 < s.len() && s[e1] == '=' {
                    let (v, e2) = run_at(s, e1 + 1, CharClass::TagValue);
                    proof {
                        lemma_scan(s, e1 + 1, CharClass::White);
                        lemma_scan(s, ws(s, e1 + 1), CharClass::TagValue);
                    }
                    match v {
                        Some(v) => insert_tags(s, e2, acc.push((k, v))),
                        None => insert_tags(s, e2, acc),
                    }
                } else {
                    insert_tags(s, e1, acc)
                },
            }
        } else if q < s.len() && s[q] == ' ' {
            (acc, q + 1)
        } else {
            (acc, q)
        }
    }
}

/// The fields of an `INSERT`, added to `acc`: an optional `,`, an
/// identifier, `=` and a value that reads as a number; the fields end at
/// the first that is not so.
pub open spec fn insert_fields(s: Seq<char>, p: int, acc: Seq<(Seq<char>, Seq<char>)>) -> (Seq<(Seq<char>, Seq<char>)>, int)
    decreases s.len() - p,
{
    if !(0 <= p <= s.len()) {
        (acc, p)
    } else {
        let q = ws(s, p);
        let q1 = if q < s.len() && s[q] == ',' { ws(s, q + 1) } else { q };
        let (k, e1) = ident_at(s, q1);
        proof {
            lemma_scan(s, p, CharClass::White);
            if q < s.len() { lemma_scan(s, q + 1, CharClass::White); }
            lemma_scan(s, q1, CharClass::White);
            let q2 = ws(s, q1);
            if q2 < s.len() { lemma_scan(s, q2 + 1, CharClass::Ident); }
        }
        match k {
            None => (acc, e1),
            Some(k) => if e1 < s.len() && s[e1] == '=' {
                let (v, e2) = float_at(s, e1 + 1, CharClass::SignedNumber);
                proof {
                    lemma_scan(s, e1 + 1, CharClass::White);
                    lemma_scan(s, ws(s, e1 + 1), CharClass::SignedNumber);
                }
                match v {
                    Some(v) => insert_fields(s, e2, acc.push((k, v))),
                    None => (acc, e2),
                }
            } else {
                (acc, e1)
            },
        }
    }
}

/// An `INSERT` after its keyword.
pub open spec fn insert_at(s: Seq<char>, p: int) -> (Option<StatementView>, int) {
    let (m, e1) = ident_at(s, ws(s, p));
    match m {
        None => (None, e1),
        Some(m) => {
            let (tags, e2) = insert_tags(s, e1, Seq::empty());
            let (fields, e3) = insert_fields(s, e2, Seq::empty());
            let (ts, e4) = float_at(s, ws(s, e3), CharClass::SignedNumber);
            (Some(StatementView::Insert(m, tags, fields, ts)), e4)
        },
    }
}

/// The statement at `p`, and the position where reading stopped.
pub open spec fn statement_at(s: Seq<char>, p: int) -> (Option<StatementView>, int) {
    let (w, e) = word_at(s, ws(s, p));
    if w == "SELECT"@ || w == "SELECTALL"@ {
        select_at(s, e)
    } else if w == "CREATE"@ {
        create_at(s, e)
    } else if w == "ALTER"@ {
        alter_at(s, e)
    } else if w == "DROP"@ {
        drop_at(s, e)
    } else if w == "DELETE"@ {
        let (c, e2) = where_at(s, ws(s, e));
        (Some(StatementView::Delete(c)), e2)
    } else if w == "SHOW"@ {
        show_at(s, e)
    } else if w == "USE"@ {
        let (d, e2) = ident_at(s, ws(s, e));
        match d {
            Some(d) => (Some(StatementView::Use(d)), e2),
            None => (None, e2),
        }
    } else if w == "INSERT"@ {
        insert_at(s, e)
    } else {
        (None, e)
    }
}


/// The character at `p`, when it is `c`.
pub open spec fn char_is(s: Seq<char>, p: int, c: char) -> bool {
    char_at(s, p) == Some(c)
}

/// A reader of InfluxQL statements: the text and a position in it.
pub struct Parser {
    input: String,
    len: usize,
    pos: usize,
}

impl Parser {
    #[verifier::type_invariant]
    closed spec fn inv(&self) -> bool {
        self.len == self.input@.len() && self.pos <= self.len
    }

    /// The text being read.
    pub closed spec fn text(&self) -> Seq<char> {
        self.input@
    }

    /// The position of the next character to read.
    pub closed spec fn position(&self) -> int {
        self.pos as int
    }

    /// A parser at the start of a text.
    pub fn new(input: &str) -> (r: Self)
        ensures
            r.text() == input@,
            r.position() == 0,
    {
        Parser { input: input.to_owned(), len: input.unicode_len(), pos: 0 }
    }

    fn peek(&self) -> (r: Option<char>)
        ensures
            r == char_at(self.text(), self.position()),
    {
        proof { use_type_invariant(self); }
        if self.pos < self.len { Some(self.input.get_char(self.pos)) } else { None }
    }

    fn peek_is(&self, c: char) -> (r: bool)
        ensures
            r == char_is(self.text(), self.position(), c),
    {
        match self.peek() {
            Some(d) => d == c,
            None => false,
        }
    }

    /// Moves past one character and gives it, if there is one.
    #[allow(dead_code)]
    fn advance(&mut self) -> (r: Option<char>)
        ensures
            final(self).text() == old(self).text(),
            r == char_at(old(self).text(), old(self).position()),
            final(self).position() == if r is Some { old(self).position() + 1 } else { old(self).position() },
    {
        proof { use_type_invariant(&*self); }
        if self.pos >= self.len {
            None
        } else {
            let ch = self.input.get_char(self.pos);
            self.pos = self.pos + 1;
            Some(ch)
        }
    }

    fn skip_whitespace(&mut self)
        ensures
            final(self).input == old(self).input,
            final(self).len == old(self).len,
            final(self).position() == ws(old(self).text(), old(self).position()),
    {
        proof { use_type_invariant(&*self); }
        let q = scan_from(self.input.as_str(), self.len, self.pos, CharClass::White);
        self.pos = q;
    }

    fn parse_word(&mut self) -> (r: String)
        ensures
            final(self).input == old(self).input,
            final(self).len == old(self).len,
            (r@, final(self).position()) == word_at(old(self).text(), old(self).position()),
    {
        proof { use_type_invariant(&*self); }
        let start = self.pos;
        let e = scan_from(self.input.as_str(), self.len, start, CharClass::Word);
        let w = to_upper(self.input.substring_char(start, e));
        self.pos = e;
        w
    }

    fn parse_identifier(&mut self) -> (r: Option<String>)
        ensures
            final(self).input == old(self).input,
            final(self).len == old(self).len,
            (opt_view(r), final(self).position()) == ident_at(old(self).text(), old(self).position()),
    {
        self.skip_whitespace();
        proof { use_type_invariant(&*self); }
        let start = self.pos;
        if start < self.len {
            let c = self.input.get_char(start);
            if crate::chars::is_alphabetic(c) || c == '_' {
                let e = scan_from(self.input.as_str(), self.len, start + 1, CharClass::Ident);
                let id = self.input.substring_char(start, e).to_owned();
                self.pos = e;
                return Some(id);
            }
        }
        None
    }

    fn parse_run(&mut self, k: CharClass) -> (r: Option<String>)
        ensures
            final(self).input == old(self).input,
            final(self).len == old(self).len,
            (opt_view(r), final(self).position()) == run_at(old(self).text(), old(self).position(), k),
    {
        self.skip_whitespace();
        proof { use_type_invariant(&*self); }
        let start = self.pos;
        let e = scan_from(self.input.as_str(), self.len, start, k);
        let t = self.input.substring_char(start, e).to_owned();
        self.pos = e;
        if start < e { Some(t) } else { None }
    }

    fn parse_float_text(&mut self, k: CharClass) -> (r: Option<String>)
        ensures
            final(self).input == old(self).input,
            final(self).len == old(self).len,
            (opt_view(r), final(self).position()) == float_at(old(self).text(), old(self).position(), k),
    {
        self.skip_whitespace();
        proof { use_type_invariant(&*self); }
        let start = self.pos;
        let e = scan_from(self.input.as_str(), self.len, start, k);
        let t = self.input.substring_char(start, e).to_owned();
        self.pos = e;
        if start < e && is_float_text(t.as_str()) { Some(t) } else { None }
    }

    /// A run of letters, digits, `_`, `-`, `=` and `,`.
    #[allow(dead_code)]
    fn parse_string_value(&mut self) -> (r: Option<String>)
        ensures
            final(self).input == old(self).input,
            final(self).len == old(self).len,
            (opt_view(r), final(self).position()) == run_at(old(self).text(), old(self).position(), CharClass::StringValue),
    {
        self.parse_run(CharClass::StringValue)
    }

    fn parse_field_value(&mut self) -> (r: Option<String>)
        ensures
            final(self).input == old(self).input,
            final(self).len == old(self).len,
            (opt_view(r), final(self).position()) == float_at(old(self).text(), old(self).position(), CharClass::SignedNumber),
    {
        self.parse_float_text(CharClass::SignedNumber)
    }

    fn parse_tag_value(&mut self) -> (r: Option<String>)
        ensures
            final(self).input == old(self).input,
            final(self).len == old(self).len,
            (opt_view(r), final(self).position()) == run_at(old(self).text(), old(self).position(), CharClass::TagValue),
    {
        self.parse_run(CharClass::TagValue)
    }

    fn parse_number(&mut self) -> (r: Option<String>)
        ensures
            final(self).input == old(self).input,
            final(self).len == old(self).len,
            (opt_view(r), final(self).position()) == float_at(old(self).text(), old(self).position(), CharClass::Number),
    {
        self.parse_float_text(CharClass::Number)
    }

    fn parse_show_tag_keys_measurement(&mut self) -> (r: Option<String>)
        ensures
            final(self).input == old(self).input,
            final(self).len == old(self).len,
            (opt_view(r), final(self).position()) == from_at(old(self).text(), old(self).position()),
    {
        self.skip_whitespace();
        if self.peek_is('F') || self.peek_is('f') {
            let start = self.pos;
            let word = self.parse_word();
            let upper = to_upper(word.as_str());
            if str_eq(upper.as_str(), "FROM") {
                self.skip_whitespace();
                return self.parse_identifier();
            }
            proof { use_type_invariant(&*self); }
            self.pos = start;
        }
        None
    }

    fn parse_where_condition(&mut self) -> (r: Option<String>)
        ensures
            final(self).input == old(self).input,
            final(self).len == old(self).len,
            (opt_view(r), final(self).position()) == where_at(old(self).text(), old(self).position()),
    {
        self.skip_whitespace();
        let start = self.pos;
        let word = self.parse_word();
        let upper = to_upper(word.as_str());
        if str_eq(upper.as_str(), "WHERE") {
            self.skip_whitespace();
            proof { use_type_invariant(&*self); }
            let cond_start = self.pos;
            self.pos = self.len;
            if cond_start < self.len {
                return Some(trim(self.input.substring_char(cond_start, self.len)));
            }
        }
        proof { use_type_invariant(&*self); }
        self.pos = start;
        None
    }

    fn parse_word_not_empty(&mut self) -> (r: Option<String>)
        ensures
            final(self).input == old(self).input,
            final(self).len == old(self).len,
            ({
                let q = ws(old(self).text(), old(self).position());
                let (w, e) = word_at(old(self).text(), q);
                &&& final(self).position() == e
                &&& opt_view(r) == if e <= q || w.len() == 0 { None } else { Some(w) }
            }),
    {
        self.skip_whitespace();
        proof { use_type_invariant(&*self); }
        let start = self.pos;
        proof { lemma_scan(self.input@, start as int, CharClass::Word); }
        let word = self.parse_word();
        if self.pos == start || word.as_str().is_empty() { None } else { Some(word) }
    }

    fn parse_duration(&mut self) -> (r: u64)
        ensures
            final(self).input == old(self).input,
            final(self).len == old(self).len,
            (r, final(self).position()) == duration_at(old(self).text(), old(self).position()),
    {
        self.skip_whitespace();
        proof { use_type_invariant(&*self); }
        if self.peek_is('=') {
            self.pos = self.pos + 1;
        }
        self.skip_whitespace();
        proof { use_type_invariant(&*self); }
        let start = self.pos;
        let e = scan_from(self.input.as_str(), self.len, start, CharClass::Digits);
        let num: u64 = match parse_u64(self.input.substring_char(start, e)) {
            Some(v) => v,
            None => 0,
        };
        self.pos = e;
        self.skip_whitespace();
        let word = self.parse_word();
        let unit = to_upper(word.as_str());
        let u = unit.as_str();
        if str_eq(u, "s") || str_eq(u, "S") || str_eq(u, "SEC") || str_eq(u, "SECOND") || str_eq(u, "SECONDS") {
            num
        } else if str_eq(u, "m") || str_eq(u, "M") || str_eq(u, "MIN") || str_eq(u, "MINUTE") || str_eq(u, "MINUTES") {
            num.wrapping_mul(60)
        } else if str_eq(u, "h") || str_eq(u, "H") || str_eq(u, "HR") || str_eq(u, "HOUR") || str_eq(u, "HOURS") {
            num.wrapping_mul(3600)
        } else if str_eq(u, "d") || str_eq(u, "D") || str_eq(u, "DAY") || str_eq(u, "DAYS") {
            num.wrapping_mul(86400)
        } else if str_eq(u, "w") || str_eq(u, "W") || str_eq(u, "WK") || str_eq(u, "WEEK") || str_eq(u, "WEEKS") {
            num.wrapping_mul(604800)
        } else {
            num
        }
    }

    /// Where a field that is a call ends, computed.
    fn call_stop(&self, e: usize) -> (r: usize)
        requires
            e <= self.text().len(),
        ensures
            r == call_end(self.text(), e as int),
            e <= r <= self.text().len(),
    {
        proof { use_type_invariant(self); lemma_call_end(self.input@, e as int); }
        if e < self.len && self.input.get_char(e) == '(' {
            let k = scan_from(self.input.as_str(), self.len, e + 1, CharClass::NotParenClose);
            if k < self.len { k + 1 } else { k }
        } else {
            e
        }
    }

    /// Where a `WHERE` condition starting at `start` ends, computed.
    fn where_stop(&self, start: usize) -> (r: usize)
        requires
            start <= self.text().len(),
        ensures
            r == where_end(self.text(), start as int),
            start <= r <= self.text().len(),
    {
        proof { use_type_invariant(self); lemma_where_end(self.input@, start as int); }
        let ghost s = self.input@;
        let mut i = start;
        while i < self.len
            invariant
                self.len == s.len(),
                s == self.input@,
                start <= i <= s.len(),
                where_end(s, start as int) == where_end(s, i as int),
            decreases s.len() - i,
        {
            let c = self.input.get_char(i);
            if c == '\n' || c == '\r' {
                return i;
            }
            if class_holds(CharClass::White, c) {
                let q = scan_from(self.input.as_str(), self.len, i, CharClass::White);
                proof { lemma_scan(s, q as int, CharClass::Word); }
                let e = scan_from(self.input.as_str(), self.len, q, CharClass::Word);
                let w = to_upper(self.input.substring_char(q, e));
                if str_eq(w.as_str(), "LIMIT") || str_eq(w.as_str(), "SLIMIT")
                    || str_eq(w.as_str(), "SOFFSET") || str_eq(w.as_str(), "ORDER") {
                    return i;
                }
            }
            i = i + 1;
        }
        i
    }

    fn parse_select(&mut self) -> (r: Option<Statement>)
        ensures
            final(self).input == old(self).input,
            final(self).len == old(self).len,
            (statement_opt_view(r), final(self).position()) == select_at(old(self).text(), old(self).position()),
    {
        let ghost s = self.input@;
        self.skip_whitespace();
        let ghost p0 = self.pos as int;
        let mut fields: Vec<String> = Vec::new();
        proof { assert(strings_view(fields@) =~= Seq::<Seq<char>>::empty()); }
        loop
            invariant_except_break
                select_fields(s, p0, Seq::empty()) == select_fields(s, self.pos as int, strings_view(fields@)),
            invariant
                self.input == old(self).input,
                self.len == old(self).len,
                s == old(self).input@,
            ensures
                self.input == old(self).input,
                self.len == old(self).len,
                select_fields(s, p0, Seq::empty()) == (strings_view(fields@), self.pos as int),
            decreases self.len - self.pos,
        {
            proof { use_type_invariant(&*self); }
            let start = self.pos;
            proof { lemma_scan(s, start as int, CharClass::Word); }
            let field = self.parse_word();
            if self.pos == start || field.as_str().is_empty() {
                break;
            }
            if str_eq(field.as_str(), "FROM") {
                self.pos = start;
                break;
            }
            proof { use_type_invariant(&*self); lemma_call_end(s, self.pos as int); }
            let e = self.pos;
            let c = self.call_stop(e);
            let mut field = field;
            push_str(&mut field, self.input.substring_char(e, c));
            self.pos = c;
            proof { assert(strings_view(fields@.push(field)) =~= strings_view(fields@).push(field@)); }
            fields.push(field);
            proof { use_type_invariant(&*self); lemma_steps(s, self.pos as int); }
            self.skip_whitespace();
            proof { use_type_invariant(&*self); }
            if self.peek_is(',') {
                self.pos = self.pos + 1;
                proof { lemma_steps(s, self.pos as int); }
                self.skip_whitespace();
            }
            proof { use_type_invariant(&*self); assert(self.pos > start); }
        }
        let from = self.parse_word();
        if !str_eq(from.as_str(), "FROM") {
            return None;
        }
        let measurement = match self.parse_identifier() {
            Some(m) => m,
            None => return None,
        };
        let ghost p3 = self.pos as int;
        let ghost none = Clauses { condition: None, limit: None, slimit: None, soffset: None, order_by: None };
        let mut condition: Option<String> = None;
        let mut limit: Option<String> = None;
        let mut slimit: Option<String> = None;
        let mut soffset: Option<String> = None;
        let mut order_by: Option<String> = None;
        loop
            invariant_except_break
                select_clauses(s, p3, none) == select_clauses(s, self.pos as int, Clauses {
                    condition: opt_view(condition),
                    limit: opt_view(limit),
                    slimit: opt_view(slimit),
                    soffset: opt_view(soffset),
                    order_by: opt_view(order_by),
                }),
            invariant
                self.input == old(self).input,
                self.len == old(self).len,
                s == old(self).input@,
            ensures
                self.input == old(self).input,
                self.len == old(self).len,
                select_clauses(s, p3, none) == (Clauses {
                    condition: opt_view(condition),
                    limit: opt_view(limit),
                    slimit: opt_view(slimit),
                    soffset: opt_view(soffset),
                    order_by: opt_view(order_by),
                }, self.pos as int),
            decreases self.len - self.pos,
        {
            proof { use_type_invariant(&*self); }
            let ghost p = self.pos as int;
            self.skip_whitespace();
            let q = self.pos;
            proof {
                lemma_scan(s, p, CharClass::White);
                lemma_scan(s, q as int, CharClass::Word);
            }
            let kw = self.parse_word();
            if self.pos == q || kw.as_str().is_empty() {
                break;
            }
            let k = kw.as_str();
            if str_eq(k, "WHERE") {
                proof { use_type_invariant(&*self); }
                let start = self.pos;
                let stop = self.where_stop(start);
                condition = Some(trim(self.input.substring_char(start, stop)));
                self.pos = stop;
            } else if str_eq(k, "LIMIT") {
                proof { use_type_invariant(&*self); lemma_steps(s, self.pos as int); }
                limit = self.parse_field_value();
            } else if str_eq(k, "SLIMIT") {
                proof { use_type_invariant(&*self); lemma_steps(s, self.pos as int); }
                slimit = self.parse_field_value();
            } else if str_eq(k, "SOFFSET") {
                proof { use_type_invariant(&*self); lemma_steps(s, self.pos as int); }
                soffset = self.parse_field_value();
            } else if str_eq(k, "ORDER") {
                proof { use_type_invariant(&*self); lemma_steps(s, self.pos as int); }
                self.skip_whitespace();
                proof { use_type_invariant(&*self); lemma_steps(s, self.pos as int); }
                let by = self.parse_word();
                let by_upper = to_upper(by.as_str());
                if str_eq(by_upper.as_str(), "BY") {
                    proof { use_type_invariant(&*self); lemma_steps(s, self.pos as int); }
                    self.skip_whitespace();
                    proof { use_type_invariant(&*self); lemma_steps(s, self.pos as int); }
                    order_by = Some(self.parse_word());
                }
            } else {
                proof { use_type_invariant(&*self); }
                if self.pos < self.len {
                    continue;
                }
                break;
            }
        }
        Some(Statement::Select(SelectStatement { fields, measurement, condition, limit, slimit, soffset, order_by }))
    }

    fn parse_create(&mut self) -> (r: Option<Statement>)
        ensures
            final(self).input == old(self).input,
            final(self).len == old(self).len,
            (statement_opt_view(r), final(self).position()) == create_at(old(self).text(), old(self).position()),
    {
        let ghost s = self.input@;
        self.skip_whitespace();
        let next = self.parse_word();
        if str_eq(next.as_str(), "DATABASE") {
            self.skip_whitespace();
            match self.parse_identifier() {
                Some(name) => Some(Statement::CreateDatabase(name)),
                None => None,
            }
        } else if str_eq(next.as_str(), "RETENTION") {
            self.skip_whitespace();
            let next = self.parse_word();
            if str_eq(next.as_str(), "POLICY") || str_eq(next.as_str(), "RP") {
                self.skip_whitespace();
                let name = match self.parse_identifier() {
                    Some(n) => n,
                    None => return None,
                };
                self.skip_whitespace();
                let (database, duration_seconds, replication, is_default) = match self.parse_policy_options() {
                    Some(o) => o,
                    None => return None,
                };
                Some(Statement::CreateRetentionPolicy(CreateRetentionPolicy {
                    name,
                    database,
                    duration_seconds,
                    replication,
                    default: is_default,
                }))
            } else {
                None
            }
        } else {
            None
        }
    }

    fn parse_alter(&mut self) -> (r: Option<Statement>)
        ensures
            final(self).input == old(self).input,
            final(self).len == old(self).len,
            (statement_opt_view(r), final(self).position()) == alter_at(old(self).text(), old(self).position()),
    {
        self.skip_whitespace();
        let n = self.parse_word();
        if !str_eq(n.as_str(), "DATABASE") {
            return None;
        }
        self.skip_whitespace();
        let database = match self.parse_identifier() {
            Some(d) => d,
            None => return None,
        };
        self.skip_whitespace();
        let w3 = self.parse_word();
        if !str_eq(w3.as_str(), "SET") {
            return None;
        }
        self.skip_whitespace();
        let w4 = self.parse_word();
        if !str_eq(w4.as_str(), "RETENTION") {
            return None;
        }
        self.skip_whitespace();
        let w5 = self.parse_word();
        if !(str_eq(w5.as_str(), "POLICY") || str_eq(w5.as_str(), "RP")) {
            return None;
        }
        self.skip_whitespace();
        let name = match self.parse_identifier() {
            Some(n) => n,
            None => return None,
        };
        self.skip_whitespace();
        let (_on, duration_seconds, replication, is_default) = match self.parse_policy_options() {
            Some(o) => o,
            None => return None,
        };
        Some(Statement::CreateRetentionPolicy(CreateRetentionPolicy {
            name,
            database,
            duration_seconds,
            replication,
            default: is_default,
        }))
    }

    fn parse_policy_options(&mut self) -> (r: Option<(String, u64, Option<String>, bool)>)
        ensures
            final(self).input == old(self).input,
            final(self).len == old(self).len,
            ({
                let defaults = PolicyOptions { database: Seq::empty(), duration_seconds: 604800, replication: None, default: false };
                let (o, e) = policy_options(old(self).text(), old(self).position(), defaults);
                &&& final(self).position() == e
                &&& match r {
                    Some(v) => o == Some(PolicyOptions { database: v.0@, duration_seconds: v.1, replication: opt_view(v.2), default: v.3 }),
                    None => o is None,
                }
            }),
    {
        let ghost s = self.input@;
        let ghost q4 = self.pos as int;
        let ghost defaults = PolicyOptions { database: Seq::empty(), duration_seconds: 604800, replication: None, default: false };
        let mut database = String::new();
        let mut duration_seconds: u64 = 3600 * 24 * 7;
        let mut replication: Option<String> = None;
        let mut is_default = false;
        loop
            invariant_except_break
                policy_options(s, q4, defaults) == policy_options(s, self.pos as int, PolicyOptions {
                    database: database@,
                    duration_seconds,
                    replication: opt_view(replication),
                    default: is_default,
                }),
            invariant
                self.input == old(self).input,
                self.len == old(self).len,
                s == old(self).input@,
                q4 == old(self).position(),
                defaults == (PolicyOptions { database: Seq::empty(), duration_seconds: 604800, replication: None, default: false }),
            ensures
                self.input == old(self).input,
                self.len == old(self).len,
                policy_options(s, q4, defaults) == (Some(PolicyOptions {
                    database: database@,
                    duration_seconds,
                    replication: opt_view(replication),
                    default: is_default,
                }), self.pos as int),
            decreases self.len - self.pos,
        {
            proof {
                use_type_invariant(&*self);
                lemma_scan(s, self.pos as int, CharClass::White);
                lemma_scan(s, ws(s, self.pos as int), CharClass::Word);
            }
            let ghost p = self.pos as int;
            let ghost acc = PolicyOptions { database: database@, duration_seconds, replication: opt_view(replication), default: is_default };
            let word = match self.parse_word_not_empty() {
                Some(w) => w,
                None => break,
            };
            proof { use_type_invariant(&*self); lemma_steps(s, self.pos as int); lemma_duration_at(s, self.pos as int); }
            let upper = to_upper(word.as_str());
            let u = upper.as_str();
            if str_eq(u, "ON") {
                database = match self.parse_identifier() {
                    Some(d) => d,
                    None => {
                        assert(policy_options(s, p, acc).0 is None);
                        return None;
                    },
                };
            } else if str_eq(u, "DURATION") {
                duration_seconds = self.parse_duration();
            } else if str_eq(u, "REPLICATION") {
                self.skip_whitespace();
                proof { use_type_invariant(&*self); }
                if self.peek_is('=') {
                    self.pos = self.pos + 1;
                }
                proof { lemma_steps(s, self.pos as int); }
                self.skip_whitespace();
                proof { use_type_invariant(&*self); lemma_steps(s, self.pos as int); }
                match self.parse_number() {
                    Some(n) => { replication = Some(n); },
                    None => {},
                }
            } else if str_eq(u, "DEFAULT") {
                is_default = true;
            }
            proof { assert(self.pos > p); }
        }
        Some((database, duration_seconds, replication, is_default))
    }

    fn parse_drop(&mut self) -> (r: Option<Statement>)
        ensures
            final(self).input == old(self).input,
            final(self).len == old(self).len,
            (statement_opt_view(r), final(self).position()) == drop_at(old(self).text(), old(self).position()),
    {
        self.skip_whitespace();
        let next = self.parse_word();
        if str_eq(next.as_str(), "DATABASE") {
            self.skip_whitespace();
            match self.parse_identifier() {
                Some(name) => Some(Statement::DropDatabase(name)),
                None => None,
            }
        } else if str_eq(next.as_str(), "MEASUREMENT") {
            self.skip_whitespace();
            match self.parse_identifier() {
                Some(name) => Some(Statement::DropMeasurement(name)),
                None => None,
            }
        } else if str_eq(next.as_str(), "SERIES") {
            self.skip_whitespace();
            let condition = self.parse_where_condition();
            Some(Statement::DropSeries { condition })
        } else {
            None
        }
    }

    fn parse_show(&mut self) -> (r: Option<Statement>)
        ensures
            final(self).input == old(self).input,
            final(self).len == old(self).len,
            (statement_opt_view(r), final(self).position()) == show_at(old(self).text(), old(self).position()),
    {
        self.skip_whitespace();
        let next = self.parse_word();
        let n = next.as_str();
        if str_eq(n, "DATABASES") {
            Some(Statement::ShowDatabases)
        } else if str_eq(n, "MEASUREMENTS") {
            Some(Statement::ShowMeasurements)
        } else if str_eq(n, "SERIES") {
            Some(Statement::ShowSeries)
        } else if str_eq(n, "RETENTION") {
            self.skip_whitespace();
            let next = self.parse_word();
            if str_eq(next.as_str(), "POLICIES") || str_eq(next.as_str(), "RP") {
                let database = self.parse_word();
                if database.as_str().is_empty() {
                    Some(Statement::ShowRetentionPolicies(None))
                } else {
                    Some(Statement::ShowRetentionPolicies(Some(database)))
                }
            } else {
                None
            }
        } else if str_eq(n, "TAG") {
            self.skip_whitespace();
            let next = self.parse_word();
            if str_eq(next.as_str(), "KEYS") {
                let measurement = self.parse_show_tag_keys_measurement();
                Some(Statement::ShowTagKeys(measurement))
            } else if str_eq(next.as_str(), "VALUES") {
                let measurement = self.parse_show_tag_keys_measurement();
                let tag_key = match self.parse_identifier() {
                    Some(k) => k,
                    None => String::new(),
                };
                Some(Statement::ShowTagValues(measurement, tag_key))
            } else {
                None
            }
        } else if str_eq(n, "FIELD") {
            self.skip_whitespace();
            let next = self.parse_word();
            if str_eq(next.as_str(), "KEYS") {
                let measurement = self.parse_show_tag_keys_measurement();
                Some(Statement::ShowFieldKeys(measurement))
            } else {
                None
            }
        } else {
            None
        }
    }

    fn parse_insert(&mut self) -> (r: Option<Statement>)
        ensures
            final(self).input == old(self).input,
            final(self).len == old(self).len,
            (statement_opt_view(r), final(self).position()) == insert_at(old(self).text(), old(self).position()),
    {
        let ghost s = self.input@;
        self.skip_whitespace();
        let measurement = match self.parse_identifier() {
            Some(m) => m,
            None => return None,
        };
        let ghost e1 = self.pos as int;
        let mut tags: Vec<(String, String)> = Vec::new();
        proof { assert(pairs_view(tags@) =~= Seq::<(Seq<char>, Seq<char>)>::empty()); }
        loop
            invariant_except_break
                insert_tags(s, e1, Seq::empty()) == insert_tags(s, self.pos as int, pairs_view(tags@)),
            invariant
                self.input == old(self).input,
                self.len == old(self).len,
                s == old(self).input@,
            ensures
                self.input == old(self).input,
                self.len == old(self).len,
                insert_tags(s, e1, Seq::empty()) == (pairs_view(tags@), self.pos as int),
            decreases self.len - self.pos,
        {
            proof {
                use_type_invariant(&*self);
                lemma_scan(s, self.pos as int, CharClass::White);
            }
            let ghost p = self.pos as int;
            self.skip_whitespace();
            proof { use_type_invariant(&*self); }
            if self.peek_is(',') {
                self.pos = self.pos + 1;
                proof { lemma_steps(s, self.pos as int); }
                self.skip_whitespace();
                proof {
                    use_type_invariant(&*self);
                    lemma_steps(s, self.pos as int);
                    lemma_scan(s, self.pos as int, CharClass::White);
                    let q2 = ws(s, self.pos as int);
                    if q2 < s.len() { lemma_scan(s, q2 + 1, CharClass::Ident); }
                }
                match self.parse_identifier() {
                    Some(key) => {
                        proof { use_type_invariant(&*self); }
                        if self.peek_is('=') {
                            self.pos = self.pos + 1;
                            proof {
                                lemma_scan(s, self.pos as int, CharClass::White);
                                lemma_scan(s, ws(s, self.pos as int), CharClass::TagValue);
                            }
                            match self.parse_tag_value() {
                                Some(value) => {
                                    proof { assert(pairs_view(tags@.push((key, value))) =~= pairs_view(tags@).push((key@, value@))); }
                                    tags.push((key, value));
                                },
                                None => {},
                            }
                        }
                    },
                    None => {},
                }
                proof { assert(self.pos > p); }
            } else if self.peek_is(' ') {
                self.pos = self.pos + 1;
                break;
            } else {
                break;
            }
        }
        let ghost e2 = self.pos as int;
        let mut fields: Vec<(String, String)> = Vec::new();
        proof { assert(pairs_view(fields@) =~= Seq::<(Seq<char>, Seq<char>)>::empty()); }
        loop
            invariant_except_break
                insert_fields(s, e2, Seq::empty()) == insert_fields(s, self.pos as int, pairs_view(fields@)),
            invariant
                self.input == old(self).input,
                self.len == old(self).len,
                s == old(self).input@,
            ensures
                self.input == old(self).input,
                self.len == old(self).len,
                insert_fields(s, e2, Seq::empty()) == (pairs_view(fields@), self.pos as int),
            decreases self.len - self.pos,
        {
            proof {
                use_type_invariant(&*self);
                lemma_scan(s, self.pos as int, CharClass::White);
            }
            let ghost p = self.pos as int;
            self.skip_whitespace();
            proof { use_type_invariant(&*self); }
            if self.peek_is(',') {
                self.pos = self.pos + 1;
                proof { lemma_scan(s, self.pos as int, CharClass::White); }
                self.skip_whitespace();
            }
            proof {
                use_type_invariant(&*self);
                lemma_scan(s, self.pos as int, CharClass::White);
                let q2 = ws(s, self.pos as int);
                if q2 < s.len() { lemma_scan(s, q2 + 1, CharClass::Ident); }
            }
            match self.parse_identifier() {
                Some(key) => {
                    proof { use_type_invariant(&*self); }
                    if self.peek_is('=') {
                        self.pos = self.pos + 1;
                        proof {
                            lemma_scan(s, self.pos as int, CharClass::White);
                            lemma_scan(s, ws(s, self.pos as int), CharClass::SignedNumber);
                        }
                        match self.parse_field_value() {
                            Some(value) => {
                                proof { assert(pairs_view(fields@.push((key, value))) =~= pairs_view(fields@).push((key@, value@))); }
                                fields.push((key, value));
                                continue;
                            },
                            None => {},
                        }
                    }
                },
                None => {},
            }
            break;
        }
        self.skip_whitespace();
        let timestamp = self.parse_field_value();
        Some(Statement::Insert { measurement, tags, fields, timestamp })
    }

    /// Reads one statement from the current position. Gives `None` when the
    /// text there is no statement the engine knows, or lacks a part that the
    /// statement needs.
    pub fn parse_statement(&mut self) -> (r: Option<Statement>)
        ensures
            final(self).text() == old(self).text(),
            (statement_opt_view(r), final(self).position()) == statement_at(old(self).text(), old(self).position()),
    {
        self.skip_whitespace();
        let word = self.parse_word();
        let w = word.as_str();
        if str_eq(w, "SELECT") || str_eq(w, "SELECTALL") {
            self.parse_select()
        } else if str_eq(w, "CREATE") {
            self.parse_create()
        } else if str_eq(w, "ALTER") {
            self.parse_alter()
        } else if str_eq(w, "DROP") {
            self.parse_drop()
        } else if str_eq(w, "DELETE") {
            self.skip_whitespace();
            let condition = self.parse_where_condition();
            Some(Statement::Delete { condition })
        } else if str_eq(w, "SHOW") {
            self.parse_show()
        } else if str_eq(w, "USE") {
            self.skip_whitespace();
            match self.parse_identifier() {
                Some(database) => Some(Statement::Use { database }),
                None => None,
            }
        } else if str_eq(w, "INSERT") {
            self.parse_insert()
        } else {
            None
        }
    }
}


// ----- conditions -----

/// A value in a condition: an integer, the text of a floating-point
/// number, the bytes of a string, or a boolean.
#[derive(Debug, Clone)]
pub enum Literal {
    Integer(i64),
    Float(String),
    String(Vec<u8>),
    Boolean(bool),
}

/// A parsed condition: a comparison of a field with a value, or two
/// comparisons joined by `AND` or `OR`.
#[derive(Debug)]
pub enum Condition {
    And(Box<Condition>, Box<Condition>),
    Or(Box<Condition>, Box<Condition>),
    Eq(String, Literal),
    Ne(String, Literal),
    Gt(String, Literal),
    Gte(String, Literal),
    Lt(String, Literal),
    Lte(String, Literal),
}

/// The abstract value of a literal.
pub enum LiteralView {
    Integer(i64),
    Float(Seq<char>),
    Bytes(Seq<u8>),
    Boolean(bool),
}

/// The comparisons of a condition.
#[derive(PartialEq, Eq, Structural)]
pub enum CompareOp {
    Eq,
    Ne,
    Gt,
    Gte,
    Lt,
    Lte,
}

/// The abstract value of a condition.
pub enum ConditionView {
    And(Box<ConditionView>, Box<ConditionView>),
    Or(Box<ConditionView>, Box<ConditionView>),
    Compare(CompareOp, Seq<char>, LiteralView),
}

impl View for Literal {
    type V = LiteralView;

    open spec fn view(&self) -> LiteralView {
        match self {
            Literal::Integer(i) => LiteralView::Integer(*i),
            Literal::Float(t) => LiteralView::Float(t@),
            Literal::String(b) => LiteralView::Bytes(b@),
            Literal::Boolean(b) => LiteralView::Boolean(*b),
        }
    }
}

/// The abstract value of a condition.
pub open spec fn condition_view(c: Condition) -> ConditionView
    decreases c,
{
    match c {
        Condition::And(l, r) => ConditionView::And(Box::new(condition_view(*l)), Box::new(condition_view(*r))),
        Condition::Or(l, r) => ConditionView::Or(Box::new(condition_view(*l)), Box::new(condition_view(*r))),
        Condition::Eq(f, v) => ConditionView::Compare(CompareOp::Eq, f@, v@),
        Condition::Ne(f, v) => ConditionView::Compare(CompareOp::Ne, f@, v@),
        Condition::Gt(f, v) => ConditionView::Compare(CompareOp::Gt, f@, v@),
        Condition::Gte(f, v) => ConditionView::Compare(CompareOp::Gte, f@, v@),
        Condition::Lt(f, v) => ConditionView::Compare(CompareOp::Lt, f@, v@),
        Condition::Lte(f, v) => ConditionView::Compare(CompareOp::Lte, f@, v@),
    }
}

/// The abstract value of an optional condition.
pub open spec fn condition_opt_view(r: Option<Condition>) -> Option<ConditionView> {
    match r {
        Some(c) => Some(condition_view(c)),
        None => None,
    }
}

/// The first position at or after `i` where `pat` occurs in `s`.
pub open spec fn find_from(s: Seq<char>, pat: Seq<char>, i: int) -> Option<int>
    decreases s.len() + 1 - i,
{
    if i < 0 || i + pat.len() > s.len() {
        None
    } else if s.subrange(i, i + pat.len()) == pat {
        Some(i)
    } else {
        find_from(s, pat, i + 1)
    }
}

/// The first position where `pat` occurs in `s`.
pub open spec fn find_seq(s: Seq<char>, pat: Seq<char>) -> Option<int> {
    find_from(s, pat, 0)
}

/// Whether `pat` occurs in `s`.
pub open spec fn contains_seq(s: Seq<char>, pat: Seq<char>) -> bool {
    find_seq(s, pat) is Some
}

proof fn lemma_find_from(s: Seq<char>, pat: Seq<char>, i: int)
    requires
        0 <= i,
    ensures
        find_from(s, pat, i) matches Some(k) ==> i <= k && k + pat.len() <= s.len(),
    decreases s.len() + 1 - i,
{
    if i + pat.len() <= s.len() && s.subrange(i, i + pat.len()) != pat {
        lemma_find_from(s, pat, i + 1);
    }
}

/// The first position where `pat` occurs in `s`, computed.
pub fn find_str(s: &str, pat: &str) -> (r: Option<usize>)
    ensures
        match r {
            Some(k) => find_seq(s@, pat@) == Some(k as int) && k + pat@.len() <= s@.len(),
            None => find_seq(s@, pat@) is None,
        },
{
    let n = s.unicode_len();
    let m = pat.unicode_len();
    if m > n {
        return None;
    }
    let mut i: usize = 0;
    while i <= n - m
        invariant
            n == s@.len(),
            m == pat@.len(),
            m <= n,
            i <= n - m + 1,
            find_seq(s@, pat@) == find_from(s@, pat@, i as int),
        decreases n - i,
    {
        let mut j: usize = 0;
        let mut same = true;
        while j < m && same
            invariant
                n == s@.len(),
                m == pat@.len(),
                i + m <= n,
                j <= m,
                forall|k: int| 0 <= k < j ==> s@[i + k] == pat@[k],
                !same ==> j < m && s@[i + j] != pat@[j as int],
            decreases 2 * (m - j) + if same { 1int } else { 0int },
        {
            if s.get_char(i + j) != pat.get_char(j) {
                same = false;
            } else {
                j = j + 1;
            }
        }
        if same {
            proof { assert(s@.subrange(i as int, i + m) =~= pat@); }
            return Some(i);
        }
        proof {
            assert(s@.subrange(i as int, i + m)[j as int] != pat@[j as int]);
        }
        i = i + 1;
    }
    None
}

/// Whether a text, trimmed, is a lone quote character: a value that the
/// engine cannot read (it would take the text between the quotes).
pub open spec fn lone_quote(t: Seq<char>) -> bool {
    t.len() == 1 && (t[0] == '\'' || t[0] == '"')
}

/// The value that a text in a condition stands for, once trimmed: `true`
/// or `false` in any ASCII case, an integer that fits `i64`, a number that
/// reads as a float, a quoted string (its inside), or else the text itself.
pub open spec fn literal_of(v: Seq<char>) -> LiteralView {
    let t = trim_seq(v);
    if crate::numbers::ieq_seq(t, seq!['t', 'r', 'u', 'e']) {
        LiteralView::Boolean(true)
    } else if crate::numbers::ieq_seq(t, seq!['f', 'a', 'l', 's', 'e']) {
        LiteralView::Boolean(false)
    } else if crate::numbers::i64_of_text(t) is Some {
        LiteralView::Integer(crate::numbers::i64_of_text(t).unwrap())
    } else if float_text(t) {
        LiteralView::Float(t)
    } else if t.len() >= 2 && ((t[0] == '\'' && t.last() == '\'') || (t[0] == '"' && t.last() == '"')) {
        LiteralView::Bytes(vstd::utf8::encode_utf8(t.subrange(1, t.len() - 1)))
    } else {
        LiteralView::Bytes(vstd::utf8::encode_utf8(t))
    }
}

/// The texts on either side of the first occurrence of an operator.
pub open spec fn split_first(c: Seq<char>, op: CompareOp, pat: Seq<char>) -> Option<(CompareOp, Seq<char>, Seq<char>)> {
    match find_seq(c, pat) {
        Some(i) => Some((op, c.subrange(0, i), c.subrange(i + pat.len(), c.len() as int))),
        None => None,
    }
}

/// The operator that a comparison uses and the texts on either side of its
/// first occurrence; the operators are tried in the order `>=`, `<=`, `!=`,
/// `=`, `>`, `<`.
pub open spec fn comparison_parts(c: Seq<char>) -> Option<(CompareOp, Seq<char>, Seq<char>)> {
    if split_first(c, CompareOp::Gte, ">="@) is Some {
        split_first(c, CompareOp::Gte, ">="@)
    } else if split_first(c, CompareOp::Lte, "<="@) is Some {
        split_first(c, CompareOp::Lte, "<="@)
    } else if split_first(c, CompareOp::Ne, "!="@) is Some {
        split_first(c, CompareOp::Ne, "!="@)
    } else if split_first(c, CompareOp::Eq, "="@) is Some {
        split_first(c, CompareOp::Eq, "="@)
    } else if split_first(c, CompareOp::Gt, ">"@) is Some {
        split_first(c, CompareOp::Gt, ">"@)
    } else {
        split_first(c, CompareOp::Lt, "<"@)
    }
}

/// Whether reading a comparison (not on time) would meet a lone quote.
pub open spec fn comparison_fails(c: Seq<char>) -> bool {
    let t = trim_seq(c);
    !upper_or_time(t) && match comparison_parts(t) {
        Some((_, _, right)) => lone_quote(trim_seq(trim_seq(right))),
        None => false,
    }
}

/// Whether a comparison is on time: its lower-case form starts with `time`.
pub open spec fn upper_or_time(t: Seq<char>) -> bool {
    "time"@.is_prefix_of(crate::chars::lower_case(t))
}

/// The offset in nanoseconds that a unit word gives a number of units, in
/// wrapping arithmetic: seconds, minutes, hours, days or weeks by the first
/// letters of the word; zero for another word.
pub open spec fn unit_offset(unit: Seq<char>, num: i64) -> i64 {
    if (seq!['s']).is_prefix_of(unit) {
        num.wrapping_mul(1_000_000_000)
    } else if (seq!['m', 'i', 'n']).is_prefix_of(unit) {
        num.wrapping_mul(60).wrapping_mul(1_000_000_000)
    } else if (seq!['h']).is_prefix_of(unit) {
        num.wrapping_mul(3600).wrapping_mul(1_000_000_000)
    } else if (seq!['d']).is_prefix_of(unit) {
        num.wrapping_mul(86400).wrapping_mul(1_000_000_000)
    } else if (seq!['w']).is_prefix_of(unit) {
        num.wrapping_mul(604800).wrapping_mul(1_000_000_000)
    } else if (seq!['m']).is_prefix_of(unit) {
        num.wrapping_mul(60).wrapping_mul(1_000_000_000)
    } else {
        0
    }
}

/// Whether a character ends the number of an offset: not numeric, and
/// alphabetic or a space.
pub open spec fn ends_number(c: char) -> bool {
    !crate::chars::numeric(c) && (crate::chars::alphabetic(c) || c == ' ')
}

/// The first position at or after `i` of a character that ends the number.
pub open spec fn number_end(t: Seq<char>, i: int) -> Option<int>
    decreases t.len() - i,
{
    if i < 0 || i >= t.len() {
        None
    } else if ends_number(t[i]) {
        Some(i)
    } else {
        number_end(t, i + 1)
    }
}

/// The numeric characters of a text, in order.
pub open spec fn numeric_chars(t: Seq<char>) -> Seq<char>
    decreases t.len(),
{
    if t.len() == 0 {
        t
    } else if crate::chars::numeric(t.last()) {
        numeric_chars(t.drop_last()).push(t.last())
    } else {
        numeric_chars(t.drop_last())
    }
}

/// The offset written after `now()` in a time condition: the numeric
/// characters before the first letter or space form a number of units
/// (zero if it does not fit `i64`), and the text from that letter on, in
/// lower case, names the unit. Without such a letter or without digits,
/// there is no offset.
pub open spec fn offset_after_now(c: Seq<char>) -> Option<i64> {
    let lower = crate::chars::lower_case(c);
    match find_seq(lower, "now()"@) {
        None => None,
        Some(i) => {
            let from = if i + 5 <= c.len() { i + 5 } else { c.len() as int };
            let t = trim_seq(c.subrange(from, c.len() as int));
            match number_end(t, 0) {
                None => None,
                Some(k) => {
                    let digits = numeric_chars(t.subrange(0, k));
                    if digits.len() == 0 {
                        None
                    } else {
                        let num: i64 = match crate::numbers::i64_of_text(digits) { Some(v) => v, None => 0 };
                        Some(unit_offset(crate::chars::lower_case(t.subrange(k, t.len() as int)), num))
                    }
                },
            }
        },
    }
}

/// A condition on time: with `now()` and an offset, a comparison of `time`
/// with the moment `now` less the offset (wrapping), by the operator the
/// text shows; otherwise none.
pub open spec fn time_condition(c: Seq<char>, now: i64) -> Option<ConditionView> {
    let lower = crate::chars::lower_case(c);
    if !contains_seq(lower, "now()"@) {
        None
    } else {
        match offset_after_now(c) {
            None => None,
            Some(off) => {
                let v = LiteralView::Integer(now.wrapping_sub(off));
                let time = "time"@;
                if contains_seq(lower, ">="@) || contains_seq(lower, "=>"@) {
                    Some(ConditionView::Compare(CompareOp::Gte, time, v))
                } else if contains_seq(lower, "<="@) || contains_seq(lower, "=<"@) {
                    Some(ConditionView::Compare(CompareOp::Lte, time, v))
                } else if contains_seq(lower, ">"@) && !contains_seq(lower, ">="@) {
                    Some(ConditionView::Compare(CompareOp::Gt, time, v))
                } else if contains_seq(lower, "<"@) && !contains_seq(lower, "<="@) {
                    Some(ConditionView::Compare(CompareOp::Lt, time, v))
                } else if contains_seq(lower, "="@) {
                    Some(ConditionView::Compare(CompareOp::Eq, time, v))
                } else {
                    None
                }
            },
        }
    }
}

/// A single comparison, trimmed: on time when it starts with `time` in
/// lower case; otherwise the first operator that occurs splits it into a
/// field (trimmed) and a value.
pub open spec fn single_condition(c: Seq<char>, now: i64) -> Option<ConditionView> {
    let t = trim_seq(c);
    if upper_or_time(t) {
        time_condition(t, now)
    } else {
        match comparison_parts(t) {
            Some((op, left, right)) => Some(ConditionView::Compare(op, trim_seq(left), literal_of(trim_seq(right)))),
            None => None,
        }
    }
}

/// A condition, trimmed: empty gives none; else the first ` and ` (in
/// lower case) joins two comparisons, else the first ` or `, else it is a
/// single comparison. Both sides of a join must read.
pub open spec fn condition_of(c: Seq<char>, now: i64) -> Option<ConditionView> {
    let t = trim_seq(c);
    let lower = crate::chars::lower_case(t);
    if t.len() == 0 {
        None
    } else {
        match find_seq(lower, " and "@) {
            Some(i) => join(t, i, 5, now, true),
            None => match find_seq(lower, " or "@) {
                Some(i) => join(t, i, 4, now, false),
                None => single_condition(t, now),
            },
        }
    }
}

/// The text of a condition cut at a position, around a joining word of
/// `w` characters.
pub open spec fn cut(t: Seq<char>, i: int, w: int) -> (Seq<char>, Seq<char>) {
    let a = if i <= t.len() { i } else { t.len() as int };
    let b = if i + w <= t.len() { i + w } else { t.len() as int };
    (t.subrange(0, a), t.subrange(b, t.len() as int))
}

/// Two comparisons joined at a position.
pub open spec fn join(t: Seq<char>, i: int, w: int, now: i64, and: bool) -> Option<ConditionView> {
    let (l, r) = cut(t, i, w);
    match single_condition(trim_seq(l), now) {
        None => None,
        Some(lc) => match single_condition(trim_seq(r), now) {
            None => None,
            Some(rc) => Some(if and {
                ConditionView::And(Box::new(lc), Box::new(rc))
            } else {
                ConditionView::Or(Box::new(lc), Box::new(rc))
            }),
        },
    }
}

/// Whether reading a condition would meet a lone quote.
pub open spec fn condition_fails(c: Seq<char>) -> bool {
    let t = trim_seq(c);
    let lower = crate::chars::lower_case(t);
    t.len() != 0 && match find_seq(lower, " and "@) {
        Some(i) => comparison_fails(trim_seq(cut(t, i, 5).0))
            || (single_condition(trim_seq(cut(t, i, 5).0), 0) is Some && comparison_fails(trim_seq(cut(t, i, 5).1))),
        None => match find_seq(lower, " or "@) {
            Some(i) => comparison_fails(trim_seq(cut(t, i, 4).0))
                || (single_condition(trim_seq(cut(t, i, 4).0), 0) is Some && comparison_fails(trim_seq(cut(t, i, 4).1))),
            None => comparison_fails(t),
        },
    }
}


/// Whether a comparison reads, whatever the moment: the moment changes
/// only the value of a time comparison.
pub proof fn lemma_reads_at_any_moment(c: Seq<char>, now: i64)
    ensures
        (single_condition(c, now) is Some) == (single_condition(c, 0) is Some),
{
}

fn compare(op: CompareOp, field: String, value: Literal) -> (r: Condition)
    ensures
        condition_view(r) == ConditionView::Compare(op, field@, value@),
{
    match op {
        CompareOp::Eq => Condition::Eq(field, value),
        CompareOp::Ne => Condition::Ne(field, value),
        CompareOp::Gt => Condition::Gt(field, value),
        CompareOp::Gte => Condition::Gte(field, value),
        CompareOp::Lt => Condition::Lt(field, value),
        CompareOp::Lte => Condition::Lte(field, value),
    }
}

fn split_at_first(c: &str, op: CompareOp, pat: &str) -> (r: Option<(CompareOp, String, String)>)
    ensures
        match split_first(c@, op, pat@) {
            Some((o, l, rt)) => r matches Some((o2, l2, r2)) && o2 == o && l2@ == l && r2@ == rt,
            None => r is None,
        },
{
    match find_str(c, pat) {
        Some(i) => {
            let n = c.unicode_len();
            let m = pat.unicode_len();
            Some((op, c.substring_char(0, i).to_owned(), c.substring_char(i + m, n).to_owned()))
        },
        None => None,
    }
}

fn split_comparison(c: &str) -> (r: Option<(CompareOp, String, String)>)
    ensures
        match comparison_parts(c@) {
            Some((op, l, rt)) => r matches Some((o, l2, r2)) && o == op && l2@ == l && r2@ == rt,
            None => r is None,
        },
{
    let r = split_at_first(c, CompareOp::Gte, ">=");
    if r.is_some() { return r; }
    let r = split_at_first(c, CompareOp::Lte, "<=");
    if r.is_some() { return r; }
    let r = split_at_first(c, CompareOp::Ne, "!=");
    if r.is_some() { return r; }
    let r = split_at_first(c, CompareOp::Eq, "=");
    if r.is_some() { return r; }
    let r = split_at_first(c, CompareOp::Gt, ">");
    if r.is_some() { return r; }
    split_at_first(c, CompareOp::Lt, "<")
}

fn contains_str(s: &str, pat: &str) -> (r: bool)
    ensures
        r == contains_seq(s@, pat@),
{
    find_str(s, pat).is_some()
}

fn ieq_text(s: &str, word: &[char]) -> (r: bool)
    requires
        forall|i: int| 0 <= i < word@.len() ==> 'a' <= #[trigger] word@[i] <= 'z',
    ensures
        r == crate::numbers::ieq_seq(s@, word@),
{
    let n = s.unicode_len();
    if n != word.len() {
        return false;
    }
    let mut i: usize = 0;
    while i < n
        invariant
            n == s@.len(),
            n == word@.len(),
            i <= n,
            forall|j: int| 0 <= j < word@.len() ==> 'a' <= #[trigger] word@[j] <= 'z',
            forall|j: int| 0 <= j < i ==> crate::numbers::ieq(#[trigger] s@[j], word@[j]),
        decreases n - i,
    {
        let c = s.get_char(i);
        let l = word[i];
        if !(c == l || (c as u32) + 32 == (l as u32)) {
            return false;
        }
        i = i + 1;
    }
    true
}

impl Parser {
    fn parse_value(&self, value_str: &str) -> (r: Literal)
        requires
            !lone_quote(trim_seq(value_str@)),
        ensures
            r@ == literal_of(value_str@),
    {
        let t = trim(value_str);
        let v = t.as_str();
        let true_word: [char; 4] = ['t', 'r', 'u', 'e'];
        let false_word: [char; 5] = ['f', 'a', 'l', 's', 'e'];
        proof {
            assert(true_word@ =~= seq!['t', 'r', 'u', 'e']);
            assert(false_word@ =~= seq!['f', 'a', 'l', 's', 'e']);
        }
        if ieq_text(v, &true_word) {
            return Literal::Boolean(true);
        }
        if ieq_text(v, &false_word) {
            return Literal::Boolean(false);
        }
        match crate::numbers::parse_i64(v) {
            Some(i) => { return Literal::Integer(i); },
            None => {},
        }
        if is_float_text(v) {
            return Literal::Float(t.clone());
        }
        let n = v.unicode_len();
        if n > 0 {
            let first = v.get_char(0);
            let last = v.get_char(n - 1);
            if (first == '\'' && last == '\'') || (first == '"' && last == '"') {
                return Literal::String(v.substring_char(1, n - 1).as_bytes_vec());
            }
        }
        Literal::String(v.as_bytes_vec())
    }

    fn parse_duration_from_now(&self, condition: &str) -> (r: Option<i64>)
        ensures
            r == offset_after_now(condition@),
    {
        let lower = crate::chars::to_lower(condition);
        let i = match find_str(lower.as_str(), "now()") {
            Some(i) => i,
            None => return None,
        };
        let len = condition.unicode_len();
        let from = if i <= len && len - i >= 5 { i + 5 } else { len };
        let t = trim(condition.substring_char(from, len));
        let tl = t.unicode_len();
        let mut digits = String::new();
        let mut k: usize = 0;
        let mut stop = false;
        while k < tl && !stop
            invariant
                tl == t@.len(),
                k <= tl,
                number_end(t@, 0) == if stop { Some(k as int) } else { number_end(t@, k as int) },
                digits@ == numeric_chars(t@.subrange(0, k as int)),
            decreases tl - k + if stop { 0int } else { 1int },
        {
            let c = t.get_char(k);
            if crate::chars::is_numeric(c) {
                proof {
                    assert(t@.subrange(0, k + 1).drop_last() =~= t@.subrange(0, k as int));
                }
                crate::text::push_char(&mut digits, c);
                k = k + 1;
            } else if crate::chars::is_alphabetic(c) || c == ' ' {
                stop = true;
            } else {
                proof {
                    assert(t@.subrange(0, k + 1).drop_last() =~= t@.subrange(0, k as int));
                }
                k = k + 1;
            }
        }
        if !stop || digits.as_str().is_empty() {
            return None;
        }
        let num: i64 = match crate::numbers::parse_i64(digits.as_str()) {
            Some(v) => v,
            None => 0,
        };
        let unit = crate::chars::to_lower(t.substring_char(k, tl));
        let u = unit.as_str();
        let offset = if crate::text::starts_with(u, "s") && !crate::text::starts_with(u, "sec") {
            num.wrapping_mul(1_000_000_000)
        } else if crate::text::starts_with(u, "sec") {
            num.wrapping_mul(1_000_000_000)
        } else if crate::text::starts_with(u, "min") {
            num.wrapping_mul(60).wrapping_mul(1_000_000_000)
        } else if crate::text::starts_with(u, "h") {
            num.wrapping_mul(3600).wrapping_mul(1_000_000_000)
        } else if crate::text::starts_with(u, "d") {
            num.wrapping_mul(86400).wrapping_mul(1_000_000_000)
        } else if crate::text::starts_with(u, "w") {
            num.wrapping_mul(604800).wrapping_mul(1_000_000_000)
        } else if crate::text::starts_with(u, "m") && !crate::text::starts_with(u, "min") {
            num.wrapping_mul(60).wrapping_mul(1_000_000_000)
        } else {
            0
        };
        proof {
            reveal_strlit("s");
            reveal_strlit("sec");
            reveal_strlit("min");
            reveal_strlit("h");
            reveal_strlit("d");
            reveal_strlit("w");
            reveal_strlit("m");
        }
        Some(offset)
    }

    fn parse_time_condition_at(&self, condition: &str, now: i64) -> (r: Option<Condition>)
        ensures
            condition_opt_view(r) == time_condition(condition@, now),
    {
        let lower = crate::chars::to_lower(condition);
        let l = lower.as_str();
        if contains_str(l, "now()") {
            let offset = match self.parse_duration_from_now(condition) {
                Some(o) => o,
                None => return None,
            };
            let target = now.wrapping_sub(offset);
            let time = "time".to_owned();
            if contains_str(l, ">=") || contains_str(l, "=>") {
                return Some(Condition::Gte(time, Literal::Integer(target)));
            }
            if contains_str(l, "<=") || contains_str(l, "=<") {
                return Some(Condition::Lte(time, Literal::Integer(target)));
            }
            if contains_str(l, ">") && !contains_str(l, ">=") {
                return Some(Condition::Gt(time, Literal::Integer(target)));
            }
            if contains_str(l, "<") && !contains_str(l, "<=") {
                return Some(Condition::Lt(time, Literal::Integer(target)));
            }
            if contains_str(l, "=") {
                return Some(Condition::Eq(time, Literal::Integer(target)));
            }
        }
        None
    }

    fn parse_single_condition_at(&self, condition: &str, now: i64) -> (r: Option<Condition>)
        requires
            !comparison_fails(condition@),
        ensures
            condition_opt_view(r) == single_condition(condition@, now),
    {
        let c = trim(condition);
        let lower = crate::chars::to_lower(c.as_str());
        if crate::text::starts_with(lower.as_str(), "time") {
            return self.parse_time_condition_at(c.as_str(), now);
        }
        match split_comparison(c.as_str()) {
            Some((op, left, right)) => {
                let field = trim(left.as_str());
                let value_text = trim(right.as_str());
                let value = self.parse_value(value_text.as_str());
                Some(compare(op, field, value))
            },
            None => None,
        }
    }

    /// Reads a condition as of the moment `now` (nanoseconds since the
    /// epoch), which time comparisons against `now()` count back from.
    pub fn parse_condition_at(&mut self, condition_str: &str, now: i64) -> (r: Option<Condition>)
        requires
            !condition_fails(condition_str@),
        ensures
            final(self).text() == old(self).text(),
            final(self).position() == old(self).position(),
            condition_opt_view(r) == condition_of(condition_str@, now),
    {
        let t = trim(condition_str);
        let c = t.as_str();
        let n = c.unicode_len();
        if n == 0 {
            return None;
        }
        let lower = crate::chars::to_lower(c);
        match find_str(lower.as_str(), " and ") {
            Some(i) => {
                let a = if i <= n { i } else { n };
                let b = if i <= n && n - i >= 5 { i + 5 } else { n };
                let left = trim(c.substring_char(0, a));
                let right = trim(c.substring_char(b, n));
                proof { lemma_reads_at_any_moment(left@, now); }
                let l = match self.parse_single_condition_at(left.as_str(), now) {
                    Some(x) => x,
                    None => return None,
                };
                let r = match self.parse_single_condition_at(right.as_str(), now) {
                    Some(x) => x,
                    None => return None,
                };
                return Some(Condition::And(Box::new(l), Box::new(r)));
            },
            None => {},
        }
        match find_str(lower.as_str(), " or ") {
            Some(i) => {
                let a = if i <= n { i } else { n };
                let b = if i <= n && n - i >= 4 { i + 4 } else { n };
                let left = trim(c.substring_char(0, a));
                let right = trim(c.substring_char(b, n));
                proof { lemma_reads_at_any_moment(left@, now); }
                let l = match self.parse_single_condition_at(left.as_str(), now) {
                    Some(x) => x,
                    None => return None,
                };
                let r = match self.parse_single_condition_at(right.as_str(), now) {
                    Some(x) => x,
                    None => return None,
                };
                return Some(Condition::Or(Box::new(l), Box::new(r)));
            },
            None => {},
        }
        self.parse_single_condition_at(c, now)
    }

    /// Reads a condition; comparisons of time against `now()` count back
    /// from the current UTC time.
    pub fn parse_condition(&mut self, condition_str: &str) -> (r: Option<Condition>)
        requires
            !condition_fails(condition_str@),
        ensures
            final(self).text() == old(self).text(),
            final(self).position() == old(self).position(),
            exists|now: i64| condition_opt_view(r) == condition_of(condition_str@, now),
    {
        let now = crate::clock::utc_now_nanos();
        self.parse_condition_at(condition_str, now)
    }
}

} // verus!
