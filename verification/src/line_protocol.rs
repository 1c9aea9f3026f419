//! The InfluxDB line protocol: `measurement,tag=value field=value time`.
//!
//! A float field value is kept as its text (one that `f64`'s `FromStr`
//! accepts); tags and fields are given in the order they are set (a later
//! one of a name replaces an earlier one).

use vstd::prelude::*;
use vstd::string::*;
use crate::chars::{trim, trim_seq};
use crate::error::Error;
use crate::numbers::{digit_run, float_text, i64_of_text, ieq_seq, is_float_text, parse_i64, parse_u64, u64_of_text};
use crate::text::{push_char, push_str, str_eq};
use crate::otel::{append_pairs, pairs};

verus! {

/// A field value: text, a signed integer, the text of a float, a boolean
/// or an unsigned integer.
#[derive(Debug, Clone, PartialEq, Eq)]
pub enum Value {
    String(String),
    Integer(i64),
    Float(String),
    Boolean(bool),
    Unsigned(u64),
}

/// The abstract value of a field value.
pub enum ValueView {
    Text(Seq<char>),
    Integer(i64),
    Float(Seq<char>),
    Boolean(bool),
    Unsigned(u64),
}

impl View for Value {
    type V = ValueView;

    open spec fn view(&self) -> ValueView {
        match self {
            Value::String(s) => ValueView::Text(s@),
            Value::Integer(i) => ValueView::Integer(*i),
            Value::Float(t) => ValueView::Float(t@),
            Value::Boolean(b) => ValueView::Boolean(*b),
            Value::Unsigned(u) => ValueView::Unsigned(*u),
        }
    }
}

// ----- characters -----

/// The first position at or after `i` of a character.
pub open spec fn char_pos_from(s: Seq<char>, c: char, i: int) -> Option<int>
    decreases s.len() - i,
{
    if i < 0 || i >= s.len() {
        None
    } else if s[i] == c {
        Some(i)
    } else {
        char_pos_from(s, c, i + 1)
    }
}

/// The first position of a character.
pub open spec fn char_pos(s: Seq<char>, c: char) -> Option<int> {
    char_pos_from(s, c, 0)
}

/// The last position before `i` of a character.
pub open spec fn char_rpos_before(s: Seq<char>, c: char, i: int) -> Option<int>
    decreases i,
{
    if i <= 0 || i > s.len() {
        None
    } else if s[i - 1] == c {
        Some(i - 1)
    } else {
        char_rpos_before(s, c, i - 1)
    }
}

/// The last position of a character.
pub open spec fn char_rpos(s: Seq<char>, c: char) -> Option<int> {
    char_rpos_before(s, c, s.len() as int)
}

/// Where a character is found, it is there.
pub proof fn lemma_char_pos(s: Seq<char>, c: char, i: int)
    requires
        0 <= i,
    ensures
        char_pos_from(s, c, i) matches Some(k) ==> i <= k < s.len() && s[k] == c,
        char_pos_from(s, c, i) is None ==> forall|k: int| i <= k < s.len() ==> s[k] != c,
    decreases s.len() - i,
{
    if i < s.len() && s[i] != c {
        lemma_char_pos(s, c, i + 1);
    }
}

/// Where a character is found from the end, it is there.
pub proof fn lemma_char_rpos(s: Seq<char>, c: char, i: int)
    requires
        i <= s.len(),
    ensures
        char_rpos_before(s, c, i) matches Some(k) ==> 0 <= k < i && s[k] == c,
    decreases i,
{
    if 0 < i && s[i - 1] != c {
        lemma_char_rpos(s, c, i - 1);
    }
}

pub(crate) fn find_char(s: &str, c: char) -> (r: Option<usize>)
    ensures
        match char_pos(s@, c) {
            Some(k) => 0 <= k < s@.len() && r == Some(k as usize),
            None => r is None,
        },
{
    proof { lemma_char_pos(s@, c, 0); }
    let n = s.unicode_len();
    let mut i: usize = 0;
    while i < n
        invariant
            n == s@.len(),
            i <= n,
            char_pos(s@, c) == char_pos_from(s@, c, i as int),
        decreases n - i,
    {
        if s.get_char(i) == c {
            return Some(i);
        }
        i = i + 1;
    }
    None
}

pub(crate) fn rfind_char(s: &str, c: char) -> (r: Option<usize>)
    ensures
        match char_rpos(s@, c) {
            Some(k) => 0 <= k < s@.len() && r == Some(k as usize),
            None => r is None,
        },
{
    proof { lemma_char_rpos(s@, c, s@.len() as int); }
    let n = s.unicode_len();
    let mut i: usize = n;
    while i > 0
        invariant
            n == s@.len(),
            i <= n,
            char_rpos(s@, c) == char_rpos_before(s@, c, i as int),
        decreases i,
    {
        if s.get_char(i - 1) == c {
            return Some(i - 1);
        }
        i = i - 1;
    }
    None
}

/// The pieces of a text between the occurrences of a character.
pub open spec fn split_on(s: Seq<char>, c: char) -> Seq<Seq<char>>
    decreases s.len(),
{
    match char_pos(s, c) {
        Some(i) => {
            proof { lemma_char_pos(s, c, 0); }
            seq![s.subrange(0, i)] + split_on(s.subrange(i + 1, s.len() as int), c)
        },
        None => seq![s],
    }
}

/// The characters of each string of a list.
pub open spec fn strings(v: Seq<String>) -> Seq<Seq<char>> {
    v.map_values(|s: String| s@)
}

pub(crate) fn split_char(s: &str, c: char) -> (r: Vec<String>)
    ensures
        strings(r@) == split_on(s@, c),
{
    let mut parts: Vec<String> = Vec::new();
    let mut rest = s.to_owned();
    proof { assert(strings(parts@) + split_on(rest@, c) =~= split_on(s@, c)); }
    loop
        invariant_except_break
            strings(parts@) + split_on(rest@, c) == split_on(s@, c),
        ensures
            strings(parts@) == split_on(s@, c),
        decreases rest@.len(),
    {
        let r = rest.as_str();
        match find_char(r, c) {
            Some(i) => {
                let n = r.unicode_len();
                let head = r.substring_char(0, i).to_owned();
                let tail = r.substring_char(i + 1, n).to_owned();
                proof {
                    assert(strings(parts@.push(head)) =~= strings(parts@).push(head@));
                    assert(strings(parts@).push(head@) + split_on(tail@, c) =~= strings(parts@) + split_on(rest@, c));
                }
                parts.push(head);
                rest = tail;
            },
            None => {
                proof { assert(strings(parts@.push(rest)) =~= strings(parts@) + split_on(rest@, c)); }
                parts.push(rest);
                break;
            },
        }
    }
    parts
}

/// The text with the escapes `\n`, `\r`, `\t`, `\\`, `\"`, `\'` and `\ `
/// replaced by what they stand for; another escaped character keeps its
/// backslash, and so does a backslash at the end.
pub open spec fn unescape(s: Seq<char>) -> Seq<char>
    decreases s.len(),
{
    if s.len() == 0 {
        s
    } else if s[0] == '\\' {
        if s.len() == 1 {
            seq!['\\']
        } else {
            let c = s[1];
            let out = if c == 'n' { seq!['\n'] }
                else if c == 'r' { seq!['\r'] }
                else if c == 't' { seq!['\t'] }
                else if c == '\\' || c == '"' || c == '\'' || c == ' ' { seq![c] }
                else { seq!['\\', c] };
            out + unescape(s.subrange(2, s.len() as int))
        }
    } else {
        seq![s[0]] + unescape(s.subrange(1, s.len() as int))
    }
}

fn unescape_string(s: &str) -> (r: String)
    ensures
        r@ == unescape(s@),
{
    let n = s.unicode_len();
    let mut result = String::new();
    let mut i: usize = 0;
    proof { assert(s@.subrange(0, n as int) =~= s@); }
    while i < n
        invariant
            n == s@.len(),
            i <= n,
            result@ + unescape(s@.subrange(i as int, n as int)) == unescape(s@),
        decreases n - i,
    {
        let ghost rest = s@.subrange(i as int, n as int);
        let c = s.get_char(i);
        if c == '\\' {
            if i + 1 == n {
                push_char(&mut result, '\\');
                proof { assert(s@.subrange(n as int, n as int) =~= Seq::<char>::empty()); }
                i = n;
            } else {
                let d = s.get_char(i + 1);
                if d == 'n' { push_char(&mut result, '\n'); }
                else if d == 'r' { push_char(&mut result, '\r'); }
                else if d == 't' { push_char(&mut result, '\t'); }
                else if d == '\\' || d == '"' || d == '\'' || d == ' ' { push_char(&mut result, d); }
                else { push_char(&mut result, '\\'); push_char(&mut result, d); }
                proof { assert(rest.subrange(2, rest.len() as int) =~= s@.subrange(i + 2, n as int)); }
                i = i + 2;
            }
        } else {
            push_char(&mut result, c);
            proof { assert(rest.subrange(1, rest.len() as int) =~= s@.subrange(i + 1, n as int)); }
            i = i + 1;
        }
    }
    proof { assert(s@.subrange(n as int, n as int) =~= Seq::<char>::empty()); }
    result
}


// ----- values -----

/// Whether a text is a lone quote character.
pub open spec fn lone_quote(v: Seq<char>) -> bool {
    v.len() == 1 && (v[0] == '"' || v[0] == '\'')
}

/// Whether a text starts and ends with the same quote character.
pub open spec fn quoted(v: Seq<char>) -> bool {
    v.len() > 0 && ((v[0] == '"' && v.last() == '"') || (v[0] == '\'' && v.last() == '\''))
}

/// The value of a field as written: `i`/`I` ends a signed integer and
/// `u`/`U` an unsigned one; `true`/`t` and `false`/`f` (any ASCII case)
/// are booleans; then a float; then a quoted string, unescaped. `None`
/// for a lone quote, which has no inside to take.
pub open spec fn field_value_of(v: Seq<char>) -> Option<Result<ValueView, Seq<char>>> {
    if v.len() == 0 {
        Some(Err("empty field value"@))
    } else if v == seq!['i'] || v == seq!['I'] {
        Some(Err("missing integer value"@))
    } else if v.last() == 'i' || v.last() == 'I' {
        let num = v.drop_last();
        match i64_of_text(num) {
            Some(x) => Some(Ok(ValueView::Integer(x))),
            None => Some(Err("invalid integer: "@ + num)),
        }
    } else if v.last() == 'u' || v.last() == 'U' {
        let num = v.drop_last();
        match u64_of_text(num) {
            Some(x) => Some(Ok(ValueView::Unsigned(x))),
            None => Some(Err("invalid unsigned integer: "@ + num)),
        }
    } else if ieq_seq(v, seq!['t', 'r', 'u', 'e']) || ieq_seq(v, seq!['t']) {
        Some(Ok(ValueView::Boolean(true)))
    } else if ieq_seq(v, seq!['f', 'a', 'l', 's', 'e']) || ieq_seq(v, seq!['f']) {
        Some(Ok(ValueView::Boolean(false)))
    } else if float_text(v) {
        Some(Ok(ValueView::Float(v)))
    } else if quoted(v) {
        if v.len() == 1 { None } else { Some(Ok(ValueView::Text(unescape(v.subrange(1, v.len() - 1))))) }
    } else {
        Some(Err("invalid field value: "@ + v))
    }
}

fn parse_error(head: &str, detail: &str) -> (r: Error)
    ensures
        r matches Error::Parse(m) && m@ == head@ + detail@,
{
    let mut m = head.to_owned();
    push_str(&mut m, detail);
    Error::Parse(m)
}

fn ieq_word(s: &str, word: &[char]) -> (r: bool)
    requires
        forall|i: int| 0 <= i < word@.len() ==> 'a' <= #[trigger] word@[i] <= 'z',
    ensures
        r == ieq_seq(s@, word@),
{
    let n = s.unicode_len();
    if n != word.len() {
        return false;
    }
    let mut i: usize = 0;
    while i < n
        invariant
            n == s@.len(),
            n == word@.len(),
            i <= n,
            forall|j: int| 0 <= j < word@.len() ==> 'a' <= #[trigger] word@[j] <= 'z',
            forall|j: int| 0 <= j < i ==> crate::numbers::ieq(#[trigger] s@[j], word@[j]),
        decreases n - i,
    {
        let c = s.get_char(i);
        let l = word[i];
        if !(c == l || (c as u32) + 32 == (l as u32)) {
            return false;
        }
        i = i + 1;
    }
    true
}

/// Reads the value of a field.
fn parse_field_value(value_str: &str) -> (r: Result<Value, Error>)
    requires
        field_value_of(value_str@) is Some,
    ensures
        match field_value_of(value_str@).unwrap() {
            Ok(v) => r matches Ok(x) && x@ == v,
            Err(m) => r matches Err(Error::Parse(e)) && e@ == m,
        },
{
    let n = value_str.unicode_len();
    if n == 0 {
        return Err(Error::Parse("empty field value".to_owned()));
    }
    let last = value_str.get_char(n - 1);
    if n == 1 && (last == 'i' || last == 'I') {
        proof {
            assert(value_str@ =~= seq![last]);
        }
        return Err(Error::Parse("missing integer value".to_owned()));
    }
    proof {
        if value_str@ == seq!['i'] || value_str@ == seq!['I'] { assert(n == 1); }
    }
    if last == 'i' || last == 'I' {
        let num = value_str.substring_char(0, n - 1);
        proof { assert(num@ =~= value_str@.drop_last()); }
        return match parse_i64(num) {
            Some(v) => Ok(Value::Integer(v)),
            None => Err(parse_error("invalid integer: ", num)),
        };
    }
    if last == 'u' || last == 'U' {
        let num = value_str.substring_char(0, n - 1);
        proof { assert(num@ =~= value_str@.drop_last()); }
        return match parse_u64(num) {
            Some(v) => Ok(Value::Unsigned(v)),
            None => Err(parse_error("invalid unsigned integer: ", num)),
        };
    }
    let true_word: [char; 4] = ['t', 'r', 'u', 'e'];
    let t_word: [char; 1] = ['t'];
    let false_word: [char; 5] = ['f', 'a', 'l', 's', 'e'];
    let f_word: [char; 1] = ['f'];
    proof {
        assert(true_word@ =~= seq!['t', 'r', 'u', 'e']);
        assert(t_word@ =~= seq!['t']);
        assert(false_word@ =~= seq!['f', 'a', 'l', 's', 'e']);
        assert(f_word@ =~= seq!['f']);
    }
    if ieq_word(value_str, &true_word) || ieq_word(value_str, &t_word) {
        return Ok(Value::Boolean(true));
    }
    if ieq_word(value_str, &false_word) || ieq_word(value_str, &f_word) {
        return Ok(Value::Boolean(false));
    }
    if is_float_text(value_str) {
        return Ok(Value::Float(value_str.to_owned()));
    }
    let first = value_str.get_char(0);
    if (first == '"' && last == '"') || (first == '\'' && last == '\'') {
        let inner = value_str.substring_char(1, n - 1);
        return Ok(Value::String(unescape_string(inner)));
    }
    Err(parse_error("invalid field value: ", value_str))
}

/// The value that a text stands for in a query: empty is no value;
/// `true`/`t` and `false`/`f` (any ASCII case) are booleans; then a signed
/// integer, an unsigned one, a float, a quoted string (its inside, as
/// written) and otherwise the text itself. `None` for a lone quote.
pub open spec fn value_of_text(s: Seq<char>) -> Option<Result<ValueView, ()>> {
    if s.len() == 0 {
        Some(Err(()))
    } else if ieq_seq(s, seq!['t', 'r', 'u', 'e']) || ieq_seq(s, seq!['t']) {
        Some(Ok(ValueView::Boolean(true)))
    } else if ieq_seq(s, seq!['f', 'a', 'l', 's', 'e']) || ieq_seq(s, seq!['f']) {
        Some(Ok(ValueView::Boolean(false)))
    } else if i64_of_text(s) is Some {
        Some(Ok(ValueView::Integer(i64_of_text(s).unwrap())))
    } else if u64_of_text(s) is Some {
        Some(Ok(ValueView::Unsigned(u64_of_text(s).unwrap())))
    } else if float_text(s) {
        Some(Ok(ValueView::Float(s)))
    } else if quoted(s) {
        if s.len() == 1 { None } else { Some(Ok(ValueView::Text(s.subrange(1, s.len() - 1)))) }
    } else {
        Some(Ok(ValueView::Text(s)))
    }
}

impl Value {
    /// Reads a value from text.
    pub fn from_text(s: &str) -> (r: Result<Value, ()>)
        requires
            value_of_text(s@) is Some,
        ensures
            match value_of_text(s@).unwrap() {
                Ok(v) => r matches Ok(x) && x@ == v,
                Err(_) => r is Err,
            },
    {
        let n = s.unicode_len();
        if n == 0 {
            return Err(());
        }
        let true_word: [char; 4] = ['t', 'r', 'u', 'e'];
        let t_word: [char; 1] = ['t'];
        let false_word: [char; 5] = ['f', 'a', 'l', 's', 'e'];
        let f_word: [char; 1] = ['f'];
        proof {
            assert(true_word@ =~= seq!['t', 'r', 'u', 'e']);
            assert(t_word@ =~= seq!['t']);
            assert(false_word@ =~= seq!['f', 'a', 'l', 's', 'e']);
            assert(f_word@ =~= seq!['f']);
        }
        if ieq_word(s, &true_word) || ieq_word(s, &t_word) {
            return Ok(Value::Boolean(true));
        }
        if ieq_word(s, &false_word) || ieq_word(s, &f_word) {
            return Ok(Value::Boolean(false));
        }
        match parse_i64(s) {
            Some(v) => { return Ok(Value::Integer(v)); },
            None => {},
        }
        match parse_u64(s) {
            Some(v) => { return Ok(Value::Unsigned(v)); },
            None => {},
        }
        if is_float_text(s) {
            return Ok(Value::Float(s.to_owned()));
        }
        let first = s.get_char(0);
        let last = s.get_char(n - 1);
        if (first == '"' && last == '"') || (first == '\'' && last == '\'') {
            return Ok(Value::String(s.substring_char(1, n - 1).to_owned()));
        }
        Ok(Value::String(s.to_owned()))
    }
}


// ----- lines -----

/// A result with a list put in front of what it holds, when it holds one.
pub open spec fn prepend<T>(a: Seq<T>, r: Result<Seq<T>, Seq<char>>) -> Result<Seq<T>, Seq<char>> {
    match r {
        Ok(x) => Ok(a + x),
        Err(m) => Err(m),
    }
}

/// A tag as written, `key=value`, already trimmed and not empty.
pub open spec fn tag_of(t: Seq<char>) -> Result<(Seq<char>, Seq<char>), Seq<char>> {
    match char_pos(t, '=') {
        None => Err("invalid tag format: "@ + t),
        Some(p) => if p == 0 {
            Err("empty tag key"@)
        } else if p + 1 == t.len() {
            Err("empty tag value"@)
        } else {
            Ok((t.subrange(0, p), t.subrange(p + 1, t.len() as int)))
        },
    }
}

/// The tags of the pieces between commas, in order: a piece that is blank
/// once trimmed is passed over; the first bad one is the error.
pub open spec fn tags_of(pieces: Seq<Seq<char>>) -> Result<Seq<(Seq<char>, Seq<char>)>, Seq<char>>
    decreases pieces.len(),
{
    if pieces.len() == 0 {
        Ok(Seq::empty())
    } else {
        let t = trim_seq(pieces[0]);
        let rest = tags_of(pieces.drop_first());
        if t.len() == 0 {
            rest
        } else {
            match tag_of(t) {
                Err(m) => Err(m),
                Ok(p) => prepend(seq![p], rest),
            }
        }
    }
}

/// Reads the tags after the measurement name, after the parser's default tags.
fn parse_tags(defaults: &Vec<(String, String)>, tags_str: &str) -> (r: Result<Vec<(String, String)>, Error>)
    ensures
        match prepend(pairs(defaults@), tags_of(split_on(tags_str@, ','))) {
            Ok(t) => r matches Ok(v) && pairs(v@) == t,
            Err(m) => r matches Err(Error::Parse(e)) && e@ == m,
        },
{
    let parts = split_char(tags_str, ',');
    let ghost all = strings(parts@);
    let mut tags: Vec<(String, String)> = Vec::new();
    append_pairs(&mut tags, defaults);
    proof { assert(pairs(tags@) =~= pairs(defaults@)); assert(all.subrange(0, all.len() as int) =~= all); }
    let n = parts.len();
    let mut i: usize = 0;
    while i < n
        invariant
            n == parts@.len(),
            all == strings(parts@),
            all == split_on(tags_str@, ','),
            i <= n,
            prepend(pairs(tags@), tags_of(all.subrange(i as int, n as int))) == prepend(pairs(defaults@), tags_of(all)),
        decreases n - i,
    {
        let ghost ps = all.subrange(i as int, n as int);
        let ghost acc = pairs(tags@);
        proof { assert(ps.drop_first() =~= all.subrange(i + 1, n as int)); }
        let t = trim(parts[i].as_str());
        let tn = t.unicode_len();
        if tn > 0 {
            match find_char(t.as_str(), '=') {
                None => {
                    return Err(parse_error("invalid tag format: ", t.as_str()));
                },
                Some(p) => {
                    if p == 0 {
                        return Err(Error::Parse("empty tag key".to_owned()));
                    }
                    if p + 1 == tn {
                        return Err(Error::Parse("empty tag value".to_owned()));
                    }
                    let key = t.as_str().substring_char(0, p).to_owned();
                    let value = t.as_str().substring_char(p + 1, tn).to_owned();
                    proof {
                        assert(pairs(tags@.push((key, value))) =~= acc.push((key@, value@)));
                        match tags_of(ps.drop_first()) {
                            Ok(x) => { assert(acc + (seq![(key@, value@)] + x) =~= acc.push((key@, value@)) + x); },
                            Err(_) => {},
                        }
                    }
                    tags.push((key, value));
                },
            }
        }
        i = i + 1;
    }
    proof { assert(all.subrange(n as int, n as int) =~= Seq::<Seq<char>>::empty()); assert(pairs(tags@) + Seq::empty() =~= pairs(tags@)); }
    Ok(tags)
}


/// The characters of each field name, with the abstract value.
pub open spec fn field_pairs(v: Seq<(String, Value)>) -> Seq<(Seq<char>, ValueView)> {
    v.map_values(|p: (String, Value)| (p.0@, p.1@))
}

/// An optional result with a list put in front of what it holds.
pub open spec fn prepend_some<T>(a: Seq<T>, r: Option<Result<Seq<T>, Seq<char>>>) -> Option<Result<Seq<T>, Seq<char>>> {
    match r {
        None => None,
        Some(x) => Some(prepend(a, x)),
    }
}

/// A field as written, `key=value`, already trimmed and not empty; `None`
/// where its value is a lone quote.
pub open spec fn field_of(t: Seq<char>) -> Option<Result<(Seq<char>, ValueView), Seq<char>>> {
    match char_pos(t, '=') {
        None => Some(Err("invalid field format: "@ + t)),
        Some(p) => if p == 0 {
            Some(Err("empty field key"@))
        } else if p + 1 == t.len() {
            Some(Err("empty field value"@))
        } else {
            match field_value_of(t.subrange(p + 1, t.len() as int)) {
                None => None,
                Some(Err(m)) => Some(Err(m)),
                Some(Ok(v)) => Some(Ok((t.subrange(0, p), v))),
            }
        },
    }
}

/// The fields of the pieces between commas, in order, as `tags_of` reads
/// tags; `None` where a lone quote is reached.
pub open spec fn fields_of(pieces: Seq<Seq<char>>) -> Option<Result<Seq<(Seq<char>, ValueView)>, Seq<char>>>
    decreases pieces.len(),
{
    if pieces.len() == 0 {
        Some(Ok(Seq::empty()))
    } else {
        let t = trim_seq(pieces[0]);
        let rest = fields_of(pieces.drop_first());
        if t.len() == 0 {
            rest
        } else {
            match field_of(t) {
                None => None,
                Some(Err(m)) => Some(Err(m)),
                Some(Ok(f)) => prepend_some(seq![f], rest),
            }
        }
    }
}

/// The fields of a line: there must be text, and at least one field in it.
pub open spec fn fields_text(s: Seq<char>) -> Option<Result<Seq<(Seq<char>, ValueView)>, Seq<char>>> {
    if s.len() == 0 {
        Some(Err("empty fields"@))
    } else {
        match fields_of(split_on(s, ',')) {
            Some(Ok(f)) => if f.len() == 0 { Some(Err("at least one field is required"@)) } else { Some(Ok(f)) },
            other => other,
        }
    }
}

/// Reads a field value, or gives `None` for a lone quote.
fn field_value(value_str: &str) -> (r: Option<Result<Value, Error>>)
    ensures
        match field_value_of(value_str@) {
            None => r is None,
            Some(Ok(v)) => r matches Some(Ok(x)) && x@ == v,
            Some(Err(m)) => r matches Some(Err(Error::Parse(e))) && e@ == m,
        },
{
    let n = value_str.unicode_len();
    if n == 1 {
        let c = value_str.get_char(0);
        if c == '"' || c == '\'' {
            proof {
                let v = value_str@;
                assert(v =~= seq![c]);
                assert(digit_run(v, 0) == 0);
                assert(digit_run(v.skip(1), 0) == 0);
                assert(!float_text(v));
            }
            return None;
        }
    }
    Some(parse_field_value(value_str))
}

/// Reads the fields of a line; `None` where a lone quote is reached.
fn parse_fields(fields_str: &str) -> (r: Option<Result<Vec<(String, Value)>, Error>>)
    ensures
        match fields_text(fields_str@) {
            None => r is None,
            Some(Ok(f)) => r matches Some(Ok(v)) && field_pairs(v@) == f,
            Some(Err(m)) => r matches Some(Err(Error::Parse(e))) && e@ == m,
        },
{
    if fields_str.unicode_len() == 0 {
        return Some(Err(Error::Parse("empty fields".to_owned())));
    }
    let parts = split_char(fields_str, ',');
    let ghost all = strings(parts@);
    let mut fields: Vec<(String, Value)> = Vec::new();
    proof { assert(field_pairs(fields@) + Seq::empty() =~= Seq::<(Seq<char>, ValueView)>::empty()); assert(all.subrange(0, all.len() as int) =~= all); }
    let n = parts.len();
    let mut i: usize = 0;
    while i < n
        invariant
            n == parts@.len(),
            all == strings(parts@),
            all == split_on(fields_str@, ','),
            i <= n,
            prepend_some(field_pairs(fields@), fields_of(all.subrange(i as int, n as int))) == prepend_some(Seq::empty(), fields_of(all)),
        decreases n - i,
    {
        let ghost ps = all.subrange(i as int, n as int);
        let ghost acc = field_pairs(fields@);
        proof { assert(ps.drop_first() =~= all.subrange(i + 1, n as int)); }
        let t = trim(parts[i].as_str());
        let tn = t.unicode_len();
        if tn > 0 {
            match find_char(t.as_str(), '=') {
                None => {
                    return Some(Err(parse_error("invalid field format: ", t.as_str())));
                },
                Some(p) => {
                    if p == 0 {
                        return Some(Err(Error::Parse("empty field key".to_owned())));
                    }
                    if p + 1 == tn {
                        return Some(Err(Error::Parse("empty field value".to_owned())));
                    }
                    let key = t.as_str().substring_char(0, p).to_owned();
                    let value_text = t.as_str().substring_char(p + 1, tn);
                    match field_value(value_text) {
                        None => { return None; },
                        Some(Err(e)) => { return Some(Err(e)); },
                        Some(Ok(value)) => {
                            proof {
                                assert(field_pairs(fields@.push((key, value))) =~= acc.push((key@, value@)));
                                match fields_of(ps.drop_first()) {
                                    Some(Ok(x)) => { assert(acc + (seq![(key@, value@)] + x) =~= acc.push((key@, value@)) + x); },
                                    _ => {},
                                }
                            }
                            fields.push((key, value));
                        },
                    }
                },
            }
        }
        i = i + 1;
    }
    proof {
        assert(all.subrange(n as int, n as int) =~= Seq::<Seq<char>>::empty());
        assert(field_pairs(fields@) + Seq::empty() =~= field_pairs(fields@));
        match fields_of(all) {
            Some(Ok(x)) => { assert(Seq::<(Seq<char>, ValueView)>::empty() + x =~= x); },
            _ => {},
        }
    }
    if fields.len() == 0 {
        return Some(Err(Error::Parse("at least one field is required".to_owned())));
    }
    Some(Ok(fields))
}


/// The timestamp of a line: the default where none is written.
pub open spec fn timestamp_of(default_timestamp: i64, s: Seq<char>) -> Result<i64, Seq<char>> {
    if s.len() == 0 {
        Ok(default_timestamp)
    } else {
        match i64_of_text(s) {
            Some(v) => Ok(v),
            None => Err("invalid timestamp: "@ + s),
        }
    }
}

/// A line as read: the measurement, the tags (the defaults first), the
/// fields and the timestamp.
pub struct ParsedLineView {
    pub measurement: Seq<char>,
    pub tags: Seq<(Seq<char>, Seq<char>)>,
    pub fields: Seq<(Seq<char>, ValueView)>,
    pub timestamp: i64,
}

/// What a parser with the given defaults reads from a line, trimmed: a
/// blank line or a comment is an error; the measurement and its tags end at
/// the first space, and the timestamp, if any, follows the last one.
/// `None` where a field's value is a lone quote.
pub open spec fn line_of(default_tags: Seq<(Seq<char>, Seq<char>)>, default_timestamp: i64, raw: Seq<char>)
    -> Option<Result<ParsedLineView, Seq<char>>>
{
    let line = trim_seq(raw);
    if line.len() == 0 || line[0] == '#' {
        Some(Err("empty line or comment"@))
    } else {
        match char_pos(line, ' ') {
            None => Some(Err("missing space after measurement"@)),
            Some(sp) => {
                let head = line.subrange(0, sp);
                let tail = line.subrange(sp + 1, line.len() as int);
                let measurement = match char_pos(head, ',') { Some(c) => head.subrange(0, c), None => head };
                let tags_str = match char_pos(head, ',') { Some(c) => head.subrange(c + 1, head.len() as int), None => Seq::empty() };
                let fields_str = match char_rpos(tail, ' ') { Some(q) => tail.subrange(0, q), None => tail };
                let ts_str = match char_rpos(tail, ' ') { Some(q) => tail.subrange(q + 1, tail.len() as int), None => Seq::empty() };
                if measurement.len() == 0 {
                    Some(Err("empty measurement name"@))
                } else {
                    match prepend(default_tags, tags_of(split_on(tags_str, ','))) {
                        Err(m) => Some(Err(m)),
                        Ok(tags) => match fields_text(fields_str) {
                            None => None,
                            Some(Err(m)) => Some(Err(m)),
                            Some(Ok(fields)) => match timestamp_of(default_timestamp, ts_str) {
                                Err(m) => Some(Err(m)),
                                Ok(ts) => Some(Ok(ParsedLineView { measurement, tags, fields, timestamp: ts })),
                            },
                        },
                    }
                }
            },
        }
    }
}

/// A line of the line protocol, as read.
#[derive(Debug, Clone)]
pub struct ParsedLine {
    pub measurement: String,
    pub tags: Vec<(String, String)>,
    pub fields: Vec<(String, Value)>,
    pub timestamp: i64,
}

impl View for ParsedLine {
    type V = ParsedLineView;

    open spec fn view(&self) -> ParsedLineView {
        ParsedLineView {
            measurement: self.measurement@,
            tags: pairs(self.tags@),
            fields: field_pairs(self.fields@),
            timestamp: self.timestamp,
        }
    }
}

/// Whether a result of reading a line is what the abstract reading says.
pub open spec fn parse_outcome(r: Result<ParsedLine, Error>, expected: Result<ParsedLineView, Seq<char>>) -> bool {
    match expected {
        Ok(p) => r matches Ok(x) && x@ == p,
        Err(m) => r matches Err(Error::Parse(e)) && e@ == m,
    }
}

/// Reads lines of the line protocol, with default tags and a default
/// timestamp.
pub struct LineProtocolParser {
    pub default_timestamp: i64,
    pub default_tags: Vec<(String, String)>,
}

impl LineProtocolParser {
    /// A parser with timestamp 0 and no default tags.
    pub fn new() -> (p: Self)
        ensures
            p.default_timestamp == 0,
            p.default_tags@.len() == 0,
    {
        LineProtocolParser { default_timestamp: 0, default_tags: Vec::new() }
    }

    /// The parser with these default tags in place of its own.
    pub fn with_default_tags(self, tags: Vec<(String, String)>) -> (p: Self)
        ensures
            p.default_timestamp == self.default_timestamp,
            p.default_tags@ == tags@,
    {
        LineProtocolParser { default_timestamp: self.default_timestamp, default_tags: tags }
    }

    /// The parser with this default timestamp.
    pub fn with_default_timestamp(self, timestamp: i64) -> (p: Self)
        ensures
            p.default_timestamp == timestamp,
            p.default_tags@ == self.default_tags@,
    {
        LineProtocolParser { default_timestamp: timestamp, default_tags: self.default_tags }
    }

    /// What this parser reads from a line.
    pub open spec fn reading(&self, line: Seq<char>) -> Option<Result<ParsedLineView, Seq<char>>> {
        line_of(pairs(self.default_tags@), self.default_timestamp, line)
    }

    /// Reads a line, or gives `None` where a field's value is a lone quote,
    /// which has no inside to take.
    pub fn try_parse(&self, line: &str) -> (r: Option<Result<ParsedLine, Error>>)
        ensures
            match self.reading(line@) {
                None => r is None,
                Some(x) => r matches Some(y) && parse_outcome(y, x),
            },
    {
        let t = trim(line);
        let n = t.unicode_len();
        if n == 0 || t.as_str().get_char(0) == '#' {
            return Some(Err(Error::Parse("empty line or comment".to_owned())));
        }
        let l = t.as_str();
        let sp = match find_char(l, ' ') {
            None => { return Some(Err(Error::Parse("missing space after measurement".to_owned()))); },
            Some(sp) => sp,
        };
        let head = l.substring_char(0, sp);
        let tail = l.substring_char(sp + 1, n);
        let hn = head.unicode_len();
        let (measurement, tags_str) = match find_char(head, ',') {
            Some(c) => (head.substring_char(0, c), head.substring_char(c + 1, hn)),
            None => (head, ""),
        };
        proof { reveal_strlit(""); }
        if measurement.unicode_len() == 0 {
            return Some(Err(Error::Parse("empty measurement name".to_owned())));
        }
        let tn = tail.unicode_len();
        let (fields_str, ts_str) = match rfind_char(tail, ' ') {
            Some(q) => (tail.substring_char(0, q), tail.substring_char(q + 1, tn)),
            None => (tail, ""),
        };
        proof {
            let lv = trim_seq(line@);
            assert(l@ == lv);
            assert(head@ == lv.subrange(0, sp as int));
            assert(tail@ == lv.subrange(sp + 1, lv.len() as int));
            assert(tags_str@ == (match char_pos(head@, ',') { Some(c) => head@.subrange(c + 1, head@.len() as int), None => Seq::empty() }));
            assert(fields_str@ == (match char_rpos(tail@, ' ') { Some(q) => tail@.subrange(0, q), None => tail@ }));
            assert(ts_str@ == (match char_rpos(tail@, ' ') { Some(q) => tail@.subrange(q + 1, tail@.len() as int), None => Seq::empty() }));
        }
        let tags = match parse_tags(&self.default_tags, tags_str) {
            Ok(t) => t,
            Err(e) => { return Some(Err(e)); },
        };
        let fields = match parse_fields(fields_str) {
            None => { return None; },
            Some(Err(e)) => { return Some(Err(e)); },
            Some(Ok(f)) => f,
        };
        let timestamp = if ts_str.unicode_len() == 0 {
            self.default_timestamp
        } else {
            match parse_i64(ts_str) {
                Some(v) => v,
                None => { return Some(Err(parse_error("invalid timestamp: ", ts_str))); },
            }
        };
        Some(Ok(ParsedLine { measurement: measurement.to_owned(), tags, fields, timestamp }))
    }

    /// Reads a line.
    pub fn parse(&self, line: &str) -> (r: Result<ParsedLine, Error>)
        requires
            self.reading(line@) is Some,
        ensures
            parse_outcome(r, self.reading(line@).unwrap()),
    {
        match self.try_parse(line) {
            Some(r) => r,
            None => Err(Error::Parse("lone quote".to_owned())),
        }
    }
}


/// What a parser with the given defaults reads from the lines between
/// newlines, in order: a line that is blank once trimmed, or a comment, is
/// passed over; the first bad line is the error.
pub open spec fn lines_of(default_tags: Seq<(Seq<char>, Seq<char>)>, default_timestamp: i64, pieces: Seq<Seq<char>>)
    -> Option<Result<Seq<ParsedLineView>, Seq<char>>>
    decreases pieces.len(),
{
    if pieces.len() == 0 {
        Some(Ok(Seq::empty()))
    } else {
        let t = trim_seq(pieces[0]);
        let rest = lines_of(default_tags, default_timestamp, pieces.drop_first());
        if t.len() == 0 || t[0] == '#' {
            rest
        } else {
            match line_of(default_tags, default_timestamp, t) {
                None => None,
                Some(Err(m)) => Some(Err(m)),
                Some(Ok(p)) => prepend_some(seq![p], rest),
            }
        }
    }
}

/// The lines to read among pieces of text, trimmed, in order: those that
/// are neither blank nor a comment.
pub open spec fn kept_lines(pieces: Seq<Seq<char>>) -> Seq<Seq<char>>
    decreases pieces.len(),
{
    if pieces.len() == 0 {
        Seq::empty()
    } else {
        let t = trim_seq(pieces[0]);
        if t.len() == 0 || t[0] == '#' {
            kept_lines(pieces.drop_first())
        } else {
            seq![t] + kept_lines(pieces.drop_first())
        }
    }
}

/// What a line reads as, where it reads.
pub open spec fn read_line(dt: Seq<(Seq<char>, Seq<char>)>, ts: i64, l: Seq<char>) -> ParsedLineView {
    match line_of(dt, ts, l) {
        Some(Ok(p)) => p,
        _ => arbitrary(),
    }
}

/// The error of a line that fails to read.
pub open spec fn line_error(dt: Seq<(Seq<char>, Seq<char>)>, ts: i64, l: Seq<char>) -> Seq<char> {
    match line_of(dt, ts, l) {
        Some(Err(m)) => m,
        _ => arbitrary(),
    }
}

/// Reading many lines is reading each kept line on its own: when every
/// kept line reads, the result is their readings in order; when a kept
/// line is the first one that fails, the result is its error.
pub proof fn law_lines_read_one_by_one(dt: Seq<(Seq<char>, Seq<char>)>, ts: i64, pieces: Seq<Seq<char>>)
    ensures
        (forall|i: int| 0 <= i < kept_lines(pieces).len() ==> #[trigger] line_of(dt, ts, kept_lines(pieces)[i]) matches Some(Ok(_)))
            ==> lines_of(dt, ts, pieces) == Some(Ok::<Seq<ParsedLineView>, Seq<char>>(kept_lines(pieces).map_values(|l: Seq<char>| read_line(dt, ts, l)))),
        forall|j: int| 0 <= j < kept_lines(pieces).len()
            && (#[trigger] line_of(dt, ts, kept_lines(pieces)[j]) matches Some(Err(_)))
            && (forall|i: int| 0 <= i < j ==> #[trigger] line_of(dt, ts, kept_lines(pieces)[i]) matches Some(Ok(_)))
            ==> lines_of(dt, ts, pieces) == Some(Err::<Seq<ParsedLineView>, Seq<char>>(line_error(dt, ts, kept_lines(pieces)[j]))),
    decreases pieces.len(),
{
    if pieces.len() == 0 {
        assert(kept_lines(pieces).map_values(|l: Seq<char>| read_line(dt, ts, l)) =~= Seq::<ParsedLineView>::empty());
    } else {
        let rest = pieces.drop_first();
        law_lines_read_one_by_one(dt, ts, rest);
        let k = kept_lines(pieces);
        let kr = kept_lines(rest);
        let t = trim_seq(pieces[0]);
        if t.len() == 0 || t[0] == '#' {
            assert(k == kr);
            assert(lines_of(dt, ts, pieces) == lines_of(dt, ts, rest));
        } else {
            assert(k == seq![t] + kr);
            assert forall|i: int| 0 <= i < kr.len() implies k[i + 1] == kr[i] by {}
            if forall|i: int| 0 <= i < k.len() ==> #[trigger] line_of(dt, ts, k[i]) matches Some(Ok(_)) {
                assert forall|i: int| 0 <= i < kr.len() implies #[trigger] line_of(dt, ts, kr[i]) matches Some(Ok(_)) by {
                    assert(line_of(dt, ts, k[i + 1]) matches Some(Ok(_)));
                }
                assert(line_of(dt, ts, k[0]) matches Some(Ok(_)));
                assert(k.map_values(|l: Seq<char>| read_line(dt, ts, l))
                    =~= seq![read_line(dt, ts, t)] + kr.map_values(|l: Seq<char>| read_line(dt, ts, l)));
            }
            assert forall|j: int| 0 <= j < k.len()
                && (#[trigger] line_of(dt, ts, k[j]) matches Some(Err(_)))
                && (forall|i: int| 0 <= i < j ==> #[trigger] line_of(dt, ts, k[i]) matches Some(Ok(_)))
                implies lines_of(dt, ts, pieces) == Some(Err::<Seq<ParsedLineView>, Seq<char>>(line_error(dt, ts, k[j]))) by {
                if j > 0 {
                    assert(line_of(dt, ts, k[0]) matches Some(Ok(_)));
                    assert(kr[j - 1] == k[j]);
                    assert forall|i: int| 0 <= i < j - 1 implies #[trigger] line_of(dt, ts, kr[i]) matches Some(Ok(_)) by {
                        assert(line_of(dt, ts, k[i + 1]) matches Some(Ok(_)));
                    }
                }
            }
        }
    }
}

/// The abstract lines of a list of read lines.
pub open spec fn lines_view(v: Seq<ParsedLine>) -> Seq<ParsedLineView> {
    v.map_values(|p: ParsedLine| p@)
}

impl LineProtocolParser {
    /// What this parser reads from the lines of a text.
    pub open spec fn reading_all(&self, input: Seq<char>) -> Option<Result<Seq<ParsedLineView>, Seq<char>>> {
        lines_of(pairs(self.default_tags@), self.default_timestamp, split_on(input, '\n'))
    }

    /// Reads every line of a text that is neither blank nor a comment.
    pub fn parse_multiple(&self, input: &str) -> (r: Result<Vec<ParsedLine>, Error>)
        requires
            self.reading_all(input@) is Some,
        ensures
            match self.reading_all(input@).unwrap() {
                Ok(ps) => r matches Ok(v) && lines_view(v@) == ps,
                Err(m) => r matches Err(Error::Parse(e)) && e@ == m,
            },
    {
        let parts = split_char(input, '\n');
        let ghost all = strings(parts@);
        let mut lines: Vec<ParsedLine> = Vec::new();
        proof { assert(lines_view(lines@) + Seq::empty() =~= Seq::<ParsedLineView>::empty()); assert(all.subrange(0, all.len() as int) =~= all); }
        let n = parts.len();
        let mut i: usize = 0;
        while i < n
            invariant
                n == parts@.len(),
                all == strings(parts@),
                all == split_on(input@, '\n'),
                i <= n,
                self.reading_all(input@) is Some,
                prepend_some(lines_view(lines@), lines_of(pairs(self.default_tags@), self.default_timestamp, all.subrange(i as int, n as int)))
                    == prepend_some(Seq::empty(), self.reading_all(input@)),
            decreases n - i,
        {
            let ghost ps = all.subrange(i as int, n as int);
            let ghost acc = lines_view(lines@);
            proof { assert(ps.drop_first() =~= all.subrange(i + 1, n as int)); }
            let t = trim(parts[i].as_str());
            if t.unicode_len() > 0 && t.as_str().get_char(0) != '#' {
                match self.try_parse(t.as_str()) {
                    None => {
                        proof { assert(false); }
                        return Err(Error::Parse("lone quote".to_owned()));
                    },
                    Some(Err(e)) => { return Err(e); },
                    Some(Ok(p)) => {
                        proof {
                            assert(lines_view(lines@.push(p)) =~= acc.push(p@));
                            match lines_of(pairs(self.default_tags@), self.default_timestamp, ps.drop_first()) {
                                Some(Ok(x)) => { assert(acc + (seq![p@] + x) =~= acc.push(p@) + x); },
                                _ => {},
                            }
                        }
                        lines.push(p);
                    },
                }
            }
            i = i + 1;
        }
        proof {
            assert(all.subrange(n as int, n as int) =~= Seq::<Seq<char>>::empty());
            assert(lines_view(lines@) + Seq::empty() =~= lines_view(lines@));
            match self.reading_all(input@) {
                Some(Ok(x)) => { assert(Seq::<ParsedLineView>::empty() + x =~= x); },
                _ => {},
            }
        }
        Ok(lines)
    }
}

impl Default for LineProtocolParser {
    fn default() -> (p: Self)
        ensures
            p.default_timestamp == 0,
            p.default_tags@.len() == 0,
    {
        LineProtocolParser::new()
    }
}

} // verus!
