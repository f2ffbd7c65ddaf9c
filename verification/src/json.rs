//! Reading one JSON object from one line: the inverse of the serializers in
//! `ipc`. The accepted shape is a single flat object whose member values are
//! strings (with the escapes the serializer emits, plus `\/`), unsigned
//! integers, `true`, `false` or `null`; whitespace may stand between tokens.
//! When a member name repeats, the first occurrence wins.
use vstd::prelude::*;

verus! {

use vstd::string::StrSliceExecFns;
use vstd::string::StringExecFns;
use crate::text::is_space_char;
use crate::text::is_digit_char;
use crate::text::dec_value;
use crate::text::parse_u64_range;

/// One member value.
#[derive(Debug, Clone, PartialEq, Eq)]
pub enum JsonValue {
    Text(String),
    UInt(u64),
    Truth(bool),
    Nothing,
}

/// The ghost image of a member value.
pub enum JsonValueModel {
    Text(Seq<char>),
    UInt(nat),
    Truth(bool),
    Nothing,
}

pub open spec fn value_model(v: JsonValue) -> JsonValueModel {
    match v {
        JsonValue::Text(s) => JsonValueModel::Text(s@),
        JsonValue::UInt(n) => JsonValueModel::UInt(n as nat),
        JsonValue::Truth(b) => JsonValueModel::Truth(b),
        JsonValue::Nothing => JsonValueModel::Nothing,
    }
}

pub open spec fn pairs_model(ps: Seq<(String, JsonValue)>) -> Seq<(Seq<char>, JsonValueModel)> {
    Seq::new(ps.len(), |i: int| (ps[i].0@, value_model(ps[i].1)))
}

/// The whitespace JSON allows between tokens: space, tab, line feed and
/// carriage return, exactly the set the JSON grammar names.
pub open spec fn is_json_space(c: char) -> bool {
    c == ' ' || c == '\t' || c == '\n' || c == '\r'
}

/// The first index at or after `i` that does not hold JSON whitespace.
pub open spec fn sp_ws(s: Seq<char>, i: int) -> int
    decreases s.len() - i,
{
    if 0 <= i < s.len() && is_json_space(s[i]) {
        sp_ws(s, i + 1)
    } else {
        i
    }
}

pub proof fn lemma_sp_ws(s: Seq<char>, i: int)
    requires
        0 <= i <= s.len(),
    ensures
        i <= sp_ws(s, i) <= s.len(),
    decreases s.len() - i,
{
    if i < s.len() && is_json_space(s[i]) {
        lemma_sp_ws(s, i + 1);
    }
}

/// What a backslash escape stands for.
pub open spec fn sp_unescape(c: char) -> Option<char> {
    if c == '"' {
        Option::Some('"')
    } else if c == '\\' {
        Option::Some('\\')
    } else if c == '/' {
        Option::Some('/')
    } else if c == 'n' {
        Option::Some('\n')
    } else if c == 'r' {
        Option::Some('\r')
    } else if c == 't' {
        Option::Some('\t')
    } else {
        Option::None
    }
}

/// The contents of a string literal starting right after its opening quote
/// at `i`, and the index right after its closing quote.
pub open spec fn sp_string_body(s: Seq<char>, i: int) -> Option<(Seq<char>, int)>
    decreases s.len() - i,
{
    if i < 0 || i >= s.len() {
        Option::None
    } else if s[i] == '"' {
        Option::Some((Seq::empty(), i + 1))
    } else if s[i] == '\\' {
        if i + 1 < s.len() {
            match sp_unescape(s[i + 1]) {
                Option::Some(c) => match sp_string_body(s, i + 2) {
                    Option::Some(rest) => Option::Some((seq![c] + rest.0, rest.1)),
                    Option::None => Option::None,
                },
                Option::None => Option::None,
            }
        } else {
            Option::None
        }
    } else {
        match sp_string_body(s, i + 1) {
            Option::Some(rest) => Option::Some((seq![s[i]] + rest.0, rest.1)),
            Option::None => Option::None,
        }
    }
}

pub proof fn lemma_sp_string_body(s: Seq<char>, i: int)
    requires
        0 <= i,
    ensures
        match sp_string_body(s, i) {
            Option::Some(r) => i < r.1 <= s.len(),
            Option::None => true,
        },
    decreases s.len() - i,
{
    if 0 <= i < s.len() {
        if s[i] == '\\' && i + 1 < s.len() {
            lemma_sp_string_body(s, i + 2);
        } else if s[i] != '"' {
            lemma_sp_string_body(s, i + 1);
        }
    }
}

/// Reading a string literal from position `i` is reading it from the start
/// of the unread suffix, with every index shifted back.
proof fn lemma_body_skip(t: Seq<char>, i: int)
    requires
        0 <= i <= t.len(),
    ensures
        sp_string_body(t, i) == match sp_string_body(t.skip(i), 0) {
            Option::Some(r) => Option::Some((r.0, r.1 + i)),
            Option::None => Option::<(Seq<char>, int)>::None,
        },
    decreases t.len() - i,
{
    let u = t.skip(i);
    if i >= t.len() {
        assert(sp_string_body(u, 0) is None);
    } else {
        assert(u[0] == t[i]);
        if t[i] == '"' {
        } else if t[i] == '\\' {
            if i + 1 < t.len() {
                assert(u[1] == t[i + 1]);
                match sp_unescape(t[i + 1]) {
                    Option::Some(c) => {
                        lemma_body_skip(t, i + 2);
                        lemma_body_skip(u, 2);
                        assert(t.skip(i + 2) =~= u.skip(2));
                    },
                    Option::None => {},
                }
            } else {
                assert(u.len() == 1);
            }
        } else {
            lemma_body_skip(t, i + 1);
            lemma_body_skip(u, 1);
            assert(t.skip(i + 1) =~= u.skip(1));
        }
    }
}

/// Reading back a written string literal recovers the text: the escaped
/// form of `s` between its quotes parses to exactly `s`, whatever follows
/// the closing quote.
pub proof fn lemma_string_escape_round_trip(s: Seq<char>, rest: Seq<char>)
    ensures
        sp_string_body(crate::text::escape_chars(s) + seq!['"'] + rest, 0) == Option::Some(
            (s, crate::text::escape_chars(s).len() + 1int),
        ),
    decreases s.len(),
{
    let t = crate::text::escape_chars(s) + seq!['"'] + rest;
    if s.len() == 0 {
        assert(crate::text::escape_chars(s) =~= Seq::<char>::empty());
        assert(t[0] == '"');
        assert(sp_string_body(t, 0) == Option::Some((Seq::<char>::empty(), 1int)));
        assert(Seq::<char>::empty() =~= s);
    } else {
        let c = s[0];
        let e = crate::text::escape_char(c);
        let tail = s.drop_first();
        let t2 = crate::text::escape_chars(tail) + seq!['"'] + rest;
        assert(t =~= e + t2);
        lemma_string_escape_round_trip(tail, rest);
        if c == '\\' || c == '"' || c == '\n' || c == '\r' || c == '\t' {
            assert(e.len() == 2 && e[0] == '\\');
            assert(t[0] == '\\');
            assert(t[1] == e[1]);
            assert(sp_unescape(e[1]) == Option::Some(c));
            assert(t.len() >= 2);
            lemma_body_skip(t, 2);
            assert(t.skip(2) =~= t2);
            assert(sp_string_body(t, 2) == Option::Some(
                (tail, crate::text::escape_chars(tail).len() + 3int),
            ));
            assert(seq![c] + tail =~= s);
            assert(crate::text::escape_chars(s).len() == 2 + crate::text::escape_chars(
                tail,
            ).len());
        } else {
            assert(e =~= seq![c]);
            assert(t[0] == c);
            lemma_body_skip(t, 1);
            assert(t.skip(1) =~= t2);
            assert(sp_string_body(t, 1) == Option::Some(
                (tail, crate::text::escape_chars(tail).len() + 2int),
            ));
            assert(seq![c] + tail =~= s);
            assert(crate::text::escape_chars(s).len() == 1 + crate::text::escape_chars(
                tail,
            ).len());
        }
    }
}

/// The first index at or after `i` that does not hold a decimal digit.
pub open spec fn sp_digits_end(s: Seq<char>, i: int) -> int
    decreases s.len() - i,
{
    if 0 <= i < s.len() && is_digit_char(s[i]) {
        sp_digits_end(s, i + 1)
    } else {
        i
    }
}

pub proof fn lemma_sp_digits_end(s: Seq<char>, i: int)
    requires
        0 <= i <= s.len(),
    ensures
        i <= sp_digits_end(s, i) <= s.len(),
        forall|k: int| i <= k < sp_digits_end(s, i) ==> is_digit_char(s[k]),
    decreases s.len() - i,
{
    if i < s.len() && is_digit_char(s[i]) {
        lemma_sp_digits_end(s, i + 1);
    }
}

/// One member value starting at `i`, and the index right after it.
pub open spec fn sp_value(s: Seq<char>, i: int) -> Option<(JsonValueModel, int)> {
    if i < 0 || i >= s.len() {
        Option::None
    } else if s[i] == '"' {
        match sp_string_body(s, i + 1) {
            Option::Some(r) => Option::Some((JsonValueModel::Text(r.0), r.1)),
            Option::None => Option::None,
        }
    } else if is_digit_char(s[i]) {
        let e = sp_digits_end(s, i);
        if dec_value(s.subrange(i, e)) > u64::MAX {
            Option::None
        } else {
            Option::Some((JsonValueModel::UInt(dec_value(s.subrange(i, e))), e))
        }
    } else if i + 4 <= s.len() && s.subrange(i, i + 4) == "true"@ {
        Option::Some((JsonValueModel::Truth(true), i + 4))
    } else if i + 5 <= s.len() && s.subrange(i, i + 5) == "false"@ {
        Option::Some((JsonValueModel::Truth(false), i + 5))
    } else if i + 4 <= s.len() && s.subrange(i, i + 4) == "null"@ {
        Option::Some((JsonValueModel::Nothing, i + 4))
    } else {
        Option::None
    }
}

pub proof fn lemma_sp_value(s: Seq<char>, i: int)
    requires
        0 <= i,
    ensures
        match sp_value(s, i) {
            Option::Some(r) => i < r.1 <= s.len(),
            Option::None => true,
        },
{
    if 0 <= i < s.len() {
        if s[i] == '"' {
            lemma_sp_string_body(s, i + 1);
        } else if is_digit_char(s[i]) {
            lemma_sp_digits_end(s, i);
            lemma_sp_digits_end(s, i + 1);
            assert(sp_digits_end(s, i) == sp_digits_end(s, i + 1));
        }
    }
}

/// The members from the start of a name-value pair at `i` (whitespace
/// already skipped) up to and including the closing brace, and the index
/// right after that brace.
pub open spec fn sp_members(s: Seq<char>, i: int) -> Option<
    (Seq<(Seq<char>, JsonValueModel)>, int),
>
    decreases s.len() - i,
{
    if i < 0 || i >= s.len() || s[i] != '"' {
        Option::None
    } else {
        match sp_string_body(s, i + 1) {
            Option::None => Option::None,
            Option::Some(name) => {
                proof {
                    lemma_sp_string_body(s, i + 1);
                }
                let j2 = sp_ws(s, name.1);
                if j2 >= s.len() || s[j2] != ':' {
                    Option::None
                } else {
                    proof {
                        lemma_sp_ws(s, name.1);
                    }
                    let j3 = sp_ws(s, j2 + 1);
                    match sp_value(s, j3) {
                        Option::None => Option::None,
                        Option::Some(v) => {
                            proof {
                                lemma_sp_ws(s, j2 + 1);
                                lemma_sp_value(s, j3);
                            }
                            let j5 = sp_ws(s, v.1);
                            if j5 < s.len() && s[j5] == ',' {
                                proof {
                                    lemma_sp_ws(s, v.1);
                                    lemma_sp_ws(s, j5 + 1);
                                }
                                let j6 = sp_ws(s, j5 + 1);
                                match sp_members(s, j6) {
                                    Option::None => Option::None,
                                    Option::Some(rest) => Option::Some(
                                        (seq![(name.0, v.0)] + rest.0, rest.1),
                                    ),
                                }
                            } else if j5 < s.len() && s[j5] == '}' {
                                Option::Some((seq![(name.0, v.0)], j5 + 1))
                            } else {
                                Option::None
                            }
                        },
                    }
                }
            },
        }
    }
}

/// The members of the one object that `s` holds, with nothing but
/// whitespace around it; `None` when `s` is not such a line.
pub open spec fn sp_object(s: Seq<char>) -> Option<Seq<(Seq<char>, JsonValueModel)>> {
    let i = sp_ws(s, 0);
    if i >= s.len() || s[i] != '{' {
        Option::None
    } else {
        let k = sp_ws(s, i + 1);
        if k < s.len() && s[k] == '}' {
            if sp_ws(s, k + 1) == s.len() {
                Option::Some(Seq::empty())
            } else {
                Option::None
            }
        } else {
            match sp_members(s, k) {
                Option::None => Option::None,
                Option::Some(r) => {
                    if sp_ws(s, r.1) == s.len() {
                        Option::Some(r.0)
                    } else {
                        Option::None
                    }
                },
            }
        }
    }
}

/// Skips whitespace.
fn scan_ws(s: &str, i: usize) -> (r: usize)
    requires
        i <= s@.len(),
    ensures
        r == sp_ws(s@, i as int),
        i <= r <= s@.len(),
{
    let n: usize = s.unicode_len();
    let mut k: usize = i;
    while k < n && is_json_space_at(s, k)
        invariant
            i <= k <= n,
            n == s@.len(),
            sp_ws(s@, i as int) == sp_ws(s@, k as int),
        decreases n - k,
    {
        k = k + 1;
    }
    k
}

/// Whether position `k` of `s` holds JSON whitespace.
fn is_json_space_at(s: &str, k: usize) -> (r: bool)
    requires
        k < s@.len(),
    ensures
        r == is_json_space(s@[k as int]),
{
    let c = s.get_char(k);
    c == ' ' || c == '\t' || c == '\n' || c == '\r'
}

/// Reads a string literal's contents, `from` standing right after the
/// opening quote.
fn scan_string_body(s: &str, from: usize) -> (r: Option<(String, usize)>)
    requires
        from <= s@.len(),
    ensures
        match r {
            Option::Some(p) => sp_string_body(s@, from as int) matches Option::Some(q) && q.0
                == p.0@ && q.1 == p.1 && p.1 <= s@.len(),
            Option::None => sp_string_body(s@, from as int) is None,
        },
    decreases s@.len() - from,
{
    let n: usize = s.unicode_len();
    if from >= n {
        return Option::None;
    }
    let c = s.get_char(from);
    if c == '"' {
        return Option::Some((String::new(), from + 1));
    }
    if c == '\\' {
        if from + 1 >= n {
            return Option::None;
        }
        let e = s.get_char(from + 1);
        let unescaped: char = if e == '"' {
            '"'
        } else if e == '\\' {
            '\\'
        } else if e == '/' {
            '/'
        } else if e == 'n' {
            '\n'
        } else if e == 'r' {
            '\r'
        } else if e == 't' {
            '\t'
        } else {
            return Option::None;
        };
        proof {
            assert(sp_unescape(s@[from + 1]) == Option::Some(unescaped));
        }
        match scan_string_body(s, from + 2) {
            Option::None => Option::None,
            Option::Some(rest) => {
                let mut out = String::new();
                crate::text::push_char(&mut out, unescaped);
                out.append(rest.0.as_str());
                proof {
                    assert(out@ =~= seq![unescaped] + rest.0@);
                }
                Option::Some((out, rest.1))
            },
        }
    } else {
        match scan_string_body(s, from + 1) {
            Option::None => Option::None,
            Option::Some(rest) => {
                let mut out = String::new();
                crate::text::push_char(&mut out, c);
                out.append(rest.0.as_str());
                proof {
                    assert(out@ =~= seq![c] + rest.0@);
                }
                Option::Some((out, rest.1))
            },
        }
    }
}

/// Reads one member value.
fn scan_value(s: &str, from: usize) -> (r: Option<(JsonValue, usize)>)
    requires
        from <= s@.len(),
    ensures
        match r {
            Option::Some(p) => sp_value(s@, from as int) matches Option::Some(q) && q.0
                == value_model(p.0) && q.1 == p.1 && p.1 <= s@.len(),
            Option::None => sp_value(s@, from as int) is None,
        },
{
    let n: usize = s.unicode_len();
    if from >= n {
        return Option::None;
    }
    let c = s.get_char(from);
    if c == '"' {
        match scan_string_body(s, from + 1) {
            Option::None => Option::None,
            Option::Some(p) => Option::Some((JsonValue::Text(p.0), p.1)),
        }
    } else if '0' <= c && c <= '9' {
        let mut e: usize = from;
        while e < n && is_digit_at(s, e)
            invariant
                from <= e <= n,
                n == s@.len(),
                sp_digits_end(s@, from as int) == sp_digits_end(s@, e as int),
                forall|k: int| from <= k < e ==> is_digit_char(s@[k]),
            decreases n - e,
        {
            e = e + 1;
        }
        proof {
            assert(sp_digits_end(s@, e as int) == e);
            lemma_sp_digits_end(s@, from as int);
        }
        match parse_u64_range(s, from, e) {
            Option::None => {
                proof {
                    assert(e > from);
                    assert(forall|k: int|
                        from <= k < e ==> is_digit_char(
                            #[trigger] s@.subrange(from as int, e as int)[k - from],
                        ));
                    assert(dec_value(s@.subrange(from as int, e as int)) > u64::MAX);
                }
                Option::None
            },
            Option::Some(v) => Option::Some((JsonValue::UInt(v), e)),
        }
    } else {
        proof {
            reveal_strlit("true");
            reveal_strlit("false");
            reveal_strlit("null");
        }
        if literal_at(s, from, "true") {
            Option::Some((JsonValue::Truth(true), from + 4))
        } else if literal_at(s, from, "false") {
            Option::Some((JsonValue::Truth(false), from + 5))
        } else if literal_at(s, from, "null") {
            Option::Some((JsonValue::Nothing, from + 4))
        } else {
            Option::None
        }
    }
}

/// Whether position `e` of `s` holds a decimal digit.
fn is_digit_at(s: &str, e: usize) -> (r: bool)
    requires
        e < s@.len(),
    ensures
        r == is_digit_char(s@[e as int]),
{
    let d = s.get_char(e);
    '0' <= d && d <= '9'
}

/// Whether the keyword `lit` stands at position `from` of `s`.
fn literal_at(s: &str, from: usize, lit: &str) -> (r: bool)
    requires
        from <= s@.len(),
    ensures
        r == (from + lit@.len() <= s@.len() && s@.subrange(
            from as int,
            from + lit@.len(),
        ) == lit@),
{
    let n: usize = s.unicode_len();
    let m: usize = lit.unicode_len();
    if n - from < m {
        return false;
    }
    let mut k: usize = 0;
    while k < m
        invariant
            k <= m,
            m == lit@.len(),
            n == s@.len(),
            from + m <= n,
            forall|j: int| 0 <= j < k ==> s@[from + j] == lit@[j],
        decreases m - k,
    {
        if s.get_char(from + k) != lit.get_char(k) {
            proof {
                assert(s@.subrange(from as int, from + m) != lit@) by {
                    assert(s@.subrange(from as int, from + m)[k as int] != lit@[k as int]);
                }
            }
            return false;
        }
        k = k + 1;
    }
    proof {
        assert(s@.subrange(from as int, from + m) =~= lit@);
    }
    true
}

/// Reads the members of the object from the first pair on.
fn scan_members(s: &str, from: usize) -> (r: Option<(Vec<(String, JsonValue)>, usize)>)
    requires
        from <= s@.len(),
    ensures
        match r {
            Option::Some(p) => sp_members(s@, from as int) matches Option::Some(q) && q.0
                == pairs_model(p.0@) && q.1 == p.1 && p.1 <= s@.len(),
            Option::None => sp_members(s@, from as int) is None,
        },
    decreases s@.len() - from,
{
    let n: usize = s.unicode_len();
    if from >= n {
        return Option::None;
    }
    if s.get_char(from) != '"' {
        return Option::None;
    }
    let (name, j) = match scan_string_body(s, from + 1) {
        Option::None => {
            return Option::None;
        },
        Option::Some(p) => p,
    };
    let j2 = scan_ws(s, j);
    if j2 >= n {
        return Option::None;
    }
    if s.get_char(j2) != ':' {
        return Option::None;
    }
    let j3 = scan_ws(s, j2 + 1);
    let (value, j4) = match scan_value(s, j3) {
        Option::None => {
            return Option::None;
        },
        Option::Some(p) => p,
    };
    let j5 = scan_ws(s, j4);
    if j5 < n && s.get_char(j5) == ',' {
        let j6 = scan_ws(s, j5 + 1);
        proof {
            lemma_sp_string_body(s@, from + 1);
            lemma_sp_value(s@, j3 as int);
        }
        match scan_members(s, j6) {
            Option::None => Option::None,
            Option::Some(mut rest) => {
                let mut pairs: Vec<(String, JsonValue)> = Vec::new();
                let ghost name_v = name@;
                let ghost value_m = value_model(value);
                pairs.push((name, value));
                let ghost rest_m = pairs_model(rest.0@);
                pairs.append(&mut rest.0);
                proof {
                    assert(pairs_model(pairs@) =~= seq![(name_v, value_m)] + rest_m);
                }
                Option::Some((pairs, rest.1))
            },
        }
    } else if j5 < n && s.get_char(j5) == '}' {
        let mut pairs: Vec<(String, JsonValue)> = Vec::new();
        let ghost name_v = name@;
        let ghost value_m = value_model(value);
        pairs.push((name, value));
        proof {
            assert(pairs_model(pairs@) =~= seq![(name_v, value_m)]);
        }
        Option::Some((pairs, j5 + 1))
    } else {
        Option::None
    }
}

/// Skipping whitespace from position `i` is skipping it from the start of
/// the unread suffix.
proof fn lemma_ws_skip(t: Seq<char>, i: int)
    requires
        0 <= i <= t.len(),
    ensures
        sp_ws(t, i) == sp_ws(t.skip(i), 0) + i,
    decreases t.len() - i,
{
    let u = t.skip(i);
    if i < t.len() && is_json_space(t[i]) {
        lemma_ws_skip(t, i + 1);
        lemma_ws_skip(u, 1);
        assert(t.skip(i + 1) =~= u.skip(1));
    }
}

/// Scanning digits from position `i` is scanning them from the start of the
/// unread suffix.
proof fn lemma_digits_skip(t: Seq<char>, i: int)
    requires
        0 <= i <= t.len(),
    ensures
        sp_digits_end(t, i) == sp_digits_end(t.skip(i), 0) + i,
    decreases t.len() - i,
{
    let u = t.skip(i);
    if i < t.len() && is_digit_char(t[i]) {
        lemma_digits_skip(t, i + 1);
        lemma_digits_skip(u, 1);
        assert(t.skip(i + 1) =~= u.skip(1));
    }
}

/// Reading a value from position `i` is reading it from the start of the
/// unread suffix.
proof fn lemma_value_skip(t: Seq<char>, i: int)
    requires
        0 <= i <= t.len(),
    ensures
        sp_value(t, i) == match sp_value(t.skip(i), 0) {
            Option::Some(r) => Option::Some((r.0, r.1 + i)),
            Option::None => Option::<(JsonValueModel, int)>::None,
        },
{
    let u = t.skip(i);
    if i < t.len() {
        assert(u[0] == t[i]);
        if t[i] == '"' {
            lemma_body_skip(t, i + 1);
            lemma_body_skip(u, 1);
            assert(t.skip(i + 1) =~= u.skip(1));
        } else if is_digit_char(t[i]) {
            lemma_digits_skip(t, i);
            assert(t.skip(i) =~= u.skip(0));
            assert(u.skip(0) =~= u);
            let e = sp_digits_end(t, i);
            lemma_sp_digits_end(t, i);
            assert(t.subrange(i, e) =~= u.subrange(0, e - i));
        } else {
            if i + 4 <= t.len() {
                assert(t.subrange(i, i + 4) =~= u.subrange(0, 4));
            }
            if i + 5 <= t.len() {
                assert(t.subrange(i, i + 5) =~= u.subrange(0, 5));
            }
        }
    }
}

/// Reading members from position `i` is reading them from the start of the
/// unread suffix.
#[verifier::rlimit(100)]
proof fn lemma_members_skip(t: Seq<char>, i: int)
    requires
        0 <= i <= t.len(),
    ensures
        sp_members(t, i) == match sp_members(t.skip(i), 0) {
            Option::Some(r) => Option::Some((r.0, r.1 + i)),
            Option::None => Option::<(Seq<(Seq<char>, JsonValueModel)>, int)>::None,
        },
    decreases t.len() - i,
{
    let u = t.skip(i);
    if i < t.len() && t[i] == '"' {
        assert(u[0] == t[i]);
        lemma_body_skip(t, i + 1);
        lemma_body_skip(u, 1);
        assert(t.skip(i + 1) =~= u.skip(1));
        match sp_string_body(t, i + 1) {
            Option::None => {},
            Option::Some(name) => {
                lemma_sp_string_body(t, i + 1);
                lemma_sp_ws(t, name.1);
                lemma_ws_skip(t, name.1);
                lemma_ws_skip(u, name.1 - i);
                assert(t.skip(name.1) =~= u.skip(name.1 - i));
                let j2 = sp_ws(t, name.1);
                if j2 < t.len() && t[j2] == ':' {
                    assert(u[j2 - i] == t[j2]);
                    lemma_sp_ws(t, j2 + 1);
                    lemma_ws_skip(t, j2 + 1);
                    lemma_ws_skip(u, j2 + 1 - i);
                    assert(t.skip(j2 + 1) =~= u.skip(j2 + 1 - i));
                    let j3 = sp_ws(t, j2 + 1);
                    lemma_value_skip(t, j3);
                    lemma_value_skip(u, j3 - i);
                    assert(t.skip(j3) =~= u.skip(j3 - i));
                    match sp_value(t, j3) {
                        Option::None => {},
                        Option::Some(v) => {
                            lemma_sp_value(t, j3);
                            lemma_sp_ws(t, v.1);
                            lemma_ws_skip(t, v.1);
                            lemma_ws_skip(u, v.1 - i);
                            assert(t.skip(v.1) =~= u.skip(v.1 - i));
                            let j5 = sp_ws(t, v.1);
                            if j5 < t.len() {
                                assert(u[j5 - i] == t[j5]);
                                if t[j5] == ',' {
                                    lemma_ws_skip(t, j5 + 1);
                                    lemma_ws_skip(u, j5 + 1 - i);
                                    assert(t.skip(j5 + 1) =~= u.skip(j5 + 1 - i));
                                    let j6 = sp_ws(t, j5 + 1);
                                    lemma_sp_ws(t, j5 + 1);
                                    lemma_members_skip(t, j6);
                                    lemma_members_skip(u, j6 - i);
                                    assert(t.skip(j6) =~= u.skip(j6 - i));
                                }
                            }
                        },
                    }
                }
            },
        }
    } else {
        if i < t.len() {
            assert(u[0] == t[i]);
        }
    }
}

/// A sequence that string escaping leaves unchanged: none of its characters
/// need an escape.
pub open spec fn plain_chars(s: Seq<char>) -> bool {
    forall|i: int|
        0 <= i < s.len() ==> s[i] != '"' && s[i] != '\\' && s[i] != '\n' && s[i] != '\r' && s[i]
            != '\t'
}

/// Escaping does nothing to a plain sequence.
pub proof fn lemma_escape_plain(s: Seq<char>)
    requires
        plain_chars(s),
    ensures
        crate::text::escape_chars(s) == s,
    decreases s.len(),
{
    if s.len() > 0 {
        lemma_escape_plain(s.drop_first());
        assert(crate::text::escape_char(s[0]) =~= seq![s[0]]);
        assert(crate::text::escape_chars(s) =~= s);
    } else {
        assert(crate::text::escape_chars(s) =~= s);
    }
}

/// A value whose text any following comma or closing brace terminates
/// cleanly: reading from its first character yields exactly this value and
/// stops exactly at its end.
pub open spec fn value_self_delimited(text: Seq<char>, vm: JsonValueModel) -> bool {
    forall|rest: Seq<char>|
        rest.len() > 0 && (rest[0] == ',' || rest[0] == '}') ==> #[trigger] sp_value(
            text + rest,
            0,
        ) == Option::Some((vm, text.len() as int))
}

/// A quoted, escaped string is a self-delimited value.
pub proof fn lemma_string_value_delimited(s: Seq<char>)
    ensures
        value_self_delimited(
            seq!['"'] + crate::text::escape_chars(s) + seq!['"'],
            JsonValueModel::Text(s),
        ),
{
    let text = seq!['"'] + crate::text::escape_chars(s) + seq!['"'];
    assert forall|rest: Seq<char>|
        rest.len() > 0 && (rest[0] == ',' || rest[0] == '}') implies #[trigger] sp_value(
        text + rest,
        0,
    ) == Option::Some((JsonValueModel::Text(s), text.len() as int)) by {
        let t = text + rest;
        assert(t[0] == '"');
        lemma_body_skip(t, 1);
        assert(t.skip(1) =~= crate::text::escape_chars(s) + seq!['"'] + rest);
        lemma_string_escape_round_trip(s, rest);
    }
}

/// Where a run of digits is followed by a non-digit (or the end), the scan
/// stops exactly there.
proof fn lemma_digits_end_is(s: Seq<char>, k: int)
    requires
        0 <= k <= s.len(),
        forall|i: int| 0 <= i < k ==> is_digit_char(s[i]),
        k == s.len() || !is_digit_char(s[k]),
    ensures
        sp_digits_end(s, 0) == k,
{
    lemma_digits_skip_run(s, 0, k);
}

proof fn lemma_digits_skip_run(s: Seq<char>, i: int, k: int)
    requires
        0 <= i <= k <= s.len(),
        forall|j: int| i <= j < k ==> is_digit_char(s[j]),
        k == s.len() || !is_digit_char(s[k]),
    ensures
        sp_digits_end(s, i) == k,
    decreases k - i,
{
    if i < k {
        lemma_digits_skip_run(s, i + 1, k);
    }
}

/// A rendered number is a self-delimited value.
pub proof fn lemma_uint_value_delimited(n: nat)
    requires
        n <= u64::MAX,
    ensures
        value_self_delimited(crate::text::dec_digits(n), JsonValueModel::UInt(n)),
{
    let text = crate::text::dec_digits(n);
    crate::text::lemma_dec_round_trip(n);
    assert forall|rest: Seq<char>|
        rest.len() > 0 && (rest[0] == ',' || rest[0] == '}') implies #[trigger] sp_value(
        text + rest,
        0,
    ) == Option::Some((JsonValueModel::UInt(n), text.len() as int)) by {
        let t = text + rest;
        assert(t[0] == text[0]);
        assert(is_digit_char(t[0]));
        assert(t[0] != '"');
        assert(!is_digit_char(t[text.len() as int]));
        assert forall|i: int| 0 <= i < text.len() implies is_digit_char(t[i]) by {
            assert(t[i] == text[i]);
        }
        lemma_digits_end_is(t, text.len() as int);
        assert(t.subrange(0, text.len() as int) =~= text);
    }
}

/// The two boolean keywords are self-delimited values.
pub proof fn lemma_bool_value_delimited(b: bool)
    ensures
        value_self_delimited(
            if b {
                "true"@
            } else {
                "false"@
            },
            JsonValueModel::Truth(b),
        ),
{
    reveal_strlit("true");
    reveal_strlit("false");
    let text = if b {
        "true"@
    } else {
        "false"@
    };
    assert forall|rest: Seq<char>|
        rest.len() > 0 && (rest[0] == ',' || rest[0] == '}') implies #[trigger] sp_value(
        text + rest,
        0,
    ) == Option::Some((JsonValueModel::Truth(b), text.len() as int)) by {
        let t = text + rest;
        assert(t[0] == text[0]);
        if b {
            assert(t[0] == 't');
            assert(t.subrange(0, 4) =~= "true"@);
        } else {
            assert(t[0] == 'f');
            assert(t.subrange(0, 4)[0] == 'f');
            assert(t.subrange(0, 4) != "true"@);
            assert(t.subrange(0, 5) =~= "false"@);
        }
    }
}

/// One list of members as the serializers write them: quoted plain names,
/// a colon, the value text, members joined with commas, no whitespace.
pub open spec fn spec_members_text(ms: Seq<(Seq<char>, Seq<char>, JsonValueModel)>) -> Seq<char>
    decreases ms.len(),
{
    if ms.len() == 0 {
        Seq::empty()
    } else {
        let head = seq!['"'] + ms[0].0 + seq!['"', ':'] + ms[0].1;
        if ms.len() == 1 {
            head
        } else {
            head + seq![','] + spec_members_text(ms.drop_first())
        }
    }
}

/// The name-value pairs a member list stands for.
pub open spec fn spec_members_pairs(ms: Seq<(Seq<char>, Seq<char>, JsonValueModel)>) -> Seq<
    (Seq<char>, JsonValueModel),
> {
    Seq::new(ms.len(), |i: int| (ms[i].0, ms[i].2))
}

/// Reading back a written member list recovers its pairs: with plain names
/// and self-delimited values, the members text followed by the closing
/// brace parses to exactly those pairs.
#[verifier::rlimit(100)]
pub proof fn lemma_members_round_trip(
    ms: Seq<(Seq<char>, Seq<char>, JsonValueModel)>,
    after: Seq<char>,
)
    requires
        ms.len() >= 1,
        forall|i: int|
            0 <= i < ms.len() ==> plain_chars(#[trigger] ms[i].0) && value_self_delimited(
                ms[i].1,
                ms[i].2,
            ) && ms[i].1.len() > 0 && !is_space_char(ms[i].1[0]),
    ensures
        sp_members(spec_members_text(ms) + seq!['}'] + after, 0) == Option::Some(
            (spec_members_pairs(ms), spec_members_text(ms).len() + 1int),
        ),
    decreases ms.len(),
{
    let text = spec_members_text(ms);
    let t = text + seq!['}'] + after;
    let name = ms[0].0;
    let vtext = ms[0].1;
    let head = seq!['"'] + name + seq!['"', ':'] + vtext;
    assert(t[0] == '"');
    lemma_body_skip(t, 1);
    lemma_escape_plain(name);
    if ms.len() == 1 {
        assert(t.skip(1) =~= name + seq!['"'] + (seq![':'] + vtext + seq!['}'] + after));
        lemma_string_escape_round_trip(name, seq![':'] + vtext + seq!['}'] + after);
        let p = 1 + name.len() + 1;
        assert(sp_string_body(t, 1) == Option::Some((name, p as int)));
        assert(t[p as int] == ':');
        assert(sp_ws(t, p as int) == p);
        let j3 = p + 1;
        assert(t[j3 as int] == vtext[0]);
        assert(sp_ws(t, j3 as int) == j3);
        lemma_value_skip(t, j3 as int);
        assert(t.skip(j3 as int) =~= vtext + (seq!['}'] + after));
        assert((seq!['}'] + after)[0] == '}');
        assert(sp_value(t.skip(j3 as int), 0) == Option::Some(
            (ms[0].2, vtext.len() as int),
        ));
        let j4 = j3 + vtext.len();
        assert(sp_value(t, j3 as int) == Option::Some((ms[0].2, j4 as int)));
        assert(t[j4 as int] == '}');
        assert(sp_ws(t, j4 as int) == j4);
        assert(sp_members(t, 0) == Option::Some(
            (seq![(name, ms[0].2)], j4 + 1int),
        ));
        assert(spec_members_pairs(ms) =~= seq![(name, ms[0].2)]);
        assert(text.len() == j4);
    } else {
        let tail_text = spec_members_text(ms.drop_first());
        assert(text =~= head + seq![','] + tail_text);
        assert(t =~= head + seq![','] + tail_text + seq!['}'] + after);
        assert(t.skip(1) =~= name + seq!['"'] + (seq![':'] + vtext + seq![','] + tail_text
            + seq!['}'] + after));
        lemma_string_escape_round_trip(
            name,
            seq![':'] + vtext + seq![','] + tail_text + seq!['}'] + after,
        );
        let p = 1 + name.len() + 1;
        assert(sp_string_body(t, 1) == Option::Some((name, p as int)));
        assert(t[p as int] == ':');
        assert(sp_ws(t, p as int) == p);
        let j3 = p + 1;
        assert(t[j3 as int] == vtext[0]);
        assert(sp_ws(t, j3 as int) == j3);
        lemma_value_skip(t, j3 as int);
        assert(t.skip(j3 as int) =~= vtext + (seq![','] + tail_text + seq!['}'] + after));
        assert((seq![','] + tail_text + seq!['}'] + after)[0] == ',');
        assert(sp_value(t.skip(j3 as int), 0) == Option::Some(
            (ms[0].2, vtext.len() as int),
        ));
        let j4 = j3 + vtext.len();
        assert(sp_value(t, j3 as int) == Option::Some((ms[0].2, j4 as int)));
        assert(t[j4 as int] == ',');
        assert(sp_ws(t, j4 as int) == j4);
        let j6 = j4 + 1;
        assert(t[j6 as int] == '"') by {
            assert(tail_text[0] == '"');
        }
        assert(sp_ws(t, j6 as int) == j6);
        lemma_members_skip(t, j6 as int);
        assert(t.skip(j6 as int) =~= tail_text + seq!['}'] + after);
        assert forall|i: int|
            0 <= i < ms.drop_first().len() implies plain_chars(
            #[trigger] ms.drop_first()[i].0,
        ) && value_self_delimited(ms.drop_first()[i].1, ms.drop_first()[i].2)
            && ms.drop_first()[i].1.len() > 0 && !is_space_char(ms.drop_first()[i].1[0]) by {
            assert(ms.drop_first()[i] == ms[i + 1]);
            assert(plain_chars(ms[i + 1].0));
            assert(value_self_delimited(ms[i + 1].1, ms[i + 1].2));
            assert(ms[i + 1].1.len() > 0);
            assert(!is_space_char(ms[i + 1].1[0]));
        }
        lemma_members_round_trip(ms.drop_first(), after);
        assert(sp_members(t, 0) == Option::Some(
            (
                seq![(name, ms[0].2)] + spec_members_pairs(ms.drop_first()),
                j6 + tail_text.len() + 1int,
            ),
        ));
        assert(spec_members_pairs(ms) =~= seq![(name, ms[0].2)] + spec_members_pairs(
            ms.drop_first(),
        ));
        assert(text.len() + 1 == j6 + tail_text.len() + 1);
    }
}

/// How one member is written.
pub open spec fn spec_member_head(m: (Seq<char>, Seq<char>, JsonValueModel)) -> Seq<char> {
    seq!['"'] + m.0 + seq!['"', ':'] + m.1
}

/// Appending a member to a non-empty list appends a comma and its text.
pub proof fn lemma_members_text_push(
    ms: Seq<(Seq<char>, Seq<char>, JsonValueModel)>,
    m: (Seq<char>, Seq<char>, JsonValueModel),
)
    requires
        ms.len() >= 1,
    ensures
        spec_members_text(ms.push(m)) == spec_members_text(ms) + seq![','] + spec_member_head(m),
    decreases ms.len(),
{
    if ms.len() == 1 {
        assert(ms.push(m).drop_first() =~= seq![m]);
        assert(spec_members_text(seq![m]) == spec_member_head(m));
        assert(spec_members_text(ms.push(m)) =~= spec_members_text(ms) + seq![',']
            + spec_member_head(m));
    } else {
        assert(ms.push(m).drop_first() =~= ms.drop_first().push(m));
        lemma_members_text_push(ms.drop_first(), m);
        assert(spec_members_text(ms.push(m)) =~= spec_members_text(ms) + seq![',']
            + spec_member_head(m));
    }
}

/// Reading back a whole written line recovers the members: the brace-wrapped
/// member list followed by a newline parses as the one object on the line.
#[verifier::rlimit(100)]
#[verifier::spinoff_prover]
pub proof fn lemma_object_round_trip(ms: Seq<(Seq<char>, Seq<char>, JsonValueModel)>)
    requires
        ms.len() >= 1,
        forall|i: int|
            0 <= i < ms.len() ==> plain_chars(#[trigger] ms[i].0) && value_self_delimited(
                ms[i].1,
                ms[i].2,
            ) && ms[i].1.len() > 0 && !is_space_char(ms[i].1[0]),
    ensures
        sp_object(seq!['{'] + spec_members_text(ms) + seq!['}'] + seq!['\n']) == Option::Some(
            spec_members_pairs(ms),
        ),
{
    let text = spec_members_text(ms);
    let line = seq!['{'] + text + seq!['}'] + seq!['\n'];
    assert(line[0] == '{');
    assert(sp_ws(line, 0) == 0);
    assert(text[0] == '"') by {
        assert(text == spec_member_head(ms[0]) + (if ms.len() == 1 {
            Seq::<char>::empty()
        } else {
            seq![','] + spec_members_text(ms.drop_first())
        }));
        assert(spec_member_head(ms[0])[0] == '"');
    }
    assert(line[1] == text[0]);
    assert(sp_ws(line, 1) == 1);
    lemma_members_skip(line, 1);
    assert(line.skip(1) =~= text + seq!['}'] + seq!['\n']);
    assert forall|i: int|
        0 <= i < ms.len() implies plain_chars(#[trigger] ms[i].0) && value_self_delimited(
        ms[i].1,
        ms[i].2,
    ) && ms[i].1.len() > 0 && !is_space_char(ms[i].1[0]) by {
        assert(plain_chars(ms[i].0));
        assert(value_self_delimited(ms[i].1, ms[i].2));
        assert(ms[i].1.len() > 0);
        assert(!is_space_char(ms[i].1[0]));
    }
    lemma_members_round_trip(ms, seq!['\n']);
    assert(sp_members(line, 1) == Option::Some(
        (spec_members_pairs(ms), text.len() + 2int),
    ));
    let e = text.len() + 2;
    assert(line[e as int] == '\n');
    assert(e + 1 == line.len());
    assert(sp_ws(line, e as int) == sp_ws(line, e + 1int));
    assert(sp_ws(line, e + 1int) == line.len());
}

/// Looking a name up walks past one member of another name.
pub proof fn lemma_lookup_miss(ps: Seq<(Seq<char>, JsonValueModel)>, name: Seq<char>)
    requires
        ps.len() >= 1,
        ps[0].0 != name,
    ensures
        sp_lookup(ps, name) == sp_lookup(ps.drop_first(), name),
{
}

/// A name that no member carries is not found.
pub proof fn lemma_lookup_none(ps: Seq<(Seq<char>, JsonValueModel)>, name: Seq<char>)
    requires
        forall|j: int| 0 <= j < ps.len() ==> (#[trigger] ps[j].0) != name,
    ensures
        sp_lookup(ps, name) is None,
    decreases ps.len(),
{
    if ps.len() > 0 {
        lemma_lookup_none(ps.drop_first(), name);
    }
}

/// Reads the one object on the line; `None` when the line does not hold
/// exactly one object of the accepted shape.
pub fn parse_object(s: &str) -> (r: Option<Vec<(String, JsonValue)>>)
    ensures
        match r {
            Option::Some(pairs) => sp_object(s@) == Option::Some(pairs_model(pairs@)),
            Option::None => sp_object(s@) is None,
        },
{
    let n: usize = s.unicode_len();
    let i = scan_ws(s, 0);
    if i >= n {
        return Option::None;
    }
    if s.get_char(i) != '{' {
        return Option::None;
    }
    let k = scan_ws(s, i + 1);
    if k < n && s.get_char(k) == '}' {
        if scan_ws(s, k + 1) == n {
            let pairs: Vec<(String, JsonValue)> = Vec::new();
            proof {
                assert(pairs_model(pairs@) =~= Seq::<(Seq<char>, JsonValueModel)>::empty());
            }
            return Option::Some(pairs);
        }
        return Option::None;
    }
    match scan_members(s, k) {
        Option::None => Option::None,
        Option::Some(p) => {
            if scan_ws(s, p.1) == n {
                Option::Some(p.0)
            } else {
                Option::None
            }
        },
    }
}

/// The value of the first member named `name`.
pub open spec fn sp_lookup(ps: Seq<(Seq<char>, JsonValueModel)>, name: Seq<char>) -> Option<
    JsonValueModel,
>
    decreases ps.len(),
{
    if ps.len() == 0 {
        Option::None
    } else if ps[0].0 == name {
        Option::Some(ps[0].1)
    } else {
        sp_lookup(ps.drop_first(), name)
    }
}

/// Finds the first member named `name`.
pub fn lookup<'a>(pairs: &'a Vec<(String, JsonValue)>, name: &str) -> (r: Option<&'a JsonValue>)
    ensures
        match r {
            Option::Some(v) => sp_lookup(pairs_model(pairs@), name@) == Option::Some(
                value_model(*v),
            ),
            Option::None => sp_lookup(pairs_model(pairs@), name@) is None,
        },
{
    let mut i: usize = 0;
    proof {
        assert(pairs_model(pairs@).skip(0) =~= pairs_model(pairs@));
    }
    while i < pairs.len()
        invariant
            i <= pairs@.len(),
            sp_lookup(pairs_model(pairs@), name@) == sp_lookup(
                pairs_model(pairs@).skip(i as int),
                name@,
            ),
        decreases pairs@.len() - i,
    {
        proof {
            assert(pairs_model(pairs@).skip(i as int)[0] == pairs_model(pairs@)[i as int]);
            assert(pairs_model(pairs@).skip(i as int).drop_first() =~= pairs_model(pairs@).skip(
                i + 1,
            ));
        }
        if crate::text::str_eq(pairs[i].0.as_str(), name) {
            return Option::Some(&pairs[i].1);
        }
        i = i + 1;
    }
    proof {
        assert(pairs_model(pairs@).skip(pairs@.len() as int) =~= Seq::<
            (Seq<char>, JsonValueModel),
        >::empty());
    }
    Option::None
}

} // verus!
