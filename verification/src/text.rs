//! Character and string helpers shared by the control protocol, the event
//! serializer, and the daemon: ASCII trimming and lower-casing, decimal
//! rendering and parsing, and JSON string escaping.
use vstd::prelude::*;

verus! {

use vstd::string::StrSliceExecFns;

/// The whitespace characters that command tokenization and language
/// normalization recognize: the six ASCII whitespace characters (space,
/// tab, line feed, vertical tab, form feed, carriage return). The protocol
/// deliberately stops there: command lines are machine-written ASCII, and
/// Unicode spacing characters outside this set are ordinary characters to
/// the daemon.
pub open spec fn is_space_char(c: char) -> bool {
    c == ' ' || c == '\t' || c == '\n' || c == '\u{000B}' || c == '\u{000C}' || c == '\r'
}

pub fn is_space(c: char) -> (r: bool)
    ensures
        r == is_space_char(c),
{
    c == ' ' || c == '\t' || c == '\n' || c == '\u{000B}' || c == '\u{000C}' || c == '\r'
}

/// ASCII lower-casing of a single character; everything outside `A`..`Z` is
/// left unchanged.
pub open spec fn lower_char(c: char) -> char {
    if 'A' <= c && c <= 'Z' {
        ((c as u32) + 32) as char
    } else {
        c
    }
}

/// Pointwise ASCII lower-casing.
pub open spec fn lower_chars(s: Seq<char>) -> Seq<char> {
    Seq::new(s.len(), |i: int| lower_char(s[i]))
}

pub fn to_lower(c: char) -> (r: char)
    ensures
        r == lower_char(c),
{
    if 'A' <= c && c <= 'Z' {
        (((c as u32) + 32) as u8) as char
    } else {
        c
    }
}

/// `s` without its leading whitespace.
pub open spec fn trim_leading(s: Seq<char>) -> Seq<char>
    decreases s.len(),
{
    if s.len() > 0 && is_space_char(s[0]) {
        trim_leading(s.drop_first())
    } else {
        s
    }
}

/// `s` without its trailing whitespace.
pub open spec fn trim_trailing(s: Seq<char>) -> Seq<char>
    decreases s.len(),
{
    if s.len() > 0 && is_space_char(s[s.len() - 1]) {
        trim_trailing(s.drop_last())
    } else {
        s
    }
}

/// `s` without leading and trailing whitespace.
pub open spec fn trim_chars(s: Seq<char>) -> Seq<char> {
    trim_trailing(trim_leading(s))
}

proof fn lemma_trim_leading_skip(s: Seq<char>, k: int)
    requires
        0 <= k <= s.len(),
        forall|i: int| 0 <= i < k ==> is_space_char(s[i]),
    ensures
        trim_leading(s) == trim_leading(s.skip(k)),
    decreases k,
{
    if k > 0 {
        assert(s.drop_first() =~= s.skip(1));
        lemma_trim_leading_skip(s.skip(1), k - 1);
        assert(s.skip(1).skip(k - 1) =~= s.skip(k));
    } else {
        assert(s.skip(0) =~= s);
    }
}

proof fn lemma_trim_trailing_take(s: Seq<char>, k: int)
    requires
        0 <= k <= s.len(),
        forall|i: int| k <= i < s.len() ==> is_space_char(s[i]),
    ensures
        trim_trailing(s) == trim_trailing(s.take(k)),
    decreases s.len() - k,
{
    if k < s.len() {
        assert(s.drop_last() =~= s.take(s.len() - 1));
        lemma_trim_trailing_take(s.take(s.len() - 1), k);
        assert(s.take(s.len() - 1).take(k) =~= s.take(k));
    } else {
        assert(s.take(s.len() as int) =~= s);
    }
}

/// Whether every character of `s` is a space.
proof fn lemma_trim_leading_all_spaces(s: Seq<char>)
    requires
        forall|i: int| 0 <= i < s.len() ==> is_space_char(s[i]),
    ensures
        trim_leading(s).len() == 0 || !is_space_char(trim_leading(s)[0]),
    decreases s.len(),
{
    if s.len() > 0 && is_space_char(s[0]) {
        lemma_trim_leading_all_spaces(s.drop_first());
    }
}

/// The first and last characters that survive trimming are not spaces.
pub proof fn lemma_trim_bounds(s: Seq<char>)
    ensures
        trim_leading(s).len() == 0 || !is_space_char(trim_leading(s)[0]),
        trim_trailing(s).len() == 0 || !is_space_char(trim_trailing(s)[trim_trailing(s).len()
            - 1]),
    decreases s.len(),
{
    if s.len() > 0 {
        if is_space_char(s[0]) {
            lemma_trim_bounds(s.drop_first());
        }
        if is_space_char(s[s.len() - 1]) {
            lemma_trim_bounds(s.drop_last());
        }
    }
}

/// The index of the first non-space character of `s` (or `s.len()`).
pub fn first_non_space(s: &str) -> (k: usize)
    ensures
        k <= s@.len(),
        forall|i: int| 0 <= i < k ==> is_space_char(s@[i]),
        k < s@.len() ==> !is_space_char(s@[k as int]),
{
    let n: usize = s.unicode_len();
    let mut k: usize = 0;
    while k < n && is_space(s.get_char(k))
        invariant
            k <= n,
            n == s@.len(),
            forall|i: int| 0 <= i < k ==> is_space_char(s@[i]),
        decreases n - k,
    {
        k = k + 1;
    }
    k
}

/// Trims ASCII whitespace from both ends and lower-cases ASCII letters; how
/// language codes are normalized before they key the model pool.
pub open spec fn normalize_spec(s: Seq<char>) -> Seq<char> {
    lower_chars(trim_chars(s))
}

/// The normalized (trimmed, lower-cased) form of a language code.
pub fn normalize_language(language: &str) -> (r: String)
    ensures
        r@ == normalize_spec(language@),
{
    let n: usize = language.unicode_len();
    let start: usize = first_non_space(language);
    let mut end: usize = n;
    while end > start && is_space(language.get_char(end - 1))
        invariant
            start <= end <= n,
            n == language@.len(),
            forall|i: int| 0 <= i < start ==> is_space_char(language@[i]),
            forall|i: int| end <= i < n ==> is_space_char(language@[i]),
            start < language@.len() ==> !is_space_char(language@[start as int]),
        decreases end,
    {
        end = end - 1;
    }
    proof {
        let s = language@;
        lemma_trim_leading_skip(s, start as int);
        if start == end {
            lemma_trim_leading_all_spaces(s.skip(start as int));
            assert(trim_leading(s.skip(start as int)) =~= s.skip(start as int).skip(0));
            assert(trim_chars(s) =~= Seq::<char>::empty()) by {
                lemma_trim_trailing_take(trim_leading(s), 0);
                assert(trim_leading(s).take(0) =~= Seq::<char>::empty());
            }
        } else {
            assert(!is_space_char(s[start as int]));
            assert(trim_leading(s) =~= s.skip(start as int));
            lemma_trim_trailing_take(s.skip(start as int), end - start);
            assert(s.skip(start as int).take(end - start) =~= s.subrange(
                start as int,
                end as int,
            ));
            assert(!is_space_char(s.subrange(start as int, end as int)[end - start - 1]));
            assert(trim_chars(s) =~= s.subrange(start as int, end as int));
        }
    }
    let mut r = String::new();
    let mut i: usize = start;
    while i < end
        invariant
            start <= i <= end <= n,
            n == language@.len(),
            r@ =~= lower_chars(language@.subrange(start as int, i as int)),
        decreases end - i,
    {
        push_char(&mut r, to_lower(language.get_char(i)));
        i = i + 1;
        assert(r@ =~= lower_chars(language@.subrange(start as int, i as int)));
    }
    proof {
        assert(r@ =~= lower_chars(trim_chars(language@)));
    }
    r
}

/// Trailing-trim only removes characters at the end: the result is a prefix.
proof fn lemma_trim_trailing_prefix(s: Seq<char>)
    ensures
        trim_trailing(s).len() <= s.len(),
        trim_trailing(s) == s.take(trim_trailing(s).len() as int),
    decreases s.len(),
{
    if s.len() > 0 && is_space_char(s[s.len() - 1]) {
        lemma_trim_trailing_prefix(s.drop_last());
        assert(s.drop_last() =~= s.take(s.len() - 1));
        assert(trim_trailing(s).len() <= s.len() - 1);
        assert(s.take(s.len() - 1).take(trim_trailing(s).len() as int) =~= s.take(
            trim_trailing(s).len() as int,
        ));
    } else {
        assert(s.take(s.len() as int) =~= s);
    }
}

/// A trimmed sequence has no space at either edge.
pub proof fn lemma_trim_chars_edges(s: Seq<char>)
    ensures
        trim_chars(s).len() == 0 || (!is_space_char(trim_chars(s)[0]) && !is_space_char(
            trim_chars(s)[trim_chars(s).len() - 1],
        )),
{
    lemma_trim_bounds(s);
    let t = trim_leading(s);
    lemma_trim_bounds(t);
    lemma_trim_trailing_prefix(t);
    if trim_chars(s).len() > 0 {
        assert(t.take(trim_trailing(t).len() as int)[0] == t[0]);
        assert(trim_chars(s)[0] == t[0]);
    }
}

proof fn lemma_trim_leading_empty_when_spaces(s: Seq<char>)
    requires
        forall|i: int| 0 <= i < s.len() ==> is_space_char(s[i]),
    ensures
        trim_leading(s).len() == 0,
    decreases s.len(),
{
    if s.len() > 0 {
        lemma_trim_leading_empty_when_spaces(s.drop_first());
    }
}

proof fn lemma_trim_trailing_keeps_head(s: Seq<char>)
    requires
        s.len() > 0,
        !is_space_char(s[0]),
    ensures
        trim_trailing(s).len() >= 1,
    decreases s.len(),
{
    if is_space_char(s[s.len() - 1]) {
        lemma_trim_trailing_keeps_head(s.drop_last());
    }
}

/// Whether a string is nothing but whitespace.
pub fn is_blank(s: &str) -> (r: bool)
    ensures
        r == (trim_chars(s@).len() == 0),
{
    let n: usize = s.unicode_len();
    let k: usize = first_non_space(s);
    proof {
        if k == n {
            lemma_trim_leading_empty_when_spaces(s@);
            assert(trim_trailing(trim_leading(s@)).len() == 0);
        } else {
            lemma_trim_leading_skip(s@, k as int);
            assert(trim_leading(s@) =~= s@.skip(k as int));
            assert(!is_space_char(s@.skip(k as int)[0]));
            lemma_trim_trailing_keeps_head(s@.skip(k as int));
        }
    }
    k == n
}

/// Normalizing an already-normalized code changes nothing.
pub proof fn lemma_normalize_idempotent(s: Seq<char>)
    ensures
        normalize_spec(normalize_spec(s)) == normalize_spec(s),
{
    lemma_trim_chars_edges(s);
    let t = trim_chars(s);
    let l = lower_chars(t);
    if l.len() > 0 {
        assert(!is_space_char(l[0]) && !is_space_char(l[l.len() - 1]));
        assert(trim_leading(l) == l);
        assert(trim_trailing(l) == l);
    } else {
        assert(trim_leading(l) == l);
        assert(trim_trailing(l) == l);
    }
    assert(trim_chars(l) == l);
    assert(lower_chars(l) =~= l);
}

/// Relies on `String::push`: appends exactly the one character.
#[verifier::external_body]
pub fn push_char(s: &mut String, c: char)
    ensures
        final(s)@ == old(s)@.push(c),
{
    s.push(c);
}

/// The character for one decimal digit.
pub open spec fn digit_char(d: nat) -> char
    recommends
        d < 10,
{
    (('0' as u32) + d as u32) as char
}

pub open spec fn is_digit_char(c: char) -> bool {
    '0' <= c && c <= '9'
}

pub open spec fn digit_val(c: char) -> nat
    recommends
        is_digit_char(c),
{
    ((c as u32) - ('0' as u32)) as nat
}

/// The decimal rendering of `n`, most significant digit first, no sign and no
/// leading zeros (`0` itself renders as one digit).
pub open spec fn dec_digits(n: nat) -> Seq<char>
    decreases n,
{
    if n < 10 {
        seq![digit_char(n)]
    } else {
        dec_digits(n / 10).push(digit_char(n % 10))
    }
}

/// The value of a sequence of decimal digit characters, empty meaning 0.
pub open spec fn dec_value(s: Seq<char>) -> nat
    decreases s.len(),
{
    if s.len() == 0 {
        0
    } else {
        dec_value(s.drop_last()) * 10 + digit_val(s.last())
    }
}

/// Reading back a rendered number recovers it: the decimal digits of `n`
/// are digit characters and their value is `n`.
pub proof fn lemma_dec_round_trip(n: nat)
    ensures
        dec_value(dec_digits(n)) == n,
        forall|i: int| 0 <= i < dec_digits(n).len() ==> is_digit_char(#[trigger] dec_digits(n)[i]),
    decreases n,
{
    if n < 10 {
        let d = seq![digit_char(n)];
        assert(d.drop_last() =~= Seq::<char>::empty());
        assert(dec_value(Seq::<char>::empty()) == 0);
        assert(dec_value(d) == dec_value(d.drop_last()) * 10 + digit_val(d.last()));
        assert(digit_val(digit_char(n)) == n);
    } else {
        lemma_dec_round_trip(n / 10);
        let whole = dec_digits(n);
        assert(whole.drop_last() =~= dec_digits(n / 10));
        assert(whole.last() == digit_char(n % 10));
        assert(digit_val(digit_char(n % 10)) == n % 10);
        assert(dec_value(whole) == (n / 10) * 10 + n % 10);
        assert((n / 10) * 10 + n % 10 == n) by (nonlinear_arith);
        assert forall|i: int| 0 <= i < whole.len() implies is_digit_char(#[trigger] whole[i]) by {
            if i < whole.len() - 1 {
                assert(whole[i] == dec_digits(n / 10)[i]);
            }
        }
    }
}

fn digit_to_char(d: u8) -> (c: char)
    requires
        d < 10,
    ensures
        c == digit_char(d as nat),
{
    let zero: u8 = 48;
    (zero + d) as char
}

/// Decimal rendering of a 64-bit number.
pub fn u64_to_string(n: u64) -> (r: String)
    ensures
        r@ == dec_digits(n as nat),
    decreases n,
{
    if n < 10 {
        let mut r = String::new();
        push_char(&mut r, digit_to_char(n as u8));
        proof {
            assert(r@ =~= dec_digits(n as nat));
        }
        r
    } else {
        let mut r = u64_to_string(n / 10);
        push_char(&mut r, digit_to_char((n % 10) as u8));
        r
    }
}

/// A digit-string prefix never exceeds the value of the whole string.
proof fn lemma_dec_value_take_le(s: Seq<char>, k: int)
    requires
        0 <= k <= s.len(),
    ensures
        dec_value(s.take(k)) <= dec_value(s),
    decreases s.len() - k,
{
    if k < s.len() {
        lemma_dec_value_take_le(s, k + 1);
        assert(s.take(k + 1).drop_last() =~= s.take(k));
        assert(dec_value(s.take(k)) <= dec_value(s.take(k + 1)));
    } else {
        assert(s.take(k) =~= s);
    }
}

/// Parses the decimal digits `s@[from..to]` as a `u64`; `None` when the range
/// is empty, holds a non-digit, or the value exceeds `u64::MAX`.
pub fn parse_u64_range(s: &str, from: usize, to: usize) -> (r: Option<u64>)
    requires
        from <= to <= s@.len(),
    ensures
        match r {
            Some(v) => {
                &&& to > from
                &&& forall|i: int| from <= i < to ==> is_digit_char(s@[i])
                &&& v == dec_value(s@.subrange(from as int, to as int))
            },
            None => {
                ||| to == from
                ||| exists|i: int| from <= i < to && !is_digit_char(s@[i])
                ||| dec_value(s@.subrange(from as int, to as int)) > u64::MAX
            },
        },
{
    if to == from {
        return None;
    }
    let ghost digits = s@.subrange(from as int, to as int);
    let mut acc: u64 = 0;
    let mut i: usize = from;
    while i < to
        invariant
            from <= i <= to <= s@.len(),
            forall|j: int| from <= j < i ==> is_digit_char(s@[j]),
            acc == dec_value(s@.subrange(from as int, i as int)),
        decreases to - i,
    {
        let c = s.get_char(i);
        if !('0' <= c && c <= '9') {
            return None;
        }
        let d: u64 = (c as u32 - '0' as u32) as u64;
        proof {
            assert(s@.subrange(from as int, i + 1).drop_last() =~= s@.subrange(
                from as int,
                i as int,
            ));
        }
        if acc > (u64::MAX - d) / 10 {
            proof {
                assert(acc * 10 + d > u64::MAX) by (nonlinear_arith)
                    requires
                        acc > (u64::MAX - d) / 10,
                        d < 10,
                ;
                assert(dec_value(s@.subrange(from as int, i + 1)) > u64::MAX);
                lemma_dec_value_take_le(s@.subrange(from as int, to as int), i + 1 - from);
                assert(s@.subrange(from as int, to as int).take(i + 1 - from) =~= s@.subrange(
                    from as int,
                    i + 1,
                ));
            }
            return None;
        }
        proof {
            assert(acc * 10 + d <= u64::MAX) by (nonlinear_arith)
                requires
                    acc <= (u64::MAX - d) / 10,
                    d < 10,
            ;
        }
        acc = acc * 10 + d;
        i = i + 1;
    }
    proof {
        assert(s@.subrange(from as int, to as int) =~= s@.subrange(from as int, i as int));
    }
    Some(acc)
}

/// How one character is written inside a JSON string: the quote, the
/// backslash, and the three common control characters get two-character
/// escapes; every other character stands for itself.
pub open spec fn escape_char(c: char) -> Seq<char> {
    if c == '\\' {
        seq!['\\', '\\']
    } else if c == '"' {
        seq!['\\', '"']
    } else if c == '\n' {
        seq!['\\', 'n']
    } else if c == '\r' {
        seq!['\\', 'r']
    } else if c == '\t' {
        seq!['\\', 't']
    } else {
        seq![c]
    }
}

/// The JSON-escaped form of a character sequence.
pub open spec fn escape_chars(s: Seq<char>) -> Seq<char>
    decreases s.len(),
{
    if s.len() == 0 {
        Seq::empty()
    } else {
        escape_char(s[0]) + escape_chars(s.drop_first())
    }
}

pub proof fn lemma_escape_chars_app(a: Seq<char>, b: Seq<char>)
    ensures
        escape_chars(a + b) == escape_chars(a) + escape_chars(b),
    decreases a.len(),
{
    if a.len() == 0 {
        assert(a + b =~= b);
        assert(escape_chars(a) + escape_chars(b) =~= escape_chars(b));
    } else {
        assert((a + b).drop_first() =~= a.drop_first() + b);
        lemma_escape_chars_app(a.drop_first(), b);
        assert(escape_chars(a + b) =~= escape_chars(a) + escape_chars(b));
    }
}

proof fn lemma_escape_chars_snoc(s: Seq<char>, i: int)
    requires
        0 <= i < s.len(),
    ensures
        escape_chars(s.take(i + 1)) == escape_chars(s.take(i)) + escape_char(s[i]),
{
    assert(s.take(i + 1) =~= s.take(i) + seq![s[i]]);
    lemma_escape_chars_app(s.take(i), seq![s[i]]);
    let single = seq![s[i]];
    assert(single.drop_first() =~= Seq::<char>::empty());
    assert(escape_chars(single) == escape_char(single[0]) + escape_chars(single.drop_first()));
    assert(escape_chars(Seq::<char>::empty()) == Seq::<char>::empty());
    assert(escape_chars(single) =~= escape_char(s[i]));
}

/// JSON string escaping of `value`.
pub fn json_escape(value: &str) -> (r: String)
    ensures
        r@ == escape_chars(value@),
{
    let n: usize = value.unicode_len();
    let mut r = String::new();
    let mut i: usize = 0;
    while i < n
        invariant
            i <= n,
            n == value@.len(),
            r@ == escape_chars(value@.take(i as int)),
        decreases n - i,
    {
        let c = value.get_char(i);
        if c == '\\' {
            push_char(&mut r, '\\');
            push_char(&mut r, '\\');
        } else if c == '"' {
            push_char(&mut r, '\\');
            push_char(&mut r, '"');
        } else if c == '\n' {
            push_char(&mut r, '\\');
            push_char(&mut r, 'n');
        } else if c == '\r' {
            push_char(&mut r, '\\');
            push_char(&mut r, 'r');
        } else if c == '\t' {
            push_char(&mut r, '\\');
            push_char(&mut r, 't');
        } else {
            push_char(&mut r, c);
        }
        proof {
            lemma_escape_chars_snoc(value@, i as int);
            assert(r@ =~= escape_chars(value@.take(i + 1)));
        }
        i = i + 1;
    }
    proof {
        assert(value@.take(n as int) =~= value@);
    }
    r
}

/// Whether two string slices hold the same characters.
pub fn str_eq(a: &str, b: &str) -> (r: bool)
    ensures
        r == (a@ == b@),
{
    let na: usize = a.unicode_len();
    let nb: usize = b.unicode_len();
    if na != nb {
        return false;
    }
    let mut i: usize = 0;
    while i < na
        invariant
            i <= na,
            na == a@.len(),
            na == b@.len(),
            forall|j: int| 0 <= j < i ==> a@[j] == b@[j],
        decreases na - i,
    {
        if a.get_char(i) != b.get_char(i) {
            return false;
        }
        i = i + 1;
    }
    proof {
        assert(a@ =~= b@);
    }
    true
}

} // verus!

