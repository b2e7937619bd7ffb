//! Loosely typed JSON input values and the SQL values they become.
use vstd::prelude::*;

verus! {

/// A JSON number, kept as the decoder saw it.
#[derive(Debug, Clone)]
pub enum JsonNumber {
    /// A number that fits a signed 64-bit integer.
    Int(i64),
    /// A non-negative number above `i64::MAX` that fits an unsigned 64-bit integer.
    UInt(u64),
    /// Any other number, as its decimal text (for instance `1.5` or `2e10`).
    Float(String),
}

/// A JSON value: the request payloads this crate converts are made of these.
#[derive(Debug)]
pub enum JsonValue {
    Null,
    Bool(bool),
    Number(JsonNumber),
    String(String),
    Array(Vec<JsonValue>),
    /// An object's members in document order.
    Object(Vec<(String, JsonValue)>),
}

/// A value bound to an SQL statement parameter.
#[derive(Debug, Clone, PartialEq)]
pub enum SqlValue {
    Null,
    Integer(i64),
    /// A floating-point value, as the decimal text that denotes it.
    Real(String),
    Text(String),
    Blob(Vec<u8>),
}

/// What an [`SqlValue`] holds, as a mathematical value.
pub enum SqlVal {
    Null,
    Integer(int),
    Real(Seq<char>),
    Text(Seq<char>),
    Blob(Seq<u8>),
}

impl View for SqlValue {
    type V = SqlVal;

    open spec fn view(&self) -> SqlVal {
        match self {
            SqlValue::Null => SqlVal::Null,
            SqlValue::Integer(i) => SqlVal::Integer(*i as int),
            SqlValue::Real(t) => SqlVal::Real(t@),
            SqlValue::Text(t) => SqlVal::Text(t@),
            SqlValue::Blob(b) => SqlVal::Blob(b@),
        }
    }
}

pub open spec fn is_digit(c: char) -> bool {
    '0' <= c && c <= '9'
}

pub open spec fn digit_value(c: char) -> int {
    (c as int) - ('0' as int)
}

pub open spec fn all_digits(s: Seq<char>) -> bool {
    forall|i: int| 0 <= i < s.len() ==> is_digit(#[trigger] s[i])
}

/// The number that a string of decimal digits denotes.
pub open spec fn decimal_value(s: Seq<char>) -> int
    decreases s.len(),
{
    if s.len() == 0 {
        0
    } else {
        decimal_value(s.drop_last()) * 10 + digit_value(s.last())
    }
}

/// The integer that `s` denotes under the syntax of a signed 64-bit decimal integer
/// (an optional `+` or `-`, then one or more digits), if it has that syntax and the
/// value fits.
pub open spec fn parsed_i64(s: Seq<char>) -> Option<int> {
    let neg = s.len() > 0 && s[0] == '-';
    let signed = s.len() > 0 && (s[0] == '-' || s[0] == '+');
    let digits = if signed { s.drop_first() } else { s };
    let v = if neg { -decimal_value(digits) } else { decimal_value(digits) };
    if digits.len() > 0 && all_digits(digits) && i64::MIN <= v <= i64::MAX {
        Some(v)
    } else {
        None
    }
}

proof fn lemma_decimal_value_nonneg(s: Seq<char>)
    requires
        all_digits(s),
    ensures
        decimal_value(s) >= 0,
    decreases s.len(),
{
    if s.len() > 0 {
        lemma_decimal_value_nonneg(s.drop_last());
    }
}

/// Parses a signed decimal integer as `str::parse::<i64>` accepts it.
pub fn parse_i64(s: &str) -> (r: Option<i64>)
    ensures
        r matches Some(v) ==> parsed_i64(s@) == Some(v as int),
        r is None ==> parsed_i64(s@) is None,
{
    let n = s.unicode_len();
    if n == 0 {
        return None;
    }
    let c0 = s.get_char(0);
    let neg = c0 == '-';
    let start: usize = if c0 == '-' || c0 == '+' { 1 } else { 0 };
    let ghost digits = if start == 1 { s@.drop_first() } else { s@ };
    if start >= n {
        return None;
    }
    // Accumulate the magnitude; `bound` is the largest magnitude the sign allows.
    let bound: u64 = if neg { 9223372036854775808u64 } else { 9223372036854775807u64 };
    let mut acc: u64 = 0;
    let mut i: usize = start;
    while i < n
        invariant
            start <= i <= n,
            n == s@.len(),
            digits == s@.subrange(start as int, n as int),
            all_digits(s@.subrange(start as int, i as int)),
            acc as int == decimal_value(s@.subrange(start as int, i as int)),
            acc <= bound,
            bound >= 9,
            neg == (s@[0] == '-'),
            neg ==> bound == 9223372036854775808u64,
            !neg ==> bound == 9223372036854775807u64,
            start == 1 <==> (s@[0] == '-' || s@[0] == '+'),
            start <= 1,
        decreases n - i,
    {
        let c = s.get_char(i);
        assert(s@.subrange(start as int, i as int + 1).drop_last() =~= s@.subrange(
            start as int,
            i as int,
        ));
        if !('0' <= c && c <= '9') {
            assert(!all_digits(digits)) by {
                assert(digits[i - start] == s@[i as int]);
                assert(!is_digit(digits[i - start]));
            }
            return None;
        }
        assert((c as u32) <= 57 && (c as u32) >= 48);
        let d = (c as u32 - '0' as u32) as u64;
        assert(d <= 9);
        if acc > (bound - d) / 10 {
            assert(decimal_value(s@.subrange(start as int, i as int + 1)) > bound) by (
            nonlinear_arith)
                requires
                    decimal_value(s@.subrange(start as int, i as int + 1)) == acc * 10 + d,
                    acc > (bound - d) / 10,
                    d <= 9,
                    bound >= 9,
            ;
            assert(digits.subrange(0, i - start + 1) =~= s@.subrange(start as int, i as int + 1));
            proof {
                lemma_prefix_bound(digits, (i - start + 1) as int, bound as int);
                if all_digits(digits) {
                    if neg {
                        assert(-decimal_value(digits) < i64::MIN);
                    } else {
                        assert(decimal_value(digits) > i64::MAX);
                    }
                }
                let sg = s@.len() > 0 && (s@[0] == '-' || s@[0] == '+');
                assert(digits == if sg { s@.drop_first() } else { s@ });
            }
            return None;
        }
        acc = acc * 10 + d;
        i = i + 1;
    }
    assert(s@.subrange(start as int, n as int) =~= digits);
    if neg {
        if acc == 9223372036854775808u64 {
            Some(i64::MIN)
        } else {
            Some(-(acc as i64))
        }
    } else {
        Some(acc as i64)
    }
}

/// Once a prefix of a digit string exceeds a bound, the whole string does, or is no
/// digit string.
proof fn lemma_prefix_bound(s: Seq<char>, k: int, bound: int)
    requires
        0 < k <= s.len(),
        all_digits(s.subrange(0, k)),
        decimal_value(s.subrange(0, k)) > bound,
        bound >= 0,
    ensures
        all_digits(s) ==> decimal_value(s) > bound,
    decreases s.len() - k,
{
    if k < s.len() && all_digits(s) {
        let p = s.subrange(0, k + 1);
        assert(p.drop_last() =~= s.subrange(0, k));
        assert(all_digits(p));
        lemma_decimal_value_nonneg(s.subrange(0, k));
        assert(decimal_value(p) > bound) by (nonlinear_arith)
            requires
                decimal_value(p) == decimal_value(s.subrange(0, k)) * 10 + digit_value(p.last()),
                digit_value(p.last()) >= 0,
                decimal_value(s.subrange(0, k)) > bound,
                bound >= 0,
        ;
        lemma_prefix_bound(s, k + 1, bound);
    } else if k == s.len() {
        assert(s.subrange(0, k) =~= s);
    }
}

/// States of the recogniser of decimal floating-point literals.
#[derive(PartialEq, Eq, Structural, Clone, Copy)]
pub enum FloatState {
    Start,
    Sign,
    /// One or more integer digits.
    Int,
    /// A `.` with no digit before it.
    LeadDot,
    /// Digits, then a `.`.
    IntDot,
    /// One or more fraction digits.
    Frac,
    /// An exponent marker.
    Exp,
    /// An exponent marker and its sign.
    ExpSign,
    /// One or more exponent digits.
    ExpDigits,
    Reject,
}

pub open spec fn float_step(st: FloatState, c: char) -> FloatState {
    let digit = is_digit(c);
    match st {
        FloatState::Start => if c == '+' || c == '-' {
            FloatState::Sign
        } else if digit {
            FloatState::Int
        } else if c == '.' {
            FloatState::LeadDot
        } else {
            FloatState::Reject
        },
        FloatState::Sign => if digit {
            FloatState::Int
        } else if c == '.' {
            FloatState::LeadDot
        } else {
            FloatState::Reject
        },
        FloatState::Int => if digit {
            FloatState::Int
        } else if c == '.' {
            FloatState::IntDot
        } else if c == 'e' || c == 'E' {
            FloatState::Exp
        } else {
            FloatState::Reject
        },
        FloatState::LeadDot => if digit {
            FloatState::Frac
        } else {
            FloatState::Reject
        },
        FloatState::IntDot | FloatState::Frac => if digit {
            FloatState::Frac
        } else if c == 'e' || c == 'E' {
            FloatState::Exp
        } else {
            FloatState::Reject
        },
        FloatState::Exp => if c == '+' || c == '-' {
            FloatState::ExpSign
        } else if digit {
            FloatState::ExpDigits
        } else {
            FloatState::Reject
        },
        FloatState::ExpSign | FloatState::ExpDigits => if digit {
            FloatState::ExpDigits
        } else {
            FloatState::Reject
        },
        FloatState::Reject => FloatState::Reject,
    }
}

/// The state the recogniser is in after reading `s`.
pub open spec fn float_run(s: Seq<char>) -> FloatState
    decreases s.len(),
{
    if s.len() == 0 {
        FloatState::Start
    } else {
        float_step(float_run(s.drop_last()), s.last())
    }
}

pub open spec fn float_accepting(st: FloatState) -> bool {
    st == FloatState::Int || st == FloatState::IntDot || st == FloatState::Frac || st
        == FloatState::ExpDigits
}

pub open spec fn ascii_lower(c: char) -> char {
    if 'A' <= c && c <= 'Z' {
        ((c as u8) + 32) as char
    } else {
        c
    }
}

/// `s` equals the lower-case word `w`, ignoring the case of ASCII letters.
pub open spec fn equals_ignoring_case(s: Seq<char>, w: Seq<char>) -> bool {
    s.len() == w.len() && forall|i: int| 0 <= i < s.len() ==> ascii_lower(#[trigger] s[i]) == w[i]
}

/// `inf`, `infinity` or `nan` in any case.
pub open spec fn float_word(s: Seq<char>) -> bool {
    equals_ignoring_case(s, seq!['i', 'n', 'f']) || equals_ignoring_case(
        s,
        seq!['i', 'n', 'f', 'i', 'n', 'i', 't', 'y'],
    ) || equals_ignoring_case(s, seq!['n', 'a', 'n'])
}

/// The syntax that `str::parse::<f64>` accepts: an optional sign, then a decimal
/// number with optional fraction and exponent, or one of the words `inf`, `infinity`
/// and `nan` in any case.
pub open spec fn is_float_literal(s: Seq<char>) -> bool {
    ||| float_accepting(float_run(s))
    ||| float_word(s)
    ||| (s.len() > 0 && (s[0] == '+' || s[0] == '-') && float_word(s.drop_first()))
}

fn float_step_exec(st: FloatState, c: char) -> (r: FloatState)
    ensures
        r == float_step(st, c),
{
    let digit = '0' <= c && c <= '9';
    match st {
        FloatState::Start => if c == '+' || c == '-' {
            FloatState::Sign
        } else if digit {
            FloatState::Int
        } else if c == '.' {
            FloatState::LeadDot
        } else {
            FloatState::Reject
        },
        FloatState::Sign => if digit {
            FloatState::Int
        } else if c == '.' {
            FloatState::LeadDot
        } else {
            FloatState::Reject
        },
        FloatState::Int => if digit {
            FloatState::Int
        } else if c == '.' {
            FloatState::IntDot
        } else if c == 'e' || c == 'E' {
            FloatState::Exp
        } else {
            FloatState::Reject
        },
        FloatState::LeadDot => if digit {
            FloatState::Frac
        } else {
            FloatState::Reject
        },
        FloatState::IntDot | FloatState::Frac => if digit {
            FloatState::Frac
        } else if c == 'e' || c == 'E' {
            FloatState::Exp
        } else {
            FloatState::Reject
        },
        FloatState::Exp => if c == '+' || c == '-' {
            FloatState::ExpSign
        } else if digit {
            FloatState::ExpDigits
        } else {
            FloatState::Reject
        },
        FloatState::ExpSign | FloatState::ExpDigits => if digit {
            FloatState::ExpDigits
        } else {
            FloatState::Reject
        },
        FloatState::Reject => FloatState::Reject,
    }
}

fn lower_exec(c: char) -> (r: char)
    ensures
        r == ascii_lower(c),
{
    if 'A' <= c && c <= 'Z' {
        ((c as u8) + 32) as char
    } else {
        c
    }
}

/// Whether the characters of `s` from `start` on equal the lower-case word `w`,
/// ignoring ASCII case.
fn suffix_equals_ignoring_case(s: &str, start: usize, w: &str) -> (r: bool)
    requires
        start <= s@.len(),
    ensures
        r == equals_ignoring_case(s@.subrange(start as int, s@.len() as int), w@),
{
    let n = s.unicode_len();
    let m = w.unicode_len();
    if n - start != m {
        return false;
    }
    let ghost t = s@.subrange(start as int, n as int);
    let mut i: usize = 0;
    while i < m
        invariant
            n == s@.len(),
            m == w@.len(),
            n - start == m,
            t == s@.subrange(start as int, n as int),
            i <= m,
            forall|j: int| 0 <= j < i ==> ascii_lower(#[trigger] t[j]) == w@[j],
        decreases m - i,
    {
        if lower_exec(s.get_char(start + i)) != w.get_char(i) {
            assert(ascii_lower(t[i as int]) != w@[i as int]);
            return false;
        }
        i = i + 1;
    }
    true
}

/// Whether `s` is a literal that `str::parse::<f64>` accepts.
pub fn is_float_literal_exec(s: &str) -> (r: bool)
    ensures
        r == is_float_literal(s@),
{
    let n = s.unicode_len();
    let mut st = FloatState::Start;
    let mut i: usize = 0;
    while i < n
        invariant
            n == s@.len(),
            i <= n,
            st == float_run(s@.subrange(0, i as int)),
        decreases n - i,
    {
        assert(s@.subrange(0, i as int + 1).drop_last() =~= s@.subrange(0, i as int));
        st = float_step_exec(st, s.get_char(i));
        i = i + 1;
    }
    assert(s@.subrange(0, n as int) =~= s@);
    if st == FloatState::Int || st == FloatState::IntDot || st == FloatState::Frac || st
        == FloatState::ExpDigits {
        return true;
    }
    proof {
        reveal_strlit("inf");
        reveal_strlit("infinity");
        reveal_strlit("nan");
        assert(s@.subrange(0, s@.len() as int) =~= s@);
        assert("inf"@ =~= seq!['i', 'n', 'f']);
        assert("infinity"@ =~= seq!['i', 'n', 'f', 'i', 'n', 'i', 't', 'y']);
        assert("nan"@ =~= seq!['n', 'a', 'n']);
    }
    if suffix_equals_ignoring_case(s, 0, "inf") || suffix_equals_ignoring_case(s, 0, "infinity")
        || suffix_equals_ignoring_case(s, 0, "nan") {
        return true;
    }
    if n > 0 {
        let c = s.get_char(0);
        if c == '+' || c == '-' {
            assert(s@.subrange(1, s@.len() as int) =~= s@.drop_first());
            return suffix_equals_ignoring_case(s, 1, "inf") || suffix_equals_ignoring_case(
                s,
                1,
                "infinity",
            ) || suffix_equals_ignoring_case(s, 1, "nan");
        }
    }
    false
}

/// Relies on `String::push`: appends one character.
#[verifier::external_body]
pub(crate) fn push_char(s: &mut String, c: char)
    ensures
        final(s)@ == old(s)@.push(c),
{
    s.push(c)
}

pub open spec fn digit_char(d: int) -> char {
    (('0' as int) + d) as char
}

/// The decimal digits of a natural number.
pub open spec fn nat_text(n: nat) -> Seq<char>
    decreases n,
{
    if n < 10 {
        seq![digit_char(n as int)]
    } else {
        nat_text(n / 10) + seq![digit_char((n % 10) as int)]
    }
}

/// The decimal text of an integer, with a leading `-` where negative.
pub open spec fn int_text(i: int) -> Seq<char> {
    if i < 0 {
        seq!['-'] + nat_text((-i) as nat)
    } else {
        nat_text(i as nat)
    }
}

pub open spec fn hex_digit(d: int) -> char {
    if d < 10 {
        digit_char(d)
    } else {
        (('a' as int) + d - 10) as char
    }
}

/// How a character stands inside a JSON string literal.
pub open spec fn escaped_char(c: char) -> Seq<char> {
    if c == '"' {
        seq!['\\', '"']
    } else if c == '\\' {
        seq!['\\', '\\']
    } else if c == '\n' {
        seq!['\\', 'n']
    } else if c == '\r' {
        seq!['\\', 'r']
    } else if c == '\t' {
        seq!['\\', 't']
    } else if c == '\x08' {
        seq!['\\', 'b']
    } else if c == '\x0c' {
        seq!['\\', 'f']
    } else if (c as int) < 0x20 {
        seq!['\\', 'u', '0', '0', hex_digit((c as int) / 16), hex_digit((c as int) % 16)]
    } else {
        seq![c]
    }
}

pub open spec fn escaped(s: Seq<char>) -> Seq<char>
    decreases s.len(),
{
    if s.len() == 0 {
        seq![]
    } else {
        escaped(s.drop_last()) + escaped_char(s.last())
    }
}

/// A JSON string literal denoting `s`.
pub open spec fn string_literal(s: Seq<char>) -> Seq<char> {
    seq!['"'] + escaped(s) + seq!['"']
}

pub open spec fn number_text(n: JsonNumber) -> Seq<char> {
    match n {
        JsonNumber::Int(i) => int_text(i as int),
        JsonNumber::UInt(u) => nat_text(u as nat),
        JsonNumber::Float(t) => t@,
    }
}

/// The compact JSON text of a value: no white space, members in order.
pub open spec fn json_text(v: JsonValue) -> Seq<char>
    decreases v,
{
    match v {
        JsonValue::Null => seq!['n', 'u', 'l', 'l'],
        JsonValue::Bool(b) => if b {
            seq!['t', 'r', 'u', 'e']
        } else {
            seq!['f', 'a', 'l', 's', 'e']
        },
        JsonValue::Number(n) => number_text(n),
        JsonValue::String(s) => string_literal(s@),
        JsonValue::Array(items) => seq!['['] + elements_text(items@, items@.len() as int) + seq![
            ']',
        ],
        JsonValue::Object(members) => seq!['{'] + members_text(members@, members@.len() as int)
            + seq!['}'],
    }
}

/// The first `k` elements of an array, separated by commas.
pub open spec fn elements_text(items: Seq<JsonValue>, k: int) -> Seq<char>
    decreases items, k,
{
    if k <= 0 || k > items.len() {
        seq![]
    } else if k == 1 {
        json_text(items[0])
    } else {
        elements_text(items, k - 1) + seq![','] + json_text(items[k - 1])
    }
}

pub open spec fn member_text(m: (String, JsonValue)) -> Seq<char>
    decreases m,
{
    string_literal(m.0@) + seq![':'] + json_text(m.1)
}

/// The first `k` members of an object, separated by commas.
pub open spec fn members_text(members: Seq<(String, JsonValue)>, k: int) -> Seq<char>
    decreases members, k,
{
    if k <= 0 || k > members.len() {
        seq![]
    } else if k == 1 {
        member_text(members[0])
    } else {
        members_text(members, k - 1) + seq![','] + member_text(members[k - 1])
    }
}

proof fn lemma_nat_text_step(n: nat)
    requires
        n >= 10,
    ensures
        nat_text(n) == nat_text(n / 10) + seq![digit_char((n % 10) as int)],
{
}

/// Appends the decimal digits of `n`.
pub(crate) fn write_u64(out: &mut String, n: u64)
    ensures
        final(out)@ == old(out)@ + nat_text(n as nat),
    decreases n,
{
    if n < 10 {
        push_char(out, char_of_digit(n));
    } else {
        write_u64(out, n / 10);
        push_char(out, char_of_digit(n % 10));
        proof {
            lemma_nat_text_step(n as nat);
            assert(final(out)@ =~= old(out)@ + nat_text(n as nat));
        }
    }
}

fn char_of_digit(d: u64) -> (c: char)
    requires
        d < 10,
    ensures
        c == digit_char(d as int),
{
    ((d as u8) + 48) as char
}

/// Appends the decimal text of `i`.
pub(crate) fn write_i64(out: &mut String, i: i64)
    ensures
        final(out)@ == old(out)@ + int_text(i as int),
{
    if i < 0 {
        push_char(out, '-');
        let m: u64 = if i == i64::MIN {
            9223372036854775808u64
        } else {
            (-i) as u64
        };
        write_u64(out, m);
        assert(final(out)@ =~= old(out)@ + int_text(i as int));
    } else {
        write_u64(out, i as u64);
    }
}

fn hex_char(d: u32) -> (c: char)
    requires
        d < 16,
    ensures
        c == hex_digit(d as int),
{
    if d < 10 {
        ((d as u8) + 48) as char
    } else {
        ((d as u8) + 87) as char
    }
}

fn write_escaped_char(out: &mut String, c: char)
    ensures
        final(out)@ == old(out)@ + escaped_char(c),
{
    if c == '"' {
        push_char(out, '\\');
        push_char(out, '"');
    } else if c == '\\' {
        push_char(out, '\\');
        push_char(out, '\\');
    } else if c == '\n' {
        push_char(out, '\\');
        push_char(out, 'n');
    } else if c == '\r' {
        push_char(out, '\\');
        push_char(out, 'r');
    } else if c == '\t' {
        push_char(out, '\\');
        push_char(out, 't');
    } else if c == '\x08' {
        push_char(out, '\\');
        push_char(out, 'b');
    } else if c == '\x0c' {
        push_char(out, '\\');
        push_char(out, 'f');
    } else if (c as u32) < 0x20 {
        push_char(out, '\\');
        push_char(out, 'u');
        push_char(out, '0');
        push_char(out, '0');
        push_char(out, hex_char((c as u32) / 16));
        push_char(out, hex_char((c as u32) % 16));
    } else {
        push_char(out, c);
    }
    assert(final(out)@ =~= old(out)@ + escaped_char(c));
}

/// Appends `s` as a JSON string literal.
pub(crate) fn write_string_literal(out: &mut String, s: &str)
    ensures
        final(out)@ == old(out)@ + string_literal(s@),
{
    let ghost start = out@;
    push_char(out, '"');
    let n = s.unicode_len();
    let mut i: usize = 0;
    while i < n
        invariant
            n == s@.len(),
            i <= n,
            out@ == start + seq!['"'] + escaped(s@.subrange(0, i as int)),
        decreases n - i,
    {
        let ghost before = out@;
        write_escaped_char(out, s.get_char(i));
        assert(s@.subrange(0, i as int + 1).drop_last() =~= s@.subrange(0, i as int));
        assert(out@ =~= start + seq!['"'] + escaped(s@.subrange(0, i as int + 1)));
        i = i + 1;
    }
    push_char(out, '"');
    assert(s@.subrange(0, n as int) =~= s@);
    assert(out@ =~= start + string_literal(s@));
}

fn write_number(out: &mut String, n: &JsonNumber)
    ensures
        final(out)@ == old(out)@ + number_text(*n),
{
    match n {
        JsonNumber::Int(i) => write_i64(out, *i),
        JsonNumber::UInt(u) => write_u64(out, *u),
        JsonNumber::Float(t) => out.append(t.as_str()),
    }
}

/// Appends the compact JSON text of `v`.
pub fn write_json(out: &mut String, v: &JsonValue)
    ensures
        final(out)@ == old(out)@ + json_text(*v),
    decreases v,
{
    let ghost start = out@;
    match v {
        JsonValue::Null => {
            out.append("null");
            proof {
                reveal_strlit("null");
            }
        },
        JsonValue::Bool(b) => {
            if *b {
                out.append("true");
                proof {
                    reveal_strlit("true");
                }
            } else {
                out.append("false");
                proof {
                    reveal_strlit("false");
                }
            }
        },
        JsonValue::Number(n) => write_number(out, n),
        JsonValue::String(s) => write_string_literal(out, s.as_str()),
        JsonValue::Array(items) => {
            push_char(out, '[');
            let mut i: usize = 0;
            while i < items.len()
                invariant
                    i <= items@.len(),
                    *v == JsonValue::Array(*items),
                    out@ == start + seq!['['] + elements_text(items@, i as int),
                decreases items@.len() - i,
            {
                if i > 0 {
                    push_char(out, ',');
                }
                proof {
                    broadcast use vstd::std_specs::vec::axiom_vec_index_decreases;

                    assert(decreases_to!(*items => items[i as int]));
                    assert(decreases_to!(*v => v->Array_0));
                    assert(decreases_to!(*v => items[i as int]));
                }
                write_json(out, &items[i]);
                assert(out@ =~= start + seq!['['] + elements_text(items@, i as int + 1));
                i = i + 1;
            }
            push_char(out, ']');
        },
        JsonValue::Object(members) => {
            push_char(out, '{');
            let mut i: usize = 0;
            while i < members.len()
                invariant
                    i <= members@.len(),
                    *v == JsonValue::Object(*members),
                    out@ == start + seq!['{'] + members_text(members@, i as int),
                decreases members@.len() - i,
            {
                if i > 0 {
                    push_char(out, ',');
                }
                write_string_literal(out, members[i].0.as_str());
                push_char(out, ':');
                proof {
                    broadcast use vstd::std_specs::vec::axiom_vec_index_decreases;

                    assert(decreases_to!(*members => members[i as int]));
                    assert(decreases_to!(members[i as int] => members[i as int].1));
                    assert(decreases_to!(*v => v->Object_0));
                    assert(decreases_to!(*v => members[i as int].1));
                }
                write_json(out, &members[i].1);
                assert(member_text(members@[i as int]) == string_literal(members@[i as int].0@)
                    + seq![':'] + json_text(members@[i as int].1));
                assert(out@ =~= start + seq!['{'] + members_text(members@, i as int + 1));
                i = i + 1;
            }
            push_char(out, '}');
        },
    }
    assert(out@ =~= start + json_text(*v));
}

/// The compact JSON text of `v`.
pub fn to_json_text(v: &JsonValue) -> (r: String)
    ensures
        r@ == json_text(*v),
{
    let mut s = String::new();
    write_json(&mut s, v);
    assert(s@ =~= json_text(*v));
    s
}

} // verus!
