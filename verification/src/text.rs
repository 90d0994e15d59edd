//! Small verified operations on identifier and literal text.
use vstd::prelude::*;

verus! {

/// Why a decimal literal could not be read as an unsigned integer.
#[derive(Debug, Clone, Copy, PartialEq, Eq, Structural)]
pub enum IntParseFailure {
    /// The text is empty.
    Empty,
    /// A character is not a decimal digit.
    InvalidDigit,
    /// The value does not fit in the target type.
    PosOverflow,
}

impl IntParseFailure {
    /// The message std gives for this failure.
    pub fn message(&self) -> (s: &'static str)
        ensures
            s@ == self.spec_message(),
    {
        match self {
            IntParseFailure::Empty => "cannot parse integer from empty string",
            IntParseFailure::InvalidDigit => "invalid digit found in string",
            IntParseFailure::PosOverflow => "number too large to fit in target type",
        }
    }

    pub open spec fn spec_message(&self) -> Seq<char> {
        match self {
            IntParseFailure::Empty => "cannot parse integer from empty string"@,
            IntParseFailure::InvalidDigit => "invalid digit found in string"@,
            IntParseFailure::PosOverflow => "number too large to fit in target type"@,
        }
    }
}

pub open spec fn is_decimal_digit(c: char) -> bool {
    '0' <= c && c <= '9'
}

pub open spec fn digit_value(c: char) -> nat {
    (c as int - '0' as int) as nat
}

/// Reading the decimal digits `d` from left to right into a value bounded by
/// `max`: the first character that is no digit, or the first digit after which
/// the value exceeds `max`, decides the failure.
pub open spec fn parse_digits(d: Seq<char>, max: nat) -> Result<nat, IntParseFailure>
    decreases d.len(),
{
    if d.len() == 0 {
        Ok(0)
    } else {
        match parse_digits(d.drop_last(), max) {
            Err(e) => Err(e),
            Ok(v) => if !is_decimal_digit(d.last()) {
                Err(IntParseFailure::InvalidDigit)
            } else if v * 10 + digit_value(d.last()) > max {
                Err(IntParseFailure::PosOverflow)
            } else {
                Ok(v * 10 + digit_value(d.last()))
            },
        }
    }
}

/// What `str::parse` gives for an unsigned integer type whose largest value is
/// `max`: an optional leading `+`, then decimal digits.
pub open spec fn parse_unsigned(s: Seq<char>, max: nat) -> Result<nat, IntParseFailure> {
    if s.len() == 0 {
        Err(IntParseFailure::Empty)
    } else if (s[0] == '+' || s[0] == '-') && s.len() == 1 {
        Err(IntParseFailure::InvalidDigit)
    } else if s[0] == '+' {
        parse_digits(s.drop_first(), max)
    } else {
        parse_digits(s, max)
    }
}

/// The value of a text of decimal digits.
pub open spec fn decimal_value(d: Seq<char>) -> nat
    decreases d.len(),
{
    if d.len() == 0 {
        0
    } else {
        decimal_value(d.drop_last()) * 10 + digit_value(d.last())
    }
}

pub open spec fn all_digits(d: Seq<char>) -> bool {
    forall|i: int| 0 <= i < d.len() ==> is_decimal_digit(#[trigger] d[i])
}

/// Reading a text of decimal digits gives its value when that fits under
/// `max`, and an overflow when it does not; whatever is read fits under `max`.
pub proof fn lemma_parse_digits_value(d: Seq<char>, max: nat)
    ensures
        parse_digits(d, max) matches Ok(v) ==> v <= max && v == decimal_value(d),
        all_digits(d) && decimal_value(d) <= max ==> parse_digits(d, max) == Ok::<nat, IntParseFailure>(
            decimal_value(d),
        ),
        all_digits(d) && decimal_value(d) > max ==> parse_digits(d, max) == Err::<nat, IntParseFailure>(
            IntParseFailure::PosOverflow,
        ),
    decreases d.len(),
{
    if d.len() > 0 {
        let rest = d.drop_last();
        lemma_parse_digits_value(rest, max);
        if all_digits(d) {
            assert(all_digits(rest)) by {
                assert forall|i: int| 0 <= i < rest.len() implies is_decimal_digit(#[trigger] rest[i]) by {
                    assert(rest[i] == d[i]);
                }
            }
            assert(is_decimal_digit(d[d.len() - 1]));
            if decimal_value(d) > max && decimal_value(rest) > max {
                assert(parse_digits(rest, max) is Err);
            }
        }
    }
}

/// Reads the digits of `s` from position `start` on.
fn parse_digits_from(s: &str, start: usize, max: u64) -> (r: Result<u64, IntParseFailure>)
    requires
        start <= s@.len(),
    ensures
        match parse_digits(s@.subrange(start as int, s@.len() as int), max as nat) {
            Ok(v) => r == Ok::<u64, IntParseFailure>(v as u64),
            Err(e) => r == Err::<u64, IntParseFailure>(e),
        },
{
    let n = s.unicode_len();
    let mut i = start;
    let mut value: u64 = 0;
    assert(s@.subrange(start as int, start as int) =~= Seq::<char>::empty());
    while i < n
        invariant
            n == s@.len(),
            start <= i <= n,
            parse_digits(s@.subrange(start as int, i as int), max as nat) == Ok::<nat, IntParseFailure>(
                value as nat,
            ),
        decreases n - i,
    {
        let c = s.get_char(i);
        let ghost prefix = s@.subrange(start as int, i as int);
        let ghost next_seq = s@.subrange(start as int, i + 1);
        assert(next_seq.drop_last() =~= prefix);
        assert(next_seq.last() == c);
        if !('0' <= c && c <= '9') {
            proof {
                lemma_parse_digits_err_extends(s@.subrange(start as int, s@.len() as int), (i + 1 - start) as nat, max as nat);
                assert(s@.subrange(start as int, s@.len() as int).subrange(0, (i + 1 - start) as int) =~= next_seq);
            }
            return Err(IntParseFailure::InvalidDigit);
        }
        proof {
            lemma_parse_digits_value(prefix, max as nat);
        }
        let d = (c as u32 - '0' as u32) as u64;
        assert(d == digit_value(c));
        let next: u128 = value as u128 * 10 + d as u128;
        if next > max as u128 {
            proof {
                lemma_parse_digits_err_extends(s@.subrange(start as int, s@.len() as int), (i + 1 - start) as nat, max as nat);
                assert(s@.subrange(start as int, s@.len() as int).subrange(0, (i + 1 - start) as int) =~= next_seq);
            }
            return Err(IntParseFailure::PosOverflow);
        }
        value = next as u64;
        i = i + 1;
    }
    assert(s@.subrange(start as int, i as int) =~= s@.subrange(start as int, s@.len() as int));
    Ok(value)
}

/// A failure on a prefix of the digits is the failure of the whole text.
proof fn lemma_parse_digits_err_extends(d: Seq<char>, k: nat, max: nat)
    requires
        k <= d.len(),
    ensures
        parse_digits(d.subrange(0, k as int), max) is Err ==> parse_digits(d, max)
            == parse_digits(d.subrange(0, k as int), max),
    decreases d.len() - k,
{
    if k < d.len() {
        lemma_parse_digits_err_extends(d, k + 1, max);
        let p = d.subrange(0, (k + 1) as int);
        assert(p.drop_last() =~= d.subrange(0, k as int));
    } else {
        assert(d.subrange(0, k as int) =~= d);
    }
}

/// Reads `s` as an unsigned integer no larger than `max`, as `str::parse`
/// does for the unsigned type whose largest value is `max`.
pub fn parse_unsigned_text(s: &str, max: u64) -> (r: Result<u64, IntParseFailure>)
    ensures
        match parse_unsigned(s@, max as nat) {
            Ok(v) => r == Ok::<u64, IntParseFailure>(v as u64),
            Err(e) => r == Err::<u64, IntParseFailure>(e),
        },
{
    let n = s.unicode_len();
    if n == 0 {
        return Err(IntParseFailure::Empty);
    }
    let first = s.get_char(0);
    if (first == '+' || first == '-') && n == 1 {
        return Err(IntParseFailure::InvalidDigit);
    }
    if first == '+' {
        assert(s@.subrange(1, s@.len() as int) =~= s@.drop_first());
        parse_digits_from(s, 1, max)
    } else {
        assert(s@.subrange(0, s@.len() as int) =~= s@);
        parse_digits_from(s, 0, max)
    }
}

/// An identifier's text as `format_ident!` interpolates it: without the
/// `r#` of a raw identifier.
pub open spec fn unraw(s: Seq<char>) -> Seq<char> {
    if s.len() >= 2 && s[0] == 'r' && s[1] == '#' {
        s.skip(2)
    } else {
        s
    }
}

/// Only a raw identifier's `r#` is dropped: a text that does not start with
/// `r#` is kept whole (so `render` stays `render`), and `r#` followed by any
/// text gives that text.
pub proof fn lemma_unraw(s: Seq<char>, t: Seq<char>)
    ensures
        !(s.len() >= 2 && s[0] == 'r' && s[1] == '#') ==> unraw(s) == s,
        unraw(seq!['r', '#'] + t) == t,
{
    let raw = seq!['r', '#'] + t;
    assert(raw[0] == 'r' && raw[1] == '#');
    assert(raw.skip(2) =~= t);
}

pub fn unraw_ident(s: &String) -> (r: String)
    ensures
        r@ == unraw(s@),
{
    let t = s.as_str();
    let n = t.unicode_len();
    if n >= 2 && t.get_char(0) == 'r' && t.get_char(1) == '#' {
        t.substring_char(2, n).to_owned()
    } else {
        s.clone()
    }
}

/// The text `a`, then `b`.
pub fn concat2(a: &str, b: &str) -> (r: String)
    ensures
        r@ == a@ + b@,
{
    let mut r = a.to_owned();
    r.append(b);
    r
}

/// The text `a`, then `b`, then `c`.
pub fn concat3(a: &str, b: &str, c: &str) -> (r: String)
    ensures
        r@ == a@ + b@ + c@,
{
    let mut r = a.to_owned();
    r.append(b);
    r.append(c);
    r
}

/// The upper-case form of `s` under Unicode's case mapping.
pub uninterp spec fn uppercase(s: Seq<char>) -> Seq<char>;

/// Calls `str::to_uppercase`, which maps every character to its upper-case
/// form by Unicode's tables (independent of locale). The contract names the
/// result; the mapping itself is not stated.
#[verifier::external_body]
pub(crate) fn to_uppercase(s: &String) -> (r: String)
    ensures
        r@ == uppercase(s@),
{
    s.to_uppercase()
}

} // verus!
