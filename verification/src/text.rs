use vstd::prelude::*;

verus! {

/// The characters of `s`, in order.
pub(crate) fn chars_of(s: &str) -> (v: Vec<char>)
    ensures
        v@ == s@,
{
    broadcast use vstd::string::axiom_spec_iter;
    let mut v: Vec<char> = Vec::new();
    for c in it: s.chars()
        invariant
            it.seq() == s@,
            v@ == it.seq().take(it.index() as int),
    {
        v.push(c);
        proof {
            assert(v@ =~= it.seq().take(it.index() + 1));
        }
    }
    v
}

/// A `String` holding the characters of `v`, in order.
///
/// Wraps `String`'s `FromIterator<char>` impl; the contract claims that the
/// string is made of exactly the characters of `v`.
#[verifier::external_body]
pub(crate) fn string_from_chars(v: &Vec<char>) -> (s: String)
    ensures
        s@ == v@,
{
    v.iter().collect()
}

/// Unicode's `White_Space` property, the set `char::is_whitespace` tests.
pub open spec fn is_whitespace_spec(c: char) -> bool {
    ||| c == '\t' || c == '\n' || c == '\u{0B}' || c == '\u{0C}' || c == '\r' || c == ' '
    ||| c == '\u{85}' || c == '\u{A0}' || c == '\u{1680}'
    ||| ('\u{2000}' <= c && c <= '\u{200A}')
    ||| c == '\u{2028}' || c == '\u{2029}' || c == '\u{202F}' || c == '\u{205F}'
    ||| c == '\u{3000}'
}

/// Whether `c` is a Unicode white-space character.
pub fn is_whitespace(c: char) -> (b: bool)
    ensures
        b == is_whitespace_spec(c),
{
    c == '\t' || c == '\n' || c == '\u{0B}' || c == '\u{0C}' || c == '\r' || c == ' '
        || c == '\u{85}' || c == '\u{A0}' || c == '\u{1680}' || ('\u{2000}' <= c && c
        <= '\u{200A}') || c == '\u{2028}' || c == '\u{2029}' || c == '\u{202F}' || c
        == '\u{205F}' || c == '\u{3000}'
}

/// The decimal digit for `d`, below ten.
pub open spec fn digit_char(d: nat) -> char {
    if d == 0 {
        '0'
    } else if d == 1 {
        '1'
    } else if d == 2 {
        '2'
    } else if d == 3 {
        '3'
    } else if d == 4 {
        '4'
    } else if d == 5 {
        '5'
    } else if d == 6 {
        '6'
    } else if d == 7 {
        '7'
    } else if d == 8 {
        '8'
    } else {
        '9'
    }
}

/// The decimal digits of `n`, as `Display` writes an unsigned integer.
pub open spec fn decimal_spec(n: nat) -> Seq<char>
    decreases n,
{
    if n < 10 {
        seq![digit_char(n)]
    } else {
        decimal_spec(n / 10).push(digit_char(n % 10))
    }
}

fn digit(d: u64) -> (c: char)
    requires
        d < 10,
    ensures
        c == digit_char(d as nat),
{
    if d == 0 {
        '0'
    } else if d == 1 {
        '1'
    } else if d == 2 {
        '2'
    } else if d == 3 {
        '3'
    } else if d == 4 {
        '4'
    } else if d == 5 {
        '5'
    } else if d == 6 {
        '6'
    } else if d == 7 {
        '7'
    } else if d == 8 {
        '8'
    } else {
        '9'
    }
}

/// Ten to the power `k`.
pub open spec fn pow10(k: nat) -> nat
    decreases k,
{
    if k == 0 {
        1
    } else {
        10 * pow10((k - 1) as nat)
    }
}

/// The decimal digits of `n` are digits, at least one of them, and no more
/// than `k` when `n` is below ten to the power `k`.
pub proof fn lemma_decimal_digits(n: nat, k: nat)
    requires
        k >= 1,
        n < pow10(k),
    ensures
        1 <= decimal_spec(n).len() <= k,
        forall|j: int| 0 <= j < decimal_spec(n).len() ==> '0' <= #[trigger] decimal_spec(n)[j] <= '9',
    decreases n,
{
    if n >= 10 {
        assert(k >= 2) by {
            if k == 1 {
                assert(pow10(1) == 10) by {
                    reveal_with_fuel(pow10, 2);
                }
            }
        }
        let p = pow10((k - 1) as nat);
        assert(n / 10 < p) by (nonlinear_arith)
            requires
                n < 10 * p,
        ;
        lemma_decimal_digits(n / 10, (k - 1) as nat);
        let d = decimal_spec(n / 10);
        assert forall|j: int| 0 <= j < decimal_spec(n).len() implies '0' <= #[trigger] decimal_spec(n)[j] <= '9' by {
            if j < d.len() {
                assert(decimal_spec(n)[j] == d[j]);
            }
        }
    }
}

/// A 64-bit number has at most twenty decimal digits.
pub proof fn lemma_decimal_u64(n: nat)
    requires
        n <= u64::MAX,
    ensures
        1 <= decimal_spec(n).len() <= 20,
        forall|j: int| 0 <= j < decimal_spec(n).len() ==> '0' <= #[trigger] decimal_spec(n)[j] <= '9',
{
    assert(pow10(20) == 100000000000000000000) by {
        reveal_with_fuel(pow10, 21);
    }
    lemma_decimal_digits(n, 20);
}

/// Different numbers are written differently.
pub proof fn lemma_decimal_injective(n: nat, m: nat)
    requires
        decimal_spec(n) == decimal_spec(m),
    ensures
        n == m,
    decreases n,
{
    if n >= 10 && m >= 10 {
        assert(decimal_spec(n).drop_last() == decimal_spec(n / 10));
        assert(decimal_spec(m).drop_last() == decimal_spec(m / 10));
        lemma_decimal_injective(n / 10, m / 10);
        assert(decimal_spec(n).last() == digit_char(n % 10));
    } else if n >= 10 {
        assert(decimal_spec(n).len() >= 2) by {
            lemma_pow10_above(n / 10);
            lemma_decimal_digits(n / 10, n / 10 + 1);
        }
    } else if m >= 10 {
        assert(decimal_spec(m).len() >= 2) by {
            lemma_pow10_above(m / 10);
            lemma_decimal_digits(m / 10, m / 10 + 1);
        }
    } else {
        assert(decimal_spec(n)[0] == digit_char(n));
    }
}

/// Ten to the power `k + 1` is above `k`.
pub proof fn lemma_pow10_above(k: nat)
    ensures
        k < pow10(k + 1),
    decreases k,
{
    if k > 0 {
        lemma_pow10_above((k - 1) as nat);
        assert(pow10(k + 1) == 10 * pow10(k));
    } else {
        assert(pow10(1) == 10) by {
            reveal_with_fuel(pow10, 2);
        }
    }
}

fn decimal_chars(n: u64) -> (v: Vec<char>)
    ensures
        v@ == decimal_spec(n as nat),
    decreases n,
{
    if n < 10 {
        let mut v: Vec<char> = Vec::new();
        v.push(digit(n));
        proof {
            assert(v@ == seq![digit_char(n as nat)]);
        }
        v
    } else {
        let mut v = decimal_chars(n / 10);
        v.push(digit(n % 10));
        v
    }
}

/// `n` written in decimal.
pub fn decimal(n: u64) -> (s: String)
    ensures
        s@ == decimal_spec(n as nat),
{
    let v = decimal_chars(n);
    string_from_chars(&v)
}

/// The value of a decimal digit character.
pub open spec fn digit_value(c: char) -> Option<nat> {
    if '0' <= c && c <= '9' {
        Some((c as nat - '0' as nat) as nat)
    } else {
        None
    }
}

/// The value of a run of decimal digits, if each is one.
pub open spec fn digits_value(cs: Seq<char>) -> Option<nat>
    decreases cs.len(),
{
    if cs.len() == 0 {
        Some(0)
    } else {
        match (digits_value(cs.drop_last()), digit_value(cs.last())) {
            (Some(v), Some(d)) => Some(v * 10 + d),
            _ => None,
        }
    }
}

/// What `str::parse::<u32>` gives: an optional `+`, then one or more decimal
/// digits whose value fits.
pub open spec fn parse_u32_spec(cs: Seq<char>) -> Option<u32> {
    let body = if cs.len() > 0 && cs[0] == '+' {
        cs.skip(1)
    } else {
        cs
    };
    if body.len() == 0 {
        None
    } else {
        match digits_value(body) {
            Some(v) => if v <= u32::MAX {
                Some(v as u32)
            } else {
                None
            },
            None => None,
        }
    }
}

/// Reads an unsigned 32-bit integer written in decimal, with an optional
/// leading `+`.
pub fn parse_u32(s: &str) -> (r: Option<u32>)
    ensures
        r == parse_u32_spec(s@),
{
    let cs = chars_of(s);
    let start: usize = if cs.len() > 0 && cs[0] == '+' {
        1
    } else {
        0
    };
    let ghost body = if s@.len() > 0 && s@[0] == '+' {
        s@.skip(1)
    } else {
        s@
    };
    if start >= cs.len() {
        return None;
    }
    let mut acc: u64 = 0;
    let mut over = false;
    let mut i: usize = start;
    while i < cs.len()
        invariant
            cs@ == s@,
            start <= i <= cs@.len(),
            start < cs@.len(),
            body == cs@.skip(start as int),
            body == (if s@.len() > 0 && s@[0] == '+' {
                s@.skip(1)
            } else {
                s@
            }),
            digits_value(body.take(i - start)) is Some,
            !over ==> digits_value(body.take(i - start)) == Some(acc as nat),
            !over ==> acc <= u32::MAX,
            over ==> digits_value(body.take(i - start))->0 > u32::MAX,
        decreases cs@.len() - i,
    {
        let c = cs[i];
        proof {
            assert(body.take(i - start + 1).drop_last() == body.take(i - start));
            assert(body.take(i - start + 1).last() == c);
        }
        if c < '0' || c > '9' {
            proof {
                assert(digit_value(c) is None);
                assert(digits_value(body.take(i - start + 1)) is None);
                lemma_digits_none(body, i - start + 1);
                assert(digits_value(body) is None);
                assert(body.len() > 0);
                assert(parse_u32_spec(s@) is None);
            }
            return None;
        }
        let d: u64 = (c as u32 - '0' as u32) as u64;
        if !over {
            acc = acc * 10 + d;
            if acc > u32::MAX as u64 {
                over = true;
            }
        }
        i = i + 1;
    }
    proof {
        assert(body.take(body.len() as int) == body);
    }
    if over {
        None
    } else {
        Some(acc as u32)
    }
}

/// A run with a non-digit in its first `k` characters has no value.
proof fn lemma_digits_none(cs: Seq<char>, k: int)
    requires
        0 < k <= cs.len(),
        digits_value(cs.take(k)) is None,
    ensures
        digits_value(cs) is None,
    decreases cs.len() - k,
{
    if k < cs.len() {
        assert(cs.take(k + 1).drop_last() == cs.take(k));
        lemma_digits_none(cs, k + 1);
    } else {
        assert(cs.take(k) == cs);
    }
}

/// Whether two strings hold the same characters.
pub fn same_text(a: &str, b: &str) -> (r: bool)
    ensures
        r == (a@ == b@),
{
    let x = chars_of(a);
    let y = chars_of(b);
    if x.len() != y.len() {
        return false;
    }
    let mut i: usize = 0;
    while i < x.len()
        invariant
            x@ == a@,
            y@ == b@,
            x@.len() == y@.len(),
            0 <= i <= x@.len(),
            forall|j: int| 0 <= j < i ==> x@[j] == y@[j],
        decreases x@.len() - i,
    {
        if x[i] != y[i] {
            return false;
        }
        i = i + 1;
    }
    assert(x@ =~= y@);
    true
}

} // verus!
