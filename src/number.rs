use vstd::prelude::*;

verus! {

pub open spec fn is_digit(c: char) -> bool {
    '0' <= c && c <= '9'
}

pub open spec fn digit_value(c: char) -> nat {
    (c as u32 - '0' as u32) as nat
}

pub open spec fn digit_char(d: nat) -> char {
    if d == 0 { '0' }
    else if d == 1 { '1' }
    else if d == 2 { '2' }
    else if d == 3 { '3' }
    else if d == 4 { '4' }
    else if d == 5 { '5' }
    else if d == 6 { '6' }
    else if d == 7 { '7' }
    else if d == 8 { '8' }
    else { '9' }
}

pub open spec fn all_digits(s: Seq<char>) -> bool {
    forall|i: int| 0 <= i < s.len() ==> is_digit(#[trigger] s[i])
}

/// The natural number that a string of decimal digits denotes.
pub open spec fn digits_value(s: Seq<char>) -> nat
    decreases s.len(),
{
    if s.len() == 0 {
        0
    } else {
        digits_value(s.drop_last()) * 10 + digit_value(s.last())
    }
}

/// `s` without one leading sign character.
pub open spec fn unsigned_part(s: Seq<char>) -> Seq<char> {
    if s.len() > 0 && (s[0] == '-' || s[0] == '+') {
        s.drop_first()
    } else {
        s
    }
}

/// The integer that `s` denotes as a decimal `i64` literal (an optional sign, then digits),
/// or `None` where it is no such literal or lies outside the range of `i64`.
pub open spec fn int_literal_value(s: Seq<char>) -> Option<int> {
    let body = unsigned_part(s);
    let v = if s.len() > 0 && s[0] == '-' {
        -digits_value(body)
    } else {
        digits_value(body) as int
    };
    if body.len() > 0 && all_digits(body) && i64::MIN <= v && v <= i64::MAX {
        Some(v)
    } else {
        None
    }
}

/// Decimal digits of `n`, most significant first, without leading zeros.
pub open spec fn digits_of(n: nat) -> Seq<char>
    decreases n,
{
    if n < 10 {
        seq![digit_char(n)]
    } else {
        digits_of(n / 10).push(digit_char(n % 10))
    }
}

/// The decimal text of an integer, with a `-` before a negative one.
pub open spec fn decimal_text(i: int) -> Seq<char> {
    if i < 0 {
        seq!['-'] + digits_of((-i) as nat)
    } else {
        digits_of(i as nat)
    }
}

/// Count of leading decimal digits.
pub open spec fn lead_digits(s: Seq<char>) -> nat
    decreases s.len(),
{
    if s.len() > 0 && is_digit(s[0]) {
        1 + lead_digits(s.drop_first())
    } else {
        0
    }
}

/// `s` spells the lower-case word `w`, letter by letter in either case.
pub open spec fn spells(s: Seq<char>, w: Seq<char>) -> bool {
    s.len() == w.len() && forall|i: int|
        0 <= i < s.len() ==> (#[trigger] s[i] == w[i] || s[i] as u32 + 32 == w[i] as u32)
}

/// An exponent part: empty, or `e`/`E`, an optional sign and at least one digit.
pub open spec fn exponent_ok(t: Seq<char>) -> bool {
    t.len() == 0 || ((t[0] == 'e' || t[0] == 'E') && {
        let d = unsigned_part(t.drop_first());
        d.len() > 0 && lead_digits(d) == d.len()
    })
}

/// Digits with an optional fraction (at least one digit in all), then an optional exponent.
pub open spec fn decimal_number(r: Seq<char>) -> bool {
    let a = lead_digits(r);
    let r1 = r.skip(a as int);
    if r1.len() > 0 && r1[0] == '.' {
        let r2 = r1.drop_first();
        let b = lead_digits(r2);
        a + b > 0 && exponent_ok(r2.skip(b as int))
    } else {
        a > 0 && exponent_ok(r1)
    }
}

/// Whether `s` is text that `f64`'s `FromStr` accepts: an optional sign, then `inf`,
/// `infinity` or `nan` in any case, or a decimal number.
pub open spec fn is_float_text(s: Seq<char>) -> bool {
    let r = unsigned_part(s);
    ||| spells(r, seq!['i', 'n', 'f'])
    ||| spells(r, seq!['i', 'n', 'f', 'i', 'n', 'i', 't', 'y'])
    ||| spells(r, seq!['n', 'a', 'n'])
    ||| decimal_number(r)
}

pub proof fn lemma_digits_value_prefix(s: Seq<char>, k: int)
    requires
        0 <= k <= s.len(),
    ensures
        digits_value(s.take(k)) <= digits_value(s),
    decreases s.len() - k,
{
    if k < s.len() {
        lemma_digits_value_prefix(s, k + 1);
        assert(s.take(k + 1).drop_last() =~= s.take(k));
    } else {
        assert(s.take(k) =~= s);
    }
}

pub proof fn lemma_lead_digits(s: Seq<char>)
    ensures
        lead_digits(s) <= s.len(),
        forall|i: int| 0 <= i < lead_digits(s) ==> is_digit(#[trigger] s[i]),
        lead_digits(s) < s.len() ==> !is_digit(s[lead_digits(s) as int]),
    decreases s.len(),
{
    if s.len() > 0 && is_digit(s[0]) {
        lemma_lead_digits(s.drop_first());
        assert forall|i: int| 0 <= i < lead_digits(s) implies is_digit(#[trigger] s[i]) by {
            if i > 0 {
                assert(s[i] == s.drop_first()[i - 1]);
            }
        }
    }
}

/// Count of the leading digits of `s` from character `start` on.
fn digits_run(s: &str, start: usize) -> (r: usize)
    requires
        start <= s@.len(),
    ensures
        r == lead_digits(s@.skip(start as int)),
        start + r <= s@.len(),
{
    let n = s.unicode_len();
    let mut i = start;
    proof {
        lemma_lead_digits(s@.skip(start as int));
    }
    while i < n && is_digit_char(s.get_char(i))
        invariant
            n == s@.len(),
            start <= i <= n,
            i - start <= lead_digits(s@.skip(start as int)),
            lead_digits(s@.skip(start as int)) <= n - start,
            forall|k: int|
                0 <= k < lead_digits(s@.skip(start as int)) ==> is_digit(
                    #[trigger] s@.skip(start as int)[k],
                ),
            lead_digits(s@.skip(start as int)) < n - start ==> !is_digit(
                s@.skip(start as int)[lead_digits(s@.skip(start as int)) as int],
            ),
        decreases n - i,
    {
        assert(s@.skip(start as int)[i - start] == s@[i as int]);
        i = i + 1;
    }
    if i < n {
        assert(s@.skip(start as int)[i - start] == s@[i as int]);
    }
    i - start
}

fn is_digit_char(c: char) -> (r: bool)
    ensures
        r == is_digit(c),
{
    '0' <= c && c <= '9'
}

/// Parses a decimal `i64` literal.
pub fn parse_i64(s: &str) -> (r: Option<i64>)
    ensures
        match int_literal_value(s@) {
            Some(v) => r == Some(v as i64),
            None => r is None,
        },
{
    let n = s.unicode_len();
    let mut start: usize = 0;
    let mut neg = false;
    if n > 0 {
        let c = s.get_char(0);
        if c == '-' || c == '+' {
            start = 1;
            neg = c == '-';
        }
    }
    let ghost body = unsigned_part(s@);
    assert(body =~= s@.skip(start as int));
    if start == n {
        return None;
    }
    let limit: u128 = 9223372036854775808;
    let mut acc: u128 = 0;
    let mut i = start;
    while i < n
        invariant
            n == s@.len(),
            start <= i <= n,
            body =~= s@.skip(start as int),
            body == unsigned_part(s@),
            limit == 9223372036854775808,
            neg == (s@.len() > 0 && s@[0] == '-'),
            start == 0 || start == 1,
            start == 1 ==> (s@[0] == '-' || s@[0] == '+'),
            start == 0 ==> !(s@.len() > 0 && (s@[0] == '-' || s@[0] == '+')),
            acc == digits_value(body.take(i - start)),
            acc <= limit,
            all_digits(body.take(i - start)),
        decreases n - i,
    {
        let c = s.get_char(i);
        if !is_digit_char(c) {
            proof {
                assert(body[i - start] == c);
                assert(!all_digits(body));
                assert(int_literal_value(s@) is None);
            }
            return None;
        }
        assert(c as u32 - '0' as u32 <= 9);
        let d = (c as u32 - '0' as u32) as u128;
        assert(acc * 10 + d <= limit * 10 + 9) by (nonlinear_arith)
            requires
                acc <= limit,
                d <= 9,
        ;
        proof {
            let t = body.take(i - start + 1);
            assert(t.drop_last() =~= body.take(i - start));
            assert(t.last() == c);
            assert(all_digits(t)) by {
                assert forall|k: int| 0 <= k < t.len() implies is_digit(#[trigger] t[k]) by {
                    if k < t.len() - 1 {
                        assert(t[k] == body.take(i - start)[k]);
                    }
                }
            }
        }
        acc = acc * 10 + d;
        i = i + 1;
        assert(acc == digits_value(body.take(i - start)));
        if acc > limit {
            proof {
                lemma_digits_value_prefix(body, i - start);
                assert(digits_value(body) > limit);
            }
            return None;
        }
    }
    assert(body.take(i - start) =~= body);
    if neg {
        Some((0 - (acc as i128)) as i64)
    } else if acc == limit {
        None
    } else {
        Some(acc as i64)
    }
}

fn digit_str(d: u64) -> (r: &'static str)
    requires
        d < 10,
    ensures
        r@ == seq![digit_char(d as nat)],
{
    proof {
        reveal_strlit("0");
        reveal_strlit("1");
        reveal_strlit("2");
        reveal_strlit("3");
        reveal_strlit("4");
        reveal_strlit("5");
        reveal_strlit("6");
        reveal_strlit("7");
        reveal_strlit("8");
        reveal_strlit("9");
    }
    if d == 0 { "0" }
    else if d == 1 { "1" }
    else if d == 2 { "2" }
    else if d == 3 { "3" }
    else if d == 4 { "4" }
    else if d == 5 { "5" }
    else if d == 6 { "6" }
    else if d == 7 { "7" }
    else if d == 8 { "8" }
    else { "9" }
}

fn push_digits(out: &mut String, n: u64)
    ensures
        final(out)@ == old(out)@ + digits_of(n as nat),
    decreases n,
{
    if n >= 10 {
        push_digits(out, n / 10);
    }
    out.append(digit_str(n % 10));
    proof {
        if n >= 10 {
            assert(digits_of(n as nat) == digits_of((n / 10) as nat).push(digit_char((n % 10) as nat)));
        }
    }
    assert(final(out)@ =~= old(out)@ + digits_of(n as nat));
}

/// The decimal text of `i`, as `i64`'s `to_string` writes it.
pub fn int_to_string(i: i64) -> (r: String)
    ensures
        r@ == decimal_text(i as int),
{
    let mut out = String::new();
    if i < 0 {
        proof {
            reveal_strlit("-");
        }
        out.append("-");
        let m = (0 - (i as i128)) as u64;
        push_digits(&mut out, m);
    } else {
        push_digits(&mut out, i as u64);
    }
    assert(out@ =~= decimal_text(i as int));
    out
}


/// Whether the characters of `s` from `start` on spell the lower-case word `w`.
fn spells_at(s: &str, start: usize, w: &str) -> (r: bool)
    requires
        start <= s@.len(),
    ensures
        r == spells(s@.skip(start as int), w@),
{
    let n = s.unicode_len();
    let m = w.unicode_len();
    if n - start != m {
        return false;
    }
    let mut i: usize = 0;
    while i < m
        invariant
            n == s@.len(),
            m == w@.len(),
            n - start == m,
            i <= m,
            forall|k: int|
                0 <= k < i ==> (#[trigger] s@.skip(start as int)[k] == w@[k] || s@.skip(
                    start as int,
                )[k] as u32 + 32 == w@[k] as u32),
        decreases m - i,
    {
        let a = s.get_char(start + i);
        let b = w.get_char(i);
        assert(s@.skip(start as int)[i as int] == a);
        if !(a == b || a as u32 + 32 == b as u32) {
            return false;
        }
        i = i + 1;
    }
    true
}

/// Whether the characters of `s` from `p` on form an exponent part.
fn exponent_at(s: &str, p: usize) -> (r: bool)
    requires
        p <= s@.len(),
    ensures
        r == exponent_ok(s@.skip(p as int)),
{
    let n = s.unicode_len();
    if p == n {
        return true;
    }
    let c = s.get_char(p);
    assert(s@.skip(p as int)[0] == c);
    if c != 'e' && c != 'E' {
        return false;
    }
    let mut q = p + 1;
    if q < n {
        let c2 = s.get_char(q);
        if c2 == '-' || c2 == '+' {
            q = q + 1;
        }
    }
    assert(unsigned_part(s@.skip(p as int).drop_first()) =~= s@.skip(q as int));
    let d = digits_run(s, q);
    d > 0 && q + d == n
}

/// Whether `s` is text that `f64`'s `FromStr` accepts.
pub fn is_float(s: &str) -> (r: bool)
    ensures
        r == is_float_text(s@),
{
    let n = s.unicode_len();
    let mut st: usize = 0;
    if n > 0 {
        let c = s.get_char(0);
        if c == '-' || c == '+' {
            st = 1;
        }
    }
    let ghost r0 = unsigned_part(s@);
    assert(r0 =~= s@.skip(st as int));
    proof {
        reveal_strlit("inf");
        reveal_strlit("infinity");
        reveal_strlit("nan");
        assert("inf"@ =~= seq!['i', 'n', 'f']);
        assert("infinity"@ =~= seq!['i', 'n', 'f', 'i', 'n', 'i', 't', 'y']);
        assert("nan"@ =~= seq!['n', 'a', 'n']);
    }
    if spells_at(s, st, "inf") || spells_at(s, st, "infinity") || spells_at(s, st, "nan") {
        return true;
    }
    let a = digits_run(s, st);
    let p = st + a;
    assert(r0.skip(a as int) =~= s@.skip(p as int));
    if p < n && s.get_char(p) == '.' {
        assert(r0.skip(a as int).drop_first() =~= s@.skip(p + 1));
        let b = digits_run(s, p + 1);
        assert(r0.skip(a as int).drop_first().skip(b as int) =~= s@.skip(p + 1 + b));
        a + b > 0 && exponent_at(s, p + 1 + b)
    } else {
        a > 0 && exponent_at(s, p)
    }
}

} // verus!
