//! Reading decimal integers from text, as `str::parse` does for the
//! integer types.
use vstd::prelude::*;

verus! {

/// Whether `c` is an ASCII decimal digit.
pub open spec fn is_digit(c: char) -> bool {
    '0' <= c && c <= '9'
}

/// Whether `s` is non-empty and made of ASCII decimal digits only.
pub open spec fn all_digits(s: Seq<char>) -> bool {
    s.len() > 0 && forall|i: int| 0 <= i < s.len() ==> is_digit(#[trigger] s[i])
}

/// The value of the decimal digits `s`.
pub open spec fn digits_value(s: Seq<char>) -> int
    decreases s.len(),
{
    if s.len() == 0 {
        0
    } else {
        digits_value(s.drop_last()) * 10 + (s.last() as int - '0' as int)
    }
}

/// The integer written in `s`: an optional sign (`'-'` only where `signed`)
/// and at least one ASCII digit, with no bound on its size.
pub open spec fn int_text_value(s: Seq<char>, signed: bool) -> Option<int> {
    if s.len() > 0 && (s[0] == '+' || (signed && s[0] == '-')) {
        if all_digits(s.drop_first()) {
            if s[0] == '-' {
                Some(-digits_value(s.drop_first()))
            } else {
                Some(digits_value(s.drop_first()))
            }
        } else {
            None
        }
    } else if all_digits(s) {
        Some(digits_value(s))
    } else {
        None
    }
}

/// The largest magnitude that `parse_int` reads exactly.
pub open spec fn read_cap() -> int {
    0x1_0000_0000_0000_0000
}

/// The value of digits is never negative.
pub proof fn lemma_digits_value_nonneg(s: Seq<char>)
    requires
        forall|i: int| 0 <= i < s.len() ==> is_digit(#[trigger] s[i]),
    ensures
        digits_value(s) >= 0,
    decreases s.len(),
{
    if s.len() > 0 {
        lemma_digits_value_nonneg(s.drop_last());
    }
}

proof fn lemma_digits_value_grows(s: Seq<char>, i: int)
    requires
        0 <= i <= s.len(),
        forall|k: int| 0 <= k < s.len() ==> is_digit(#[trigger] s[k]),
    ensures
        digits_value(s) >= digits_value(s.take(i)),
    decreases s.len() - i,
{
    if i < s.len() {
        let t = s.take(i + 1);
        assert(t.drop_last() == s.take(i));
        lemma_digits_value_nonneg(s.take(i));
        assert(digits_value(t) >= digits_value(s.take(i)));
        lemma_digits_value_grows(s, i + 1);
    } else {
        assert(s.take(i) == s);
    }
}

/// The integer written in `s` (an optional sign, `'-'` only where `signed`,
/// then ASCII digits); `None` when `s` is no such text or its magnitude
/// exceeds `read_cap()`.
pub fn parse_int(s: &[char], signed: bool) -> (r: Option<i128>)
    ensures
        r matches Some(v) ==> int_text_value(s@, signed) == Some(v as int) && -read_cap() <= v
            <= read_cap(),
        r is None ==> (int_text_value(s@, signed) matches Some(v) ==> (v > read_cap() || v
            < -read_cap())),
{
    let n = s.len();
    let mut start: usize = 0;
    let mut negative = false;
    if n > 0 && (s[0] == '+' || (signed && s[0] == '-')) {
        start = 1;
        negative = s[0] == '-';
    }
    let ghost d = s@.subrange(start as int, n as int);
    proof {
        if start == 1 {
            assert(d == s@.drop_first());
        } else {
            assert(d == s@);
        }
    }
    if start == n {
        return None;
    }
    let mut m: u128 = 0;
    let mut i: usize = start;
    while i < n
        invariant
            start <= i <= n == s.len(),
            start < n,
            start <= 1,
            (start == 1) == (s@.len() > 0 && (s@[0] == '+' || (signed && s@[0] == '-'))),
            negative == (start == 1 && s@[0] == '-'),
            d == s@.subrange(start as int, n as int),
            m == digits_value(d.take(i - start)),
            m <= read_cap(),
            forall|k: int| 0 <= k < i - start ==> is_digit(#[trigger] d[k]),
        decreases n - i,
    {
        let c = s[i];
        if !('0' <= c && c <= '9') {
            assert(!is_digit(d[i - start]));
            assert(!all_digits(d));
            proof {
                if start == 1 {
                    assert(s@.len() > 0 && (s@[0] == '+' || (signed && s@[0] == '-')));
                } else {
                    assert(!(s@.len() > 0 && (s@[0] == '+' || (signed && s@[0] == '-'))));
                }
            }
            assert(int_text_value(s@, signed) is None);
            return None;
        }
        let dv = (c as u32 - '0' as u32) as u128;
        assert(d.take(i - start + 1).drop_last() == d.take(i - start));
        assert(d.take(i - start + 1).last() == c);
        if m > (0x1_0000_0000_0000_0000u128 - dv) / 10 {
            proof {
                let t = d.take(i - start + 1);
                let mm = m as int;
                let dd = dv as int;
                assert(mm * 10 + dd > 0x1_0000_0000_0000_0000int) by (nonlinear_arith)
                    requires
                        mm > (0x1_0000_0000_0000_0000int - dd) / 10,
                        0 <= dd <= 9,
                ;
                assert(t.drop_last() == d.take(i - start));
                assert(digits_value(t) == mm * 10 + dd);
                assert(digits_value(t) > read_cap());
                if all_digits(d) {
                    lemma_digits_value_grows(d, i - start + 1);
                    assert(digits_value(d) > read_cap());
                    if start == 1 {
                        assert(d == s@.drop_first());
                    } else {
                        assert(d == s@);
                    }
                }
                if start == 1 {
                    assert(s@.len() > 0 && (s@[0] == '+' || (signed && s@[0] == '-')));
                } else {
                    assert(!(s@.len() > 0 && (s@[0] == '+' || (signed && s@[0] == '-'))));
                }
            }
            return None;
        }
        m = m * 10 + dv;
        i += 1;
    }
    assert(d.take(n - start) == d);
    let v = m as i128;
    if negative {
        Some(-v)
    } else {
        Some(v)
    }
}

/// The ASCII digit for `d`, below ten.
pub open spec fn digit_char(d: int) -> char {
    if d == 0 {
        '0'
    } else if d == 1 {
        '1'
    } else if d == 2 {
        '2'
    } else if d == 3 {
        '3'
    } else if d == 4 {
        '4'
    } else if d == 5 {
        '5'
    } else if d == 6 {
        '6'
    } else if d == 7 {
        '7'
    } else if d == 8 {
        '8'
    } else {
        '9'
    }
}

/// The decimal digits of `n`, without leading zeros.
pub open spec fn nat_text(n: nat) -> Seq<char>
    decreases n,
{
    if n < 10 {
        seq![digit_char(n as int)]
    } else {
        nat_text(n / 10).push(digit_char((n % 10) as int))
    }
}

/// The decimal text of `n`: `'-'` before the digits of a negative number.
pub open spec fn int_text(n: int) -> Seq<char> {
    if n < 0 {
        seq!['-'] + nat_text((-n) as nat)
    } else {
        nat_text(n as nat)
    }
}

fn push_nat_digits(m: u64, out: &mut Vec<char>)
    ensures
        final(out)@ == old(out)@ + nat_text(m as nat),
    decreases m,
{
    if m >= 10 {
        push_nat_digits(m / 10, out);
    }
    let d: u64 = m % 10;
    let c = if d == 0 {
        '0'
    } else if d == 1 {
        '1'
    } else if d == 2 {
        '2'
    } else if d == 3 {
        '3'
    } else if d == 4 {
        '4'
    } else if d == 5 {
        '5'
    } else if d == 6 {
        '6'
    } else if d == 7 {
        '7'
    } else if d == 8 {
        '8'
    } else {
        '9'
    };
    assert(c == digit_char(d as int));
    out.push(c);
}

/// The decimal text of `n`, as `i64::to_string` writes it.
pub fn i64_text(n: i64) -> (r: String)
    ensures
        r@ == int_text(n as int),
{
    let mut out: Vec<char> = Vec::new();
    let m: u64 = if n < 0 {
        out.push('-');
        (0i128 - n as i128) as u64
    } else {
        n as u64
    };
    push_nat_digits(m, &mut out);
    assert(out@ =~= int_text(n as int));
    crate::strings::string_of(&out)
}

/// The decimal digits of `m`.
pub fn u128_text(m: u128) -> (r: Vec<char>)
    ensures
        r@ == nat_text(m as nat),
    decreases m,
{
    let mut out: Vec<char> = if m >= 10 {
        u128_text(m / 10)
    } else {
        Vec::new()
    };
    let d: u128 = m % 10;
    let c = if d == 0 {
        '0'
    } else if d == 1 {
        '1'
    } else if d == 2 {
        '2'
    } else if d == 3 {
        '3'
    } else if d == 4 {
        '4'
    } else if d == 5 {
        '5'
    } else if d == 6 {
        '6'
    } else if d == 7 {
        '7'
    } else if d == 8 {
        '8'
    } else {
        '9'
    };
    assert(c == digit_char(d as int));
    out.push(c);
    assert(out@ =~= nat_text(m as nat));
    out
}

proof fn lemma_digit_char(d: int)
    requires
        0 <= d < 10,
    ensures
        digit_char(d) as int == d + 48,
        is_digit(digit_char(d)),
{
}

proof fn lemma_nat_text_digits(n: nat)
    ensures
        all_digits(nat_text(n)),
        digits_value(nat_text(n)) == n,
    decreases n,
{
    if n < 10 {
        lemma_digit_char(n as int);
        let t = nat_text(n);
        assert(t.drop_last() =~= Seq::<char>::empty());
        assert(digits_value(t.drop_last()) == 0);
        assert(t.last() == digit_char(n as int));
        assert(digits_value(t) == digits_value(t.drop_last()) * 10 + (t.last() as int - '0' as int));
        assert('0' as int == 48);
    } else {
        lemma_nat_text_digits(n / 10);
        let s = nat_text(n / 10);
        let t = nat_text(n);
        assert(t.drop_last() == s);
        vstd::arithmetic::div_mod::lemma_fundamental_div_mod(n as int, 10);
        lemma_digit_char((n % 10) as int);
        assert(t.last() == digit_char((n % 10) as int));
        assert(digits_value(t) == digits_value(s) * 10 + (t.last() as int - '0' as int));
        assert('0' as int == 48);
        assert(digits_value(s) == n / 10);
        assert(forall|i: int| 0 <= i < t.len() ==> is_digit(#[trigger] t[i])) by {
            assert forall|i: int| 0 <= i < t.len() implies is_digit(#[trigger] t[i]) by {
                if i < s.len() {
                    assert(t[i] == s[i]);
                }
            }
        }
    }
}

/// Reading back the decimal text of a number gives the number.
pub proof fn lemma_int_text_reads_back(n: int)
    ensures
        int_text_value(int_text(n), true) == Some(n),
{
    if n < 0 {
        lemma_nat_text_digits((-n) as nat);
        let t = int_text(n);
        assert(t.drop_first() =~= nat_text((-n) as nat));
        assert(t[0] == '-');
    } else {
        lemma_nat_text_digits(n as nat);
        let t = nat_text(n as nat);
        assert(is_digit(t[0]));
    }
}

} // verus!
