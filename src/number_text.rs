//! Reading decimal integers out of chart text fields.
use vstd::prelude::*;

verus! {

pub open spec fn is_digit(c: char) -> bool {
    '0' <= c && c <= '9'
}

pub open spec fn all_digits(s: Seq<char>) -> bool {
    forall|i: int| 0 <= i < s.len() ==> is_digit(#[trigger] s[i])
}

/// The value of a string of decimal digits, most significant first.
pub open spec fn digits_value(s: Seq<char>) -> int
    decreases s.len(),
{
    if s.len() == 0 {
        0
    } else {
        digits_value(s.drop_last()) * 10 + (s.last() as int - '0' as int)
    }
}

/// The non-negative integer written as an optional `+` and one or more digits.
pub open spec fn unsigned_of_text(s: Seq<char>) -> Option<int> {
    if s.len() > 1 && s[0] == '+' && all_digits(s.drop_first()) {
        Some(digits_value(s.drop_first()))
    } else if s.len() > 0 && all_digits(s) {
        Some(digits_value(s))
    } else {
        None
    }
}

/// The integer written as an optional sign and one or more digits.
pub open spec fn signed_of_text(s: Seq<char>) -> Option<int> {
    if s.len() > 1 && s[0] == '-' && all_digits(s.drop_first()) {
        Some(-digits_value(s.drop_first()))
    } else {
        unsigned_of_text(s)
    }
}

/// The `u32` that a text denotes, if it denotes one.
pub open spec fn u32_of_text(s: Seq<char>) -> Option<u32> {
    match unsigned_of_text(s) {
        Some(v) => if v <= u32::MAX {
            Some(v as u32)
        } else {
            None
        },
        None => None,
    }
}

/// The `i32` that a text denotes, if it denotes one.
pub open spec fn i32_of_text(s: Seq<char>) -> Option<i32> {
    match signed_of_text(s) {
        Some(v) => if i32::MIN <= v <= i32::MAX {
            Some(v as i32)
        } else {
            None
        },
        None => None,
    }
}

proof fn lemma_digits_value_nonneg(s: Seq<char>)
    requires
        all_digits(s),
    ensures
        digits_value(s) >= 0,
    decreases s.len(),
{
    if s.len() > 0 {
        assert(is_digit(s[s.len() - 1]));
        lemma_digits_value_nonneg(s.drop_last());
    }
}

proof fn lemma_digits_value_prefix(s: Seq<char>, i: int)
    requires
        all_digits(s),
        0 <= i <= s.len(),
    ensures
        digits_value(s.take(i)) <= digits_value(s),
    decreases s.len(),
{
    if i < s.len() {
        let t = s.drop_last();
        assert(s.take(i) =~= t.take(i));
        assert(is_digit(s[s.len() - 1]));
        lemma_digits_value_prefix(t, i);
        lemma_digits_value_nonneg(t);
    } else {
        assert(s.take(i) =~= s);
    }
}

/// Reads the digits of `s` from `start` to its end; `None` when there are
/// none, when one is not a digit, or when the value exceeds `bound`.
fn digits_up_to(s: &str, start: usize, bound: u64) -> (r: Option<u64>)
    requires
        bound <= 0x1_0000_0000,
    ensures
        match r {
            Some(v) => start < s@.len() && all_digits(s@.skip(start as int)) && v == digits_value(
                s@.skip(start as int),
            ) && v <= bound,
            None => !(start < s@.len() && all_digits(s@.skip(start as int)) && digits_value(
                s@.skip(start as int),
            ) <= bound),
        },
{
    let n = s.unicode_len();
    if start >= n {
        return None;
    }
    let ghost rest = s@.skip(start as int);
    let mut v: u64 = 0;
    let mut i: usize = start;
    while i < n
        invariant
            n == s@.len(),
            start <= i <= n,
            rest == s@.skip(start as int),
            all_digits(rest.take(i - start)),
            v == digits_value(rest.take(i - start)),
            v <= bound,
            bound <= 0x1_0000_0000,
        decreases n - i,
    {
        let c = s.get_char(i);
        if !('0' <= c && c <= '9') {
            proof {
                assert(rest[i - start] == c);
            }
            return None;
        }
        let d: u64 = (c as u32 - '0' as u32) as u64;
        proof {
            assert(v * 10 + d <= 0x1_0000_0000 * 10 + 9) by (nonlinear_arith)
                requires
                    v <= 0x1_0000_0000,
                    d <= 9,
            ;
            let p = rest.take(i - start + 1);
            assert(p.drop_last() =~= rest.take(i - start));
            assert(p.last() == c);
            assert forall|j: int| 0 <= j < p.len() implies is_digit(#[trigger] p[j]) by {
                if j < p.len() - 1 {
                    assert(p[j] == rest.take(i - start)[j]);
                }
            }
        }
        v = v * 10 + d;
        if v > bound {
            proof {
                let p = rest.take(i - start + 1);
                if all_digits(rest) {
                    lemma_digits_value_prefix(rest, i - start + 1);
                }
            }
            return None;
        }
        i = i + 1;
    }
    proof {
        assert(rest.take(i - start) =~= rest);
    }
    Some(v)
}

/// Parses a `u32` written in decimal, with an optional leading `+`.
pub fn parse_u32(s: &str) -> (r: Option<u32>)
    ensures
        r == u32_of_text(s@),
{
    let n = s.unicode_len();
    if n > 1 && s.get_char(0) == '+' {
        proof {
            assert(s@.skip(1) =~= s@.drop_first());
        }
        match digits_up_to(s, 1, 0xffff_ffff) {
            Some(v) => Some(v as u32),
            None => None,
        }
    } else {
        proof {
            assert(s@.skip(0) =~= s@);
            if n > 1 && s@[0] == '+' {
            }
            assert(s@.len() > 0 && s@[0] == '+' ==> !all_digits(s@));
        }
        match digits_up_to(s, 0, 0xffff_ffff) {
            Some(v) => Some(v as u32),
            None => None,
        }
    }
}

/// Parses an `i32` written in decimal, with an optional leading sign.
pub fn parse_i32(s: &str) -> (r: Option<i32>)
    ensures
        r == i32_of_text(s@),
{
    let n = s.unicode_len();
    if n > 1 && s.get_char(0) == '-' {
        proof {
            assert(s@.skip(1) =~= s@.drop_first());
        }
        match digits_up_to(s, 1, 0x8000_0000) {
            Some(v) => Some((0i64 - v as i64) as i32),
            None => None,
        }
    } else if n > 1 && s.get_char(0) == '+' {
        proof {
            assert(s@.skip(1) =~= s@.drop_first());
            assert(!all_digits(s@)) by {
                assert(!is_digit(s@[0]));
            }
        }
        match digits_up_to(s, 1, 0x7fff_ffff) {
            Some(v) => Some(v as i32),
            None => None,
        }
    } else {
        proof {
            assert(s@.skip(0) =~= s@);
        }
        match digits_up_to(s, 0, 0x7fff_ffff) {
            Some(v) => Some(v as i32),
            None => None,
        }
    }
}

/// The decimal digits, by value.
pub open spec fn digit_chars() -> Seq<char> {
    seq!['0', '1', '2', '3', '4', '5', '6', '7', '8', '9']
}

/// The shortest decimal text of `n`.
pub open spec fn text_of_nat(n: nat) -> Seq<char>
    decreases n,
{
    if n < 10 {
        seq![digit_chars()[n as int]]
    } else {
        text_of_nat(n / 10).push(digit_chars()[(n % 10) as int])
    }
}

/// The decimal text of `n`, with a leading `-` when it is negative.
pub open spec fn text_of_int(n: int) -> Seq<char> {
    if n < 0 {
        seq!['-'] + text_of_nat((-n) as nat)
    } else {
        text_of_nat(n as nat)
    }
}

proof fn lemma_digit_char(d: int)
    requires
        0 <= d < 10,
    ensures
        is_digit(digit_chars()[d]),
        digit_chars()[d] as int - '0' as int == d,
{
    if d == 0 {
    } else if d == 1 {
    } else if d == 2 {
    } else if d == 3 {
    } else if d == 4 {
    } else if d == 5 {
    } else if d == 6 {
    } else if d == 7 {
    } else if d == 8 {
    } else {
    }
}

proof fn lemma_text_of_nat(n: nat)
    ensures
        text_of_nat(n).len() > 0,
        all_digits(text_of_nat(n)),
        digits_value(text_of_nat(n)) == n,
    decreases n,
{
    let t = text_of_nat(n);
    if n < 10 {
        lemma_digit_char(n as int);
        assert(t.drop_last() =~= Seq::<char>::empty());
        assert(digits_value(t.drop_last()) == 0);
        assert(digits_value(t) == digits_value(t.drop_last()) * 10 + (t.last() as int - '0' as int));
    } else {
        lemma_text_of_nat(n / 10);
        lemma_digit_char((n % 10) as int);
        let u = text_of_nat(n / 10);
        assert(t.drop_last() =~= u);
        assert forall|i: int| 0 <= i < t.len() implies is_digit(#[trigger] t[i]) by {
            if i < u.len() {
                assert(t[i] == u[i]);
            }
        }
        assert(t.last() == digit_chars()[(n % 10) as int]);
        assert(digits_value(t) == digits_value(u) * 10 + (t.last() as int - '0' as int));
        assert(n == (n / 10) * 10 + n % 10);
    }
}

/// Reading back the text of a `u32` gives the number.
pub proof fn lemma_u32_text_round_trip(n: u32)
    ensures
        u32_of_text(text_of_int(n as int)) == Some(n),
{
    let t = text_of_nat(n as nat);
    lemma_text_of_nat(n as nat);
    assert(is_digit(t[0]));
}

/// Reading back the text of an `i32` gives the number.
pub proof fn lemma_i32_text_round_trip(n: i32)
    ensures
        i32_of_text(text_of_int(n as int)) == Some(n),
{
    if n < 0 {
        let u = text_of_nat((-n) as nat);
        lemma_text_of_nat((-n) as nat);
        let t = seq!['-'] + u;
        assert(t.drop_first() =~= u);
    } else {
        let t = text_of_nat(n as nat);
        lemma_text_of_nat(n as nat);
        assert(is_digit(t[0]));
    }
}

fn digit_text(d: u64) -> (r: &'static str)
    requires
        d < 10,
    ensures
        r@ == seq![digit_chars()[d as int]],
{
    let all = "0123456789";
    proof {
        reveal_strlit("0123456789");
    }
    let r = all.substring_char(d as usize, d as usize + 1);
    proof {
        assert(r@ =~= seq![digit_chars()[d as int]]);
    }
    r
}

/// The decimal text of `n`.
pub fn text_of_u64(n: u64) -> (r: String)
    ensures
        r@ == text_of_nat(n as nat),
    decreases n,
{
    if n < 10 {
        String::from_str(digit_text(n))
    } else {
        let mut s = text_of_u64(n / 10);
        s.append(digit_text(n % 10));
        s
    }
}

/// The decimal text of `n`.
pub fn format_u32(n: u32) -> (r: String)
    ensures
        r@ == text_of_int(n as int),
{
    text_of_u64(n as u64)
}

/// The decimal text of `n`, with a leading `-` when it is negative.
pub fn format_i32(n: i32) -> (r: String)
    ensures
        r@ == text_of_int(n as int),
{
    if n < 0 {
        let mut s = String::from_str("-");
        proof {
            reveal_strlit("-");
        }
        let digits = text_of_u64((0i64 - n as i64) as u64);
        s.append(digits.as_str());
        s
    } else {
        text_of_u64(n as u64)
    }
}

} // verus!
