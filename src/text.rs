//! Amounts cross the market's boundary as decimal text.
use vstd::prelude::*;

verus! {

pub open spec fn is_digit(c: char) -> bool {
    '0' <= c && c <= '9'
}

pub open spec fn digit_value(c: char) -> nat {
    (c as int - '0' as int) as nat
}

pub open spec fn digit_char(d: nat) -> char {
    if d == 0 {
        '0'
    } else if d == 1 {
        '1'
    } else if d == 2 {
        '2'
    } else if d == 3 {
        '3'
    } else if d == 4 {
        '4'
    } else if d == 5 {
        '5'
    } else if d == 6 {
        '6'
    } else if d == 7 {
        '7'
    } else if d == 8 {
        '8'
    } else {
        '9'
    }
}

/// The number that a run of decimal digits spells.
pub open spec fn digits_value(s: Seq<char>) -> nat
    decreases s.len(),
{
    if s.len() == 0 {
        0
    } else {
        digits_value(s.drop_last()) * 10 + digit_value(s.last())
    }
}

/// The text without a leading `+`, where it has one.
pub open spec fn unsigned_body(s: Seq<char>) -> Seq<char> {
    if s.len() > 0 && s[0] == '+' {
        s.subrange(1, s.len() as int)
    } else {
        s
    }
}

/// The amount that `s` denotes: an optional `+` and then one or more
/// decimal digits whose value fits in 64 bits.
pub open spec fn decimal_value(s: Seq<char>) -> Option<u64> {
    let body = unsigned_body(s);
    if body.len() > 0 && (forall|i: int| 0 <= i < body.len() ==> is_digit(#[trigger] body[i]))
        && digits_value(body) <= u64::MAX {
        Some(digits_value(body) as u64)
    } else {
        None
    }
}

/// The decimal digits of `n`, without leading zeros.
pub open spec fn decimal_text(n: nat) -> Seq<char>
    decreases n,
{
    if n < 10 {
        seq![digit_char(n)]
    } else {
        decimal_text(n / 10).push(digit_char(n % 10))
    }
}

/// Appends the character of digit `d`.
fn push_digit_char(out: &mut String, d: u64)
    requires
        d < 10,
    ensures
        final(out)@ == old(out)@.push(digit_char(d as nat)),
{
    let digits: &str = "0123456789";
    proof {
        reveal_strlit("0123456789");
        assert(digits@ =~= seq!['0', '1', '2', '3', '4', '5', '6', '7', '8', '9']);
    }
    let one = digits.substring_char(d as usize, (d + 1) as usize);
    out.append(one);
    proof {
        assert(one@ =~= seq![digits@[d as int]]);
        assert(digits@[d as int] == digit_char(d as nat));
        assert(final(out)@ =~= old(out)@.push(digit_char(d as nat)));
    }
}

/// The decimal digits of `n`, without leading zeros.
pub fn amount_text(n: u64) -> (r: String)
    ensures
        r@ == decimal_text(n as nat),
    decreases n,
{
    if n < 10 {
        let mut r = String::new();
        push_digit_char(&mut r, n);
        proof {
            assert(r@ =~= seq![digit_char(n as nat)]);
        }
        r
    } else {
        let mut r = amount_text(n / 10);
        push_digit_char(&mut r, n % 10);
        r
    }
}

/// For a run of digits, the value of a prefix never exceeds the value of a
/// longer prefix.
proof fn lemma_prefix_value_grows(s: Seq<char>, j: int, k: int)
    requires
        0 <= j <= k <= s.len(),
    ensures
        digits_value(s.subrange(0, j)) <= digits_value(s.subrange(0, k)),
    decreases k - j,
{
    if j < k {
        lemma_prefix_value_grows(s, j, k - 1);
        assert(s.subrange(0, k).drop_last() =~= s.subrange(0, k - 1));
    }
}

/// The amount that `s` denotes: an optional `+` and then one or more
/// decimal digits whose value fits in 64 bits; `None` for any other text.
pub fn parse_amount(s: &String) -> (r: Option<u64>)
    ensures
        r == decimal_value(s@),
{
    let t = s.as_str();
    let n = t.unicode_len();
    let ghost body = unsigned_body(s@);
    let start: usize = if n > 0 && t.get_char(0) == '+' {
        1
    } else {
        0
    };
    proof {
        assert(body.len() == n - start);
        assert forall|j: int| 0 <= j < body.len() implies body[j] == s@[start + j] by {}
    }
    if start == n {
        return None;
    }
    let mut value: u64 = 0;
    let mut i: usize = start;
    while i < n
        invariant
            n == s@.len(),
            t@ == s@,
            start <= i <= n,
            body == unsigned_body(s@),
            body.len() == n - start,
            forall|j: int| 0 <= j < body.len() ==> body[j] == s@[start + j],
            forall|j: int| 0 <= j < i - start ==> is_digit(#[trigger] body[j]),
            value == digits_value(body.subrange(0, i - start)),
        decreases n - i,
    {
        let c = t.get_char(i);
        if !('0' <= c && c <= '9') {
            assert(!is_digit(body[i - start]));
            return None;
        }
        let d: u64 = (c as u32 - '0' as u32) as u64;
        proof {
            assert(body.subrange(0, i - start + 1).drop_last() =~= body.subrange(0, i - start));
            assert(d == digit_value(body[i - start]));
        }
        if value > (u64::MAX - d) / 10 {
            proof {
                assert(digits_value(body.subrange(0, i - start + 1)) > u64::MAX);
                if forall|j: int| 0 <= j < body.len() ==> is_digit(#[trigger] body[j]) {
                    lemma_prefix_value_grows(body, i - start + 1, body.len() as int);
                    assert(body.subrange(0, body.len() as int) =~= body);
                }
            }
            return None;
        }
        value = value * 10 + d;
        i = i + 1;
    }
    proof {
        assert(body.subrange(0, body.len() as int) =~= body);
    }
    Some(value)
}

/// Whether `s` spells exactly `lit`.
pub fn text_is(s: &String, lit: &str) -> (r: bool)
    ensures
        r == (s@ == lit@),
{
    let a = s.as_str();
    let n = a.unicode_len();
    if n != lit.unicode_len() {
        return false;
    }
    let mut i: usize = 0;
    while i < n
        invariant
            n == a@.len(),
            n == lit@.len(),
            a@ == s@,
            i <= n,
            forall|j: int| 0 <= j < i ==> a@[j] == lit@[j],
        decreases n - i,
    {
        if a.get_char(i) != lit.get_char(i) {
            return false;
        }
        i = i + 1;
    }
    assert(a@ =~= lit@);
    true
}

} // verus!
