//! Proposal numbers and their decimal notation on the wire.

use crate::text::is_word;
use vstd::prelude::*;
use vstd::string::*;

verus! {

/// Identifies one epoch of the protocol. Larger numbers are later epochs.
pub type ProposalNumber = u8;

/// The largest proposal number there is.
pub const MAX_PROPOSAL_NUMBER: ProposalNumber = 255;

/// Whether `c` is one of the decimal digits `0` to `9`.
pub open spec fn is_digit(c: char) -> bool {
    '0' <= c && c <= '9'
}

/// The value of a decimal digit.
pub open spec fn digit_value(c: char) -> nat
    recommends
        is_digit(c),
{
    (c as int - '0' as int) as nat
}

/// The decimal digit that stands for `d`.
pub open spec fn digit_char(d: nat) -> char
    recommends
        d < 10,
{
    if d == 0 {
        '0'
    } else if d == 1 {
        '1'
    } else if d == 2 {
        '2'
    } else if d == 3 {
        '3'
    } else if d == 4 {
        '4'
    } else if d == 5 {
        '5'
    } else if d == 6 {
        '6'
    } else if d == 7 {
        '7'
    } else if d == 8 {
        '8'
    } else {
        '9'
    }
}

/// Decimal notation of `n`, without sign or leading zeros.
pub open spec fn digits(n: nat) -> Seq<char>
    decreases n,
{
    if n < 10 {
        seq![digit_char(n)]
    } else {
        digits(n / 10).push(digit_char(n % 10))
    }
}

/// Whether `s` holds decimal digits only.
pub open spec fn all_digits(s: Seq<char>) -> bool {
    forall|i: int| 0 <= i < s.len() ==> is_digit(#[trigger] s[i])
}

/// The number that a run of decimal digits denotes.
pub open spec fn decimal_value(s: Seq<char>) -> nat
    decreases s.len(),
{
    if s.len() == 0 {
        0
    } else {
        decimal_value(s.drop_last()) * 10 + digit_value(s.last())
    }
}

/// What is left of `s` once an optional leading `+` is taken away.
pub open spec fn unsigned_part(s: Seq<char>) -> Seq<char> {
    if s.len() > 0 && s[0] == '+' {
        s.drop_first()
    } else {
        s
    }
}

/// The natural number that `s` denotes: an optional `+` and then one or more decimal
/// digits. Anything else denotes no number.
pub open spec fn parse_decimal(s: Seq<char>) -> Option<nat> {
    let d = unsigned_part(s);
    if d.len() > 0 && all_digits(d) {
        Some(decimal_value(d))
    } else {
        None
    }
}

/// The proposal number that `s` denotes, if it denotes a number and that number is in
/// range.
pub open spec fn number_of(s: Seq<char>) -> Option<ProposalNumber> {
    match parse_decimal(s) {
        Some(v) => if v <= MAX_PROPOSAL_NUMBER {
            Some(v as ProposalNumber)
        } else {
            None
        },
        None => None,
    }
}

/// Decimal notation holds digits only, so it is a word.
pub proof fn lemma_digits_word(n: nat)
    ensures
        is_word(digits(n)),
        all_digits(digits(n)),
        digits(n)[0] != '+',
    decreases n,
{
    if n >= 10 {
        lemma_digits_word(n / 10);
    }
}

/// Reading the decimal notation of a number gives the number back.
pub proof fn lemma_decimal_value_digits(n: nat)
    ensures
        decimal_value(digits(n)) == n,
    decreases n,
{
    if n < 10 {
        assert(decimal_value(digits(n).drop_last()) == 0);
    } else {
        lemma_decimal_value_digits(n / 10);
        assert(digits(n).drop_last() =~= digits(n / 10));
    }
}

/// The notation of a proposal number denotes that number.
pub proof fn lemma_number_of_digits(n: ProposalNumber)
    ensures
        number_of(digits(n as nat)) == Some(n),
{
    lemma_digits_word(n as nat);
    lemma_decimal_value_digits(n as nat);
}

/// A prefix of a run of digits denotes no more than the whole run.
pub proof fn lemma_decimal_value_prefix(s: Seq<char>, k: int)
    requires
        0 <= k <= s.len(),
    ensures
        decimal_value(s.take(k)) <= decimal_value(s),
    decreases s.len(),
{
    if k == s.len() {
        assert(s.take(k) =~= s);
    } else {
        lemma_decimal_value_prefix(s.drop_last(), k);
        assert(s.drop_last().take(k) =~= s.take(k));
        assert(decimal_value(s.drop_last()) * 10 >= decimal_value(s.drop_last()))
            by (nonlinear_arith);
    }
}

/// The decimal digit for `d` as a string.
fn digit_str(d: u8) -> (r: &'static str)
    requires
        d < 10,
    ensures
        r@ == seq![digit_char(d as nat)],
{
    proof {
        reveal_strlit("0");
        reveal_strlit("1");
        reveal_strlit("2");
        reveal_strlit("3");
        reveal_strlit("4");
        reveal_strlit("5");
        reveal_strlit("6");
        reveal_strlit("7");
        reveal_strlit("8");
        reveal_strlit("9");
    }
    if d == 0 {
        "0"
    } else if d == 1 {
        "1"
    } else if d == 2 {
        "2"
    } else if d == 3 {
        "3"
    } else if d == 4 {
        "4"
    } else if d == 5 {
        "5"
    } else if d == 6 {
        "6"
    } else if d == 7 {
        "7"
    } else if d == 8 {
        "8"
    } else {
        "9"
    }
}

/// Appends the decimal notation of `n` to `out`.
pub fn push_number(out: &mut String, n: ProposalNumber)
    ensures
        final(out)@ == old(out)@ + digits(n as nat),
    decreases n,
{
    if n >= 10 {
        push_number(out, n / 10);
    }
    out.append(digit_str(n % 10));
}

/// The decimal notation of `n`.
pub fn number_to_string(n: ProposalNumber) -> (out: String)
    ensures
        out@ == digits(n as nat),
{
    let mut out = String::new();
    push_number(&mut out, n);
    out
}

/// Reads a proposal number: an optional `+`, then decimal digits, in range.
pub fn parse_number(token: &str) -> (r: Option<ProposalNumber>)
    ensures
        r == number_of(token@),
{
    let n = token.unicode_len();
    let ghost d = unsigned_part(token@);
    let ghost offset: int = token@.len() - d.len();
    let mut value: u16 = 0;
    let mut seen: usize = 0;
    let mut i: usize = 0;
    for c in it: token.chars()
        invariant
            it.seq() == token@,
            n == token@.len(),
            i == it.index(),
            d == unsigned_part(token@),
            offset == token@.len() - d.len(),
            0 <= offset <= 1,
            i == 0 ==> seen == 0,
            i > 0 ==> seen == i - offset,
            seen <= d.len(),
            forall|k: int| 0 <= k < seen ==> is_digit(#[trigger] d[k]),
            value == decimal_value(d.take(seen as int)),
            value <= MAX_PROPOSAL_NUMBER,
    {
        if '0' <= c && c <= '9' {
            let digit = (c as u32 - '0' as u32) as u16;
            assert(d.take(seen + 1).drop_last() =~= d.take(seen as int));
            value = value * 10 + digit;
            if value > MAX_PROPOSAL_NUMBER as u16 {
                proof {
                    if all_digits(d) {
                        lemma_decimal_value_prefix(d, seen + 1);
                    }
                }
                return None;
            }
            seen += 1;
        } else if i != 0 || c != '+' {
            assert(!is_digit(d[seen as int]));
            return None;
        }
        i += 1;
    }
    if seen == 0 {
        return None;
    }
    assert(d.take(seen as int) =~= d);
    Some(value as ProposalNumber)
}

} // verus!
