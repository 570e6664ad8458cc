//! Decimal text of registration ids.
//!
//! The broker knows a binding by a textual id and echoes that text back in
//! every notification. The engine writes the id in decimal and reads it back
//! with the grammar of `u32`'s `FromStr`: an optional `+`, then one or more
//! ASCII digits whose value fits in 32 bits.

use vstd::prelude::*;
use vstd::string::StringExecFns;

use crate::trigger::KeybindId;

verus! {

/// The digit character for `d`; meaningful for `d < 10`.
pub open spec fn digit_char(d: nat) -> char {
    if d == 0 {
        '0'
    } else if d == 1 {
        '1'
    } else if d == 2 {
        '2'
    } else if d == 3 {
        '3'
    } else if d == 4 {
        '4'
    } else if d == 5 {
        '5'
    } else if d == 6 {
        '6'
    } else if d == 7 {
        '7'
    } else if d == 8 {
        '8'
    } else {
        '9'
    }
}

/// The value of an ASCII digit, `None` for every other character.
pub open spec fn digit_value(c: char) -> Option<nat> {
    if c == '0' {
        Some(0)
    } else if c == '1' {
        Some(1)
    } else if c == '2' {
        Some(2)
    } else if c == '3' {
        Some(3)
    } else if c == '4' {
        Some(4)
    } else if c == '5' {
        Some(5)
    } else if c == '6' {
        Some(6)
    } else if c == '7' {
        Some(7)
    } else if c == '8' {
        Some(8)
    } else if c == '9' {
        Some(9)
    } else {
        None
    }
}

/// `n` written in decimal, without sign and without leading zeros.
pub open spec fn decimal_text(n: nat) -> Seq<char>
    decreases n,
{
    if n < 10 {
        seq![digit_char(n)]
    } else {
        decimal_text(n / 10).push(digit_char(n % 10))
    }
}

/// Every character of `s` is an ASCII digit.
pub open spec fn all_digits(s: Seq<char>) -> bool {
    forall|i: int| 0 <= i < s.len() ==> (#[trigger] digit_value(s[i])) is Some
}

/// The number that a run of digits denotes, most significant digit first.
/// A character that is no digit counts as zero.
pub open spec fn digits_value(s: Seq<char>) -> nat
    decreases s.len(),
{
    if s.len() == 0 {
        0
    } else {
        let low = match digit_value(s.last()) {
            Some(d) => d,
            None => 0,
        };
        digits_value(s.drop_last()) * 10 + low
    }
}

/// The digits of an id text: the text itself, or what follows one leading `+`.
pub open spec fn unsigned_part(s: Seq<char>) -> Seq<char> {
    if s.len() > 0 && s[0] == '+' {
        s.subrange(1, s.len() as int)
    } else {
        s
    }
}

/// The id that a text denotes, if it denotes one.
pub open spec fn id_of_text(s: Seq<char>) -> Option<KeybindId> {
    let digits = unsigned_part(s);
    if digits.len() > 0 && all_digits(digits) && digits_value(digits) <= u32::MAX {
        Some(digits_value(digits) as u32)
    } else {
        None
    }
}

/// Dropping trailing digits never makes the value larger.
proof fn lemma_digits_value_prefix(s: Seq<char>, k: int)
    requires
        0 <= k <= s.len(),
    ensures
        digits_value(s.subrange(0, k)) <= digits_value(s),
    decreases s.len() - k,
{
    if k == s.len() {
        assert(s.subrange(0, k) =~= s);
    } else {
        lemma_digits_value_prefix(s.drop_last(), k);
        assert(s.drop_last().subrange(0, k) =~= s.subrange(0, k));
    }
}

/// The decimal text of a number consists of digits, does not start with a
/// sign, and denotes that number.
pub proof fn lemma_decimal_text_digits(n: nat)
    ensures
        decimal_text(n).len() > 0,
        all_digits(decimal_text(n)),
        decimal_text(n)[0] != '+',
        digits_value(decimal_text(n)) == n,
    decreases n,
{
    if n < 10 {
        let t = decimal_text(n);
        assert(t.drop_last() =~= Seq::<char>::empty());
        assert(digits_value(t.drop_last()) == 0);
    } else {
        lemma_decimal_text_digits(n / 10);
        let head = decimal_text(n / 10);
        let t = decimal_text(n);
        assert(t.drop_last() =~= head);
        assert(t.last() == digit_char(n % 10));
        assert forall|i: int| 0 <= i < t.len() implies (#[trigger] digit_value(t[i])) is Some by {
            if i < head.len() {
                assert(t[i] == head[i]);
            }
        }
    }
}

/// An id written by the engine and echoed by the broker reads back as the
/// same id.
pub proof fn lemma_id_text_round_trip(id: KeybindId)
    ensures
        id_of_text(decimal_text(id as nat)) == Some(id),
{
    lemma_decimal_text_digits(id as nat);
}

fn digit_str(d: u32) -> (s: &'static str)
    requires
        d < 10,
    ensures
        s@ == seq![digit_char(d as nat)],
{
    proof {
        reveal_strlit("0");
        reveal_strlit("1");
        reveal_strlit("2");
        reveal_strlit("3");
        reveal_strlit("4");
        reveal_strlit("5");
        reveal_strlit("6");
        reveal_strlit("7");
        reveal_strlit("8");
        reveal_strlit("9");
    }
    let s = if d == 0 {
        "0"
    } else if d == 1 {
        "1"
    } else if d == 2 {
        "2"
    } else if d == 3 {
        "3"
    } else if d == 4 {
        "4"
    } else if d == 5 {
        "5"
    } else if d == 6 {
        "6"
    } else if d == 7 {
        "7"
    } else if d == 8 {
        "8"
    } else {
        "9"
    };
    assert(s@ =~= seq![digit_char(d as nat)]);
    s
}

/// Writes an id as the text under which the broker knows the binding.
pub fn id_text(id: KeybindId) -> (text: String)
    ensures
        text@ == decimal_text(id as nat),
{
    let mut rest: u32 = id / 10;
    let mut text = String::from_str(digit_str(id % 10));
    while rest > 0
        invariant
            rest > 0 ==> decimal_text(id as nat) == decimal_text(rest as nat) + text@,
            rest == 0 ==> decimal_text(id as nat) == text@,
        decreases rest,
    {
        let ghost before = text@;
        let digit = digit_str(rest % 10);
        text = String::from_str(digit).concat(text.as_str());
        proof {
            let d = seq![digit_char((rest % 10) as nat)];
            assert(text@ == d + before);
            if rest >= 10 {
                assert(decimal_text(rest as nat) + before =~= decimal_text((rest / 10) as nat)
                    + text@);
            } else {
                assert(decimal_text(rest as nat) + before =~= text@);
            }
        }
        rest = rest / 10;
    }
    text
}

fn digit_of(c: char) -> (d: Option<u32>)
    ensures
        match d {
            Some(v) => digit_value(c) == Some(v as nat),
            None => digit_value(c) is None,
        },
{
    if c == '0' {
        Some(0)
    } else if c == '1' {
        Some(1)
    } else if c == '2' {
        Some(2)
    } else if c == '3' {
        Some(3)
    } else if c == '4' {
        Some(4)
    } else if c == '5' {
        Some(5)
    } else if c == '6' {
        Some(6)
    } else if c == '7' {
        Some(7)
    } else if c == '8' {
        Some(8)
    } else if c == '9' {
        Some(9)
    } else {
        None
    }
}

/// Reads an id back from the text that the broker echoes: `Some` exactly for
/// the texts that denote a 32-bit id.
pub fn parse_id(text: &str) -> (id: Option<KeybindId>)
    ensures
        id == id_of_text(text@),
{
    let ghost digits = unsigned_part(text@);
    let ghost first = text@.len() - digits.len();
    let n = text.unicode_len();
    let mut signed = false;
    let mut value: u64 = 0;
    let mut i: usize = 0;
    for c in it: text.chars()
        invariant
            it.seq() == text@,
            i == it.index(),
            n == text@.len(),
            digits == unsigned_part(text@),
            first == text@.len() - digits.len(),
            signed <==> i > 0 && first == 1,
            i == 0 ==> value == 0,
            i > 0 ==> all_digits(digits.subrange(0, i - first)),
            i > 0 ==> value == digits_value(digits.subrange(0, i - first)),
            value <= u32::MAX,
    {
        if i == 0 && c == '+' {
            signed = true;
            assert(first == 1);
            assert(digits.subrange(0, 0) =~= Seq::<char>::empty());
            assert(digits_value(digits.subrange(0, 0)) == 0);
        } else {
            let ghost seen = digits.subrange(0, i - first);
            let ghost next = digits.subrange(0, i - first + 1);
            proof {
                assert(next.drop_last() =~= seen);
                assert(next.last() == c);
                if i == 0 {
                    assert(seen =~= Seq::<char>::empty());
                }
                assert(value == digits_value(seen));
            }
            match digit_of(c) {
                None => {
                    assert(digit_value(digits[i - first]) is None);
                    return None;
                },
                Some(d) => {
                    let wide: u64 = value * 10 + d as u64;
                    assert(wide == digits_value(next));
                    if wide > u32::MAX as u64 {
                        proof {
                            lemma_digits_value_prefix(digits, i - first + 1);
                        }
                        return None;
                    }
                    assert forall|j: int| 0 <= j < next.len() implies (#[trigger] digit_value(
                        next[j],
                    )) is Some by {
                        if j < seen.len() {
                            assert(next[j] == seen[j]);
                        }
                    }
                    value = wide;
                },
            }
        }
        i = i + 1;
    }
    if i == 0 || (signed && i == 1) {
        return None;
    }
    assert(digits.subrange(0, i - first) =~= digits);
    Some(value as u32)
}

} // verus!
