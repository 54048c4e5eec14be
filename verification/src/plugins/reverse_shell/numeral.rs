//! Numerals: reading unsigned numbers in a given radix and writing them
//! in decimal.

use vstd::prelude::*;
use vstd::slice::slice_subrange;
use vstd::string::StringExecFns;

verus! {

/// The value of `c` as a digit: `0` to `9`, then `a` to `f` in either
/// case for ten to fifteen. `None` for every other character.
pub open spec fn digit_value(c: char) -> Option<nat> {
    let n = c as u32;
    if 0x30 <= n <= 0x39 {
        Some((n - 0x30) as nat)
    } else if 0x61 <= n <= 0x66 {
        Some((n - 0x61 + 10) as nat)
    } else if 0x41 <= n <= 0x46 {
        Some((n - 0x41 + 10) as nat)
    } else {
        None
    }
}

/// Whether `c` is a digit of the given radix.
pub open spec fn is_digit(c: char, radix: nat) -> bool {
    digit_value(c) matches Some(v) && v < radix
}

/// Whether every character of `s` is a digit of the given radix.
pub open spec fn all_digits(s: Seq<char>, radix: nat) -> bool {
    forall|i: int| 0 <= i < s.len() ==> is_digit(#[trigger] s[i], radix)
}

/// Whether `s` is a numeral of the given radix: one digit or more.
pub open spec fn is_numeral(s: Seq<char>, radix: nat) -> bool {
    s.len() > 0 && all_digits(s, radix)
}

/// The number that the digits of `s` denote, most significant first.
pub open spec fn numeral_value(s: Seq<char>, radix: nat) -> nat
    decreases s.len(),
{
    if s.len() == 0 {
        0
    } else {
        numeral_value(s.drop_last(), radix) * radix + digit_value(s.last()).unwrap_or(0)
    }
}

/// The digit for a value below ten.
pub open spec fn digit_char(d: nat) -> char {
    if d == 0 {
        '0'
    } else if d == 1 {
        '1'
    } else if d == 2 {
        '2'
    } else if d == 3 {
        '3'
    } else if d == 4 {
        '4'
    } else if d == 5 {
        '5'
    } else if d == 6 {
        '6'
    } else if d == 7 {
        '7'
    } else if d == 8 {
        '8'
    } else {
        '9'
    }
}

/// `n` in decimal, without a sign and without leading zeros.
pub open spec fn decimal(n: nat) -> Seq<char>
    decreases n,
{
    if n < 10 {
        seq![digit_char(n)]
    } else {
        decimal(n / 10).push(digit_char(n % 10))
    }
}

/// Whether `s` is a decimal numeral as `decimal` writes them: digits
/// only, and no leading zero but for zero itself.
pub open spec fn is_canonical_decimal(s: Seq<char>) -> bool {
    &&& is_numeral(s, 10)
    &&& s.len() == 1 || s[0] != '0'
}

/// What a text denotes as an unsigned decimal number of at most `max`: an
/// optional `+`, then one decimal digit or more. `None` where the text
/// is not of that form or its value is above `max`.
pub open spec fn unsigned_value(s: Seq<char>, max: nat) -> Option<nat> {
    let digits = if s.len() > 0 && s[0] == '+' {
        s.drop_first()
    } else {
        s
    };
    if is_numeral(digits, 10) && numeral_value(digits, 10) <= max {
        Some(numeral_value(digits, 10))
    } else {
        None
    }
}

/// `digit_char` writes a decimal digit back from its value.
pub proof fn lemma_digit_char(c: char)
    requires
        is_digit(c, 10),
    ensures
        digit_char(digit_value(c).unwrap()) == c,
{
    let n = c as u32;
    if n == 0x30 {
        assert(c == '0');
    } else if n == 0x31 {
        assert(c == '1');
    } else if n == 0x32 {
        assert(c == '2');
    } else if n == 0x33 {
        assert(c == '3');
    } else if n == 0x34 {
        assert(c == '4');
    } else if n == 0x35 {
        assert(c == '5');
    } else if n == 0x36 {
        assert(c == '6');
    } else if n == 0x37 {
        assert(c == '7');
    } else if n == 0x38 {
        assert(c == '8');
    } else {
        assert(c == '9');
    }
}

/// The value of a numeral does not shrink when digits are added.
pub proof fn lemma_numeral_prefix(s: Seq<char>, radix: nat, k: int)
    requires
        0 <= k <= s.len(),
        radix >= 1,
    ensures
        numeral_value(s.take(k), radix) <= numeral_value(s, radix),
    decreases s.len() - k,
{
    if k == s.len() {
        assert(s.take(k) =~= s);
    } else {
        lemma_numeral_prefix(s.drop_last(), radix, k);
        assert(s.drop_last().take(k) =~= s.take(k));
        let v = numeral_value(s.drop_last(), radix);
        assert(v * radix >= v) by (nonlinear_arith)
            requires
                radix >= 1,
                v >= 0,
        ;
    }
}

/// `decimal` writes a canonical decimal numeral that denotes the number
/// written.
pub proof fn lemma_decimal_value(n: nat)
    ensures
        is_canonical_decimal(decimal(n)),
        numeral_value(decimal(n), 10) == n,
    decreases n,
{
    let s = decimal(n);
    if n < 10 {
        assert(s.drop_last() =~= Seq::<char>::empty());
        assert(digit_value(digit_char(n)) == Some(n));
        assert(numeral_value(s.drop_last(), 10) == 0);
    } else {
        let head = decimal(n / 10);
        lemma_decimal_value(n / 10);
        assert(s.drop_last() =~= head);
        assert(digit_value(digit_char(n % 10)) == Some(n % 10));
        assert(s[0] == head[0]);
        if head.len() == 1 {
            assert(numeral_value(head.drop_last(), 10) == 0);
            assert(digit_value(head[0]) == Some(n / 10));
        }
        assert forall|i: int| 0 <= i < s.len() implies is_digit(#[trigger] s[i], 10) by {
            if i < head.len() {
                assert(s[i] == head[i]);
            }
        }
    }
}

/// A canonical decimal numeral is what `decimal` writes for its value.
pub proof fn lemma_canonical_decimal(s: Seq<char>)
    requires
        is_canonical_decimal(s),
    ensures
        decimal(numeral_value(s, 10)) == s,
    decreases s.len(),
{
    let v = digit_value(s.last()).unwrap();
    assert(is_digit(s.last(), 10));
    lemma_digit_char(s.last());
    if s.len() == 1 {
        assert(s.drop_last() =~= Seq::<char>::empty());
        assert(numeral_value(s.drop_last(), 10) == 0);
        assert(decimal(v) =~= s);
    } else {
        let head = s.drop_last();
        assert(head[0] == s[0]);
        assert forall|i: int| 0 <= i < head.len() implies is_digit(#[trigger] head[i], 10) by {
            assert(head[i] == s[i]);
        }
        lemma_canonical_decimal(head);
        lemma_leading_digit(head);
        let h = numeral_value(head, 10);
        assert(h >= 1);
        assert((h * 10 + v) / 10 == h);
        assert((h * 10 + v) % 10 == v);
        assert(decimal(h * 10 + v) =~= decimal(h).push(digit_char(v)));
        assert(head.push(s.last()) =~= s);
    }
}

/// A decimal numeral that does not start with `0` denotes a positive
/// number.
pub proof fn lemma_leading_digit(s: Seq<char>)
    requires
        is_numeral(s, 10),
        s[0] != '0',
    ensures
        numeral_value(s, 10) >= 1,
    decreases s.len(),
{
    if s.len() == 1 {
        assert(s.drop_last() =~= Seq::<char>::empty());
        assert(numeral_value(s.drop_last(), 10) == 0);
        assert(is_digit(s[0], 10));
        lemma_digit_char(s[0]);
    } else {
        let head = s.drop_last();
        assert(head[0] == s[0]);
        assert forall|i: int| 0 <= i < head.len() implies is_digit(#[trigger] head[i], 10) by {
            assert(head[i] == s[i]);
        }
        lemma_leading_digit(head);
    }
}

/// What `text` denotes as a numeral of the given radix, where it is one
/// and its value is at most `max`.
pub open spec fn numeral_within(text: Seq<char>, radix: nat, max: nat) -> Option<nat> {
    if is_numeral(text, radix) && numeral_value(text, radix) <= max {
        Some(numeral_value(text, radix))
    } else {
        None
    }
}

/// The value of `c` as a digit, if it is one.
pub(crate) fn digit_of(c: char) -> (d: Option<u64>)
    ensures
        d matches Some(v) ==> digit_value(c) == Some(v as nat),
        d is None ==> digit_value(c) is None,
{
    let n: u32 = c as u32;
    if 0x30 <= n && n <= 0x39 {
        Some((n - 0x30) as u64)
    } else if 0x61 <= n && n <= 0x66 {
        Some((n - 0x61 + 10) as u64)
    } else if 0x41 <= n && n <= 0x46 {
        Some((n - 0x41 + 10) as u64)
    } else {
        None
    }
}

/// Reads `text` as a numeral of the given radix with a value of at most
/// `max`.
pub(crate) fn parse_numeral(text: &[char], radix: u64, max: u64) -> (r: Option<u64>)
    requires
        2 <= radix <= 16,
        max <= u32::MAX,
    ensures
        r matches Some(v) ==> numeral_within(text@, radix as nat, max as nat) == Some(v as nat),
        r is None ==> numeral_within(text@, radix as nat, max as nat) is None,
{
    let n = text.len();
    if n == 0 {
        return None;
    }
    let mut acc: u64 = 0;
    let mut i: usize = 0;
    proof {
        assert(text@.take(0) =~= Seq::<char>::empty());
    }
    while i < n
        invariant
            n == text@.len(),
            0 <= i <= n,
            2 <= radix <= 16,
            max <= u32::MAX,
            acc <= max,
            all_digits(text@.take(i as int), radix as nat),
            acc == numeral_value(text@.take(i as int), radix as nat),
        decreases n - i,
    {
        let c = text[i];
        let ghost done = text@.take(i as int);
        let ghost next = text@.take(i + 1);
        proof {
            assert(next.drop_last() =~= done);
            assert(next.last() == c);
        }
        match digit_of(c) {
            Some(d) if d < radix => {
                assert(acc * radix <= 0xFFFF_FFFF * 16) by (nonlinear_arith)
                    requires
                        acc <= 0xFFFF_FFFF,
                        radix <= 16,
                ;
                let value = acc * radix + d;
                if value > max {
                    proof {
                        if all_digits(text@, radix as nat) {
                            lemma_numeral_prefix(text@, radix as nat, i + 1);
                        }
                    }
                    return None;
                }
                acc = value;
                proof {
                    assert forall|j: int| 0 <= j < next.len() implies is_digit(
                        #[trigger] next[j],
                        radix as nat,
                    ) by {
                        if j < i {
                            assert(next[j] == done[j]);
                        }
                    }
                }
            },
            _ => {
                proof {
                    assert(!is_digit(text@[i as int], radix as nat));
                }
                return None;
            },
        }
        i += 1;
    }
    proof {
        assert(text@.take(n as int) =~= text@);
    }
    Some(acc)
}

/// Reads `text` as an unsigned decimal number of at most `max`, with or
/// without a leading `+`.
pub(crate) fn parse_unsigned(text: &[char], max: u64) -> (r: Option<u64>)
    requires
        max <= u32::MAX,
    ensures
        r matches Some(v) ==> unsigned_value(text@, max as nat) == Some(v as nat),
        r is None ==> unsigned_value(text@, max as nat) is None,
{
    let n = text.len();
    if n > 0 && text[0] == '+' {
        let digits = slice_subrange(text, 1, n);
        proof {
            assert(digits@ =~= text@.drop_first());
        }
        parse_numeral(digits, 10, max)
    } else {
        parse_numeral(text, 10, max)
    }
}

/// The text of one decimal digit.
fn digit_text(d: u64) -> (t: &'static str)
    requires
        d < 10,
    ensures
        t@ == seq![digit_char(d as nat)],
{
    proof {
        reveal_strlit("0");
        reveal_strlit("1");
        reveal_strlit("2");
        reveal_strlit("3");
        reveal_strlit("4");
        reveal_strlit("5");
        reveal_strlit("6");
        reveal_strlit("7");
        reveal_strlit("8");
        reveal_strlit("9");
    }
    let t = if d == 0 {
        "0"
    } else if d == 1 {
        "1"
    } else if d == 2 {
        "2"
    } else if d == 3 {
        "3"
    } else if d == 4 {
        "4"
    } else if d == 5 {
        "5"
    } else if d == 6 {
        "6"
    } else if d == 7 {
        "7"
    } else if d == 8 {
        "8"
    } else {
        "9"
    };
    proof {
        assert(t@ =~= seq![digit_char(d as nat)]);
    }
    t
}

/// Writes `n` in decimal at the end of `out`.
pub fn append_decimal(out: &mut String, n: u64)
    ensures
        final(out)@ == old(out)@ + decimal(n as nat),
    decreases n,
{
    if n >= 10 {
        append_decimal(out, n / 10);
    }
    out.append(digit_text(n % 10));
    proof {
        if n >= 10 {
            assert(old(out)@ + decimal((n / 10) as nat) + seq![digit_char((n % 10) as nat)]
                =~= old(out)@ + decimal(n as nat));
        }
    }
}

} // verus!
