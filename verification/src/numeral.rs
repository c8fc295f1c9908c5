//! Decimal numerals for 8-bit unsigned values: what a numeral denotes, which
//! strings are numerals in range, and an exact parser and printer.

use vstd::prelude::*;
use vstd::string::StrSliceExecFns;
use vstd::string::StringExecFns;

verus! {

/// The character that writes a single decimal digit.
pub open spec fn digit_char(d: int) -> char {
    if d == 0 {
        '0'
    } else if d == 1 {
        '1'
    } else if d == 2 {
        '2'
    } else if d == 3 {
        '3'
    } else if d == 4 {
        '4'
    } else if d == 5 {
        '5'
    } else if d == 6 {
        '6'
    } else if d == 7 {
        '7'
    } else if d == 8 {
        '8'
    } else {
        '9'
    }
}

/// The digit a character stands for, counted from the code point of `'0'`.
pub open spec fn digit_val(c: char) -> int {
    c as int - 48
}

pub open spec fn is_dec_digit(c: char) -> bool {
    48 <= c as int <= 57
}

pub open spec fn all_dec_digits(s: Seq<char>) -> bool {
    forall|i: int| 0 <= i < s.len() ==> is_dec_digit(#[trigger] s[i])
}

/// The value a digit string denotes, read left to right.
pub open spec fn numeral_value(s: Seq<char>) -> int
    decreases s.len(),
{
    if s.len() == 0 {
        0
    } else {
        numeral_value(s.drop_last()) * 10 + digit_val(s.last())
    }
}

/// The strings accepted as an 8-bit count: nonempty, digits only, and
/// denoting at most 255.  Leading zeros are allowed.
pub open spec fn is_u8_numeral(s: Seq<char>) -> bool {
    s.len() > 0 && all_dec_digits(s) && numeral_value(s) <= 255
}

/// The canonical numeral of a value: no sign, no leading zero.
pub open spec fn numeral_of(n: nat) -> Seq<char>
    decreases n,
{
    if n < 10 {
        seq![digit_char(n as int)]
    } else {
        numeral_of(n / 10).push(digit_char((n % 10) as int))
    }
}

proof fn lemma_numeral_nonneg(s: Seq<char>)
    requires
        all_dec_digits(s),
    ensures
        numeral_value(s) >= 0,
    decreases s.len(),
{
    if s.len() > 0 {
        assert(forall|i: int|
            0 <= i < s.drop_last().len() ==> is_dec_digit(#[trigger] s.drop_last()[i]));
        lemma_numeral_nonneg(s.drop_last());
    }
}

proof fn lemma_numeral_step(s: Seq<char>, i: int)
    requires
        0 <= i < s.len(),
    ensures
        numeral_value(s.subrange(0, i + 1)) == numeral_value(s.subrange(0, i)) * 10 + digit_val(
            s[i],
        ),
{
    assert(s.subrange(0, i + 1).drop_last() =~= s.subrange(0, i));
    assert(s.subrange(0, i + 1).last() == s[i]);
}

/// A digit string denotes at least what any of its prefixes denotes.
proof fn lemma_prefix_le(s: Seq<char>, i: int)
    requires
        all_dec_digits(s),
        0 <= i <= s.len(),
    ensures
        numeral_value(s.subrange(0, i)) <= numeral_value(s),
    decreases s.len() - i,
{
    if i == s.len() {
        assert(s.subrange(0, i) =~= s);
    } else {
        lemma_numeral_step(s, i);
        assert(forall|j: int|
            0 <= j < s.subrange(0, i).len() ==> is_dec_digit(#[trigger] s.subrange(0, i)[j]));
        lemma_numeral_nonneg(s.subrange(0, i));
        lemma_prefix_le(s, i + 1);
    }
}

/// Parses a decimal numeral in the range of `u8`; answers `None` exactly on
/// the strings `is_u8_numeral` rejects.
pub fn parse_u8(s: &str) -> (r: Option<u8>)
    ensures
        match r {
            Some(v) => is_u8_numeral(s@) && v as int == numeral_value(s@),
            None => !is_u8_numeral(s@),
        },
{
    let n = s.unicode_len();
    if n == 0 {
        return None;
    }
    let mut i: usize = 0;
    let mut acc: u32 = 0;
    while i < n
        invariant
            i <= n,
            n == s@.len(),
            all_dec_digits(s@.subrange(0, i as int)),
            acc as int == numeral_value(s@.subrange(0, i as int)),
            acc <= 255,
        decreases n - i,
    {
        let c = s.get_char(i);
        let code = c as u32;
        if code < 48 || code > 57 {
            assert(!is_dec_digit(s@[i as int]));
            return None;
        }
        let next = acc * 10 + (code - 48);
        proof {
            lemma_numeral_step(s@, i as int);
            assert(forall|j: int|
                0 <= j < i + 1 ==> is_dec_digit(#[trigger] s@.subrange(0, i + 1)[j]));
        }
        if next > 255 {
            proof {
                if all_dec_digits(s@) {
                    lemma_prefix_le(s@, i + 1);
                }
            }
            return None;
        }
        acc = next;
        i = i + 1;
    }
    proof {
        assert(s@.subrange(0, n as int) =~= s@);
    }
    Some(acc as u8)
}

fn digit_str(d: u8) -> (r: &'static str)
    requires
        d < 10,
    ensures
        r@ =~= seq![digit_char(d as int)],
{
    proof {
        reveal_strlit("0");
        reveal_strlit("1");
        reveal_strlit("2");
        reveal_strlit("3");
        reveal_strlit("4");
        reveal_strlit("5");
        reveal_strlit("6");
        reveal_strlit("7");
        reveal_strlit("8");
        reveal_strlit("9");
    }
    match d {
        0 => "0",
        1 => "1",
        2 => "2",
        3 => "3",
        4 => "4",
        5 => "5",
        6 => "6",
        7 => "7",
        8 => "8",
        _ => "9",
    }
}

/// Writes a value as its canonical decimal numeral.
pub fn u8_to_string(v: u8) -> (r: String)
    ensures
        r@ == numeral_of(v as nat),
{
    if v < 10 {
        let r = digit_str(v).to_owned();
        proof {
            assert(r@ =~= numeral_of(v as nat));
        }
        r
    } else if v < 100 {
        let mut r = digit_str(v / 10).to_owned();
        r.append(digit_str(v % 10));
        proof {
            assert(v / 10 < 10);
            assert(numeral_of((v / 10) as nat) =~= seq![digit_char((v / 10) as int)]);
            assert(numeral_of(v as nat) == numeral_of((v / 10) as nat).push(
                digit_char((v % 10) as int),
            ));
            assert(r@ =~= numeral_of(v as nat));
        }
        r
    } else {
        let t = v / 10;
        let mut r = digit_str(t / 10).to_owned();
        r.append(digit_str(t % 10));
        r.append(digit_str(v % 10));
        proof {
            assert(10 <= t < 26);
            assert(t / 10 < 10);
            assert(numeral_of((t / 10) as nat) =~= seq![digit_char((t / 10) as int)]);
            assert(numeral_of(t as nat) == numeral_of((t / 10) as nat).push(
                digit_char((t % 10) as int),
            ));
            assert(numeral_of(v as nat) == numeral_of(t as nat).push(digit_char((v % 10) as int)));
            assert(r@ =~= numeral_of(v as nat));
        }
        r
    }
}

/// The canonical numeral of a value denotes that value back: printing then
/// reading is the identity, and the printed form is accepted by the parser
/// whenever the value fits in eight bits.
pub proof fn lemma_numeral_round_trip(v: u8)
    ensures
        is_u8_numeral(numeral_of(v as nat)),
        numeral_value(numeral_of(v as nat)) == v as int,
{
    lemma_numeral_of_value(v as nat);
}

proof fn lemma_numeral_of_value(n: nat)
    ensures
        numeral_of(n).len() > 0,
        all_dec_digits(numeral_of(n)),
        numeral_value(numeral_of(n)) == n,
    decreases n,
{
    if n < 10 {
        let w = seq![digit_char(n as int)];
        assert(numeral_of(n) =~= w);
        assert(w.drop_last() =~= Seq::<char>::empty());
        assert(numeral_value(Seq::<char>::empty()) == 0);
        assert(w.last() == digit_char(n as int));
        assert(digit_val(digit_char(n as int)) == n);
        assert(numeral_value(w) == n);
    } else {
        lemma_numeral_of_value(n / 10);
        let w = numeral_of(n / 10).push(digit_char((n % 10) as int));
        assert(w.drop_last() =~= numeral_of(n / 10));
        assert(w.last() == digit_char((n % 10) as int));
        assert(numeral_value(w) == numeral_value(numeral_of(n / 10)) * 10 + (n % 10));
        assert(forall|i: int| 0 <= i < w.len() ==> is_dec_digit(#[trigger] w[i]));
    }
}

} // verus!
