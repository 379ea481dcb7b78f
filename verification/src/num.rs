//! Decimal text for counter values: the digits of a number, and the
//! number held by a digit string.

use vstd::prelude::*;

verus! {

/// Whether `c` is an ASCII decimal digit.
pub open spec fn is_digit_char(c: char) -> bool {
    48 <= c as u32 <= 57
}

/// Whether every character of `s` is an ASCII decimal digit.
pub open spec fn digits_only(s: Seq<char>) -> bool {
    forall|i: int| 0 <= i < s.len() ==> is_digit_char(#[trigger] s[i])
}

/// The numerical value of one digit character.
pub open spec fn digit_val(c: char) -> int {
    c as u32 - 48
}

/// The digit character of a value below ten.
pub open spec fn digit_char(d: int) -> char {
    if d == 0 {
        '0'
    } else if d == 1 {
        '1'
    } else if d == 2 {
        '2'
    } else if d == 3 {
        '3'
    } else if d == 4 {
        '4'
    } else if d == 5 {
        '5'
    } else if d == 6 {
        '6'
    } else if d == 7 {
        '7'
    } else if d == 8 {
        '8'
    } else {
        '9'
    }
}

/// The decimal digits of `n`, most significant first, without a sign and
/// without leading zeros (zero itself is the single digit `'0'`).
pub open spec fn dec_digits(n: nat) -> Seq<char>
    decreases n,
{
    if n < 10 {
        seq![digit_char(n as int)]
    } else {
        dec_digits(n / 10).push(digit_char((n % 10) as int))
    }
}

/// The decimal text of a signed value: a `'-'` before the digits of the
/// magnitude when the value is negative.
pub open spec fn dec_int(v: int) -> Seq<char> {
    if v < 0 {
        seq!['-'] + dec_digits((-v) as nat)
    } else {
        dec_digits(v as nat)
    }
}

/// The value of a digit string read left to right, starting from `acc`.
pub open spec fn fold_digits(acc: int, s: Seq<char>) -> int
    decreases s.len(),
{
    if s.len() == 0 {
        acc
    } else {
        fold_digits(acc * 10 + digit_val(s[0]), s.drop_first())
    }
}

/// The numerical value of a digit string; an empty string counts as zero.
pub open spec fn digits_val(s: Seq<char>) -> int {
    fold_digits(0, s)
}

/// `mag`, cut off at the largest `u64` value.
pub open spec fn sat_u64(mag: int) -> int {
    if mag > u64::MAX {
        u64::MAX as int
    } else {
        mag
    }
}

proof fn lemma_fold_digits_push(acc: int, s: Seq<char>, c: char)
    ensures
        fold_digits(acc, s.push(c)) == fold_digits(acc, s) * 10 + digit_val(c),
    decreases s.len(),
{
    if s.len() == 0 {
        assert(s.push(c)[0] == c);
        assert(s.push(c).drop_first() =~= Seq::<char>::empty());
        assert(fold_digits(acc, s.push(c)) == fold_digits(
            acc * 10 + digit_val(c),
            s.push(c).drop_first(),
        ));
        assert(fold_digits(acc * 10 + digit_val(c), Seq::<char>::empty()) == acc * 10 + digit_val(
            c,
        ));
        assert(fold_digits(acc, s) == acc);
    } else {
        assert(s.push(c)[0] == s[0]);
        assert(s.push(c).drop_first() =~= s.drop_first().push(c));
        assert(fold_digits(acc, s.push(c)) == fold_digits(
            acc * 10 + digit_val(s[0]),
            s.drop_first().push(c),
        ));
        lemma_fold_digits_push(acc * 10 + digit_val(s[0]), s.drop_first(), c);
        assert(fold_digits(acc, s) == fold_digits(acc * 10 + digit_val(s[0]), s.drop_first()));
    }
}

proof fn lemma_fold_digits_nonneg(acc: int, s: Seq<char>)
    requires
        acc >= 0,
        digits_only(s),
    ensures
        fold_digits(acc, s) >= acc,
    decreases s.len(),
{
    if s.len() > 0 {
        assert(is_digit_char(s[0]));
        lemma_fold_digits_nonneg(acc * 10 + digit_val(s[0]), s.drop_first());
    }
}

/// The value of a digit string is never negative.
pub proof fn lemma_digits_val_nonneg(s: Seq<char>)
    requires
        digits_only(s),
    ensures
        digits_val(s) >= 0,
{
    lemma_fold_digits_nonneg(0, s);
}

/// Reading the digits of `n` back as a number gives `n`; the digits are
/// digits and there is at least one of them.
pub proof fn lemma_digits_val_of_dec(n: nat)
    ensures
        digits_val(dec_digits(n)) == n,
        digits_only(dec_digits(n)),
        dec_digits(n).len() >= 1,
    decreases n,
{
    if n < 10 {
        let s = dec_digits(n);
        assert(s == seq![digit_char(n as int)]);
        assert(s.drop_first() =~= Seq::<char>::empty());
        assert(fold_digits(0, s) == fold_digits(digit_val(s[0]), s.drop_first()));
        assert(digit_val(digit_char(n as int)) == n);
        assert(is_digit_char(digit_char(n as int)));
    } else {
        lemma_digits_val_of_dec(n / 10);
        lemma_fold_digits_push(0, dec_digits(n / 10), digit_char((n % 10) as int));
        assert(digits_val(dec_digits(n)) == (n / 10) * 10 + n % 10);
        assert(is_digit_char(digit_char((n % 10) as int)));
        assert forall|i: int| 0 <= i < dec_digits(n).len() implies is_digit_char(
            #[trigger] dec_digits(n)[i],
        ) by {
            if i < dec_digits(n / 10).len() {
                assert(dec_digits(n)[i] == dec_digits(n / 10)[i]);
            }
        }
    }
}

/// Whether `c` is an ASCII decimal digit.
pub fn digit_check(c: char) -> (r: bool)
    ensures
        r == is_digit_char(c),
{
    let u = c as u32;
    48 <= u && u <= 57
}

/// The digit character of `d`, for `d` below ten.
pub fn digit_char_of(d: u64) -> (c: char)
    requires
        d < 10,
    ensures
        c == digit_char(d as int),
{
    if d == 0 {
        '0'
    } else if d == 1 {
        '1'
    } else if d == 2 {
        '2'
    } else if d == 3 {
        '3'
    } else if d == 4 {
        '4'
    } else if d == 5 {
        '5'
    } else if d == 6 {
        '6'
    } else if d == 7 {
        '7'
    } else if d == 8 {
        '8'
    } else {
        '9'
    }
}

/// The decimal digits of `n`, most significant first.
pub fn u64_dec_chars(n: u64) -> (out: Vec<char>)
    ensures
        out@ =~= dec_digits(n as nat),
{
    let mut out: Vec<char> = Vec::new();
    let mut m: u64 = n;
    out.insert(0, digit_char_of(m % 10));
    proof {
        assert(out@ =~= seq![digit_char((n % 10) as int)]);
        if n >= 10 {
            assert(dec_digits(n as nat) =~= dec_digits((n / 10) as nat) + out@);
        }
    }
    m = m / 10;
    while m > 0
        invariant
            m == 0 ==> out@ =~= dec_digits(n as nat),
            m > 0 ==> dec_digits(n as nat) =~= dec_digits(m as nat) + out@,
        decreases m,
    {
        let ghost prev = out@;
        let ghost mprev = m as nat;
        out.insert(0, digit_char_of(m % 10));
        proof {
            assert(out@ =~= seq![digit_char((mprev % 10) as int)] + prev);
        }
        m = m / 10;
        proof {
            if m == 0 {
                assert(dec_digits(mprev) =~= seq![digit_char((mprev % 10) as int)]);
                assert(dec_digits(n as nat) =~= out@);
            } else {
                assert(dec_digits(mprev) =~= dec_digits(mprev / 10) + seq![
                    digit_char((mprev % 10) as int),
                ]);
                assert(dec_digits(n as nat) =~= dec_digits(m as nat) + out@);
            }
        }
    }
    out
}

/// The decimal text of `v`, with a leading `'-'` when `v` is negative.
pub fn i64_dec_chars(v: i64) -> (out: Vec<char>)
    ensures
        out@ =~= dec_int(v as int),
{
    if v >= 0 {
        u64_dec_chars(v as u64)
    } else {
        let mag: u64 = (-(v as i128)) as u64;
        proof {
            assert(mag as int == -(v as int));
        }
        let mut out = u64_dec_chars(mag);
        out.insert(0, '-');
        proof {
            assert(out@ =~= seq!['-'] + dec_digits(mag as nat));
        }
        out
    }
}

/// The value of the digit string `s`, cut off at the largest `u64` value.
pub fn digits_val_saturating(s: &Vec<char>) -> (v: u64)
    requires
        digits_only(s@),
    ensures
        v as int == sat_u64(digits_val(s@)),
{
    let mut acc: u64 = 0;
    let mut k: usize = 0;
    let ghost mut am: int = 0int;
    proof {
        assert(s@.skip(0) =~= s@);
    }
    while k < s.len()
        invariant
            digits_only(s@),
            k <= s.len(),
            am >= 0,
            fold_digits(0, s@) == fold_digits(am, s@.skip(k as int)),
            acc as int == sat_u64(am),
        decreases s.len() - k,
    {
        let c = s[k];
        assert(is_digit_char(s@[k as int]));
        let d: u64 = (c as u32) as u64 - 48;
        let ghost amp = am * 10 + digit_val(c);
        proof {
            assert(s@.skip(k as int)[0] == s@[k as int]);
            assert(s@.skip(k as int).drop_first() =~= s@.skip(k as int + 1));
            assert(fold_digits(am, s@.skip(k as int)) == fold_digits(amp, s@.skip(k as int + 1)));
        }
        acc = match acc.checked_mul(10) {
            Some(t) => match t.checked_add(d) {
                Some(r) => r,
                None => u64::MAX,
            },
            None => u64::MAX,
        };
        proof {
            if am > u64::MAX {
                assert(amp > u64::MAX);
            }
            assert(acc as int == sat_u64(amp));
            am = amp;
        }
        k = k + 1;
    }
    proof {
        assert(s@.skip(s@.len() as int) =~= Seq::<char>::empty());
    }
    acc
}

} // verus!
