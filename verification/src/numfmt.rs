//! Decimal text of integers, plain and zero-padded to a width.

use vstd::prelude::*;

verus! {

/// The character of decimal digit `d`, for `0 <= d < 10`.
pub open spec fn digit_char_of(d: int) -> char {
    (('0' as u32) + d) as char
}

/// The decimal digits of `n`, without leading zeros (`0` is written `0`).
pub open spec fn decimal(n: nat) -> Seq<char>
    decreases n,
{
    if n < 10 {
        seq![digit_char_of(n as int)]
    } else {
        decimal(n / 10).push(digit_char_of((n % 10) as int))
    }
}

/// The digit characters are `0` to `9`, in order.
proof fn lemma_digit_char_value(d: int)
    requires
        0 <= d < 10,
    ensures
        digit_char_of(d) as u32 == '0' as u32 + d,
{
}

/// Decimal text is never empty, and each of its characters is a digit.
pub proof fn lemma_decimal_digits(n: nat)
    ensures
        decimal(n).len() >= 1,
        forall|i: int| 0 <= i < decimal(n).len() ==> '0' as u32 <= (#[trigger] decimal(n)[i]) as u32 <= '9' as u32,
    decreases n,
{
    if n < 10 {
        lemma_digit_char_value(n as int);
    } else {
        lemma_decimal_digits(n / 10);
        lemma_digit_char_value((n % 10) as int);
        let d = decimal(n / 10);
        assert forall|i: int| 0 <= i < decimal(n).len() implies '0' as u32 <= (#[trigger] decimal(n)[i]) as u32
            <= '9' as u32 by {
            if i < d.len() {
                assert(decimal(n)[i] == d[i]);
            }
        }
    }
}

/// Different numbers have different decimal texts.
pub proof fn lemma_decimal_injective(a: nat, b: nat)
    requires
        decimal(a) == decimal(b),
    ensures
        a == b,
    decreases a,
{
    if a < 10 && b < 10 {
        lemma_digit_char_value(a as int);
        lemma_digit_char_value(b as int);
        assert(decimal(a)[0] == digit_char_of(a as int));
        assert(decimal(b)[0] == digit_char_of(b as int));
        assert(decimal(a)[0] == decimal(b)[0]);
        assert(digit_char_of(a as int) as u32 == digit_char_of(b as int) as u32);
    } else if a < 10 {
        lemma_decimal_digits(b / 10);
        assert(decimal(b).len() == decimal(b / 10).len() + 1);
    } else if b < 10 {
        lemma_decimal_digits(a / 10);
        assert(decimal(a).len() == decimal(a / 10).len() + 1);
    } else {
        lemma_digit_char_value((a % 10) as int);
        lemma_digit_char_value((b % 10) as int);
        assert(decimal(a) == decimal(a / 10).push(digit_char_of((a % 10) as int)));
        assert(decimal(b) == decimal(b / 10).push(digit_char_of((b % 10) as int)));
        assert(decimal(a).last() == digit_char_of((a % 10) as int));
        assert(decimal(b).last() == digit_char_of((b % 10) as int));
        assert(digit_char_of((a % 10) as int) as u32 == digit_char_of((b % 10) as int) as u32);
        assert(decimal(a / 10) =~= decimal(a).drop_last());
        assert(decimal(b / 10) =~= decimal(b).drop_last());
        lemma_decimal_injective(a / 10, b / 10);
        assert(a % 10 == b % 10);
        assert(a == 10 * (a / 10) + a % 10);
        assert(b == 10 * (b / 10) + b % 10);
    }
}

/// `count` zeros.
pub open spec fn zeros(count: int) -> Seq<char> {
    Seq::new(if count > 0 { count as nat } else { 0 }, |i: int| '0')
}

/// The magnitude of `n`.
pub open spec fn magnitude(n: int) -> nat {
    if n < 0 {
        (-n) as nat
    } else {
        n as nat
    }
}

/// `n` in decimal, with a leading `-` when negative.
pub open spec fn signed_decimal(n: int) -> Seq<char> {
    if n < 0 {
        seq!['-'] + decimal(magnitude(n))
    } else {
        decimal(magnitude(n))
    }
}

/// `n` in decimal, zeros inserted after the sign until the text is `width` long; longer
/// text is left whole. This is what the `{:0w}` format of integers writes.
pub open spec fn zero_padded(n: int, width: nat) -> Seq<char> {
    let digits = decimal(magnitude(n));
    if n < 0 {
        seq!['-'] + zeros(width - 1 - digits.len()) + digits
    } else {
        zeros(width - digits.len()) + digits
    }
}

/// The character of decimal digit `d`.
pub(crate) fn digit_char(d: u64) -> (c: char)
    requires
        d < 10,
    ensures
        c == digit_char_of(d as int),
{
    if d == 0 {
        '0'
    } else if d == 1 {
        '1'
    } else if d == 2 {
        '2'
    } else if d == 3 {
        '3'
    } else if d == 4 {
        '4'
    } else if d == 5 {
        '5'
    } else if d == 6 {
        '6'
    } else if d == 7 {
        '7'
    } else if d == 8 {
        '8'
    } else {
        '9'
    }
}

/// The decimal digits of `n`.
pub fn decimal_chars(n: u64) -> (v: Vec<char>)
    ensures
        v@ == decimal(n as nat),
{
    let mut rev: Vec<char> = Vec::new();
    let mut m = n;
    while m >= 10
        invariant
            m <= n,
            decimal(n as nat) == decimal(m as nat) + rev@.reverse(),
        decreases m,
    {
        let ghost before = rev@;
        let d = m % 10;
        rev.push(digit_char(d));
        proof {
            assert(rev@.reverse() =~= seq![digit_char_of(d as int)] + before.reverse());
            assert(decimal(m as nat) == decimal((m / 10) as nat).push(digit_char_of(d as int)));
            assert(decimal(m as nat) + before.reverse() =~= decimal((m / 10) as nat) + rev@.reverse());
        }
        m = m / 10;
    }
    let ghost before = rev@;
    rev.push(digit_char(m));
    proof {
        assert(rev@.reverse() =~= seq![digit_char_of(m as int)] + before.reverse());
        assert(decimal(n as nat) =~= rev@.reverse());
    }
    let mut v: Vec<char> = Vec::new();
    let mut i: usize = rev.len();
    while i > 0
        invariant
            i <= rev@.len(),
            v@ == rev@.reverse().take(rev@.len() - i),
        decreases i,
    {
        i = i - 1;
        v.push(rev[i]);
        proof {
            assert(v@ =~= rev@.reverse().take(rev@.len() - i));
        }
    }
    proof {
        assert(rev@.reverse().take(rev@.len() as int) =~= rev@.reverse());
    }
    v
}

/// `n` in decimal.
pub fn format_u64(n: u64) -> (s: String)
    ensures
        s@ == decimal(n as nat),
{
    let v = decimal_chars(n);
    crate::text::string_from_chars(v.as_slice())
}

/// The magnitude of `n`, which always fits in 64 bits.
fn magnitude_u64(n: i64) -> (m: u64)
    ensures
        m == magnitude(n as int),
{
    if n < 0 {
        let wide: i128 = 0i128 - (n as i128);
        wide as u64
    } else {
        n as u64
    }
}

/// `n` in decimal, with a leading `-` when negative.
pub fn format_i64(n: i64) -> (s: String)
    ensures
        s@ == signed_decimal(n as int),
{
    let digits = decimal_chars(magnitude_u64(n));
    let mut v: Vec<char> = Vec::new();
    if n < 0 {
        v.push('-');
    }
    let mut i: usize = 0;
    while i < digits.len()
        invariant
            i <= digits@.len(),
            v@ == (if n < 0 {
                seq!['-']
            } else {
                Seq::<char>::empty()
            }) + digits@.take(i as int),
        decreases digits@.len() - i,
    {
        v.push(digits[i]);
        i = i + 1;
        proof {
            assert(v@ =~= (if n < 0 {
                seq!['-']
            } else {
                Seq::<char>::empty()
            }) + digits@.take(i as int));
        }
    }
    proof {
        assert(digits@.take(digits@.len() as int) =~= digits@);
        assert(v@ =~= signed_decimal(n as int));
    }
    crate::text::string_from_chars(v.as_slice())
}

/// `n` in decimal, zero-padded after the sign to `width` characters, as `{:0width$}`
/// writes it.
pub fn format_zero_padded(n: i64, width: usize) -> (s: String)
    ensures
        s@ == zero_padded(n as int, width as nat),
{
    let digits = decimal_chars(magnitude_u64(n));
    let len = digits.len();
    let pad: usize = if n < 0 {
        if width > len && width - len > 1 { width - len - 1 } else { 0 }
    } else {
        if width > len { width - len } else { 0 }
    };
    let mut v: Vec<char> = Vec::new();
    if n < 0 {
        v.push('-');
    }
    let ghost sign: Seq<char> = if n < 0 { seq!['-'] } else { Seq::empty() };
    let mut z: usize = 0;
    while z < pad
        invariant
            z <= pad,
            v@ == sign + zeros(z as int),
        decreases pad - z,
    {
        v.push('0');
        z = z + 1;
        assert(v@ =~= sign + zeros(z as int));
    }
    let mut i: usize = 0;
    while i < digits.len()
        invariant
            i <= digits@.len(),
            v@ == sign + zeros(pad as int) + digits@.take(i as int),
        decreases digits@.len() - i,
    {
        v.push(digits[i]);
        i = i + 1;
        assert(v@ =~= sign + zeros(pad as int) + digits@.take(i as int));
    }
    proof {
        assert(digits@.take(digits@.len() as int) =~= digits@);
        if n < 0 {
            assert(zeros(pad as int) =~= zeros(width - 1 - digits@.len()));
            assert(v@ =~= zero_padded(n as int, width as nat));
        } else {
            assert(zeros(pad as int) =~= zeros(width - digits@.len()));
            assert(v@ =~= zero_padded(n as int, width as nat));
        }
    }
    crate::text::string_from_chars(v.as_slice())
}

} // verus!
