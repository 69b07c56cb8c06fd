//! Decimal prices, as the storefront reads them, and their amount in minor
//! currency units.

use vstd::arithmetic::div_mod::{
    lemma_div_denominator, lemma_div_multiples_vanish, lemma_mod_breakdown, lemma_small_mod,
};
use vstd::prelude::*;

verus! {

/// A decimal amount: `units / 10^scale`, negated when `negative` is set.
///
/// `9.99` is `{ negative: false, units: 999, scale: 2 }`.
#[derive(Clone, Copy, Debug, PartialEq, Eq, Structural)]
pub struct Price {
    pub negative: bool,
    pub units: u64,
    pub scale: usize,
}

/// Ten to the power `n`.
pub open spec fn pow10(n: nat) -> nat
    decreases n,
{
    if n == 0 {
        1
    } else {
        10 * pow10((n - 1) as nat)
    }
}

pub proof fn lemma_pow10_positive(n: nat)
    ensures
        pow10(n) > 0,
    decreases n,
{
    if n > 0 {
        lemma_pow10_positive((n - 1) as nat);
    }
}

/// `pow10(n + 2) == 100 * pow10(n)`.
proof fn lemma_pow10_add_two(n: nat)
    ensures
        pow10(n + 2) == 100 * pow10(n),
{
    assert(pow10(n + 2) == 10 * pow10(n + 1));
    assert(pow10(n + 1) == 10 * pow10(n));
}

/// Whether an integer can be held by an `i64`.
pub open spec fn fits_i64(v: int) -> bool {
    i64::MIN <= v <= i64::MAX
}

impl Price {
    /// The amount in minor units: the price times one hundred, truncated
    /// toward zero.
    pub open spec fn minor_units(self) -> int {
        let magnitude = (self.units * 100) / (pow10(self.scale as nat) as int);
        if self.negative {
            -magnitude
        } else {
            magnitude
        }
    }

    /// The amount in minor units (hundredths), truncated toward zero; `None`
    /// where it does not fit in an `i64`.
    pub fn to_minor_units(&self) -> (r: Option<i64>)
        ensures
            r == (if fits_i64(self.minor_units()) {
                Some(self.minor_units() as i64)
            } else {
                None::<i64>
            }),
    {
        let ghost p = pow10(self.scale as nat) as int;
        let ghost magnitude_spec = (self.units * 100) / p;
        proof {
            lemma_pow10_positive(self.scale as nat);
        }
        let magnitude: u64;
        if self.scale <= 2 {
            let factor: u64 = if self.scale == 0 {
                100
            } else if self.scale == 1 {
                10
            } else {
                1
            };
            proof {
                assert(pow10(0) == 1);
                assert(pow10(1) == 10);
                assert(pow10(2) == 100);
                assert(self.units * 100 == p * (self.units * factor)) by (nonlinear_arith)
                    requires
                        p * factor == 100,
                ;
                lemma_div_multiples_vanish(self.units * factor, p);
            }
            match self.units.checked_mul(factor) {
                Some(m) => {
                    assert(m == self.units * factor);
                    assert(magnitude_spec == (p * (self.units * factor)) / p);
                    magnitude = m;
                },
                None => {
                    assert(magnitude_spec == self.units * factor);
                    return None;
                },
            }
        } else {
            let ghost target = self.units as int / pow10((self.scale - 2) as nat) as int;
            proof {
                lemma_pow10_add_two((self.scale - 2) as nat);
                lemma_pow10_positive((self.scale - 2) as nat);
                lemma_div_denominator(
                    self.units * 100,
                    100,
                    pow10((self.scale - 2) as nat) as int,
                );
                lemma_div_multiples_vanish(self.units as int, 100);
                assert(self.units * 100 == 100 * self.units);
                assert(magnitude_spec == target);
            }
            let mut q: u64 = self.units;
            let mut k: usize = self.scale - 2;
            while k > 0 && q > 0
                invariant
                    target == q as int / pow10(k as nat) as int,
                decreases k,
            {
                proof {
                    lemma_pow10_positive((k - 1) as nat);
                    lemma_div_denominator(q as int, 10, pow10((k - 1) as nat) as int);
                }
                q = q / 10;
                k = k - 1;
            }
            proof {
                lemma_pow10_positive(k as nat);
                if k == 0 {
                    assert(pow10(0) == 1);
                    assert(q as int / 1 == q as int) by (nonlinear_arith);
                    assert(target == q as int);
                } else {
                    assert(target == 0);
                }
                assert(magnitude_spec == q as int);
            }
            magnitude = q;
        }
        assert(magnitude as int == magnitude_spec);
        if self.negative {
            if magnitude <= 9223372036854775807 {
                Some(-(magnitude as i64))
            } else if magnitude == 9223372036854775808 {
                Some(i64::MIN)
            } else {
                None
            }
        } else {
            if magnitude <= 9223372036854775807 {
                Some(magnitude as i64)
            } else {
                None
            }
        }
    }
}


/// Whether `c` is an ASCII decimal digit.
pub open spec fn is_digit(c: char) -> bool {
    '0' <= c && c <= '9'
}

/// The value of a decimal digit.
pub open spec fn digit_value(c: char) -> int {
    c as u32 - '0' as u32
}

/// The value of a string of decimal digits, most significant first.
pub open spec fn digits_value(s: Seq<char>) -> int
    decreases s.len(),
{
    if s.len() == 0 {
        0
    } else {
        digits_value(s.drop_last()) * 10 + digit_value(s.last())
    }
}

/// The end of the run of digits that starts at `i`.
pub open spec fn digit_run(s: Seq<char>, i: int) -> int
    decreases s.len() - i,
{
    if 0 <= i < s.len() && is_digit(s[i]) {
        digit_run(s, i + 1)
    } else {
        i
    }
}

/// One for a leading minus sign, else zero.
pub open spec fn sign_len(s: Seq<char>) -> int {
    if s.len() > 0 && s[0] == '-' {
        1
    } else {
        0
    }
}

/// Where the integer digits end.
pub open spec fn int_end(s: Seq<char>) -> int {
    digit_run(s, sign_len(s))
}

/// Where the fraction digits start (after the point, if there is one).
pub open spec fn frac_start(s: Seq<char>) -> int {
    if int_end(s) < s.len() {
        int_end(s) + 1
    } else {
        int_end(s)
    }
}

/// The text is `[-]digits[.digits]`.
pub open spec fn is_price_text(s: Seq<char>) -> bool {
    &&& int_end(s) > sign_len(s)
    &&& (int_end(s) == s.len() || (s[int_end(s)] == '.' && s.len() > int_end(s) + 1
        && digit_run(s, int_end(s) + 1) == s.len()))
}

/// The integer digits followed by the fraction digits.
pub open spec fn price_digits(s: Seq<char>) -> Seq<char> {
    s.subrange(sign_len(s), int_end(s)) + s.subrange(frac_start(s), s.len() as int)
}

/// The price a text denotes, where it is a price text whose digits fit in a
/// `u64`.
pub open spec fn price_of_text(s: Seq<char>) -> Option<Price> {
    if is_price_text(s) && digits_value(price_digits(s)) <= u64::MAX {
        Some(
            Price {
                negative: sign_len(s) == 1,
                units: digits_value(price_digits(s)) as u64,
                scale: (s.len() - frac_start(s)) as usize,
            },
        )
    } else {
        None
    }
}

proof fn lemma_digits_value_nonneg(c: Seq<char>)
    requires
        forall|i: int| 0 <= i < c.len() ==> is_digit(#[trigger] c[i]),
    ensures
        digits_value(c) >= 0,
    decreases c.len(),
{
    if c.len() > 0 {
        lemma_digits_value_nonneg(c.drop_last());
    }
}

/// A prefix of a digit string is worth no more than the whole.
proof fn lemma_digits_value_prefix(c: Seq<char>, k: int)
    requires
        0 <= k <= c.len(),
        forall|i: int| 0 <= i < c.len() ==> is_digit(#[trigger] c[i]),
    ensures
        digits_value(c.take(k)) <= digits_value(c),
    decreases c.len(),
{
    if k == c.len() {
        assert(c.take(k) =~= c);
    } else {
        assert(c.drop_last().take(k) =~= c.take(k));
        lemma_digits_value_prefix(c.drop_last(), k);
        lemma_digits_value_nonneg(c.drop_last());
    }
}

/// Adds the digits `s[from..to]` to `acc`, the value of `done`; `None` where the
/// value passes `u64::MAX`.
fn push_digits(s: &str, from: usize, to: usize, acc: u64, Ghost(done): Ghost<Seq<char>>) -> (r:
    Option<u64>)
    requires
        from <= to <= s@.len(),
        forall|i: int| from <= i < to ==> is_digit(#[trigger] s@[i]),
        forall|i: int| 0 <= i < done.len() ==> is_digit(#[trigger] done[i]),
        acc == digits_value(done),
    ensures
        match r {
            Some(v) => v == digits_value(done + s@.subrange(from as int, to as int)),
            None => digits_value(done + s@.subrange(from as int, to as int)) > u64::MAX,
        },
{
    let ghost all = done + s@.subrange(from as int, to as int);
    let mut acc: u64 = acc;
    let mut i: usize = from;
    while i < to
        invariant
            from <= i <= to <= s@.len(),
            forall|k: int| from <= k < to ==> is_digit(#[trigger] s@[k]),
            forall|k: int| 0 <= k < done.len() ==> is_digit(#[trigger] done[k]),
            all == done + s@.subrange(from as int, to as int),
            acc == digits_value(done + s@.subrange(from as int, i as int)),
        decreases to - i,
    {
        let c = s.get_char(i);
        let d: u64 = (c as u32 - '0' as u32) as u64;
        let ghost next = done + s@.subrange(from as int, i + 1);
        proof {
            assert(next.drop_last() =~= done + s@.subrange(from as int, i as int));
            assert(next.last() == c);
            assert(all.take(next.len() as int) =~= next);
            assert forall|k: int| 0 <= k < all.len() implies is_digit(#[trigger] all[k]) by {
                if k >= done.len() {
                    assert(all[k] == s@[from + k - done.len()]);
                }
            }
            lemma_digits_value_prefix(all, next.len() as int);
        }
        if acc > 1844674407370955161 || (acc == 1844674407370955161 && d > 5) {
            return None;
        }
        acc = acc * 10 + d;
        i = i + 1;
    }
    Some(acc)
}

impl Price {
    /// Reads a price written `[-]digits[.digits]`, as Rust writes a finite
    /// `f64` (`9.99`, `-0.005`, `12`). The scale is the number of fraction
    /// digits. `None` where the text has another shape or its digits do not
    /// fit in a `u64`.
    pub fn parse(s: &str) -> (r: Option<Price>)
        ensures
            r == price_of_text(s@),
    {
        let n = s.unicode_len();
        let sign: usize = if n > 0 && s.get_char(0) == '-' {
            1
        } else {
            0
        };
        let mut e: usize = sign;
        while e < n && is_digit_char(s.get_char(e))
            invariant
                sign <= e <= n,
                n == s@.len(),
                sign == sign_len(s@),
                digit_run(s@, e as int) == int_end(s@),
                forall|k: int| sign <= k < e ==> is_digit(#[trigger] s@[k]),
            decreases n - e,
        {
            e = e + 1;
        }
        assert(int_end(s@) == e);
        if e == sign {
            return None;
        }
        let mut f: usize = e;
        if e < n {
            if s.get_char(e) != '.' || e + 1 == n {
                return None;
            }
            f = e + 1;
            let mut j: usize = f;
            while j < n && is_digit_char(s.get_char(j))
                invariant
                    f <= j <= n,
                    n == s@.len(),
                    digit_run(s@, j as int) == digit_run(s@, f as int),
                    forall|k: int| f <= k < j ==> is_digit(#[trigger] s@[k]),
                decreases n - j,
            {
                j = j + 1;
            }
            if j < n {
                return None;
            }
        }
        assert(forall|k: int| f <= k < n ==> is_digit(#[trigger] s@[k]));
        assert(is_price_text(s@));
        assert(f == frac_start(s@));
        let ghost ints = s@.subrange(sign as int, e as int);
        let ghost all = price_digits(s@);
        proof {
            assert(Seq::<char>::empty() + ints =~= ints);
            assert(all =~= ints + s@.subrange(f as int, n as int));
            assert(all.take(ints.len() as int) =~= ints);
            assert forall|k: int| 0 <= k < all.len() implies is_digit(#[trigger] all[k]) by {
                if k >= ints.len() {
                    assert(all[k] == s@[f + k - ints.len()]);
                } else {
                    assert(all[k] == s@[sign + k]);
                }
            }
        }
        match push_digits(s, sign, e, 0, Ghost(Seq::empty())) {
            None => {
                proof {
                    lemma_digits_value_prefix(all, ints.len() as int);
                }
                None
            },
            Some(a) => match push_digits(s, f, n, a, Ghost(ints)) {
                None => None,
                Some(v) => Some(Price { negative: sign == 1, units: v, scale: n - f }),
            },
        }
    }
}

/// Whether `c` is an ASCII decimal digit.
fn is_digit_char(c: char) -> (r: bool)
    ensures
        r == is_digit(c),
{
    '0' <= c && c <= '9'
}

/// The character of a decimal digit.
pub open spec fn digit_char(d: int) -> char {
    if d == 0 {
        '0'
    } else if d == 1 {
        '1'
    } else if d == 2 {
        '2'
    } else if d == 3 {
        '3'
    } else if d == 4 {
        '4'
    } else if d == 5 {
        '5'
    } else if d == 6 {
        '6'
    } else if d == 7 {
        '7'
    } else if d == 8 {
        '8'
    } else {
        '9'
    }
}

/// The number of decimal digits of `n` (one for zero).
pub open spec fn num_len(n: nat) -> nat
    decreases n,
{
    if n < 10 {
        1
    } else {
        1 + num_len(n / 10)
    }
}

/// `n` written with exactly `w` decimal digits (leading zeros added, or high
/// digits dropped).
pub open spec fn padded_digits(n: nat, w: nat) -> Seq<char> {
    Seq::new(w, |i: int| digit_char(((n / pow10((w - 1 - i) as nat)) % 10) as int))
}

/// How many digits a price's text shows: all of its units, and at least one
/// before the point.
pub open spec fn text_width(p: Price) -> nat {
    if num_len(p.units as nat) > p.scale {
        num_len(p.units as nat)
    } else {
        (p.scale + 1) as nat
    }
}

/// A price written `[-]digits[.digits]`, with `scale` digits after the point
/// and no point when the scale is zero: `{ units: 95, scale: 1 }` is `9.5`,
/// `{ units: 5, scale: 3 }` is `0.005`.
pub open spec fn price_text(p: Price) -> Seq<char> {
    let w = text_width(p);
    let digits = padded_digits(p.units as nat, w);
    let sign = if p.negative {
        seq!['-']
    } else {
        Seq::<char>::empty()
    };
    if p.scale == 0 {
        sign + digits
    } else {
        sign + digits.take(w - p.scale) + seq!['.'] + digits.skip(w - p.scale)
    }
}

/// Relies on `String::push`: appends one character.
#[verifier::external_body]
fn push_char(s: &mut String, c: char)
    ensures
        final(s)@ == old(s)@.push(c),
{
    s.push(c);
}

fn digit_char_of(d: u64) -> (c: char)
    requires
        d < 10,
    ensures
        c == digit_char(d as int),
{
    if d == 0 {
        '0'
    } else if d == 1 {
        '1'
    } else if d == 2 {
        '2'
    } else if d == 3 {
        '3'
    } else if d == 4 {
        '4'
    } else if d == 5 {
        '5'
    } else if d == 6 {
        '6'
    } else if d == 7 {
        '7'
    } else if d == 8 {
        '8'
    } else {
        '9'
    }
}

/// The digit of `n` at position `k`, counted from the right.
fn digit_at(n: u64, k: usize) -> (r: u64)
    ensures
        r == (n as nat / pow10(k as nat)) % 10,
{
    let mut q: u64 = n;
    let mut j: usize = 0;
    proof {
        assert(pow10(0) == 1);
        assert(n as nat / 1 == n as nat) by (nonlinear_arith);
    }
    while j < k
        invariant
            j <= k,
            q == n as nat / pow10(j as nat),
        decreases k - j,
    {
        proof {
            lemma_pow10_positive(j as nat);
            lemma_div_denominator(n as int, pow10(j as nat) as int, 10);
            assert(pow10((j + 1) as nat) == 10 * pow10(j as nat));
            assert(pow10(j as nat) * 10 == 10 * pow10(j as nat));
        }
        q = q / 10;
        j = j + 1;
    }
    q % 10
}

/// The number of decimal digits of `n`.
fn decimal_len(n: u64) -> (r: usize)
    ensures
        r == num_len(n as nat),
{
    let mut q: u64 = n;
    let mut len: usize = 1;
    proof {
        assert(pow10(0) == 1);
        assert(u64::MAX as int / 1 == u64::MAX as int) by (nonlinear_arith);
    }
    while q >= 10
        invariant
            1 <= len <= 20,
            num_len(n as nat) == len - 1 + num_len(q as nat),
            q as int <= u64::MAX as int / pow10((len - 1) as nat) as int,
        decreases q,
    {
        proof {
            lemma_pow10_positive((len - 1) as nat);
            lemma_div_denominator(u64::MAX as int, pow10((len - 1) as nat) as int, 10);
            assert(pow10(len as nat) == 10 * pow10((len - 1) as nat));
            assert(pow10((len - 1) as nat) * 10 == 10 * pow10((len - 1) as nat));
            if len == 20 {
                assert(pow10(19) == 10000000000000000000) by {
                    reveal_with_fuel(pow10, 20);
                }
            }
        }
        q = q / 10;
        len = len + 1;
    }
    len
}

impl Price {
    /// The price written `[-]digits[.digits]`, with as many digits after the
    /// point as its scale.
    pub fn to_text(&self) -> (r: String)
        requires
            self.scale < usize::MAX,
        ensures
            r@ == price_text(*self),
    {
        let len = decimal_len(self.units);
        let w: usize = if len > self.scale {
            len
        } else {
            self.scale + 1
        };
        let point: usize = w - self.scale;
        let ghost digits = padded_digits(self.units as nat, w as nat);
        let ghost sign = if self.negative {
            seq!['-']
        } else {
            Seq::<char>::empty()
        };
        let mut out = String::new();
        if self.negative {
            push_char(&mut out, '-');
        }
        let mut i: usize = 0;
        while i < w
            invariant
                w == text_width(*self),
                point == w - self.scale,
                1 <= point <= w,
                i <= w,
                digits == padded_digits(self.units as nat, w as nat),
                sign == (if self.negative {
                    seq!['-']
                } else {
                    Seq::<char>::empty()
                }),
                out@ == (if i <= point || self.scale == 0 {
                    sign + digits.take(i as int)
                } else {
                    sign + digits.take(point as int) + seq!['.'] + digits.subrange(
                        point as int,
                        i as int,
                    )
                }),
            decreases w - i,
        {
            if i == point && self.scale > 0 {
                push_char(&mut out, '.');
            }
            let d = digit_at(self.units, w - 1 - i);
            let c = digit_char_of(d);
            proof {
                assert(c == digits[i as int]);
            }
            push_char(&mut out, c);
            proof {
                if i + 1 <= point || self.scale == 0 {
                    assert(sign + digits.take(i + 1) =~= (sign + digits.take(i as int)).push(c));
                } else if i == point {
                    assert(digits.subrange(point as int, i + 1) =~= seq![c]);
                } else {
                    assert(digits.subrange(point as int, i + 1) =~= digits.subrange(
                        point as int,
                        i as int,
                    ).push(c));
                }
            }
            i = i + 1;
        }
        proof {
            assert(digits.take(w as int) =~= digits);
            assert(digits.subrange(point as int, w as int) =~= digits.skip(point as int));
        }
        out
    }
}

proof fn lemma_digit_char(d: int)
    requires
        0 <= d < 10,
    ensures
        is_digit(digit_char(d)),
        digit_value(digit_char(d)) == d,
{
}

proof fn lemma_digit_run(s: Seq<char>, i: int, j: int)
    requires
        0 <= i <= j <= s.len(),
        forall|k: int| i <= k < j ==> is_digit(#[trigger] s[k]),
        j == s.len() || !is_digit(s[j]),
    ensures
        digit_run(s, i) == j,
    decreases j - i,
{
    if i < j {
        lemma_digit_run(s, i + 1, j);
    }
}

proof fn lemma_pow10_monotone(a: nat, b: nat)
    requires
        a <= b,
    ensures
        pow10(a) <= pow10(b),
    decreases b,
{
    if a < b {
        lemma_pow10_monotone(a, (b - 1) as nat);
    }
}

proof fn lemma_num_len_bound(n: nat)
    ensures
        n < pow10(num_len(n)),
    decreases n,
{
    if n < 10 {
        assert(pow10(1) == 10 * pow10(0));
    } else {
        lemma_num_len_bound(n / 10);
        let q = n / 10;
        let p = pow10(num_len(q));
        assert(pow10(num_len(n)) == 10 * p);
        assert(n < 10 * p) by (nonlinear_arith)
            requires
                q == n / 10,
                q < p,
        ;
    }
}

/// The digits of `padded_digits(n, w)` are worth `n` modulo `10^w`.
proof fn lemma_padded_value(n: nat, w: nat)
    ensures
        digits_value(padded_digits(n, w)) == n % pow10(w),
        forall|i: int| 0 <= i < w ==> is_digit(#[trigger] padded_digits(n, w)[i]),
    decreases w,
{
    let d = padded_digits(n, w);
    assert forall|i: int| 0 <= i < w implies is_digit(#[trigger] d[i]) by {
        lemma_pow10_positive((w - 1 - i) as nat);
        lemma_digit_char(((n / pow10((w - 1 - i) as nat)) % 10) as int);
    }
    if w == 0 {
        assert(n % 1 == 0) by (nonlinear_arith);
    } else {
        let rest = padded_digits(n / 10, (w - 1) as nat);
        assert forall|i: int| 0 <= i < w - 1 implies #[trigger] d.drop_last()[i] == rest[i] by {
            let k = (w - 2 - i) as nat;
            lemma_pow10_positive(k);
            lemma_div_denominator(n as int, 10, pow10(k) as int);
            assert(pow10((w - 1 - i) as nat) == 10 * pow10(k));
        }
        assert(d.drop_last() =~= rest);
        lemma_padded_value(n / 10, (w - 1) as nat);
        assert(n as int / 1 == n as int) by (nonlinear_arith);
        assert(pow10(0) == 1);
        lemma_digit_char((n % 10) as int);
        lemma_pow10_positive((w - 1) as nat);
        lemma_mod_breakdown(n as int, 10, pow10((w - 1) as nat) as int);
    }
}

/// Reading a price's text gives back the price: sign, units and scale.
pub proof fn lemma_price_text_round_trip(p: Price)
    ensures
        price_of_text(price_text(p)) == Some(p),
{
    let t = price_text(p);
    let w = text_width(p);
    let d = padded_digits(p.units as nat, w);
    let sl: int = if p.negative {
        1
    } else {
        0
    };
    let sign = if p.negative {
        seq!['-']
    } else {
        Seq::<char>::empty()
    };
    lemma_padded_value(p.units as nat, w);
    lemma_num_len_bound(p.units as nat);
    lemma_pow10_monotone(num_len(p.units as nat), w);
    lemma_pow10_positive(w);
    lemma_small_mod(p.units as nat, pow10(w));
    let ie = sl + w - p.scale;
    assert(t.len() > 0 && (t[0] == '-') == p.negative);
    assert(sign_len(t) == sl);
    assert forall|k: int| sl <= k < ie implies is_digit(#[trigger] t[k]) by {
        assert(t[k] == d[k - sl]);
    }
    if p.scale == 0 {
        lemma_digit_run(t, sl, ie);
        assert(t.subrange(sl, ie) =~= d);
        assert(price_digits(t) =~= d);
    } else {
        assert(t[ie] == '.');
        lemma_digit_run(t, sl, ie);
        assert forall|k: int| ie + 1 <= k < t.len() implies is_digit(#[trigger] t[k]) by {
            assert(t[k] == d[k - sl - 1]);
        }
        lemma_digit_run(t, ie + 1, t.len() as int);
        assert(t.subrange(sl, ie) =~= d.take(w - p.scale));
        assert(t.subrange(ie + 1, t.len() as int) =~= d.skip(w - p.scale));
        assert(price_digits(t) =~= d);
    }
}

} // verus!
