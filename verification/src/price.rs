//! Prices as exact decimals, and their fixed-point text.

use vstd::prelude::*;

verus! {

/// The largest number of fractional digits that a `Price` can hold.
pub const MAX_SCALE: u8 = 19;

/// Ten to the power `n`.
pub open spec fn pow10(n: nat) -> nat
    decreases n,
{
    if n == 0 {
        1
    } else {
        10 * pow10((n - 1) as nat)
    }
}

/// The character of one decimal digit (`d` below ten).
pub open spec fn digit_char(d: nat) -> char {
    if d == 0 {
        '0'
    } else if d == 1 {
        '1'
    } else if d == 2 {
        '2'
    } else if d == 3 {
        '3'
    } else if d == 4 {
        '4'
    } else if d == 5 {
        '5'
    } else if d == 6 {
        '6'
    } else if d == 7 {
        '7'
    } else if d == 8 {
        '8'
    } else {
        '9'
    }
}

/// The decimal numeral of `n`, without leading zeros (`"0"` for zero).
pub open spec fn decimal(n: nat) -> Seq<char>
    decreases n,
{
    if n < 10 {
        seq![digit_char(n)]
    } else {
        decimal(n / 10).push(digit_char(n % 10))
    }
}

/// The lowest `width` decimal digits of `n`, zero-padded on the left.
pub open spec fn fixed(n: nat, width: nat) -> Seq<char>
    decreases width,
{
    if width == 0 {
        Seq::empty()
    } else {
        fixed(n / 10, (width - 1) as nat).push(digit_char(n % 10))
    }
}

/// `count` zeros.
pub open spec fn zeros(count: nat) -> Seq<char> {
    Seq::new(count, |i: int| '0')
}

/// `n / unit` rounded to the nearest integer, a tie going to the even one.
pub open spec fn rounded_half_even(n: nat, unit: nat) -> nat
    recommends
        unit > 0,
{
    let q = n / unit;
    let r = n % unit;
    if 2 * r > unit || (2 * r == unit && q % 2 == 1) {
        q + 1
    } else {
        q
    }
}

/// `units / 10^scale` as a whole number of `10^-decimals`: exact where
/// `decimals` is at least `scale`, else rounded half to even.
pub open spec fn scaled_units(units: nat, scale: nat, decimals: nat) -> nat {
    if decimals < scale {
        rounded_half_even(units, pow10((scale - decimals) as nat))
    } else {
        units * pow10((decimals - scale) as nat)
    }
}

/// The fixed-point text of `units / 10^scale` with exactly `decimals`
/// fractional digits: the numeral of its whole part and, where `decimals`
/// is not zero, a point and the `decimals` digits behind it. Digits that
/// the price holds beyond `decimals` are rounded away, half to even.
pub open spec fn price_text(units: nat, scale: nat, decimals: nat) -> Seq<char> {
    let v = scaled_units(units, scale, decimals);
    if decimals == 0 {
        decimal(v)
    } else {
        decimal(v / pow10(decimals)) + seq!['.'] + fixed(v % pow10(decimals), decimals)
    }
}

/// The value of a decimal digit's character; nothing for any other
/// character.
pub open spec fn digit_of(c: char) -> Option<nat> {
    if c == '0' {
        Some(0)
    } else if c == '1' {
        Some(1)
    } else if c == '2' {
        Some(2)
    } else if c == '3' {
        Some(3)
    } else if c == '4' {
        Some(4)
    } else if c == '5' {
        Some(5)
    } else if c == '6' {
        Some(6)
    } else if c == '7' {
        Some(7)
    } else if c == '8' {
        Some(8)
    } else if c == '9' {
        Some(9)
    } else {
        None
    }
}

/// Every character is a decimal digit.
pub open spec fn all_digits(s: Seq<char>) -> bool {
    forall|i: int| 0 <= i < s.len() ==> digit_of(#[trigger] s[i]).is_some()
}

/// The number that a sequence of digits writes, the empty one writing zero.
pub open spec fn digits_value(s: Seq<char>) -> nat
    decreases s.len(),
{
    if s.len() == 0 {
        0
    } else {
        10 * digits_value(s.drop_last()) + match digit_of(s.last()) {
            Some(v) => v,
            None => 0,
        }
    }
}

/// Where the first decimal point stands; the length where there is none.
pub open spec fn first_dot(s: Seq<char>) -> nat
    decreases s.len(),
{
    if s.len() == 0 || s[0] == '.' {
        0
    } else {
        1 + first_dot(s.drop_first())
    }
}

/// What stands before the first decimal point.
pub open spec fn whole_part(s: Seq<char>) -> Seq<char> {
    s.take(first_dot(s) as int)
}

/// What stands after the first decimal point.
pub open spec fn fraction_part(s: Seq<char>) -> Seq<char> {
    if first_dot(s) < s.len() {
        s.skip(first_dot(s) as int + 1)
    } else {
        Seq::empty()
    }
}

/// A decimal numeral: one digit or more, then, optionally, a point and one
/// digit or more. No sign, no exponent, no blanks.
pub open spec fn is_decimal_text(s: Seq<char>) -> bool {
    &&& whole_part(s).len() > 0
    &&& all_digits(whole_part(s))
    &&& all_digits(fraction_part(s))
    &&& first_dot(s) < s.len() ==> fraction_part(s).len() > 0
}

/// The digits of a numeral read as one number, the point left out.
pub open spec fn text_units(s: Seq<char>) -> nat {
    digits_value(whole_part(s) + fraction_part(s))
}

/// A decimal numeral that a `Price` can hold: at most `MAX_SCALE`
/// fractional digits, and all its digits together within sixty-four bits.
pub open spec fn is_price_text(s: Seq<char>) -> bool {
    is_decimal_text(s) && fraction_part(s).len() <= MAX_SCALE && text_units(s) <= u64::MAX
}

/// A non-negative decimal: `units / 10^scale`, with `scale` at most
/// `MAX_SCALE`. Two prices are equal where units and scale both are, so
/// `9.5` and `9.50` are told apart.
#[derive(Clone, Copy, Debug, PartialEq, Eq)]
pub struct Price {
    units: u64,
    scale: u8,
}

impl Price {
    #[verifier::type_invariant]
    spec fn inv(self) -> bool {
        self.scale <= MAX_SCALE
    }

    /// The price as a whole number of `10^-scale`.
    pub closed spec fn units(self) -> nat {
        self.units as nat
    }

    /// The number of fractional digits that the price holds.
    pub closed spec fn scale(self) -> nat {
        self.scale as nat
    }

    /// The price `units / 10^scale`, or nothing where `scale` is over
    /// `MAX_SCALE`.
    pub fn new(units: u64, scale: u8) -> (r: Option<Price>)
        ensures
            r.is_some() == (scale <= MAX_SCALE),
            r.is_some() ==> r.unwrap().units() == units && r.unwrap().scale() == scale,
    {
        if scale <= MAX_SCALE {
            Some(Price { units, scale })
        } else {
            None
        }
    }

    /// Reads a decimal numeral such as `12` or `9.50`: the price with all
    /// the digits as its units and the number of fractional digits as its
    /// scale. Anything that is no such numeral, or that a `Price` cannot
    /// hold, gives nothing.
    pub fn parse(text: &str) -> (r: Option<Price>)
        ensures
            r.is_some() == is_price_text(text@),
            r.is_some() ==> r.unwrap().units() == text_units(text@),
            r.is_some() ==> r.unwrap().scale() == fraction_part(text@).len(),
    {
        let ghost s = text@;
        let n = text.unicode_len();
        let mut units: u64 = 0;
        let mut i: usize = 0;
        let mut at_dot = false;
        assert(s.take(0) =~= Seq::<char>::empty());
        while i < n && !at_dot
            invariant
                s == text@,
                n == s.len(),
                i <= n,
                forall|j: int| 0 <= j < i ==> digit_of(#[trigger] s[j]).is_some(),
                units == digits_value(s.take(i as int)),
                at_dot ==> i < n && s[i as int] == '.',
            decreases n - i + (if at_dot { 0int } else { 1int }),
        {
            let c = text.get_char(i);
            if c == '.' {
                at_dot = true;
            } else {
                proof {
                    lemma_first_dot_least(s, i + 1);
                }
                let grown = match digit_value(c) {
                    Some(v) => push_digit(units, v),
                    None => None,
                };
                proof {
                    let d = first_dot(s) as int;
                    assert(s.take(i + 1).drop_last() =~= s.take(i as int));
                    assert(whole_part(s)[i as int] == s[i as int]);
                    let rest = s.subrange(i + 1, d) + fraction_part(s);
                    assert(whole_part(s) + fraction_part(s) =~= s.take(i + 1) + rest);
                    lemma_digits_prefix(s.take(i + 1), rest);
                }
                match grown {
                    Some(u) => {
                        units = u;
                    },
                    None => {
                        return None;
                    },
                }
                i = i + 1;
            }
        }
        proof {
            lemma_first_dot_at(s, i as int);
        }
        if i == 0 {
            return None;
        }
        if !at_dot {
            proof {
                assert(all_digits(whole_part(s)));
                assert(whole_part(s) + fraction_part(s) =~= s.take(i as int));
            }
            return Some(Price { units, scale: 0 });
        }
        let dot = i;
        let mut k: usize = dot + 1;
        let mut scale: u8 = 0;
        if k == n {
            return None;
        }
        assert(s.take(dot as int) + s.subrange(dot + 1, k as int) =~= s.take(dot as int));
        while k < n
            invariant
                s == text@,
                n == s.len(),
                dot == first_dot(s),
                dot < k <= n,
                scale == k - dot - 1,
                scale <= MAX_SCALE,
                forall|j: int| 0 <= j < dot ==> digit_of(#[trigger] s[j]).is_some(),
                forall|j: int| dot < j < k ==> digit_of(#[trigger] s[j]).is_some(),
                units == digits_value(s.take(dot as int) + s.subrange(dot + 1, k as int)),
            decreases n - k,
        {
            if scale == MAX_SCALE {
                return None;
            }
            let c = text.get_char(k);
            let grown = match digit_value(c) {
                Some(v) => push_digit(units, v),
                None => None,
            };
            proof {
                let read = s.take(dot as int) + s.subrange(dot + 1, k + 1);
                assert(read.drop_last() =~= s.take(dot as int) + s.subrange(dot + 1, k as int));
                assert(read.last() == s[k as int]);
                assert(fraction_part(s)[k - dot - 1] == s[k as int]);
                let rest = s.subrange(k + 1, n as int);
                assert(whole_part(s) + fraction_part(s) =~= read + rest);
                lemma_digits_prefix(read, rest);
            }
            match grown {
                Some(u) => {
                    units = u;
                },
                None => {
                    return None;
                },
            }
            k = k + 1;
            scale = scale + 1;
        }
        proof {
            assert(all_digits(whole_part(s)));
            assert(all_digits(fraction_part(s))) by {
                assert forall|j: int| 0 <= j < fraction_part(s).len() implies digit_of(
                    #[trigger] fraction_part(s)[j],
                ).is_some() by {
                    assert(fraction_part(s)[j] == s[dot + 1 + j]);
                }
            }
            assert(whole_part(s) + fraction_part(s) =~= s.take(dot as int) + s.subrange(
                dot + 1,
                k as int,
            ));
        }
        Some(Price { units, scale })
    }

    /// The `units` that the price was made with.
    pub fn raw_units(&self) -> (r: u64)
        ensures
            r == self.units(),
    {
        self.units
    }

    /// The `scale` that the price was made with.
    pub fn raw_scale(&self) -> (r: u8)
        ensures
            r == self.scale(),
            r <= MAX_SCALE,
    {
        proof {
            use_type_invariant(self);
        }
        self.scale
    }

    /// The price as text with exactly `decimals` fractional digits,
    /// rounded half to even.
    pub fn format(&self, decimals: u8) -> (r: String)
        ensures
            r@ == price_text(self.units(), self.scale(), decimals as nat),
    {
        proof {
            use_type_invariant(self);
        }
        let scale = self.scale;
        if decimals < scale {
            let unit = pow10_u64(scale - decimals);
            let v = round_half_even(self.units, unit);
            if decimals == 0 {
                decimal_string(v)
            } else {
                let p = pow10_u64(decimals);
                let mut out = decimal_string(v / p);
                out.append(".");
                let frac = fixed_string(v % p, decimals);
                out.append(frac.as_str());
                proof {
                    reveal_strlit(".");
                    assert("."@ =~= seq!['.']);
                    assert(out@ =~= price_text(
                        self.units(),
                        self.scale(),
                        decimals as nat,
                    ));
                }
                out
            }
        } else if decimals == 0 {
            assert(self.units * pow10(0) == self.units) by (nonlinear_arith)
                requires
                    pow10(0) == 1,
            ;
            decimal_string(self.units)
        } else {
            let p = pow10_u64(scale);
            let mut out = decimal_string(self.units / p);
            out.append(".");
            let frac = fixed_string(self.units % p, scale);
            out.append(frac.as_str());
            let pad = zeros_string(decimals - scale);
            out.append(pad.as_str());
            proof {
                reveal_strlit(".");
                assert("."@ =~= seq!['.']);
                lemma_padded_numeral(self.units(), scale as nat, (decimals - scale) as nat);
                assert(out@ =~= price_text(self.units(), self.scale(), decimals as nat));
            }
            out
        }
    }
}

/// Up to the first decimal point no character is one: the point is where
/// the first one is found, or at the end.
proof fn lemma_first_dot_at(s: Seq<char>, i: int)
    requires
        0 <= i <= s.len(),
        forall|j: int| 0 <= j < i ==> #[trigger] s[j] != '.',
        i == s.len() || s[i] == '.',
    ensures
        first_dot(s) == i,
    decreases i,
{
    if i > 0 {
        let tail = s.drop_first();
        assert forall|j: int| 0 <= j < i - 1 implies #[trigger] tail[j] != '.' by {
            assert(tail[j] == s[j + 1]);
        }
        lemma_first_dot_at(tail, i - 1);
    }
}

/// The first decimal point stands behind every stretch without one.
proof fn lemma_first_dot_least(s: Seq<char>, i: int)
    requires
        0 <= i <= s.len(),
        forall|j: int| 0 <= j < i ==> #[trigger] s[j] != '.',
    ensures
        i <= first_dot(s) <= s.len(),
    decreases s.len(),
{
    if s.len() > 0 && s[0] != '.' {
        let tail = s.drop_first();
        if i > 0 {
            assert forall|j: int| 0 <= j < i - 1 implies #[trigger] tail[j] != '.' by {
                assert(tail[j] == s[j + 1]);
            }
            lemma_first_dot_least(tail, i - 1);
        } else {
            lemma_first_dot_least(tail, 0);
        }
    }
}

/// More digits never write a smaller number.
proof fn lemma_digits_prefix(a: Seq<char>, b: Seq<char>)
    ensures
        digits_value(a) <= digits_value(a + b),
    decreases b.len(),
{
    if b.len() == 0 {
        assert(a + b =~= a);
    } else {
        assert((a + b).drop_last() =~= a + b.drop_last());
        lemma_digits_prefix(a, b.drop_last());
    }
}

/// The value of a decimal digit's character.
fn digit_value(c: char) -> (r: Option<u64>)
    ensures
        r.is_some() == digit_of(c).is_some(),
        r.is_some() ==> r.unwrap() == digit_of(c).unwrap() && r.unwrap() < 10,
{
    if c == '0' {
        Some(0)
    } else if c == '1' {
        Some(1)
    } else if c == '2' {
        Some(2)
    } else if c == '3' {
        Some(3)
    } else if c == '4' {
        Some(4)
    } else if c == '5' {
        Some(5)
    } else if c == '6' {
        Some(6)
    } else if c == '7' {
        Some(7)
    } else if c == '8' {
        Some(8)
    } else if c == '9' {
        Some(9)
    } else {
        None
    }
}

/// `10 * n + digit`, or nothing where that does not fit.
fn push_digit(n: u64, digit: u64) -> (r: Option<u64>)
    requires
        digit < 10,
    ensures
        r.is_some() == (10 * n + digit <= u64::MAX),
        r.is_some() ==> r.unwrap() == 10 * n + digit,
{
    if n > (u64::MAX - digit) / 10 {
        None
    } else {
        Some(10 * n + digit)
    }
}

/// Rounding half to even gives a nearest whole number: it is off by at
/// most half a unit, and where it is off by exactly half, it is even.
pub proof fn lemma_rounding_is_nearest(n: nat, unit: nat)
    requires
        unit > 0,
    ensures
        2 * (rounded_half_even(n, unit) * unit) <= 2 * n + unit,
        2 * n <= 2 * (rounded_half_even(n, unit) * unit) + unit,
        2 * (rounded_half_even(n, unit) * unit) == 2 * n + unit || 2 * n == 2 * (
        rounded_half_even(n, unit) * unit) + unit ==> rounded_half_even(n, unit) % 2 == 0,
{
    let q = n / unit;
    let r = n % unit;
    vstd::arithmetic::div_mod::lemma_fundamental_div_mod(n as int, unit as int);
    assert(n == unit * q + r);
    assert((q + 1) * unit == unit * q + unit) by (nonlinear_arith);
    assert(q * unit == unit * q) by (nonlinear_arith);
}

/// Digits that a price does not hold are zeros: the numeral of
/// `units * 10^pad` with `scale + pad` fractional digits is that of
/// `units` with `scale` of them, and `pad` zeros behind it.
pub proof fn lemma_padded_numeral(units: nat, scale: nat, pad: nat)
    ensures
        (units * pow10(pad)) / pow10(scale + pad) == units / pow10(scale),
        fixed((units * pow10(pad)) % pow10(scale + pad), scale + pad) == fixed(
            units % pow10(scale),
            scale,
        ) + zeros(pad),
    decreases pad,
{
    lemma_pow10_positive(scale);
    if pad == 0 {
        assert(units * pow10(0) == units) by (nonlinear_arith)
            requires
                pow10(0) == 1,
        ;
        assert(fixed(units % pow10(scale), scale) + zeros(0) =~= fixed(
            units % pow10(scale),
            scale,
        ));
    } else {
        let less = (pad - 1) as nat;
        lemma_padded_numeral(units, scale, less);
        lemma_pow10_positive(scale + less);
        let w = units * pow10(less);
        let p = pow10(scale + less);
        let q = w / p;
        let r = w % p;
        vstd::arithmetic::div_mod::lemma_fundamental_div_mod(w as int, p as int);
        assert(w == p * q + r);
        assert(units * pow10(pad) == 10 * w) by (nonlinear_arith)
            requires
                w == units * pow10(less),
                pow10(pad) == 10 * pow10(less),
        ;
        assert(pow10(scale + pad) == 10 * p);
        assert(10 * w == q * (10 * p) + 10 * r) by (nonlinear_arith)
            requires
                w == p * q + r,
        ;
        vstd::arithmetic::div_mod::lemma_fundamental_div_mod_converse(
            (10 * w) as int,
            (10 * p) as int,
            q as int,
            (10 * r) as int,
        );
        assert((units * pow10(pad)) % pow10(scale + pad) == 10 * r);
        assert(fixed(10 * r, scale + pad) == fixed(r, scale + less).push('0'));
        assert(fixed(r, scale + less).push('0') =~= fixed(units % pow10(scale), scale) + zeros(
            pad,
        ));
    }
}

/// A numeral is never empty and holds digits only.
pub proof fn lemma_decimal_digits(n: nat)
    ensures
        decimal(n).len() > 0,
        all_digits(decimal(n)),
    decreases n,
{
    if n >= 10 {
        lemma_decimal_digits(n / 10);
    }
}

/// A field of fixed width holds exactly that many characters, all digits.
pub proof fn lemma_fixed_digits(n: nat, width: nat)
    ensures
        fixed(n, width).len() == width,
        all_digits(fixed(n, width)),
    decreases width,
{
    if width > 0 {
        lemma_fixed_digits(n / 10, (width - 1) as nat);
    }
}

/// The shape of a price's text: with no decimals asked for, digits only;
/// else digits, one point, and exactly `decimals` digits behind it.
pub proof fn lemma_price_text_shape(units: nat, scale: nat, decimals: nat)
    ensures
        ({
            let text = price_text(units, scale, decimals);
            let whole = text.len() - (if decimals == 0 { 0 } else { decimals + 1 });
            &&& whole > 0
            &&& all_digits(text.take(whole))
            &&& decimals > 0 ==> text[whole] == '.' && all_digits(text.skip(whole + 1))
                && text.skip(whole + 1).len() == decimals
        }),
{
    let v = scaled_units(units, scale, decimals);
    if decimals == 0 {
        lemma_decimal_digits(v);
        assert(decimal(v).take(decimal(v).len() as int) =~= decimal(v));
    } else {
        let head = decimal(v / pow10(decimals));
        let tail = fixed(v % pow10(decimals), decimals);
        lemma_decimal_digits(v / pow10(decimals));
        lemma_fixed_digits(v % pow10(decimals), decimals);
        let text = head + seq!['.'] + tail;
        assert(text.take(head.len() as int) =~= head);
        assert(text.skip(head.len() as int + 1) =~= tail);
    }
}

/// Ten to a power is at least one.
pub proof fn lemma_pow10_positive(n: nat)
    ensures
        pow10(n) >= 1,
    decreases n,
{
    if n > 0 {
        lemma_pow10_positive((n - 1) as nat);
    }
}

/// Ten to a power grows with the power.
pub proof fn lemma_pow10_monotone(a: nat, b: nat)
    requires
        a <= b,
    ensures
        pow10(a) <= pow10(b),
    decreases b,
{
    if a < b {
        lemma_pow10_monotone(a, (b - 1) as nat);
    }
}

/// Ten to the power `n`, for a power that fits sixty-four bits.
pub fn pow10_u64(n: u8) -> (r: u64)
    requires
        n <= MAX_SCALE,
    ensures
        r == pow10(n as nat),
        r >= 1,
{
    proof {
        lemma_pow10_positive(n as nat);
    }
    let mut r: u64 = 1;
    let mut i: u8 = 0;
    while i < n
        invariant
            i <= n <= MAX_SCALE,
            r == pow10(i as nat),
        decreases n - i,
    {
        proof {
            lemma_pow10_monotone(i as nat, 18);
            reveal_with_fuel(pow10, 19);
            assert(pow10(18) == 1_000_000_000_000_000_000);
        }
        r = r * 10;
        i = i + 1;
    }
    r
}

/// `n / unit` rounded to the nearest integer, a tie going to the even one.
pub fn round_half_even(n: u64, unit: u64) -> (r: u64)
    requires
        unit > 0,
    ensures
        r == rounded_half_even(n as nat, unit as nat),
{
    let q: u64 = n / unit;
    let rest: u64 = n % unit;
    let up = rest > unit - rest || (rest == unit - rest && q % 2 == 1);
    if up {
        assert(q <= n / 2) by (nonlinear_arith)
            requires
                q == n / unit,
                unit >= 2,
        ;
        q + 1
    } else {
        q
    }
}

/// The text of one decimal digit.
fn digit_str(d: u64) -> (r: &'static str)
    requires
        d < 10,
    ensures
        r@ == seq![digit_char(d as nat)],
{
    proof {
        reveal_strlit("0");
        reveal_strlit("1");
        reveal_strlit("2");
        reveal_strlit("3");
        reveal_strlit("4");
        reveal_strlit("5");
        reveal_strlit("6");
        reveal_strlit("7");
        reveal_strlit("8");
        reveal_strlit("9");
    }
    let r = if d == 0 {
        "0"
    } else if d == 1 {
        "1"
    } else if d == 2 {
        "2"
    } else if d == 3 {
        "3"
    } else if d == 4 {
        "4"
    } else if d == 5 {
        "5"
    } else if d == 6 {
        "6"
    } else if d == 7 {
        "7"
    } else if d == 8 {
        "8"
    } else {
        "9"
    };
    assert(r@ =~= seq![digit_char(d as nat)]);
    r
}

/// The decimal numeral of `n`.
pub fn decimal_string(n: u64) -> (r: String)
    ensures
        r@ == decimal(n as nat),
    decreases n,
{
    if n < 10 {
        String::from_str(digit_str(n))
    } else {
        let mut out = decimal_string(n / 10);
        out.append(digit_str(n % 10));
        assert(out@ =~= decimal(n as nat));
        out
    }
}

/// The lowest `width` decimal digits of `n`, zero-padded on the left.
pub fn fixed_string(n: u64, width: u8) -> (r: String)
    ensures
        r@ == fixed(n as nat, width as nat),
    decreases width,
{
    if width == 0 {
        String::new()
    } else {
        let mut out = fixed_string(n / 10, width - 1);
        out.append(digit_str(n % 10));
        assert(out@ =~= fixed(n as nat, width as nat));
        out
    }
}

/// `count` zeros.
pub fn zeros_string(count: u8) -> (r: String)
    ensures
        r@ == zeros(count as nat),
{
    let mut out = String::new();
    let mut i: u8 = 0;
    assert(out@ =~= zeros(0));
    while i < count
        invariant
            i <= count,
            out@ == zeros(i as nat),
        decreases count - i,
    {
        out.append("0");
        i = i + 1;
        proof {
            reveal_strlit("0");
            assert(out@ =~= zeros(i as nat));
        }
    }
    out
}

} // verus!
