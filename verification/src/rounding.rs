//! Rounding exact quotients to a binary floating point format.
//!
//! The non-negative values of a format are listed in increasing order and addressed by
//! their position in that list, the *index*. For the interchange formats the index is
//! the bit pattern without its sign, so everything here speaks of plain integers.

use vstd::prelude::*;
use vstd::arithmetic::power2::pow2;
use vstd::arithmetic::power2::{lemma_pow2_adds, lemma_pow2_pos, lemma_pow2_strictly_increases, lemma_pow2_unfold};

verus! {

/// A binary floating point format.
pub struct Format {
    /// Bits in a significand, the leading one included.
    pub precision: u32,
    /// `2^(precision - 1)`: the weight of the leading bit of a significand.
    pub hidden: u64,
    /// The index of infinity, one past the largest finite value.
    pub top: u64,
    /// The smallest positive value is `2^-scale`, and every finite value is a multiple of it.
    pub scale: u32,
}

impl Format {
    /// The parameters agree with each other.
    pub open spec fn valid(self) -> bool {
        &&& 8 <= self.precision <= 53
        &&& self.hidden == pow2((self.precision - 1) as nat)
        &&& self.hidden < self.top < 0x8000_0000_0000_0000
        &&& self.top % 2 == 0
        &&& self.top % self.hidden == 0
        &&& 8 <= self.scale <= 1100
        &&& self.top <= 2100 * self.hidden
    }
}

/// The value at an index, as a multiple of the smallest positive value of the format.
///
/// Infinity gets the value the next binade would start with, which is the one that makes
/// rounding to nearest overflow exactly where it should.
pub open spec fn magnitude(hidden: nat, index: nat) -> nat {
    if index < hidden {
        index
    } else {
        (hidden + index % hidden) * pow2((index / hidden - 1) as nat)
    }
}

/// `index` is the value of the format that is nearest to `num / den`, counted in units of
/// the smallest positive value. A quotient half way between two values goes to the even one.
pub open spec fn is_nearest(format: Format, num: nat, den: nat, index: nat) -> bool {
    let h = format.hidden as nat;
    &&& index <= format.top
    &&& index > 0 ==> {
        let low = (magnitude(h, (index - 1) as nat) + magnitude(h, index)) * den;
        low < 2 * num || (low == 2 * num && index % 2 == 0)
    }
    &&& index < format.top ==> {
        let high = (magnitude(h, index) + magnitude(h, index + 1)) * den;
        2 * num < high || (2 * num == high && index % 2 == 0)
    }
}

/// The index that `num / den` rounds to.
pub open spec fn nearest(format: Format, num: nat, den: nat) -> nat {
    choose|index: nat| is_nearest(format, num, den, index)
}

/// A value that lies on a binade boundary can be written in the binade below as well.
pub proof fn lemma_magnitude_at(hidden: nat, e: nat, q: nat)
    requires
        hidden > 0,
        q <= 2 * hidden,
        e == 0 || hidden <= q,
    ensures
        magnitude(hidden, e * hidden + q) == q * pow2(e),
{
    let index = e * hidden + q;
    assert(pow2(0) == 1) by { vstd::arithmetic::power2::lemma2_to64(); }
    if q < hidden {
        assert(e * hidden == 0) by (nonlinear_arith) requires e == 0;
    } else if q < 2 * hidden {
        assert(index == (e + 1) * hidden + (q - hidden)) by (nonlinear_arith)
            requires index == e * hidden + q;
        vstd::arithmetic::div_mod::lemma_fundamental_div_mod_converse(
            index as int, hidden as int, (e + 1) as int, q - hidden);
    } else {
        assert(index == (e + 2) * hidden) by (nonlinear_arith)
            requires index == e * hidden + q, q == 2 * hidden;
        vstd::arithmetic::div_mod::lemma_fundamental_div_mod_converse(
            index as int, hidden as int, (e + 2) as int, 0);
        lemma_pow2_unfold(e + 1);
        assert(hidden * (2 * pow2(e)) == (2 * hidden) * pow2(e)) by (nonlinear_arith);
    }
}

/// The exponent and significand of a value: `magnitude == significand * 2^exponent`.
pub open spec fn exponent_of(hidden: nat, index: nat) -> nat {
    if index < hidden { 0 } else { (index / hidden - 1) as nat }
}

/// See [`exponent_of`].
pub open spec fn significand_of(hidden: nat, index: nat) -> nat {
    if index < hidden { index } else { hidden + index % hidden }
}

/// Taking a value apart and putting it together again.
pub proof fn lemma_parts(hidden: nat, index: nat)
    requires
        hidden > 0,
    ensures
        significand_of(hidden, index) < 2 * hidden,
        exponent_of(hidden, index) > 0 ==> significand_of(hidden, index) >= hidden,
        index == exponent_of(hidden, index) * hidden + significand_of(hidden, index),
        magnitude(hidden, index) == significand_of(hidden, index) * pow2(exponent_of(hidden, index)),
        magnitude(hidden, index + 1) == (significand_of(hidden, index) + 1)
            * pow2(exponent_of(hidden, index)),
{
    let e = exponent_of(hidden, index);
    let q = significand_of(hidden, index);
    if index >= hidden {
        vstd::arithmetic::div_mod::lemma_fundamental_div_mod(index as int, hidden as int);
        assert(index / hidden >= 1) by (nonlinear_arith)
            requires index >= hidden, hidden > 0;
        assert(index == e * hidden + q) by (nonlinear_arith)
            requires
                index == hidden * (index / hidden) + index % hidden,
                e == index / hidden - 1,
                q == hidden + index % hidden;
    }
    assert(e * hidden + (q + 1) == index + 1);
    lemma_magnitude_at(hidden, e, q);
    lemma_magnitude_at(hidden, e, q + 1);
}

/// Values grow with their index.
pub proof fn lemma_magnitude_increases(hidden: nat, i: nat, j: nat)
    requires
        hidden > 0,
        i < j,
    ensures
        magnitude(hidden, i) < magnitude(hidden, j),
    decreases j - i,
{
    lemma_parts(hidden, i);
    let e = exponent_of(hidden, i);
    let q = significand_of(hidden, i);
    lemma_pow2_pos(e);
    assert((q + 1) * pow2(e) == q * pow2(e) + pow2(e)) by (nonlinear_arith);
    if i + 1 < j {
        lemma_magnitude_increases(hidden, i + 1, j);
    }
}

/// At most one value is the nearest.
pub proof fn lemma_nearest_unique(format: Format, num: nat, den: nat, i: nat, j: nat)
    requires
        format.valid(),
        den > 0,
        is_nearest(format, num, den, i),
        is_nearest(format, num, den, j),
    ensures
        i == j,
{
    if i != j {
        let lo = if i < j { i } else { j };
        let hi = if i < j { j } else { i };
        let h = format.hidden as nat;
        lemma_pow2_pos((format.precision - 1) as nat);
        lemma_magnitude_increases(h, lo, lo + 1);
        lemma_magnitude_increases(h, (hi - 1) as nat, hi);
        if lo + 1 < hi {
            lemma_magnitude_increases(h, lo, (hi - 1) as nat);
            lemma_magnitude_increases(h, lo + 1, hi);
        }
        let a = magnitude(h, lo) + magnitude(h, lo + 1);
        let b = magnitude(h, (hi - 1) as nat) + magnitude(h, hi);
        assert(a * den <= b * den) by (nonlinear_arith) requires a <= b;
        if lo + 1 < hi {
            assert(a * den < b * den) by (nonlinear_arith) requires a < b, den > 0;
        }
    }
}

/// An index that is nearest is the one [`nearest`] names.
pub proof fn lemma_nearest_is(format: Format, num: nat, den: nat, index: nat)
    requires
        format.valid(),
        den > 0,
        is_nearest(format, num, den, index),
    ensures
        nearest(format, num, den) == index,
{
    lemma_nearest_unique(format, num, den, index, nearest(format, num, den));
}

/// `sig * 2^shift`, or a little more when `sticky`, is the exact quotient `num / den`.
///
/// A little more is less than one unit in the last place of `sig`, and not nothing.
pub open spec fn represents(sig: nat, shift: int, sticky: bool, num: nat, den: nat) -> bool {
    let a = num * pow2(if shift < 0 { (-shift) as nat } else { 0 });
    let b = den * pow2(if shift < 0 { 0 } else { shift as nat });
    &&& sig * b <= a
    &&& a < (sig + 1) * b
    &&& a == sig * b <==> !sticky
}

proof fn lemma_pow2_127()
    ensures
        pow2(0) == 1,
        pow2(127) == 0x8000_0000_0000_0000_0000_0000_0000_0000,
{
    vstd::arithmetic::power2::lemma2_to64();
    vstd::arithmetic::power2::lemma2_to64_rest();
    lemma_pow2_adds(63, 64);
    assert(0x8000_0000_0000_0000int * 0x1_0000_0000_0000_0000int
        == 0x8000_0000_0000_0000_0000_0000_0000_0000int);
}

/// `2^e`, counted out.
pub fn power_of_two(e: u32) -> (p: u128)
    requires
        e <= 127,
    ensures
        p == pow2(e as nat),
{
    let mut p: u128 = 1;
    let mut i: u32 = 0;
    proof {
        lemma_pow2_127();
    }
    while i < e
        invariant
            i <= e <= 127,
            p == pow2(i as nat),
            pow2(127) == 0x8000_0000_0000_0000_0000_0000_0000_0000,
        decreases e - i,
    {
        proof {
            lemma_pow2_unfold((i + 1) as nat);
            if i + 1 < 127 {
                lemma_pow2_strictly_increases((i + 1) as nat, 127);
            }
        }
        p = p * 2;
        i = i + 1;
    }
    p
}

/// How many bits it takes to write `sig`.
pub fn bit_length(sig: u128) -> (len: u32)
    requires
        0 < sig,
        sig < 0x8000_0000_0000_0000_0000_0000_0000_0000,
    ensures
        1 <= len <= 127,
        pow2((len - 1) as nat) <= sig < pow2(len as nat),
{
    let mut p: u128 = 1;
    let mut len: u32 = 0;
    proof {
        lemma_pow2_127();
    }
    while p <= sig
        invariant
            len <= 127,
            p == pow2(len as nat),
            len > 0 ==> pow2((len - 1) as nat) <= sig,
            sig < pow2(127),
            pow2(127) == 0x8000_0000_0000_0000_0000_0000_0000_0000,
        decreases 127 - len,
    {
        proof {
            lemma_pow2_unfold((len + 1) as nat);
            if len < 127 {
                if len + 1 < 127 {
                    lemma_pow2_strictly_increases((len + 1) as nat, 127);
                }
            }
        }
        p = p * 2;
        len = len + 1;
    }
    len
}

/// Both neighbours of `index` are further from `num / den`, with ties going to the even one.
///
/// [`is_nearest`] without an end to the list of values.
spec fn brackets(hidden: nat, num: nat, den: nat, index: nat) -> bool {
    let low = (magnitude(hidden, (index - 1) as nat) + magnitude(hidden, index)) * den;
    let high = (magnitude(hidden, index) + magnitude(hidden, index + 1)) * den;
    &&& index > 0 ==> low < 2 * num || (low == 2 * num && index % 2 == 0)
    &&& 2 * num < high || (2 * num == high && index % 2 == 0)
}

/// Whatever rounds past the end of the list rounds to infinity.
proof fn lemma_clamp(format: Format, num: nat, den: nat, index: nat)
    requires
        format.valid(),
        den > 0,
        brackets(format.hidden as nat, num, den, index),
    ensures
        is_nearest(format, num, den, if index < format.top { index } else { format.top as nat }),
{
    let h = format.hidden as nat;
    let top = format.top as nat;
    lemma_pow2_pos((format.precision - 1) as nat);
    if index > top {
        lemma_magnitude_increases(h, top, index);
        if top < index - 1 {
            lemma_magnitude_increases(h, top, (index - 1) as nat);
        }
        lemma_magnitude_increases(h, (top - 1) as nat, top);
        let a = magnitude(h, (top - 1) as nat) + magnitude(h, top);
        let b = magnitude(h, (index - 1) as nat) + magnitude(h, index);
        assert(a * den < b * den) by (nonlinear_arith) requires a < b, den > 0;
    }
}

/// Comparing `x * 2^e * den` with `num` after both were scaled to integers.
proof fn lemma_scaled(x: int, num: int, m: int, p: int, d: int, b: int)
    requires
        p > 0,
        m * p == d * b,
    ensures
        x * m < num <==> x * d * b < num * p,
        x * m == num <==> x * d * b == num * p,
{
    assert(x * m * p == x * d * b) by (nonlinear_arith) requires m * p == d * b;
    assert(x * m < num <==> (x * m) * p < num * p) by (nonlinear_arith) requires p > 0;
    assert(x * m == num <==> (x * m) * p == num * p) by (nonlinear_arith) requires p > 0;
}

/// Cutting `d` bits off `sig` and rounding by what was cut off.
proof fn lemma_round_cut(
    hidden: nat, sig: nat, shift: int, sticky: bool, num: nat, den: nat,
    e: nat, d: nat, q: nat, r: nat, up: bool,
)
    requires
        hidden > 0,
        hidden % 2 == 0,
        den > 0,
        represents(sig, shift, sticky, num, den),
        d >= 1,
        e == shift + d,
        sig == q * pow2(d) + r,
        r < pow2(d),
        q < 2 * hidden,
        e == 0 || hidden <= q,
        up <==> 2 * r > pow2(d) || (2 * r == pow2(d) && (sticky || q % 2 == 1)),
    ensures
        brackets(hidden, num, den, if up { e * hidden + q + 1 } else { e * hidden + q }),
{
    let neg = if shift < 0 { (-shift) as nat } else { 0 };
    let pos = if shift < 0 { 0 } else { shift as nat };
    let p = pow2(neg);
    let b = den * pow2(pos);
    let a = num * p;
    let dd = pow2(d);
    let m = pow2(e) * den;
    lemma_pow2_pos(neg);
    lemma_pow2_pos(pos);
    lemma_pow2_pos(e);
    lemma_pow2_pos(d);
    lemma_pow2_unfold(d);
    assert(m * p == dd * b) by {
        lemma_pow2_adds(e, neg);
        lemma_pow2_adds(pos, d);
        assert(e + neg == pos + d);
        assert(pow2(e) * p == pow2(pos) * dd);
        assert((pow2(e) * den) * p == dd * (den * pow2(pos))) by (nonlinear_arith)
            requires pow2(e) * p == pow2(pos) * dd;
    }
    let t = a - sig * b;
    assert(b > 0) by (nonlinear_arith) requires b == den * pow2(pos), den > 0, pow2(pos) > 0;
    assert(t < b) by (nonlinear_arith) requires t == a - sig * b, a < (sig + 1) * b;
    assert(2 * a - (2 * q + 1) * dd * b == 2 * t + (2 * r - dd) * b) by (nonlinear_arith)
        requires t == a - sig * b, sig == q * dd + r;
    let half = (2 * r - dd) / 2;
    assert(2 * r - dd == 2 * half);
    assert(2 * t + (2 * r - dd) * b == 2 * (t + half * b)) by (nonlinear_arith)
        requires 2 * r - dd == 2 * half;
    if half >= 1 {
        assert(half * b >= b) by (nonlinear_arith) requires half >= 1, b > 0;
    } else if half <= -1 {
        assert(half * b <= -b) by (nonlinear_arith) requires half <= -1, b > 0;
    } else {
        assert(half * b == 0) by (nonlinear_arith) requires half == 0;
    }
    lemma_scaled((2 * q + 1) as int, (2 * num) as int, m as int, p as int, dd as int, b as int);
    assert((2 * num) * p == 2 * a) by (nonlinear_arith) requires a == num * p;

    let index = e * hidden + q;
    assert(index % 2 == q % 2) by {
        let hh = hidden / 2;
        assert(e * hidden == 2 * (e * hh)) by (nonlinear_arith) requires hidden == 2 * hh;
    }
    lemma_magnitude_at(hidden, e, q);
    lemma_magnitude_at(hidden, e, q + 1);
    assert((q * pow2(e) + (q + 1) * pow2(e)) * den == (2 * q + 1) * m) by (nonlinear_arith)
        requires m == pow2(e) * den;
    if up {
        lemma_magnitude_increases(hidden, index + 1, index + 2);
        // The quotient stays below the value that it was rounded up to.
        assert((sig + 1) * b <= (q + 1) * dd * b) by (nonlinear_arith)
            requires sig == q * dd + r, r < dd, b > 0;
        lemma_scaled((q + 1) as int, num as int, m as int, p as int, dd as int, b as int);
        assert(num < (q + 1) * m);
        let next = magnitude(hidden, index + 2);
        assert(2 * num < ((q + 1) * pow2(e) + next) * den) by (nonlinear_arith)
            requires num < (q + 1) * m, m == pow2(e) * den, next > (q + 1) * pow2(e), den > 0;
    } else if index > 0 {
        lemma_magnitude_increases(hidden, (index - 1) as nat, index);
        assert(q * dd * b <= sig * b) by (nonlinear_arith)
            requires sig == q * dd + r, b > 0, r >= 0;
        lemma_scaled(q as int, num as int, m as int, p as int, dd as int, b as int);
        assert(q * m <= num);
        let prev = magnitude(hidden, (index - 1) as nat);
        assert((prev + q * pow2(e)) * den < 2 * num) by (nonlinear_arith)
            requires q * m <= num, m == pow2(e) * den, prev < q * pow2(e), den > 0;
    }
}

/// A quotient that is a value of the format is its own rounding.
proof fn lemma_round_exact(hidden: nat, num: nat, den: nat, index: nat)
    requires
        hidden > 0,
        den > 0,
        num == magnitude(hidden, index) * den,
    ensures
        brackets(hidden, num, den, index),
{
    lemma_magnitude_increases(hidden, index, index + 1);
    let x = magnitude(hidden, index);
    let high = magnitude(hidden, index + 1);
    assert(2 * num < (x + high) * den) by (nonlinear_arith)
        requires num == x * den, x < high, den > 0;
    if index > 0 {
        lemma_magnitude_increases(hidden, (index - 1) as nat, index);
        let low = magnitude(hidden, (index - 1) as nat);
        assert((low + x) * den < 2 * num) by (nonlinear_arith)
            requires num == x * den, low < x, den > 0;
    }
}

/// A significand short enough to be shifted up stays short.
proof fn lemma_cut_none(sig: nat, up: nat, len: nat, precision: nat)
    requires
        sig < pow2(len),
        len + up <= precision <= 53,
    ensures
        sig * pow2(up) < pow2(precision) <= pow2(53),
        pow2(up) > 0,
        pow2(53) == 0x20_0000_0000_0000,
{
    vstd::arithmetic::power2::lemma2_to64_rest();
    lemma_pow2_pos(up);
    lemma_pow2_adds(len, up);
    assert(sig * pow2(up) < pow2(len) * pow2(up)) by (nonlinear_arith)
        requires sig < pow2(len), pow2(up) > 0;
    if len + up < precision {
        lemma_pow2_strictly_increases(len + up, precision);
    }
    if precision < 53 {
        lemma_pow2_strictly_increases(precision, 53);
    }
}

/// The bits that are kept fill a significand, unless the value is among the smallest.
proof fn lemma_significand_range(
    format: Format, sig: nat, len: nat, shift: int, e: nat, d: int, q: nat,
)
    requires
        format.valid(),
        1 <= len,
        pow2((len - 1) as nat) <= sig < pow2(len),
        e == if len + shift > format.precision { len + shift - format.precision } else { 0 },
        d == e - shift,
        d >= 1 ==> q == sig / pow2(d as nat),
        d < 1 ==> q == sig * pow2((-d) as nat),
    ensures
        q < 2 * format.hidden,
        e == 0 || format.hidden <= q,
{
    let p = format.precision as nat;
    lemma_pow2_unfold(p);
    if d >= 1 {
        let cut = pow2(d as nat);
        lemma_pow2_pos(d as nat);
        vstd::arithmetic::div_mod::lemma_fundamental_div_mod(sig as int, cut as int);
        let r = sig % cut;
        assert(len <= d + p);
        lemma_pow2_adds(p, d as nat);
        if len < d + p {
            lemma_pow2_strictly_increases(len, (d + p) as nat);
        }
        assert(q < pow2(p)) by (nonlinear_arith)
            requires sig == cut * q + r, r >= 0, sig < pow2(p) * cut, cut > 0;
        if e > 0 {
            assert(len - 1 == d + p - 1);
            lemma_pow2_adds((p - 1) as nat, d as nat);
            assert(pow2((p - 1) as nat) <= q) by (nonlinear_arith)
                requires
                    sig == cut * q + r, r < cut, pow2((p - 1) as nat) * cut <= sig, cut > 0;
        }
    } else {
        lemma_cut_none(sig, (-d) as nat, len, p);
        if e > 0 {
            assert(len - d == p);
            lemma_pow2_adds((len - 1) as nat, (-d) as nat);
            let up = pow2((-d) as nat);
            assert(pow2((len - 1) as nat) * up <= q) by (nonlinear_arith)
                requires pow2((len - 1) as nat) <= sig, q == sig * up;
            assert(len - 1 + -d == p - 1);
        }
    }
}

/// What `represents` says of a quotient that needs no cutting.
proof fn lemma_represents_exact(sig: nat, shift: int, num: nat, den: nat, e: nat, q: nat)
    requires
        represents(sig, shift, false, num, den),
        e <= shift,
        q == sig * pow2((shift - e) as nat),
    ensures
        num == q * pow2(e) * den,
{
    lemma_pow2_adds((shift - e) as nat, e);
    assert(pow2(0) == 1) by { vstd::arithmetic::power2::lemma2_to64(); }
    assert(num * pow2(0) == num) by (nonlinear_arith) requires pow2(0) == 1;
    assert(sig * (den * pow2(shift as nat)) == q * pow2(e) * den) by (nonlinear_arith)
        requires
            q == sig * pow2((shift - e) as nat),
            pow2(shift as nat) == pow2((shift - e) as nat) * pow2(e);
}

/// The index that the exact quotient `sig * 2^shift`, or a little more, rounds to.
pub fn round(format: &Format, sig: u128, shift: i32, sticky: bool) -> (index: u64)
    requires
        format.valid(),
        0 < sig < 0x4000_0000_0000_0000_0000_0000_0000_0000,
        -5000 <= shift <= 5000,
        sticky ==> sig >= 4 * format.hidden,
    ensures
        forall|num: nat, den: nat|
            den > 0 && #[trigger] represents(sig as nat, shift as int, sticky, num, den)
                ==> is_nearest(*format, num, den, index as nat),
{
    let len: u32 = bit_length(sig);
    proof {
        lemma_pow2_127();
        lemma_pow2_unfold(127);
        if len == 127 {
            assert(pow2(126) <= sig);
        }
        lemma_pow2_unfold(format.precision as nat);
        lemma_pow2_unfold((format.precision - 1) as nat);
        lemma_pow2_pos((format.precision - 2) as nat);
        if sticky && len < format.precision + 2 {
            if len < format.precision + 1 {
                lemma_pow2_strictly_increases(len as nat, (format.precision + 1) as nat);
            }
            lemma_pow2_unfold((format.precision + 1) as nat);
        }
    }
    let precision: i32 = format.precision as i32;
    let reach: i32 = len as i32 + shift;
    let e: i32 = if reach > precision { reach - precision } else { 0 };
    let d: i32 = e - shift;
    if d > 127 {
        // Less than half of the smallest value is left.
        assert forall|num: nat, den: nat|
            den > 0 && #[trigger] represents(sig as nat, shift as int, sticky, num, den)
                implies is_nearest(*format, num, den, 0) by {
            assert(e == 0);
            lemma_pow2_strictly_increases((len + 1) as nat, d as nat);
            lemma_pow2_unfold((len + 1) as nat);
            lemma_round_cut(format.hidden as nat, sig as nat, shift as int, sticky, num, den,
                0, d as nat, 0, sig as nat, false);
            lemma_clamp(*format, num, den, 0);
        }
        return 0;
    }
    let (q, up): (u128, bool) = if d >= 1 {
        let cut: u128 = power_of_two(d as u32);
        proof {
            lemma_pow2_pos(d as nat);
        }
        let q: u128 = sig / cut;
        let r: u128 = sig % cut;
        proof {
            lemma_pow2_unfold(d as nat);
        }
        let half: u128 = cut / 2;
        (q, r > half || (r == half && (sticky || q % 2 == 1)))
    } else {
        proof {
            lemma_cut_none(sig as nat, (-d) as nat, len as nat, format.precision as nat);
        }
        (sig * power_of_two((-d) as u32), false)
    };
    proof {
        lemma_significand_range(*format, sig as nat, len as nat, shift as int, e as nat, d as int, q as nat);
    }
    assert(e * format.hidden <= 6000 * 0x8000_0000_0000_0000) by (nonlinear_arith)
        requires e <= 6000, format.hidden <= 0x8000_0000_0000_0000;
    let below: u128 = (e as u128) * (format.hidden as u128) + q;
    let rounded: u128 = if up { below + 1 } else { below };
    let index: u64 = if rounded < format.top as u128 { rounded as u64 } else { format.top };
    assert forall|num: nat, den: nat|
        den > 0 && #[trigger] represents(sig as nat, shift as int, sticky, num, den)
            implies is_nearest(*format, num, den, index as nat) by {
        if d >= 1 {
            vstd::arithmetic::div_mod::lemma_fundamental_div_mod(sig as int, pow2(d as nat) as int);
            let cut = pow2(d as nat);
            assert(cut * q == q * cut) by (nonlinear_arith);
            lemma_round_cut(format.hidden as nat, sig as nat, shift as int, sticky, num, den,
                e as nat, d as nat, q as nat, sig as nat % cut, up);
        } else {
            lemma_represents_exact(sig as nat, shift as int, num, den, e as nat, q as nat);
            lemma_magnitude_at(format.hidden as nat, e as nat, q as nat);
            lemma_round_exact(format.hidden as nat, num, den, below as nat);
        }
        lemma_clamp(*format, num, den, rounded as nat);
    }
    index
}

/// A quotient that is a finite value of the format rounds to that value.
pub proof fn lemma_nearest_exact(format: Format, num: nat, den: nat, index: nat)
    requires
        format.valid(),
        den > 0,
        index <= format.top,
        num == magnitude(format.hidden as nat, index) * den,
    ensures
        nearest(format, num, den) == index,
{
    lemma_pow2_pos((format.precision - 1) as nat);
    lemma_round_exact(format.hidden as nat, num, den, index);
    lemma_clamp(format, num, den, index);
    lemma_nearest_is(format, num, den, index);
}

/// A finite value taken apart: its significand and its exponent.
pub fn parts(format: &Format, index: u64) -> (p: (u64, u32))
    requires
        format.valid(),
        index < format.top,
    ensures
        p.0 == significand_of(format.hidden as nat, index as nat),
        p.1 == exponent_of(format.hidden as nat, index as nat),
        p.0 < 2 * format.hidden,
        p.1 > 0 ==> p.0 >= format.hidden,
        p.1 < 2100,
        magnitude(format.hidden as nat, index as nat) == p.0 * pow2(p.1 as nat),
{
    proof {
        lemma_pow2_pos((format.precision - 1) as nat);
        lemma_parts(format.hidden as nat, index as nat);
        assert(index / format.hidden < 2100) by (nonlinear_arith)
            requires index < 2100 * format.hidden, format.hidden > 0;
        lemma_hidden_bound(*format);
        if index >= format.hidden {
            assert(index / format.hidden >= 1) by (nonlinear_arith)
                requires index >= format.hidden, format.hidden > 0;
        }
    }
    if index < format.hidden {
        (index, 0)
    } else {
        (format.hidden + index % format.hidden, (index / format.hidden - 1) as u32)
    }
}

proof fn lemma_hidden_bound(format: Format)
    requires
        format.valid(),
    ensures
        0 < format.hidden <= 0x10_0000_0000_0000,
        format.hidden >= 128,
{
    vstd::arithmetic::power2::lemma2_to64();
    vstd::arithmetic::power2::lemma2_to64_rest();
    if format.precision < 53 {
        lemma_pow2_strictly_increases((format.precision - 1) as nat, 52);
    }
    if format.precision > 8 {
        lemma_pow2_strictly_increases(7, (format.precision - 1) as nat);
    }
}

/// The index of `n`, for a whole number `n`.
pub fn round_integer(format: &Format, n: u64) -> (index: u64)
    requires
        format.valid(),
    ensures
        index == nearest(*format, n as nat * pow2(format.scale as nat), 1),
        index <= format.top,
{
    proof {
        assert(pow2(0) == 1) by { vstd::arithmetic::power2::lemma2_to64(); }
    }
    if n == 0 {
        proof {
            assert(magnitude(format.hidden as nat, 0) == 0) by { lemma_hidden_bound(*format); }
            assert(0 * pow2(format.scale as nat) == 0) by (nonlinear_arith);
            lemma_nearest_exact(*format, 0, 1, 0);
        }
        return 0;
    }
    let index: u64 = round(format, n as u128, format.scale as i32, false);
    proof {
        let num = n as nat * pow2(format.scale as nat);
        lemma_pow2_pos(format.scale as nat);
        assert(represents(n as nat, format.scale as int, false, num, 1)) by (nonlinear_arith)
            requires
                num == n as nat * pow2(format.scale as nat),
                pow2(0) == 1,
                pow2(format.scale as nat) > 0,
                format.scale >= 0;
        lemma_nearest_is(*format, num, 1, index as nat);
    }
    index
}

/// The product of two finite values.
pub fn multiply(format: &Format, i: u64, j: u64) -> (index: u64)
    requires
        format.valid(),
        i < format.top,
        j < format.top,
    ensures
        index == nearest(
            *format,
            magnitude(format.hidden as nat, i as nat) * magnitude(format.hidden as nat, j as nat),
            pow2(format.scale as nat),
        ),
        index <= format.top,
{
    let (si, ei): (u64, u32) = parts(format, i);
    let (sj, ej): (u64, u32) = parts(format, j);
    let ghost num = magnitude(format.hidden as nat, i as nat)
        * magnitude(format.hidden as nat, j as nat);
    let ghost den = pow2(format.scale as nat);
    proof {
        lemma_hidden_bound(*format);
        lemma_pow2_pos(format.scale as nat);
        assert(pow2(0) == 1) by { vstd::arithmetic::power2::lemma2_to64(); }
        assert(si * sj < 0x40_0000_0000_0000 * 0x40_0000_0000_0000) by (nonlinear_arith)
            requires si < 0x40_0000_0000_0000, sj < 0x40_0000_0000_0000;
        assert(num == si * sj * pow2((ei + ej) as nat)) by {
            lemma_pow2_adds(ei as nat, ej as nat);
            assert((si * pow2(ei as nat)) * (sj * pow2(ej as nat))
                == si * sj * (pow2(ei as nat) * pow2(ej as nat))) by (nonlinear_arith);
        }
    }
    let sig: u128 = (si as u128) * (sj as u128);
    if sig == 0 {
        proof {
            assert(0 * pow2((ei + ej) as nat) == 0) by (nonlinear_arith);
            assert(0 * den == 0) by (nonlinear_arith);
            lemma_nearest_exact(*format, num, den, 0);
        }
        return 0;
    }
    let shift: i32 = ei as i32 + ej as i32 - format.scale as i32;
    let index: u64 = round(format, sig, shift, false);
    proof {
        lemma_represents_shifted(sig as nat, (ei + ej) as nat, format.scale as nat);
        lemma_nearest_is(*format, num, den, index as nat);
    }
    index
}

/// `sig * 2^e` over `2^scale`, as [`represents`] wants it.
proof fn lemma_represents_shifted(sig: nat, e: nat, scale: nat)
    ensures
        represents(sig, e - scale, false, sig * pow2(e), pow2(scale)),
{
    assert(pow2(0) == 1) by { vstd::arithmetic::power2::lemma2_to64(); }
    lemma_pow2_pos(e);
    lemma_pow2_pos(scale);
    let rest = pow2(if e < scale { 0 } else { (e - scale) as nat });
    lemma_pow2_pos(if e < scale { 0 } else { (e - scale) as nat });
    let a = (sig * pow2(e)) * pow2(if e < scale { (scale - e) as nat } else { 0 });
    let b = pow2(scale) * rest;
    if e < scale {
        lemma_pow2_adds(e, (scale - e) as nat);
        assert(a == sig * b) by (nonlinear_arith)
            requires
                a == (sig * pow2(e)) * pow2((scale - e) as nat),
                b == pow2(scale) * 1,
                pow2(scale) == pow2(e) * pow2((scale - e) as nat);
    } else {
        lemma_pow2_adds(scale, (e - scale) as nat);
        assert(a == sig * b) by (nonlinear_arith)
            requires a == (sig * pow2(e)) * 1, b == pow2(e);
    }
    assert(b > 0) by (nonlinear_arith)
        requires b == pow2(scale) * rest, pow2(scale) > 0, rest > 0;
    assert(a < (sig + 1) * b) by (nonlinear_arith) requires a == sig * b, b > 0;
}

/// A larger index has at least the exponent of a smaller one.
proof fn lemma_exponent_monotone(hidden: nat, i: nat, j: nat)
    requires
        hidden > 0,
        j <= i,
    ensures
        exponent_of(hidden, j) <= exponent_of(hidden, i),
{
    if hidden <= j {
        vstd::arithmetic::div_mod::lemma_div_is_ordered(j as int, i as int, hidden as int);
        assert(j / hidden >= 1) by (nonlinear_arith) requires j >= hidden, hidden > 0;
    } else if hidden <= i {
        assert(i / hidden >= 1) by (nonlinear_arith) requires i >= hidden, hidden > 0;
    }
}

/// An amount too small to reach half way to a neighbour changes nothing.
proof fn lemma_negligible(format: Format, i: nat, delta: int)
    requires
        format.valid(),
        i < format.top,
        exponent_of(format.hidden as nat, i) >= 1,
        -pow2((exponent_of(format.hidden as nat, i) - 1) as nat) < 2 * delta,
        2 * delta < pow2((exponent_of(format.hidden as nat, i) - 1) as nat),
    ensures
        magnitude(format.hidden as nat, i) + delta >= 0,
        nearest(format, (magnitude(format.hidden as nat, i) + delta) as nat, 1) == i,
{
    let h = format.hidden as nat;
    let e = exponent_of(h, i);
    let q = significand_of(h, i);
    lemma_hidden_bound(format);
    lemma_parts(h, i);
    lemma_parts(h, (i - 1) as nat);
    lemma_pow2_unfold(e);
    let g = pow2((e - 1) as nat);
    lemma_pow2_pos((e - 1) as nat);
    assert((q + 1) * pow2(e) == q * pow2(e) + 2 * g) by (nonlinear_arith)
        requires pow2(e) == 2 * g;
    // The value below is at least half a step away.
    lemma_exponent_monotone(h, i, (i - 1) as nat);
    let e1 = exponent_of(h, (i - 1) as nat);
    let q1 = significand_of(h, (i - 1) as nat);
    assert(e1 >= e - 1) by {
        if e1 + 1 < e {
            assert((e1 + 2) * h <= e * h) by (nonlinear_arith) requires e1 + 2 <= e;
            assert(e1 * h + 2 * h == (e1 + 2) * h) by (nonlinear_arith);
        }
    }
    if e1 == e {
        assert((q1 + 1) * pow2(e1) == q1 * pow2(e1) + 2 * g) by (nonlinear_arith)
            requires pow2(e1) == 2 * g;
    } else {
        assert((q1 + 1) * pow2(e1) == q1 * pow2(e1) + g) by (nonlinear_arith)
            requires pow2(e1) == g;
    }
    assert(q * pow2(e) >= g) by (nonlinear_arith)
        requires pow2(e) == 2 * g, q >= 1, g > 0;
    let num = (magnitude(h, i) + delta) as nat;
    assert(is_nearest(format, num, 1, i));
    lemma_nearest_is(format, num, 1, i);
}

/// The part of a sum or difference that is too far below the larger operand to matter.
proof fn lemma_far_below(format: Format, i: nat, j: nat)
    requires
        format.valid(),
        i < format.top,
        j < format.top,
        exponent_of(format.hidden as nat, i) > exponent_of(format.hidden as nat, j) + 64,
    ensures
        2 * magnitude(format.hidden as nat, j)
            < pow2((exponent_of(format.hidden as nat, i) - 1) as nat),
{
    let h = format.hidden as nat;
    let ei = exponent_of(h, i);
    let ej = exponent_of(h, j);
    let sj = significand_of(h, j);
    lemma_hidden_bound(format);
    lemma_parts(h, j);
    vstd::arithmetic::power2::lemma2_to64_rest();
    lemma_pow2_pos(ej);
    lemma_pow2_adds(56, ej);
    assert(2 * (sj * pow2(ej)) < pow2(56) * pow2(ej)) by (nonlinear_arith)
        requires 2 * sj < pow2(56), pow2(ej) > 0;
    lemma_pow2_strictly_increases(56 + ej, (ei - 1) as nat);
}

/// The sum of two finite values, the larger one first.
pub fn add_ordered(format: &Format, i: u64, j: u64) -> (index: u64)
    requires
        format.valid(),
        j <= i < format.top,
    ensures
        index == nearest(
            *format,
            magnitude(format.hidden as nat, i as nat) + magnitude(format.hidden as nat, j as nat),
            1,
        ),
        index <= format.top,
{
    let (si, ei): (u64, u32) = parts(format, i);
    let (sj, ej): (u64, u32) = parts(format, j);
    proof {
        lemma_hidden_bound(*format);
        lemma_exponent_monotone(format.hidden as nat, i as nat, j as nat);
        assert(pow2(0) == 1) by { vstd::arithmetic::power2::lemma2_to64(); }
    }
    if ei - ej > 64 {
        proof {
            lemma_far_below(*format, i as nat, j as nat);
            lemma_negligible(*format, i as nat, magnitude(format.hidden as nat, j as nat) as int);
        }
        return i;
    }
    proof {
        lemma_align(si as nat, ei as nat, ej as nat);
    }
    let sig: u128 = (si as u128) * power_of_two(ei - ej) + sj as u128;
    let ghost num = magnitude(format.hidden as nat, i as nat)
        + magnitude(format.hidden as nat, j as nat);
    assert(num == sig * pow2(ej as nat)) by (nonlinear_arith)
        requires
            num == si * pow2(ei as nat) + sj * pow2(ej as nat),
            si * pow2(ei as nat) == (si * pow2((ei - ej) as nat)) * pow2(ej as nat),
            sig == si * pow2((ei - ej) as nat) + sj;
    if sig == 0 {
        proof {
            assert(0 * pow2(ej as nat) == 0) by (nonlinear_arith);
            lemma_nearest_exact(*format, 0, 1, 0);
        }
        return 0;
    }
    let index: u64 = round(format, sig, ej as i32, false);
    proof {
        lemma_represents_shifted(sig as nat, ej as nat, 0);
        lemma_nearest_is(*format, num, 1, index as nat);
    }
    index
}

/// The difference of two finite values, the larger one first.
pub fn subtract_ordered(format: &Format, i: u64, j: u64) -> (index: u64)
    requires
        format.valid(),
        j < i < format.top,
    ensures
        index == nearest(
            *format,
            (magnitude(format.hidden as nat, i as nat) - magnitude(format.hidden as nat, j as nat))
                as nat,
            1,
        ),
        index <= format.top,
{
    let (si, ei): (u64, u32) = parts(format, i);
    let (sj, ej): (u64, u32) = parts(format, j);
    proof {
        lemma_hidden_bound(*format);
        lemma_exponent_monotone(format.hidden as nat, i as nat, j as nat);
        lemma_magnitude_increases(format.hidden as nat, j as nat, i as nat);
        assert(pow2(0) == 1) by { vstd::arithmetic::power2::lemma2_to64(); }
    }
    if ei - ej > 64 {
        proof {
            lemma_far_below(*format, i as nat, j as nat);
            lemma_negligible(*format, i as nat, -(magnitude(format.hidden as nat, j as nat) as int));
        }
        return i;
    }
    proof {
        lemma_align(si as nat, ei as nat, ej as nat);
    }
    let high: u128 = (si as u128) * power_of_two(ei - ej);
    let ghost num = (magnitude(format.hidden as nat, i as nat)
        - magnitude(format.hidden as nat, j as nat)) as nat;
    proof {
        lemma_pow2_pos(ej as nat);
        assert(num == (high - sj) * pow2(ej as nat)) by (nonlinear_arith)
            requires
                num == si * pow2(ei as nat) - sj * pow2(ej as nat),
                si * pow2(ei as nat) == high * pow2(ej as nat);
        assert(high > sj) by (nonlinear_arith)
            requires num > 0, num == (high - sj) * pow2(ej as nat), pow2(ej as nat) > 0;
    }
    let sig: u128 = high - sj as u128;
    let index: u64 = round(format, sig, ej as i32, false);
    proof {
        lemma_represents_shifted(sig as nat, ej as nat, 0);
        lemma_nearest_is(*format, num, 1, index as nat);
    }
    index
}

/// Writing a value with a smaller exponent.
proof fn lemma_align(sig: nat, e: nat, to: nat)
    requires
        sig < 0x40_0000_0000_0000,
        to <= e <= to + 64,
    ensures
        sig * pow2(e) == (sig * pow2((e - to) as nat)) * pow2(to),
        sig * pow2((e - to) as nat) < 0x40_0000_0000_0000 * 0x1_0000_0000_0000_0000,
        pow2((e - to) as nat) <= 0x1_0000_0000_0000_0000,
{
    vstd::arithmetic::power2::lemma2_to64_rest();
    let up = pow2((e - to) as nat);
    lemma_pow2_adds((e - to) as nat, to);
    if e - to < 64 {
        lemma_pow2_strictly_increases((e - to) as nat, 64);
    }
    assert(sig * (up * pow2(to)) == (sig * up) * pow2(to)) by (nonlinear_arith);
    assert(sig * up < 0x40_0000_0000_0000 * 0x1_0000_0000_0000_0000) by (nonlinear_arith)
        requires sig < 0x40_0000_0000_0000, up <= 0x1_0000_0000_0000_0000, up >= 0;
}

/// The quotient of two finite values.
pub fn divide(format: &Format, i: u64, j: u64) -> (index: u64)
    requires
        format.valid(),
        i < format.top,
        0 < j < format.top,
    ensures
        index == nearest(
            *format,
            magnitude(format.hidden as nat, i as nat) * pow2(format.scale as nat),
            magnitude(format.hidden as nat, j as nat),
        ),
        index <= format.top,
{
    let (si, ei): (u64, u32) = parts(format, i);
    let (sj, ej): (u64, u32) = parts(format, j);
    let ghost num = magnitude(format.hidden as nat, i as nat) * pow2(format.scale as nat);
    let ghost den = magnitude(format.hidden as nat, j as nat);
    proof {
        lemma_hidden_bound(*format);
        lemma_magnitude_increases(format.hidden as nat, 0, j as nat);
        assert(sj > 0) by (nonlinear_arith)
            requires den == sj * pow2(ej as nat), den > 0, pow2(ej as nat) >= 0;
    }
    if si == 0 {
        proof {
            assert(0 * pow2(ei as nat) == 0) by (nonlinear_arith);
            assert(0 * pow2(format.scale as nat) == 0) by (nonlinear_arith);
            assert(0 * den == 0) by (nonlinear_arith);
            lemma_nearest_exact(*format, 0, den, 0);
        }
        return 0;
    }
    let len: u32 = bit_length(si as u128);
    proof {
        lemma_lift(si as nat, len as nat);
    }
    let lift: u32 = 124 - len;
    let raised: u128 = (si as u128) * power_of_two(lift);
    let sig: u128 = raised / sj as u128;
    let rest: u128 = raised % sj as u128;
    proof {
        let s = sj as int;
        vstd::arithmetic::div_mod::lemma_fundamental_div_mod(raised as int, s);
        assert(sig >= 0x800_0000_0000_0000) by (nonlinear_arith)
            requires
                raised == s * sig + rest,
                rest < s,
                raised >= 0x800_0000_0000_0000_0000_0000_0000_0000,
                0 < s < 0x40_0000_0000_0000,
                sig >= 0;
        assert(sig <= raised) by (nonlinear_arith)
            requires raised == s * sig + rest, rest >= 0, s > 0, sig >= 0;
    }
    let shift: i32 = ei as i32 - ej as i32 + format.scale as i32 - lift as i32;
    let index: u64 = round(format, sig, shift, rest != 0);
    proof {
        lemma_represents_quotient(
            si as nat, ei as nat, sj as nat, ej as nat, format.scale as nat, lift as nat,
            sig as nat, rest as nat);
        lemma_nearest_is(*format, num, den, index as nat);
    }
    index
}

/// Shifting a dividend up as far as it goes.
proof fn lemma_lift(sig: nat, len: nat)
    requires
        sig < 0x40_0000_0000_0000,
        1 <= len <= 127,
        pow2((len - 1) as nat) <= sig < pow2(len),
    ensures
        len <= 54,
        0x800_0000_0000_0000_0000_0000_0000_0000 <= sig * pow2((124 - len) as nat),
        sig * pow2((124 - len) as nat) < 0x1000_0000_0000_0000_0000_0000_0000_0000,
{
    vstd::arithmetic::power2::lemma2_to64();
    vstd::arithmetic::power2::lemma2_to64_rest();
    if len > 55 {
        lemma_pow2_strictly_increases(54, (len - 1) as nat);
    }
    let up = pow2((124 - len) as nat);
    lemma_pow2_pos((124 - len) as nat);
    lemma_pow2_adds(len, (124 - len) as nat);
    lemma_pow2_adds((len - 1) as nat, (124 - len) as nat);
    lemma_pow2_adds(60, 64);
    lemma_pow2_adds(60, 63);
    assert(pow2(124) == 0x1000_0000_0000_0000_0000_0000_0000_0000);
    assert(pow2(123) == 0x800_0000_0000_0000_0000_0000_0000_0000);
    assert(pow2((len - 1) as nat) * up <= sig * up) by (nonlinear_arith)
        requires pow2((len - 1) as nat) <= sig;
    assert(sig * up < pow2(len) * up) by (nonlinear_arith) requires sig < pow2(len), up > 0;
}

/// Long division, as [`represents`] wants it.
proof fn lemma_represents_quotient(
    si: nat, ei: nat, sj: nat, ej: nat, scale: nat, lift: nat, sig: nat, rest: nat,
)
    requires
        sj > 0,
        si * pow2(lift) == sj * sig + rest,
        rest < sj,
    ensures
        represents(
            sig, ei - ej + scale - lift, rest != 0,
            (si * pow2(ei)) * pow2(scale), sj * pow2(ej)),
{
    let shift = ei - ej + scale - lift;
    let neg = if shift < 0 { (-shift) as nat } else { 0 };
    let pos = if shift < 0 { 0 } else { shift as nat };
    let a = ((si * pow2(ei)) * pow2(scale)) * pow2(neg);
    let b = (sj * pow2(ej)) * pow2(pos);
    // Both sides hold the same power of two once the lift is taken out of the dividend.
    lemma_pow2_adds(ei, scale);
    lemma_pow2_adds(ei + scale, neg);
    lemma_pow2_adds(ej, pos);
    lemma_pow2_adds(ej + pos, lift);
    let k = pow2(ej + pos);
    lemma_pow2_pos(ej + pos);
    assert(ei + scale + neg == ej + pos + lift);
    assert(a == si * (pow2(ei) * pow2(scale) * pow2(neg))) by (nonlinear_arith)
        requires a == ((si * pow2(ei)) * pow2(scale)) * pow2(neg);
    assert(pow2(ei) * pow2(scale) * pow2(neg) == k * pow2(lift));
    assert(a == (sj * sig + rest) * k) by (nonlinear_arith)
        requires a == si * (k * pow2(lift)), si * pow2(lift) == sj * sig + rest;
    assert(b == sj * k) by (nonlinear_arith)
        requires b == (sj * pow2(ej)) * pow2(pos), k == pow2(ej) * pow2(pos);
    assert(sig * b + rest * k == a) by (nonlinear_arith)
        requires a == (sj * sig + rest) * k, b == sj * k;
    assert(rest * k < b) by (nonlinear_arith) requires b == sj * k, rest < sj, k > 0;
    assert(rest * k == 0 <==> rest == 0) by (nonlinear_arith) requires k > 0;
    assert(rest * k >= 0) by (nonlinear_arith);
    assert((sig + 1) * b == sig * b + b) by (nonlinear_arith);
}

} // verus!
