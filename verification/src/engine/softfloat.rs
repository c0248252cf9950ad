//! Binary floating point on bit patterns.
//!
//! Every finite number of a format is a whole multiple of the format's smallest
//! number, so the exact result of an operation is a fraction of integers in that
//! unit. Rounding picks one of the two neighbouring bit patterns.
use crate::engine::fpu::FpRounding;
use vstd::arithmetic::power2::{
    lemma2_to64, lemma2_to64_rest, lemma_pow2_adds, lemma_pow2_pos, lemma_pow2_strictly_increases,
    lemma_pow2_unfold, pow2,
};
use vstd::prelude::*;

verus! {

/// A binary interchange format.
#[derive(Debug, Clone, Copy, PartialEq, Eq, Structural)]
pub enum Format {
    /// 32 bits.
    Single,
    /// 64 bits.
    Double,
}

impl Format {
    /// Number of fraction bits.
    pub open spec fn frac(self) -> nat {
        match self {
            Format::Single => 23,
            Format::Double => 52,
        }
    }

    /// Exponent field of infinities and NaNs.
    pub open spec fn top(self) -> nat {
        match self {
            Format::Single => 255,
            Format::Double => 2047,
        }
    }

    /// The smallest number is 2^-unit.
    pub open spec fn unit(self) -> nat {
        match self {
            Format::Single => 149,
            Format::Double => 1074,
        }
    }

    /// Weight of the lowest exponent bit in a bit pattern.
    pub open spec fn hidden(self) -> nat {
        pow2(self.frac())
    }

    /// The magnitude of infinity; larger magnitudes are NaNs.
    pub open spec fn inf(self) -> nat {
        self.top() * self.hidden()
    }

    /// Weight of the sign bit.
    pub open spec fn sign_weight(self) -> nat {
        (self.top() + 1) * self.hidden()
    }

    /// The bit pattern without its sign.
    pub open spec fn mag(self, x: u64) -> nat {
        x as nat % self.sign_weight()
    }

    /// The sign.
    pub open spec fn neg(self, x: u64) -> bool {
        x >= self.sign_weight()
    }

    pub open spec fn is_nan(self, x: u64) -> bool {
        self.mag(x) > self.inf()
    }

    pub open spec fn is_inf(self, x: u64) -> bool {
        self.mag(x) == self.inf()
    }

    pub open spec fn is_zero(self, x: u64) -> bool {
        self.mag(x) == 0
    }

    /// A bit pattern of the format.
    pub open spec fn fits(self, x: u64) -> bool {
        x < 2 * self.sign_weight()
    }

    /// The bit pattern with a sign and a magnitude.
    pub open spec fn pack(self, neg: bool, mag: nat) -> u64 {
        (mag + (if neg {
            self.sign_weight()
        } else {
            0
        })) as u64
    }

    /// The quiet NaN that invalid operations give.
    pub open spec fn default_nan(self) -> u64 {
        match self {
            Format::Single => 0x7FC0_0000u64,
            Format::Double => 0x7FF8_0000_0000_0000u64,
        }
    }

    /// The number with a magnitude, in units of the smallest number. Infinity
    /// stands for the number that would follow the largest finite one.
    pub open spec fn val(self, mag: nat) -> nat {
        let e = mag / self.hidden();
        let f = mag % self.hidden();
        if e == 0 {
            f
        } else {
            (f + self.hidden()) * pow2((e - 1) as nat)
        }
    }

    /// The signed number of a finite bit pattern, in units of the smallest number.
    pub open spec fn sval(self, x: u64) -> int {
        if self.neg(x) {
            -(self.val(self.mag(x)) as int)
        } else {
            self.val(self.mag(x)) as int
        }
    }

    /// `r` is the largest magnitude that is at most `n / d`.
    pub open spec fn is_floor(self, r: nat, n: nat, d: nat) -> bool {
        &&& r <= self.inf()
        &&& self.val(r) * d <= n
        &&& r < self.inf() ==> n < self.val(r + 1) * d
    }

    pub open spec fn floor_mag(self, n: nat, d: nat) -> nat {
        choose|r: nat| self.is_floor(r, n, d)
    }

    /// `n / d` is a finite number of the format.
    pub open spec fn exact(self, n: nat, d: nat) -> bool {
        let r = self.floor_mag(n, d);
        r < self.inf() && self.val(r) * d == n
    }

    /// The magnitude closest to `n / d`; of two equally close ones, the even one.
    pub open spec fn nearest(self, n: nat, d: nat) -> nat {
        let r = self.floor_mag(n, d);
        let middle = (self.val(r) + self.val(r + 1)) * d;
        if r >= self.inf() {
            self.inf()
        } else if 2 * n > middle || (2 * n == middle && r % 2 == 1) {
            r + 1
        } else {
            r
        }
    }

    /// The largest finite magnitude that is at most `n / d`.
    pub open spec fn toward_zero(self, n: nat, d: nat) -> nat {
        let r = self.floor_mag(n, d);
        if r >= self.inf() {
            (self.inf() - 1) as nat
        } else {
            r
        }
    }

    /// The smallest magnitude, infinity included, that is at least `n / d`.
    pub open spec fn away(self, n: nat, d: nat) -> nat {
        if self.exact(n, d) {
            self.floor_mag(n, d)
        } else if self.floor_mag(n, d) >= self.inf() {
            self.inf()
        } else {
            self.floor_mag(n, d) + 1
        }
    }
}

/// How an exact number compares with the number it was rounded to.
#[derive(Debug, Clone, Copy, PartialEq, Eq, Structural)]
pub enum Rel {
    Below,
    Equal,
    Above,
}

/// The exact result of an operation; `n / d` is in units of the smallest number.
pub enum Exact {
    Nan,
    Inf(bool),
    Zero(bool),
    Val { neg: bool, n: nat, d: nat },
}

impl Exact {
    /// The result rounded in a mode.
    pub open spec fn rounded(self, f: Format, mode: FpRounding) -> u64 {
        match self {
            Exact::Nan => f.default_nan(),
            Exact::Inf(neg) => f.pack(neg, f.inf()),
            Exact::Zero(neg) => f.pack(neg, 0),
            Exact::Val { neg, n, d } => f.pack(
                neg,
                match mode {
                    FpRounding::Nearest => f.nearest(n, d),
                    FpRounding::Zero => f.toward_zero(n, d),
                    FpRounding::PlusInf => if neg {
                        f.toward_zero(n, d)
                    } else {
                        f.away(n, d)
                    },
                    FpRounding::MinusInf => if neg {
                        f.away(n, d)
                    } else {
                        f.toward_zero(n, d)
                    },
                },
            ),
        }
    }

    /// Rounding changes the number.
    pub open spec fn inexact(self, f: Format) -> bool {
        match self {
            Exact::Val { n, d, .. } => !f.exact(n, d),
            _ => false,
        }
    }
}

/// 2^e, or 1 where `e` is negative.
pub open spec fn up(e: int) -> nat {
    pow2(if e > 0 {
        e as nat
    } else {
        0
    })
}

/// 2^-e, or 1 where `e` is positive.
pub open spec fn dn(e: int) -> nat {
    pow2(if e < 0 {
        (-e) as nat
    } else {
        0
    })
}

/// `n / d` lies in `[m * 2^e, (m + 1) * 2^e)`, and is the lower end unless `sticky`.
pub open spec fn represents(m: nat, e: int, sticky: bool, n: nat, d: nat) -> bool {
    &&& d > 0
    &&& m * up(e) * d <= n * dn(e)
    &&& n * dn(e) < (m + 1) * up(e) * d
    &&& sticky == (m * up(e) * d != n * dn(e))
}

proof fn lemma_up_dn_pos(e: int)
    ensures
        up(e) > 0,
        dn(e) > 0,
{
    lemma_pow2_pos(if e > 0 {
        e as nat
    } else {
        0
    });
    lemma_pow2_pos(if e < 0 {
        (-e) as nat
    } else {
        0
    });
}

/// Scaling up by `s` places leads from the frame of `e` to whole units.
proof fn lemma_scale(e: int, s: nat)
    requires
        e + s >= 0,
    ensures
        pow2((e + s) as nat) * dn(e) == up(e) * pow2(s),
{
    lemma2_to64();
    if e >= 0 {
        lemma_pow2_adds(e as nat, s);
        assert(dn(e) == 1);
        assert(up(e) == pow2(e as nat));
        assert(pow2((e + s) as nat) * 1 == up(e) * pow2(s));
    } else {
        lemma_pow2_adds((e + s) as nat, (-e) as nat);
        assert(up(e) == 1);
        assert(1 * pow2(s) == pow2(s));
    }
}

/// A number that is `j` in the frame of `e` compares with `n / d` as `j` does
/// with `m`.
proof fn lemma_cut(m: nat, e: int, sticky: bool, n: nat, d: nat, j: nat, x: nat)
    requires
        represents(m, e, sticky, n, d),
        x * dn(e) == j * up(e),
    ensures
        x * d <= n <==> j <= m,
        x * d == n <==> (j == m && !sticky),
{
    lemma_up_dn_pos(e);
    let q = dn(e);
    let p = up(e);
    let a = p * d;
    assert(x * d * q == j * a) by (nonlinear_arith)
        requires
            x * q == j * p,
            a == p * d,
    ;
    assert(m * p * d == m * a) by (nonlinear_arith)
        requires
            a == p * d,
    ;
    assert((m + 1) * p * d == m * a + a) by (nonlinear_arith)
        requires
            a == p * d,
    ;
    assert(a > 0) by (nonlinear_arith)
        requires
            p > 0,
            d > 0,
            a == p * d,
    ;
    if j <= m {
        assert(j * a <= m * a) by (nonlinear_arith)
            requires
                j <= m,
                a > 0,
        ;
        assert(x * d <= n) by (nonlinear_arith)
            requires
                x * d * q <= n * q,
                q > 0,
        ;
        if j < m {
            assert(j * a < m * a) by (nonlinear_arith)
                requires
                    j < m,
                    a > 0,
            ;
            assert(x * d != n) by (nonlinear_arith)
                requires
                    x * d * q < n * q,
            ;
        } else {
            if sticky {
                assert(x * d != n) by (nonlinear_arith)
                    requires
                        x * d * q != n * q,
                ;
            } else {
                assert(x * d == n) by (nonlinear_arith)
                    requires
                        x * d * q == n * q,
                        q > 0,
                ;
            }
        }
    } else {
        assert(j * a >= m * a + a) by (nonlinear_arith)
            requires
                j >= m + 1,
                a > 0,
        ;
        assert(x * d > n) by (nonlinear_arith)
            requires
                x * d * q > n * q,
                q > 0,
        ;
    }
}

/// Doubling a number moves its frame by one place.
proof fn lemma_double(m: nat, e: int, sticky: bool, n: nat, d: nat)
    requires
        represents(m, e, sticky, n, d),
    ensures
        represents(m, e + 1, sticky, 2 * n, d),
{
    if e >= 0 {
        lemma_pow2_unfold((e + 1) as nat);
        let p = up(e);
        let q = dn(e);
        assert(up(e + 1) == 2 * p);
        assert(dn(e + 1) == q);
        assert(m * (2 * p) * d == 2 * (m * p * d)) by (nonlinear_arith);
        assert((m + 1) * (2 * p) * d == 2 * ((m + 1) * p * d)) by (nonlinear_arith);
        assert((2 * n) * q == 2 * (n * q)) by (nonlinear_arith);
    } else {
        lemma_pow2_unfold((-e) as nat);
        let q = dn(e + 1);
        assert(dn(e) == 2 * q);
        assert(up(e + 1) == up(e));
        assert(n * (2 * q) == (2 * n) * q) by (nonlinear_arith);
    }
}

/// The magnitude with exponent step `k` and significand `sig` is `sig * 2^k`.
proof fn lemma_val_pack(f: Format, k: nat, sig: nat)
    requires
        sig <= 2 * f.hidden(),
        k > 0 ==> sig >= f.hidden(),
    ensures
        f.val(k * f.hidden() + sig) == sig * pow2(k),
{
    let h = f.hidden();
    lemma_pow2_pos(f.frac());
    lemma2_to64();
    let r = k * h + sig;
    if sig < h {
        assert(r == sig);
        vstd::arithmetic::div_mod::lemma_fundamental_div_mod_converse(r as int, h as int, 0, sig as int);
        assert(sig * pow2(0) == sig);
    } else if sig < 2 * h {
        let fr = (sig - h) as nat;
        assert(r == (k + 1) * h + fr) by (nonlinear_arith)
            requires
                r == k * h + sig,
                fr == sig - h,
        ;
        assert(h * (k + 1) == (k + 1) * h) by (nonlinear_arith);
        vstd::arithmetic::div_mod::lemma_fundamental_div_mod_converse(
            r as int,
            h as int,
            (k + 1) as int,
            fr as int,
        );
    } else {
        assert(r == (k + 2) * h) by (nonlinear_arith)
            requires
                r == k * h + sig,
                sig == 2 * h,
        ;
        assert(h * (k + 2) == (k + 2) * h) by (nonlinear_arith);
        vstd::arithmetic::div_mod::lemma_fundamental_div_mod_converse(
            r as int,
            h as int,
            (k + 2) as int,
            0,
        );
        lemma_pow2_unfold((k + 1) as nat);
        assert((0 + h) * (2 * pow2(k)) == (2 * h) * pow2(k)) by (nonlinear_arith);
    }
}

/// Consecutive magnitudes are consecutive numbers.
proof fn lemma_val_step(f: Format, r: nat)
    ensures
        f.val(r) < f.val(r + 1),
{
    let h = f.hidden();
    lemma_pow2_pos(f.frac());
    lemma2_to64();
    let e = r / h;
    let fr = r % h;
    vstd::arithmetic::div_mod::lemma_fundamental_div_mod(r as int, h as int);
    vstd::arithmetic::div_mod::lemma_mod_pos_bound(r as int, h as int);
    if e == 0 {
        assert(h * 0 == 0);
        assert(0 * h == 0);
        lemma_val_pack(f, 0, fr);
        lemma_val_pack(f, 0, (fr + 1) as nat);
        assert((fr + 1) * pow2(0) == fr + 1);
        assert(fr * pow2(0) == fr);
    } else {
        let k = (e - 1) as nat;
        let sig = (fr + h) as nat;
        assert(k * h + sig == r) by (nonlinear_arith)
            requires
                r == h * e + fr,
                k == e - 1,
                sig == fr + h,
        ;
        lemma_val_pack(f, k, sig);
        lemma_val_pack(f, k, (sig + 1) as nat);
        lemma_pow2_pos(k);
        assert((sig + 1) * pow2(k) > sig * pow2(k)) by (nonlinear_arith)
            requires
                pow2(k) > 0,
        ;
    }
}

/// Magnitudes are ordered as their numbers are.
pub proof fn law_magnitude_order(f: Format, a: nat, b: nat)
    requires
        a < b,
    ensures
        f.val(a) < f.val(b),
    decreases b,
{
    lemma_val_step(f, (b - 1) as nat);
    if a < b - 1 {
        law_magnitude_order(f, a, (b - 1) as nat);
    }
}

proof fn lemma_floor_unique(f: Format, r: nat, n: nat, d: nat)
    requires
        f.is_floor(r, n, d),
    ensures
        f.floor_mag(n, d) == r,
{
    let q = f.floor_mag(n, d);
    assert(f.is_floor(q, n, d));
    if q < r {
        if q + 1 < r {
            law_magnitude_order(f, q + 1, r);
        }
        assert(f.val(q + 1) * d <= f.val(r) * d) by (nonlinear_arith)
            requires
                f.val(q + 1) <= f.val(r),
        ;
    } else if r < q {
        if r + 1 < q {
            law_magnitude_order(f, r + 1, q);
        }
        assert(f.val(r + 1) * d <= f.val(q) * d) by (nonlinear_arith)
            requires
                f.val(r + 1) <= f.val(q),
        ;
    }
}

/// 2^s.
fn two(s: u32) -> (r: u128)
    requires
        s <= 127,
    ensures
        r == pow2(s as nat),
        r > 0,
{
    proof {
        lemma2_to64();
    }
    let mut p: u128 = 1;
    let mut i: u32 = 0;
    while i < s
        invariant
            i <= s <= 127,
            p == pow2(i as nat),
        decreases s - i,
    {
        proof {
            lemma_pow2_unfold((i + 1) as nat);
            lemma_pow2_127();
            if i + 1 < 127 {
                lemma_pow2_strictly_increases((i + 1) as nat, 127);
            }
        }
        p = p * 2;
        i = i + 1;
    }
    proof {
        lemma_pow2_pos(s as nat);
    }
    p
}

proof fn lemma_pow2_127()
    ensures
        pow2(126) == 0x4000_0000_0000_0000_0000_0000_0000_0000,
        pow2(127) == 0x8000_0000_0000_0000_0000_0000_0000_0000,
{
    lemma2_to64();
    lemma2_to64_rest();
    lemma_pow2_adds(63, 63);
    lemma_pow2_adds(63, 64);
}

/// Number of bits up to the highest set one.
fn bit_len(m: u128) -> (r: u32)
    ensures
        m == 0 ==> r == 0,
        m > 0 ==> r >= 1 && pow2((r - 1) as nat) <= m < pow2(r as nat),
        r <= 128,
    decreases m,
{
    proof {
        lemma2_to64();
    }
    if m == 0 {
        0
    } else {
        let half: u32 = bit_len(m / 2);
        proof {
            lemma_pow2_unfold((half + 1) as nat);
            if half >= 1 {
                lemma_pow2_unfold(half as nat);
                if half >= 128 {
                    lemma_pow2_127();
                    if half - 1 > 127 {
                        lemma_pow2_strictly_increases(127, (half - 1) as nat);
                    }
                }
            }
        }
        half + 1
    }
}

impl Format {
    /// Number of fraction bits.
    fn frac_bits(self) -> (r: u32)
        ensures
            r == self.frac(),
    {
        match self {
            Format::Single => 23,
            Format::Double => 52,
        }
    }

    /// Weight of the lowest exponent bit in a bit pattern.
    fn hidden_bit(self) -> (r: u64)
        ensures
            r == self.hidden(),
            0x80_0000 <= r <= 0x10_0000_0000_0000,
    {
        proof {
            lemma2_to64();
            lemma2_to64_rest();
        }
        match self {
            Format::Single => 0x80_0000,
            Format::Double => 0x10_0000_0000_0000,
        }
    }

    /// Exponent field of infinities and NaNs.
    fn top_field(self) -> (r: u32)
        ensures
            r == self.top(),
    {
        match self {
            Format::Single => 255,
            Format::Double => 2047,
        }
    }

    /// The exponent of the smallest number, without its sign.
    fn unit_exp(self) -> (r: u32)
        ensures
            r == self.unit(),
    {
        match self {
            Format::Single => 149,
            Format::Double => 1074,
        }
    }

    /// The magnitude of infinity.
    pub fn infinity(self) -> (r: u64)
        ensures
            r == self.inf(),
            r <= 0x7FF0_0000_0000_0000,
    {
        proof {
            lemma_constants();
        }
        match self {
            Format::Single => 0x7F80_0000,
            Format::Double => 0x7FF0_0000_0000_0000,
        }
    }

    /// Weight of the sign bit.
    pub fn sign_bit(self) -> (r: u64)
        ensures
            r == self.sign_weight(),
            0x8000_0000 <= r <= 0x8000_0000_0000_0000,
    {
        proof {
            lemma_constants();
        }
        match self {
            Format::Single => 0x8000_0000,
            Format::Double => 0x8000_0000_0000_0000,
        }
    }
}

pub proof fn lemma_constants()
    ensures
        Format::Single.hidden() == 0x80_0000,
        Format::Single.inf() == 0x7F80_0000,
        Format::Single.sign_weight() == 0x8000_0000,
        Format::Double.hidden() == 0x10_0000_0000_0000,
        Format::Double.inf() == 0x7FF0_0000_0000_0000,
        Format::Double.sign_weight() == 0x8000_0000_0000_0000,
{
    lemma2_to64();
    lemma2_to64_rest();
    assert(255 * Format::Single.hidden() == 0x7F80_0000);
    assert(256 * Format::Single.hidden() == 0x8000_0000);
    assert(2047 * Format::Double.hidden() == 0x7FF0_0000_0000_0000);
    assert(2048 * Format::Double.hidden() == 0x8000_0000_0000_0000);
}

/// What rounding a magnitude needs to know.
struct Cut {
    /// The largest magnitude that is at most the number.
    floor: u64,
    /// The closest magnitude.
    nearest: u64,
    /// The number is a finite number of the format.
    exact: bool,
}

/// Finds the magnitudes around a positive number.
#[verifier::rlimit(60)]
fn cut_at(f: Format, m: u128, e: i32, sticky: bool, Ghost(n): Ghost<nat>, Ghost(d): Ghost<nat>) -> (r:
    Cut)
    requires
        represents(m as nat, e as int, sticky, n, d),
        m < 0x8000_0000_0000_0000_0000_0000_0000_0000,
        -10000 <= e <= 10000,
        sticky ==> e < 0 || m >= 0x40_0000_0000_0000,
    ensures
        r.floor == f.floor_mag(n, d),
        r.nearest == f.nearest(n, d),
        r.exact == f.exact(n, d),
        r.floor <= f.inf(),
        r.nearest <= f.inf(),
{
    let h: u64 = f.hidden_bit();
    let fr: u32 = f.frac_bits();
    let top: u32 = f.top_field();
    let inf: u64 = f.infinity();
    proof {
        lemma_up_dn_pos(e as int);
    }
    if m == 0 && !sticky {
        proof {
            assert(n == 0) by {
                let q = dn(e as int);
                assert(0 * up(e as int) * d == 0) by (nonlinear_arith);
                assert(n == 0) by (nonlinear_arith)
                    requires
                        n * q == 0,
                        q > 0,
                ;
            }
            lemma_at_zero(f, n, d);
        }
        return Cut { floor: 0, nearest: 0, exact: true };
    }
    let len: u32 = bit_len(m);
    proof {
        lemma_pow2_127();
        if len == 128 {
            assert(pow2(127) <= m);
        }
    }
    let t: i32 = e + len as i32 - (fr as i32 + 1);
    let k: i32 = if t > 0 {
        t
    } else {
        0
    };
    if k >= top as i32 - 1 {
        proof {
            lemma_overflows(f, m as nat, e as int, sticky, n, d, len as nat);
        }
        return Cut { floor: inf, nearest: inf, exact: false };
    }
    let s: i32 = k - e;
    if s <= 0 {
        let w: u32 = (0 - s) as u32;
        proof {
            lemma2_to64();
            lemma2_to64_rest();
            if sticky {
                // 2^54 <= m < 2^len, so at least one place is cut off.
                if len <= 54 {
                    if len < 54 {
                        lemma_pow2_strictly_increases(len as nat, 54);
                    }
                }
                assert(false);
            }
            assert(w + len <= fr + 1);
            lemma_pow2_adds(len as nat, w as nat);
            if w + len < fr + 1 {
                lemma_pow2_strictly_increases((w + len) as nat, (fr + 1) as nat);
            }
            lemma_pow2_unfold((fr + 1) as nat);
            let a = pow2(w as nat);
            assert(m * a < pow2(len as nat) * a) by (nonlinear_arith)
                requires
                    m < pow2(len as nat),
                    a > 0,
            {
            }
        }
        let p: u128 = two(w);
        let sig: u128 = m * p;
        proof {
            if k > 0 {
                assert(w + len == fr + 1);
                lemma_pow2_adds((len - 1) as nat, w as nat);
                assert(sig >= pow2(fr as nat)) by (nonlinear_arith)
                    requires
                        sig == m * p,
                        m >= pow2((len - 1) as nat),
                        pow2((len - 1) as nat) * p == pow2(fr as nat),
                ;
            }
            lemma_exact_case(f, m as nat, e as int, n, d, k as nat, sig as nat);
            assert(k as nat * h <= 2045 * 0x10_0000_0000_0000) by (nonlinear_arith)
                requires
                    0 <= k <= 2045,
                    h <= 0x10_0000_0000_0000,
            ;
        }
        let r: u64 = (k as u64) * h + sig as u64;
        Cut { floor: r, nearest: r, exact: true }
    } else if s >= 128 {
        proof {
            lemma_tiny_case(f, m as nat, e as int, sticky, n, d);
        }
        Cut { floor: 0, nearest: 0, exact: false }
    } else {
        let sw: u128 = two(s as u32);
        let hw: u128 = two((s - 1) as u32);
        let sig: u128 = m / sw;
        let rem: u128 = m % sw;
        proof {
            lemma_pow2_unfold(s as nat);
            lemma_cut_bounds(f, m as nat, s as nat, len as nat, k as nat, e as int);
            lemma_cut_case(f, m as nat, e as int, sticky, n, d, k as nat, s as nat, sig as nat);
            vstd::arithmetic::div_mod::lemma_fundamental_div_mod(m as int, sw as int);
            assert(k as nat * h <= 2045 * 0x10_0000_0000_0000) by (nonlinear_arith)
                requires
                    0 <= k <= 2045,
                    h <= 0x10_0000_0000_0000,
            ;
        }
        let r: u64 = (k as u64) * h + sig as u64;
        let above: bool = rem > hw || (rem == hw && sticky);
        let tie: bool = rem == hw && !sticky;
        let bump: bool = above || (tie && r % 2 == 1);
        proof {
            lemma_below_inf(f, k as nat, sig as nat);
        }
        Cut {
            floor: r,
            nearest: if bump {
                r + 1
            } else {
                r
            },
            exact: rem == 0 && !sticky,
        }
    }
}

proof fn lemma_below_inf(f: Format, k: nat, sig: nat)
    requires
        k + 2 <= f.top(),
        sig < 2 * f.hidden(),
    ensures
        k * f.hidden() + sig < f.inf(),
{
    let h = f.hidden();
    assert(k * h + 2 * h <= f.top() * h) by (nonlinear_arith)
        requires
            k + 2 <= f.top(),
    ;
}

proof fn lemma_at_zero(f: Format, n: nat, d: nat)
    requires
        n == 0,
        d > 0,
    ensures
        f.floor_mag(n, d) == 0,
        f.nearest(n, d) == 0,
        f.exact(n, d),
{
    lemma_constants();
    lemma_val_pack(f, 0, 0);
    lemma_val_step(f, 0);
    assert(0 * f.hidden() + 0 == 0);
    assert(0 * pow2(0) == 0);
    assert(f.val(1) * d > 0) by (nonlinear_arith)
        requires
            f.val(1) > 0,
            d > 0,
    ;
    assert(f.val(0) * d == 0);
    assert(f.is_floor(0, n, d));
    lemma_floor_unique(f, 0, n, d);
    assert((f.val(0) + f.val(1)) * d == f.val(1) * d);
}

proof fn lemma_overflows(f: Format, m: nat, e: int, sticky: bool, n: nat, d: nat, len: nat)
    requires
        represents(m, e, sticky, n, d),
        len >= 1,
        pow2((len - 1) as nat) <= m,
        e + len - (f.frac() + 1) >= f.top() - 1,
    ensures
        f.floor_mag(n, d) == f.inf(),
        f.nearest(n, d) == f.inf(),
        !f.exact(n, d),
{
    let h = f.hidden();
    let k = (e + len - (f.frac() + 1)) as nat;
    let x = h * pow2(k);
    let j = pow2((len - 1) as nat);
    lemma_pow2_adds(f.frac(), k);
    lemma_scale(e, (len - 1) as nat);
    lemma_cut(m, e, sticky, n, d, j, x);
    let kt = (f.top() - 1) as nat;
    lemma_val_pack(f, kt, h);
    assert(kt * h + h == f.top() * h) by (nonlinear_arith)
        requires
            kt == f.top() - 1,
    ;
    if kt < k {
        lemma_pow2_strictly_increases(kt, k);
    }
    assert(h * pow2(kt) * d <= x * d) by (nonlinear_arith)
        requires
            pow2(kt) <= pow2(k),
            x == h * pow2(k),
    ;
    assert(f.is_floor(f.inf(), n, d));
    lemma_floor_unique(f, f.inf(), n, d);
}

proof fn lemma_exact_case(f: Format, m: nat, e: int, n: nat, d: nat, k: nat, sig: nat)
    requires
        represents(m, e, false, n, d),
        e >= k,
        sig == m * pow2((e - k) as nat),
        sig < 2 * f.hidden(),
        k > 0 ==> sig >= f.hidden(),
        k + 2 <= f.top(),
    ensures
        f.floor_mag(n, d) == k * f.hidden() + sig,
        f.nearest(n, d) == k * f.hidden() + sig,
        f.exact(n, d),
        k * f.hidden() + sig < f.inf(),
{
    let r = k * f.hidden() + sig;
    let x = sig * pow2(k);
    lemma_val_pack(f, k, sig);
    lemma_pow2_adds((e - k) as nat, k);
    lemma2_to64();
    assert(x * dn(e) == m * up(e)) by {
        assert(dn(e) == 1);
        assert(up(e) == pow2(e as nat)) by {
            if e == 0 {
            }
        }
        assert(m * pow2((e - k) as nat) * pow2(k) == m * (pow2((e - k) as nat) * pow2(k)))
            by (nonlinear_arith);
        assert(x * 1 == x);
    }
    lemma_cut(m, e, false, n, d, m, x);
    lemma_val_step(f, r);
    assert(f.val(r + 1) * d > f.val(r) * d) by (nonlinear_arith)
        requires
            f.val(r + 1) > f.val(r),
            d > 0,
    ;
    lemma_below_inf(f, k, sig);
    assert(f.is_floor(r, n, d));
    lemma_floor_unique(f, r, n, d);
    assert((f.val(r) + f.val(r + 1)) * d == f.val(r) * d + f.val(r + 1) * d) by (nonlinear_arith);
}

proof fn lemma_tiny_case(f: Format, m: nat, e: int, sticky: bool, n: nat, d: nat)
    requires
        represents(m, e, sticky, n, d),
        m < pow2(127),
        e <= -128,
        m > 0 || sticky,
    ensures
        f.floor_mag(n, d) == 0,
        f.nearest(n, d) == 0,
        !f.exact(n, d),
{
    let s = (-e) as nat;
    lemma2_to64();
    lemma_constants();
    lemma_pow2_strictly_increases(127, s);
    if s - 1 > 127 {
        lemma_pow2_strictly_increases(127, (s - 1) as nat);
    }
    assert(0 * dn(e) == 0 * up(e));
    lemma_cut(m, e, sticky, n, d, 0, 0);
    assert(1 * dn(e) == pow2(s) * up(e)) by {
        assert(up(e) == 1);
    }
    lemma_cut(m, e, sticky, n, d, pow2(s), 1);
    lemma_double(m, e, sticky, n, d);
    assert(1 * dn(e + 1) == pow2((s - 1) as nat) * up(e + 1)) by {
        assert(up(e + 1) == 1);
    }
    lemma_cut(m, e + 1, sticky, 2 * n, d, pow2((s - 1) as nat), 1);
    lemma_val_pack(f, 0, 0);
    lemma_val_pack(f, 0, 1);
    assert(0 * f.hidden() + 0 == 0);
    assert(0 * f.hidden() + 1 == 1);
    assert(1 * pow2(0) == 1);
    assert(f.val(0) == 0);
    assert(f.val(1) == 1);
    assert(1 * d == d);
    assert(f.is_floor(0, n, d));
    lemma_floor_unique(f, 0, n, d);
    assert((f.val(0) + f.val(1)) * d == d);
}

proof fn lemma_cut_bounds(f: Format, m: nat, s: nat, len: nat, k: nat, e: int)
    requires
        m < pow2(len),
        m > 0 ==> len >= 1 && pow2((len - 1) as nat) <= m,
        m == 0 ==> len == 0,
        s == k - e,
        s >= 1,
        k == (if e + len - (f.frac() + 1) > 0 {
            e + len - (f.frac() + 1)
        } else {
            0
        }),
        len <= 127,
        m == 0 ==> e < 0,
    ensures
        m / pow2(s) < 2 * f.hidden(),
        k > 0 ==> m / pow2(s) >= f.hidden(),
{
    let sw = pow2(s);
    lemma_pow2_pos(s);
    lemma_pow2_unfold(f.frac() + 1);
    lemma_pow2_adds(f.frac() + 1, s);
    assert(len <= f.frac() + 1 + s);
    if len < f.frac() + 1 + s {
        lemma_pow2_strictly_increases(len, f.frac() + 1 + s);
    }
    vstd::arithmetic::div_mod::lemma_fundamental_div_mod(m as int, sw as int);
    vstd::arithmetic::div_mod::lemma_mod_pos_bound(m as int, sw as int);
    let q = m / sw;
    assert(q < 2 * f.hidden()) by (nonlinear_arith)
        requires
            sw * q <= m,
            m < (2 * f.hidden()) * sw,
            sw > 0,
    ;
    if k > 0 {
        assert(len - 1 == f.frac() + s);
        lemma_pow2_adds(f.frac(), s);
        assert(q >= f.hidden()) by (nonlinear_arith)
            requires
                m < sw * q + sw,
                f.hidden() * sw <= m,
                sw > 0,
        ;
    }
}

proof fn lemma_cut_case(
    f: Format,
    m: nat,
    e: int,
    sticky: bool,
    n: nat,
    d: nat,
    k: nat,
    s: nat,
    sig: nat,
)
    requires
        represents(m, e, sticky, n, d),
        k == e + s,
        s >= 1,
        sig == m / pow2(s),
        sig < 2 * f.hidden(),
        k > 0 ==> sig >= f.hidden(),
        k + 2 <= f.top(),
    ensures
        f.floor_mag(n, d) == k * f.hidden() + sig,
        f.exact(n, d) == (m % pow2(s) == 0 && !sticky),
        f.nearest(n, d) == (if m % pow2(s) > pow2((s - 1) as nat) || (m % pow2(s) == pow2(
            (s - 1) as nat,
        ) && (sticky || (k * f.hidden() + sig) % 2 == 1)) {
            k * f.hidden() + sig + 1
        } else {
            k * f.hidden() + sig
        }),
{
    let sw = pow2(s);
    let hw = pow2((s - 1) as nat);
    let kk = pow2(k);
    let rem = m % sw;
    let r = k * f.hidden() + sig;
    lemma_pow2_pos(s);
    lemma_pow2_unfold(s);
    vstd::arithmetic::div_mod::lemma_fundamental_div_mod(m as int, sw as int);
    vstd::arithmetic::div_mod::lemma_mod_pos_bound(m as int, sw as int);
    lemma_val_pack(f, k, sig);
    lemma_val_pack(f, k, sig + 1);
    lemma_scale(e, s);
    // The floor.
    let j = sig * sw;
    let x = sig * kk;
    assert(x * dn(e) == j * up(e)) by (nonlinear_arith)
        requires
            x == sig * kk,
            j == sig * sw,
            kk * dn(e) == up(e) * sw,
    ;
    lemma_cut(m, e, sticky, n, d, j, x);
    // The next magnitude.
    let j1 = (sig + 1) * sw;
    let x1 = (sig + 1) * kk;
    assert(x1 * dn(e) == j1 * up(e)) by (nonlinear_arith)
        requires
            x1 == (sig + 1) * kk,
            j1 == (sig + 1) * sw,
            kk * dn(e) == up(e) * sw,
    ;
    lemma_cut(m, e, sticky, n, d, j1, x1);
    assert(j == sw * sig) by (nonlinear_arith)
        requires
            j == sig * sw,
    ;
    assert(j1 == j + sw) by (nonlinear_arith)
        requires
            j1 == (sig + 1) * sw,
            j == sig * sw,
    ;
    lemma_below_inf(f, k, sig);
    assert(f.is_floor(r, n, d));
    lemma_floor_unique(f, r, n, d);
    // The middle.
    lemma_double(m, e, sticky, n, d);
    lemma_scale(e + 1, (s - 1) as nat);
    let j2 = j + hw;
    let x2 = (2 * sig + 1) * kk;
    assert(j2 == (2 * sig + 1) * hw) by (nonlinear_arith)
        requires
            j2 == sig * sw + hw,
            sw == 2 * hw,
    ;
    assert(x2 * dn(e + 1) == j2 * up(e + 1)) by (nonlinear_arith)
        requires
            x2 == (2 * sig + 1) * kk,
            j2 == (2 * sig + 1) * hw,
            kk * dn(e + 1) == up(e + 1) * hw,
    ;
    lemma_cut(m, e + 1, sticky, 2 * n, d, j2, x2);
    assert((f.val(r) + f.val(r + 1)) * d == x2 * d) by (nonlinear_arith)
        requires
            f.val(r) == sig * kk,
            f.val(r + 1) == (sig + 1) * kk,
            x2 == (2 * sig + 1) * kk,
    ;
}

/// A signed fraction as an exact result; `zero_neg` is the sign of a zero.
pub open spec fn exact_of(t: int, d: nat, zero_neg: bool) -> Exact {
    if t == 0 {
        Exact::Zero(zero_neg)
    } else {
        Exact::Val {
            neg: t < 0,
            n: (if t < 0 {
                -t
            } else {
                t
            }) as nat,
            d,
        }
    }
}

/// The exact sum.
pub open spec fn exact_add(f: Format, x: u64, y: u64) -> Exact {
    if f.is_nan(x) || f.is_nan(y) {
        Exact::Nan
    } else if f.is_inf(x) {
        if f.is_inf(y) && f.neg(x) != f.neg(y) {
            Exact::Nan
        } else {
            Exact::Inf(f.neg(x))
        }
    } else if f.is_inf(y) {
        Exact::Inf(f.neg(y))
    } else {
        exact_of(f.sval(x) + f.sval(y), 1, f.neg(x) && f.neg(y))
    }
}

/// The exact product.
pub open spec fn exact_mul(f: Format, x: u64, y: u64) -> Exact {
    let neg = f.neg(x) != f.neg(y);
    if f.is_nan(x) || f.is_nan(y) {
        Exact::Nan
    } else if f.is_inf(x) || f.is_inf(y) {
        if f.is_zero(x) || f.is_zero(y) {
            Exact::Nan
        } else {
            Exact::Inf(neg)
        }
    } else if f.is_zero(x) || f.is_zero(y) {
        Exact::Zero(neg)
    } else {
        Exact::Val { neg, n: f.val(f.mag(x)) * f.val(f.mag(y)), d: pow2(f.unit()) }
    }
}

/// The exact quotient.
pub open spec fn exact_div(f: Format, x: u64, y: u64) -> Exact {
    let neg = f.neg(x) != f.neg(y);
    if f.is_nan(x) || f.is_nan(y) || (f.is_inf(x) && f.is_inf(y)) || (f.is_zero(x) && f.is_zero(
        y,
    )) {
        Exact::Nan
    } else if f.is_inf(x) || f.is_zero(y) {
        Exact::Inf(neg)
    } else if f.is_inf(y) || f.is_zero(x) {
        Exact::Zero(neg)
    } else {
        Exact::Val { neg, n: f.val(f.mag(x)) * pow2(f.unit()), d: f.val(f.mag(y)) }
    }
}

/// The exact value of `x * y + z`.
pub open spec fn exact_fma(f: Format, x: u64, y: u64, z: u64) -> Exact {
    let neg = f.neg(x) != f.neg(y);
    if f.is_nan(x) || f.is_nan(y) || f.is_nan(z) {
        Exact::Nan
    } else if f.is_inf(x) || f.is_inf(y) {
        if f.is_zero(x) || f.is_zero(y) || (f.is_inf(z) && f.neg(z) != neg) {
            Exact::Nan
        } else {
            Exact::Inf(neg)
        }
    } else if f.is_inf(z) {
        Exact::Inf(f.neg(z))
    } else {
        exact_of(
            f.sval(x) * f.sval(y) + f.sval(z) * pow2(f.unit()),
            pow2(f.unit()),
            neg && f.neg(z),
        )
    }
}

/// A number of one format, to be rounded to another.
pub open spec fn exact_convert(from: Format, to: Format, x: u64) -> Exact {
    if from.is_nan(x) {
        Exact::Nan
    } else if from.is_inf(x) {
        Exact::Inf(from.neg(x))
    } else if from.is_zero(x) {
        Exact::Zero(from.neg(x))
    } else {
        Exact::Val {
            neg: from.neg(x),
            n: from.val(from.mag(x)) * pow2(to.unit()),
            d: pow2(from.unit()),
        }
    }
}

/// The number `v / 2^fbits`, to be rounded to a format.
pub open spec fn exact_fixed(f: Format, v: int, fbits: nat) -> Exact {
    exact_of(v * pow2(f.unit()), pow2(fbits), false)
}

/// An exact result in binary: `m * 2^e` in units of the smallest number, and a
/// little more if `sticky`.
pub enum Num {
    Nan,
    Inf(bool),
    Zero(bool),
    Val { neg: bool, m: u128, e: i32, sticky: bool },
}

impl Num {
    pub open spec fn denotes(self, x: Exact) -> bool {
        match (self, x) {
            (Num::Nan, Exact::Nan) => true,
            (Num::Inf(a), Exact::Inf(b)) => a == b,
            (Num::Zero(a), Exact::Zero(b)) => a == b,
            (Num::Val { neg, m, e, sticky }, Exact::Val { neg: neg2, n, d }) => {
                &&& neg == neg2
                &&& represents(m as nat, e as int, sticky, n, d)
                &&& m < 0x8000_0000_0000_0000_0000_0000_0000_0000
                &&& -10000 <= e <= 10000
                &&& sticky ==> e < 0 || m >= 0x40_0000_0000_0000
            },
            _ => false,
        }
    }
}

/// The bit pattern with a sign and a magnitude.
pub fn pack_bits(f: Format, neg: bool, mag: u64) -> (r: u64)
    requires
        mag <= f.inf(),
    ensures
        r == f.pack(neg, mag as nat),
        f.fits(r),
        f.mag(r) == mag,
        f.neg(r) == neg,
{
    proof {
        lemma_constants();
        lemma_unpack(f, neg, mag as nat);
    }
    if neg {
        mag + f.sign_bit()
    } else {
        mag
    }
}

pub proof fn lemma_unpack(f: Format, neg: bool, mag: nat)
    requires
        mag < f.sign_weight(),
    ensures
        f.pack(neg, mag) == mag + (if neg {
            f.sign_weight()
        } else {
            0
        }),
        f.fits(f.pack(neg, mag)),
        f.mag(f.pack(neg, mag)) == mag,
        f.neg(f.pack(neg, mag)) == neg,
{
    lemma_constants();
    let w = f.sign_weight() as int;
    let x = f.pack(neg, mag) as int;
    if neg {
        vstd::arithmetic::div_mod::lemma_fundamental_div_mod_converse(x, w, 1, mag as int);
    } else {
        vstd::arithmetic::div_mod::lemma_small_mod(mag, w as nat);
    }
}

/// The magnitude of a bit pattern.
pub fn mag_of(f: Format, x: u64) -> (r: u64)
    ensures
        r == f.mag(x),
{
    x % f.sign_bit()
}

/// The sign of a bit pattern.
pub fn neg_of(f: Format, x: u64) -> (r: bool)
    ensures
        r == f.neg(x),
{
    x >= f.sign_bit()
}

/// The bit pattern of the quiet NaN that invalid operations give.
fn default_nan_bits(f: Format) -> (r: u64)
    ensures
        r == f.default_nan(),
{
    match f {
        Format::Single => 0x7FC0_0000,
        Format::Double => 0x7FF8_0000_0000_0000,
    }
}

/// Rounds an exact result; tells whether that changed the number.
pub(crate) fn round_num(f: Format, mode: FpRounding, num: Num, Ghost(x): Ghost<Exact>) -> (r: (u64, bool))
    requires
        num.denotes(x),
    ensures
        r.0 == x.rounded(f, mode),
        r.1 == x.inexact(f),
        f.fits(r.0),
{
    proof {
        lemma_constants();
    }
    match num {
        Num::Nan => (default_nan_bits(f), false),
        Num::Inf(neg) => (pack_bits(f, neg, f.infinity()), false),
        Num::Zero(neg) => (pack_bits(f, neg, 0), false),
        Num::Val { neg, m, e, sticky } => {
            let ghost n = x->n;
            let ghost d = x->d;
            let c = cut_at(f, m, e, sticky, Ghost(n), Ghost(d));
            let inf: u64 = f.infinity();
            let down: u64 = if c.floor >= inf {
                inf - 1
            } else {
                c.floor
            };
            let away: u64 = if c.exact {
                c.floor
            } else if c.floor >= inf {
                inf
            } else {
                c.floor + 1
            };
            let mag: u64 = match mode {
                FpRounding::Nearest => c.nearest,
                FpRounding::Zero => down,
                FpRounding::PlusInf => if neg {
                    down
                } else {
                    away
                },
                FpRounding::MinusInf => if neg {
                    away
                } else {
                    down
                },
            };
            (pack_bits(f, neg, mag), !c.exact)
        },
    }
}

/// The significand of a magnitude, with the leading one of normal numbers.
pub open spec fn sig_of(f: Format, mag: nat) -> nat {
    if mag / f.hidden() == 0 {
        mag % f.hidden()
    } else {
        mag % f.hidden() + f.hidden()
    }
}

/// The exponent step of a magnitude: the number is the significand times 2^step.
pub open spec fn step_of(f: Format, mag: nat) -> nat {
    if mag / f.hidden() == 0 {
        0
    } else {
        (mag / f.hidden() - 1) as nat
    }
}

/// Splits a finite magnitude into a significand and an exponent step.
pub fn split(f: Format, mag: u64) -> (r: (u64, u32))
    requires
        mag < f.inf(),
    ensures
        r.0 == sig_of(f, mag as nat),
        r.1 == step_of(f, mag as nat),
        f.val(mag as nat) == r.0 * pow2(r.1 as nat),
        r.0 < 2 * f.hidden(),
        r.0 < 0x20_0000_0000_0000,
        r.1 + 2 <= f.top(),
        r.0 == 0 <==> mag == 0,
{
    proof {
        lemma_constants();
        lemma2_to64();
    }
    let h: u64 = f.hidden_bit();
    let e: u64 = mag / h;
    let fr: u64 = mag % h;
    proof {
        vstd::arithmetic::div_mod::lemma_fundamental_div_mod(mag as int, h as int);
        let top = f.top();
        assert(e < top) by (nonlinear_arith)
            requires
                h * e <= mag,
                mag < top * h,
        ;
    }
    if e == 0 {
        assert(fr * pow2(0) == fr);
        (fr, 0)
    } else {
        (fr + h, (e - 1) as u32)
    }
}

proof fn lemma_frame(m: nat, e: int, sticky: bool, n: nat, u: nat)
    requires
        e + u >= 0,
        m * pow2((e + u) as nat) <= n < (m + 1) * pow2((e + u) as nat),
        sticky == (n != m * pow2((e + u) as nat)),
    ensures
        represents(m, e, sticky, n, pow2(u)),
{
    let v = pow2((e + u) as nat);
    let d = pow2(u);
    let q = dn(e);
    let p = up(e);
    lemma_scale(e, u);
    lemma_pow2_pos(u);
    lemma_up_dn_pos(e);
    assert(m * p * d == m * v * q) by (nonlinear_arith)
        requires
            v * q == p * d,
    ;
    assert((m + 1) * p * d == (m + 1) * v * q) by (nonlinear_arith)
        requires
            v * q == p * d,
    ;
    assert(m * v * q <= n * q) by (nonlinear_arith)
        requires
            m * v <= n,
            q > 0,
    ;
    assert(n * q < (m + 1) * v * q) by (nonlinear_arith)
        requires
            n < (m + 1) * v,
            q > 0,
    ;
    if sticky {
        assert(m * v * q != n * q) by (nonlinear_arith)
            requires
                m * v < n,
                q > 0,
        ;
    } else {
        assert(m * v * q == n * q);
    }
}

/// Adds two signed binary numbers. Both are whole multiples of 2^-u.
#[verifier::rlimit(80)]
fn sum(neg1: bool, m1: u128, e1: i32, neg2: bool, m2: u128, e2: i32, u: u32) -> (r: Num)
    requires
        m1 < 0x400_0000_0000_0000_0000_0000_0000,
        m2 < 0x400_0000_0000_0000_0000_0000_0000,
        -5000 <= e1 <= 5000,
        -5000 <= e2 <= 5000,
        u <= 5000,
        e1 + u >= 0,
        e2 + u >= 0,
    ensures
        r.denotes(
            exact_of(
                signed(neg1, m1 as nat * pow2((e1 + u) as nat)) + signed(
                    neg2,
                    m2 as nat * pow2((e2 + u) as nat),
                ),
                pow2(u as nat),
                neg1 && neg2,
            ),
        ),
{
    if e1 < e2 {
        sum_ordered(neg2, m2, e2, neg1, m1, e1, u)
    } else {
        sum_ordered(neg1, m1, e1, neg2, m2, e2, u)
    }
}

/// A magnitude with a sign.
pub open spec fn signed(neg: bool, n: nat) -> int {
    if neg {
        -(n as int)
    } else {
        n as int
    }
}

#[verifier::rlimit(80)]
fn sum_ordered(neg1: bool, m1: u128, e1: i32, neg2: bool, m2: u128, e2: i32, u: u32) -> (r: Num)
    requires
        m1 < 0x400_0000_0000_0000_0000_0000_0000,
        m2 < 0x400_0000_0000_0000_0000_0000_0000,
        -5000 <= e2 <= e1 <= 5000,
        u <= 5000,
        e2 + u >= 0,
    ensures
        r.denotes(
            exact_of(
                signed(neg1, m1 as nat * pow2((e1 + u) as nat)) + signed(
                    neg2,
                    m2 as nat * pow2((e2 + u) as nat),
                ),
                pow2(u as nat),
                neg1 && neg2,
            ),
        ),
{
    let ghost n1 = m1 as nat * pow2((e1 + u) as nat);
    let ghost n2 = m2 as nat * pow2((e2 + u) as nat);
    let ghost w = pow2((e2 + u) as nat);
    proof {
        lemma_pow2_pos((e2 + u) as nat);
        lemma_pow2_pos((e1 + u) as nat);
        lemma_pow2_127();
        lemma_pow2_106();
    }
    let len: u32 = bit_len(m1);
    proof {
        if len > 106 {
            if len - 1 > 106 {
                lemma_pow2_strictly_increases(106, (len - 1) as nat);
            }
        }
    }
    let guard: u32 = 125 - len;
    let dist: u32 = (e1 - e2) as u32;
    if m1 == 0 || dist <= guard {
        // The frame of the smaller exponent holds both.
        let a: u128 = if m1 == 0 {
            0
        } else {
            proof {
                lemma_shift_bound(m1 as nat, len as nat, dist as nat);
            }
            m1 * two(dist)
        };
        proof {
            assert(n1 == a * w) by {
                if m1 == 0 {
                    assert(0 * pow2((e1 + u) as nat) == 0);
                    assert(0 * w == 0);
                } else {
                    lemma_pow2_adds(dist as nat, (e2 + u) as nat);
                    let z = pow2(dist as nat);
                    assert(m1 * (z * w) == (m1 * z) * w) by (nonlinear_arith);
                }
            }
        }
        if neg1 == neg2 {
            let m: u128 = a + m2;
            proof {
                assert(n1 + n2 == m * w) by (nonlinear_arith)
                    requires
                        n1 == a * w,
                        n2 == m2 * w,
                        m == a + m2,
                ;
                lemma_exact_frame(m as nat, e2 as int, (n1 + n2) as nat, u as nat);
                lemma_product_pos(m as nat, w);
            }
            if m == 0 {
                assert(n1 + n2 == 0) by (nonlinear_arith)
                    requires
                        n1 + n2 == m * w,
                        m == 0,
                ;
                Num::Zero(neg1)
            } else {
                Num::Val { neg: neg1, m, e: e2, sticky: false }
            }
        } else if a > m2 {
            let m: u128 = a - m2;
            proof {
                assert(n1 - n2 == m * w) by (nonlinear_arith)
                    requires
                        n1 == a * w,
                        n2 == m2 * w,
                        m == a - m2,
                ;
                lemma_product_pos(m as nat, w);
                lemma_exact_frame(m as nat, e2 as int, (n1 - n2) as nat, u as nat);
            }
            Num::Val { neg: neg1, m, e: e2, sticky: false }
        } else if a < m2 {
            let m: u128 = m2 - a;
            proof {
                assert(n2 - n1 == m * w) by (nonlinear_arith)
                    requires
                        n1 == a * w,
                        n2 == m2 * w,
                        m == m2 - a,
                ;
                lemma_product_pos(m as nat, w);
                lemma_exact_frame(m as nat, e2 as int, (n2 - n1) as nat, u as nat);
            }
            Num::Val { neg: neg2, m, e: e2, sticky: false }
        } else {
            Num::Zero(false)
        }
    } else {
        // The smaller operand reaches below the frame.
        proof {
            lemma_shift_bound(m1 as nat, len as nat, guard as nat);
        }
        let hi: u128 = m1 * two(guard);
        let t: u32 = dist - guard;
        let e: i32 = e1 - guard as i32;
        let (q, lost): (u128, u128) = if t >= 127 {
            (0, m2)
        } else {
            let s: u128 = two(t);
            (m2 / s, m2 % s)
        };
        let ghost v = pow2((e + u) as nat);
        let ghost z = pow2(t as nat);
        proof {
            lemma_split_low(m2 as nat, t as nat, q as nat, lost as nat);
            lemma_pow2_adds(t as nat, (e2 + u) as nat);
            assert(v == z * w);
            lemma_pow2_adds(guard as nat, (e + u) as nat);
            let g = pow2(guard as nat);
            assert(n1 == hi * v) by (nonlinear_arith)
                requires
                    n1 == m1 * (g * v),
                    hi == m1 * g,
            ;
            assert(n2 == q * v + lost * w) by (nonlinear_arith)
                requires
                    n2 == m2 * w,
                    m2 == q * z + lost,
                    v == z * w,
            ;
            assert(lost * w < v) by (nonlinear_arith)
                requires
                    lost < z,
                    v == z * w,
                    w > 0,
            ;
            assert(lost * w >= 0) by (nonlinear_arith)
                requires
                    lost >= 0,
                    w > 0,
            ;
            assert((lost * w == 0) == (lost == 0)) by (nonlinear_arith)
                requires
                    lost >= 0,
                    w > 0,
            ;
        }
        let sticky: bool = lost != 0;
        if neg1 == neg2 {
            let m: u128 = hi + q;
            proof {
                assert(n1 + n2 == m * v + lost * w) by (nonlinear_arith)
                    requires
                        n1 == hi * v,
                        n2 == q * v + lost * w,
                        m == hi + q,
                ;
                lemma_pow2_pos((e + u) as nat);
                lemma_product_pos(m as nat, v);
                lemma_in_frame(m as nat, e as int, sticky, (n1 + n2) as nat, u as nat, (lost * w) as nat);
            }
            Num::Val { neg: neg1, m, e, sticky }
        } else if sticky {
            let m: u128 = hi - q - 1;
            proof {
                assert(n1 - n2 == m * v + (v - lost * w)) by (nonlinear_arith)
                    requires
                        n1 == hi * v,
                        n2 == q * v + lost * w,
                        m == hi - q - 1,
                ;
                lemma_pow2_pos((e + u) as nat);
                lemma_product_pos(m as nat, v);
                lemma_in_frame(m as nat, e as int, sticky, (n1 - n2) as nat, u as nat, (v - lost * w) as nat);
            }
            Num::Val { neg: neg1, m, e, sticky: true }
        } else {
            let m: u128 = hi - q;
            proof {
                assert(n1 - n2 == m * v + 0) by (nonlinear_arith)
                    requires
                        n1 == hi * v,
                        n2 == q * v + lost * w,
                        lost * w == 0,
                        m == hi - q,
                ;
                assert(m * v >= 0) by (nonlinear_arith)
                    requires
                        m >= 0,
                        v >= 0,
                ;
                lemma_pow2_pos((e + u) as nat);
                lemma_product_pos(m as nat, v);
                lemma_in_frame(m as nat, e as int, false, (n1 - n2) as nat, u as nat, 0);
            }
            Num::Val { neg: neg1, m, e, sticky: false }
        }
    }
}

proof fn lemma_product_pos(a: nat, b: nat)
    requires
        b > 0,
    ensures
        a > 0 ==> a * b > 0,
        a == 0 ==> a * b == 0,
{
    assert(a > 0 ==> a * b > 0) by (nonlinear_arith)
        requires
            b > 0,
    ;
}

proof fn lemma_pow2_106()
    ensures
        pow2(105) == 0x200_0000_0000_0000_0000_0000_0000,
        pow2(106) == 0x400_0000_0000_0000_0000_0000_0000,
        pow2(124) == 0x1000_0000_0000_0000_0000_0000_0000_0000,
        pow2(125) == 0x2000_0000_0000_0000_0000_0000_0000_0000,
{
    lemma2_to64();
    lemma2_to64_rest();
    lemma_pow2_adds(63, 42);
    lemma_pow2_adds(63, 43);
    lemma_pow2_adds(62, 62);
    lemma_pow2_adds(63, 62);
}

/// Shifting a number of `len` bits to at most 125 bits.
proof fn lemma_shift_bound(m: nat, len: nat, dist: nat)
    requires
        len >= 1,
        pow2((len - 1) as nat) <= m < pow2(len),
        len + dist <= 125,
    ensures
        m * pow2(dist) < 0x2000_0000_0000_0000_0000_0000_0000_0000,
        len + dist == 125 ==> m * pow2(dist) >= 0x1000_0000_0000_0000_0000_0000_0000_0000,
{
    lemma_pow2_106();
    lemma_pow2_adds(len, dist);
    lemma_pow2_adds((len - 1) as nat, dist);
    lemma_pow2_pos(dist);
    let z = pow2(dist);
    if len + dist < 125 {
        lemma_pow2_strictly_increases(len + dist, 125);
    }
    assert(m * z < pow2(len) * z) by (nonlinear_arith)
        requires
            m < pow2(len),
            z > 0,
    ;
    assert(m * z >= pow2((len - 1) as nat) * z) by (nonlinear_arith)
        requires
            m >= pow2((len - 1) as nat),
    ;
}

proof fn lemma_exact_frame(m: nat, e: int, n: nat, u: nat)
    requires
        e + u >= 0,
        n == m * pow2((e + u) as nat),
    ensures
        represents(m, e, false, n, pow2(u)),
{
    lemma_pow2_pos((e + u) as nat);
    let v = pow2((e + u) as nat);
    assert((m + 1) * v == m * v + v) by (nonlinear_arith);
    lemma_frame(m, e, false, n, u);
}

proof fn lemma_in_frame(m: nat, e: int, sticky: bool, n: nat, u: nat, rest: nat)
    requires
        e + u >= 0,
        n == m * pow2((e + u) as nat) + rest,
        rest < pow2((e + u) as nat),
        sticky == (rest != 0),
    ensures
        represents(m, e, sticky, n, pow2(u)),
{
    let v = pow2((e + u) as nat);
    assert((m + 1) * v == m * v + v) by (nonlinear_arith);
    lemma_frame(m, e, sticky, n, u);
}

proof fn lemma_split_low(m: nat, t: nat, q: nat, lost: nat)
    requires
        m < pow2(106),
        t >= 127 ==> q == 0 && lost == m,
        t < 127 ==> q == m / pow2(t) && lost == m % pow2(t),
        t >= 1,
    ensures
        m == q * pow2(t) + lost,
        lost < pow2(t),
        q <= m,
{
    lemma_pow2_pos(t);
    let z = pow2(t);
    if t >= 127 {
        lemma_pow2_strictly_increases(106, t);
        assert(0 * z == 0);
    } else {
        vstd::arithmetic::div_mod::lemma_fundamental_div_mod(m as int, z as int);
        vstd::arithmetic::div_mod::lemma_mod_pos_bound(m as int, z as int);
        assert(q * z == z * q) by (nonlinear_arith);
        assert(q <= m) by (nonlinear_arith)
            requires
                m >= z * q,
                z >= 1,
        ;
    }
}

/// The exact sum of two bit patterns.
pub fn num_add(f: Format, x: u64, y: u64) -> (r: Num)
    requires
        f.fits(x),
        f.fits(y),
    ensures
        r.denotes(exact_add(f, x, y)),
{
    let inf: u64 = f.infinity();
    let a: u64 = mag_of(f, x);
    let b: u64 = mag_of(f, y);
    let na: bool = neg_of(f, x);
    let nb: bool = neg_of(f, y);
    if a > inf || b > inf {
        return Num::Nan;
    }
    if a == inf {
        if b == inf && na != nb {
            return Num::Nan;
        }
        return Num::Inf(na);
    }
    if b == inf {
        return Num::Inf(nb);
    }
    let (ma, ka): (u64, u32) = split(f, a);
    let (mb, kb): (u64, u32) = split(f, b);
    proof {
        lemma2_to64();
    }
    sum(na, ma as u128, ka as i32, nb, mb as u128, kb as i32, 0)
}

proof fn lemma_product(ma: nat, ka: nat, mb: nat, kb: nat)
    ensures
        (ma * pow2(ka)) * (mb * pow2(kb)) == (ma * mb) * pow2(ka + kb),
{
    lemma_pow2_adds(ka, kb);
    let a = pow2(ka);
    let b = pow2(kb);
    assert((ma * a) * (mb * b) == (ma * mb) * (a * b)) by (nonlinear_arith);
}

/// The exact product of two bit patterns.
pub fn num_mul(f: Format, x: u64, y: u64) -> (r: Num)
    requires
        f.fits(x),
        f.fits(y),
    ensures
        r.denotes(exact_mul(f, x, y)),
{
    let inf: u64 = f.infinity();
    let a: u64 = mag_of(f, x);
    let b: u64 = mag_of(f, y);
    let neg: bool = neg_of(f, x) != neg_of(f, y);
    if a > inf || b > inf {
        return Num::Nan;
    }
    if a == inf || b == inf {
        if a == 0 || b == 0 {
            return Num::Nan;
        }
        return Num::Inf(neg);
    }
    if a == 0 || b == 0 {
        return Num::Zero(neg);
    }
    let (ma, ka): (u64, u32) = split(f, a);
    let (mb, kb): (u64, u32) = split(f, b);
    let u: u32 = f.unit_exp();
    let e: i32 = ka as i32 + kb as i32 - u as i32;
    proof {
        lemma_mul_106(ma as nat, mb as nat);
        lemma_product(ma as nat, ka as nat, mb as nat, kb as nat);
        lemma_exact_frame(
            (ma * mb) as nat,
            e as int,
            f.val(a as nat) * f.val(b as nat),
            u as nat,
        );
        lemma_product_pos(ma as nat, mb as nat);
        lemma_pow2_pos((ka + kb) as nat);
        lemma_product_pos((ma * mb) as nat, pow2((ka + kb) as nat));
    }
    Num::Val { neg, m: (ma as u128) * (mb as u128), e, sticky: false }
}

proof fn lemma_mul_106(a: nat, b: nat)
    requires
        a < 0x20_0000_0000_0000,
        b < 0x20_0000_0000_0000,
    ensures
        a * b < 0x400_0000_0000_0000_0000_0000_0000,
{
    assert(a * b < 0x20_0000_0000_0000 * 0x20_0000_0000_0000) by (nonlinear_arith)
        requires
            a < 0x20_0000_0000_0000,
            b < 0x20_0000_0000_0000,
    ;
}

/// The exact quotient of two bit patterns.
#[verifier::rlimit(40)]
pub fn num_div(f: Format, x: u64, y: u64) -> (r: Num)
    requires
        f.fits(x),
        f.fits(y),
    ensures
        r.denotes(exact_div(f, x, y)),
{
    let inf: u64 = f.infinity();
    let a: u64 = mag_of(f, x);
    let b: u64 = mag_of(f, y);
    let neg: bool = neg_of(f, x) != neg_of(f, y);
    if a > inf || b > inf || (a == inf && b == inf) || (a == 0 && b == 0) {
        return Num::Nan;
    }
    if a == inf || b == 0 {
        return Num::Inf(neg);
    }
    if b == inf || a == 0 {
        return Num::Zero(neg);
    }
    let (ma, ka): (u64, u32) = split(f, a);
    let (mb, kb): (u64, u32) = split(f, b);
    let u: u32 = f.unit_exp();
    let len: u32 = bit_len(ma as u128);
    proof {
        lemma2_to64();
        lemma2_to64_rest();
        if len > 53 {
            if len - 1 > 53 {
                lemma_pow2_strictly_increases(53, (len - 1) as nat);
            }
        }
    }
    // Shifts the dividend to exactly 127 bits.
    let w: u32 = 127 - len;
    proof {
        lemma_dividend(ma as nat, len as nat);
    }
    let top: u128 = (ma as u128) * two(w);
    let q: u128 = top / (mb as u128);
    let rem: u128 = top % (mb as u128);
    let e: i32 = ka as i32 + u as i32 - kb as i32 - w as i32;
    proof {
        vstd::arithmetic::div_mod::lemma_fundamental_div_mod(top as int, mb as int);
        vstd::arithmetic::div_mod::lemma_mod_pos_bound(top as int, mb as int);
        lemma_quotient(
            ma as nat,
            ka as nat,
            mb as nat,
            kb as nat,
            u as nat,
            w as nat,
            q as nat,
            rem as nat,
            e as int,
        );
        assert(q >= 0x40_0000_0000_0000) by (nonlinear_arith)
            requires
                mb * q + rem == top,
                rem < mb,
                mb < 0x20_0000_0000_0000,
                top >= 0x4000_0000_0000_0000_0000_0000_0000_0000,
        ;
        assert(q <= top) by (nonlinear_arith)
            requires
                mb * q + rem == top,
                mb >= 1,
                rem >= 0,
                q >= 0,
        ;
        lemma_pow2_pos(u as nat);
        lemma_pow2_pos(ka as nat);
        lemma_product_pos(ma as nat, pow2(ka as nat));
        lemma_product_pos(f.val(a as nat), pow2(u as nat));
    }
    Num::Val { neg, m: q, e, sticky: rem != 0 }
}

proof fn lemma_dividend(m: nat, len: nat)
    requires
        1 <= len <= 53,
        pow2((len - 1) as nat) <= m < pow2(len),
    ensures
        m * pow2((127 - len) as nat) < 0x8000_0000_0000_0000_0000_0000_0000_0000,
        m * pow2((127 - len) as nat) >= 0x4000_0000_0000_0000_0000_0000_0000_0000,
{
    let z = pow2((127 - len) as nat);
    lemma_pow2_127();
    lemma_pow2_pos((127 - len) as nat);
    lemma_pow2_adds(len, (127 - len) as nat);
    lemma_pow2_adds((len - 1) as nat, (127 - len) as nat);
    assert(m * z < pow2(len) * z) by (nonlinear_arith)
        requires
            m < pow2(len),
            z > 0,
    ;
    assert(m * z >= pow2((len - 1) as nat) * z) by (nonlinear_arith)
        requires
            m >= pow2((len - 1) as nat),
    ;
}

proof fn lemma_quotient(
    ma: nat,
    ka: nat,
    mb: nat,
    kb: nat,
    u: nat,
    w: nat,
    q: nat,
    rem: nat,
    e: int,
)
    requires
        mb > 0,
        ma * pow2(w) == mb * q + rem,
        rem < mb,
        e == ka + u - kb - w,
    ensures
        represents(q, e, rem != 0, (ma * pow2(ka)) * pow2(u), mb * pow2(kb)),
{
    let n = (ma * pow2(ka)) * pow2(u);
    let d = mb * pow2(kb);
    let p = up(e);
    let g = dn(e);
    lemma_up_dn_pos(e);
    lemma_pow2_pos(kb);
    lemma_product_pos(mb, pow2(kb));
    lemma_pow2_adds(ka, u);
    lemma_pow2_adds(kb, w);
    lemma_scale(e, kb + w);
    let b = pow2(kb) * p;
    lemma_product_pos(pow2(kb), p);
    assert(n * g == (mb * q + rem) * b) by {
        let c = pow2(ka);
        let v = pow2(u);
        let z = pow2(w);
        let y = pow2(kb);
        assert(n * g == ma * (c * v * g)) by (nonlinear_arith)
            requires
                n == (ma * c) * v,
        ;
        assert(c * v * g == p * (y * z));
        assert(ma * (p * (y * z)) == (ma * z) * (y * p)) by (nonlinear_arith);
    }
    assert(q * p * d == (mb * q) * b) by (nonlinear_arith)
        requires
            d == mb * pow2(kb),
            b == pow2(kb) * p,
    ;
    assert((q + 1) * p * d == (mb * q) * b + mb * b) by (nonlinear_arith)
        requires
            d == mb * pow2(kb),
            b == pow2(kb) * p,
    ;
    assert((mb * q + rem) * b == (mb * q) * b + rem * b) by (nonlinear_arith);
    assert(rem * b < mb * b) by (nonlinear_arith)
        requires
            rem < mb,
            b > 0,
    ;
    lemma_product_pos(rem, b);
}

/// The exact value of `x * y + z`.
pub fn num_fma(f: Format, x: u64, y: u64, z: u64) -> (r: Num)
    requires
        f.fits(x),
        f.fits(y),
        f.fits(z),
    ensures
        r.denotes(exact_fma(f, x, y, z)),
{
    let inf: u64 = f.infinity();
    let a: u64 = mag_of(f, x);
    let b: u64 = mag_of(f, y);
    let c: u64 = mag_of(f, z);
    let neg: bool = neg_of(f, x) != neg_of(f, y);
    let nc: bool = neg_of(f, z);
    if a > inf || b > inf || c > inf {
        return Num::Nan;
    }
    if a == inf || b == inf {
        if a == 0 || b == 0 || (c == inf && nc != neg) {
            return Num::Nan;
        }
        return Num::Inf(neg);
    }
    if c == inf {
        return Num::Inf(nc);
    }
    let (ma, ka): (u64, u32) = split(f, a);
    let (mb, kb): (u64, u32) = split(f, b);
    let (mc, kc): (u64, u32) = split(f, c);
    let u: u32 = f.unit_exp();
    let e: i32 = ka as i32 + kb as i32 - u as i32;
    proof {
        lemma_mul_106(ma as nat, mb as nat);
        lemma_product(ma as nat, ka as nat, mb as nat, kb as nat);
        lemma_pow2_adds(kc as nat, u as nat);
        let g = pow2(kc as nat);
        let v = pow2(u as nat);
        assert((mc * g) * v == mc * (g * v)) by (nonlinear_arith);
        let va = f.val(a as nat) as int;
        let vb = f.val(b as nat) as int;
        let vc = f.val(c as nat) as int;
        assert((-va) * vb == -(va * vb)) by (nonlinear_arith);
        assert(va * (-vb) == -(va * vb)) by (nonlinear_arith);
        assert((-va) * (-vb) == va * vb) by (nonlinear_arith);
        assert((-vc) * v == -(vc * v)) by (nonlinear_arith);
    }
    sum(neg, (ma as u128) * (mb as u128), e, nc, mc as u128, kc as i32, u)
}

/// A bit pattern of one format as an exact number for another.
pub fn num_convert(from: Format, to: Format, x: u64) -> (r: Num)
    requires
        from.fits(x),
    ensures
        r.denotes(exact_convert(from, to, x)),
{
    let inf: u64 = from.infinity();
    let a: u64 = mag_of(from, x);
    let neg: bool = neg_of(from, x);
    if a > inf {
        return Num::Nan;
    }
    if a == inf {
        return Num::Inf(neg);
    }
    if a == 0 {
        return Num::Zero(neg);
    }
    let (m, k): (u64, u32) = split(from, a);
    let e: i32 = k as i32 + to.unit_exp() as i32 - from.unit_exp() as i32;
    proof {
        lemma_pow2_adds(k as nat, to.unit());
        let g = pow2(k as nat);
        let v = pow2(to.unit());
        assert((m * g) * v == m * (g * v)) by (nonlinear_arith);
        lemma_exact_frame(m as nat, e as int, from.val(a as nat) * v, from.unit());
    }
    Num::Val { neg, m: m as u128, e, sticky: false }
}

/// `v / 2^fbits` as an exact number for a format.
pub fn num_fixed(f: Format, v: i64, fbits: u32) -> (r: Num)
    requires
        fbits <= 64,
    ensures
        r.denotes(exact_fixed(f, v as int, fbits as nat)),
{
    let u: u32 = f.unit_exp();
    let m: u128 = if v < 0 {
        (0 - (v as i128)) as u128
    } else {
        v as u128
    };
    let e: i32 = u as i32 - fbits as i32;
    proof {
        let z = pow2(u as nat);
        lemma_pow2_pos(u as nat);
        lemma_exact_frame(m as nat, e as int, m as nat * z, fbits as nat);
        lemma_product_pos(m as nat, z);
        assert(v < 0 ==> v * z == -(m * z)) by (nonlinear_arith)
            requires
                v < 0 ==> m == -v,
        ;
        assert(v >= 0 ==> v * z == m * z) by (nonlinear_arith)
            requires
                v >= 0 ==> m == v,
        ;
    }
    if v == 0 {
        Num::Zero(false)
    } else {
        Num::Val { neg: v < 0, m, e, sticky: false }
    }
}

/// Orders two numbers; infinities lie beyond every finite number.
pub fn order(f: Format, x: u64, y: u64) -> (r: Rel)
    requires
        f.fits(x),
        f.fits(y),
    ensures
        r == (if f.sval(x) < f.sval(y) {
            Rel::Below
        } else if f.sval(x) == f.sval(y) {
            Rel::Equal
        } else {
            Rel::Above
        }),
{
    let a: u64 = mag_of(f, x);
    let b: u64 = mag_of(f, y);
    let na: bool = neg_of(f, x);
    let nb: bool = neg_of(f, y);
    proof {
        lemma_constants();
        if a < b {
            law_magnitude_order(f, a as nat, b as nat);
        } else if b < a {
            law_magnitude_order(f, b as nat, a as nat);
        }
        if a > 0 {
            law_magnitude_order(f, 0, a as nat);
        }
        if b > 0 {
            law_magnitude_order(f, 0, b as nat);
        }
        assert(f.val(0) == 0);
    }
    if a == 0 && b == 0 {
        Rel::Equal
    } else if na != nb {
        if na {
            Rel::Below
        } else {
            Rel::Above
        }
    } else if a == b {
        Rel::Equal
    } else if (a < b) != na {
        Rel::Below
    } else {
        Rel::Above
    }
}

/// What a division leaves behind.
#[derive(Debug, Clone, Copy, PartialEq, Eq, Structural)]
pub enum Frac {
    Zero,
    Low,
    Half,
    High,
}

/// The fraction part of `n / d`.
pub open spec fn frac_of(n: nat, d: nat) -> Frac {
    if n % d == 0 {
        Frac::Zero
    } else if 2 * (n % d) < d {
        Frac::Low
    } else if 2 * (n % d) == d {
        Frac::Half
    } else {
        Frac::High
    }
}

/// The limit up to which integer parts are told apart.
pub const INT_LIMIT: u64 = 0x8000_0000_0000_0000;

/// Integer part and fraction of a finite magnitude times 2^fbits.
#[verifier::rlimit(40)]
pub fn int_part(f: Format, mag: u64, fbits: u32) -> (r: (u64, Frac))
    requires
        mag < f.inf(),
        fbits <= 64,
    ensures
        ({
            let n = f.val(mag as nat) * pow2(fbits as nat);
            let d = pow2(f.unit());
            if n / d < INT_LIMIT {
                r.0 == n / d && r.1 == frac_of(n, d)
            } else {
                r.0 == INT_LIMIT
            }
        }),
        r.0 <= INT_LIMIT,
{
    let (m, k): (u64, u32) = split(f, mag);
    let u: u32 = f.unit_exp();
    let ghost n = f.val(mag as nat) * pow2(fbits as nat);
    let ghost d = pow2(u as nat);
    proof {
        lemma_pow2_pos(u as nat);
        lemma_pow2_adds(k as nat, fbits as nat);
        let g = pow2(k as nat);
        let v = pow2(fbits as nat);
        assert((m * g) * v == m * (g * v)) by (nonlinear_arith);
        assert(n == m * pow2((k + fbits) as nat));
        lemma2_to64();
        lemma2_to64_rest();
    }
    if k + fbits >= u {
        let e: u32 = k + fbits - u;
        let len: u32 = bit_len(m as u128);
        let ghost z = pow2(e as nat);
        proof {
            lemma_pow2_adds(e as nat, u as nat);
            lemma_pow2_pos(e as nat);
            assert(n == (m * z) * d) by (nonlinear_arith)
                requires
                    n == m * (z * d),
            ;
            assert(d * (m * z) == (m * z) * d) by (nonlinear_arith);
            vstd::arithmetic::div_mod::lemma_fundamental_div_mod_converse(
                n as int,
                d as int,
                (m * z) as int,
                0,
            );
        }
        if m == 0 {
            assert(m * z == 0) by (nonlinear_arith)
                requires
                    m == 0,
            ;
            (0, Frac::Zero)
        } else if len + e <= 63 {
            proof {
                lemma_pow2_adds(len as nat, e as nat);
                if len + e < 63 {
                    lemma_pow2_strictly_increases((len + e) as nat, 63);
                }
                assert(m * z < pow2(len as nat) * z) by (nonlinear_arith)
                    requires
                        m < pow2(len as nat),
                        z > 0,
                ;
            }
            (((m as u128) * two(e)) as u64, Frac::Zero)
        } else {
            proof {
                lemma_pow2_adds((len - 1) as nat, e as nat);
                if len + e - 1 > 63 {
                    lemma_pow2_strictly_increases(63, (len + e - 1) as nat);
                }
                assert(m * z >= pow2((len - 1) as nat) * z) by (nonlinear_arith)
                    requires
                        m >= pow2((len - 1) as nat),
                ;
            }
            (INT_LIMIT, Frac::Zero)
        }
    } else {
        let s: u32 = u - k - fbits;
        let ghost w = pow2((k + fbits) as nat);
        let ghost z = pow2(s as nat);
        proof {
            lemma_pow2_adds(s as nat, (k + fbits) as nat);
            lemma_pow2_pos((k + fbits) as nat);
            lemma_pow2_pos(s as nat);
            lemma_pow2_unfold(s as nat);
        }
        if s >= 64 {
            proof {
                if s > 64 {
                    lemma_pow2_strictly_increases(64, s as nat);
                }
                lemma_fraction(m as nat, s as nat, w, 0, m as nat);
            }
            (
                0,
                if m == 0 {
                    Frac::Zero
                } else {
                    Frac::Low
                },
            )
        } else {
            let sw: u128 = two(s);
            let hw: u128 = two(s - 1);
            let q: u128 = (m as u128) / sw;
            let rem: u128 = (m as u128) % sw;
            proof {
                vstd::arithmetic::div_mod::lemma_fundamental_div_mod(m as int, sw as int);
                lemma_fraction(m as nat, s as nat, w, q as nat, rem as nat);
                assert(q <= m) by (nonlinear_arith)
                    requires
                        m == sw * q + rem,
                        sw >= 1,
                        rem >= 0,
                        q >= 0,
                ;
            }
            (
                q as u64,
                if rem == 0 {
                    Frac::Zero
                } else if rem < hw {
                    Frac::Low
                } else if rem == hw {
                    Frac::Half
                } else {
                    Frac::High
                },
            )
        }
    }
}

/// Quotient and fraction survive a common factor.
proof fn lemma_fraction(m: nat, s: nat, w: nat, q: nat, rem: nat)
    requires
        s >= 1,
        w > 0,
        m == pow2(s) * q + rem,
        rem < pow2(s),
    ensures
        (m * w) / (pow2(s) * w) == q,
        frac_of(m * w, pow2(s) * w) == (if rem == 0 {
            Frac::Zero
        } else if rem < pow2((s - 1) as nat) {
            Frac::Low
        } else if rem == pow2((s - 1) as nat) {
            Frac::Half
        } else {
            Frac::High
        }),
{
    let z = pow2(s);
    let h = pow2((s - 1) as nat);
    lemma_pow2_unfold(s);
    lemma_pow2_pos(s);
    let n = m * w;
    let d = z * w;
    lemma_product_pos(z, w);
    lemma_product_pos(rem, w);
    assert(n == d * q + rem * w) by (nonlinear_arith)
        requires
            n == m * w,
            d == z * w,
            m == z * q + rem,
    ;
    assert(rem * w < d) by (nonlinear_arith)
        requires
            rem < z,
            d == z * w,
            w > 0,
    ;
    vstd::arithmetic::div_mod::lemma_fundamental_div_mod_converse(
        n as int,
        d as int,
        q as int,
        (rem * w) as int,
    );
    assert(2 * (rem * w) < d <==> rem < h) by (nonlinear_arith)
        requires
            d == z * w,
            z == 2 * h,
            w > 0,
    ;
    assert(2 * (rem * w) == d <==> rem == h) by (nonlinear_arith)
        requires
            d == z * w,
            z == 2 * h,
            w > 0,
    ;
}

/// `r` is the largest magnitude whose square is at most `n`.
pub open spec fn is_root(f: Format, r: nat, n: nat) -> bool {
    f.val(r) * f.val(r) <= n < f.val(r + 1) * f.val(r + 1)
}

pub open spec fn root_floor(f: Format, n: nat) -> nat {
    choose|r: nat| is_root(f, r, n)
}

/// The square root of a finite positive number, in squared units.
pub open spec fn radicand(f: Format, mag: nat) -> nat {
    f.val(mag) * pow2(f.unit())
}

/// The square root is a number of the format.
pub open spec fn root_exact(f: Format, mag: nat) -> bool {
    let r = root_floor(f, radicand(f, mag));
    f.val(r) * f.val(r) == radicand(f, mag)
}

/// The magnitude closest to the square root.
pub open spec fn root_nearest(f: Format, mag: nat) -> nat {
    let n = radicand(f, mag);
    let r = root_floor(f, n);
    let twice = f.val(r) + f.val(r + 1);
    if 4 * n > twice * twice {
        r + 1
    } else {
        r
    }
}

pub(crate) proof fn lemma_root_unique(f: Format, r: nat, n: nat)
    requires
        is_root(f, r, n),
    ensures
        root_floor(f, n) == r,
{
    let q = root_floor(f, n);
    assert(is_root(f, q, n));
    if q < r {
        if q + 1 < r {
            law_magnitude_order(f, q + 1, r);
        }
        let a = f.val(q + 1);
        let b = f.val(r);
        assert(a * a <= b * b) by (nonlinear_arith)
            requires
                a <= b,
        ;
    } else if r < q {
        if r + 1 < q {
            law_magnitude_order(f, r + 1, q);
        }
        let a = f.val(r + 1);
        let b = f.val(q);
        assert(a * a <= b * b) by (nonlinear_arith)
            requires
                a <= b,
        ;
    }
}

/// The integer square root of a number below 2^(2 * bits).
fn int_root(n: u128, bits: u32) -> (r: u128)
    requires
        bits <= 60,
        n < pow2((2 * bits) as nat),
    ensures
        r * r <= n < (r + 1) * (r + 1),
        r < pow2(bits as nat),
{
    let mut r: u128 = 0;
    let mut i: u32 = bits;
    proof {
        lemma_pow2_adds(bits as nat, bits as nat);
        lemma2_to64();
    }
    while i > 0
        invariant
            i <= bits <= 60,
            r * r <= n,
            n < (r + pow2(i as nat)) * (r + pow2(i as nat)),
            r + pow2(i as nat) <= pow2(bits as nat),
        decreases i,
    {
        proof {
            lemma_pow2_unfold(i as nat);
            lemma2_to64_rest();
            lemma2_to64();
            if bits < 60 {
                lemma_pow2_strictly_increases(bits as nat, 60);
            }
        }
        let half: u128 = two(i - 1);
        let t: u128 = r + half;
        assert(t * t <= 0x1000_0000_0000_0000 * 0x1000_0000_0000_0000) by (nonlinear_arith)
            requires
                t <= 0x1000_0000_0000_0000,
        ;
        if t * t <= n {
            r = t;
        }
        i = i - 1;
    }
    r
}

/// The square root of a finite positive magnitude, and whether it is exact.
#[verifier::rlimit(60)]
pub fn root(f: Format, mag: u64) -> (r: (u64, bool))
    requires
        0 < mag < f.inf(),
    ensures
        r.0 == root_nearest(f, mag as nat),
        r.1 == root_exact(f, mag as nat),
        f.hidden() <= r.0 < f.inf(),
{
    let (m, k): (u64, u32) = split(f, mag);
    let u: u32 = f.unit_exp();
    let fr: u32 = f.frac_bits();
    let h: u64 = f.hidden_bit();
    let len: u32 = bit_len(m as u128);
    proof {
        lemma2_to64();
        lemma2_to64_rest();
        if len > 53 {
            if len - 1 > 53 {
                lemma_pow2_strictly_increases(53, (len - 1) as nat);
            }
        }
        lemma_pow2_unfold((fr + 1) as nat);
        if len > fr + 1 {
            if len - 1 > fr + 1 {
                lemma_pow2_strictly_increases((fr + 1) as nat, (len - 1) as nat);
            }
        }
    }
    // The radicand is m * 2^(k + u); an even power of two is split off.
    let total: u32 = len + k + u;
    let j: u32 = (total - (2 * fr + 1)) / 2;
    let w: u32 = k + u - 2 * j;
    proof {
        lemma_radicand_bounds(m as nat, len as nat, w as nat, fr as nat);
    }
    let n: u128 = (m as u128) * two(w);
    let t: u128 = int_root(n, fr + 1);
    let over: u128 = n - t * t;
    proof {
        lemma_root_case(f, mag as nat, m as nat, k as nat, w as nat, j as nat, n as nat, t as nat);
        assert(j as nat * h <= 2044 * h) by (nonlinear_arith)
            requires
                j <= 2044,
        ;
        lemma_root_range(f, j as nat, t as nat);
    }
    let base: u64 = (j as u64) * h + t as u64;
    (
        if over > t {
            base + 1
        } else {
            base
        },
        over == 0,
    )
}

proof fn lemma_root_range(f: Format, j: nat, t: nat)
    requires
        j + 3 <= f.top(),
        f.hidden() <= t < 2 * f.hidden(),
    ensures
        f.hidden() <= j * f.hidden() + t,
        j * f.hidden() + t + 1 < f.inf(),
{
    lemma_constants();
    let h = f.hidden();
    assert(j * h + 3 * h <= f.top() * h) by (nonlinear_arith)
        requires
            j + 3 <= f.top(),
    ;
    assert(j * h >= 0) by (nonlinear_arith);
}

proof fn lemma_radicand_bounds(m: nat, len: nat, w: nat, fr: nat)
    requires
        len >= 1,
        pow2((len - 1) as nat) <= m < pow2(len),
        len + w == 2 * fr + 1 || len + w == 2 * fr + 2,
        fr <= 52,
    ensures
        m * pow2(w) < pow2((2 * (fr + 1)) as nat),
        m * pow2(w) >= pow2((2 * fr) as nat),
        m * pow2(w) < 0x400_0000_0000_0000_0000_0000_0000,
        w <= 127,
{
    lemma_pow2_106();
    let z = pow2(w);
    lemma_pow2_pos(w);
    lemma_pow2_adds(len, w);
    lemma_pow2_adds((len - 1) as nat, w);
    assert(m * z < pow2(len) * z) by (nonlinear_arith)
        requires
            m < pow2(len),
            z > 0,
    ;
    assert(m * z >= pow2((len - 1) as nat) * z) by (nonlinear_arith)
        requires
            m >= pow2((len - 1) as nat),
    ;
    if len + w < 2 * fr + 2 {
        lemma_pow2_strictly_increases(len + w, 2 * fr + 2);
    }
    if len + w - 1 > 2 * fr {
        lemma_pow2_strictly_increases(2 * fr, (len + w - 1) as nat);
    }
    if 2 * fr + 2 < 106 {
        lemma_pow2_strictly_increases(2 * fr + 2, 106);
    }
}

proof fn lemma_root_case(
    f: Format,
    mag: nat,
    m: nat,
    k: nat,
    w: nat,
    j: nat,
    n: nat,
    t: nat,
)
    requires
        f.val(mag) == m * pow2(k),
        w + 2 * j == k + f.unit(),
        n == m * pow2(w),
        t * t <= n < (t + 1) * (t + 1),
        pow2((2 * f.frac()) as nat) <= n,
        t < pow2(f.frac() + 1),
    ensures
        f.hidden() <= t < 2 * f.hidden(),
        root_exact(f, mag) == (n == t * t),
        root_nearest(f, mag) == (if n - t * t > t {
            j * f.hidden() + t + 1
        } else {
            j * f.hidden() + t
        }),
{
    let h = f.hidden();
    let g = pow2(j);
    let r = j * h + t;
    lemma_pow2_unfold(f.frac() + 1);
    lemma_pow2_adds(f.frac(), f.frac());
    lemma_pow2_pos(j);
    assert(t >= h) by (nonlinear_arith)
        requires
            h * h <= n,
            n < (t + 1) * (t + 1),
    ;
    lemma_val_pack(f, j, t);
    lemma_val_pack(f, j, t + 1);
    // The radicand is n * g * g.
    let big = radicand(f, mag);
    assert(big == n * (g * g)) by {
        lemma_pow2_adds(k, f.unit());
        lemma_pow2_adds(j, j);
        lemma_pow2_adds(w, 2 * j);
        let a = pow2(k);
        let b = pow2(f.unit());
        let c = pow2(w);
        assert((m * a) * b == m * (a * b)) by (nonlinear_arith);
        assert(m * (c * (g * g)) == (m * c) * (g * g)) by (nonlinear_arith);
    }
    let s = g * g;
    lemma_product_pos(g, g);
    assert((t * g) * (t * g) == (t * t) * s) by (nonlinear_arith)
        requires
            s == g * g,
    ;
    assert(((t + 1) * g) * ((t + 1) * g) == ((t + 1) * (t + 1)) * s) by (nonlinear_arith)
        requires
            s == g * g,
    ;
    assert((t * t) * s <= n * s) by (nonlinear_arith)
        requires
            t * t <= n,
    ;
    assert(n * s < ((t + 1) * (t + 1)) * s) by (nonlinear_arith)
        requires
            n < (t + 1) * (t + 1),
            s > 0,
    ;
    assert(is_root(f, r, big));
    lemma_root_unique(f, r, big);
    assert((t * t) * s == n * s <==> t * t == n) by (nonlinear_arith)
        requires
            s > 0,
    ;
    let twice = f.val(r) + f.val(r + 1);
    let odd = 2 * t + 1;
    assert(twice * twice == (odd * odd) * s) by (nonlinear_arith)
        requires
            twice == t * g + (t + 1) * g,
            odd == 2 * t + 1,
            s == g * g,
    ;
    assert(odd * odd == 4 * (t * t) + 4 * t + 1) by (nonlinear_arith)
        requires
            odd == 2 * t + 1,
    ;
    let four = 4 * n;
    assert(4 * (n * s) == four * s) by (nonlinear_arith)
        requires
            four == 4 * n,
    ;
    assert(four * s > (odd * odd) * s <==> four > odd * odd) by (nonlinear_arith)
        requires
            s > 0,
    ;
}

/// A number of the format is rounded to itself, in every mode, and is exact.
pub proof fn law_exact_rounding(f: Format, mode: FpRounding, neg: bool, mag: nat, n: nat, d: nat)
    requires
        mag < f.inf(),
        d > 0,
        f.val(mag) * d == n,
    ensures
        (Exact::Val { neg, n, d }).rounded(f, mode) == f.pack(neg, mag),
        !(Exact::Val { neg, n, d }).inexact(f),
{
    lemma_val_step(f, mag);
    let v = f.val(mag);
    let w = f.val(mag + 1);
    assert(n < w * d) by (nonlinear_arith)
        requires
            v * d == n,
            v < w,
            d > 0,
    ;
    assert((v + w) * d > 2 * n) by (nonlinear_arith)
        requires
            v * d == n,
            n < w * d,
    ;
    assert(f.is_floor(mag, n, d));
    lemma_floor_unique(f, mag, n, d);
}

/// The directed modes bracket the nearest number: towards zero is at most it, away
/// from zero at least it, and the two are neighbours or the same.
pub proof fn law_rounding_brackets(f: Format, n: nat, d: nat)
    requires
        d > 0,
    ensures
        f.toward_zero(n, d) <= f.nearest(n, d) <= f.away(n, d) <= f.toward_zero(n, d) + 1,
        f.exact(n, d) ==> f.toward_zero(n, d) == f.away(n, d),
{
    lemma_constants();
    let r = f.floor_mag(n, d);
    if f.exact(n, d) {
        law_exact_rounding(f, FpRounding::Nearest, false, r, n, d);
        lemma_val_step(f, r);
        let v = f.val(r);
        let w = f.val(r + 1);
        assert((v + w) * d > 2 * n) by (nonlinear_arith)
            requires
                v * d == n,
                v < w,
                d > 0,
        ;
    }
}

/// No number of the format is nearer to a fraction than the one it is rounded to, as long
/// as that is finite; the number after the largest counts as one.
pub proof fn law_nearest(f: Format, n: nat, d: nat, m: nat)
    requires
        d > 0,
        n < f.val(f.inf()) * d,
        m <= f.inf(),
    ensures
        ({
            let (v, w) = (f.val(f.nearest(n, d)) * d, f.val(m) * d);
            let near = if v < n {
                n - v
            } else {
                v - n
            };
            let far = if w < n {
                n - w
            } else {
                w - n
            };
            near <= far
        }),
{
    let r = lemma_floor_exists(f, n, d, f.inf());
    lemma_floor_unique(f, r, n, d);
    lemma_val_step(f, r);
    let (a, b, c) = (f.val(r), f.val(r + 1), f.val(m));
    if m < r {
        law_magnitude_order(f, m, r);
    } else if m > r + 1 {
        law_magnitude_order(f, r + 1, m);
    }
    if m <= r {
        assert(c * d <= a * d) by (nonlinear_arith)
            requires
                c <= a,
        ;
    } else {
        assert(b * d <= c * d) by (nonlinear_arith)
            requires
                b <= c,
        ;
    }
    assert((a + b) * d == a * d + b * d) by (nonlinear_arith);
}

proof fn lemma_floor_exists(f: Format, n: nat, d: nat, top: nat) -> (r: nat)
    requires
        d > 0,
        n < f.val(top) * d,
        top <= f.inf(),
    ensures
        r < top,
        f.is_floor(r, n, d),
    decreases top,
{
    if top == 0 {
        lemma_val_pack(f, 0, 0);
        assert(0 * f.hidden() == 0 && 0 * pow2(0) == 0 && 0 * d == 0);
        0
    } else if f.val((top - 1) as nat) * d <= n {
        (top - 1) as nat
    } else {
        lemma_floor_exists(f, n, d, (top - 1) as nat)
    }
}

/// Sum and product do not depend on the order of the operands.
pub proof fn law_commutative(f: Format, x: u64, y: u64)
    ensures
        exact_add(f, x, y) == exact_add(f, y, x),
        exact_mul(f, x, y) == exact_mul(f, y, x),
{
    let a = f.val(f.mag(x));
    let b = f.val(f.mag(y));
    assert(a * b == b * a) by (nonlinear_arith);
}

/// A significand that is short enough has a place in a format.
pub proof fn lemma_in_format(f: Format, sig: nat, k: nat, left: nat) -> (r: nat)
    requires
        0 < sig < 2 * f.hidden(),
        sig * pow2(left) >= f.hidden(),
        left <= k,
        k + 2 <= f.top(),
    ensures
        r < f.inf(),
        f.val(r) == sig * pow2(k),
    decreases left,
{
    lemma2_to64();
    if sig >= f.hidden() {
        lemma_val_pack(f, k, sig);
        lemma_below_inf(f, k, sig);
        k * f.hidden() + sig
    } else {
        if left == 0 {
            assert(sig * pow2(0) == sig);
            assert(false);
        }
        let k1 = (k - 1) as nat;
        let left1 = (left - 1) as nat;
        lemma_pow2_unfold(left);
        lemma_pow2_unfold(k);
        assert((2 * sig) * pow2(left1) == sig * (2 * pow2(left1))) by (nonlinear_arith);
        assert((2 * sig) * pow2(k1) == sig * (2 * pow2(k1))) by (nonlinear_arith);
        lemma_in_format(f, 2 * sig, k1, left1)
    }
}

/// A significand that is short enough has a place in the double format.
proof fn lemma_in_double(sig: nat, k: nat, left: nat) -> (r: nat)
    requires
        0 < sig < 2 * Format::Double.hidden(),
        sig * pow2(left) >= Format::Double.hidden(),
        left <= k <= 2000,
    ensures
        r < Format::Double.inf(),
        Format::Double.val(r) == sig * pow2(k),
{
    lemma_in_format(Format::Double, sig, k, left)
}

/// Where a single precision number stands in the double format.
pub proof fn lemma_widen(mag: nat) -> (r: nat)
    requires
        0 < mag < Format::Single.inf(),
    ensures
        r < Format::Double.inf(),
        Format::Double.val(r) == Format::Single.val(mag) * pow2(925),
        Format::Double.val(r) * pow2(149) == Format::Single.val(mag) * pow2(1074),
{
    let f = Format::Single;
    lemma_constants();
    lemma2_to64();
    lemma2_to64_rest();
    let h = f.hidden();
    let sig = sig_of(f, mag);
    let k = step_of(f, mag);
    let e = mag / h;
    vstd::arithmetic::div_mod::lemma_fundamental_div_mod(mag as int, h as int);
    assert(e < 255);
    assert(sig > 0);
    assert(f.val(mag) == sig * pow2(k)) by {
        if e == 0 {
            assert(sig * pow2(0) == sig);
        }
    }
    assert(sig * pow2(52) >= pow2(52)) by (nonlinear_arith)
        requires
            sig >= 1,
            pow2(52) > 0,
    ;
    let r = lemma_in_double(sig, k + 925, 52);
    lemma_pow2_adds(k, 925);
    lemma_pow2_adds(925, 149);
    let v = f.val(mag);
    assert(sig * (pow2(k) * pow2(925)) == v * pow2(925)) by (nonlinear_arith)
        requires
            v == sig * pow2(k),
    ;
    assert(v * pow2(925) * pow2(149) == v * (pow2(925) * pow2(149))) by (nonlinear_arith);
    r
}

} // verus!
