//! Tone mapping: from accumulated radiance to 8-bit pixel channels.

use vstd::prelude::*;
use vstd::arithmetic::power::pow;
use crate::fixed::{Fx, tdiv_i, lemma_tdiv_nonneg, SCALE};
use crate::vec3::Vec3;

verus! {

/// Colors are vectors of three radiance channels.
pub type Color = Vec3;

/// The clamp ceiling for tone mapping: the fixed-point value just below
/// 0.999, so that no channel ever reaches 256 before truncation.
pub const CLAMP_MAX: i64 = 65470;

/// `y` is the integer `n`-th root of the fixed-point fraction `x / SCALE`,
/// scaled back up: the unique `y >= 0` with
/// `y^n <= x * SCALE^(n-1) < (y+1)^n`.
pub open spec fn is_rootn(x: int, n: nat, y: int) -> bool {
    0 <= y && pow(y, n) <= x * pow(SCALE as int, (n - 1) as nat)
        && x * pow(SCALE as int, (n - 1) as nat) < pow(y + 1, n)
}

/// The integer `n`-th root of a fixed-point fraction.
pub open spec fn rootn_i(x: int, n: nat) -> int {
    choose|y: int| is_rootn(x, n, y)
}

/// A power of a nonnegative base is nonnegative.
proof fn lemma_pow_nonneg(b: int, e: nat)
    requires
        b >= 0,
    ensures
        pow(b, e) >= 0,
    decreases e,
{
    reveal(pow);
    if e != 0 {
        lemma_pow_nonneg(b, (e - 1) as nat);
        assert(b * pow(b, (e - 1) as nat) >= 0) by (nonlinear_arith)
            requires b >= 0, pow(b, (e - 1) as nat) >= 0;
    }
}

/// Powers are monotone in the base.
proof fn lemma_pow_base_mono(b1: int, b2: int, e: nat)
    requires
        0 <= b1 <= b2,
    ensures
        pow(b1, e) <= pow(b2, e),
    decreases e,
{
    reveal(pow);
    if e != 0 {
        lemma_pow_base_mono(b1, b2, (e - 1) as nat);
        lemma_pow_nonneg(b1, (e - 1) as nat);
        lemma_pow_nonneg(b2, (e - 1) as nat);
        assert(b1 * pow(b1, (e - 1) as nat) <= b2 * pow(b2, (e - 1) as nat)) by (nonlinear_arith)
            requires
                0 <= b1 <= b2,
                0 <= pow(b1, (e - 1) as nat) <= pow(b2, (e - 1) as nat),
        ;
    }
}

/// The integer `n`-th root is unique.
proof fn lemma_rootn_unique(x: int, n: nat, y1: int, y2: int)
    requires
        n >= 1,
        is_rootn(x, n, y1),
        is_rootn(x, n, y2),
    ensures
        y1 == y2,
{
    if y1 < y2 {
        lemma_pow_base_mono(y1 + 1, y2, n);
    }
    if y2 < y1 {
        lemma_pow_base_mono(y2 + 1, y1, n);
    }
}

/// The powers of `SCALE` that the root computation walks through, as
/// explicit values.
proof fn lemma_pow_scale_values()
    ensures
        pow(65536, 0) == 1,
        pow(65536, 1) == 0x10000,
        pow(65536, 2) == 0x1_0000_0000,
        pow(65536, 3) == 0x1_0000_0000_0000,
        pow(65536, 4) == 0x1_0000_0000_0000_0000,
        pow(65536, 5) == 0x1_0000_0000_0000_0000_0000,
        pow(65536, 6) == 0x1_0000_0000_0000_0000_0000_0000,
        pow(65536, 7) == 0x1_0000_0000_0000_0000_0000_0000_0000,
{
    reveal(pow);
    assert(pow(65536, 0) == 1);
    assert(pow(65536, 1) == 65536 * pow(65536, 0));
    assert(pow(65536, 2) == 65536 * pow(65536, 1));
    assert(pow(65536, 3) == 65536 * pow(65536, 2));
    assert(pow(65536, 4) == 65536 * pow(65536, 3));
    assert(pow(65536, 5) == 65536 * pow(65536, 4));
    assert(pow(65536, 6) == 65536 * pow(65536, 5));
    assert(pow(65536, 7) == 65536 * pow(65536, 6));
}

/// Whether `base^exp <= limit`, stopping as soon as the partial product
/// exceeds the limit.
fn pow_le(base: u64, exp: u32, limit: u128) -> (r: bool)
    requires
        1 <= base <= 65536,
        1 <= exp <= 7,
        limit < 0x1_0000_0000_0000_0000_0000_0000_0000,
    ensures
        r == (pow(base as int, exp as nat) <= limit as int),
{
    if limit == 0 {
        proof {
            vstd::arithmetic::power::lemma_pow_positive(base as int, exp as nat);
        }
        return false;
    }
    let mut acc: u128 = 1;
    let mut i: u32 = 0;
    proof {
        vstd::arithmetic::power::lemma_pow0(base as int);
    }
    while i < exp
        invariant
            i <= exp,
            1 <= base <= 65536,
            1 <= exp <= 7,
            1 <= limit < 0x1_0000_0000_0000_0000_0000_0000_0000,
            acc as int == pow(base as int, i as nat),
            acc <= limit,
        decreases exp - i,
    {
        proof {
            assert(acc * (base as u128) < 0x1_0000_0000_0000_0000_0000_0000_0000u128 * 0x10000)
                by (nonlinear_arith)
                requires
                    acc < 0x1_0000_0000_0000_0000_0000_0000_0000u128,
                    base <= 0x10000u64,
            ;
        }
        acc = acc * (base as u128);
        proof {
            vstd::arithmetic::power::lemma_pow1(base as int);
            vstd::arithmetic::power::lemma_pow_adds(base as int, i as nat, 1);
            assert(pow(base as int, (i + 1) as nat) == pow(base as int, i as nat) * base);
        }
        if acc > limit {
            proof {
                vstd::arithmetic::power::lemma_pow_increases(
                    base as nat, (i + 1) as nat, exp as nat);
            }
            return false;
        }
        i = i + 1;
    }
    true
}

/// The integer `n`-th root of a fixed-point fraction below one, by binary
/// search over `[0, SCALE)`.
fn rootn(x: i64, n: u32) -> (r: i64)
    requires
        0 <= x < SCALE,
        1 <= n <= 7,
    ensures
        r as int == rootn_i(x as int, n as nat),
        0 <= r < SCALE,
{
    proof {
        lemma_pow_scale_values();
        vstd::arithmetic::power::lemma_pow0(65536);
    }
    // The scaled target x * SCALE^(n-1).
    let mut xfull: u128 = x as u128;
    let mut k: u32 = 1;
    while k < n
        invariant
            1 <= k <= n,
            n <= 7,
            0 <= x < 65536,
            xfull as int == x as int * pow(65536, (k - 1) as nat),
            xfull < 0x1_0000_0000_0000_0000_0000_0000_0000,
        decreases n - k,
    {
        proof {
            lemma_pow_scale_values();
            vstd::arithmetic::power::lemma_pow_increases(65536nat, k as nat, 6);
            vstd::arithmetic::power::lemma_pow_positive(65536, k as nat);
            vstd::arithmetic::power::lemma_pow1(65536);
            vstd::arithmetic::power::lemma_pow_adds(65536, 1, (k - 1) as nat);
            assert(pow(65536, k as nat) == 65536 * pow(65536, (k - 1) as nat));
            assert((x as int) * pow(65536, k as nat) < 65536 * pow(65536, 6nat)) by (nonlinear_arith)
                requires
                    0 <= (x as int) && (x as int) < 65536,
                    0 < pow(65536, k as nat),
                    pow(65536, k as nat) <= pow(65536, 6nat),
            ;
            assert(xfull * 65536 == x as int * pow(65536, k as nat)) by (nonlinear_arith)
                requires
                    xfull == x as int * pow(65536, (k - 1) as nat),
                    pow(65536, k as nat) == 65536 * pow(65536, (k - 1) as nat),
            ;
        }
        xfull = xfull * 65536;
        k = k + 1;
    }

    let mut lo: u64 = 0;
    let mut hi: u64 = 65535;
    proof {
        vstd::arithmetic::power::lemma0_pow(n as nat);
        vstd::arithmetic::power::lemma_pow1(65536int);
        vstd::arithmetic::power::lemma_pow_adds(65536int, 1, (n - 1) as nat);
        assert(pow(65536int, n as nat) == 65536 * pow(65536int, (n - 1) as nat));
        vstd::arithmetic::power::lemma_pow_positive(65536, (n - 1) as nat);
        assert((x as int) * pow(65536int, (n - 1) as nat) < 65536 * pow(65536int, (n - 1) as nat))
            by (nonlinear_arith)
            requires 0 <= (x as int) && (x as int) < 65536, pow(65536int, (n - 1) as nat) > 0;
    }
    while lo < hi
        invariant
            lo <= hi <= 65535,
            1 <= n <= 7,
            0 <= x < 65536,
            xfull < 0x1_0000_0000_0000_0000_0000_0000_0000,
            xfull as int == x as int * pow(65536, (n - 1) as nat),
            pow(lo as int, n as nat) <= xfull as int,
            (xfull as int) < pow(hi as int + 1, n as nat),
        decreases hi - lo,
    {
        let mid: u64 = lo + (hi - lo + 1) / 2;
        if pow_le(mid, n, xfull) {
            lo = mid;
        } else {
            hi = mid - 1;
        }
    }
    proof {
        assert(is_rootn(x as int, n as nat, lo as int));
        lemma_rootn_unique(x as int, n as nat, lo as int, rootn_i(x as int, n as nat));
    }
    lo as i64
}

/// One channel tone-mapped, on raw values: average the accumulated sum over
/// the sample count, take the gamma-th root of the average, clamp just
/// below 1, and scale into `[0, 255]`.  An average at or above 1 saturates
/// the channel.
pub open spec fn write_channel_s(c: Fx, gamma: u32, samples: int) -> int {
    let n = tdiv_i(c.v as int, samples);
    if n >= SCALE as int {
        255
    } else {
        let g = rootn_i(n, gamma as nat);
        let cl = if g > CLAMP_MAX as int {
            CLAMP_MAX as int
        } else {
            g
        };
        tdiv_i(cl * 256, SCALE as int)
    }
}

/// The same channel mapping with no gamma correction at all.
pub open spec fn write_channel_linear_s(c: Fx, samples: int) -> int {
    let n = tdiv_i(c.v as int, samples);
    if n >= SCALE as int {
        255
    } else {
        let cl = if n > CLAMP_MAX as int {
            CLAMP_MAX as int
        } else {
            n
        };
        tdiv_i(cl * 256, SCALE as int)
    }
}

/// Gamma 1 is the identity: tone mapping with gamma 1 equals tone mapping
/// with no gamma correction, channel for channel.
pub proof fn lemma_gamma_one_is_identity(c: Fx, samples: int)
    requires
        c.v >= 0,
        samples >= 1,
    ensures
        write_channel_s(c, 1, samples) == write_channel_linear_s(c, samples),
{
    lemma_tdiv_nonneg(c.v as int, samples);
    let n = tdiv_i(c.v as int, samples);
    if n < SCALE as int {
        vstd::arithmetic::power::lemma_pow1(n);
        vstd::arithmetic::power::lemma_pow1(n + 1);
        vstd::arithmetic::power::lemma_pow0(SCALE as int);
        assert(is_rootn(n, 1, n));
        lemma_rootn_unique(n, 1, n, rootn_i(n, 1));
    }
}

/// One channel tone-mapped.
fn write_channel(c: Fx, gamma: u32, samples: i32) -> (r: u8)
    requires
        c.v >= 0,
        samples >= 1,
        1 <= gamma <= 7,
    ensures
        r as int == write_channel_s(c, gamma, samples as int),
{
    proof {
        lemma_tdiv_nonneg(c.v as int, samples as int);
    }
    let n_raw: i64 = ((c.v as u64) / (samples as u64)) as i64;
    if n_raw >= SCALE {
        255
    } else {
        let g: i64 = rootn(n_raw, gamma);
        let cl: i64 = if g > CLAMP_MAX {
            CLAMP_MAX
        } else {
            g
        };
        proof {
            lemma_tdiv_nonneg(cl * 256, SCALE as int);
            vstd::arithmetic::div_mod::lemma_div_is_ordered(
                cl * 256,
                65470int * 256,
                SCALE as int,
            );
        }
        (((cl as u64) * 256) / 65536) as u8
    }
}

impl Vec3 {
    /// Tone-map an accumulated color into one 8-bit RGB triple.
    pub fn write(&self, gamma: u32, samples: i32) -> (rgb: (u8, u8, u8))
        requires
            self.x.v >= 0,
            self.y.v >= 0,
            self.z.v >= 0,
            samples >= 1,
            1 <= gamma <= 7,
        ensures
            rgb.0 as int == write_channel_s(self.x, gamma, samples as int),
            rgb.1 as int == write_channel_s(self.y, gamma, samples as int),
            rgb.2 as int == write_channel_s(self.z, gamma, samples as int),
    {
        (
            write_channel(self.x, gamma, samples),
            write_channel(self.y, gamma, samples),
            write_channel(self.z, gamma, samples),
        )
    }
}

} // verus!
