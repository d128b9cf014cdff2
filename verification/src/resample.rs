//! Streaming sample-rate conversion by linear interpolation.
//!
//! Output sample `j` of a converter from `s` to `t` samples per second
//! sits at source position `j*s/t`.  When that position is whole the
//! source sample passes through unchanged; when it is fractional the two
//! neighbouring source samples are interpolated linearly, in integer
//! arithmetic with the scaled difference truncated toward the earlier
//! sample.  Equal rates therefore degenerate to an exact passthrough.

use vstd::prelude::*;
use vstd::arithmetic::div_mod::lemma_div_by_multiple;
use vstd::arithmetic::div_mod::lemma_div_is_ordered;
use vstd::arithmetic::div_mod::lemma_div_multiples_vanish;
use vstd::arithmetic::div_mod::lemma_div_pos_is_pos;
use vstd::arithmetic::div_mod::lemma_fundamental_div_mod;
use vstd::arithmetic::div_mod::lemma_mod_division_less_than_divisor;
use vstd::arithmetic::div_mod::lemma_mod_multiples_basic;

verus! {

/// Linear interpolation between amplitudes `a` and `b` at fraction
/// `r / t`, the scaled difference truncated toward `a`.
pub open spec fn interp_spec(a: int, b: int, r: int, t: int) -> int {
    if b >= a {
        a + (b - a) * r / t
    } else {
        a - (a - b) * r / t
    }
}

/// How many output samples conversion from rate `s` to rate `t` yields
/// from `n` source samples: one for each output position at or before the
/// last source sample.
pub open spec fn out_count(n: nat, s: nat, t: nat) -> nat
    recommends
        s >= 1,
{
    if n == 0 {
        0
    } else {
        ((n - 1) * t / (s as int) + 1) as nat
    }
}

/// The output sample at index `j`, as an amplitude.
pub open spec fn out_at(input: Seq<i16>, s: nat, t: nat, j: int) -> int
    recommends
        t >= 1,
{
    let pos = j * s;
    let i = pos / (t as int);
    let r = pos % (t as int);
    if r == 0 {
        input[i] as int
    } else {
        interp_spec(input[i] as int, input[i + 1] as int, r, t as int)
    }
}

/// The whole converted sequence for a source sequence.
pub open spec fn resampled_spec(input: Seq<i16>, s: nat, t: nat) -> Seq<i16> {
    Seq::new(out_count(input.len(), s, t), |j: int| out_at(input, s, t, j) as i16)
}

/// Law: converting between equal rates is the identity on the sample
/// sequence; nothing is reinterpolated.
pub proof fn lemma_identity_resample(input: Seq<i16>, rate: nat)
    requires
        rate >= 1,
    ensures
        resampled_spec(input, rate, rate) == input,
{
    let rt = rate as int;
    let n = input.len() as int;
    if n > 0 {
        lemma_div_multiples_vanish(n - 1, rt);
    }
    assert(out_count(input.len(), rate, rate) == n);
    assert forall|j: int| 0 <= j < n implies resampled_spec(input, rate, rate)[j] == input[j] by {
        lemma_div_multiples_vanish(j, rt);
        lemma_mod_multiples_basic(j, rt);
        assert(j * rt == rt * j) by (nonlinear_arith);
        assert(j * rate == j * rt);
        assert((j * rate) / rt == j);
        assert((j * rate) % rt == 0);
        assert(out_at(input, rate, rate, j) == input[j] as int);
    }
    assert(resampled_spec(input, rate, rate) =~= input);
}

/// The truncated scaled difference is between zero and the difference.
proof fn lemma_frac_bounds(d: int, r: int, t: int)
    requires
        1 <= t,
        0 <= r < t,
        0 <= d,
    ensures
        0 <= d * r / t <= d,
        d * r / t <= d * r,
{
    assert(d * r >= 0) by (nonlinear_arith)
        requires d >= 0, r >= 0;
    assert(d * r <= d * t) by (nonlinear_arith)
        requires d >= 0, r <= t;
    lemma_div_pos_is_pos(d * r, t);
    lemma_div_is_ordered(d * r, d * t, t);
    lemma_div_by_multiple(d, t);
    assert(d * t == t * d) by (nonlinear_arith);
    assert((d * t) / t == d);
    vstd::arithmetic::div_mod::lemma_div_nonincreasing(d * r, t);
}

/// Interpolated amplitudes stay between their endpoints.
proof fn lemma_interp_bounds(a: int, b: int, r: int, t: int)
    requires
        1 <= t,
        0 <= r < t,
    ensures
        b >= a ==> a <= interp_spec(a, b, r, t) <= b,
        b < a ==> b <= interp_spec(a, b, r, t) <= a,
{
    if b >= a {
        lemma_frac_bounds(b - a, r, t);
    } else {
        lemma_frac_bounds(a - b, r, t);
    }
}

/// Interpolate between two 16-bit samples at fraction `r / t`.
fn interp_sample(a: i16, b: i16, r: u64, t: u64) -> (m: i16)
    requires
        1 <= t,
        r < t,
        t <= 0xFFFF_FFFF,
    ensures
        m as int == interp_spec(a as int, b as int, r as int, t as int),
{
    proof {
        lemma_interp_bounds(a as int, b as int, r as int, t as int);
    }
    if b >= a {
        let d: u64 = (b as i32 - a as i32) as u64;
        proof {
            assert(d as int == b as int - a as int);
            assert((d as int) * (r as int) < 0x1_0000_0000_0000_0000) by (nonlinear_arith)
                requires 0 <= (d as int) <= 0x1_0000, 0 <= (r as int) < 0x1_0000_0000;
            lemma_frac_bounds(d as int, r as int, t as int);
        }
        let q: u64 = d * r / t;
        (a as i32 + q as i32) as i16
    } else {
        let d: u64 = (a as i32 - b as i32) as u64;
        proof {
            assert(d as int == a as int - b as int);
            assert((d as int) * (r as int) < 0x1_0000_0000_0000_0000) by (nonlinear_arith)
                requires 0 <= (d as int) <= 0x1_0000, 0 <= (r as int) < 0x1_0000_0000;
            lemma_frac_bounds(d as int, r as int, t as int);
        }
        let q: u64 = d * r / t;
        (a as i32 - q as i32) as i16
    }
}

/// Source index bounds for a producible output: output `j` reads only
/// source samples up to index `n - 1`.
proof fn lemma_out_index_range(n: int, s: int, t: int, j: int)
    requires
        1 <= s,
        1 <= t,
        1 <= n,
        0 <= j,
        j * s <= (n - 1) * t,
    ensures
        0 <= j * s / t <= n - 1,
        j * s % t > 0 ==> j * s / t < n - 1,
{
    let pos = j * s;
    assert(j * s >= 0) by (nonlinear_arith)
        requires j >= 0, s >= 1;
    lemma_div_pos_is_pos(pos, t);
    lemma_div_is_ordered(pos, (n - 1) * t, t);
    lemma_div_by_multiple(n - 1, t);
    let i = pos / t;
    let r = pos % t;
    lemma_fundamental_div_mod(pos, t);
    lemma_mod_division_less_than_divisor(pos, t);
    if r > 0 {
        assert(pos == t * i + r);
        assert(t * i < (n - 1) * t);
        assert(t * i < (n - 1) * t ==> i < n - 1) by (nonlinear_arith)
            requires t >= 1;
    }
}

/// An output index is producible from `n` source samples exactly when it
/// lies below the output count.
proof fn lemma_out_count_bound(n: int, s: int, t: int, j: int)
    requires
        1 <= s,
        1 <= t,
        1 <= n,
        0 <= j,
    ensures
        j * s <= (n - 1) * t ==> j < (n - 1) * t / s + 1,
        j * s > (n - 1) * t ==> j >= (n - 1) * t / s + 1,
{
    let x = (n - 1) * t;
    assert((n - 1) * t >= 0) by (nonlinear_arith)
        requires n >= 1, t >= 1;
    let q = x / s;
    lemma_fundamental_div_mod(x, s);
    lemma_mod_division_less_than_divisor(x, s);
    assert(s * q == q * s) by (nonlinear_arith);
    if j * s <= x {
        assert(j > q ==> j * s >= (q + 1) * s) by (nonlinear_arith)
            requires s >= 1;
        assert((q + 1) * s == q * s + s) by (nonlinear_arith);
    } else {
        assert(j <= q ==> j * s <= q * s) by (nonlinear_arith)
            requires s >= 1;
    }
}

/// More source samples only extend the converted sequence: what was
/// already computable keeps its value.
pub proof fn lemma_resample_prefix(input: Seq<i16>, x: i16, s: nat, t: nat)
    requires
        s >= 1,
        t >= 1,
    ensures
        out_count(input.len(), s, t) <= out_count(input.len() + 1, s, t),
        resampled_spec(input, s, t) == resampled_spec(input.push(x), s, t).take(
            out_count(input.len(), s, t) as int,
        ),
{
    let n = input.len() as int;
    let c0 = out_count(input.len(), s, t) as int;
    if n == 0 {
        assert(resampled_spec(input, s, t) =~= resampled_spec(input.push(x), s, t).take(0));
    } else {
        assert((n - 1) * (t as int) <= n * (t as int)) by (nonlinear_arith)
            requires t as int >= 0, n >= 1;
        lemma_div_is_ordered((n - 1) * (t as int), n * (t as int), s as int);
        assert(c0 <= out_count(input.len() + 1, s, t));
        assert forall|j: int| 0 <= j < c0 implies out_at(input, s, t, j) == out_at(
            input.push(x),
            s,
            t,
            j,
        ) by {
            lemma_out_count_bound(n, s as int, t as int, j);
            assert(j * s <= (n - 1) * (t as int));
            lemma_out_index_range(n, s as int, t as int, j);
        }
        assert(resampled_spec(input, s, t) =~= resampled_spec(input.push(x), s, t).take(c0));
    }
}

/// A streaming converter from `src_rate` to `dst_rate` samples per
/// second.  Source samples are fed in one at a time as they leave the
/// transfer ring; each feed yields the output samples that have become
/// computable, so the consumer sees a continuous target-rate stream.
pub struct RateConverter {
    src_rate: u32,
    dst_rate: u32,
    consumed: u64,
    produced: u64,
    prev: i16,
    cur: i16,
    source: Ghost<Seq<i16>>,
}

impl RateConverter {
    /// Every source sample fed so far.
    pub closed spec fn source_seq(self) -> Seq<i16> {
        self.source@
    }

    /// The source rate in samples per second.
    pub closed spec fn src(self) -> nat {
        self.src_rate as nat
    }

    /// The target rate in samples per second.
    pub closed spec fn dst(self) -> nat {
        self.dst_rate as nat
    }

    /// Every output sample emitted so far: exactly the converted
    /// sequence of the source fed so far.
    pub open spec fn outputs(self) -> Seq<i16> {
        resampled_spec(self.source_seq(), self.src(), self.dst())
    }

    /// Positive rates, counters in step with the ghost source, and the
    /// last two source samples at hand for interpolation.
    pub closed spec fn wf(self) -> bool {
        &&& self.src_rate >= 1
        &&& self.dst_rate >= 1
        &&& self.source@.len() == self.consumed
        &&& self.produced == out_count(self.source@.len(), self.src(), self.dst())
        &&& (self.consumed >= 1 ==> self.cur == self.source@[self.consumed - 1])
        &&& (self.consumed >= 2 ==> self.prev == self.source@[self.consumed - 2])
    }

    /// Room in the position arithmetic for one more source sample.
    pub open spec fn can_accept(self) -> bool {
        (self.source_seq().len() as int) * (self.dst() as int) + (self.src() as int)
            <= 0xFFFF_FFFF_FFFF_FFFF
    }

    /// A fresh converter that has seen no samples.
    pub fn new(src_rate: u32, dst_rate: u32) -> (c: RateConverter)
        requires
            src_rate >= 1,
            dst_rate >= 1,
        ensures
            c.wf(),
            c.src() == src_rate,
            c.dst() == dst_rate,
            c.source_seq() == Seq::<i16>::empty(),
            c.outputs() == Seq::<i16>::empty(),
    {
        let c = RateConverter {
            src_rate,
            dst_rate,
            consumed: 0,
            produced: 0,
            prev: 0,
            cur: 0,
            source: Ghost(Seq::empty()),
        };
        proof {
            assert(c.outputs() =~= Seq::<i16>::empty());
        }
        c
    }

    /// Feed one source sample; returns the output samples that become
    /// computable, in order.  The outputs emitted over all feeds are
    /// exactly the converted source sequence.
    pub fn push_source(&mut self, x: i16) -> (out: Vec<i16>)
        requires
            old(self).wf(),
            old(self).can_accept(),
        ensures
            final(self).wf(),
            final(self).src() == old(self).src(),
            final(self).dst() == old(self).dst(),
            final(self).source_seq() == old(self).source_seq().push(x),
            final(self).outputs() == old(self).outputs() + out@,
    {
        proof {
            lemma_resample_prefix(self.source@, x, self.src(), self.dst());
        }
        let ghost n0: int = self.consumed as int;
        let ghost p0: int = self.produced as int;
        proof {
            assert((self.consumed as int) <= (self.consumed as int) * (self.dst() as int))
                by (nonlinear_arith)
                requires (self.consumed as int) >= 0, (self.dst() as int) >= 1;
        }
        self.prev = self.cur;
        self.cur = x;
        self.consumed = self.consumed + 1;
        proof {
            self.source@ = self.source@.push(x);
        }
        let s64: u64 = self.src_rate as u64;
        let t64: u64 = self.dst_rate as u64;
        let last: u64 = (self.consumed - 1) * t64;
        let ghost n: int = self.consumed as int;
        proof {
            if n0 >= 1 {
                let q0 = (n0 - 1) * (t64 as int) / (s64 as int);
                lemma_fundamental_div_mod((n0 - 1) * (t64 as int), s64 as int);
                lemma_mod_division_less_than_divisor((n0 - 1) * (t64 as int), s64 as int);
                assert((s64 as int) * q0 == q0 * (s64 as int)) by (nonlinear_arith);
                assert(p0 == q0 + 1);
                assert(p0 * (s64 as int) == q0 * (s64 as int) + (s64 as int)) by (nonlinear_arith)
                    requires p0 == q0 + 1;
                assert((n0 - 1) * (t64 as int) <= (n - 1) * (t64 as int)) by (nonlinear_arith)
                    requires n0 - 1 <= n - 1, (t64 as int) >= 0;
            } else {
                assert(p0 == 0);
            }
        }
        let mut out: Vec<i16> = Vec::new();
        while self.produced * s64 <= last
            invariant
                self.src_rate >= 1,
                self.dst_rate >= 1,
                s64 == self.src_rate,
                t64 == self.dst_rate,
                n == self.consumed,
                n == n0 + 1,
                n == self.source@.len(),
                last == (n - 1) * (t64 as int),
                (n - 1) * (t64 as int) + s64 <= 0xFFFF_FFFF_FFFF_FFFF,
                self.source@ == old(self).source_seq().push(x),
                self.src_rate == old(self).src_rate,
                self.dst_rate == old(self).dst_rate,
                n >= 1 ==> self.cur == self.source@[n - 1],
                n >= 2 ==> self.prev == self.source@[n - 2],
                p0 == out_count(old(self).source_seq().len(), self.src(), self.dst()),
                p0 <= self.produced,
                self.produced <= out_count(self.source@.len(), self.src(), self.dst()),
                (self.produced as int) * (s64 as int) <= (n - 1) * (t64 as int) + (s64 as int),
                out@.len() == self.produced - p0,
                forall|k: int| 0 <= k < out@.len() ==> #[trigger] out@[k] as int == out_at(
                    self.source@,
                    self.src(),
                    self.dst(),
                    p0 + k,
                ),
            decreases out_count(self.source@.len(), self.src(), self.dst()) - self.produced,
        {
            let ghost j: int = self.produced as int;
            proof {
                lemma_out_index_range(n, s64 as int, t64 as int, j);
                lemma_out_count_bound(n, s64 as int, t64 as int, j);
                assert(j * (s64 as int) <= (n - 1) * (t64 as int) + s64) by (nonlinear_arith)
                    requires j * (s64 as int) <= (n - 1) * (t64 as int), s64 >= 1;
            }
            let pos: u64 = self.produced * s64;
            let i: u64 = pos / t64;
            let r: u64 = pos % t64;
            proof {
                lemma_fundamental_div_mod(pos as int, t64 as int);
                lemma_mod_division_less_than_divisor(pos as int, t64 as int);
                if i as int == n - 1 {
                    assert(pos as int == (t64 as int) * (i as int) + r);
                    assert((t64 as int) * (n - 1) == (n - 1) * (t64 as int)) by (nonlinear_arith);
                    assert(r == 0);
                }
                if n0 >= 1 {
                    // every output of this feed sits past source index n0 - 1:
                    // the feed before stopped exactly there
                    let q0 = (n0 - 1) * (t64 as int) / (s64 as int);
                    lemma_fundamental_div_mod((n0 - 1) * (t64 as int), s64 as int);
                    lemma_mod_division_less_than_divisor((n0 - 1) * (t64 as int), s64 as int);
                    assert((s64 as int) * q0 == q0 * (s64 as int)) by (nonlinear_arith);
                    assert(p0 == q0 + 1);
                    assert(q0 * (s64 as int) > (n0 - 1) * (t64 as int) - s64);
                    assert(j * (s64 as int) >= p0 * (s64 as int)) by (nonlinear_arith)
                        requires j >= p0, s64 >= 1;
                    assert(p0 * (s64 as int) == q0 * (s64 as int) + (s64 as int)) by (nonlinear_arith)
                        requires p0 == q0 + 1;
                    assert(pos as int > (n0 - 1) * (t64 as int));
                    lemma_div_is_ordered((n0 - 1) * (t64 as int), pos as int, t64 as int);
                    lemma_div_by_multiple(n0 - 1, t64 as int);
                    assert(i as int >= n0 - 1);
                }
            }
            let sample: i16 = if i == self.consumed - 1 {
                self.cur
            } else if r == 0 {
                self.prev
            } else {
                interp_sample(self.prev, self.cur, r, t64)
            };
            proof {
                assert(s64 as int == self.src() as int);
                assert(t64 as int == self.dst() as int);
                assert(pos as int == j * (self.src() as int));
                assert(out_at(self.source@, self.src(), self.dst(), j) == sample as int);
            }
            out.push(sample);
            self.produced = self.produced + 1;
            proof {
                assert(self.produced * (s64 as int) == j * (s64 as int) + (s64 as int))
                    by (nonlinear_arith)
                    requires self.produced == j + 1;
            }
        }
        proof {
            let cN = out_count(self.source@.len(), self.src(), self.dst()) as int;
            lemma_out_count_bound(n, s64 as int, t64 as int, self.produced as int);
            assert(self.produced == cN);
            let full = resampled_spec(self.source@, self.src(), self.dst());
            assert forall|k: int| 0 <= k < out@.len() implies out@[k] == full.skip(p0)[k] by {
                assert(out@[k] as int == out_at(self.source@, self.src(), self.dst(), p0 + k));
                assert(full[p0 + k] == out_at(self.source@, self.src(), self.dst(), p0 + k) as i16);
            }
            assert(out@ =~= full.skip(p0));
            assert(old(self).outputs() + out@ =~= full);
        }
        out
    }
}

/// Law: a converter between equal rates has emitted exactly the samples
/// it was fed.
pub proof fn lemma_converter_identity(c: RateConverter)
    requires
        c.src() == c.dst(),
        c.src() >= 1,
    ensures
        c.outputs() == c.source_seq(),
{
    lemma_identity_resample(c.source_seq(), c.src());
}

} // verus!
