//! Reduction of interleaved multi-channel audio to a single channel.

use vstd::prelude::*;

verus! {

/// The configured channel layout cannot be reduced to mono.
#[derive(Clone, Copy, Debug, PartialEq, Eq, Structural)]
pub enum DownmixError {
    /// Only one- and two-channel layouts are supported.
    UnsupportedChannelCount,
}

/// Mean of two amplitudes with the fractional half truncated toward zero.
pub open spec fn mean_trunc(a: int, b: int) -> int {
    if a + b >= 0 {
        (a + b) / 2
    } else {
        -((-(a + b)) / 2)
    }
}

/// The mono sample produced from pair `k` of an interleaved stereo sequence:
/// the truncated mean of the pair, or the sample itself if it has no partner.
pub open spec fn stereo_pair_at(s: Seq<i16>, k: int) -> int {
    if 2 * k + 1 < s.len() {
        mean_trunc(s[2 * k] as int, s[2 * k + 1] as int)
    } else {
        s[2 * k] as int
    }
}

/// Number of mono samples produced from `n` interleaved stereo samples.
pub open spec fn stereo_out_len(n: nat) -> nat {
    (n + 1) / 2
}

fn mean_sample(a: i16, b: i16) -> (m: i16)
    ensures
        m as int == mean_trunc(a as int, b as int),
{
    let sum: i32 = a as i32 + b as i32;
    if sum >= 0 {
        ((sum as u32) / 2) as i16
    } else {
        let half: u32 = ((-sum) as u32) / 2;
        -(half as i32) as i16
    }
}

/// Average an interleaved stereo sequence down to mono.  A trailing
/// unpaired sample passes through unchanged; an empty input yields an
/// empty output.
pub fn downmix_stereo(samples: &Vec<i16>) -> (out: Vec<i16>)
    ensures
        out@.len() == stereo_out_len(samples@.len()),
        forall|k: int| 0 <= k < out@.len() ==> out@[k] as int == stereo_pair_at(samples@, k),
{
    let n: usize = samples.len();
    let pairs: usize = n / 2;
    let mut out: Vec<i16> = Vec::new();
    let mut k: usize = 0;
    while k < pairs
        invariant
            k <= pairs,
            pairs == n / 2,
            n == samples@.len(),
            out@.len() == k,
            forall|j: int| 0 <= j < k ==> out@[j] as int == stereo_pair_at(samples@, j),
        decreases pairs - k,
    {
        let m: i16 = mean_sample(samples[2 * k], samples[2 * k + 1]);
        out.push(m);
        k = k + 1;
    }
    if n % 2 == 1 {
        out.push(samples[n - 1]);
    }
    out
}

/// Reduce an interleaved capture buffer of `channels` channels to mono.
/// One channel passes through unchanged; two channels are averaged
/// pairwise; any other layout is rejected.
pub fn downmix(samples: &Vec<i16>, channels: u16) -> (r: Result<Vec<i16>, DownmixError>)
    ensures
        channels == 1 ==> (r matches Ok(out) && out@ == samples@),
        channels == 2 ==> (r matches Ok(out) && out@.len() == stereo_out_len(samples@.len())
            && (forall|k: int| 0 <= k < out@.len() ==> out@[k] as int == stereo_pair_at(
            samples@,
            k,
        ))),
        (channels != 1 && channels != 2) <==> r == Result::<Vec<i16>, DownmixError>::Err(
            DownmixError::UnsupportedChannelCount,
        ),
{
    if channels == 1 {
        let mut out: Vec<i16> = Vec::new();
        let mut i: usize = 0;
        let n: usize = samples.len();
        while i < n
            invariant
                i <= n,
                n == samples@.len(),
                out@ == samples@.take(i as int),
            decreases n - i,
        {
            out.push(samples[i]);
            i = i + 1;
        }
        proof {
            assert(out@ =~= samples@);
        }
        Ok(out)
    } else if channels == 2 {
        Ok(downmix_stereo(samples))
    } else {
        Err(DownmixError::UnsupportedChannelCount)
    }
}

} // verus!
