use crate::Error;
use vstd::prelude::*;

verus! {

/// Source frames reduced into one envelope sample.
pub const SAMPLING_STEP: usize = 512;

/// Envelope samples sent to the consumer in one batch.
pub const BATCH_SAMPLES: usize = 1024;

/// The sum of `len` samples starting at `start`.
pub open spec fn chunk_sum(s: Seq<i16>, start: int, len: nat) -> int
    decreases len,
{
    if len == 0 {
        0
    } else {
        chunk_sum(s, start, (len - 1) as nat) + s[start + len - 1]
    }
}

/// The largest absolute sample value among `len` samples at `start`.
pub open spec fn chunk_max_abs(s: Seq<i16>, start: int, len: nat) -> int
    decreases len,
{
    if len == 0 {
        0
    } else {
        let prev = chunk_max_abs(s, start, (len - 1) as nat);
        let v = if s[start + len - 1] < 0 {
            -(s[start + len - 1] as int)
        } else {
            s[start + len - 1] as int
        };
        if v > prev {
            v
        } else {
            prev
        }
    }
}

/// Signed division that rounds toward zero, as the platform's integer
/// division does.
pub open spec fn div_trunc(a: int, b: int) -> int {
    if a >= 0 {
        a / b
    } else {
        -((-a) / b)
    }
}

/// The waveform generator's own state: the current source path and the
/// cooperative reset flag a source change raises. The decoding worker that
/// feeds it sample batches lives outside the library.
pub struct WaveformGenerator {
    pub source: Option<String>,
    pub reset: bool,
}

impl WaveformGenerator {
    pub fn new() -> (r: WaveformGenerator)
        ensures
            r.source is None,
            r.reset == false,
    {
        WaveformGenerator { source: None, reset: false }
    }

    /// Change the source and raise the reset flag so a running producer
    /// stops.
    pub fn set_source(&mut self, path: Option<String>)
        ensures
            final(self).source == path,
            final(self).reset == true,
    {
        self.source = path;
        self.reset = true;
    }

    /// Lower the reset flag when a new production run starts.
    pub fn start_run(&mut self)
        ensures
            final(self).source == old(self).source,
            final(self).reset == false,
    {
        self.reset = false;
    }

    /// How many envelope samples the consumer should expect for a source
    /// of `n_frames` frames; refused when no source is set.
    pub fn prepare_waveform(&self, n_frames: u64) -> (r: Result<u32, Error>)
        requires
            n_frames / (SAMPLING_STEP as u64) <= u32::MAX,
        ensures
            match r {
                Ok(v) => self.source is Some && v == n_frames / (SAMPLING_STEP as u64),
                Err(_) => self.source is None,
            },
    {
        if self.source.is_none() {
            return Err(Error::Other(String::new()));
        }
        Ok((n_frames / (SAMPLING_STEP as u64)) as u32)
    }
}

/// Reduce interleaved samples to one mono sample per frame by arithmetic
/// mean; a trailing incomplete frame is dropped.
pub fn mix_frames(samples: &Vec<i16>, n_channels: usize) -> (r: Vec<i16>)
    requires
        1 <= n_channels <= 0xffff,
    ensures
        r@.len() == samples@.len() as int / n_channels as int,
        forall|i: int|
            0 <= i < r@.len() ==> (#[trigger] r@[i]) as int == div_trunc(
                chunk_sum(samples@, i * n_channels, n_channels as nat),
                n_channels as int,
            ),
{
    let n_frames = samples.len() / n_channels;
    let mut out: Vec<i16> = Vec::new();
    let mut i: usize = 0;
    while i < n_frames
        invariant
            0 <= i <= n_frames,
            n_frames == samples@.len() as int / n_channels as int,
            1 <= n_channels <= 0xffff,
            out@.len() == i,
            forall|i2: int|
                0 <= i2 < i ==> (#[trigger] out@[i2]) as int == div_trunc(
                    chunk_sum(samples@, i2 * n_channels, n_channels as nat),
                    n_channels as int,
                ),
        decreases n_frames - i,
    {
        let mut sum: i64 = 0;
        let mut c: usize = 0;
        proof {
            assert((i + 1) * n_channels <= n_frames * n_channels <= samples@.len()) by (
            nonlinear_arith)
                requires
                    0 <= i < n_frames,
                    n_channels >= 1,
                    n_frames == samples@.len() as int / n_channels as int,
            ;
            assert(i * n_channels + n_channels == (i + 1) * n_channels) by (nonlinear_arith);
        }
        while c < n_channels
            invariant
                0 <= c <= n_channels,
                i * n_channels + n_channels <= samples@.len(),
                0 <= i,
                sum == chunk_sum(samples@, i * n_channels, c as nat),
                -0x8000 * (c as int) <= sum <= 0x7fff * (c as int),
            decreases n_channels - c,
        {
            let idx = i * n_channels + c;
            proof {
                assert(idx < samples@.len());
            }
            sum = sum + samples[idx] as i64;
            c += 1;
        }
        let mean: i64 = if sum >= 0 {
            sum / (n_channels as i64)
        } else {
            -((-sum) / (n_channels as i64))
        };
        proof {
            assert(mean as int == div_trunc(sum as int, n_channels as int));
            assert(-0x8000 <= mean <= 0x7fff) by (nonlinear_arith)
                requires
                    -0x8000 * (n_channels as int) <= sum as int <= 0x7fff * (n_channels as int),
                    mean as int == div_trunc(sum as int, n_channels as int),
                    1 <= n_channels <= 0xffff,
            ;
        }
        out.push(mean as i16);
        i += 1;
    }
    out
}

/// Reduce a mono stream into its envelope: the largest absolute value of
/// each full group of `SAMPLING_STEP` samples; a trailing incomplete group
/// is dropped.
pub fn envelope_groups(mono: &Vec<i16>) -> (r: Vec<u16>)
    ensures
        r@.len() == mono@.len() as int / SAMPLING_STEP as int,
        forall|g: int|
            0 <= g < r@.len() ==> (#[trigger] r@[g]) as int == chunk_max_abs(
                mono@,
                g * SAMPLING_STEP,
                SAMPLING_STEP as nat,
            ),
{
    let n_groups = mono.len() / SAMPLING_STEP;
    let mut out: Vec<u16> = Vec::new();
    let mut g: usize = 0;
    while g < n_groups
        invariant
            0 <= g <= n_groups,
            n_groups == mono@.len() as int / SAMPLING_STEP as int,
            out@.len() == g,
            forall|g2: int|
                0 <= g2 < g ==> (#[trigger] out@[g2]) as int == chunk_max_abs(
                    mono@,
                    g2 * SAMPLING_STEP,
                    SAMPLING_STEP as nat,
                ),
        decreases n_groups - g,
    {
        proof {
            assert((g + 1) * SAMPLING_STEP <= n_groups * SAMPLING_STEP <= mono@.len()) by (
            nonlinear_arith)
                requires
                    0 <= g < n_groups,
                    n_groups == mono@.len() as int / SAMPLING_STEP as int,
            ;
            assert(g * SAMPLING_STEP + SAMPLING_STEP == (g + 1) * SAMPLING_STEP) by (
            nonlinear_arith);
        }
        let mut best: u16 = 0;
        let mut c: usize = 0;
        while c < SAMPLING_STEP
            invariant
                0 <= c <= SAMPLING_STEP,
                g * SAMPLING_STEP + SAMPLING_STEP <= mono@.len(),
                0 <= g,
                best as int == chunk_max_abs(mono@, g * SAMPLING_STEP, c as nat),
            decreases SAMPLING_STEP - c,
        {
            let idx = g * SAMPLING_STEP + c;
            proof {
                assert(idx < mono@.len());
            }
            let v = mono[idx];
            let a: u16 = if v < 0 {
                if v == -0x8000 {
                    0x8000u16
                } else {
                    (-v) as u16
                }
            } else {
                v as u16
            };
            if a > best {
                best = a;
            }
            c += 1;
        }
        out.push(best);
        g += 1;
    }
    out
}

/// The absolute index of the first non-zero sample, if any.
pub fn first_nonzero_index(samples: &Vec<i16>) -> (r: Option<usize>)
    ensures
        match r {
            Some(i) => i < samples@.len() && samples@[i as int] != 0 && (forall|j: int|
                0 <= j < i ==> samples@[j] == 0),
            None => forall|j: int| 0 <= j < samples@.len() ==> samples@[j] == 0,
        },
{
    let n = samples.len();
    let mut i: usize = 0;
    while i < n
        invariant
            0 <= i <= n,
            forall|j: int| 0 <= j < i ==> samples@[j] == 0,
        decreases n - i,
    {
        if samples[i] != 0 {
            return Some(i);
        }
        i += 1;
    }
    None
}

/// One step of the first-transit probe: scan a decoded packet for its
/// first non-zero sample. A hit converts the absolute sample index to a
/// frame by dividing by the channel count; a miss advances the running
/// position by the packet length.
pub fn transit_step(current_pos: usize, samples: &Vec<i16>, n_channels: usize) -> (r: (
    Option<usize>,
    usize,
))
    requires
        n_channels >= 1,
        current_pos + samples@.len() <= usize::MAX,
    ensures
        match r.0 {
            Some(frame) => exists|i: int|
                0 <= i < samples@.len() && #[trigger] samples@[i] != 0 && (forall|j: int|
                    0 <= j < i ==> samples@[j] == 0) && frame == (current_pos + i) / (
                n_channels as int) && r.1 == current_pos,
            None => (forall|j: int| 0 <= j < samples@.len() ==> samples@[j] == 0) && r.1
                == current_pos + samples@.len(),
        },
{
    match first_nonzero_index(samples) {
        Some(i) => {
            let frame = (current_pos + i) / n_channels;
            proof {
                assert(samples@[i as int] != 0);
            }
            (Some(frame), current_pos)
        },
        None => (None, current_pos + samples.len()),
    }
}

} // verus!
