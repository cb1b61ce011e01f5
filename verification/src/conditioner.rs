//! Signal conditioning: mixes multi-channel PCM frames to mono, decimates to
//! a target sample rate, and applies a two-stage single-pole IIR band-pass
//! filter (high-pass near 20 Hz, low-pass near 5 kHz).
//!
//! The filter runs in exact fixed-point arithmetic: the high-pass coefficient
//! 0.98 and low-pass coefficient 0.2 become the integer fractions 98/100 and
//! 20/100, with quotients truncated toward zero.

use vstd::prelude::*;

use crate::numeric::{div_trunc, lemma_div_trunc_bound};

verus! {

/// Bound on the running filter state: 98/100 * (bound + 65536) <= bound.
pub const FILTER_STATE_BOUND: i64 = 3211264;

/// High-pass stage: `hp[n] = 0.98 * (hp[n-1] + x[n] - x[n-1])`, truncated.
pub open spec fn spec_filter_hp(x1: int, y1: int, x: int) -> int {
    div_trunc(98 * (y1 + x - x1), 100)
}

/// Low-pass stage: `lp[n] = 0.2 * hp[n] + 0.8 * lp[n-1]`, truncated.
pub open spec fn spec_filter_lp(y2: int, hp: int) -> int {
    div_trunc(20 * hp + 80 * y2, 100)
}

/// Saturates a value into the 16-bit signed sample range.
pub open spec fn clamp16(v: int) -> int {
    if v > 32767 {
        32767
    } else if v < -32768 {
        -32768
    } else {
        v
    }
}

/// Sum of the `k` samples starting at `start`.
pub open spec fn frame_sum(s: Seq<i16>, start: int, k: nat) -> int
    decreases k,
{
    if k == 0 {
        0
    } else {
        frame_sum(s, start, (k - 1) as nat) + s[start + k - 1]
    }
}

/// The mono value of the frame starting at `start`: the channel average,
/// with integer division truncating toward zero.
pub open spec fn frame_avg(s: Seq<i16>, start: int, channels: nat) -> int {
    div_trunc(frame_sum(s, start, channels), channels as int)
}

/// The conditioned output stream from position `pos` on, given the filter
/// state `(x1, y1, y2)`: for every output sample, `ratio` input frames are
/// consumed and only the last is used; the stream ends when no full block of
/// `ratio` frames remains.
pub open spec fn spec_conditioned(
    s: Seq<i16>,
    channels: nat,
    ratio: nat,
    pos: int,
    x1: int,
    y1: int,
    y2: int,
) -> Seq<i16>
    recommends
        channels >= 1,
        ratio >= 1,
        0 <= pos,
    decreases s.len() - pos
        when 0 <= pos && channels >= 1 && ratio >= 1
        via spec_conditioned_decreases
{
    if pos + ratio * channels <= s.len() {
        let x = frame_avg(s, pos + (ratio - 1) * channels, channels);
        let hp = spec_filter_hp(x1, y1, x);
        let lp = spec_filter_lp(y2, hp);
        seq![clamp16(lp) as i16] + spec_conditioned(
            s,
            channels,
            ratio,
            pos + ratio * channels,
            x,
            hp,
            lp,
        )
    } else {
        Seq::empty()
    }
}

/// The conditioned stream never holds more samples than remain in the input:
/// every output sample consumes at least one input sample.
pub proof fn lemma_conditioned_len(
    s: Seq<i16>,
    channels: nat,
    ratio: nat,
    pos: int,
    x1: int,
    y1: int,
    y2: int,
)
    requires
        channels >= 1,
        ratio >= 1,
        0 <= pos,
    ensures
        spec_conditioned(s, channels, ratio, pos, x1, y1, y2).len() <= s.len() - pos
            || spec_conditioned(s, channels, ratio, pos, x1, y1, y2).len() == 0,
    decreases s.len() - pos,
{
    assert(ratio * channels >= 1) by (nonlinear_arith)
        requires
            ratio >= 1,
            channels >= 1,
    ;
    if pos + ratio * channels <= s.len() {
        let x = frame_avg(s, pos + (ratio - 1) * channels, channels);
        let hp = spec_filter_hp(x1, y1, x);
        let lp = spec_filter_lp(y2, hp);
        lemma_conditioned_len(s, channels, ratio, pos + ratio * channels, x, hp, lp);
    }
}

#[via_fn]
proof fn spec_conditioned_decreases(
    s: Seq<i16>,
    channels: nat,
    ratio: nat,
    pos: int,
    x1: int,
    y1: int,
    y2: int,
) {
    assert(ratio * channels >= 1) by (nonlinear_arith)
        requires
            ratio >= 1,
            channels >= 1,
    ;
}

/// A pull-based source of band-pass-filtered mono samples at the target
/// sample rate, backed by a decoded PCM clip of interleaved frames.
///
/// The stream is finite and non-restartable: consuming it twice requires a
/// new source.
pub struct BandpassFilterMonoSource {
    pub samples: Vec<i16>,
    pub pos: usize,
    pub channels: u16,
    pub original_sample_rate: u32,
    pub target_sample_rate: u32,
    pub downsample_ratio: usize,
    pub x1: i64,
    pub y1: i64,
    pub y2: i64,
}

impl BandpassFilterMonoSource {
    pub open spec fn spec_samples(self) -> Seq<i16> {
        self.samples@
    }

    pub open spec fn spec_pos(self) -> int {
        self.pos as int
    }

    pub open spec fn spec_channels(self) -> nat {
        self.channels as nat
    }

    pub open spec fn spec_ratio(self) -> nat {
        self.downsample_ratio as nat
    }

    pub open spec fn spec_filter_state(self) -> (int, int, int) {
        (self.x1 as int, self.y1 as int, self.y2 as int)
    }

    /// The samples this source has yet to emit.
    pub open spec fn spec_remaining(self) -> Seq<i16> {
        spec_conditioned(
            self.samples@,
            self.channels as nat,
            self.downsample_ratio as nat,
            self.pos as int,
            self.x1 as int,
            self.y1 as int,
            self.y2 as int,
        )
    }

    pub open spec fn wf(self) -> bool {
        &&& self.channels >= 1
        &&& self.target_sample_rate >= 1
        &&& self.downsample_ratio == self.original_sample_rate as int / self.target_sample_rate as int
        &&& 1 <= self.downsample_ratio <= 0xffff_ffff
        &&& self.pos <= self.samples@.len()
        &&& -32768 <= self.x1 <= 32767
        &&& -FILTER_STATE_BOUND <= self.y1 <= FILTER_STATE_BOUND
        &&& -FILTER_STATE_BOUND <= self.y2 <= FILTER_STATE_BOUND
    }

    /// The configuration another stage reads off the source.
    pub open spec fn spec_config_of(self, other: Self) -> bool {
        &&& self.samples@ == other.samples@
        &&& self.channels == other.channels
        &&& self.original_sample_rate == other.original_sample_rate
        &&& self.target_sample_rate == other.target_sample_rate
        &&& self.downsample_ratio == other.downsample_ratio
    }

    /// Builds a conditioner over a decoded clip of interleaved PCM frames.
    ///
    /// The downsample ratio truncates: if the source rate is not evenly
    /// divisible by the target rate the residual drift is accepted.
    pub fn new(
        samples: Vec<i16>,
        channels: u16,
        original_sample_rate: u32,
        target_sample_rate: u32,
    ) -> (r: Self)
        requires
            channels >= 1,
            target_sample_rate >= 1,
            original_sample_rate >= target_sample_rate,
        ensures
            r.wf(),
            r.spec_samples() == samples@,
            r.spec_pos() == 0,
            r.spec_channels() == channels as nat,
            r.spec_ratio() == original_sample_rate as int / target_sample_rate as int,
            r.spec_filter_state() == (0int, 0int, 0int),
            r.spec_sample_rate() == target_sample_rate,
            r.spec_original_sample_rate() == original_sample_rate,
    {
        proof {
            assert(original_sample_rate as int / target_sample_rate as int >= 1)
                by (nonlinear_arith)
                requires
                    original_sample_rate >= target_sample_rate >= 1,
            ;
        }
        let downsample_ratio = (original_sample_rate / target_sample_rate) as usize;
        BandpassFilterMonoSource {
            samples,
            pos: 0,
            channels,
            original_sample_rate,
            target_sample_rate,
            downsample_ratio,
            x1: 0,
            y1: 0,
            y2: 0,
        }
    }

    pub open spec fn spec_sample_rate(self) -> u32 {
        self.target_sample_rate
    }

    pub open spec fn spec_original_sample_rate(self) -> u32 {
        self.original_sample_rate
    }

    /// The output rate of the conditioned stream.
    pub fn sample_rate(&self) -> (r: u32)
        ensures
            r == self.spec_sample_rate(),
    {
        self.target_sample_rate
    }

    /// The conditioned stream is always mono.
    pub fn channels(&self) -> (r: u16)
        ensures
            r == 1,
    {
        1
    }

    /// Applies the two-stage band-pass filter to one mono sample and updates
    /// the filter state.
    fn filter(&mut self, x: i64) -> (r: i16)
        requires
            old(self).wf(),
            -32768 <= x <= 32767,
        ensures
            final(self).wf(),
            final(self).spec_config_of(*old(self)),
            final(self).pos == old(self).pos,
            ({
                let hp = spec_filter_hp(old(self).x1 as int, old(self).y1 as int, x as int);
                let lp = spec_filter_lp(old(self).y2 as int, hp);
                &&& final(self).x1 == x
                &&& final(self).y1 == hp
                &&& final(self).y2 == lp
                &&& r == clamp16(lp)
            }),
    {
        let t = self.y1 + x - self.x1;
        proof {
            lemma_div_trunc_bound(98 * t, 100, 98 * (FILTER_STATE_BOUND + 65535));
        }
        let hp = crate::numeric::mul_div_trunc(t, 98, 100);
        let u = 20 * hp + 80 * self.y2;
        proof {
            lemma_div_trunc_bound(u as int, 100, 100 * FILTER_STATE_BOUND);
        }
        let lp = crate::numeric::mul_div_trunc(u, 1, 100);
        self.x1 = x;
        self.y1 = hp;
        self.y2 = lp;
        if lp > 32767 {
            32767
        } else if lp < -32768 {
            -32768
        } else {
            lp as i16
        }
    }

    /// Averages the `channels` samples of the frame starting at `start`.
    fn average_frame(&self, start: usize) -> (r: i64)
        requires
            self.wf(),
            start + self.channels <= self.samples@.len(),
        ensures
            r == frame_avg(self.samples@, start as int, self.channels as nat),
            -32768 <= r <= 32767,
    {
        let channels = self.channels as usize;
        let n = self.samples.len();
        let mut sum: i64 = 0;
        let mut k: usize = 0;
        while k < channels
            invariant
                self.wf(),
                channels == self.channels as usize,
                n == self.samples@.len(),
                start + channels <= n,
                0 <= k <= channels,
                sum == frame_sum(self.samples@, start as int, k as nat),
                -32768 * k <= sum <= 32767 * k,
            decreases channels - k,
        {
            sum = sum + self.samples[start + k] as i64;
            k = k + 1;
        }
        proof {
            lemma_div_trunc_bound(sum as int, channels as int, 32768 * channels);
            assert((32768 * channels) as int / (channels as int) == 32768) by (nonlinear_arith)
                requires
                    channels >= 1,
            ;
        }
        let avg = crate::numeric::mul_div_trunc(sum, 1, self.channels as u64);
        proof {
            assert(-32768 <= avg <= 32767) by {
                assert(frame_avg(self.samples@, start as int, self.channels as nat) == div_trunc(
                    sum as int,
                    channels as int,
                ));
                if sum >= 0 {
                    vstd::arithmetic::div_mod::lemma_div_is_ordered(
                        sum as int,
                        32767 * channels,
                        channels as int,
                    );
                    assert((32767 * channels) as int / (channels as int) == 32767)
                        by (nonlinear_arith)
                        requires
                            channels >= 1,
                    ;
                }
            }
        }
        avg
    }

    /// Emits the next conditioned mono sample, consuming `ratio` input frames
    /// and using only the last; returns `None`, exhausting the source, when
    /// no full block of frames remains.
    pub fn next_sample(&mut self) -> (r: Option<i16>)
        requires
            old(self).wf(),
        ensures
            final(self).wf(),
            final(self).spec_config_of(*old(self)),
            ({
                let s = old(self).samples@;
                let channels = old(self).channels as nat;
                let ratio = old(self).downsample_ratio as nat;
                let pos = old(self).pos as int;
                if pos + ratio * channels <= s.len() {
                    let x = frame_avg(s, pos + (ratio - 1) * channels, channels);
                    let hp = spec_filter_hp(old(self).x1 as int, old(self).y1 as int, x);
                    let lp = spec_filter_lp(old(self).y2 as int, hp);
                    &&& r == Some(clamp16(lp) as i16)
                    &&& final(self).pos == pos + ratio * channels
                    &&& final(self).x1 == x
                    &&& final(self).y1 == hp
                    &&& final(self).y2 == lp
                } else {
                    &&& r is None
                    &&& final(self).pos == s.len()
                    &&& final(self).x1 == old(self).x1
                    &&& final(self).y1 == old(self).y1
                    &&& final(self).y2 == old(self).y2
                }
            }),
    {
        proof {
            let ratio = self.downsample_ratio as int;
            let chans = self.channels as int;
            assert(0 <= ratio * chans <= 0xffff_ffffint * 0x1_0000int && (ratio - 1) * chans + chans
                == ratio * chans && 0 <= (ratio - 1) * chans) by (nonlinear_arith)
                requires
                    1 <= ratio <= 0xffff_ffff,
                    1 <= chans <= 0x1_0000,
            ;
        }
        let need = self.downsample_ratio as u64 * self.channels as u64;
        let available = (self.samples.len() - self.pos) as u64;
        if available < need {
            self.pos = self.samples.len();
            return None;
        }
        let start = self.pos + (self.downsample_ratio - 1) * self.channels as usize;
        let x = self.average_frame(start);
        let out = self.filter(x);
        self.pos = self.pos + self.downsample_ratio * self.channels as usize;
        Some(out)
    }

    /// Drains the source, returning every remaining conditioned sample in
    /// order.
    pub fn collect_conditioned(&mut self) -> (out: Vec<i16>)
        requires
            old(self).wf(),
        ensures
            final(self).wf(),
            final(self).spec_config_of(*old(self)),
            out@ == old(self).spec_remaining(),
            final(self).spec_remaining() == Seq::<i16>::empty(),
    {
        let mut out: Vec<i16> = Vec::new();
        loop
            invariant
                self.wf(),
                self.spec_config_of(*old(self)),
                old(self).spec_remaining() == out@ + self.spec_remaining(),
            ensures
                self.wf(),
                self.spec_config_of(*old(self)),
                out@ == old(self).spec_remaining(),
                self.spec_remaining() == Seq::<i16>::empty(),
            decreases self.samples@.len() - self.pos,
        {
            let ghost before = *self;
            match self.next_sample() {
                Some(s) => {
                    proof {
                        assert(before.downsample_ratio * before.channels >= 1) by (nonlinear_arith)
                            requires
                                before.downsample_ratio >= 1,
                                before.channels >= 1,
                        ;
                        assert(before.spec_remaining() == seq![s] + self.spec_remaining());
                    }
                    out.push(s);
                    proof {
                        assert(old(self).spec_remaining() == out@ + self.spec_remaining());
                    }
                },
                None => {
                    proof {
                        assert(before.spec_remaining() == Seq::<i16>::empty());
                        assert(out@ + Seq::<i16>::empty() == out@);
                    }
                    break ;
                },
            }
        }
        out
    }
}

} // verus!
