//! Reduction of an interleaved block of 16-bit samples to one loudness
//! measurement per channel.
//!
//! A measurement is kept exact: the sum of the squared samples of a channel
//! together with the number of frames it was taken over. The mean square of a
//! channel is `energy / frames`, and its level relative to full scale is
//! `10 * log10(energy / (frames * FULL_SCALE * FULL_SCALE))` decibels.

use vstd::prelude::*;

verus! {

/// Largest sample magnitude that counts as full scale.
pub const FULL_SCALE: u128 = 32767;

/// What one channel of one block amounts to.
#[derive(Clone, Copy, Debug, PartialEq, Eq, Structural)]
pub enum Loudness {
    /// No energy at all: every sample of the channel is zero, or the block is empty.
    Silence,
    /// `energy` is the sum of the squared samples over `frames` frames; it is positive.
    Power { energy: u128, frames: usize },
}

impl Loudness {
    /// What holds of every measurement that a reduction gives: one with
    /// energy was taken over at least one frame, and has no more energy than
    /// its frames can hold.
    pub open spec fn wf(self) -> bool {
        match self {
            Loudness::Silence => true,
            Loudness::Power { energy, frames } => 0 < energy <= frames * 0x4000_0000 && frames > 0,
        }
    }
}

/// Why a block cannot be reduced.
#[derive(Clone, Copy, Debug, PartialEq, Eq, Structural)]
pub enum ReduceError {
    /// The channel count is zero.
    NoChannels,
    /// The block's length is not a multiple of the channel count.
    PartialFrame,
}

/// Square of one sample.
pub open spec fn sample_power(s: i16) -> nat {
    (s as int * s as int) as nat
}

/// The sample of channel `ch` in frame `frame` of `block`, which interleaves
/// `channels` channels: a frame is `channels` neighbouring samples, one for
/// each channel in channel order, and the frames follow one another.
pub open spec fn sample_at(block: Seq<i16>, channels: nat, frame: nat, ch: nat) -> i16 {
    block[(frame * channels + ch) as int]
}

/// Sum of the squared samples of channel `ch` over the first `frames` frames
/// of `block`, which interleaves `channels` channels.
pub open spec fn channel_energy(block: Seq<i16>, channels: nat, ch: nat, frames: nat) -> nat
    decreases frames,
{
    if frames == 0 {
        0
    } else {
        channel_energy(block, channels, ch, (frames - 1) as nat) + sample_power(
            sample_at(block, channels, (frames - 1) as nat, ch),
        )
    }
}

/// The measurement that stands for `energy` gathered over `frames` frames.
pub open spec fn loudness_of(energy: nat, frames: nat) -> Loudness {
    if energy == 0 {
        Loudness::Silence
    } else {
        Loudness::Power { energy: energy as u128, frames: frames as usize }
    }
}

/// The reduction of `block` for `channels` interleaved channels.
pub open spec fn reduction(block: Seq<i16>, channels: nat) -> Result<Seq<Loudness>, ReduceError> {
    if channels == 0 {
        Err(ReduceError::NoChannels)
    } else if block.len() % channels != 0 {
        Err(ReduceError::PartialFrame)
    } else {
        Ok(
            Seq::new(
                channels,
                |ch: int|
                    loudness_of(
                        channel_energy(block, channels, ch as nat, block.len() / channels),
                        block.len() / channels,
                    ),
            ),
        )
    }
}

/// A reducer's result with the vector replaced by its view.
pub open spec fn outcome(r: Result<Vec<Loudness>, ReduceError>) -> Result<
    Seq<Loudness>,
    ReduceError,
> {
    match r {
        Ok(v) => Ok(v@),
        Err(e) => Err(e),
    }
}

/// Every sample of the block is zero.
pub open spec fn all_zero(block: Seq<i16>) -> bool {
    forall|i: int| 0 <= i < block.len() ==> block[i] == 0
}

/// Every sample of the block is at full scale, positive or negative.
pub open spec fn all_full_scale(block: Seq<i16>) -> bool {
    forall|i: int| 0 <= i < block.len() ==> (#[trigger] block[i] == 32767 || block[i] == -32767)
}

/// The sample of channel `ch` in frame `f` lies within the first `frames`
/// frames.
proof fn lemma_frame_index(f: nat, frames: nat, channels: nat, ch: nat)
    requires
        f < frames,
        ch < channels,
    ensures
        f * channels + ch < frames * channels,
        (f + 1) * channels <= frames * channels,
{
    assert((f + 1) * channels == f * channels + channels) by (nonlinear_arith);
    assert((f + 1) * channels <= frames * channels) by (nonlinear_arith)
        requires
            f + 1 <= frames,
    ;
}

/// The square of a sample: its bound, when it is zero, and what it is at
/// full scale.
proof fn lemma_power_bound(s: i16)
    ensures
        sample_power(s) == s as int * s as int,
        sample_power(s) <= 0x4000_0000,
        (s == 0) <==> sample_power(s) == 0,
        (s == 32767 || s == -32767) ==> sample_power(s) == FULL_SCALE * FULL_SCALE,
{
    let x = s as int;
    assert(0 <= x * x <= 0x4000_0000) by (nonlinear_arith)
        requires
            -32768 <= x <= 32767,
    ;
    assert(x != 0 ==> x * x > 0) by (nonlinear_arith);
    assert(32767 * 32767 == (-32767) * (-32767)) by (nonlinear_arith);
}

/// The energy gathered over `frames` frames is at most `frames` times the
/// largest square of a sample.
pub proof fn lemma_energy_bound(block: Seq<i16>, channels: nat, ch: nat, frames: nat)
    ensures
        channel_energy(block, channels, ch, frames) <= frames * 0x4000_0000,
    decreases frames,
{
    if frames > 0 {
        lemma_energy_bound(block, channels, ch, (frames - 1) as nat);
        lemma_power_bound(block[(frames - 1) * channels + ch]);
        assert((frames - 1) * 0x4000_0000 + 0x4000_0000 == frames * 0x4000_0000)
            by (nonlinear_arith);
    }
}

/// A block of zeros has no energy in any channel.
pub proof fn lemma_zero_block_energy(block: Seq<i16>, channels: nat, ch: nat, frames: nat)
    requires
        all_zero(block),
        ch < channels,
        frames * channels <= block.len(),
    ensures
        channel_energy(block, channels, ch, frames) == 0,
    decreases frames,
{
    if frames > 0 {
        lemma_frame_index((frames - 1) as nat, frames, channels, ch);
        assert((frames - 1) * channels <= frames * channels) by (nonlinear_arith);
        lemma_zero_block_energy(block, channels, ch, (frames - 1) as nat);
        lemma_power_bound(block[(frames - 1) * channels + ch]);
    }
}

/// A block at full scale has, in every channel, the energy of full scale in
/// each frame: its root mean square is exactly `FULL_SCALE`.
pub proof fn lemma_full_scale_energy(block: Seq<i16>, channels: nat, ch: nat, frames: nat)
    requires
        all_full_scale(block),
        ch < channels,
        frames * channels <= block.len(),
    ensures
        channel_energy(block, channels, ch, frames) == frames * (FULL_SCALE * FULL_SCALE),
    decreases frames,
{
    let unit: int = FULL_SCALE * FULL_SCALE;
    if frames > 0 {
        lemma_frame_index((frames - 1) as nat, frames, channels, ch);
        assert((frames - 1) * channels <= frames * channels) by (nonlinear_arith);
        lemma_full_scale_energy(block, channels, ch, (frames - 1) as nat);
        let s = block[(frames - 1) * channels + ch];
        assert(s == 32767 || s == -32767);
        lemma_power_bound(s);
        assert((frames - 1) * unit + unit == frames * unit) by (nonlinear_arith);
    } else {
        assert(frames * unit == 0) by (nonlinear_arith)
            requires
                frames == 0,
        ;
    }
}

/// Every sample of the block is at full scale or at the one value beyond it.
pub open spec fn at_least_full_scale(block: Seq<i16>) -> bool {
    forall|i: int| 0 <= i < block.len() ==> (#[trigger] block[i] == 32767 || block[i] <= -32767)
}

/// A block whose every sample is at full scale or beyond has, in every
/// channel, at least the energy of full scale in each frame, and less than a
/// part in ten thousand more: its level is zero decibels to within a
/// thousandth of a decibel.
pub proof fn lemma_full_scale_or_beyond(block: Seq<i16>, channels: nat, ch: nat, frames: nat)
    requires
        at_least_full_scale(block),
        ch < channels,
        frames * channels <= block.len(),
    ensures
        channel_energy(block, channels, ch, frames) >= frames * (FULL_SCALE * FULL_SCALE),
        channel_energy(block, channels, ch, frames) * 10000 <= frames * (FULL_SCALE * FULL_SCALE)
            * 10001,
    decreases frames,
{
    let unit: int = FULL_SCALE * FULL_SCALE;
    if frames > 0 {
        lemma_frame_index((frames - 1) as nat, frames, channels, ch);
        assert((frames - 1) * channels <= frames * channels) by (nonlinear_arith);
        lemma_full_scale_or_beyond(block, channels, ch, (frames - 1) as nat);
        let s = block[(frames - 1) * channels + ch];
        assert(s == 32767 || s <= -32767);
        lemma_power_bound(s);
        let x = s as int;
        assert(x * x >= 32767 * 32767) by (nonlinear_arith)
            requires
                x == 32767 || (-32768 <= x <= -32767),
        ;
        assert(x * x <= 32768 * 32768) by (nonlinear_arith)
            requires
                x == 32767 || (-32768 <= x <= -32767),
        ;
        assert((frames - 1) * unit + unit == frames * unit) by (nonlinear_arith);
        assert((frames - 1) * unit * 10001 + unit * 10001 == frames * unit * 10001)
            by (nonlinear_arith);
    } else {
        assert(frames * unit == 0 && frames * unit * 10001 == 0) by (nonlinear_arith)
            requires
                frames == 0,
        ;
    }
}

/// No sample of the block is the one value beyond full scale.
pub open spec fn within_full_scale(block: Seq<i16>) -> bool {
    forall|i: int| 0 <= i < block.len() ==> #[trigger] block[i] > -32768
}

/// A block within full scale has, in every channel, at most the energy of
/// full scale in each frame: its level is at most zero decibels.
pub proof fn lemma_never_above_full_scale(block: Seq<i16>, channels: nat, ch: nat, frames: nat)
    requires
        within_full_scale(block),
        ch < channels,
        frames * channels <= block.len(),
    ensures
        channel_energy(block, channels, ch, frames) <= frames * (FULL_SCALE * FULL_SCALE),
    decreases frames,
{
    let unit: int = FULL_SCALE * FULL_SCALE;
    if frames > 0 {
        lemma_frame_index((frames - 1) as nat, frames, channels, ch);
        assert((frames - 1) * channels <= frames * channels) by (nonlinear_arith);
        lemma_never_above_full_scale(block, channels, ch, (frames - 1) as nat);
        let s = block[(frames - 1) * channels + ch];
        assert(s > -32768);
        lemma_power_bound(s);
        let x = s as int;
        assert(x * x <= 32767 * 32767) by (nonlinear_arith)
            requires
                -32767 <= x <= 32767,
        ;
        assert((frames - 1) * unit + unit == frames * unit) by (nonlinear_arith);
    } else {
        assert(frames * unit == 0) by (nonlinear_arith)
            requires
                frames == 0,
        ;
    }
}

/// Sums the squared samples of channel `ch` over all frames of `block`.
fn sum_channel(block: &[i16], channels: usize, ch: usize, frames: usize) -> (energy: u128)
    requires
        ch < channels,
        frames * channels == block.len(),
    ensures
        energy == channel_energy(block@, channels as nat, ch as nat, frames as nat),
{
    let mut energy: u128 = 0;
    let mut f: usize = 0;
    while f < frames
        invariant
            f <= frames,
            ch < channels,
            frames * channels == block.len(),
            energy == channel_energy(block@, channels as nat, ch as nat, f as nat),
        decreases frames - f,
    {
        proof {
            lemma_frame_index(f as nat, frames as nat, channels as nat, ch as nat);
            lemma_energy_bound(block@, channels as nat, ch as nat, f as nat);
            lemma_power_bound(block@[f * channels + ch]);
            assert(f * 0x4000_0000 + 0x4000_0000 < 0x1_0000_0000_0000_0000 * 0x8000_0000)
                by (nonlinear_arith)
                requires
                    f < 0x1_0000_0000_0000_0000,
            ;
        }
        let s: i64 = block[f * channels + ch] as i64;
        let power: u128 = (s * s) as u128;
        energy = energy + power;
        f = f + 1;
    }
    energy
}

/// Reduces an interleaved block to one measurement per channel.
///
/// Fails with `NoChannels` when `channels` is zero and with `PartialFrame`
/// when the block's length is not a multiple of `channels`; otherwise gives,
/// for each channel, the exact energy of its samples over the block's frames,
/// or `Silence` where that energy is zero. An empty block is silent.
pub fn reduce(block: &[i16], channels: usize) -> (r: Result<Vec<Loudness>, ReduceError>)
    ensures
        outcome(r) == reduction(block@, channels as nat),
        r is Err <==> channels == 0 || block.len() % channels != 0,
        r is Ok ==> forall|ch: int| 0 <= ch < channels ==> (#[trigger] r->Ok_0@[ch]).wf(),
        r is Ok && all_zero(block@) ==> forall|ch: int|
            0 <= ch < channels ==> r->Ok_0@[ch] == Loudness::Silence,
        r is Ok && all_full_scale(block@) && block.len() > 0 ==> forall|ch: int|
            0 <= ch < channels ==> r->Ok_0@[ch] == (Loudness::Power {
                energy: ((block.len() / channels) as u128 * FULL_SCALE * FULL_SCALE) as u128,
                frames: (block.len() / channels) as usize,
            }),
{
    if channels == 0 {
        return Err(ReduceError::NoChannels);
    }
    if block.len() % channels != 0 {
        return Err(ReduceError::PartialFrame);
    }
    let frames: usize = block.len() / channels;
    proof {
        vstd::arithmetic::div_mod::lemma_fundamental_div_mod(block.len() as int, channels as int);
        assert(frames * channels == channels * frames) by (nonlinear_arith);
    }
    let mut levels: Vec<Loudness> = Vec::new();
    let mut ch: usize = 0;
    while ch < channels
        invariant
            ch <= channels,
            frames * channels == block.len(),
            frames == block.len() / channels,
            levels.len() == ch,
            forall|c: int|
                0 <= c < ch ==> levels@[c] == loudness_of(
                    channel_energy(block@, channels as nat, c as nat, frames as nat),
                    frames as nat,
                ),
        decreases channels - ch,
    {
        let energy = sum_channel(block, channels, ch, frames);
        let level = if energy == 0 {
            Loudness::Silence
        } else {
            Loudness::Power { energy, frames }
        };
        levels.push(level);
        ch = ch + 1;
    }
    proof {
        let want = reduction(block@, channels as nat);
        assert(want is Ok);
        assert(levels@ =~= want->Ok_0);
        assert forall|c: int| 0 <= c < channels implies (#[trigger] levels@[c]).wf() by {
            lemma_energy_bound(block@, channels as nat, c as nat, frames as nat);
            assert(0 * 0x4000_0000 == 0);
        }
        if all_zero(block@) {
            assert forall|c: int| 0 <= c < channels implies levels@[c] == Loudness::Silence by {
                lemma_zero_block_energy(block@, channels as nat, c as nat, frames as nat);
            }
        }
        if all_full_scale(block@) && block.len() > 0 {
            assert(frames > 0) by (nonlinear_arith)
                requires
                    frames * channels > 0,
                    channels > 0,
            ;
            assert(frames * (FULL_SCALE * FULL_SCALE) == frames as u128 * FULL_SCALE * FULL_SCALE)
                by (nonlinear_arith);
            assert(frames * (FULL_SCALE * FULL_SCALE) > 0) by (nonlinear_arith)
                requires
                    frames > 0,
                    FULL_SCALE == 32767,
            ;
            assert forall|c: int| 0 <= c < channels implies levels@[c] == (Loudness::Power {
                energy: (frames as u128 * FULL_SCALE * FULL_SCALE) as u128,
                frames,
            }) by {
                lemma_full_scale_energy(block@, channels as nat, c as nat, frames as nat);
                lemma_energy_bound(block@, channels as nat, c as nat, frames as nat);
            }
        }
    }
    Ok(levels)
}

/// Reduction is a function of the block and the channel count alone: two
/// results of reducing equal blocks for the same channel count are equal,
/// whenever and wherever they were computed.
pub proof fn lemma_reduce_deterministic(
    block: Seq<i16>,
    again: Seq<i16>,
    channels: nat,
    first: Result<Vec<Loudness>, ReduceError>,
    second: Result<Vec<Loudness>, ReduceError>,
)
    requires
        block == again,
        outcome(first) == reduction(block, channels),
        outcome(second) == reduction(again, channels),
    ensures
        outcome(first) == outcome(second),
{
}

/// A block is rejected exactly where its length is no multiple of the
/// channel count, or where there is no channel.
pub proof fn lemma_rejects_partial_frames(block: Seq<i16>, channels: nat)
    ensures
        channels > 0 && block.len() % channels != 0 ==> reduction(block, channels) == Err::<
            Seq<Loudness>,
            ReduceError,
        >(ReduceError::PartialFrame),
        channels > 0 && block.len() % channels == 0 ==> reduction(block, channels) is Ok
            && reduction(block, channels)->Ok_0.len() == channels,
        channels == 0 ==> reduction(block, channels) == Err::<Seq<Loudness>, ReduceError>(
            ReduceError::NoChannels,
        ),
{
}

} // verus!
