//! The capture side: what to make of one blocking read.
//!
//! The loop itself runs outside this library. Before each read it asks
//! `CaptureLoop::begin` whether to go on; it then reads a block from the
//! device, hands the block and the outcome of the read to
//! `CaptureLoop::take`, and sends what comes back into the level channels,
//! dropping what a full channel refuses. A request to stop ends the loop
//! before the next read; a failed or short read ends it for good.

use crate::reducer::reduce;
use crate::reducer::reduction;
use crate::reducer::Loudness;
use crate::reducer::ReduceError;
use vstd::prelude::*;

verus! {

/// Why the capture loop ends.
#[derive(Clone, Copy, Debug, PartialEq, Eq, Structural)]
pub enum CaptureError {
    /// The device failed to read.
    Device,
    /// The device gave fewer frames than fill the block.
    ShortRead,
    /// The block does not suit the channel count.
    Block(ReduceError),
}

/// What a read comes to. `read` is the number of frames the device gave, one
/// sample for each channel in a frame, or `None` where it failed.
pub open spec fn captured(block: Seq<i16>, channels: nat, read: Option<usize>) -> Result<
    Seq<Loudness>,
    CaptureError,
> {
    match read {
        None => Err(CaptureError::Device),
        Some(frames) => if frames * channels < block.len() {
            Err(CaptureError::ShortRead)
        } else {
            match reduction(block, channels) {
                Ok(levels) => Ok(levels),
                Err(e) => Err(CaptureError::Block(e)),
            }
        },
    }
}

/// A capture step's result with the vector replaced by its view.
pub open spec fn step_outcome(r: Result<Vec<Loudness>, CaptureError>) -> Result<
    Seq<Loudness>,
    CaptureError,
> {
    match r {
        Ok(v) => Ok(v@),
        Err(e) => Err(e),
    }
}

/// Decides what one read amounts to. A failed read and a short read are
/// fatal, in this order; a full block is reduced to one measurement per
/// channel, and a block that cannot be reduced is fatal too.
pub fn capture_step(block: &[i16], channels: usize, read: Option<usize>) -> (r: Result<
    Vec<Loudness>,
    CaptureError,
>)
    ensures
        step_outcome(r) == captured(block@, channels as nat, read),
{
    match read {
        None => Err(CaptureError::Device),
        Some(frames) => {
            assert(frames * channels <= 0xFFFF_FFFF_FFFF_FFFF * 0xFFFF_FFFF_FFFF_FFFF)
                by (nonlinear_arith)
                requires
                    frames <= 0xFFFF_FFFF_FFFF_FFFF,
                    channels <= 0xFFFF_FFFF_FFFF_FFFF,
            ;
            let samples: u128 = (frames as u128) * (channels as u128);
            if samples < block.len() as u128 {
                Err(CaptureError::ShortRead)
            } else {
                match reduce(block, channels) {
                    Ok(levels) => Ok(levels),
                    Err(e) => Err(CaptureError::Block(e)),
                }
            }
        },
    }
}

/// Where the capture loop stands.
#[derive(Clone, Copy, Debug, PartialEq, Eq, Structural)]
pub enum CapturePhase {
    /// Reading block after block.
    Running,
    /// Ended on request.
    Stopped,
    /// Ended by a fatal error.
    Failed(CaptureError),
}

/// The phase after the loop was asked, in `phase`, whether to read again.
pub open spec fn phase_on_begin(phase: CapturePhase, stop_requested: bool) -> CapturePhase {
    if phase == CapturePhase::Running && stop_requested {
        CapturePhase::Stopped
    } else {
        phase
    }
}

/// Whether the loop, asked in `phase`, reads again.
pub open spec fn reads_on(phase: CapturePhase, stop_requested: bool) -> bool {
    phase == CapturePhase::Running && !stop_requested
}

/// The phase after the loop was handed, in `phase`, the outcome of a read.
pub open spec fn phase_on_read(
    phase: CapturePhase,
    block: Seq<i16>,
    channels: nat,
    read: Option<usize>,
) -> CapturePhase {
    if phase == CapturePhase::Running {
        match captured(block, channels, read) {
            Ok(_) => CapturePhase::Running,
            Err(e) => CapturePhase::Failed(e),
        }
    } else {
        phase
    }
}

/// What the loop, in `phase`, has to send after a read: the measurements of
/// a good read while it runs, and nothing otherwise.
pub open spec fn sent_on_read(
    phase: CapturePhase,
    block: Seq<i16>,
    channels: nat,
    read: Option<usize>,
) -> Option<Seq<Loudness>> {
    if phase == CapturePhase::Running {
        match captured(block, channels, read) {
            Ok(levels) => Some(levels),
            Err(_) => None,
        }
    } else {
        None
    }
}

/// The capture loop's state.
pub struct CaptureLoop {
    phase: CapturePhase,
}

impl CaptureLoop {
    /// Where the loop stands.
    pub closed spec fn phase(self) -> CapturePhase {
        self.phase
    }

    /// A running loop.
    pub fn new() -> (capture: CaptureLoop)
        ensures
            capture.phase() == CapturePhase::Running,
    {
        CaptureLoop { phase: CapturePhase::Running }
    }

    /// Asked before each read: `true` where the loop is to read another
    /// block. A running loop goes on unless a stop is requested, which ends
    /// it; a loop that has ended reads no more.
    pub fn begin(&mut self, stop_requested: bool) -> (read_on: bool)
        ensures
            final(self).phase() == phase_on_begin(old(self).phase(), stop_requested),
            read_on == reads_on(old(self).phase(), stop_requested),
    {
        match self.phase {
            CapturePhase::Running => {
                if stop_requested {
                    self.phase = CapturePhase::Stopped;
                    false
                } else {
                    true
                }
            },
            _ => false,
        }
    }

    /// Takes the outcome of a read. While the loop runs, a good read gives
    /// the measurements to send, one for each channel, and any failure ends
    /// the loop with its error; a loop that has ended gives nothing and
    /// stays as it is.
    pub fn take(&mut self, block: &[i16], channels: usize, read: Option<usize>) -> (levels: Option<
        Vec<Loudness>,
    >)
        ensures
            final(self).phase() == phase_on_read(old(self).phase(), block@, channels as nat, read),
            match levels {
                Some(v) => sent_on_read(old(self).phase(), block@, channels as nat, read) == Some(
                    v@,
                ),
                None => sent_on_read(old(self).phase(), block@, channels as nat, read) is None,
            },
    {
        match self.phase {
            CapturePhase::Running => match capture_step(block, channels, read) {
                Ok(levels) => Some(levels),
                Err(e) => {
                    self.phase = CapturePhase::Failed(e);
                    None
                },
            },
            _ => None,
        }
    }

    /// The error that ended the loop, if one did.
    pub fn failure(&self) -> (error: Option<CaptureError>)
        ensures
            error == match self.phase() {
                CapturePhase::Failed(e) => Some(e),
                _ => None,
            },
    {
        match self.phase {
            CapturePhase::Failed(e) => Some(e),
            _ => None,
        }
    }
}

/// A loop that has ended stays ended: whatever it is asked or handed
/// afterwards, it reads no more, sends nothing, and keeps its phase and the
/// error that ended it.
pub proof fn lemma_capture_ends_for_good(
    phase: CapturePhase,
    stop_requested: bool,
    block: Seq<i16>,
    channels: nat,
    read: Option<usize>,
)
    requires
        phase != CapturePhase::Running,
    ensures
        !reads_on(phase, stop_requested),
        phase_on_begin(phase, stop_requested) == phase,
        phase_on_read(phase, block, channels, read) == phase,
        sent_on_read(phase, block, channels, read) is None,
{
}

/// A running loop fails exactly on a failed read, a short read and a block
/// that cannot be reduced, and on nothing else.
pub proof fn lemma_capture_fails_only_on_errors(block: Seq<i16>, channels: nat, read: Option<usize>)
    ensures
        phase_on_read(CapturePhase::Running, block, channels, read) == CapturePhase::Running <==> {
            &&& read is Some
            &&& read->Some_0 * channels >= block.len()
            &&& channels > 0
            &&& block.len() % channels == 0
        },
        read is None ==> phase_on_read(CapturePhase::Running, block, channels, read)
            == CapturePhase::Failed(CaptureError::Device),
        read is Some && read->Some_0 * channels < block.len() ==> phase_on_read(
            CapturePhase::Running,
            block,
            channels,
            read,
        ) == CapturePhase::Failed(CaptureError::ShortRead),
{
}

} // verus!
