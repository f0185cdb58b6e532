//! Acquisition state and the settings of the control bar.
use vstd::prelude::*;

verus! {

/// Acquisition state.
#[derive(Debug, Clone, Copy, PartialEq, Eq, Structural)]
pub enum AcquisitionState {
    /// Not started.
    Idle,
    /// Acquiring.
    Running,
    /// Paused.
    Paused,
}

/// Command given by the user.
#[derive(Debug, Clone, Copy, PartialEq, Eq, Structural)]
pub enum AcquisitionCommand {
    Start,
    Pause,
    Stop,
}

/// Which commands the control bar offers in a state, as (start, pause,
/// stop): start when idle or paused, pause when running, stop unless idle.
pub fn offered_commands(state: AcquisitionState) -> (r: (bool, bool, bool))
    ensures
        r.0 == (state == AcquisitionState::Idle || state == AcquisitionState::Paused),
        r.1 == (state == AcquisitionState::Running),
        r.2 == (state != AcquisitionState::Idle),
{
    match state {
        AcquisitionState::Idle => (true, false, false),
        AcquisitionState::Running => (false, true, true),
        AcquisitionState::Paused => (true, false, true),
    }
}

/// Sample rate range (Hz).
pub const RATE_MIN: u32 = 1;
pub const RATE_MAX: u32 = 15_000;
/// Window size range (samples).
pub const WINDOW_MIN: usize = 1;
pub const WINDOW_MAX: usize = 10_000;

/// `v` brought into `lo ..= hi`.
pub open spec fn clamp_u32(v: u32, lo: u32, hi: u32) -> u32 {
    if v < lo {
        lo
    } else if v > hi {
        hi
    } else {
        v
    }
}

/// Settings and counters of the control bar. The measured sample rate,
/// a floating-point value, is kept by the application beside it.
pub struct ControlPanel {
    pub state: AcquisitionState,
    pub sample_rate: u32,
    pub total_samples: u64,
    pub target_count: Option<u64>,
    /// Number of samples shown; older ones are dropped.
    pub window_size: usize,
}

impl ControlPanel {
    /// A panel in the idle state with the sample rate brought into
    /// `RATE_MIN ..= RATE_MAX` and a window of 2000 samples.
    pub fn new(sample_rate: u32, target_count: Option<u64>) -> (p: Self)
        ensures
            p.state == AcquisitionState::Idle,
            p.sample_rate == clamp_u32(sample_rate, RATE_MIN, RATE_MAX),
            p.total_samples == 0,
            p.target_count == target_count,
            p.window_size == 2000,
    {
        let sample_rate = if sample_rate < RATE_MIN {
            RATE_MIN
        } else if sample_rate > RATE_MAX {
            RATE_MAX
        } else {
            sample_rate
        };
        Self {
            state: AcquisitionState::Idle,
            sample_rate,
            total_samples: 0,
            target_count,
            window_size: 2000,
        }
    }

    pub fn set_running(&mut self)
        ensures
            *final(self) == (ControlPanel { state: AcquisitionState::Running, ..*old(self) }),
    {
        self.state = AcquisitionState::Running;
    }

    pub fn set_paused(&mut self)
        ensures
            *final(self) == (ControlPanel { state: AcquisitionState::Paused, ..*old(self) }),
    {
        self.state = AcquisitionState::Paused;
    }

    pub fn set_stopped(&mut self)
        ensures
            *final(self) == (ControlPanel { state: AcquisitionState::Idle, ..*old(self) }),
    {
        self.state = AcquisitionState::Idle;
    }

    pub fn update_count(&mut self, total: u64)
        ensures
            *final(self) == (ControlPanel { total_samples: total, ..*old(self) }),
    {
        self.total_samples = total;
    }

    /// Whether a target count is set and has been reached.
    pub fn target_reached(&self) -> (b: bool)
        ensures
            b == (self.target_count matches Some(t) && self.total_samples >= t),
    {
        match self.target_count {
            Some(t) => self.total_samples >= t,
            None => false,
        }
    }
}

} // verus!
