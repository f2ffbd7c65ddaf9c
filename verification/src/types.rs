//! Small configuration enums shared by the daemon and the command line.
use vstd::prelude::*;

verus! {

#[derive(Debug, Copy, Clone, PartialEq, Eq, Structural)]
pub enum OutputFormat {
    Plain,
    Jsonl,
}

#[derive(Debug, Copy, Clone, PartialEq, Eq, Structural)]
pub enum OutputMode {
    Stdout,
    Inject,
}

#[derive(Debug, Copy, Clone, PartialEq, Eq, Structural)]
pub enum AudioHost {
    Default,
    Alsa,
}

impl AudioHost {
    /// The host the daemon prefers on its target platform: ALSA (the daemon
    /// targets Linux).
    pub fn default_for_platform() -> (r: AudioHost)
        ensures
            r == AudioHost::Alsa,
    {
        AudioHost::Alsa
    }
}

#[derive(Debug, Copy, Clone, PartialEq, Eq, Structural)]
pub enum VadMode {
    On,
    Off,
}

/// A voice-activity setting as a configuration file writes it: a bare
/// boolean or an explicit mode.
#[derive(Debug, Copy, Clone, PartialEq, Eq, Structural)]
pub enum VadSetting {
    Bool(bool),
    Mode(VadMode),
}

impl VadSetting {
    pub fn into_mode(self) -> (r: VadMode)
        ensures
            r == match self {
                VadSetting::Bool(true) => VadMode::On,
                VadSetting::Bool(false) => VadMode::Off,
                VadSetting::Mode(mode) => mode,
            },
    {
        match self {
            VadSetting::Bool(true) => VadMode::On,
            VadSetting::Bool(false) => VadMode::Off,
            VadSetting::Mode(mode) => mode,
        }
    }
}

} // verus!
