//! Command-line settings.

use vstd::prelude::*;

verus! {

/// The program's settings, as given on the command line.
pub struct Config {
    /// Virtual display width in pixels (defaults to the terminal's width).
    pub width: Option<u32>,
    /// Virtual display height in pixels (defaults to the terminal's height
    /// minus the status bar row).
    pub height: Option<u32>,
    /// Capture frame rate.
    pub fps: u32,
    /// Preferred X display number.
    pub display: u8,
    /// Disable audio capture and playback.
    pub no_audio: bool,
    /// PulseAudio/PipeWire server used for audio capture.
    pub audio_capture_server: Option<String>,
    /// Command to launch inside the virtual display after the window
    /// manager starts.
    pub exec_cmd: Option<String>,
    /// Window manager rc file.
    pub jwm_config: Option<String>,
    /// Name of a persistent session to create or attach to.
    pub session: Option<String>,
    /// List persistent sessions and exit.
    pub list_sessions: bool,
    /// Terminate the named persistent session and exit.
    pub kill_session: Option<String>,
}

impl Config {
    /// Settings with every option at its default.
    pub fn defaults() -> (c: Config)
        ensures
            c.width is None,
            c.height is None,
            c.fps == 30,
            c.display == 99,
            !c.no_audio,
            c.audio_capture_server is None,
            c.exec_cmd is None,
            c.jwm_config is None,
            c.session is None,
            !c.list_sessions,
            c.kill_session is None,
    {
        Config {
            width: None,
            height: None,
            fps: 30,
            display: 99,
            no_audio: false,
            audio_capture_server: None,
            exec_cmd: None,
            jwm_config: None,
            session: None,
            list_sessions: false,
            kill_session: None,
        }
    }

    /// Whether a named persistent session was asked for.
    pub fn session_mode(&self) -> (b: bool)
        ensures
            b == self.session is Some,
    {
        self.session.is_some()
    }

    /// Audio runs unless disabled; persistent sessions run without it, since
    /// audio routing cannot survive a detach.
    pub fn audio_enabled(&self) -> (b: bool)
        ensures
            b == (!self.no_audio && self.session is None),
    {
        !self.no_audio && self.session.is_none()
    }
}

} // verus!
