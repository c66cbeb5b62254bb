//! Choosing the input backends of the platform the program runs on, and the
//! interfaces those backends offer.
//!
//! The backends themselves open devices or install system hooks; they live
//! with the program. Here stands which backend serves which platform.

use vstd::prelude::*;
use crate::input::InputEvent;
use crate::monitor::Monitor;

verus! {

/// The operating system the program runs on.
#[derive(Debug, Clone, Copy, PartialEq, Eq, Structural)]
pub enum Platform {
    Linux,
    Windows,
    Other,
}

/// Why input could not be captured, injected or detected.
#[derive(Debug, Clone, PartialEq, Eq)]
pub enum InputError {
    /// The platform has no input backend.
    UnsupportedPlatform,
    /// No tool reported any monitor.
    NoMonitorsDetected,
    /// The backend reported a failure, described in words.
    Backend(String),
}

/// The kind of input capturer that serves a platform.
#[derive(Debug, Clone, Copy, PartialEq, Eq, Structural)]
pub enum CaptureBackend {
    /// Grabbing the evdev mouse and keyboard devices.
    Evdev,
    /// Low-level mouse and keyboard hooks.
    WindowsHooks,
}

/// The kind of input injector that serves a platform.
#[derive(Debug, Clone, Copy, PartialEq, Eq, Structural)]
pub enum InjectBackend {
    /// A virtual uinput device.
    Uinput,
    /// `SendInput`.
    WindowsSendInput,
}

/// The kind of monitor detection that serves a platform.
#[derive(Debug, Clone, Copy, PartialEq, Eq, Structural)]
pub enum DetectBackend {
    /// The output of `xrandr`, `wlr-randr` or `gnome-randr`, tried in turn.
    RandrTools,
    /// `EnumDisplayMonitors`.
    WindowsDisplays,
}

/// The capturer of a platform, if it has one.
pub open spec fn spec_capturer(p: Platform) -> Option<CaptureBackend> {
    match p {
        Platform::Linux => Some(CaptureBackend::Evdev),
        Platform::Windows => Some(CaptureBackend::WindowsHooks),
        Platform::Other => None,
    }
}

/// The injector of a platform, if it has one.
pub open spec fn spec_injector(p: Platform) -> Option<InjectBackend> {
    match p {
        Platform::Linux => Some(InjectBackend::Uinput),
        Platform::Windows => Some(InjectBackend::WindowsSendInput),
        Platform::Other => None,
    }
}

/// The monitor detection of a platform, if it has one.
pub open spec fn spec_detector(p: Platform) -> Option<DetectBackend> {
    match p {
        Platform::Linux => Some(DetectBackend::RandrTools),
        Platform::Windows => Some(DetectBackend::WindowsDisplays),
        Platform::Other => None,
    }
}

/// The input capturer for a platform: evdev on Linux, hooks on Windows;
/// any other platform is refused.
pub fn create_capturer(platform: Platform) -> (r: Result<CaptureBackend, InputError>)
    ensures
        match spec_capturer(platform) {
            Some(b) => r == Ok::<CaptureBackend, InputError>(b),
            None => r == Err::<CaptureBackend, InputError>(InputError::UnsupportedPlatform),
        },
{
    match platform {
        Platform::Linux => Ok(CaptureBackend::Evdev),
        Platform::Windows => Ok(CaptureBackend::WindowsHooks),
        Platform::Other => Err(InputError::UnsupportedPlatform),
    }
}

/// The input injector for a platform: uinput on Linux, `SendInput` on
/// Windows; any other platform is refused.
pub fn create_injector(platform: Platform) -> (r: Result<InjectBackend, InputError>)
    ensures
        match spec_injector(platform) {
            Some(b) => r == Ok::<InjectBackend, InputError>(b),
            None => r == Err::<InjectBackend, InputError>(InputError::UnsupportedPlatform),
        },
{
    match platform {
        Platform::Linux => Ok(InjectBackend::Uinput),
        Platform::Windows => Ok(InjectBackend::WindowsSendInput),
        Platform::Other => Err(InputError::UnsupportedPlatform),
    }
}

/// The monitor detection for a platform; any other platform is refused.
pub fn monitor_detector(platform: Platform) -> (r: Result<DetectBackend, InputError>)
    ensures
        match spec_detector(platform) {
            Some(b) => r == Ok::<DetectBackend, InputError>(b),
            None => r == Err::<DetectBackend, InputError>(InputError::UnsupportedPlatform),
        },
{
    match platform {
        Platform::Linux => Ok(DetectBackend::RandrTools),
        Platform::Windows => Ok(DetectBackend::WindowsDisplays),
        Platform::Other => Err(InputError::UnsupportedPlatform),
    }
}

/// Capturing input from the local machine.
pub trait InputCapture {
    /// Grab exclusive input control (the local cursor freezes).
    fn grab(&mut self) -> Result<(), InputError>;

    /// Release input back to the local system.
    fn release(&mut self) -> Result<(), InputError>;

    /// Whether input is grabbed now.
    fn is_grabbed(&self) -> bool;

    /// Wait for the next input event.
    fn next_event(&mut self) -> Result<InputEvent, InputError>;

    /// The current absolute cursor position.
    fn cursor_position(&self) -> Result<(i32, i32), InputError>;
}

/// Injecting input events on the local machine.
pub trait InputInjector {
    /// Move the cursor to a position on a monitor, in the monitor's own
    /// coordinates.
    fn move_to(&mut self, monitor: &Monitor, x: i32, y: i32) -> Result<(), InputError>;

    /// Replay an input event.
    fn inject(&mut self, event: &InputEvent) -> Result<(), InputError>;
}

} // verus!
