//! Data carried between the core and the host-facing service adapters:
//! connection status, fetch referrers, file contents, window dimensions, the
//! task interface, and the millisecond conversion the timer services use.

use vstd::prelude::*;

verus! {

/// The status of a socket connection, used for notification.
#[derive(Clone, Copy, PartialEq, Eq, Structural, Debug)]
pub enum WebSocketStatus {
    /// The connection was opened.
    Opened,
    /// The connection was closed.
    Closed,
    /// The connection failed.
    Error,
}

/// The referrer a fetch request is sent with.
#[derive(Clone, PartialEq, Eq, Debug)]
pub enum Referrer {
    /// A same-origin address value of the referrer.
    SameOriginUrl(String),
    /// The `about:client` value of the referrer.
    AboutClient,
    /// The empty value of the referrer.
    Empty,
}

/// The data of one loaded file.
#[derive(Clone, PartialEq, Eq, Debug)]
pub struct FileData {
    /// The name of the loaded file.
    pub name: String,
    /// The content of the loaded file.
    pub content: Vec<u8>,
}

/// The dimensions of the host window's viewport.
#[derive(Clone, Copy, PartialEq, Eq, Structural, Debug)]
pub struct WindowDimensions {
    /// The viewport width.
    pub width: i32,
    /// The viewport height.
    pub height: i32,
}

/// A universal handle to a running service task. A task must be handled when
/// it is cancelled.
pub trait Task {
    /// Whether the task is still active.
    fn is_active(&self) -> bool;
}

/// What a duration of `secs` whole seconds and `subsec_millis` leftover
/// milliseconds comes to in milliseconds, truncated to the 32-bit range the
/// host timers take.
pub open spec fn to_ms_spec(secs: u64, subsec_millis: u32) -> int {
    ((secs % 0x1_0000_0000) * 1000 + subsec_millis) % 0x1_0000_0000
}

/// Convert a duration, given as whole seconds plus leftover milliseconds, to
/// the 32-bit millisecond count the host timers take.
pub fn to_ms(secs: u64, subsec_millis: u32) -> (ms: u32)
    ensures
        ms == to_ms_spec(secs, subsec_millis),
{
    let wide: u64 = (secs % 0x1_0000_0000) * 1000 + (subsec_millis as u64);
    (wide % 0x1_0000_0000) as u32
}

} // verus!
