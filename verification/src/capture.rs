//! Capture-side data model: the selector that picks a monitor or a window,
//! and the raw pixel frame that a capture backend hands to the pipeline.

use vstd::prelude::*;

verus! {

/// Identifies the screen region a recording pulls frames from: exactly one
/// monitor or exactly one window.
#[derive(Debug)]
pub enum CaptureSource {
    Monitor(String),
    Window(String),
}

/// One captured frame: a row-major pixel buffer with 3 bytes (R, G, B) per
/// pixel, its dimensions, and the capture instant in nanoseconds.
#[derive(Debug)]
pub struct Frame {
    pub data: Vec<u8>,
    pub width: u32,
    pub height: u32,
    pub timestamp: u64,
}

impl Frame {
    /// A frame is well formed when its buffer holds exactly
    /// width * height pixels of 3 bytes each.
    pub open spec fn wf(&self) -> bool {
        self.data@.len() == self.width * self.height * 3
    }

    /// Checks that the buffer length matches the dimensions.
    pub fn is_well_formed(&self) -> (r: bool)
        ensures
            r == self.wf(),
    {
        let w = self.width as u128;
        let h = self.height as u128;
        proof {
            assert(w * h <= 0xFFFF_FFFFu128 * 0xFFFF_FFFFu128) by (nonlinear_arith)
                requires
                    w <= 0xFFFF_FFFFu128,
                    h <= 0xFFFF_FFFFu128,
            ;
        }
        let pixels: u128 = w * h;
        let expected: u128 = pixels * 3;
        (self.data.len() as u128) == expected
    }
}

/// Failures a capture backend reports.
#[derive(Clone, Copy, PartialEq, Eq, Structural, Debug)]
pub enum CaptureError {
    /// A frame was asked for before the backend was initialized.
    NotInitialized,
}

/// A capture backend: initialized once, polled for one frame at a time, and
/// stopped when the session ends.
pub trait CaptureTrait {
    /// Whether the backend is ready to hand out frames.
    spec fn ready(&self) -> bool;

    /// Brings the backend up.
    fn initialize(&mut self) -> (r: Result<(), CaptureError>)
        ensures
            r is Ok ==> final(self).ready(),
    ;

    /// Polls for one frame; fails when the backend is not ready.
    fn capture_frame(&mut self) -> (r: Result<Option<Frame>, CaptureError>)
        ensures
            !old(self).ready() ==> r is Err,
    ;

    /// Releases the backend.
    fn stop(&mut self) -> (r: Result<(), CaptureError>)
        ensures
            r is Ok ==> !final(self).ready(),
    ;
}

/// The capture-session lifecycle against the operating system's screen-grab
/// surface; the platform's frame pool is attached by the surrounding program,
/// so polling yields no frame until then.
pub struct WindowsCapture {
    source: CaptureSource,
    is_initialized: bool,
}

impl WindowsCapture {
    /// A backend bound to its source, not yet initialized.
    pub fn new(source: CaptureSource) -> (c: WindowsCapture)
        ensures
            !c.ready(),
    {
        WindowsCapture { source, is_initialized: false }
    }
}

impl CaptureTrait for WindowsCapture {
    closed spec fn ready(&self) -> bool {
        self.is_initialized
    }

    fn initialize(&mut self) -> (r: Result<(), CaptureError>)
        ensures
            r is Ok ==> final(self).ready(),
            r is Ok,
            final(self).ready(),
    {
        self.is_initialized = true;
        Result::Ok(())
    }

    fn capture_frame(&mut self) -> (r: Result<Option<Frame>, CaptureError>)
        ensures
            !old(self).ready() ==> r is Err,
            !old(self).ready() ==> r == Result::<Option<Frame>, CaptureError>::Err(
                CaptureError::NotInitialized,
            ),
            old(self).ready() ==> r == Result::<Option<Frame>, CaptureError>::Ok(Option::None),
            *final(self) == *old(self),
    {
        if !self.is_initialized {
            return Result::Err(CaptureError::NotInitialized);
        }
        Result::Ok(Option::None)
    }

    fn stop(&mut self) -> (r: Result<(), CaptureError>)
        ensures
            r is Ok ==> !final(self).ready(),
            r is Ok,
            !final(self).ready(),
    {
        self.is_initialized = false;
        Result::Ok(())
    }
}

} // verus!
