//! Validated WAL flush pacing policy.

use vstd::prelude::*;

use crate::domain::bounds::WAL_ENCODED_BYTES_MAX;
use crate::domain::text::number_text;

use std::time::Duration;

verus! {

/// The span of so many milliseconds.
pub uninterp spec fn millis_span(millis: u64) -> Duration;

/// `std::time::Duration::from_millis`: the span of so many milliseconds.
pub assume_specification[ Duration::from_millis ](millis: u64) -> (span: Duration)
    ensures
        span == millis_span(millis),
;

/// Default spacing of time-triggered WAL starts, in milliseconds.
pub const FLUSH_INTERVAL_DEFAULT_MILLIS: u64 = 250;

/// What the writer sees of its waiting commands when it may start a WAL flight.
#[derive(Debug, Clone, Copy, PartialEq, Eq, Structural)]
pub struct FlushPressure {
    /// The minimum spacing has passed since the last start.
    pub interval_elapsed: bool,
    /// What the waiting facts are estimated at.
    pub buffered_bytes: usize,
    /// No further command can wait.
    pub at_capacity: bool,
    /// The partition is shutting down.
    pub draining: bool,
}

/// Validated WAL flush pacing policy.
///
/// By default, time-triggered WAL starts are spaced by 250 milliseconds and the soft
/// byte threshold is the hard WAL object bound.
#[derive(Debug, Clone, Copy, PartialEq, Eq)]
pub struct Options {
    /// Minimum spacing between time-triggered WAL starts.
    pub flush_interval_min: Duration,
    /// Soft estimated-byte threshold that starts a WAL flush.
    pub flush_buffer_bytes: usize,
}

impl Options {
    /// The soft budget is nonzero and inside the hard WAL object bound.
    pub open spec fn wf(self) -> bool {
        0 < self.flush_buffer_bytes <= WAL_ENCODED_BYTES_MAX
    }

    /// Sets the minimum spacing between time-triggered WAL starts.
    ///
    /// Zero restores eager flush-on-completion timing. Byte pressure, hard capacity
    /// and shutdown may start a WAL flight before this interval.
    pub fn with_min_flush_interval(self, duration: Duration) -> (options: Self)
        ensures
            options == (Options { flush_interval_min: duration, ..self }),
            self.wf() ==> options.wf(),
    {
        Options { flush_interval_min: duration, flush_buffer_bytes: self.flush_buffer_bytes }
    }

    pub open spec fn spec_with_flush_buffer_bytes(self, bytes: usize) -> Result<
        Self,
        OptionsError,
    > {
        if bytes == 0 {
            Err(OptionsError::FlushBufferBytesZero)
        } else if bytes > WAL_ENCODED_BYTES_MAX {
            Err(OptionsError::FlushBufferBytesOverMax { bytes })
        } else {
            Ok(Options { flush_buffer_bytes: bytes, ..self })
        }
    }

    /// Sets the soft estimated-byte threshold that starts a WAL flush; fails when it
    /// is zero or exceeds the hard WAL object bound.
    pub fn with_flush_buffer_bytes(self, bytes: usize) -> (options: Result<Self, OptionsError>)
        ensures
            options == self.spec_with_flush_buffer_bytes(bytes),
            options matches Ok(options) ==> options.wf(),
    {
        if bytes == 0 {
            return Err(OptionsError::FlushBufferBytesZero);
        }
        if bytes > WAL_ENCODED_BYTES_MAX {
            return Err(OptionsError::FlushBufferBytesOverMax { bytes });
        }
        Ok(
            Options {
                flush_interval_min: self.flush_interval_min,
                flush_buffer_bytes: bytes,
            },
        )
    }

    /// Whether waiting commands are flushed now: when the spacing has passed, or before
    /// that under byte pressure, at hard capacity and on shutdown.
    pub fn is_flush_due(self, pressure: FlushPressure) -> (due: bool)
        ensures
            due == (pressure.interval_elapsed || pressure.buffered_bytes >= self.flush_buffer_bytes
                || pressure.at_capacity || pressure.draining),
    {
        pressure.interval_elapsed || pressure.buffered_bytes >= self.flush_buffer_bytes
            || pressure.at_capacity || pressure.draining
    }

    pub fn flush_interval_min(self) -> (duration: Duration)
        ensures
            duration == self.flush_interval_min,
    {
        self.flush_interval_min
    }

    pub fn flush_buffer_bytes(self) -> (bytes: usize)
        ensures
            bytes == self.flush_buffer_bytes,
    {
        self.flush_buffer_bytes
    }
}

impl Default for Options {
    fn default() -> (options: Self)
        ensures
            options == (Options {
                flush_interval_min: millis_span(FLUSH_INTERVAL_DEFAULT_MILLIS),
                flush_buffer_bytes: WAL_ENCODED_BYTES_MAX,
            }),
            options.wf(),
    {
        Options {
            flush_interval_min: Duration::from_millis(FLUSH_INTERVAL_DEFAULT_MILLIS),
            flush_buffer_bytes: WAL_ENCODED_BYTES_MAX,
        }
    }
}

/// Why a writer option could not be constructed.
#[derive(Debug, Clone, Copy, PartialEq, Eq, Structural)]
pub enum OptionsError {
    FlushBufferBytesZero,
    FlushBufferBytesOverMax { bytes: usize },
}

impl OptionsError {
    pub open spec fn spec_message(self) -> Seq<char> {
        match self {
            OptionsError::FlushBufferBytesZero => "flush buffer byte budget must be nonzero"@,
            OptionsError::FlushBufferBytesOverMax { bytes } => "flush buffer byte budget "@
                + crate::domain::text::number_chars(bytes as nat)
                + " exceeds the 4194304-byte WAL bound"@,
        }
    }

    /// The message shown for this failure.
    pub fn to_string(&self) -> (message: String)
        ensures
            message@ == self.spec_message(),
    {
        match *self {
            OptionsError::FlushBufferBytesZero => String::from_str(
                "flush buffer byte budget must be nonzero",
            ),
            OptionsError::FlushBufferBytesOverMax { bytes } => {
                let mut message = String::from_str("flush buffer byte budget ");
                message.append(number_text(bytes as u64).as_str());
                message.append(" exceeds the 4194304-byte WAL bound");
                message
            },
        }
    }
}

} // verus!
