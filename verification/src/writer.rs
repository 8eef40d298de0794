//! Decisions of the asynchronous writer.

use vstd::prelude::*;
use crate::config::{AsyncMode, WriterTarget};

verus! {

/// How many dropped messages pass between two warnings; warning on every drop would flood
/// standard error exactly when the writer is saturated.
pub const DROP_WARN_INTERVAL: u64 = 1024;

/// The standard stream an asynchronous writer drains into.
#[derive(Clone, Copy, Debug, PartialEq, Eq, Structural)]
pub enum AsyncWriterTarget {
    Stdout,
    Stderr,
}

/// Where the layer of a writer sends its lines.
#[derive(Clone, Copy, Debug)]
pub enum Sink {
    Stdout,
    Stderr,
    /// An asynchronous writer draining into a standard stream, handing lines off as the mode
    /// says.
    Channel(AsyncWriterTarget, AsyncMode),
    /// Nowhere: a file writer's lines go through a layer of their own, built with the file.
    Discard,
}

/// The sink a target's layer writes to.
pub open spec fn sink_of(target: WriterTarget) -> Sink {
    match target {
        WriterTarget::Stdout => Sink::Stdout,
        WriterTarget::Stderr => Sink::Stderr,
        WriterTarget::AsyncStdout(mode) => Sink::Channel(AsyncWriterTarget::Stdout, mode),
        WriterTarget::AsyncStderr(mode) => Sink::Channel(AsyncWriterTarget::Stderr, mode),
        WriterTarget::File(_) => Sink::Discard,
    }
}

/// The sink a target's layer writes to: the stream itself, an asynchronous writer draining
/// into it, or nowhere for a file.
pub fn sink_for(target: &WriterTarget) -> (s: Sink)
    ensures
        s == sink_of(*target),
{
    match target {
        WriterTarget::Stdout => Sink::Stdout,
        WriterTarget::Stderr => Sink::Stderr,
        WriterTarget::AsyncStdout(mode) => Sink::Channel(AsyncWriterTarget::Stdout, *mode),
        WriterTarget::AsyncStderr(mode) => Sink::Channel(AsyncWriterTarget::Stderr, *mode),
        WriterTarget::File(_) => Sink::Discard,
    }
}

/// Whether to warn after the `dropped`-th message was dropped: at the first drop and at every
/// multiple of [`DROP_WARN_INTERVAL`].
pub fn should_warn_about_drops(dropped: u64) -> (warn: bool)
    ensures
        warn == (dropped == 1 || dropped % DROP_WARN_INTERVAL == 0),
{
    dropped == 1 || dropped % DROP_WARN_INTERVAL == 0
}

/// The count of dropped messages after one more drop (wrapping, as an atomic counter does).
pub fn count_drop(dropped: u64) -> (n: u64)
    ensures
        n == if dropped == u64::MAX {
            0
        } else {
            (dropped + 1) as u64
        },
{
    if dropped == u64::MAX {
        0
    } else {
        dropped + 1
    }
}

} // verus!
