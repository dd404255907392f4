//! Failures the backend reports to its caller.

use vstd::prelude::*;

verus! {

/// What went wrong.
#[derive(Clone, Copy, Debug, PartialEq, Eq, Structural)]
pub enum Error {
    /// Every candidate allocator failed to initialise.
    NoBackendAvailable,
    /// No buffer could be acquired for the frame.
    BufferUnavailable,
    /// The acquired buffer could not be bound as a render target.
    BindFailed,
    /// Composition of the frame failed.
    RenderFailed,
    /// The composed buffer could not be submitted for display.
    SubmitFailed,
    /// No registered surface matches the given output or window.
    NotFound,
    /// The requested mode differs from the size of the window.
    CannotSetWindowSize,
}

/// The family an [`Error`] belongs to.
#[derive(Clone, Copy, Debug, PartialEq, Eq, Structural)]
pub enum ErrorClass {
    /// A backend failed to initialise or to allocate.
    Allocation,
    /// Composition or submission of one frame failed.
    Render,
    /// An output or window is not in the registry.
    Lookup,
    /// A requested configuration cannot be applied.
    Configuration,
}

impl Error {
    pub open spec fn spec_class(self) -> ErrorClass {
        match self {
            Error::NoBackendAvailable => ErrorClass::Allocation,
            Error::BufferUnavailable => ErrorClass::Allocation,
            Error::BindFailed => ErrorClass::Allocation,
            Error::RenderFailed => ErrorClass::Render,
            Error::SubmitFailed => ErrorClass::Render,
            Error::NotFound => ErrorClass::Lookup,
            Error::CannotSetWindowSize => ErrorClass::Configuration,
        }
    }

    /// Only the exhaustion of all allocators at start-up ends the session.
    pub open spec fn spec_is_fatal(self) -> bool {
        self == Error::NoBackendAvailable
    }

    pub open spec fn spec_message(self) -> Seq<char> {
        match self {
            Error::NoBackendAvailable => "Failed to create allocator for x11"@,
            Error::BufferUnavailable => "Failed to allocate buffer"@,
            Error::BindFailed => "Failed to bind dmabuf"@,
            Error::RenderFailed => "Rendering failed"@,
            Error::SubmitFailed => "Failed to submit buffer for display"@,
            Error::NotFound => "No such output"@,
            Error::CannotSetWindowSize => "Cannot set window size"@,
        }
    }

    /// The family of this error.
    #[verifier::when_used_as_spec(spec_class)]
    pub fn class(self) -> (class: ErrorClass)
        ensures
            class == self.spec_class(),
    {
        match self {
            Error::NoBackendAvailable | Error::BufferUnavailable | Error::BindFailed => {
                ErrorClass::Allocation
            },
            Error::RenderFailed | Error::SubmitFailed => ErrorClass::Render,
            Error::NotFound => ErrorClass::Lookup,
            Error::CannotSetWindowSize => ErrorClass::Configuration,
        }
    }

    /// Whether the caller has to give up starting the session.
    #[verifier::when_used_as_spec(spec_is_fatal)]
    pub fn is_fatal(self) -> (fatal: bool)
        ensures
            fatal == self.spec_is_fatal(),
    {
        match self {
            Error::NoBackendAvailable => true,
            _ => false,
        }
    }

    /// A line of text for the log.
    pub fn message(self) -> (text: &'static str)
        ensures
            text@ == self.spec_message(),
    {
        match self {
            Error::NoBackendAvailable => "Failed to create allocator for x11",
            Error::BufferUnavailable => "Failed to allocate buffer",
            Error::BindFailed => "Failed to bind dmabuf",
            Error::RenderFailed => "Rendering failed",
            Error::SubmitFailed => "Failed to submit buffer for display",
            Error::NotFound => "No such output",
            Error::CannotSetWindowSize => "Cannot set window size",
        }
    }
}

} // verus!
