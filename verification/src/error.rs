//! Errors that the library reports.

use vstd::prelude::*;

verus! {

/// An error of the streaming host.
#[derive(Debug, Clone)]
pub enum FluxError {
    /// An encoder or an encode session cannot be set up.
    EncoderInit(String),
    /// A frame cannot be encoded.
    Encode { frame: u64, reason: String },
    /// No usable encoder backend exists.
    NoEncoderBackend,
    /// The capture session is gone and has to be opened again.
    CaptureSessionLost(String),
    /// A graphics resource cannot be used.
    Gpu(String),
    /// An input event cannot be injected.
    Input(String),
    /// A transport failure.
    Network(String),
    /// A message does not fit the state of the protocol.
    Protocol(String),
}

/// What an error says, with its text as a sequence of characters.
#[verifier::ext_equal]
pub enum ErrorView {
    EncoderInit(Seq<char>),
    Encode { frame: u64, reason: Seq<char> },
    NoEncoderBackend,
    CaptureSessionLost(Seq<char>),
    Gpu(Seq<char>),
    Input(Seq<char>),
    Network(Seq<char>),
    Protocol(Seq<char>),
}

impl View for FluxError {
    type V = ErrorView;

    open spec fn view(&self) -> ErrorView {
        match *self {
            FluxError::EncoderInit(text) => ErrorView::EncoderInit(text@),
            FluxError::Encode { frame, reason } => ErrorView::Encode { frame, reason: reason@ },
            FluxError::NoEncoderBackend => ErrorView::NoEncoderBackend,
            FluxError::CaptureSessionLost(text) => ErrorView::CaptureSessionLost(text@),
            FluxError::Gpu(text) => ErrorView::Gpu(text@),
            FluxError::Input(text) => ErrorView::Input(text@),
            FluxError::Network(text) => ErrorView::Network(text@),
            FluxError::Protocol(text) => ErrorView::Protocol(text@),
        }
    }
}

/// An error is seen as what it is, with its own text.
pub proof fn law_errors_are_seen(text: String, frame: u64)
    ensures
        FluxError::EncoderInit(text)@ == ErrorView::EncoderInit(text@),
        (FluxError::Encode { frame, reason: text })@ == (ErrorView::Encode { frame, reason: text@ }),
        FluxError::NoEncoderBackend@ == ErrorView::NoEncoderBackend,
        FluxError::CaptureSessionLost(text)@ == ErrorView::CaptureSessionLost(text@),
        FluxError::Gpu(text)@ == ErrorView::Gpu(text@),
        FluxError::Input(text)@ == ErrorView::Input(text@),
        FluxError::Network(text)@ == ErrorView::Network(text@),
        FluxError::Protocol(text)@ == ErrorView::Protocol(text@),
{
}

} // verus!
