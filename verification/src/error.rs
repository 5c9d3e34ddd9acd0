//! What can go wrong, and the messages that say so.
use crate::text;
use crate::text::{decimal, join, join3};
use vstd::prelude::*;
use vstd::string::*;

verus! {

/// Why a voice model cannot be used.
#[derive(Debug, Clone)]
pub enum Unsupported {
    /// Not version 2: the engine takes features of 768 dimensions.
    Version(String),
    /// Trained without a pitch.
    NoF0,
    /// Generator settings, embedder or vocoder differ from those of the training configs.
    Config,
    /// A weight that the generator needs is missing or has another shape.
    Weights(String),
}

/// What an [`Unsupported`] says.
pub enum UnsupportedValue {
    Version(Seq<char>),
    NoF0,
    Config,
    Weights(Seq<char>),
}

impl View for Unsupported {
    type V = UnsupportedValue;

    open spec fn view(&self) -> UnsupportedValue {
        match self {
            Unsupported::Version(v) => UnsupportedValue::Version(v@),
            Unsupported::NoF0 => UnsupportedValue::NoF0,
            Unsupported::Config => UnsupportedValue::Config,
            Unsupported::Weights(k) => UnsupportedValue::Weights(k@),
        }
    }
}

/// The message of an [`Unsupported`].
pub open spec fn unsupported_message(u: UnsupportedValue) -> Seq<char> {
    match u {
        UnsupportedValue::Version(v) => "version "@ + v + " (only v2 is supported)"@,
        UnsupportedValue::NoF0 => "model without F0"@,
        UnsupportedValue::Config => {
            "generator settings differ from the official 32k / 40k / 48k configs"@
        },
        UnsupportedValue::Weights(k) => "weight "@ + k + " is missing or has another shape"@,
    }
}

impl Unsupported {
    /// What to tell the user.
    pub fn message(&self) -> (r: String)
        ensures
            r@ == unsupported_message(self@),
    {
        match self {
            Unsupported::Version(v) => join3("version ", v.as_str(), " (only v2 is supported)"),
            Unsupported::NoF0 => "model without F0".to_owned(),
            Unsupported::Config => {
                "generator settings differ from the official 32k / 40k / 48k configs".to_owned()
            },
            Unsupported::Weights(k) => {
                join3("weight ", k.as_str(), " is missing or has another shape")
            },
        }
    }
}

/// An error of the engine.
#[derive(Debug, Clone)]
pub enum Error {
    /// A model file is missing or cannot be read.
    ModelFiles { path: String, reason: String },
    /// A library, the GPU or a session could not be set up.
    Runtime(String),
    /// A startup parameter is outside its range.
    Startup(String),
    /// An audio device was not found or the stream could not be opened.
    Audio(String),
    BlockSize { expected: usize, got: usize },
    /// Inference failed while it ran a block.
    Inference(String),
    /// The voice model cannot be converted.
    Unsupported(Unsupported),
}

/// What an [`Error`] says.
pub enum ErrorValue {
    ModelFiles { path: Seq<char>, reason: Seq<char> },
    Runtime(Seq<char>),
    Startup(Seq<char>),
    Audio(Seq<char>),
    BlockSize { expected: usize, got: usize },
    Inference(Seq<char>),
    Unsupported(UnsupportedValue),
}

impl View for Error {
    type V = ErrorValue;

    open spec fn view(&self) -> ErrorValue {
        match self {
            Error::ModelFiles { path, reason } => ErrorValue::ModelFiles {
                path: path@,
                reason: reason@,
            },
            Error::Runtime(s) => ErrorValue::Runtime(s@),
            Error::Startup(s) => ErrorValue::Startup(s@),
            Error::Audio(s) => ErrorValue::Audio(s@),
            Error::BlockSize { expected, got } => ErrorValue::BlockSize {
                expected: *expected,
                got: *got,
            },
            Error::Inference(s) => ErrorValue::Inference(s@),
            Error::Unsupported(u) => ErrorValue::Unsupported(u@),
        }
    }
}

/// The message of an [`Error`].
pub open spec fn error_message(e: ErrorValue) -> Seq<char> {
    match e {
        ErrorValue::ModelFiles { path, reason } => path + ": "@ + reason,
        ErrorValue::Runtime(s) => "runtime: "@ + s,
        ErrorValue::Startup(s) => "startup parameter: "@ + s,
        ErrorValue::Audio(s) => "audio: "@ + s,
        ErrorValue::BlockSize { expected, got } => "block of "@ + text::decimal_of(got as nat)
            + " samples, engine expects "@ + text::decimal_of(expected as nat),
        ErrorValue::Inference(s) => "inference: "@ + s,
        ErrorValue::Unsupported(u) => "unsupported voice model: "@ + unsupported_message(u),
    }
}

impl Error {
    /// What to tell the user.
    pub fn message(&self) -> (r: String)
        ensures
            r@ == error_message(self@),
    {
        match self {
            Error::ModelFiles { path, reason } => join3(path.as_str(), ": ", reason.as_str()),
            Error::Runtime(s) => join("runtime: ", s.as_str()),
            Error::Startup(s) => join("startup parameter: ", s.as_str()),
            Error::Audio(s) => join("audio: ", s.as_str()),
            Error::BlockSize { expected, got } => {
                let start = join3("block of ", decimal(*got).as_str(), " samples, engine expects ");
                join(start.as_str(), decimal(*expected).as_str())
            },
            Error::Inference(s) => join("inference: ", s.as_str()),
            Error::Unsupported(u) => join("unsupported voice model: ", u.message().as_str()),
        }
    }
}

/// A failure to set up the runtime.
pub fn rt(reason: String) -> (r: Error)
    ensures
        r@ == ErrorValue::Runtime(reason@),
{
    Error::Runtime(reason)
}

/// A failure while a block ran.
pub fn inference(reason: String) -> (r: Error)
    ensures
        r@ == ErrorValue::Inference(reason@),
{
    Error::Inference(reason)
}

/// A failure of an audio device.
pub fn audio(reason: String) -> (r: Error)
    ensures
        r@ == ErrorValue::Audio(reason@),
{
    Error::Audio(reason)
}

/// Every message ends with what was found wrong, and that of a file begins with the file; that of a block
/// tells the samples that came before those that were asked for.
pub proof fn law_messages_end_with_the_reason(path: Seq<char>, reason: Seq<char>, expected: usize, got: usize)
    ensures
        path.is_prefix_of(error_message(ErrorValue::ModelFiles { path, reason })),
        reason.is_suffix_of(error_message(ErrorValue::ModelFiles { path, reason })),
        reason.is_suffix_of(error_message(ErrorValue::Runtime(reason))),
        reason.is_suffix_of(error_message(ErrorValue::Startup(reason))),
        reason.is_suffix_of(error_message(ErrorValue::Audio(reason))),
        reason.is_suffix_of(error_message(ErrorValue::Inference(reason))),
        text::decimal_of(expected as nat).is_suffix_of(
            error_message(ErrorValue::BlockSize { expected, got }),
        ),
        ("block of "@ + text::decimal_of(got as nat)).is_prefix_of(
            error_message(ErrorValue::BlockSize { expected, got }),
        ),
        ("weight "@ + reason).is_prefix_of(unsupported_message(UnsupportedValue::Weights(reason))),
        ("version "@ + reason).is_prefix_of(unsupported_message(UnsupportedValue::Version(reason))),
{
    let files = error_message(ErrorValue::ModelFiles { path, reason });
    assert(files.take(path.len() as int) =~= path);
    assert(files.skip(files.len() - reason.len()) =~= reason);
    let block = error_message(ErrorValue::BlockSize { expected, got });
    let n = text::decimal_of(expected as nat);
    assert(block.skip(block.len() - n.len()) =~= n);
}

} // verus!
