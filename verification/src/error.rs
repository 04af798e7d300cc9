//! What can go wrong around the tracker.

use vstd::prelude::*;
use vstd::string::StringExecFns;

verus! {

/// What went wrong, with the words of whoever reported it.
#[derive(Debug)]
pub enum Error {
    /// The screen could not be captured.
    CapturerError(String),
    /// The recognition of text failed.
    OcrError(String),
    /// A frame could not be handled as an image.
    ImageError(String),
}

impl Error {
    /// The words that introduce the error's kind.
    pub open spec fn heading(&self) -> Seq<char> {
        match self {
            Error::CapturerError(_) => "Capturer Error: "@,
            Error::OcrError(_) => "OCR Error: "@,
            Error::ImageError(_) => "Image Error: "@,
        }
    }

    /// The words that were reported.
    pub open spec fn detail(&self) -> Seq<char> {
        match self {
            Error::CapturerError(s) => s@,
            Error::OcrError(s) => s@,
            Error::ImageError(s) => s@,
        }
    }

    /// The error in words: its kind, then what was reported.
    pub fn message(&self) -> (text: String)
        ensures
            text@ == self.heading() + self.detail(),
    {
        match self {
            Error::CapturerError(s) => String::from_str("Capturer Error: ").concat(s.as_str()),
            Error::OcrError(s) => String::from_str("OCR Error: ").concat(s.as_str()),
            Error::ImageError(s) => String::from_str("Image Error: ").concat(s.as_str()),
        }
    }
}

} // verus!
