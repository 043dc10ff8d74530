//! The error taxonomy of one conversion call.
//!
//! Structural, container and I/O errors abort the whole conversion; naming
//! failures never surface (the image resolver falls back to a generated name).

use vstd::prelude::*;

verus! {

/// A typed conversion failure, carrying a short diagnostic detail.
#[derive(Debug)]
pub enum ConvertError {
    /// The byte stream is not a valid archive, or an expected entry is
    /// absent or unreadable.
    Container(String),
    /// The word-processing document tree could not be parsed or traversed.
    DocumentParse(String),
    /// A slide's streaming XML was malformed or ended unexpectedly.
    SlideParse(String),
    /// A filesystem failure while saving an image.
    Io(String),
    /// No converter is registered for the resolved content type; carries the
    /// resolved type for diagnostics.
    UnsupportedFormat(String),
}

impl ConvertError {
    /// The stage that failed, as a short label.
    pub open spec fn spec_stage(&self) -> Seq<char> {
        match self {
            ConvertError::Container(_) => "container error"@,
            ConvertError::DocumentParse(_) => "document parse error"@,
            ConvertError::SlideParse(_) => "slide parse error"@,
            ConvertError::Io(_) => "io error"@,
            ConvertError::UnsupportedFormat(_) => "unsupported format"@,
        }
    }

    /// The diagnostic detail the error was constructed with.
    pub open spec fn spec_detail(&self) -> Seq<char> {
        match self {
            ConvertError::Container(s) => s@,
            ConvertError::DocumentParse(s) => s@,
            ConvertError::SlideParse(s) => s@,
            ConvertError::Io(s) => s@,
            ConvertError::UnsupportedFormat(s) => s@,
        }
    }

    /// A human-readable description: the failing stage, then the detail.
    pub fn message(&self) -> (r: String)
        ensures
            r@ == self.spec_stage() + ": "@ + self.spec_detail(),
    {
        let mut r = String::new();
        match self {
            ConvertError::Container(s) => {
                r.append("container error");
                r.append(": ");
                r.append(s.as_str());
            },
            ConvertError::DocumentParse(s) => {
                r.append("document parse error");
                r.append(": ");
                r.append(s.as_str());
            },
            ConvertError::SlideParse(s) => {
                r.append("slide parse error");
                r.append(": ");
                r.append(s.as_str());
            },
            ConvertError::Io(s) => {
                r.append("io error");
                r.append(": ");
                r.append(s.as_str());
            },
            ConvertError::UnsupportedFormat(s) => {
                r.append("unsupported format");
                r.append(": ");
                r.append(s.as_str());
            },
        }
        r
    }
}

} // verus!
