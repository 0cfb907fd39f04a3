use vstd::prelude::*;

verus! {

/// Why an analysis was refused.
#[derive(Debug, Clone)]
pub enum AnalyzerError {
    /// The input buffer holds no bytes.
    EmptyBuffer,
    /// The bytes are no PNG, JPEG or WebP image; the text says what was seen.
    UnsupportedFormat(String),
    /// The image decoder refused the bytes; the text is its reason.
    DecodingFailed(String),
    /// An analysis setting is out of range; the text names it.
    InvalidConfig(String),
    /// Sampling left too few pixels for the requested clusters.
    InsufficientPixels,
}

/// The message of an error, as users see it.
pub open spec fn error_message(e: AnalyzerError) -> Seq<char> {
    match e {
        AnalyzerError::EmptyBuffer => "AnalyzerError [EmptyBuffer]: The provided buffer is empty."@,
        AnalyzerError::UnsupportedFormat(detail) => "AnalyzerError [UnsupportedFormat]: "@ + detail@
            + ". Supported formats: PNG, JPEG, WebP."@,
        AnalyzerError::DecodingFailed(detail) =>
            "AnalyzerError [DecodingFailed]: The image could not be decoded \u{2014} "@ + detail@
                + "."@,
        AnalyzerError::InvalidConfig(detail) => "AnalyzerError [InvalidConfig]: "@ + detail@
            + "."@,
        AnalyzerError::InsufficientPixels =>
            "AnalyzerError [InsufficientPixels]: Not enough pixels after sampling to form the requested number of clusters. Try reducing max_colors or using Quality::Precise."@,
    }
}

impl AnalyzerError {
    /// The message of the error: its kind in brackets, then what went wrong.
    pub fn to_string(&self) -> (s: String)
        ensures
            s@ == error_message(*self),
    {
        match self {
            AnalyzerError::EmptyBuffer => String::from_str(
                "AnalyzerError [EmptyBuffer]: The provided buffer is empty.",
            ),
            AnalyzerError::UnsupportedFormat(detail) => {
                let mut s = String::from_str("AnalyzerError [UnsupportedFormat]: ");
                s.append(detail.as_str());
                s.append(". Supported formats: PNG, JPEG, WebP.");
                s
            },
            AnalyzerError::DecodingFailed(detail) => {
                let mut s = String::from_str(
                    "AnalyzerError [DecodingFailed]: The image could not be decoded \u{2014} ",
                );
                s.append(detail.as_str());
                s.append(".");
                s
            },
            AnalyzerError::InvalidConfig(detail) => {
                let mut s = String::from_str("AnalyzerError [InvalidConfig]: ");
                s.append(detail.as_str());
                s.append(".");
                s
            },
            AnalyzerError::InsufficientPixels => String::from_str(
                "AnalyzerError [InsufficientPixels]: Not enough pixels after sampling to form the requested number of clusters. Try reducing max_colors or using Quality::Precise.",
            ),
        }
    }
}

} // verus!
