//! The errors that end a run.

use vstd::prelude::*;
use vstd::string::StringExecFns;

verus! {

/// Why a run was given up. Each of them ends the run before anything is
/// listed.
#[derive(Debug)]
pub enum PipelineError {
    /// Neither the arguments nor the configuration name a root directory.
    ConfigError,
    /// The root directory does not exist.
    MissingDirectory { path: String },
    /// Score filters are set, and no metadata file is named.
    MissingMetadataSource,
    /// The metadata file could not be read or understood.
    MetadataLoadError { path: String, cause: String },
}

/// What an error means, with its texts as sequences of characters.
pub enum PipelineErrorView {
    ConfigError,
    MissingDirectory { path: Seq<char> },
    MissingMetadataSource,
    MetadataLoadError { path: Seq<char>, cause: Seq<char> },
}

impl View for PipelineError {
    type V = PipelineErrorView;

    open spec fn view(&self) -> PipelineErrorView {
        match self {
            PipelineError::ConfigError => PipelineErrorView::ConfigError,
            PipelineError::MissingDirectory { path } => PipelineErrorView::MissingDirectory {
                path: path@,
            },
            PipelineError::MissingMetadataSource => PipelineErrorView::MissingMetadataSource,
            PipelineError::MetadataLoadError { path, cause } => {
                PipelineErrorView::MetadataLoadError { path: path@, cause: cause@ }
            },
        }
    }
}

impl PipelineErrorView {
    /// The text that reports the error, naming the directory or file that
    /// it is about.
    pub open spec fn message(self) -> Seq<char> {
        match self {
            PipelineErrorView::ConfigError => "root directory must be specified"@,
            PipelineErrorView::MissingDirectory { path } => "could not find directory: "@ + path,
            PipelineErrorView::MissingMetadataSource => "No metadata file provided!"@,
            PipelineErrorView::MetadataLoadError { path, cause } => "could not load metadata from "@
                + path + ": "@ + cause,
        }
    }
}

impl PipelineError {
    /// The text that reports the error.
    pub fn message(&self) -> (text: String)
        ensures
            text@ == self@.message(),
    {
        match self {
            PipelineError::ConfigError => String::from_str("root directory must be specified"),
            PipelineError::MissingDirectory { path } => {
                String::from_str("could not find directory: ").concat(path.as_str())
            },
            PipelineError::MissingMetadataSource => String::from_str("No metadata file provided!"),
            PipelineError::MetadataLoadError { path, cause } => {
                String::from_str("could not load metadata from ").concat(path.as_str()).concat(
                    ": ",
                ).concat(cause.as_str())
            },
        }
    }
}

} // verus!
