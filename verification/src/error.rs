//! Error type of the library.

use vstd::prelude::*;
use crate::text::{push_str, push_decimal, decimal};

verus! {

/// Errors reported by the parser, the configuration helpers and the widgets.
#[derive(Debug, Clone, PartialEq)]
pub enum WezzteError {
    /// Decoration parsing failed at a byte position.
    Parse { message: String, position: usize },
    /// A file operation failed.
    Io { message: String },
    /// Configuration content is not usable.
    Config { message: String },
    /// The decorator line is malformed.
    InvalidDecoration { message: String },
    /// A required parameter is absent.
    MissingParameter { param: String },
    /// A parameter has an unusable value.
    InvalidParameter { param: String, message: String },
    /// A file does not exist.
    FileNotFound { path: String },
    /// Access to a file was refused.
    PermissionDenied { path: String },
}

/// Mathematical model of [`WezzteError`].
pub enum ErrorView {
    Parse { message: Seq<char>, position: usize },
    Io { message: Seq<char> },
    Config { message: Seq<char> },
    InvalidDecoration { message: Seq<char> },
    MissingParameter { param: Seq<char> },
    InvalidParameter { param: Seq<char>, message: Seq<char> },
    FileNotFound { path: Seq<char> },
    PermissionDenied { path: Seq<char> },
}

impl View for WezzteError {
    type V = ErrorView;

    open spec fn view(&self) -> ErrorView {
        match self {
            WezzteError::Parse { message, position } => ErrorView::Parse {
                message: message@,
                position: *position,
            },
            WezzteError::Io { message } => ErrorView::Io { message: message@ },
            WezzteError::Config { message } => ErrorView::Config { message: message@ },
            WezzteError::InvalidDecoration { message } => ErrorView::InvalidDecoration {
                message: message@,
            },
            WezzteError::MissingParameter { param } => ErrorView::MissingParameter {
                param: param@,
            },
            WezzteError::InvalidParameter { param, message } => ErrorView::InvalidParameter {
                param: param@,
                message: message@,
            },
            WezzteError::FileNotFound { path } => ErrorView::FileNotFound { path: path@ },
            WezzteError::PermissionDenied { path } => ErrorView::PermissionDenied { path: path@ },
        }
    }
}

/// How a file operation failed, as far as the error conversion distinguishes it.
pub enum IoFailure {
    NotFound,
    PermissionDenied,
    Other { description: String },
}

/// The human-readable text of an error.
pub open spec fn error_text(e: ErrorView) -> Seq<char> {
    match e {
        ErrorView::Parse { message, position } => "Parse error at position "@ + decimal(
            position as nat,
        ) + ": "@ + message,
        ErrorView::Io { message } => "IO error: "@ + message,
        ErrorView::Config { message } => "Config error: "@ + message,
        ErrorView::InvalidDecoration { message } => "Invalid decoration: "@ + message,
        ErrorView::MissingParameter { param } => "Missing required parameter: "@ + param,
        ErrorView::InvalidParameter { param, message } => "Invalid parameter value for '"@
            + param + "': "@ + message,
        ErrorView::FileNotFound { path } => "File not found: "@ + path,
        ErrorView::PermissionDenied { path } => "Permission denied: "@ + path,
    }
}

impl WezzteError {
    /// Create a new parse error.
    pub fn parse(message: String, position: usize) -> (e: WezzteError)
        ensures
            e@ == (ErrorView::Parse { message: message@, position }),
    {
        WezzteError::Parse { message, position }
    }

    /// Create a new IO error.
    pub fn io(message: String) -> (e: WezzteError)
        ensures
            e@ == (ErrorView::Io { message: message@ }),
    {
        WezzteError::Io { message }
    }

    /// Create a new config error.
    pub fn config(message: String) -> (e: WezzteError)
        ensures
            e@ == (ErrorView::Config { message: message@ }),
    {
        WezzteError::Config { message }
    }

    /// Create a new invalid decoration error.
    pub fn invalid_decoration(message: String) -> (e: WezzteError)
        ensures
            e@ == (ErrorView::InvalidDecoration { message: message@ }),
    {
        WezzteError::InvalidDecoration { message }
    }

    /// Create a new missing parameter error.
    pub fn missing_parameter(param: String) -> (e: WezzteError)
        ensures
            e@ == (ErrorView::MissingParameter { param: param@ }),
    {
        WezzteError::MissingParameter { param }
    }

    /// Create a new invalid parameter error.
    pub fn invalid_parameter(param: String, message: String) -> (e: WezzteError)
        ensures
            e@ == (ErrorView::InvalidParameter { param: param@, message: message@ }),
    {
        WezzteError::InvalidParameter { param, message }
    }

    /// An invalid parameter error for the parameter named by a literal.
    pub(crate) fn invalid_param(param: &str, message: String) -> (e: WezzteError)
        ensures
            e@ == (ErrorView::InvalidParameter { param: param@, message: message@ }),
    {
        let mut p = String::new();
        push_str(&mut p, param);
        assert(p@ =~= param@);
        WezzteError::InvalidParameter { param: p, message }
    }

    /// The error for a failed file operation: a missing file and a refused
    /// access get their own variants (with an unknown path), anything else
    /// becomes an IO error carrying the failure's description.
    pub fn from_io_failure(failure: IoFailure) -> (e: WezzteError)
        ensures
            failure is NotFound ==> e@ == (ErrorView::FileNotFound { path: "unknown"@ }),
            failure is PermissionDenied ==> e@ == (ErrorView::PermissionDenied {
                path: "unknown"@,
            }),
            failure matches IoFailure::Other { description } ==> e@ == (ErrorView::Io {
                message: description@,
            }),
    {
        match failure {
            IoFailure::NotFound => {
                let mut path = String::new();
                push_str(&mut path, "unknown");
                assert(path@ =~= "unknown"@);
                WezzteError::FileNotFound { path }
            },
            IoFailure::PermissionDenied => {
                let mut path = String::new();
                push_str(&mut path, "unknown");
                assert(path@ =~= "unknown"@);
                WezzteError::PermissionDenied { path }
            },
            IoFailure::Other { description } => WezzteError::io(description),
        }
    }

    /// The human-readable text of this error.
    pub fn to_text(&self) -> (r: String)
        ensures
            r@ == error_text(self@),
    {
        let mut out = String::new();
        match self {
            WezzteError::Parse { message, position } => {
                push_str(&mut out, "Parse error at position ");
                push_decimal(&mut out, *position as u64);
                push_str(&mut out, ": ");
                push_str(&mut out, message.as_str());
            },
            WezzteError::Io { message } => {
                push_str(&mut out, "IO error: ");
                push_str(&mut out, message.as_str());
            },
            WezzteError::Config { message } => {
                push_str(&mut out, "Config error: ");
                push_str(&mut out, message.as_str());
            },
            WezzteError::InvalidDecoration { message } => {
                push_str(&mut out, "Invalid decoration: ");
                push_str(&mut out, message.as_str());
            },
            WezzteError::MissingParameter { param } => {
                push_str(&mut out, "Missing required parameter: ");
                push_str(&mut out, param.as_str());
            },
            WezzteError::InvalidParameter { param, message } => {
                push_str(&mut out, "Invalid parameter value for '");
                push_str(&mut out, param.as_str());
                push_str(&mut out, "': ");
                push_str(&mut out, message.as_str());
            },
            WezzteError::FileNotFound { path } => {
                push_str(&mut out, "File not found: ");
                push_str(&mut out, path.as_str());
            },
            WezzteError::PermissionDenied { path } => {
                push_str(&mut out, "Permission denied: ");
                push_str(&mut out, path.as_str());
            },
        }
        assert(out@ =~= error_text(self@));
        out
    }
}

} // verus!
