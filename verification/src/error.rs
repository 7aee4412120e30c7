//! The library's error type.
use vstd::prelude::*;
use vstd::string::to_string_from_display_ensures;

verus! {

/// `std::io::Error`, carried through opaquely.
#[verifier::external_type_specification]
#[verifier::external_body]
pub struct ExIoError(std::io::Error);

/// `zip::result::ZipError`, carried through opaquely.
#[verifier::external_type_specification]
#[verifier::external_body]
pub struct ExZipError(zip::result::ZipError);

#[derive(Debug)]
pub enum AppError {
    Io(std::io::Error),
    Zip(zip::result::ZipError),
    MissingRequiredPart(&'static str),
    MalformedXml { part: &'static str, message: String },
    Cli(String),
}

/// What a contract can say of an error: its kind, and its text where it has one.
pub enum AppErrorView {
    Io,
    Zip,
    MissingRequiredPart(Seq<char>),
    MalformedXml { part: Seq<char>, message: Seq<char> },
    Cli(Seq<char>),
}

impl View for AppError {
    type V = AppErrorView;

    open spec fn view(&self) -> AppErrorView {
        match self {
            AppError::Io(_) => AppErrorView::Io,
            AppError::Zip(_) => AppErrorView::Zip,
            AppError::MissingRequiredPart(part) => AppErrorView::MissingRequiredPart(part@),
            AppError::MalformedXml { part, message } => AppErrorView::MalformedXml { part: part@, message: message@ },
            AppError::Cli(message) => AppErrorView::Cli(message@),
        }
    }
}

impl AppError {
    /// The error's message as the program reports it: what went wrong and in which part.
    pub fn message(&self) -> (res: String)
        ensures
            match self {
                AppError::Io(error) => exists|text: String| #[trigger] to_string_from_display_ensures::<std::io::Error>(error, text)
                    && res@ == "I/O error: "@ + text@,
                AppError::Zip(error) => exists|text: String| #[trigger] to_string_from_display_ensures::<zip::result::ZipError>(error, text)
                    && res@ == "zip error: "@ + text@,
                AppError::MissingRequiredPart(part) => res@ == "missing required part: "@ + part@,
                AppError::MalformedXml { part, message } => res@ == "malformed XML in "@ + part@ + ": "@ + message@,
                AppError::Cli(message) => res@ == message@,
            },
    {
        match self {
            AppError::Io(error) => {
                let text = error.to_string();
                let mut out = String::from_str("I/O error: ");
                out.append(text.as_str());
                out
            },
            AppError::Zip(error) => {
                let text = error.to_string();
                let mut out = String::from_str("zip error: ");
                out.append(text.as_str());
                out
            },
            AppError::MissingRequiredPart(part) => {
                let mut out = String::from_str("missing required part: ");
                out.append(part);
                out
            },
            AppError::MalformedXml { part, message } => {
                let mut out = String::from_str("malformed XML in ");
                out.append(part);
                out.append(": ");
                out.append(message.as_str());
                out
            },
            AppError::Cli(message) => message.clone(),
        }
    }
}

} // verus!
