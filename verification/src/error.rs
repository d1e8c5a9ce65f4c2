//! The errors of a run, and their messages.
use crate::text::{decimal, from_chars, push_decimal, push_str};
use vstd::prelude::*;

verus! {

/// `std::io::Error` of the standard library: the cause that the operating
/// system gave for a failed read or write. The type is declared without its
/// content: the library carries such a value and claims nothing of it.
#[verifier::external_type_specification]
#[verifier::external_body]
pub struct ExIoError(std::io::Error);

/// What can end a run.
#[derive(Debug)]
pub enum AppError {
    /// The input directory cannot be listed.
    ReadDir { path: String, source: std::io::Error },
    /// An input file cannot be read.
    ReadFile { path: String, source: std::io::Error },
    /// The output file cannot be written.
    WriteFile { path: String, source: std::io::Error },
    /// The root tag of a file does not parse.
    ParseSvg { path: String, message: String },
    /// The input directory holds no icon.
    NoSvgFiles { path: String },
    /// Two files emit the same id.
    IdCollision { id: String, first_path: String, second_path: String },
    /// The id of a root tag is referred to inside the file.
    RootIdReferenced { path: String, id: String },
    /// The id of a root tag is empty once sanitized.
    InvalidIdAfterSanitize { path: String, original: String },
    /// A `width` or `height` is no number above zero.
    InvalidDimension { path: String, attr: String, value: String },
    /// A `viewBox` is malformed, or its width or height is not above zero.
    InvalidViewBox { path: String, value: String },
    /// Warnings were given and are to be taken as errors.
    WarningsPresent { count: usize },
}

/// What an error holds, as texts.
pub enum ErrorModel {
    ReadDir { path: Seq<char>, source: std::io::Error },
    ReadFile { path: Seq<char>, source: std::io::Error },
    WriteFile { path: Seq<char>, source: std::io::Error },
    ParseSvg { path: Seq<char>, message: Seq<char> },
    NoSvgFiles { path: Seq<char> },
    IdCollision { id: Seq<char>, first_path: Seq<char>, second_path: Seq<char> },
    RootIdReferenced { path: Seq<char>, id: Seq<char> },
    InvalidIdAfterSanitize { path: Seq<char>, original: Seq<char> },
    InvalidDimension { path: Seq<char>, attr: Seq<char>, value: Seq<char> },
    InvalidViewBox { path: Seq<char>, value: Seq<char> },
    WarningsPresent { count: nat },
}

impl View for AppError {
    type V = ErrorModel;

    open spec fn view(&self) -> ErrorModel {
        match *self {
            AppError::ReadDir { path, source } => ErrorModel::ReadDir { path: path@, source },
            AppError::ReadFile { path, source } => ErrorModel::ReadFile { path: path@, source },
            AppError::WriteFile { path, source } => ErrorModel::WriteFile { path: path@, source },
            AppError::ParseSvg { path, message } => ErrorModel::ParseSvg {
                path: path@,
                message: message@,
            },
            AppError::NoSvgFiles { path } => ErrorModel::NoSvgFiles { path: path@ },
            AppError::IdCollision { id, first_path, second_path } => ErrorModel::IdCollision {
                id: id@,
                first_path: first_path@,
                second_path: second_path@,
            },
            AppError::RootIdReferenced { path, id } => ErrorModel::RootIdReferenced {
                path: path@,
                id: id@,
            },
            AppError::InvalidIdAfterSanitize { path, original } => {
                ErrorModel::InvalidIdAfterSanitize { path: path@, original: original@ }
            },
            AppError::InvalidDimension { path, attr, value } => ErrorModel::InvalidDimension {
                path: path@,
                attr: attr@,
                value: value@,
            },
            AppError::InvalidViewBox { path, value } => ErrorModel::InvalidViewBox {
                path: path@,
                value: value@,
            },
            AppError::WarningsPresent { count } => ErrorModel::WarningsPresent {
                count: count as nat,
            },
        }
    }
}

/// The message of an error.
pub open spec fn message_of(e: ErrorModel) -> Seq<char> {
    match e {
        ErrorModel::ReadDir { path, .. } => "failed to read directory: "@ + path,
        ErrorModel::ReadFile { path, .. } => "failed to read file: "@ + path,
        ErrorModel::WriteFile { path, .. } => "failed to write file: "@ + path,
        ErrorModel::ParseSvg { path, message } => "failed to parse svg ("@ + path + "): "@
            + message,
        ErrorModel::NoSvgFiles { path } => "no SVG files found in directory: "@ + path,
        ErrorModel::IdCollision { id, first_path, second_path } => "duplicate id '"@ + id
            + "' found in "@ + second_path + "; already defined in "@ + first_path,
        ErrorModel::RootIdReferenced { path, id } => "root <svg> id '"@ + id + "' in "@ + path
            + " is referenced inside the document; root ids are moved to data-id"@,
        ErrorModel::InvalidIdAfterSanitize { path, original } => "id '"@ + original + "' in "@
            + path + " is empty after sanitization"@,
        ErrorModel::InvalidDimension { path, attr, value } => "invalid "@ + attr + "='"@ + value
            + "' in "@ + path + "; expected positive number (optionally 'px')"@,
        ErrorModel::InvalidViewBox { path, value } => "invalid viewBox='"@ + value + "' in "@
            + path + "; expected four numbers with positive width/height"@,
        ErrorModel::WarningsPresent { count } => "aborting due to "@ + decimal(count)
            + " warning(s) (use --no-fail-on-warn to ignore)"@,
    }
}

impl AppError {
    /// The message of the error, for a person to read.
    pub fn message(&self) -> (r: String)
        ensures
            r@ == message_of(self@),
    {
        let mut out: Vec<char> = Vec::new();
        match self {
            AppError::ReadDir { path, .. } => {
                push_str(&mut out, "failed to read directory: ");
                push_str(&mut out, path.as_str());
            },
            AppError::ReadFile { path, .. } => {
                push_str(&mut out, "failed to read file: ");
                push_str(&mut out, path.as_str());
            },
            AppError::WriteFile { path, .. } => {
                push_str(&mut out, "failed to write file: ");
                push_str(&mut out, path.as_str());
            },
            AppError::ParseSvg { path, message } => {
                push_str(&mut out, "failed to parse svg (");
                push_str(&mut out, path.as_str());
                push_str(&mut out, "): ");
                push_str(&mut out, message.as_str());
            },
            AppError::NoSvgFiles { path } => {
                push_str(&mut out, "no SVG files found in directory: ");
                push_str(&mut out, path.as_str());
            },
            AppError::IdCollision { id, first_path, second_path } => {
                push_str(&mut out, "duplicate id '");
                push_str(&mut out, id.as_str());
                push_str(&mut out, "' found in ");
                push_str(&mut out, second_path.as_str());
                push_str(&mut out, "; already defined in ");
                push_str(&mut out, first_path.as_str());
            },
            AppError::RootIdReferenced { path, id } => {
                push_str(&mut out, "root <svg> id '");
                push_str(&mut out, id.as_str());
                push_str(&mut out, "' in ");
                push_str(&mut out, path.as_str());
                push_str(
                    &mut out,
                    " is referenced inside the document; root ids are moved to data-id",
                );
            },
            AppError::InvalidIdAfterSanitize { path, original } => {
                push_str(&mut out, "id '");
                push_str(&mut out, original.as_str());
                push_str(&mut out, "' in ");
                push_str(&mut out, path.as_str());
                push_str(&mut out, " is empty after sanitization");
            },
            AppError::InvalidDimension { path, attr, value } => {
                push_str(&mut out, "invalid ");
                push_str(&mut out, attr.as_str());
                push_str(&mut out, "='");
                push_str(&mut out, value.as_str());
                push_str(&mut out, "' in ");
                push_str(&mut out, path.as_str());
                push_str(&mut out, "; expected positive number (optionally 'px')");
            },
            AppError::InvalidViewBox { path, value } => {
                push_str(&mut out, "invalid viewBox='");
                push_str(&mut out, value.as_str());
                push_str(&mut out, "' in ");
                push_str(&mut out, path.as_str());
                push_str(&mut out, "; expected four numbers with positive width/height");
            },
            AppError::WarningsPresent { count } => {
                push_str(&mut out, "aborting due to ");
                push_decimal(&mut out, *count);
                push_str(&mut out, " warning(s) (use --no-fail-on-warn to ignore)");
            },
        }
        proof {
            assert(out@ =~= message_of(self@));
        }
        from_chars(out.as_slice())
    }

    /// The cause behind the error, where the operating system gave one.
    pub fn source(&self) -> (r: Option<&std::io::Error>)
        ensures
            r == match *self {
                AppError::ReadDir { source, .. } => Some(&source),
                AppError::ReadFile { source, .. } => Some(&source),
                AppError::WriteFile { source, .. } => Some(&source),
                _ => None,
            },
    {
        match self {
            AppError::ReadDir { source, .. } => Some(source),
            AppError::ReadFile { source, .. } => Some(source),
            AppError::WriteFile { source, .. } => Some(source),
            _ => None,
        }
    }
}

} // verus!
