use vstd::prelude::*;

verus! {

/// Why an inlining call failed.
#[derive(Debug, Clone, PartialEq, Eq)]
pub enum FilePathError {
    /// A referenced file does not exist; the string names it.
    InvalidPath(String),
    /// Any other failure while reading a file: the path, then the cause.
    FileReadError(String, String),
    /// A stylesheet was reached twice, by a duplicate import or an import cycle.
    RepeatedFile,
    /// The file store holds no outcome yet for this path: read it, record the
    /// outcome, and call again.
    Unread(String),
}

/// The mathematical value of a [`FilePathError`].
pub enum ErrorView {
    InvalidPath(Seq<char>),
    FileReadError(Seq<char>, Seq<char>),
    RepeatedFile,
    Unread(Seq<char>),
}

impl FilePathError {
    pub open spec fn view(&self) -> ErrorView {
        match self {
            FilePathError::InvalidPath(s) => ErrorView::InvalidPath(s@),
            FilePathError::FileReadError(p, c) => ErrorView::FileReadError(p@, c@),
            FilePathError::RepeatedFile => ErrorView::RepeatedFile,
            FilePathError::Unread(p) => ErrorView::Unread(p@),
        }
    }

    /// A short description of the kind of error.
    pub fn description(&self) -> (r: String)
        ensures
            r@ == error_description(self@),
    {
        match self {
            FilePathError::InvalidPath(_) => String::from_str("Invalid path, file not found"),
            FilePathError::FileReadError(_, _) => String::from_str("Error during file reading"),
            FilePathError::RepeatedFile => String::from_str(
                "File is imported twice, or there is a circular dependency",
            ),
            FilePathError::Unread(_) => String::from_str("File has not been read yet"),
        }
    }

    /// The full message of the error, with the path or cause it carries.
    pub fn message(&self) -> (r: String)
        ensures
            r@ == error_message(self@),
    {
        match self {
            FilePathError::InvalidPath(line) => {
                let mut m = String::from_str("Invalid path: ");
                m.append(line.as_str());
                m
            },
            FilePathError::FileReadError(cause, io_err) => {
                let mut m = String::from_str("Cause: ");
                m.append(cause.as_str());
                m.append(", File read error: ");
                m.append(io_err.as_str());
                m
            },
            FilePathError::RepeatedFile => String::from_str(
                "A file is imported twice, or there is a circular dependency",
            ),
            FilePathError::Unread(path) => {
                let mut m = String::from_str("File not read yet: ");
                m.append(path.as_str());
                m
            },
        }
    }
}

pub open spec fn error_description(e: ErrorView) -> Seq<char> {
    match e {
        ErrorView::InvalidPath(_) => "Invalid path, file not found"@,
        ErrorView::FileReadError(_, _) => "Error during file reading"@,
        ErrorView::RepeatedFile => "File is imported twice, or there is a circular dependency"@,
        ErrorView::Unread(_) => "File has not been read yet"@,
    }
}

pub open spec fn error_message(e: ErrorView) -> Seq<char> {
    match e {
        ErrorView::InvalidPath(line) => "Invalid path: "@ + line,
        ErrorView::FileReadError(cause, io_err) => "Cause: "@ + cause + ", File read error: "@
            + io_err,
        ErrorView::RepeatedFile => "A file is imported twice, or there is a circular dependency"@,
        ErrorView::Unread(path) => "File not read yet: "@ + path,
    }
}

/// What to inline.
#[derive(Debug, Clone, Copy, PartialEq, Eq)]
pub struct Config {
    /// Whether to embed the fonts of `@font-face` rules as base64 data.
    pub inline_fonts: bool,
    /// Whether to turn every line break of the output into a space.
    pub remove_new_lines: bool,
}

impl Default for Config {
    /// Enables everything.
    fn default() -> (r: Config)
        ensures
            r.inline_fonts,
            r.remove_new_lines,
    {
        Config { inline_fonts: true, remove_new_lines: true }
    }
}

} // verus!
