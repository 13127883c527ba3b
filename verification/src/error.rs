//! The errors of the gateway, by kind, and how they are written out.

use crate::quote::push_quoted;
use crate::quote::quoted;
use crate::text::append_chars;
use crate::text::chars_of;
use crate::text::string_of;
use vstd::prelude::*;

verus! {

/// What went wrong. Each kind carries a message for the operator.
#[derive(Clone, Debug, PartialEq, Eq)]
pub enum Error {
    /// The configuration cannot be used.
    Config(String),
    /// The request path has no meaning as a plan.
    PlanParse(String),
    /// An item of the request path names a source that is not configured.
    UnknownSource(String),
    /// An upstream did not deliver.
    Upstream(String),
    /// The file system refused an operation.
    Filesystem(String),
    /// A command ended with a failure: the program and its command line.
    CommandError(String, String),
    /// The address to listen on cannot be used.
    InvalidAddress(String),
    /// Anything else.
    Internal(String),
}

/// An error with its texts as sequences of characters.
pub enum ErrorView {
    Config(Seq<char>),
    PlanParse(Seq<char>),
    UnknownSource(Seq<char>),
    Upstream(Seq<char>),
    Filesystem(Seq<char>),
    CommandError(Seq<char>, Seq<char>),
    InvalidAddress(Seq<char>),
    Internal(Seq<char>),
}

impl View for Error {
    type V = ErrorView;

    open spec fn view(&self) -> ErrorView {
        match self {
            Error::Config(m) => ErrorView::Config(m@),
            Error::PlanParse(m) => ErrorView::PlanParse(m@),
            Error::UnknownSource(m) => ErrorView::UnknownSource(m@),
            Error::Upstream(m) => ErrorView::Upstream(m@),
            Error::Filesystem(m) => ErrorView::Filesystem(m@),
            Error::CommandError(p, c) => ErrorView::CommandError(p@, c@),
            Error::InvalidAddress(m) => ErrorView::InvalidAddress(m@),
            Error::Internal(m) => ErrorView::Internal(m@),
        }
    }
}

/// The name of an error's kind.
pub open spec fn kind_name(e: ErrorView) -> Seq<char> {
    match e {
        ErrorView::Config(_) => "Config"@,
        ErrorView::PlanParse(_) => "PlanParse"@,
        ErrorView::UnknownSource(_) => "UnknownSource"@,
        ErrorView::Upstream(_) => "Upstream"@,
        ErrorView::Filesystem(_) => "Filesystem"@,
        ErrorView::CommandError(_, _) => "CommandError"@,
        ErrorView::InvalidAddress(_) => "InvalidAddress"@,
        ErrorView::Internal(_) => "Internal"@,
    }
}

/// An error written out: the name of its kind, then its texts, quoted, in
/// round brackets, as in `UnknownSource("unknown")`.
pub open spec fn rendered(e: ErrorView) -> Seq<char> {
    match e {
        ErrorView::CommandError(program, line) => kind_name(e) + seq!['('] + quoted(program)
            + seq![',', ' '] + quoted(line) + seq![')'],
        ErrorView::Config(m)
        | ErrorView::PlanParse(m)
        | ErrorView::UnknownSource(m)
        | ErrorView::Upstream(m)
        | ErrorView::Filesystem(m)
        | ErrorView::InvalidAddress(m)
        | ErrorView::Internal(m) => kind_name(e) + seq!['('] + quoted(m) + seq![')'],
    }
}

impl Error {
    /// The error written out for the body of a response.
    pub fn render(&self) -> (text: String)
        ensures
            text@ == rendered(self@),
    {
        let mut out: Vec<char> = Vec::new();
        match self {
            Error::Config(m) => {
                append_chars(&mut out, chars_of("Config").as_slice());
                out.push('(');
                push_quoted(&mut out, m.as_str());
            },
            Error::PlanParse(m) => {
                append_chars(&mut out, chars_of("PlanParse").as_slice());
                out.push('(');
                push_quoted(&mut out, m.as_str());
            },
            Error::UnknownSource(m) => {
                append_chars(&mut out, chars_of("UnknownSource").as_slice());
                out.push('(');
                push_quoted(&mut out, m.as_str());
            },
            Error::Upstream(m) => {
                append_chars(&mut out, chars_of("Upstream").as_slice());
                out.push('(');
                push_quoted(&mut out, m.as_str());
            },
            Error::Filesystem(m) => {
                append_chars(&mut out, chars_of("Filesystem").as_slice());
                out.push('(');
                push_quoted(&mut out, m.as_str());
            },
            Error::CommandError(program, line) => {
                append_chars(&mut out, chars_of("CommandError").as_slice());
                out.push('(');
                push_quoted(&mut out, program.as_str());
                out.push(',');
                out.push(' ');
                push_quoted(&mut out, line.as_str());
            },
            Error::InvalidAddress(m) => {
                append_chars(&mut out, chars_of("InvalidAddress").as_slice());
                out.push('(');
                push_quoted(&mut out, m.as_str());
            },
            Error::Internal(m) => {
                append_chars(&mut out, chars_of("Internal").as_slice());
                out.push('(');
                push_quoted(&mut out, m.as_str());
            },
        }
        out.push(')');
        assert(out@ =~= rendered(self@));
        string_of(out.as_slice())
    }
}

} // verus!
