//! The typed failures of a parse.
use vstd::prelude::*;
use crate::text::push_text;

verus! {

/// A failed parse; each variant carries the offending option's display name
/// or the raw token.
#[derive(Debug, Clone, PartialEq, Eq)]
pub enum Fail {
    MissingArgument(String),
    UnknownArgument(String),
    DuplicatedArgument(String),
    UnexpectedArgument(String),
}

/// The mathematical value of a [`Fail`].
pub enum FailModel {
    Missing(Seq<char>),
    Unknown(Seq<char>),
    Duplicated(Seq<char>),
    Unexpected(Seq<char>),
}

impl View for Fail {
    type V = FailModel;

    open spec fn view(&self) -> FailModel {
        match self {
            Fail::MissingArgument(s) => FailModel::Missing(s@),
            Fail::UnknownArgument(s) => FailModel::Unknown(s@),
            Fail::DuplicatedArgument(s) => FailModel::Duplicated(s@),
            Fail::UnexpectedArgument(s) => FailModel::Unexpected(s@),
        }
    }
}

impl FailModel {
    /// The short phrase naming the kind of failure.
    pub open spec fn kind_text(self) -> Seq<char> {
        match self {
            FailModel::Missing(_) => "missing argument"@,
            FailModel::Unknown(_) => "unknown argument"@,
            FailModel::Duplicated(_) => "duplicated argument"@,
            FailModel::Unexpected(_) => "unexpected argument"@,
        }
    }

    /// The name or token the failure is about.
    pub open spec fn subject(self) -> Seq<char> {
        match self {
            FailModel::Missing(s) => s,
            FailModel::Unknown(s) => s,
            FailModel::Duplicated(s) => s,
            FailModel::Unexpected(s) => s,
        }
    }
}

impl Fail {
    /// The short phrase naming the kind of failure.
    pub fn description(&self) -> (r: &'static str)
        ensures
            r@ == self@.kind_text(),
    {
        match self {
            Fail::MissingArgument(_) => "missing argument",
            Fail::UnknownArgument(_) => "unknown argument",
            Fail::DuplicatedArgument(_) => "duplicated argument",
            Fail::UnexpectedArgument(_) => "unexpected argument",
        }
    }

    /// One explanatory sentence naming the offending option, ended by a newline.
    pub fn to_string(&self) -> (r: String)
        ensures
            r@ == self@.kind_text() + ": "@ + self@.subject() + ".\n"@,
    {
        let mut r = String::new();
        let name = match self {
            Fail::MissingArgument(s) => s,
            Fail::UnknownArgument(s) => s,
            Fail::DuplicatedArgument(s) => s,
            Fail::UnexpectedArgument(s) => s,
        };
        push_text(&mut r, self.description());
        push_text(&mut r, ": ");
        push_text(&mut r, name.as_str());
        push_text(&mut r, ".\n");
        r
    }
}

} // verus!
