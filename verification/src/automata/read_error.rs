use vstd::prelude::*;

use super::line_counter::{span_text, Span};
use crate::text::cat3;

verus! {

/// An error met while reading a file, with the region where it was met.
#[derive(Debug)]
pub struct ReadError<'a> {
    span: Span<'a>,
    message: String,
}

impl<'a> ReadError<'a> {
    /// Where the error was met.
    pub closed spec fn spec_span(&self) -> Span<'a> {
        self.span
    }

    /// What went wrong.
    pub closed spec fn spec_message(&self) -> Seq<char> {
        self.message@
    }

    /// The region where the error was met.
    pub fn span(&self) -> (r: Span<'a>)
        ensures
            r == self.spec_span(),
    {
        self.span
    }

    /// The error as it is shown: the region, then the message on a line of
    /// its own.
    pub fn to_string(&self) -> (r: String)
        ensures
            r@ == span_text(self.spec_span().file@, self.spec_span().start, self.spec_span().end) + "\n"@ + self.spec_message(),
    {
        let s = self.span.to_string();
        cat3(s.as_str(), "\n", self.message.as_str())
    }
}

impl<'a> From<(Span<'a>, String)> for ReadError<'a> {
    fn from(desc: (Span<'a>, String)) -> (r: Self)
        ensures
            r.spec_span() == desc.0,
            r.spec_message() == desc.1@,
    {
        ReadError { span: desc.0, message: desc.1 }
    }
}

impl<'a> vstd::std_specs::convert::FromSpecImpl<(Span<'a>, String)> for ReadError<'a> {
    open spec fn obeys_from_spec() -> bool {
        true
    }

    closed spec fn from_spec(v: (Span<'a>, String)) -> Self {
        ReadError { span: v.0, message: v.1 }
    }
}

} // verus!
