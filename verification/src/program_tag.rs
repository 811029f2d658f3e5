//! Tags of a program record: the fixed two-letter keys and the catch-all for
//! any other two-character key.

use vstd::prelude::*;
use crate::text::str_eq;

verus! {

/// A program record tag.
#[derive(Clone, Debug, Hash, Eq)]
pub enum Tag {
    /// Program id (`ID`).
    Id,
    /// Program name (`PN`).
    Name,
    /// Command line (`CL`).
    CommandLine,
    /// Previous program id (`PP`).
    PreviousId,
    /// Description (`DS`).
    Description,
    /// Program version (`VN`).
    Version,
    /// Any other two-character tag.
    Other(String),
}

/// An error returned when a raw program tag fails to parse: it holds the
/// rejected input.
#[derive(Debug)]
pub struct ParseError(String);

impl ParseError {
    /// The rejected input.
    pub closed spec fn input(self) -> Seq<char> {
        self.0@
    }
}

/// Whether `s` is one of the six fixed program tags.
pub open spec fn is_fixed_tag(s: Seq<char>) -> bool {
    s == "ID"@ || s == "PN"@ || s == "CL"@ || s == "PP"@ || s == "DS"@ || s == "VN"@
}

impl Tag {
    /// Parses a raw program tag: one of the six fixed tags, else any other
    /// two-character key; anything else is rejected.
    pub fn from_str(s: &str) -> (r: Result<Tag, ParseError>)
        ensures
            s@ == "ID"@ ==> r == Ok::<Tag, ParseError>(Tag::Id),
            s@ == "PN"@ ==> r == Ok::<Tag, ParseError>(Tag::Name),
            s@ == "CL"@ ==> r == Ok::<Tag, ParseError>(Tag::CommandLine),
            s@ == "PP"@ ==> r == Ok::<Tag, ParseError>(Tag::PreviousId),
            s@ == "DS"@ ==> r == Ok::<Tag, ParseError>(Tag::Description),
            s@ == "VN"@ ==> r == Ok::<Tag, ParseError>(Tag::Version),
            !is_fixed_tag(s@) && s@.len() == 2 ==> (r matches Ok(Tag::Other(o)) && o@ == s@),
            !is_fixed_tag(s@) && s@.len() != 2 ==> (r matches Err(e) && e.input() == s@),
    {
        proof {
            reveal_strlit("ID");
            reveal_strlit("PN");
            reveal_strlit("CL");
            reveal_strlit("PP");
            reveal_strlit("DS");
            reveal_strlit("VN");
            assert("ID"@[0] == 'I' && "PN"@[0] == 'P' && "CL"@[0] == 'C' && "PP"@[0] == 'P'
                && "DS"@[0] == 'D' && "VN"@[0] == 'V');
            assert("PN"@[1] == 'N' && "PP"@[1] == 'P');
        }
        if str_eq(s, "ID") {
            Ok(Tag::Id)
        } else if str_eq(s, "PN") {
            Ok(Tag::Name)
        } else if str_eq(s, "CL") {
            Ok(Tag::CommandLine)
        } else if str_eq(s, "PP") {
            Ok(Tag::PreviousId)
        } else if str_eq(s, "DS") {
            Ok(Tag::Description)
        } else if str_eq(s, "VN") {
            Ok(Tag::Version)
        } else if s.unicode_len() == 2 {
            Ok(Tag::Other(String::from_str(s)))
        } else {
            Err(ParseError(String::from_str(s)))
        }
    }

    /// What equality on tags means: same variant, and for the catch-all the
    /// same characters.
    pub open spec fn eq_spec_with(self, other: Tag) -> bool {
        match (self, other) {
            (Tag::Id, Tag::Id) => true,
            (Tag::Name, Tag::Name) => true,
            (Tag::CommandLine, Tag::CommandLine) => true,
            (Tag::PreviousId, Tag::PreviousId) => true,
            (Tag::Description, Tag::Description) => true,
            (Tag::Version, Tag::Version) => true,
            (Tag::Other(a), Tag::Other(b)) => a@ == b@,
            _ => false,
        }
    }
}

impl PartialEq for Tag {
    fn eq(&self, other: &Tag) -> (r: bool) {
        match (self, other) {
            (Tag::Id, Tag::Id) => true,
            (Tag::Name, Tag::Name) => true,
            (Tag::CommandLine, Tag::CommandLine) => true,
            (Tag::PreviousId, Tag::PreviousId) => true,
            (Tag::Description, Tag::Description) => true,
            (Tag::Version, Tag::Version) => true,
            (Tag::Other(a), Tag::Other(b)) => str_eq(a.as_str(), b.as_str()),
            _ => false,
        }
    }
}

impl vstd::std_specs::cmp::PartialEqSpecImpl for Tag {
    open spec fn obeys_eq_spec() -> bool {
        true
    }

    open spec fn eq_spec(&self, other: &Tag) -> bool {
        self.eq_spec_with(*other)
    }
}

impl core::str::FromStr for Tag {
    type Err = ParseError;

    fn from_str(s: &str) -> Result<Tag, ParseError> {
        Tag::from_str(s)
    }
}

} // verus!
