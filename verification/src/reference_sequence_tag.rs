//! Tags of a reference-sequence record: the fixed two-letter keys and the
//! catch-all for any other two-character key.

use vstd::prelude::*;
use crate::text::str_eq;

verus! {

/// A reference-sequence record tag.
#[derive(Clone, Debug, Hash, Eq)]
pub enum Tag {
    /// Reference sequence name (`SN`).
    Name,
    /// Reference sequence length (`LN`).
    Len,
    /// MD5 checksum of the sequence (`M5`).
    Md5Checksum,
    /// Any other two-character tag.
    Other(String),
}

/// An error returned when a raw reference-sequence tag fails to parse: it
/// holds the rejected input.
#[derive(Debug)]
pub struct ParseError(String);

impl ParseError {
    /// The rejected input.
    pub closed spec fn input(self) -> Seq<char> {
        self.0@
    }
}

/// Whether `s` is one of the fixed reference-sequence tags.
pub open spec fn is_fixed_tag(s: Seq<char>) -> bool {
    s == "SN"@ || s == "LN"@ || s == "M5"@
}

impl Tag {
    /// The characters of the tag's key.
    pub open spec fn spec_str(self) -> Seq<char> {
        match self {
            Tag::Name => "SN"@,
            Tag::Len => "LN"@,
            Tag::Md5Checksum => "M5"@,
            Tag::Other(s) => s@,
        }
    }

    /// The tag's key.
    pub fn as_str(&self) -> (r: &str)
        ensures
            r@ == self.spec_str(),
    {
        match self {
            Tag::Name => "SN",
            Tag::Len => "LN",
            Tag::Md5Checksum => "M5",
            Tag::Other(s) => s.as_str(),
        }
    }

    /// Whether the tag is in normal form: the catch-all variant never holds
    /// a fixed tag's key. Every tag `from_str` returns is in normal form.
    pub open spec fn canonical(self) -> bool {
        match self {
            Tag::Other(s) => !is_fixed_tag(s@),
            _ => true,
        }
    }

    /// Parses a raw reference-sequence tag: one of the fixed tags, else any
    /// other two-character key; anything else is rejected.
    pub fn from_str(s: &str) -> (r: Result<Tag, ParseError>)
        ensures
            s@ == "SN"@ ==> r == Ok::<Tag, ParseError>(Tag::Name),
            s@ == "LN"@ ==> r == Ok::<Tag, ParseError>(Tag::Len),
            s@ == "M5"@ ==> r == Ok::<Tag, ParseError>(Tag::Md5Checksum),
            !is_fixed_tag(s@) && s@.len() == 2 ==> (r matches Ok(Tag::Other(o)) && o@ == s@),
            !is_fixed_tag(s@) && s@.len() != 2 ==> (r matches Err(e) && e.input() == s@),
            r matches Ok(t) ==> t.spec_str() == s@ && t.canonical(),
            r is Err <==> (!is_fixed_tag(s@) && s@.len() != 2),
    {
        proof {
            reveal_strlit("SN");
            reveal_strlit("LN");
            reveal_strlit("M5");
            assert("SN"@[0] == 'S' && "LN"@[0] == 'L' && "M5"@[0] == 'M');
        }
        if str_eq(s, "SN") {
            Ok(Tag::Name)
        } else if str_eq(s, "LN") {
            Ok(Tag::Len)
        } else if str_eq(s, "M5") {
            Ok(Tag::Md5Checksum)
        } else if s.unicode_len() == 2 {
            Ok(Tag::Other(String::from_str(s)))
        } else {
            Err(ParseError(String::from_str(s)))
        }
    }

    /// For tags in normal form, tag equality is exactly key equality.
    pub proof fn lemma_canonical_eq(a: Tag, b: Tag)
        requires
            a.canonical(),
            b.canonical(),
        ensures
            a.eq_spec_with(b) <==> a.spec_str() == b.spec_str(),
    {
        reveal_strlit("SN");
        reveal_strlit("LN");
        reveal_strlit("M5");
        assert("SN"@[0] == 'S' && "LN"@[0] == 'L' && "M5"@[0] == 'M');
    }

    /// What equality on tags means: the same key characters.
    pub open spec fn eq_spec_with(self, other: Tag) -> bool {
        match (self, other) {
            (Tag::Name, Tag::Name) => true,
            (Tag::Len, Tag::Len) => true,
            (Tag::Md5Checksum, Tag::Md5Checksum) => true,
            (Tag::Other(a), Tag::Other(b)) => a@ == b@,
            _ => false,
        }
    }
}

impl PartialEq for Tag {
    fn eq(&self, other: &Tag) -> (r: bool) {
        match (self, other) {
            (Tag::Name, Tag::Name) => true,
            (Tag::Len, Tag::Len) => true,
            (Tag::Md5Checksum, Tag::Md5Checksum) => true,
            (Tag::Other(a), Tag::Other(b)) => str_eq(a.as_str(), b.as_str()),
            _ => false,
        }
    }
}

impl vstd::std_specs::cmp::PartialEqSpecImpl for Tag {
    open spec fn obeys_eq_spec() -> bool {
        true
    }

    open spec fn eq_spec(&self, other: &Tag) -> bool {
        self.eq_spec_with(*other)
    }
}

impl core::str::FromStr for Tag {
    type Err = ParseError;

    fn from_str(s: &str) -> Result<Tag, ParseError> {
        Tag::from_str(s)
    }
}

} // verus!
