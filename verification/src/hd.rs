//! The file-level header record (`@HD`): its format version and its raw
//! fields.

use vstd::prelude::*;
use crate::text::{last_key_index, lemma_last_key_index, pairs_view, str_eq};

verus! {

/// An error returned when raw fields fail to parse into a file-level header
/// record.
#[derive(Debug)]
pub enum ParseError {
    /// The required version tag (`VN`) is absent.
    MissingVersion,
}

/// A file-level header record: the format version, and every raw field as
/// given.
#[derive(Clone, Debug)]
pub struct Header {
    version: String,
    fields: Vec<(String, String)>,
}

impl Header {
    /// The format version.
    pub closed spec fn spec_version(self) -> Seq<char> {
        self.version@
    }

    /// The raw fields, as given.
    pub closed spec fn spec_fields(self) -> Seq<(String, String)> {
        self.fields@
    }

    /// The format version.
    pub fn version(&self) -> (r: &str)
        ensures
            r@ == self.spec_version(),
    {
        self.version.as_str()
    }

    /// The raw fields, as given.
    pub fn fields(&self) -> (r: &Vec<(String, String)>)
        ensures
            r@ == self.spec_fields(),
    {
        &self.fields
    }

    /// Parses raw fields into a file-level header record. Succeeds exactly
    /// when a version field (`VN`) occurs; the last occurrence wins, and
    /// every field is kept as given.
    #[verifier::loop_isolation(false)]
    pub fn try_from(raw_fields: &[(String, String)]) -> (r: Result<Header, ParseError>)
        ensures
            r is Ok <==> last_key_index(pairs_view(raw_fields@), "VN"@) != -1,
            r matches Ok(h) ==> {
                &&& h.spec_version() == pairs_view(raw_fields@)[last_key_index(
                    pairs_view(raw_fields@),
                    "VN"@,
                )].1
                &&& pairs_view(h.spec_fields()) == pairs_view(raw_fields@)
            },
            r is Err ==> r == Err::<Header, ParseError>(ParseError::MissingVersion),
    {
        proof {
            reveal_strlit("VN");
        }
        let ghost raw: Seq<(Seq<char>, Seq<char>)> = pairs_view(raw_fields@);
        let mut version = String::new();
        let mut has_version = false;
        let mut fields: Vec<(String, String)> = Vec::new();
        let n = raw_fields.len();
        let mut i: usize = 0;
        while i < n
            invariant
                0 <= i <= n,
                n == raw.len(),
                pairs_view(fields@) == raw.take(i as int),
                has_version == (last_key_index(raw.take(i as int), "VN"@) != -1),
                has_version ==> version@ == raw[last_key_index(raw.take(i as int), "VN"@)].1,
            decreases n - i,
        {
            proof {
                assert(raw[i as int] == (raw_fields@[i as int].0@, raw_fields@[i as int].1@));
                assert(raw.take(i + 1).drop_last() =~= raw.take(i as int));
                assert(raw.take(i + 1).last() == raw[i as int]);
            }
            if str_eq(raw_fields[i].0.as_str(), "VN") {
                version = raw_fields[i].1.clone();
                has_version = true;
            }
            fields.push((raw_fields[i].0.clone(), raw_fields[i].1.clone()));
            proof {
                assert(pairs_view(fields@) =~= raw.take(i + 1));
            }
            i += 1;
        }
        proof {
            assert(raw.take(n as int) =~= raw);
        }
        if has_version {
            Ok(Header { version, fields })
        } else {
            proof {
                lemma_last_key_index(raw, "VN"@);
            }
            Err(ParseError::MissingVersion)
        }
    }
}

impl Default for Header {
    /// An empty version and no fields.
    fn default() -> (r: Header)
        ensures
            r.spec_version() == Seq::<char>::empty(),
            r.spec_fields() == Seq::<(String, String)>::empty(),
    {
        Header { version: String::new(), fields: Vec::new() }
    }
}

} // verus!
