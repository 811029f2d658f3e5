//! Program records (`@PG`): an identifier and the raw fields as given.

use vstd::prelude::*;
use crate::text::{last_key_index, lemma_last_key_index, pairs_view, str_eq};

verus! {

/// An error returned when raw fields fail to parse into a program.
#[derive(Debug)]
pub enum ParseError {
    /// The required identifier tag (`ID`) is absent.
    MissingId,
}

/// A program record: its identifier, and every raw field as given.
#[derive(Clone, Debug)]
pub struct Program {
    id: String,
    fields: Vec<(String, String)>,
}

impl Program {
    /// The program's identifier.
    pub closed spec fn spec_id(self) -> Seq<char> {
        self.id@
    }

    /// The raw fields, as given.
    pub closed spec fn spec_fields(self) -> Seq<(String, String)> {
        self.fields@
    }

    /// The program's identifier.
    pub fn id(&self) -> (r: &str)
        ensures
            r@ == self.spec_id(),
    {
        self.id.as_str()
    }

    /// The raw fields, as given.
    pub fn fields(&self) -> (r: &Vec<(String, String)>)
        ensures
            r@ == self.spec_fields(),
    {
        &self.fields
    }

    /// Parses raw fields into a program. Succeeds exactly when an
    /// identifier field (`ID`) occurs; the last occurrence wins, and every
    /// field is kept as given.
    #[verifier::loop_isolation(false)]
    pub fn try_from(raw_fields: &[(String, String)]) -> (r: Result<Program, ParseError>)
        ensures
            r is Ok <==> last_key_index(pairs_view(raw_fields@), "ID"@) != -1,
            r matches Ok(g) ==> {
                &&& g.spec_id() == pairs_view(raw_fields@)[last_key_index(
                    pairs_view(raw_fields@),
                    "ID"@,
                )].1
                &&& pairs_view(g.spec_fields()) == pairs_view(raw_fields@)
            },
            r is Err ==> r == Err::<Program, ParseError>(ParseError::MissingId),
    {
        proof {
            reveal_strlit("ID");
        }
        let ghost raw: Seq<(Seq<char>, Seq<char>)> = pairs_view(raw_fields@);
        let mut id = String::new();
        let mut has_id = false;
        let mut fields: Vec<(String, String)> = Vec::new();
        let n = raw_fields.len();
        let mut i: usize = 0;
        while i < n
            invariant
                0 <= i <= n,
                n == raw.len(),
                pairs_view(fields@) == raw.take(i as int),
                has_id == (last_key_index(raw.take(i as int), "ID"@) != -1),
                has_id ==> id@ == raw[last_key_index(raw.take(i as int), "ID"@)].1,
            decreases n - i,
        {
            proof {
                assert(raw[i as int] == (raw_fields@[i as int].0@, raw_fields@[i as int].1@));
                assert(raw.take(i + 1).drop_last() =~= raw.take(i as int));
                assert(raw.take(i + 1).last() == raw[i as int]);
            }
            if str_eq(raw_fields[i].0.as_str(), "ID") {
                id = raw_fields[i].1.clone();
                has_id = true;
            }
            fields.push((raw_fields[i].0.clone(), raw_fields[i].1.clone()));
            proof {
                assert(pairs_view(fields@) =~= raw.take(i + 1));
            }
            i += 1;
        }
        proof {
            assert(raw.take(n as int) =~= raw);
        }
        if has_id {
            Ok(Program { id, fields })
        } else {
            proof {
                lemma_last_key_index(raw, "ID"@);
            }
            Err(ParseError::MissingId)
        }
    }
}

} // verus!
