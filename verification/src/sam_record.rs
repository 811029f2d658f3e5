//! Header record lines: one line of a text header, classified by its
//! leading record kind and split into tag–value fields.

use vstd::prelude::*;
use crate::text::{
    find_char, lemma_find_char, pairs_view, spec_split, split_str, str_eq, strs_view,
};

verus! {

/// One parsed header record line.
#[derive(Debug)]
pub enum Record {
    /// A file-level header record (`@HD`): its raw tag–value fields.
    Header(Vec<(String, String)>),
    /// A reference-sequence record (`@SQ`): its raw tag–value fields.
    ReferenceSequence(Vec<(String, String)>),
    /// A read-group record (`@RG`): its raw tag–value fields.
    ReadGroup(Vec<(String, String)>),
    /// A program record (`@PG`): its raw tag–value fields.
    Program(Vec<(String, String)>),
    /// A comment record (`@CO`): everything after the first tab.
    Comment(String),
}

/// An error returned when a header record line fails to parse.
#[derive(Debug)]
pub enum ParseError {
    /// The line does not begin with a known record kind; holds the line.
    InvalidKind(String),
    /// A field has no colon between its tag and value; holds the field.
    InvalidField(String),
}

/// The tag and value of one raw field: the characters before the first
/// colon, and everything after it. `None` without a colon.
pub open spec fn spec_field_pair(t: Seq<char>) -> Option<(Seq<char>, Seq<char>)> {
    let k = find_char(t, ':');
    if k == -1 {
        None
    } else {
        Some((t.take(k), t.skip(k + 1)))
    }
}

/// Every token split into its tag and value, or `None` when any token lacks
/// a colon.
pub open spec fn spec_field_pairs(tokens: Seq<Seq<char>>) -> Option<Seq<(Seq<char>, Seq<char>)>>
    decreases tokens.len(),
{
    if tokens.len() == 0 {
        Some(Seq::empty())
    } else {
        match spec_field_pair(tokens[0]) {
            None => None,
            Some(p) => match spec_field_pairs(tokens.skip(1)) {
                None => None,
                Some(rest) => Some(seq![p] + rest),
            },
        }
    }
}

/// Whether the line is a comment record: the comment kind followed by a tab.
pub open spec fn is_comment_line(line: Seq<char>) -> bool {
    line.len() >= 4 && line.take(4) == "@CO\t"@
}

/// The first tab-separated token of the line.
pub open spec fn spec_kind(line: Seq<char>) -> Seq<char> {
    spec_split(line, '\t')[0]
}

/// The tag–value fields of a non-comment line: every token after the kind.
pub open spec fn spec_line_fields(line: Seq<char>) -> Option<Seq<(Seq<char>, Seq<char>)>> {
    spec_field_pairs(spec_split(line, '\t').skip(1))
}

/// Splits one raw field at its first colon.
fn split_field(t: &str) -> (r: Option<(String, String)>)
    ensures
        r is Some <==> spec_field_pair(t@) is Some,
        r matches Some(p) ==> spec_field_pair(t@) == Some((p.0@, p.1@)),
{
    proof {
        lemma_find_char(t@, ':');
    }
    let n = t.unicode_len();
    let mut i: usize = 0;
    while i < n
        invariant
            0 <= i <= n,
            n == t@.len(),
            forall|j: int| 0 <= j < i ==> t@[j] != ':',
        decreases n - i,
    {
        if t.get_char(i) == ':' {
            proof {
                lemma_find_char(t@, ':');
            }
            let key = t.substring_char(0, i);
            let value = t.substring_char(i + 1, n);
            return Some((String::from_str(key), String::from_str(value)));
        }
        i += 1;
    }
    proof {
        lemma_find_char(t@, ':');
    }
    None
}

/// Splits every token from `start` on into tag–value fields.
#[verifier::loop_isolation(false)]
fn split_fields(tokens: &Vec<String>, start: usize) -> (r: Result<Vec<(String, String)>, ParseError>)
    requires
        start <= tokens.len(),
    ensures
        r is Ok <==> spec_field_pairs(strs_view(tokens@).skip(start as int)) is Some,
        r matches Ok(v) ==> spec_field_pairs(strs_view(tokens@).skip(start as int)) == Some(
            pairs_view(v@),
        ),
        r is Err ==> r matches Err(ParseError::InvalidField(_)),
{
    let ghost all: Seq<Seq<char>> = strs_view(tokens@).skip(start as int);
    let mut out: Vec<(String, String)> = Vec::new();
    let n = tokens.len();
    let mut i: usize = start;
    while i < n
        invariant
            start <= i <= n,
            match spec_field_pairs(strs_view(tokens@).skip(i as int)) {
                Some(rest) => spec_field_pairs(all) == Some(pairs_view(out@) + rest),
                None => spec_field_pairs(all) is None,
            },
        decreases n - i,
    {
        proof {
            assert(strs_view(tokens@).skip(i as int)[0] == tokens@[i as int]@);
            assert(strs_view(tokens@).skip(i as int).skip(1) =~= strs_view(tokens@).skip(i + 1));
        }
        match split_field(tokens[i].as_str()) {
            Some(p) => {
                let ghost sp = spec_field_pair(tokens@[i as int]@)->0;
                out.push(p);
                proof {
                    match spec_field_pairs(strs_view(tokens@).skip(i + 1)) {
                        Some(rest) => {
                            assert(pairs_view(out@) =~= pairs_view(out@.drop_last()).push(sp));
                            assert(pairs_view(out@.drop_last()) + (seq![sp] + rest) =~= pairs_view(
                                out@,
                            ) + rest);
                        },
                        None => {},
                    }
                }
            },
            None => {
                return Err(ParseError::InvalidField(tokens[i].clone()));
            },
        }
        i += 1;
    }
    proof {
        assert(strs_view(tokens@).skip(n as int) =~= Seq::<Seq<char>>::empty());
        assert(pairs_view(out@) + Seq::<(Seq<char>, Seq<char>)>::empty() =~= pairs_view(out@));
    }
    Ok(out)
}

/// Parses one header line: a comment keeps everything after its tab; any
/// other known record kind has its remaining tokens split into tag–value
/// fields; an unknown kind is rejected.
pub fn parse_record(line: &str) -> (r: Result<Record, ParseError>)
    ensures
        is_comment_line(line@) ==> (r matches Ok(Record::Comment(c)) && c@ == line@.skip(4)),
        !is_comment_line(line@) && spec_kind(line@) == "@HD"@ ==> match spec_line_fields(line@) {
            Some(ps) => r matches Ok(Record::Header(v)) && pairs_view(v@) == ps,
            None => r matches Err(ParseError::InvalidField(_)),
        },
        !is_comment_line(line@) && spec_kind(line@) == "@SQ"@ ==> match spec_line_fields(line@) {
            Some(ps) => r matches Ok(Record::ReferenceSequence(v)) && pairs_view(v@) == ps,
            None => r matches Err(ParseError::InvalidField(_)),
        },
        !is_comment_line(line@) && spec_kind(line@) == "@RG"@ ==> match spec_line_fields(line@) {
            Some(ps) => r matches Ok(Record::ReadGroup(v)) && pairs_view(v@) == ps,
            None => r matches Err(ParseError::InvalidField(_)),
        },
        !is_comment_line(line@) && spec_kind(line@) == "@PG"@ ==> match spec_line_fields(line@) {
            Some(ps) => r matches Ok(Record::Program(v)) && pairs_view(v@) == ps,
            None => r matches Err(ParseError::InvalidField(_)),
        },
        !is_comment_line(line@) && spec_kind(line@) != "@HD"@ && spec_kind(line@) != "@SQ"@
            && spec_kind(line@) != "@RG"@ && spec_kind(line@) != "@PG"@ ==> r matches Err(
            ParseError::InvalidKind(_),
        ),
{
    proof {
        reveal_strlit("@CO\t");
        reveal_strlit("@HD");
        reveal_strlit("@SQ");
        reveal_strlit("@RG");
        reveal_strlit("@PG");
        assert("@HD"@[1] == 'H' && "@SQ"@[1] == 'S' && "@RG"@[1] == 'R' && "@PG"@[1] == 'P');
    }
    let n = line.unicode_len();
    if n >= 4 && line.get_char(0) == '@' && line.get_char(1) == 'C' && line.get_char(2) == 'O'
        && line.get_char(3) == '\t' {
        proof {
            assert(line@.take(4) =~= "@CO\t"@);
        }
        let comment = line.substring_char(4, n);
        return Ok(Record::Comment(String::from_str(comment)));
    }
    proof {
        if line@.len() >= 4 {
            assert(line@.take(4)[0] == line@[0] && line@.take(4)[1] == line@[1] && line@.take(
                4,
            )[2] == line@[2] && line@.take(4)[3] == line@[3]);
        }
    }
    let tokens = split_str(line, '\t');
    proof {
        assert(tokens@.len() > 0);
        assert(strs_view(tokens@)[0] == tokens@[0]@);
    }
    let kind = tokens[0].as_str();
    if str_eq(kind, "@HD") {
        match split_fields(&tokens, 1) {
            Ok(v) => Ok(Record::Header(v)),
            Err(e) => Err(e),
        }
    } else if str_eq(kind, "@SQ") {
        match split_fields(&tokens, 1) {
            Ok(v) => Ok(Record::ReferenceSequence(v)),
            Err(e) => Err(e),
        }
    } else if str_eq(kind, "@RG") {
        match split_fields(&tokens, 1) {
            Ok(v) => Ok(Record::ReadGroup(v)),
            Err(e) => Err(e),
        }
    } else if str_eq(kind, "@PG") {
        match split_fields(&tokens, 1) {
            Ok(v) => Ok(Record::Program(v)),
            Err(e) => Err(e),
        }
    } else {
        Err(ParseError::InvalidKind(String::from_str(line)))
    }
}

} // verus!
