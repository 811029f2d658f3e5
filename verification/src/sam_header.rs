//! The whole text header: the file-level record, reference sequences, read
//! groups, programs, and comments, parsed line by line.

use vstd::prelude::*;
use crate::hd;
use crate::program::Program;
use crate::read_group::ReadGroup;
use crate::reference_sequence::{spec_fields_ok, spec_get_key, ReferenceSequence};
use crate::sam_record::{
    is_comment_line, parse_record, spec_kind, spec_line_fields, Record,
};
use crate::text::{last_key_index, pairs_view, spec_parse_i32, spec_split, split_str, strs_view};

verus! {

/// An error returned when a raw text header fails to parse.
#[derive(Debug)]
pub enum ParseError {
    /// A line is not a header record.
    InvalidRecord(crate::sam_record::ParseError),
    /// A file-level header record is invalid.
    InvalidHeader(hd::ParseError),
    /// A reference-sequence record is invalid.
    InvalidReferenceSequence(crate::reference_sequence::ParseError),
    /// A read-group record is invalid.
    InvalidReadGroup(crate::read_group::ParseError),
    /// A program record is invalid.
    InvalidProgram(crate::program::ParseError),
}

/// A line with one trailing carriage return removed, so that headers with
/// either line ending read the same.
pub open spec fn strip_cr(line: Seq<char>) -> Seq<char> {
    if line.len() > 0 && line.last() == '\r' {
        line.drop_last()
    } else {
        line
    }
}

/// The header's lines: the text split at newlines, one trailing empty line
/// ignored, and a trailing carriage return trimmed from each line.
pub open spec fn spec_lines(s: Seq<char>) -> Seq<Seq<char>> {
    let t = spec_split(s, '\n');
    let u = if t.len() > 0 && t.last().len() == 0 {
        t.drop_last()
    } else {
        t
    };
    u.map_values(|line: Seq<char>| strip_cr(line))
}

/// Trims one trailing carriage return.
fn strip_trailing_cr(line: &str) -> (r: &str)
    ensures
        r@ == strip_cr(line@),
{
    let n = line.unicode_len();
    if n > 0 && line.get_char(n - 1) == '\r' {
        let r = line.substring_char(0, n - 1);
        proof {
            assert(line@.subrange(0, n - 1) =~= line@.drop_last());
        }
        r
    } else {
        line
    }
}

/// Whether a line is a data record of the given kind.
pub open spec fn is_kind_line(line: Seq<char>, kind: Seq<char>) -> bool {
    !is_comment_line(line) && spec_kind(line) == kind
}

/// The lines that carry the given record kind, in order.
pub open spec fn kind_lines(lines: Seq<Seq<char>>, kind: Seq<char>) -> Seq<Seq<char>>
    decreases lines.len(),
{
    if lines.len() == 0 {
        Seq::empty()
    } else {
        (if is_kind_line(lines[0], kind) {
            seq![lines[0]]
        } else {
            Seq::empty()
        }) + kind_lines(lines.skip(1), kind)
    }
}

proof fn lemma_kind_lines_push(lines: Seq<Seq<char>>, line: Seq<char>, kind: Seq<char>)
    ensures
        kind_lines(lines.push(line), kind) == kind_lines(lines, kind) + (
        if is_kind_line(line, kind) {
            seq![line]
        } else {
            Seq::<Seq<char>>::empty()
        }),
    decreases lines.len(),
{
    let p = lines.push(line);
    let item = if is_kind_line(line, kind) {
        seq![line]
    } else {
        Seq::<Seq<char>>::empty()
    };
    if lines.len() == 0 {
        assert(p[0] == line);
        assert(p.skip(1) =~= Seq::<Seq<char>>::empty());
        assert(kind_lines(p, kind) == item + kind_lines(Seq::<Seq<char>>::empty(), kind));
        assert(kind_lines(Seq::<Seq<char>>::empty(), kind) == Seq::<Seq<char>>::empty());
        assert(kind_lines(p, kind) =~= kind_lines(lines, kind) + item);
    } else {
        assert(p.skip(1) =~= lines.skip(1).push(line));
        assert(p[0] == lines[0]);
        lemma_kind_lines_push(lines.skip(1), line, kind);
        let head = if is_kind_line(lines[0], kind) {
            seq![lines[0]]
        } else {
            Seq::<Seq<char>>::empty()
        };
        assert(kind_lines(p, kind) == head + kind_lines(lines.skip(1).push(line), kind));
        assert(kind_lines(p, kind) =~= kind_lines(lines, kind) + item);
    }
}

/// The payloads of the comment lines, in order.
pub open spec fn spec_comments(lines: Seq<Seq<char>>) -> Seq<Seq<char>>
    decreases lines.len(),
{
    if lines.len() == 0 {
        Seq::empty()
    } else {
        (if is_comment_line(lines[0]) {
            seq![lines[0].skip(4)]
        } else {
            Seq::empty()
        }) + spec_comments(lines.skip(1))
    }
}

proof fn lemma_spec_comments_push(lines: Seq<Seq<char>>, line: Seq<char>)
    ensures
        spec_comments(lines.push(line)) == spec_comments(lines) + (if is_comment_line(line) {
            seq![line.skip(4)]
        } else {
            Seq::<Seq<char>>::empty()
        }),
    decreases lines.len(),
{
    let p = lines.push(line);
    let item = if is_comment_line(line) {
        seq![line.skip(4)]
    } else {
        Seq::<Seq<char>>::empty()
    };
    if lines.len() == 0 {
        assert(p[0] == line);
        assert(p.skip(1) =~= Seq::<Seq<char>>::empty());
        assert(spec_comments(p) == item + spec_comments(Seq::<Seq<char>>::empty()));
        assert(spec_comments(Seq::<Seq<char>>::empty()) == Seq::<Seq<char>>::empty());
        assert(spec_comments(p) =~= spec_comments(lines) + item);
    } else {
        assert(p.skip(1) =~= lines.skip(1).push(line));
        assert(p[0] == lines[0]);
        lemma_spec_comments_push(lines.skip(1), line);
        let head = if is_comment_line(lines[0]) {
            seq![lines[0].skip(4)]
        } else {
            Seq::<Seq<char>>::empty()
        };
        assert(spec_comments(p) == head + spec_comments(lines.skip(1).push(line)));
        assert(spec_comments(p) =~= spec_comments(lines) + item);
    }
}

/// Whether one line parses: comments always do; a data line must carry a
/// known kind, colon-separated fields, and the fields its kind requires.
pub open spec fn spec_line_ok(line: Seq<char>) -> bool {
    if is_comment_line(line) {
        true
    } else if spec_kind(line) == "@HD"@ {
        match spec_line_fields(line) {
            Some(ps) => last_key_index(ps, "VN"@) != -1,
            None => false,
        }
    } else if spec_kind(line) == "@SQ"@ {
        match spec_line_fields(line) {
            Some(ps) => spec_fields_ok(ps),
            None => false,
        }
    } else if spec_kind(line) == "@RG"@ || spec_kind(line) == "@PG"@ {
        match spec_line_fields(line) {
            Some(ps) => last_key_index(ps, "ID"@) != -1,
            None => false,
        }
    } else {
        false
    }
}

/// Whether a whole raw header parses: every line does.
pub open spec fn spec_header_ok(s: Seq<char>) -> bool {
    forall|i: int| 0 <= i < spec_lines(s).len() ==> spec_line_ok(#[trigger] spec_lines(s)[i])
}

/// The index of the first line that does not parse, or -1.
pub open spec fn first_bad_line(lines: Seq<Seq<char>>) -> int
    decreases lines.len(),
{
    if lines.len() == 0 {
        -1
    } else if !spec_line_ok(lines[0]) {
        0
    } else {
        let k = first_bad_line(lines.skip(1));
        if k == -1 {
            -1
        } else {
            k + 1
        }
    }
}

/// `first_bad_line` names the first failing line, when there is one.
pub proof fn lemma_first_bad_line(lines: Seq<Seq<char>>)
    ensures
        first_bad_line(lines) == -1 ==> forall|j: int|
            0 <= j < lines.len() ==> spec_line_ok(#[trigger] lines[j]),
        first_bad_line(lines) != -1 ==> 0 <= first_bad_line(lines) < lines.len()
            && !spec_line_ok(lines[first_bad_line(lines)]) && forall|j: int|
            0 <= j < first_bad_line(lines) ==> spec_line_ok(#[trigger] lines[j]),
    decreases lines.len(),
{
    if lines.len() > 0 && spec_line_ok(lines[0]) {
        lemma_first_bad_line(lines.skip(1));
        assert(forall|j: int| 1 <= j < lines.len() ==> #[trigger] lines[j] == lines.skip(1)[j - 1]);
    }
}

/// Whether a parsed reference sequence carries what its line stated: the
/// value of the line's last `SN` field as its name, the parsed value of the
/// line's last `LN` field as its length, and every other key of the line
/// mapped to its last value among the extra fields.
pub open spec fn sq_line_matches(rs: ReferenceSequence, line: Seq<char>) -> bool {
    match spec_line_fields(line) {
        Some(ps) => {
            &&& rs.spec_name() == ps[last_key_index(ps, "SN"@)].1
            &&& spec_parse_i32(ps[last_key_index(ps, "LN"@)].1) == Some(rs.spec_len() as i32)
            &&& forall|key: Seq<char>|
                #![trigger spec_get_key(rs.spec_fields(), key)]
                key != "SN"@ && key != "LN"@ ==> {
                    let k = last_key_index(ps, key);
                    &&& (k == -1 ==> spec_get_key(rs.spec_fields(), key) is None)
                    &&& (k != -1 ==> (spec_get_key(rs.spec_fields(), key) matches Some(v) && v@
                        == ps[k].1))
                }
        },
        None => false,
    }
}

/// Whether a parsed read group carries its line's last `ID` value and
/// exactly its line's fields.
pub open spec fn rg_line_matches(g: ReadGroup, line: Seq<char>) -> bool {
    match spec_line_fields(line) {
        Some(ps) => g.spec_id() == ps[last_key_index(ps, "ID"@)].1 && pairs_view(g.spec_fields())
            == ps,
        None => false,
    }
}

/// Whether a parsed program carries its line's last `ID` value and exactly
/// its line's fields.
pub open spec fn pg_line_matches(p: Program, line: Seq<char>) -> bool {
    match spec_line_fields(line) {
        Some(ps) => p.spec_id() == ps[last_key_index(ps, "ID"@)].1 && pairs_view(p.spec_fields())
            == ps,
        None => false,
    }
}

/// Whether a parsed file-level record carries its line's last `VN` value and
/// exactly its line's fields.
pub open spec fn hd_line_matches(h: hd::Header, line: Seq<char>) -> bool {
    match spec_line_fields(line) {
        Some(ps) => h.spec_version() == ps[last_key_index(ps, "VN"@)].1 && pairs_view(
            h.spec_fields(),
        ) == ps,
        None => false,
    }
}

/// A parsed text header.
#[derive(Debug)]
pub struct Header {
    header: hd::Header,
    reference_sequences: Vec<ReferenceSequence>,
    read_groups: Vec<ReadGroup>,
    programs: Vec<Program>,
    comments: Vec<String>,
}

impl Header {
    /// The file-level header record; a default one when no `@HD` line
    /// occurred.
    pub closed spec fn spec_header(self) -> hd::Header {
        self.header
    }

    /// The reference sequences, in order of appearance.
    pub closed spec fn spec_reference_sequences(self) -> Seq<ReferenceSequence> {
        self.reference_sequences@
    }

    /// The read groups, in order of appearance.
    pub closed spec fn spec_read_groups(self) -> Seq<ReadGroup> {
        self.read_groups@
    }

    /// The programs, in order of appearance.
    pub closed spec fn spec_programs(self) -> Seq<Program> {
        self.programs@
    }

    /// The comment payloads, in order of appearance.
    pub closed spec fn spec_comments(self) -> Seq<String> {
        self.comments@
    }

    /// Every parsed reference sequence respects its invariant.
    pub open spec fn wf(self) -> bool {
        forall|j: int|
            0 <= j < self.spec_reference_sequences().len() ==> (
            #[trigger] self.spec_reference_sequences()[j]).inv()
    }

    /// The file-level header record.
    pub fn header(&self) -> (r: &hd::Header)
        ensures
            *r == self.spec_header(),
    {
        &self.header
    }

    /// The reference sequences, in order of appearance.
    pub fn reference_sequences(&self) -> (r: &[ReferenceSequence])
        ensures
            r@ == self.spec_reference_sequences(),
    {
        self.reference_sequences.as_slice()
    }

    /// The read groups, in order of appearance.
    pub fn read_groups(&self) -> (r: &[ReadGroup])
        ensures
            r@ == self.spec_read_groups(),
    {
        self.read_groups.as_slice()
    }

    /// The programs, in order of appearance.
    pub fn programs(&self) -> (r: &[Program])
        ensures
            r@ == self.spec_programs(),
    {
        self.programs.as_slice()
    }

    /// The comment payloads, in order of appearance.
    pub fn comments(&self) -> (r: &[String])
        ensures
            r@ == self.spec_comments(),
    {
        self.comments.as_slice()
    }

    /// Parses a whole raw text header, line by line. Succeeds exactly when
    /// every line parses; the parsed header then holds one reference
    /// sequence, read group, or program per data line of that kind, in
    /// order, each carrying what its own line stated; the file-level record
    /// is the last `@HD` line's (or a default one); and the comments are
    /// exactly the comment payloads. A failure reports the first failing
    /// line under the error of that line's kind.
    #[verifier::loop_isolation(false)]
    pub fn from_str(s: &str) -> (r: Result<Header, ParseError>)
        ensures
            r is Ok <==> spec_header_ok(s@),
            r matches Ok(h) ==> ({
                let ls = spec_lines(s@);
                &&& h.wf()
                &&& h.spec_reference_sequences().len() == kind_lines(ls, "@SQ"@).len()
                &&& forall|j: int|
                    0 <= j < h.spec_reference_sequences().len() ==> sq_line_matches(
                        #[trigger] h.spec_reference_sequences()[j],
                        kind_lines(ls, "@SQ"@)[j],
                    )
                &&& h.spec_read_groups().len() == kind_lines(ls, "@RG"@).len()
                &&& forall|j: int|
                    0 <= j < h.spec_read_groups().len() ==> rg_line_matches(
                        #[trigger] h.spec_read_groups()[j],
                        kind_lines(ls, "@RG"@)[j],
                    )
                &&& h.spec_programs().len() == kind_lines(ls, "@PG"@).len()
                &&& forall|j: int|
                    0 <= j < h.spec_programs().len() ==> pg_line_matches(
                        #[trigger] h.spec_programs()[j],
                        kind_lines(ls, "@PG"@)[j],
                    )
                &&& strs_view(h.spec_comments()) == spec_comments(ls)
                &&& if kind_lines(ls, "@HD"@).len() == 0 {
                    h.spec_header().spec_version() == Seq::<char>::empty()
                        && h.spec_header().spec_fields().len() == 0
                } else {
                    hd_line_matches(h.spec_header(), kind_lines(ls, "@HD"@).last())
                }
            }),
            ({
                let ls = spec_lines(s@);
                let fb = first_bad_line(ls);
                fb != -1 ==> ({
                    let line = ls[fb];
                    &&& (spec_line_fields(line) is None ==> r matches Err(
                        ParseError::InvalidRecord(_),
                    ))
                    &&& (spec_kind(line) != "@HD"@ && spec_kind(line) != "@SQ"@ && spec_kind(
                        line,
                    ) != "@RG"@ && spec_kind(line) != "@PG"@ ==> r matches Err(
                        ParseError::InvalidRecord(_),
                    ))
                    &&& (spec_kind(line) == "@HD"@ && spec_line_fields(line) is Some ==> r
                        == Err::<Header, ParseError>(
                        ParseError::InvalidHeader(hd::ParseError::MissingVersion),
                    ))
                    &&& (spec_kind(line) == "@SQ"@ && spec_line_fields(line) is Some ==> r matches Err(
                        ParseError::InvalidReferenceSequence(_),
                    ))
                    &&& (spec_kind(line) == "@RG"@ && spec_line_fields(line) is Some ==> r
                        == Err::<Header, ParseError>(
                        ParseError::InvalidReadGroup(crate::read_group::ParseError::MissingId),
                    ))
                    &&& (spec_kind(line) == "@PG"@ && spec_line_fields(line) is Some ==> r
                        == Err::<Header, ParseError>(
                        ParseError::InvalidProgram(crate::program::ParseError::MissingId),
                    ))
                })
            }),
    {
        proof {
            reveal_strlit("@HD");
            reveal_strlit("@SQ");
            reveal_strlit("@RG");
            reveal_strlit("@PG");
            assert("@HD"@[1] == 'H' && "@SQ"@[1] == 'S' && "@RG"@[1] == 'R' && "@PG"@[1] == 'P');
        }
        let mut lines = split_str(s, '\n');
        if lines.len() > 0 && lines[lines.len() - 1].as_str().is_empty() {
            proof {
                assert(strs_view(lines@).last().len() == 0);
                assert(strs_view(lines@.drop_last()) =~= strs_view(lines@).drop_last());
            }
            lines.pop();
        }
        let ghost raw_ls: Seq<Seq<char>> = strs_view(lines@);
        let ghost ls: Seq<Seq<char>> = spec_lines(s@);
        proof {
            assert(ls =~= raw_ls.map_values(|line: Seq<char>| strip_cr(line)));
        }
        let mut header = Header {
            header: hd::Header::default(),
            reference_sequences: Vec::new(),
            read_groups: Vec::new(),
            programs: Vec::new(),
            comments: Vec::new(),
        };
        let n = lines.len();
        let mut i: usize = 0;
        while i < n
            invariant
                0 <= i <= n,
                n == ls.len(),
                strs_view(lines@) == raw_ls,
                ls == raw_ls.map_values(|line: Seq<char>| strip_cr(line)),
                lines@.len() == n,
                header.wf(),
                forall|j: int| 0 <= j < i ==> spec_line_ok(#[trigger] ls[j]),
                header.spec_reference_sequences().len() == kind_lines(
                    ls.take(i as int),
                    "@SQ"@,
                ).len(),
                forall|j: int|
                    0 <= j < header.spec_reference_sequences().len() ==> sq_line_matches(
                        #[trigger] header.spec_reference_sequences()[j],
                        kind_lines(ls.take(i as int), "@SQ"@)[j],
                    ),
                header.spec_read_groups().len() == kind_lines(ls.take(i as int), "@RG"@).len(),
                forall|j: int|
                    0 <= j < header.spec_read_groups().len() ==> rg_line_matches(
                        #[trigger] header.spec_read_groups()[j],
                        kind_lines(ls.take(i as int), "@RG"@)[j],
                    ),
                header.spec_programs().len() == kind_lines(ls.take(i as int), "@PG"@).len(),
                forall|j: int|
                    0 <= j < header.spec_programs().len() ==> pg_line_matches(
                        #[trigger] header.spec_programs()[j],
                        kind_lines(ls.take(i as int), "@PG"@)[j],
                    ),
                strs_view(header.spec_comments()) == spec_comments(ls.take(i as int)),
                if kind_lines(ls.take(i as int), "@HD"@).len() == 0 {
                    header.spec_header().spec_version() == Seq::<char>::empty()
                        && header.spec_header().spec_fields().len() == 0
                } else {
                    hd_line_matches(
                        header.spec_header(),
                        kind_lines(ls.take(i as int), "@HD"@).last(),
                    )
                },
            decreases n - i,
        {
            let line = strip_trailing_cr(lines[i].as_str());
            proof {
                assert(ls[i as int] == strip_cr(lines@[i as int]@));
                assert(line@ == ls[i as int]);
                assert(ls.take(i + 1) =~= ls.take(i as int).push(ls[i as int]));
                lemma_kind_lines_push(ls.take(i as int), ls[i as int], "@HD"@);
                lemma_kind_lines_push(ls.take(i as int), ls[i as int], "@SQ"@);
                lemma_kind_lines_push(ls.take(i as int), ls[i as int], "@RG"@);
                lemma_kind_lines_push(ls.take(i as int), ls[i as int], "@PG"@);
                lemma_spec_comments_push(ls.take(i as int), ls[i as int]);
            }
            match parse_record(line) {
                Err(e) => {
                    proof {
                        assert(!spec_line_ok(ls[i as int]));
                        lemma_first_bad_line(ls);
                    }
                    return Err(ParseError::InvalidRecord(e));
                },
                Ok(Record::Header(fields)) => {
                    match hd::Header::try_from(fields.as_slice()) {
                        Ok(hd_record) => {
                            header.header = hd_record;
                            proof {
                                assert(kind_lines(ls.take(i + 1), "@HD"@).last() == ls[i as int]);
                                assert(kind_lines(ls.take(i + 1), "@SQ"@) =~= kind_lines(
                                    ls.take(i as int),
                                    "@SQ"@,
                                ));
                                assert(kind_lines(ls.take(i + 1), "@RG"@) =~= kind_lines(
                                    ls.take(i as int),
                                    "@RG"@,
                                ));
                                assert(kind_lines(ls.take(i + 1), "@PG"@) =~= kind_lines(
                                    ls.take(i as int),
                                    "@PG"@,
                                ));
                            }
                        },
                        Err(e) => {
                            proof {
                                assert(!spec_line_ok(ls[i as int]));
                                lemma_first_bad_line(ls);
                            }
                            return Err(ParseError::InvalidHeader(e));
                        },
                    }
                },
                Ok(Record::ReferenceSequence(fields)) => {
                    match ReferenceSequence::try_from(fields.as_slice()) {
                        Ok(rs) => {
                            header.reference_sequences.push(rs);
                            proof {
                                assert(kind_lines(ls.take(i + 1), "@SQ"@).last() == ls[i as int]);
                                assert(kind_lines(ls.take(i + 1), "@HD"@) =~= kind_lines(
                                    ls.take(i as int),
                                    "@HD"@,
                                ));
                                assert(kind_lines(ls.take(i + 1), "@RG"@) =~= kind_lines(
                                    ls.take(i as int),
                                    "@RG"@,
                                ));
                                assert(kind_lines(ls.take(i + 1), "@PG"@) =~= kind_lines(
                                    ls.take(i as int),
                                    "@PG"@,
                                ));
                            }
                        },
                        Err(e) => {
                            proof {
                                assert(!spec_line_ok(ls[i as int]));
                                lemma_first_bad_line(ls);
                            }
                            return Err(ParseError::InvalidReferenceSequence(e));
                        },
                    }
                },
                Ok(Record::ReadGroup(fields)) => {
                    match ReadGroup::try_from(fields.as_slice()) {
                        Ok(rg) => {
                            header.read_groups.push(rg);
                            proof {
                                assert(kind_lines(ls.take(i + 1), "@RG"@).last() == ls[i as int]);
                                assert(kind_lines(ls.take(i + 1), "@HD"@) =~= kind_lines(
                                    ls.take(i as int),
                                    "@HD"@,
                                ));
                                assert(kind_lines(ls.take(i + 1), "@SQ"@) =~= kind_lines(
                                    ls.take(i as int),
                                    "@SQ"@,
                                ));
                                assert(kind_lines(ls.take(i + 1), "@PG"@) =~= kind_lines(
                                    ls.take(i as int),
                                    "@PG"@,
                                ));
                            }
                        },
                        Err(e) => {
                            proof {
                                assert(!spec_line_ok(ls[i as int]));
                                lemma_first_bad_line(ls);
                            }
                            return Err(ParseError::InvalidReadGroup(e));
                        },
                    }
                },
                Ok(Record::Program(fields)) => {
                    match Program::try_from(fields.as_slice()) {
                        Ok(pg) => {
                            header.programs.push(pg);
                            proof {
                                assert(kind_lines(ls.take(i + 1), "@PG"@).last() == ls[i as int]);
                                assert(kind_lines(ls.take(i + 1), "@HD"@) =~= kind_lines(
                                    ls.take(i as int),
                                    "@HD"@,
                                ));
                                assert(kind_lines(ls.take(i + 1), "@SQ"@) =~= kind_lines(
                                    ls.take(i as int),
                                    "@SQ"@,
                                ));
                                assert(kind_lines(ls.take(i + 1), "@RG"@) =~= kind_lines(
                                    ls.take(i as int),
                                    "@RG"@,
                                ));
                            }
                        },
                        Err(e) => {
                            proof {
                                assert(!spec_line_ok(ls[i as int]));
                                lemma_first_bad_line(ls);
                            }
                            return Err(ParseError::InvalidProgram(e));
                        },
                    }
                },
                Ok(Record::Comment(comment)) => {
                    header.comments.push(comment);
                    proof {
                        assert(strs_view(header.spec_comments()) =~= spec_comments(
                            ls.take(i as int),
                        ) + seq![ls[i as int].skip(4)]);
                        assert(kind_lines(ls.take(i + 1), "@HD"@) =~= kind_lines(
                            ls.take(i as int),
                            "@HD"@,
                        ));
                        assert(kind_lines(ls.take(i + 1), "@SQ"@) =~= kind_lines(
                            ls.take(i as int),
                            "@SQ"@,
                        ));
                        assert(kind_lines(ls.take(i + 1), "@RG"@) =~= kind_lines(
                            ls.take(i as int),
                            "@RG"@,
                        ));
                        assert(kind_lines(ls.take(i + 1), "@PG"@) =~= kind_lines(
                            ls.take(i as int),
                            "@PG"@,
                        ));
                    }
                },
            }
            i += 1;
        }
        proof {
            assert(ls.take(n as int) =~= ls);
            lemma_first_bad_line(ls);
        }
        Ok(header)
    }
}

impl core::str::FromStr for Header {
    type Err = ParseError;

    fn from_str(s: &str) -> Result<Header, ParseError> {
        Header::from_str(s)
    }
}

} // verus!
