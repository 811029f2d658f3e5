//! Reference-sequence records (`@SQ`): a name, a length, and any further
//! tagged fields, parsed from raw key–value pairs.

use vstd::prelude::*;
use crate::reference_sequence_tag::{is_fixed_tag, Tag};
use crate::text::{
    i32_to_string, last_key_index, lemma_last_key_index, pairs_view, parse_i32,
    spec_decimal_signed, spec_parse_i32,
};

verus! {

/// An error returned when raw fields fail to parse into a reference
/// sequence.
#[derive(Debug)]
pub enum ParseError {
    /// A required tag (`SN` or `LN`) is absent.
    MissingRequiredTag(Tag),
    /// A key is not a valid tag.
    InvalidTag(crate::reference_sequence_tag::ParseError),
    /// A value is invalid for its tag; holds the rejected value.
    InvalidValue(Tag, String),
}

/// The index of the first field whose tag equals `tag`, or -1.
pub open spec fn spec_find(fields: Seq<(Tag, String)>, tag: Tag) -> int
    decreases fields.len(),
{
    if fields.len() == 0 {
        -1
    } else if fields[0].0.eq_spec_with(tag) {
        0
    } else {
        let k = spec_find(fields.skip(1), tag);
        if k == -1 {
            -1
        } else {
            k + 1
        }
    }
}

/// `spec_find` names the first index holding `tag`, when there is one.
pub proof fn lemma_spec_find(fields: Seq<(Tag, String)>, tag: Tag)
    ensures
        spec_find(fields, tag) == -1 ==> forall|j: int|
            0 <= j < fields.len() ==> !(#[trigger] fields[j]).0.eq_spec_with(tag),
        spec_find(fields, tag) != -1 ==> 0 <= spec_find(fields, tag) < fields.len() && fields[
            spec_find(fields, tag)
        ].0.eq_spec_with(tag) && forall|j: int|
            0 <= j < spec_find(fields, tag) ==> !(#[trigger] fields[j]).0.eq_spec_with(tag),
    decreases fields.len(),
{
    if fields.len() > 0 && !fields[0].0.eq_spec_with(tag) {
        lemma_spec_find(fields.skip(1), tag);
        assert(forall|j: int|
            1 <= j < fields.len() ==> #[trigger] fields[j] == fields.skip(1)[j - 1]);
    }
}

/// The value of the first field whose tag's key reads `key`, or `None`.
pub open spec fn spec_get_key(fields: Seq<(Tag, String)>, key: Seq<char>) -> Option<String>
    decreases fields.len(),
{
    if fields.len() == 0 {
        None
    } else if fields[0].0.spec_str() == key {
        Some(fields[0].1)
    } else {
        spec_get_key(fields.skip(1), key)
    }
}

/// Whether every tag of `fields` is in normal form.
pub open spec fn fields_canonical(fields: Seq<(Tag, String)>) -> bool {
    forall|j: int| 0 <= j < fields.len() ==> (#[trigger] fields[j]).0.canonical()
}

/// Under normal form, `spec_find` locates a tag exactly where its key first
/// occurs.
proof fn lemma_find_matches_key(fields: Seq<(Tag, String)>, tag: Tag)
    requires
        tag.canonical(),
        fields_canonical(fields),
    ensures
        spec_find(fields, tag) == -1 ==> spec_get_key(fields, tag.spec_str()) is None,
        spec_find(fields, tag) != -1 ==> spec_get_key(fields, tag.spec_str()) == Some(
            fields[spec_find(fields, tag)].1,
        ),
    decreases fields.len(),
{
    lemma_spec_find(fields, tag);
    if fields.len() == 0 {
        assert(spec_get_key(fields, tag.spec_str()) is None);
    } else {
        assert(fields[0].0.canonical());
        Tag::lemma_canonical_eq(fields[0].0, tag);
        if !fields[0].0.eq_spec_with(tag) {
            assert(fields[0].0.spec_str() != tag.spec_str());
            assert(spec_get_key(fields, tag.spec_str()) == spec_get_key(
                fields.skip(1),
                tag.spec_str(),
            ));
            assert(fields_canonical(fields.skip(1))) by {
                assert(forall|j: int|
                    0 <= j < fields.len() - 1 ==> #[trigger] fields.skip(1)[j] == fields[j + 1]);
            }
            lemma_find_matches_key(fields.skip(1), tag);
            assert(forall|j: int|
                1 <= j < fields.len() ==> #[trigger] fields[j] == fields.skip(1)[j - 1]);
            lemma_spec_find(fields.skip(1), tag);
            let k2 = spec_find(fields.skip(1), tag);
            assert(spec_find(fields, tag) == if k2 == -1 {
                -1int
            } else {
                k2 + 1
            });
        } else {
            assert(spec_find(fields, tag) == 0);
            assert(fields[0].0.spec_str() == tag.spec_str());
            assert(spec_get_key(fields, tag.spec_str()) == Some(fields[0].1));
        }
    }
}

proof fn lemma_get_key_push(fields: Seq<(Tag, String)>, p: (Tag, String), key: Seq<char>)
    ensures
        spec_get_key(fields.push(p), key) == (match spec_get_key(fields, key) {
            Some(v) => Some(v),
            None => if p.0.spec_str() == key {
                Some(p.1)
            } else {
                None::<String>
            },
        }),
    decreases fields.len(),
{
    let q = fields.push(p);
    if fields.len() == 0 {
        assert(q[0] == p);
        assert(q.skip(1) =~= Seq::<(Tag, String)>::empty());
        assert(spec_get_key(Seq::<(Tag, String)>::empty(), key) is None);
        if p.0.spec_str() == key {
            assert(spec_get_key(q, key) == Some(p.1));
        } else {
            assert(spec_get_key(q, key) == spec_get_key(q.skip(1), key));
        }
    } else {
        assert(q.skip(1) =~= fields.skip(1).push(p));
        assert(q[0] == fields[0]);
        lemma_get_key_push(fields.skip(1), p, key);
        if q[0].0.spec_str() == key {
            assert(spec_get_key(q, key) == Some(fields[0].1));
        } else {
            assert(spec_get_key(q, key) == spec_get_key(fields.skip(1).push(p), key));
        }
    }
}

proof fn lemma_get_key_update(fields: Seq<(Tag, String)>, k: int, p: (Tag, String), key: Seq<char>)
    requires
        0 <= k < fields.len(),
        fields[k].0.spec_str() == p.0.spec_str(),
        forall|j: int| 0 <= j < k ==> (#[trigger] fields[j]).0.spec_str() != p.0.spec_str(),
    ensures
        spec_get_key(fields.update(k, p), key) == (if key == p.0.spec_str() {
            Some(p.1)
        } else {
            spec_get_key(fields, key)
        }),
    decreases fields.len(),
{
    let u = fields.update(k, p);
    if k == 0 {
        assert(u[0] == p);
        assert(u.skip(1) =~= fields.skip(1));
    } else {
        assert(u[0] == fields[0]);
        assert(u.skip(1) =~= fields.skip(1).update(k - 1, p));
        assert(forall|j: int|
            0 <= j < k - 1 ==> #[trigger] fields.skip(1)[j] == fields[j + 1]);
        assert(fields.skip(1)[k - 1] == fields[k]);
        lemma_get_key_update(fields.skip(1), k - 1, p, key);
    }
}

/// The first position whose key is not a valid tag or whose `LN` value is
/// not a 32-bit decimal, or -1.
pub open spec fn first_fault(raw: Seq<(Seq<char>, Seq<char>)>) -> int
    decreases raw.len(),
{
    if raw.len() == 0 {
        -1
    } else if !valid_tag_key(raw[0].0) || (raw[0].0 == "LN"@ && spec_parse_i32(raw[0].1) is None) {
        0
    } else {
        let k = first_fault(raw.skip(1));
        if k == -1 {
            -1
        } else {
            k + 1
        }
    }
}

/// Whether the entry at `j` is a fault: a bad key, or a bad `LN` value.
pub open spec fn is_fault(p: (Seq<char>, Seq<char>)) -> bool {
    !valid_tag_key(p.0) || (p.0 == "LN"@ && spec_parse_i32(p.1) is None)
}

/// `first_fault` names the first faulty entry, when there is one.
pub proof fn lemma_first_fault(raw: Seq<(Seq<char>, Seq<char>)>)
    ensures
        first_fault(raw) == -1 ==> forall|j: int|
            0 <= j < raw.len() ==> !is_fault(#[trigger] raw[j]),
        first_fault(raw) != -1 ==> 0 <= first_fault(raw) < raw.len() && is_fault(
            raw[first_fault(raw)],
        ) && forall|j: int| 0 <= j < first_fault(raw) ==> !is_fault(#[trigger] raw[j]),
    decreases raw.len(),
{
    if raw.len() > 0 && !is_fault(raw[0]) {
        lemma_first_fault(raw.skip(1));
        assert(forall|j: int| 1 <= j < raw.len() ==> #[trigger] raw[j] == raw.skip(1)[j - 1]);
    }
}

/// Whether no two fields carry the same tag.
pub open spec fn keys_unique(fields: Seq<(Tag, String)>) -> bool {
    forall|i: int, j: int|
        0 <= i < j < fields.len() ==> !(#[trigger] fields[i]).0.eq_spec_with(
            (#[trigger] fields[j]).0,
        )
}

/// Whether a raw key is a well-formed reference-sequence tag.
pub open spec fn valid_tag_key(s: Seq<char>) -> bool {
    is_fixed_tag(s) || s.len() == 2
}

/// Whether raw fields parse into a reference sequence: every key is a valid
/// tag, every `LN` value is a 32-bit decimal integer, and both `SN` and `LN`
/// are present.
pub open spec fn spec_fields_ok(raw: Seq<(Seq<char>, Seq<char>)>) -> bool {
    &&& forall|i: int| 0 <= i < raw.len() ==> valid_tag_key((#[trigger] raw[i]).0)
    &&& forall|i: int|
        0 <= i < raw.len() && (#[trigger] raw[i]).0 == "LN"@ ==> spec_parse_i32(raw[i].1) is Some
    &&& last_key_index(raw, "SN"@) != -1
    &&& last_key_index(raw, "LN"@) != -1
}

/// A reference-sequence record: its name, its length, and any further
/// tagged fields, each tag at most once.
#[derive(Clone, Debug)]
pub struct ReferenceSequence {
    name: String,
    len: i32,
    fields: Vec<(Tag, String)>,
}

impl ReferenceSequence {
    /// The record's name.
    pub closed spec fn spec_name(self) -> Seq<char> {
        self.name@
    }

    /// The record's length field.
    pub closed spec fn spec_len(self) -> int {
        self.len as int
    }

    /// The further tagged fields, in insertion order.
    pub closed spec fn spec_fields(self) -> Seq<(Tag, String)> {
        self.fields@
    }

    /// The record's invariant: no tag occurs twice among the extra fields.
    pub open spec fn inv(self) -> bool {
        keys_unique(self.spec_fields())
    }

    /// Creates a record with the given name and length and no extra fields.
    pub fn new(name: String, len: i32) -> (r: ReferenceSequence)
        ensures
            r.inv(),
            r.spec_name() == name@,
            r.spec_len() == len as int,
            r.spec_fields() == Seq::<(Tag, String)>::empty(),
    {
        ReferenceSequence { name, len, fields: Vec::new() }
    }

    /// The record's name.
    pub fn name(&self) -> (r: &str)
        ensures
            r@ == self.spec_name(),
    {
        self.name.as_str()
    }

    /// A mutable handle on the record's name.
    pub fn name_mut(&mut self) -> (r: &mut String)
        ensures
            r@ == old(self).spec_name(),
            final(r)@ == final(self).spec_name(),
            final(self).spec_len() == old(self).spec_len(),
            final(self).spec_fields() == old(self).spec_fields(),
    {
        &mut self.name
    }

    /// The record's length field.
    pub fn len(&self) -> (r: i32)
        ensures
            r as int == self.spec_len(),
    {
        self.len
    }

    /// A mutable handle on the record's length.
    pub fn len_mut(&mut self) -> (r: &mut i32)
        ensures
            *r == old(self).spec_len(),
            final(self).spec_len() == *final(r),
            final(self).spec_name() == old(self).spec_name(),
            final(self).spec_fields() == old(self).spec_fields(),
    {
        &mut self.len
    }

    /// The further tagged fields, in insertion order.
    pub fn fields(&self) -> (r: &Vec<(Tag, String)>)
        ensures
            r@ == self.spec_fields(),
    {
        &self.fields
    }

    /// The value stored under `tag`, when there is one.
    #[verifier::loop_isolation(false)]
    pub fn get(&self, tag: &Tag) -> (r: Option<&String>)
        ensures
            spec_find(self.spec_fields(), *tag) == -1 <==> r is None,
            spec_find(self.spec_fields(), *tag) != -1 ==> (r matches Some(v) && *v == self.spec_fields()[
                spec_find(self.spec_fields(), *tag)
            ].1),
    {
        proof {
            lemma_spec_find(self.spec_fields(), *tag);
        }
        let n = self.fields.len();
        let mut i: usize = 0;
        while i < n
            invariant
                0 <= i <= n,
                n == self.spec_fields().len(),
                forall|j: int|
                    0 <= j < i ==> !(#[trigger] self.spec_fields()[j]).0.eq_spec_with(*tag),
                spec_find(self.spec_fields(), *tag) != -1 ==> 0 <= spec_find(
                    self.spec_fields(),
                    *tag,
                ) < n && self.spec_fields()[spec_find(self.spec_fields(), *tag)].0.eq_spec_with(
                    *tag,
                ),
                spec_find(self.spec_fields(), *tag) == -1 ==> forall|j: int|
                    0 <= j < n ==> !(#[trigger] self.spec_fields()[j]).0.eq_spec_with(*tag),
                spec_find(self.spec_fields(), *tag) != -1 ==> i <= spec_find(
                    self.spec_fields(),
                    *tag,
                ),
            decreases n - i,
        {
            if &self.fields[i].0 == tag {
                proof {
                    lemma_spec_find(self.spec_fields(), *tag);
                }
                return Some(&self.fields[i].1);
            }
            i += 1;
        }
        None
    }

    /// Stores `value` under `tag`: replaces and returns the value previously
    /// stored under the tag, or appends a new field and returns nothing.
    #[verifier::loop_isolation(false)]
    pub fn insert(&mut self, tag: Tag, value: String) -> (r: Option<String>)
        requires
            old(self).inv(),
        ensures
            final(self).inv(),
            final(self).spec_name() == old(self).spec_name(),
            final(self).spec_len() == old(self).spec_len(),
            ({
                let k = spec_find(old(self).spec_fields(), tag);
                if k == -1 {
                    &&& r is None
                    &&& final(self).spec_fields() == old(self).spec_fields().push((tag, value))
                } else {
                    &&& (r matches Some(v) && v == old(self).spec_fields()[k].1)
                    &&& final(self).spec_fields() == old(self).spec_fields().update(
                        k,
                        (tag, value),
                    )
                }
            }),
    {
        proof {
            lemma_spec_find(self.spec_fields(), tag);
        }
        let ghost fields0 = self.spec_fields();
        let ghost k = spec_find(fields0, tag);
        let n = self.fields.len();
        let mut i: usize = 0;
        while i < n
            invariant
                0 <= i <= n,
                n == fields0.len(),
                self.fields@ == fields0,
                self.spec_name() == old(self).spec_name(),
                self.spec_len() == old(self).spec_len(),
                forall|j: int| 0 <= j < i ==> !(#[trigger] fields0[j]).0.eq_spec_with(tag),
                k != -1 ==> forall|j: int|
                    0 <= j < k ==> !(#[trigger] fields0[j]).0.eq_spec_with(tag),
                k != -1 ==> 0 <= k < n && fields0[k].0.eq_spec_with(tag),
                k == -1 ==> forall|j: int|
                    0 <= j < n ==> !(#[trigger] fields0[j]).0.eq_spec_with(tag),
                k != -1 ==> i <= k,
            decreases n - i,
        {
            if &self.fields[i].0 == &tag {
                proof {
                    assert(k == i);
                }
                let previous = self.fields.remove(i);
                self.fields.insert(i, (tag, value));
                proof {
                    assert(self.fields@ =~= fields0.update(k, (tag, value)));
                    assert forall|a: int, b: int|
                        0 <= a < b < self.fields@.len() implies !(#[trigger] self.fields@[a]).0.eq_spec_with(
                        (#[trigger] self.fields@[b]).0,
                    ) by {
                        if a == k {
                            assert(!fields0[k].0.eq_spec_with(fields0[b].0));
                            assert(fields0[k].0.eq_spec_with(tag));
                        } else if b == k {
                            assert(!fields0[a].0.eq_spec_with(fields0[k].0));
                            assert(fields0[k].0.eq_spec_with(tag));
                        }
                    }
                }
                return Some(previous.1);
            }
            i += 1;
        }
        self.fields.push((tag, value));
        proof {
            assert(self.fields@ =~= fields0.push((tag, value)));
            assert forall|a: int, b: int|
                0 <= a < b < self.fields@.len() implies !(#[trigger] self.fields@[a]).0.eq_spec_with(
                (#[trigger] self.fields@[b]).0,
            ) by {
                if b == fields0.len() {
                    assert(!fields0[a].0.eq_spec_with(tag));
                }
            }
        }
        None
    }
}

impl Default for ReferenceSequence {
    /// An empty name, zero length, and no extra fields.
    fn default() -> (r: ReferenceSequence)
        ensures
            r.inv(),
            r.spec_name() == Seq::<char>::empty(),
            r.spec_len() == 0,
            r.spec_fields() == Seq::<(Tag, String)>::empty(),
    {
        ReferenceSequence { name: String::new(), len: 0, fields: Vec::new() }
    }
}

/// One extra field as it is displayed: a tab, the tag, a colon, the value.
pub open spec fn spec_field_str(f: (Tag, String)) -> Seq<char> {
    "\t"@ + f.0.spec_str() + ":"@ + f.1@
}

/// The displayed extra fields, in order.
pub open spec fn spec_field_strs(fields: Seq<(Tag, String)>) -> Seq<char>
    decreases fields.len(),
{
    if fields.len() == 0 {
        Seq::empty()
    } else {
        spec_field_str(fields[0]) + spec_field_strs(fields.skip(1))
    }
}

proof fn lemma_field_strs_push(fields: Seq<(Tag, String)>, f: (Tag, String))
    ensures
        spec_field_strs(fields.push(f)) == spec_field_strs(fields) + spec_field_str(f),
    decreases fields.len(),
{
    if fields.len() == 0 {
        let p = fields.push(f);
        assert(p[0] == f);
        assert(p.skip(1) =~= Seq::<(Tag, String)>::empty());
        assert(spec_field_strs(p) == spec_field_str(f) + spec_field_strs(
            Seq::<(Tag, String)>::empty(),
        ));
        assert(spec_field_strs(p) =~= spec_field_strs(fields) + spec_field_str(f));
    } else {
        assert(fields.push(f).skip(1) =~= fields.skip(1).push(f));
        assert(fields.push(f)[0] == fields[0]);
        lemma_field_strs_push(fields.skip(1), f);
        assert(spec_field_strs(fields.push(f)) =~= spec_field_strs(fields) + spec_field_str(f));
    }
}

impl ReferenceSequence {
    /// The record as one display line: the record kind, the name and length
    /// fields, then every extra field, tab-separated.
    pub open spec fn spec_display(self) -> Seq<char> {
        "@SQ"@ + "\tSN:"@ + self.spec_name() + "\tLN:"@ + spec_decimal_signed(self.spec_len())
            + spec_field_strs(self.spec_fields())
    }

    /// Renders the record as its display line.
    #[verifier::loop_isolation(false)]
    pub fn to_string(&self) -> (r: String)
        ensures
            r@ == self.spec_display(),
    {
        let mut out = String::from_str("@SQ");
        out.append("\tSN:");
        out.append(self.name.as_str());
        out.append("\tLN:");
        let len_str = i32_to_string(self.len);
        out.append(len_str.as_str());
        let ghost head: Seq<char> = out@;
        let n = self.fields.len();
        let mut i: usize = 0;
        while i < n
            invariant
                0 <= i <= n,
                n == self.spec_fields().len(),
                out@ == head + spec_field_strs(self.spec_fields().take(i as int)),
            decreases n - i,
        {
            let ghost before = out@;
            out.append("\t");
            out.append(self.fields[i].0.as_str());
            out.append(":");
            out.append(self.fields[i].1.as_str());
            proof {
                let fs = self.spec_fields();
                assert(fs.take(i + 1).drop_last() =~= fs.take(i as int));
                assert(fs.take(i + 1) =~= fs.take(i as int).push(fs[i as int]));
                lemma_field_strs_push(fs.take(i as int), fs[i as int]);
                assert(out@ =~= before + spec_field_str(fs[i as int]));
                assert(out@ =~= head + spec_field_strs(fs.take(i + 1)));
            }
            i += 1;
        }
        proof {
            assert(self.spec_fields().take(n as int) =~= self.spec_fields());
            assert(head =~= "@SQ"@ + "\tSN:"@ + self.spec_name() + "\tLN:"@ + spec_decimal_signed(
                self.spec_len(),
            ));
            assert(out@ =~= self.spec_display());
        }
        out
    }

    /// Parses raw key–value pairs into a reference sequence. Succeeds
    /// exactly when every key is a valid tag, every `LN` value is a 32-bit
    /// decimal integer, and both `SN` and `LN` occur; the last occurrence of
    /// each key wins. Every other key ends up mapped to its value among the
    /// extra fields, which never carry `SN` or `LN`. A faulty key or `LN`
    /// value is reported for the first faulty entry; a missing `SN` is
    /// reported before a missing `LN`.
    #[verifier::loop_isolation(false)]
    pub fn try_from(raw_fields: &[(String, String)]) -> (r: Result<ReferenceSequence, ParseError>)
        ensures
            r is Ok <==> spec_fields_ok(pairs_view(raw_fields@)),
            ({
                let raw = pairs_view(raw_fields@);
                let ff = first_fault(raw);
                &&& (ff != -1 && !valid_tag_key(raw[ff].0) ==> (r matches Err(
                    ParseError::InvalidTag(e),
                ) && e.input() == raw[ff].0))
                &&& (ff != -1 && valid_tag_key(raw[ff].0) ==> (r matches Err(
                    ParseError::InvalidValue(Tag::Len, v),
                ) && v@ == raw[ff].1))
                &&& (ff == -1 && last_key_index(raw, "SN"@) == -1 ==> r == Err::<
                    ReferenceSequence,
                    ParseError,
                >(ParseError::MissingRequiredTag(Tag::Name)))
                &&& (ff == -1 && last_key_index(raw, "SN"@) != -1 && last_key_index(raw, "LN"@)
                    == -1 ==> r == Err::<ReferenceSequence, ParseError>(
                    ParseError::MissingRequiredTag(Tag::Len),
                ))
            }),
            r matches Ok(rs) ==> {
                &&& rs.inv()
                &&& rs.spec_name() == pairs_view(raw_fields@)[last_key_index(
                    pairs_view(raw_fields@),
                    "SN"@,
                )].1
                &&& spec_parse_i32(
                    pairs_view(raw_fields@)[last_key_index(pairs_view(raw_fields@), "LN"@)].1,
                ) == Some(rs.spec_len() as i32)
                &&& forall|j: int|
                    0 <= j < rs.spec_fields().len() ==> (
                    #[trigger] rs.spec_fields()[j]).0.spec_str() != "SN"@
                        && rs.spec_fields()[j].0.spec_str() != "LN"@
                &&& forall|key: Seq<char>|
                    #![trigger spec_get_key(rs.spec_fields(), key)]
                    key != "SN"@ && key != "LN"@ ==> {
                        let k = last_key_index(pairs_view(raw_fields@), key);
                        &&& (k == -1 ==> spec_get_key(rs.spec_fields(), key) is None)
                        &&& (k != -1 ==> (spec_get_key(rs.spec_fields(), key) matches Some(v)
                            && v@ == pairs_view(raw_fields@)[k].1))
                    }
            },
    {
        proof {
            reveal_strlit("SN");
            reveal_strlit("LN");
            reveal_strlit("M5");
            assert("SN"@[0] == 'S' && "LN"@[0] == 'L' && "M5"@[0] == 'M');
        }
        let mut rs = ReferenceSequence::default();
        let mut has_name = false;
        let mut has_len = false;
        let n = raw_fields.len();
        let ghost raw: Seq<(Seq<char>, Seq<char>)> = pairs_view(raw_fields@);
        let mut i: usize = 0;
        while i < n
            invariant
                0 <= i <= n,
                n == raw.len(),
                raw == pairs_view(raw_fields@),
                rs.inv(),
                fields_canonical(rs.spec_fields()),
                forall|j: int|
                    0 <= j < rs.spec_fields().len() ==> (
                    #[trigger] rs.spec_fields()[j]).0.spec_str() != "SN"@
                        && rs.spec_fields()[j].0.spec_str() != "LN"@,
                forall|j: int| 0 <= j < i ==> valid_tag_key((#[trigger] raw[j]).0),
                forall|j: int|
                    0 <= j < i && (#[trigger] raw[j]).0 == "LN"@ ==> spec_parse_i32(
                        raw[j].1,
                    ) is Some,
                has_name == (last_key_index(raw.take(i as int), "SN"@) != -1),
                has_len == (last_key_index(raw.take(i as int), "LN"@) != -1),
                has_name ==> rs.spec_name() == raw[last_key_index(raw.take(i as int), "SN"@)].1,
                has_len ==> spec_parse_i32(
                    raw[last_key_index(raw.take(i as int), "LN"@)].1,
                ) == Some(rs.spec_len() as i32),
                forall|key: Seq<char>|
                    #![trigger spec_get_key(rs.spec_fields(), key)]
                    key != "SN"@ && key != "LN"@ ==> {
                        let k = last_key_index(raw.take(i as int), key);
                        &&& (k == -1 ==> spec_get_key(rs.spec_fields(), key) is None)
                        &&& (k != -1 ==> (spec_get_key(rs.spec_fields(), key) matches Some(v)
                            && v@ == raw[k].1))
                    },
            decreases n - i,
        {
            proof {
                assert(raw[i as int] == (raw_fields@[i as int].0@, raw_fields@[i as int].1@));
            }
            let tag = match Tag::from_str(raw_fields[i].0.as_str()) {
                Ok(t) => t,
                Err(e) => {
                    proof {
                        assert(!valid_tag_key(raw[i as int].0));
                        lemma_first_fault(raw);
                    }
                    return Err(ParseError::InvalidTag(e));
                },
            };
            proof {
                assert(raw.take(i + 1).drop_last() =~= raw.take(i as int));
                assert(raw.take(i + 1).last() == raw[i as int]);
                assert forall|key: Seq<char>|
                    key != raw[i as int].0 implies #[trigger] last_key_index(
                    raw.take(i + 1),
                    key,
                ) == last_key_index(raw.take(i as int), key) by {}
            }
            match tag {
                Tag::Name => {
                    rs.name = raw_fields[i].1.clone();
                    has_name = true;
                },
                Tag::Len => {
                    match parse_i32(raw_fields[i].1.as_str()) {
                        Some(v) => {
                            rs.len = v;
                            has_len = true;
                        },
                        None => {
                            proof {
                                assert(raw[i as int].0 == "LN"@);
                                lemma_first_fault(raw);
                            }
                            return Err(ParseError::InvalidValue(
                                Tag::Len,
                                raw_fields[i].1.clone(),
                            ));
                        },
                    }
                },
                other => {
                    let ghost t = other;
                    let ghost before = rs.spec_fields();
                    let value = raw_fields[i].1.clone();
                    let ghost v = value;
                    proof {
                        lemma_spec_find(before, t);
                        if spec_find(before, t) != -1 {
                            let kf = spec_find(before, t);
                            Tag::lemma_canonical_eq(before[kf].0, t);
                            assert forall|j: int|
                                0 <= j < kf implies (#[trigger] before[j]).0.spec_str()
                                != t.spec_str() by {
                                Tag::lemma_canonical_eq(before[j].0, t);
                            }
                        }
                    }
                    rs.insert(other, value);
                    proof {
                        let kf = spec_find(before, t);
                        assert(t.spec_str() == raw[i as int].0);
                        assert(t.spec_str() != "SN"@ && t.spec_str() != "LN"@);
                        assert forall|key: Seq<char>|
                            #![trigger spec_get_key(rs.spec_fields(), key)]
                            key != "SN"@ && key != "LN"@ implies {
                            let k = last_key_index(raw.take(i + 1), key);
                            &&& (k == -1 ==> spec_get_key(rs.spec_fields(), key) is None)
                            &&& (k != -1 ==> (spec_get_key(rs.spec_fields(), key) matches Some(
                                vv,
                            ) && vv@ == raw[k].1))
                        } by {
                            if kf == -1 {
                                lemma_get_key_push(before, (t, v), key);
                                lemma_find_matches_key(before, t);
                            } else {
                                lemma_get_key_update(before, kf, (t, v), key);
                            }
                        }
                    }
                },
            }
            i += 1;
        }
        proof {
            assert(raw.take(n as int) =~= raw);
            lemma_first_fault(raw);
        }
        if !has_name {
            proof {
                lemma_last_key_index(raw, "SN"@);
            }
            return Err(ParseError::MissingRequiredTag(Tag::Name));
        }
        if !has_len {
            proof {
                lemma_last_key_index(raw, "LN"@);
            }
            return Err(ParseError::MissingRequiredTag(Tag::Len));
        }
        Ok(rs)
    }
}

} // verus!
