//! The header-record grammar of variant-call files: a `##key=value` line
//! whose value is either a plain string or an angle-bracketed structure of
//! comma-separated `key=value` fields with optional quoted, escaped values.

use vstd::prelude::*;
use crate::text::{find_char, lemma_find_char, pairs_view, str_eq};

verus! {

/// A header-record value: a plain string, or a structure of key–value
/// fields.
#[derive(Clone, Debug)]
pub enum Value {
    /// A plain string value.
    String(String),
    /// A structured value: its fields, in order.
    Struct(Vec<(String, String)>),
}

/// An error returned when a header-record line fails to parse.
#[derive(Clone, Copy, Debug, PartialEq, Eq, Structural)]
pub enum ParseError {
    /// The line does not begin with the `##` record prefix.
    MissingPrefix,
    /// The line has no `=` between key and value.
    MissingDelimiter,
}

impl Value {
    /// What equality on values means: the same shape with the same
    /// characters.
    pub open spec fn eq_spec_with(self, other: Value) -> bool {
        match (self, other) {
            (Value::String(a), Value::String(b)) => a@ == b@,
            (Value::Struct(a), Value::Struct(b)) => pairs_view(a@) == pairs_view(b@),
            _ => false,
        }
    }
}

/// Whether two field vectors hold the same keys and values.
fn pairs_eq(a: &Vec<(String, String)>, b: &Vec<(String, String)>) -> (r: bool)
    ensures
        r == (pairs_view(a@) == pairs_view(b@)),
{
    if a.len() != b.len() {
        proof {
            assert(pairs_view(a@).len() != pairs_view(b@).len());
        }
        return false;
    }
    let n = a.len();
    let mut i: usize = 0;
    while i < n
        invariant
            0 <= i <= n,
            n == a@.len() == b@.len(),
            forall|j: int| 0 <= j < i ==> #[trigger] pairs_view(a@)[j] == pairs_view(b@)[j],
        decreases n - i,
    {
        if !str_eq(a[i].0.as_str(), b[i].0.as_str()) || !str_eq(a[i].1.as_str(), b[i].1.as_str()) {
            proof {
                assert(pairs_view(a@)[i as int] != pairs_view(b@)[i as int]);
            }
            return false;
        }
        proof {
            assert(pairs_view(a@)[i as int] == pairs_view(b@)[i as int]);
        }
        i += 1;
    }
    proof {
        assert(pairs_view(a@) =~= pairs_view(b@));
    }
    true
}

impl PartialEq for Value {
    fn eq(&self, other: &Value) -> (r: bool) {
        match (self, other) {
            (Value::String(a), Value::String(b)) => str_eq(a.as_str(), b.as_str()),
            (Value::Struct(a), Value::Struct(b)) => pairs_eq(a, b),
            _ => false,
        }
    }
}

impl vstd::std_specs::cmp::PartialEqSpecImpl for Value {
    open spec fn obeys_eq_spec() -> bool {
        true
    }

    open spec fn eq_spec(&self, other: &Value) -> bool {
        self.eq_spec_with(*other)
    }
}

/// Whether `c` is an ASCII letter.
pub open spec fn spec_alpha(c: char) -> bool {
    ('a' <= c && c <= 'z') || ('A' <= c && c <= 'Z')
}

/// Whether `c` is an ASCII letter.
fn is_alpha(c: char) -> (r: bool)
    ensures
        r == spec_alpha(c),
{
    ('a' <= c && c <= 'z') || ('A' <= c && c <= 'Z')
}

/// The end of the run of ASCII letters starting at `pos`.
pub open spec fn spec_alpha_end(s: Seq<char>, pos: int) -> int
    decreases s.len() - pos,
    when 0 <= pos <= s.len()
{
    if pos == s.len() || !spec_alpha(s[pos]) {
        pos
    } else {
        spec_alpha_end(s, pos + 1)
    }
}

proof fn lemma_alpha_end_bounds(s: Seq<char>, pos: int)
    requires
        0 <= pos <= s.len(),
    ensures
        pos <= spec_alpha_end(s, pos) <= s.len(),
    decreases s.len() - pos,
{
    if !(pos == s.len() || !spec_alpha(s[pos])) {
        lemma_alpha_end_bounds(s, pos + 1);
    }
}

/// A quoted value starting at `pos` (just past the opening quote): the
/// characters with the `\\` and `\"` escapes undone, and the position
/// after the closing quote. `None` when the quote never closes or an escape
/// is unknown.
pub open spec fn spec_quoted(s: Seq<char>, pos: int) -> Option<(Seq<char>, int)>
    decreases s.len() - pos,
    when 0 <= pos <= s.len()
{
    if pos == s.len() {
        None
    } else if s[pos] == '"' {
        Some((Seq::empty(), pos + 1))
    } else if s[pos] == '\\' {
        if pos + 1 >= s.len() {
            None
        } else if s[pos + 1] == '\\' || s[pos + 1] == '"' {
            match spec_quoted(s, pos + 2) {
                Some((v, q)) => Some((seq![s[pos + 1]] + v, q)),
                None => None,
            }
        } else {
            None
        }
    } else {
        match spec_quoted(s, pos + 1) {
            Some((v, q)) => Some((seq![s[pos]] + v, q)),
            None => None,
        }
    }
}

proof fn lemma_quoted_bounds(s: Seq<char>, pos: int)
    requires
        0 <= pos <= s.len(),
        spec_quoted(s, pos) is Some,
    ensures
        pos < spec_quoted(s, pos)->Some_0.1 <= s.len(),
    decreases s.len() - pos,
{
    if pos < s.len() && s[pos] != '"' {
        if s[pos] == '\\' {
            lemma_quoted_bounds(s, pos + 2);
        } else {
            lemma_quoted_bounds(s, pos + 1);
        }
    }
}

/// The end of a bare value starting at `pos`: the next comma or closing
/// bracket, or the end of the input.
pub open spec fn spec_bare_end(s: Seq<char>, pos: int) -> int
    decreases s.len() - pos,
    when 0 <= pos <= s.len()
{
    if pos == s.len() || s[pos] == ',' || s[pos] == '>' {
        pos
    } else {
        spec_bare_end(s, pos + 1)
    }
}

proof fn lemma_bare_end_bounds(s: Seq<char>, pos: int)
    requires
        0 <= pos <= s.len(),
    ensures
        pos <= spec_bare_end(s, pos) <= s.len(),
    decreases s.len() - pos,
{
    if !(pos == s.len() || s[pos] == ',' || s[pos] == '>') {
        lemma_bare_end_bounds(s, pos + 1);
    }
}

/// One structure field at `pos`: a non-empty run of letters as the key, an
/// equals sign, then either a quoted value with its escapes undone or a
/// bare value up to the next comma or closing bracket; and the position
/// after the field.
pub open spec fn spec_field(s: Seq<char>, pos: int) -> Option<((Seq<char>, Seq<char>), int)> {
    let e = spec_alpha_end(s, pos);
    if e == pos || e == s.len() || s[e] != '=' {
        None
    } else {
        let key = s.subrange(pos, e);
        let v = e + 1;
        if v < s.len() && s[v] == '"' {
            match spec_quoted(s, v + 1) {
                Some((val, q)) => Some(((key, val), q)),
                None => None,
            }
        } else {
            let b = spec_bare_end(s, v);
            Some(((key, s.subrange(v, b)), b))
        }
    }
}

proof fn lemma_field_bounds(s: Seq<char>, pos: int)
    requires
        0 <= pos <= s.len(),
        spec_field(s, pos) is Some,
    ensures
        pos < spec_field(s, pos)->Some_0.1 <= s.len(),
{
    lemma_alpha_end_bounds(s, pos);
    let e = spec_alpha_end(s, pos);
    if e + 1 < s.len() && s[e + 1] == '"' {
        lemma_quoted_bounds(s, e + 2);
    } else {
        lemma_bare_end_bounds(s, e + 1);
    }
}

/// A whole structure body starting at `pos` (just past the opening
/// bracket): one or more comma-separated fields, the closing bracket, and
/// the position after it.
pub open spec fn spec_structure_fields(s: Seq<char>, pos: int) -> Option<
    (Seq<(Seq<char>, Seq<char>)>, int),
>
    decreases s.len() - pos,
    when 0 <= pos <= s.len()
    via spec_structure_fields_decreases
{
    match spec_field(s, pos) {
        None => None,
        Some((f, q)) => if q == s.len() {
            None
        } else if s[q] == '>' {
            Some((seq![f], q + 1))
        } else if s[q] == ',' {
            match spec_structure_fields(s, q + 1) {
                Some((fs, r)) => Some((seq![f] + fs, r)),
                None => None,
            }
        } else {
            None
        },
    }
}

#[via_fn]
proof fn spec_structure_fields_decreases(s: Seq<char>, pos: int) {
    if spec_field(s, pos) is Some {
        lemma_field_bounds(s, pos);
    }
}

proof fn lemma_structure_bounds(s: Seq<char>, pos: int)
    requires
        0 <= pos <= s.len(),
        spec_structure_fields(s, pos) is Some,
    ensures
        pos < spec_structure_fields(s, pos)->Some_0.1 <= s.len(),
    decreases s.len() - pos,
{
    lemma_field_bounds(s, pos);
    let q = spec_field(s, pos)->Some_0.1;
    if q < s.len() && s[q] != '>' && s[q] == ',' {
        lemma_structure_bounds(s, q + 1);
    }
}

/// Parses one structure field at `pos`.
#[verifier::loop_isolation(false)]
fn parse_field(s: &str, pos: usize) -> (r: Option<((String, String), usize)>)
    requires
        pos <= s@.len(),
    ensures
        r is Some <==> spec_field(s@, pos as int) is Some,
        r matches Some(p) ==> spec_field(s@, pos as int) == Some(
            ((p.0.0@, p.0.1@), p.1 as int),
        ),
{
    proof {
        lemma_alpha_end_bounds(s@, pos as int);
    }
    let n = s.unicode_len();
    let mut i: usize = pos;
    while i < n && is_alpha(s.get_char(i))
        invariant
            pos <= i <= n,
            n == s@.len(),
            spec_alpha_end(s@, i as int) == spec_alpha_end(s@, pos as int),
        decreases n - i,
    {
        i += 1;
    }
    proof {
        assert(spec_alpha_end(s@, pos as int) == i);
    }
    if i == pos || i == n || s.get_char(i) != '=' {
        return None;
    }
    let key = String::from_str(s.substring_char(pos, i));
    let vstart = i + 1;
    if vstart < n && s.get_char(vstart) == '"' {
        // A quoted value: undo the escapes, stop at the closing quote.
        let mut value = String::new();
        let mut j: usize = vstart + 1;
        while j < n
            invariant
                vstart + 1 <= j <= n,
                n == s@.len(),
                spec_quoted(s@, vstart + 1) == (match spec_quoted(s@, j as int) {
                    Some((v, q)) => Some((value@ + v, q)),
                    None => None,
                }),
            decreases n - j,
        {
            let c = s.get_char(j);
            if c == '"' {
                proof {
                    assert(value@ + Seq::<char>::empty() =~= value@);
                }
                return Some(((key, value), j + 1));
            } else if c == '\\' {
                if j + 1 >= n {
                    return None;
                }
                let e = s.get_char(j + 1);
                let ghost value0 = value@;
                if e == '\\' {
                    value.append("\\");
                    proof {
                        reveal_strlit("\\");
                        assert(value@ =~= value0.push('\\'));
                    }
                } else if e == '"' {
                    value.append("\"");
                    proof {
                        reveal_strlit("\"");
                        assert(value@ =~= value0.push('"'));
                    }
                } else {
                    return None;
                }
                proof {
                    match spec_quoted(s@, j + 2) {
                        Some((v, q)) => {
                            assert(value0 + (seq![s@[j + 1]] + v) =~= value@ + v);
                        },
                        None => {},
                    }
                }
                j += 2;
            } else {
                let ghost value0 = value@;
                value.append(s.substring_char(j, j + 1));
                proof {
                    assert(s@.subrange(j as int, j + 1) =~= seq![s@[j as int]]);
                    match spec_quoted(s@, j + 1) {
                        Some((v, q)) => {
                            assert(value0 + (seq![s@[j as int]] + v) =~= value@ + v);
                        },
                        None => {},
                    }
                }
                j += 1;
            }
        }
        None
    } else {
        // A bare value: everything up to the next comma or closing bracket.
        proof {
            lemma_bare_end_bounds(s@, vstart as int);
        }
        let mut j: usize = vstart;
        while j < n && s.get_char(j) != ',' && s.get_char(j) != '>'
            invariant
                vstart <= j <= n,
                n == s@.len(),
                spec_bare_end(s@, j as int) == spec_bare_end(s@, vstart as int),
            decreases n - j,
        {
            j += 1;
        }
        proof {
            assert(spec_bare_end(s@, vstart as int) == j);
        }
        let value = String::from_str(s.substring_char(vstart, j));
        Some(((key, value), j))
    }
}

/// Parses a whole structure at `pos` (which holds the opening bracket):
/// one or more comma-separated fields, then the closing bracket. Returns
/// the fields and the position after the bracket.
#[verifier::loop_isolation(false)]
fn parse_structure(s: &str, pos: usize) -> (r: Option<(Vec<(String, String)>, usize)>)
    requires
        pos < s@.len(),
    ensures
        r is Some <==> spec_structure_fields(s@, pos + 1) is Some,
        r matches Some(p) ==> spec_structure_fields(s@, pos + 1) == Some(
            (pairs_view(p.0@), p.1 as int),
        ),
{
    let n = s.unicode_len();
    let mut fields: Vec<(String, String)> = Vec::new();
    let mut cursor: usize = pos + 1;
    loop
        invariant
            pos < cursor <= n,
            n == s@.len(),
            (match spec_structure_fields(s@, cursor as int) {
                Some((fs, rr)) => spec_structure_fields(s@, pos + 1) == Some(
                    (pairs_view(fields@) + fs, rr),
                ),
                None => spec_structure_fields(s@, pos + 1) is None,
            }),
        decreases n - cursor,
    {
        let ghost at = cursor as int;
        match parse_field(s, cursor) {
            None => {
                return None;
            },
            Some((field, next)) => {
                proof {
                    lemma_field_bounds(s@, at);
                }
                let ghost f = spec_field(s@, at)->Some_0.0;
                fields.push(field);
                proof {
                    assert(pairs_view(fields@) =~= pairs_view(fields@.drop_last()).push(f));
                }
                if next < n {
                    let c = s.get_char(next);
                    if c == '>' {
                        proof {
                            assert(pairs_view(fields@.drop_last()) + (seq![f]
                                + Seq::<(Seq<char>, Seq<char>)>::empty()) =~= pairs_view(
                                fields@,
                            ));
                            assert(seq![f] + Seq::<(Seq<char>, Seq<char>)>::empty() =~= seq![f]);
                        }
                        return Some((fields, next + 1));
                    } else if c == ',' {
                        proof {
                            match spec_structure_fields(s@, next + 1) {
                                Some((fs, rr)) => {
                                    assert(pairs_view(fields@.drop_last()) + (seq![f] + fs)
                                        =~= pairs_view(fields@) + fs);
                                },
                                None => {},
                            }
                        }
                        if next + 1 > n {
                            return None;
                        }
                        cursor = next + 1;
                    } else {
                        return None;
                    }
                } else {
                    return None;
                }
            },
        }
    }
}

/// Parses one header-record line: the `##` prefix, a key up to the first
/// `=`, and a value. A value opening with an angle bracket is parsed as a
/// structure when it can be; any other value — and any malformed structure
/// — is the rest of the line as a plain string. Returns the unconsumed
/// input together with the key and value.
pub fn parse(input: &str) -> (r: Result<(String, (String, Value)), ParseError>)
    ensures
        r is Ok <==> (input@.len() >= 2 && input@.take(2) == "##"@ && find_char(
            input@.skip(2),
            '=',
        ) != -1),
        r matches Ok(p) ==> p.1.0@ == input@.skip(2).take(find_char(input@.skip(2), '=')),
        r matches Ok(p) ==> ({
            let vstart = 2 + find_char(input@.skip(2), '=') + 1;
            &&& ((vstart == input@.len() || input@[vstart] != '<') ==> (p.1.1 matches Value::String(
                v,
            ) && v@ == input@.skip(vstart) && p.0@ == Seq::<char>::empty()))
            &&& ((vstart < input@.len() && input@[vstart] == '<') ==> match spec_structure_fields(
                input@,
                vstart + 1,
            ) {
                Some((fs, consumed)) => p.1.1 matches Value::Struct(v) && pairs_view(v@) == fs
                    && p.0@ == input@.skip(consumed),
                None => p.1.1 matches Value::String(v) && v@ == input@.skip(vstart) && p.0@
                    == Seq::<char>::empty(),
            })
        }),
{
    proof {
        reveal_strlit("##");
    }
    let n = input.unicode_len();
    if n < 2 || input.get_char(0) != '#' || input.get_char(1) != '#' {
        proof {
            if input@.len() >= 2 {
                assert(input@.take(2)[0] == input@[0] && input@.take(2)[1] == input@[1]);
            }
        }
        return Err(ParseError::MissingPrefix);
    }
    proof {
        assert(input@.take(2) =~= "##"@);
        lemma_find_char(input@.skip(2), '=');
        assert(forall|j: int| 2 <= j < n ==> #[trigger] input@[j] == input@.skip(2)[j - 2]);
    }
    let mut i: usize = 2;
    while i < n && input.get_char(i) != '='
        invariant
            2 <= i <= n,
            n == input@.len(),
            forall|j: int| 2 <= j < i ==> input@[j] != '=',
        decreases n - i,
    {
        i += 1;
    }
    if i == n {
        proof {
            lemma_find_char(input@.skip(2), '=');
        }
        return Err(ParseError::MissingDelimiter);
    }
    proof {
        lemma_find_char(input@.skip(2), '=');
        assert(input@.skip(2)[i - 2] == '=');
        assert(find_char(input@.skip(2), '=') == i - 2);
    }
    let key = String::from_str(input.substring_char(2, i));
    proof {
        assert(input@.subrange(2, i as int) =~= input@.skip(2).take(i - 2));
    }
    let vstart = i + 1;
    if vstart < n && input.get_char(vstart) == '<' {
        if let Some((fields, consumed)) = parse_structure(input, vstart) {
            proof {
                lemma_structure_bounds(input@, vstart + 1);
                assert(input@.subrange(consumed as int, n as int) =~= input@.skip(
                    consumed as int,
                ));
            }
            let rest = String::from_str(input.substring_char(consumed, n));
            return Ok((rest, (key, Value::Struct(fields))));
        }
    }
    let value = String::from_str(input.substring_char(vstart, n));
    proof {
        assert(input@.subrange(vstart as int, n as int) =~= input@.skip(vstart as int));
        reveal_strlit("");
        assert(""@ =~= Seq::<char>::empty());
    }
    Ok((String::from_str(""), (key, Value::String(value))))
}

} // verus!
