//! A tag: a registered name with a value of the kind that the table gives
//! the name, read from and written to one line of text.

use vstd::prelude::*;
use crate::decimal::{fixed_text, parse_decimal_spec, Decimal};
use crate::incar::schema::{lookup_in, IncarTagType, TagSchema};
use crate::number::{int_text, parse_i64, parse_i64_spec, push_int};
use crate::text::{
    chars_of, copy_range, join, join_with, push_chars, run_length, same_chars, span,
    split_whitespace, string_from_chars, tokens_of, trim, trim_of, views, CharClass,
};

verus! {

/// The number of digits after the point with which the elements of an array
/// of reals are written.
pub const ARRAY_PLACES: u8 = 6;

/// Why a tag could not be made.
#[derive(Debug, Clone, PartialEq, Eq)]
pub enum IncarError {
    /// The line has no `=` before its comment.
    MalformedLine,
    /// The table does not register the name, or not with the kind asked for.
    SchemaViolation(String),
    /// The text is none of the tokens that write a boolean.
    InvalidBoolToken(String),
    /// The token, which stands at the given position among the tokens of the
    /// value, writes no number of the kind of the tag.
    InvalidNumericToken(usize, String),
}

/// An `IncarError` as plain values.
pub ghost enum IncarFault {
    MalformedLine,
    SchemaViolation(Seq<char>),
    InvalidBoolToken(Seq<char>),
    InvalidNumericToken(usize, Seq<char>),
}

impl View for IncarError {
    type V = IncarFault;

    open spec fn view(&self) -> IncarFault {
        match self {
            IncarError::MalformedLine => IncarFault::MalformedLine,
            IncarError::SchemaViolation(s) => IncarFault::SchemaViolation(s@),
            IncarError::InvalidBoolToken(s) => IncarFault::InvalidBoolToken(s@),
            IncarError::InvalidNumericToken(i, s) => IncarFault::InvalidNumericToken(*i, s@),
        }
    }
}

/// A tag: its name and its value.
#[derive(Debug, Clone, PartialEq)]
pub enum IncarTag {
    Boolean(String, bool),
    Integer(String, i64),
    IntegerArray(String, Vec<i64>),
    Real(String, Decimal),
    RealArray(String, Vec<Decimal>),
    String(String, String),
}

/// An `IncarTag` as plain values.
pub ghost enum TagView {
    Boolean(Seq<char>, bool),
    Integer(Seq<char>, i64),
    IntegerArray(Seq<char>, Seq<i64>),
    Real(Seq<char>, Decimal),
    RealArray(Seq<char>, Seq<Decimal>),
    String(Seq<char>, Seq<char>),
}

impl View for IncarTag {
    type V = TagView;

    open spec fn view(&self) -> TagView {
        match self {
            IncarTag::Boolean(n, v) => TagView::Boolean(n@, *v),
            IncarTag::Integer(n, v) => TagView::Integer(n@, *v),
            IncarTag::IntegerArray(n, v) => TagView::IntegerArray(n@, v@),
            IncarTag::Real(n, v) => TagView::Real(n@, *v),
            IncarTag::RealArray(n, v) => TagView::RealArray(n@, v@),
            IncarTag::String(n, v) => TagView::String(n@, v@),
        }
    }
}

impl TagView {
    /// The name of the tag.
    pub open spec fn name(self) -> Seq<char> {
        match self {
            TagView::Boolean(n, _) => n,
            TagView::Integer(n, _) => n,
            TagView::IntegerArray(n, _) => n,
            TagView::Real(n, _) => n,
            TagView::RealArray(n, _) => n,
            TagView::String(n, _) => n,
        }
    }

    /// The kind of the value.
    pub open spec fn kind(self) -> IncarTagType {
        match self {
            TagView::Boolean(_, _) => IncarTagType::Bool,
            TagView::Integer(_, _) => IncarTagType::Integer,
            TagView::IntegerArray(_, _) => IncarTagType::IntegerArray,
            TagView::Real(_, _) => IncarTagType::Real,
            TagView::RealArray(_, _) => IncarTagType::RealArray,
            TagView::String(_, _) => IncarTagType::String,
        }
    }

    /// The text of the value.
    pub open spec fn value_text(self) -> Seq<char> {
        match self {
            TagView::Boolean(_, v) => if v {
                ".TRUE."@
            } else {
                ".FALSE."@
            },
            TagView::Integer(_, v) => int_text(v as int),
            TagView::IntegerArray(n, v) => join_with(
                Seq::new(v.len(), |i: int| assignment(n, int_text(v[i] as int))),
                seq![' '],
            ),
            TagView::Real(_, v) => v.text(),
            TagView::RealArray(_, v) => join_with(
                Seq::new(v.len(), |i: int| fixed_text(v[i], ARRAY_PLACES as nat)),
                seq![' '],
            ),
            TagView::String(_, v) => v,
        }
    }

    /// The line that writes the tag: the name, ` = ` and the value. Each
    /// element of an array of integers is written as such an assignment of
    /// its own.
    pub open spec fn text(self) -> Seq<char> {
        assignment(self.name(), self.value_text())
    }
}

/// `name`, ` = ` and `value`.
pub open spec fn assignment(name: Seq<char>, value: Seq<char>) -> Seq<char> {
    name + seq![' ', '=', ' '] + value
}

/// The boolean that `val` writes.
pub open spec fn bool_of(val: Seq<char>) -> Option<bool> {
    if val == "T"@ || val == "true"@ || val == "True"@ || val == ".TRUE."@ {
        Some(true)
    } else if val == "F"@ || val == "false"@ || val == "False"@ || val == ".FALSE."@ {
        Some(false)
    } else {
        None
    }
}

/// The integers that the tokens write, or the first token that writes none.
pub open spec fn integers_of(tokens: Seq<Seq<char>>) -> Result<Seq<i64>, IncarFault>
    decreases tokens.len(),
{
    if tokens.len() == 0 {
        Ok(Seq::empty())
    } else {
        match integers_of(tokens.drop_last()) {
            Err(e) => Err(e),
            Ok(before) => match parse_i64_spec(tokens.last()) {
                Some(v) => Ok(before.push(v)),
                None => Err(
                    IncarFault::InvalidNumericToken((tokens.len() - 1) as usize, tokens.last()),
                ),
            },
        }
    }
}

/// The reals that the tokens write, or the first token that writes none.
pub open spec fn reals_of(tokens: Seq<Seq<char>>) -> Result<Seq<Decimal>, IncarFault>
    decreases tokens.len(),
{
    if tokens.len() == 0 {
        Ok(Seq::empty())
    } else {
        match reals_of(tokens.drop_last()) {
            Err(e) => Err(e),
            Ok(before) => match parse_decimal_spec(tokens.last()) {
                Some(v) => Ok(before.push(v)),
                None => Err(
                    IncarFault::InvalidNumericToken((tokens.len() - 1) as usize, tokens.last()),
                ),
            },
        }
    }
}

/// The tag of name `name` and kind `kind` whose value the trimmed text `val`
/// writes.
pub open spec fn value_of(name: Seq<char>, kind: IncarTagType, val: Seq<char>) -> Result<
    TagView,
    IncarFault,
> {
    match kind {
        IncarTagType::String => Ok(TagView::String(name, val)),
        IncarTagType::Bool => match bool_of(val) {
            Some(b) => Ok(TagView::Boolean(name, b)),
            None => Err(IncarFault::InvalidBoolToken(val)),
        },
        IncarTagType::Integer => match parse_i64_spec(val) {
            Some(v) => Ok(TagView::Integer(name, v)),
            None => Err(IncarFault::InvalidNumericToken(0, val)),
        },
        IncarTagType::Real => match parse_decimal_spec(val) {
            Some(v) => Ok(TagView::Real(name, v)),
            None => Err(IncarFault::InvalidNumericToken(0, val)),
        },
        IncarTagType::IntegerArray => match integers_of(tokens_of(val)) {
            Ok(v) => Ok(TagView::IntegerArray(name, v)),
            Err(e) => Err(e),
        },
        IncarTagType::RealArray => match reals_of(tokens_of(val)) {
            Ok(v) => Ok(TagView::RealArray(name, v)),
            Err(e) => Err(e),
        },
    }
}

/// The tag that `name`, `kind` and the text `raw` make under the table
/// `entries`: the name must be registered with that kind, and the text,
/// trimmed, must write a value of it.
pub open spec fn construct_spec(
    entries: Seq<(Seq<char>, IncarTagType)>,
    name: Seq<char>,
    kind: IncarTagType,
    raw: Seq<char>,
) -> Result<TagView, IncarFault> {
    if lookup_in(entries, name) == Some(kind) {
        value_of(name, kind, trim_of(raw))
    } else {
        Err(IncarFault::SchemaViolation(name))
    }
}

/// What stands before the comment of a line: all of it up to the first `#`.
pub open spec fn before_comment(line: Seq<char>) -> Seq<char> {
    line.take(span(line, CharClass::Not('#')) as int)
}

/// The name and the value of a declaration: what stands before and after
/// its first `=`, each trimmed.
pub open spec fn declaration_of(line: Seq<char>) -> Option<(Seq<char>, Seq<char>)> {
    let head = before_comment(line);
    let eq = span(head, CharClass::Not('=')) as int;
    if eq >= head.len() {
        None
    } else {
        Some((trim_of(head.take(eq)), trim_of(head.skip(eq + 1))))
    }
}

/// The tag that a line declares under the table `entries`.
pub open spec fn tag_of_line(entries: Seq<(Seq<char>, IncarTagType)>, line: Seq<char>) -> Result<
    TagView,
    IncarFault,
> {
    match declaration_of(line) {
        None => Err(IncarFault::MalformedLine),
        Some(parts) => match lookup_in(entries, parts.0) {
            None => Err(IncarFault::SchemaViolation(parts.0)),
            Some(kind) => value_of(parts.0, kind, parts.1),
        },
    }
}

/// Reads a boolean.
fn parse_bool(val: &[char]) -> (r: Option<bool>)
    ensures
        r == bool_of(val@),
{
    if same_chars(val, chars_of("T").as_slice()) || same_chars(val, chars_of("true").as_slice())
        || same_chars(val, chars_of("True").as_slice()) || same_chars(
        val,
        chars_of(".TRUE.").as_slice(),
    ) {
        Some(true)
    } else if same_chars(val, chars_of("F").as_slice()) || same_chars(
        val,
        chars_of("false").as_slice(),
    ) || same_chars(val, chars_of("False").as_slice()) || same_chars(
        val,
        chars_of(".FALSE.").as_slice(),
    ) {
        Some(false)
    } else {
        None
    }
}

/// Reads an array of integers.
fn read_integers(tokens: &Vec<Vec<char>>) -> (r: Result<Vec<i64>, IncarError>)
    ensures
        match integers_of(views(tokens@)) {
            Ok(v) => r is Ok && r->Ok_0@ == v,
            Err(f) => r is Err && r->Err_0@ == f,
        },
{
    let ghost all = views(tokens@);
    let mut out: Vec<i64> = Vec::new();
    let mut i: usize = 0;
    assert(all.take(0) =~= Seq::<Seq<char>>::empty());
    while i < tokens.len()
        invariant
            i <= tokens.len(),
            all == views(tokens@),
            integers_of(all.take(i as int)) == Ok::<Seq<i64>, IncarFault>(out@),
        decreases tokens.len() - i,
    {
        let ghost next = all.take(i + 1);
        proof {
            assert(next.drop_last() =~= all.take(i as int));
            assert(next.last() == tokens@[i as int]@);
        }
        match parse_i64(tokens[i].as_slice()) {
            Some(v) => {
                out.push(v);
            },
            None => {
                proof {
                    lemma_integers_fault(all, i + 1);
                }
                return Err(
                    IncarError::InvalidNumericToken(i, string_from_chars(tokens[i].as_slice())),
                );
            },
        }
        i += 1;
    }
    assert(all.take(i as int) =~= all);
    Ok(out)
}

/// A fault in a prefix of the tokens is the fault of all of them.
pub proof fn lemma_integers_fault(tokens: Seq<Seq<char>>, k: int)
    requires
        0 <= k <= tokens.len(),
        integers_of(tokens.take(k)) is Err,
    ensures
        integers_of(tokens) == integers_of(tokens.take(k)),
    decreases tokens.len() - k,
{
    if k == tokens.len() {
        assert(tokens.take(k) =~= tokens);
    } else {
        assert(tokens.drop_last().take(k) =~= tokens.take(k));
        lemma_integers_fault(tokens.drop_last(), k);
    }
}

/// Reads an array of reals.
fn read_reals(tokens: &Vec<Vec<char>>) -> (r: Result<Vec<Decimal>, IncarError>)
    ensures
        match reals_of(views(tokens@)) {
            Ok(v) => r is Ok && r->Ok_0@ == v,
            Err(f) => r is Err && r->Err_0@ == f,
        },
{
    let ghost all = views(tokens@);
    let mut out: Vec<Decimal> = Vec::new();
    let mut i: usize = 0;
    assert(all.take(0) =~= Seq::<Seq<char>>::empty());
    while i < tokens.len()
        invariant
            i <= tokens.len(),
            all == views(tokens@),
            reals_of(all.take(i as int)) == Ok::<Seq<Decimal>, IncarFault>(out@),
        decreases tokens.len() - i,
    {
        let ghost next = all.take(i + 1);
        proof {
            assert(next.drop_last() =~= all.take(i as int));
            assert(next.last() == tokens@[i as int]@);
        }
        match Decimal::parse(tokens[i].as_slice()) {
            Some(v) => {
                out.push(v);
            },
            None => {
                proof {
                    lemma_reals_fault(all, i + 1);
                }
                return Err(
                    IncarError::InvalidNumericToken(i, string_from_chars(tokens[i].as_slice())),
                );
            },
        }
        i += 1;
    }
    assert(all.take(i as int) =~= all);
    Ok(out)
}

/// A fault in a prefix of the tokens is the fault of all of them.
pub proof fn lemma_reals_fault(tokens: Seq<Seq<char>>, k: int)
    requires
        0 <= k <= tokens.len(),
        reals_of(tokens.take(k)) is Err,
    ensures
        reals_of(tokens) == reals_of(tokens.take(k)),
    decreases tokens.len() - k,
{
    if k == tokens.len() {
        assert(tokens.take(k) =~= tokens);
    } else {
        assert(tokens.drop_last().take(k) =~= tokens.take(k));
        lemma_reals_fault(tokens.drop_last(), k);
    }
}

/// Makes the tag of the given name and kind from the trimmed text of its
/// value.
fn read_value(name: &[char], kind: IncarTagType, val: &[char]) -> (r: Result<IncarTag, IncarError>)
    ensures
        match value_of(name@, kind, val@) {
            Ok(t) => r is Ok && r->Ok_0@ == t,
            Err(f) => r is Err && r->Err_0@ == f,
        },
{
    let n = string_from_chars(name);
    match kind {
        IncarTagType::String => Ok(IncarTag::String(n, string_from_chars(val))),
        IncarTagType::Bool => match parse_bool(val) {
            Some(b) => Ok(IncarTag::Boolean(n, b)),
            None => Err(IncarError::InvalidBoolToken(string_from_chars(val))),
        },
        IncarTagType::Integer => match parse_i64(val) {
            Some(v) => Ok(IncarTag::Integer(n, v)),
            None => Err(IncarError::InvalidNumericToken(0, string_from_chars(val))),
        },
        IncarTagType::Real => match Decimal::parse(val) {
            Some(v) => Ok(IncarTag::Real(n, v)),
            None => Err(IncarError::InvalidNumericToken(0, string_from_chars(val))),
        },
        IncarTagType::IntegerArray => {
            let tokens = split_whitespace(val);
            match read_integers(&tokens) {
                Ok(v) => Ok(IncarTag::IntegerArray(n, v)),
                Err(e) => Err(e),
            }
        },
        IncarTagType::RealArray => {
            let tokens = split_whitespace(val);
            match read_reals(&tokens) {
                Ok(v) => Ok(IncarTag::RealArray(n, v)),
                Err(e) => Err(e),
            }
        },
    }
}

impl IncarTag {
    /// The name of the tag.
    pub fn name(&self) -> (r: &str)
        ensures
            r@ == self@.name(),
    {
        match self {
            IncarTag::Boolean(name, _) => name.as_str(),
            IncarTag::Integer(name, _) => name.as_str(),
            IncarTag::IntegerArray(name, _) => name.as_str(),
            IncarTag::Real(name, _) => name.as_str(),
            IncarTag::RealArray(name, _) => name.as_str(),
            IncarTag::String(name, _) => name.as_str(),
        }
    }

    /// Whether the tag has the name `s`.
    pub fn is_name(&self, s: &str) -> (r: bool)
        ensures
            r == (s@ == self@.name()),
    {
        let a = chars_of(s);
        let b = chars_of(self.name());
        same_chars(a.as_slice(), b.as_slice())
    }

    /// The kind of the value.
    pub fn kind(&self) -> (r: IncarTagType)
        ensures
            r == self@.kind(),
    {
        match self {
            IncarTag::Boolean(_, _) => IncarTagType::Bool,
            IncarTag::Integer(_, _) => IncarTagType::Integer,
            IncarTag::IntegerArray(_, _) => IncarTagType::IntegerArray,
            IncarTag::Real(_, _) => IncarTagType::Real,
            IncarTag::RealArray(_, _) => IncarTagType::RealArray,
            IncarTag::String(_, _) => IncarTagType::String,
        }
    }

    /// Makes a tag from its name, its kind and the text of its value. The
    /// table must register the name with that kind.
    pub fn construct(schema: &TagSchema, name: &str, kind: IncarTagType, raw: &str) -> (r: Result<
        IncarTag,
        IncarError,
    >)
        ensures
            match construct_spec(schema@, name@, kind, raw@) {
                Ok(t) => r is Ok && r->Ok_0@ == t,
                Err(f) => r is Err && r->Err_0@ == f,
            },
    {
        let n = chars_of(name);
        match schema.lookup_chars(n.as_slice()) {
            Some(k) => {
                if !same_kind(k, kind) {
                    return Err(IncarError::SchemaViolation(string_from_chars(n.as_slice())));
                }
            },
            None => {
                return Err(IncarError::SchemaViolation(string_from_chars(n.as_slice())));
            },
        }
        let val = trim(chars_of(raw).as_slice());
        read_value(n.as_slice(), kind, val.as_slice())
    }

    /// Reads the tag that a line declares.
    pub fn from_chars(schema: &TagSchema, line: &[char]) -> (r: Result<IncarTag, IncarError>)
        ensures
            match tag_of_line(schema@, line@) {
                Ok(t) => r is Ok && r->Ok_0@ == t,
                Err(f) => r is Err && r->Err_0@ == f,
            },
    {
        let comment = CharClass::Not('#');
        let equals = CharClass::Not('=');
        assert(line@.skip(0) =~= line@);
        let end = run_length(line, 0, &comment);
        let head = copy_range(line, 0, end);
        assert(head@ =~= before_comment(line@));
        assert(head@.skip(0) =~= head@);
        let eq = run_length(head.as_slice(), 0, &equals);
        if eq >= head.len() {
            return Err(IncarError::MalformedLine);
        }
        let left = copy_range(head.as_slice(), 0, eq);
        let right = copy_range(head.as_slice(), eq + 1, head.len());
        assert(left@ =~= head@.take(eq as int));
        assert(right@ =~= head@.skip(eq + 1));
        let name = trim(left.as_slice());
        let val = trim(right.as_slice());
        match schema.lookup_chars(name.as_slice()) {
            None => Err(IncarError::SchemaViolation(string_from_chars(name.as_slice()))),
            Some(kind) => read_value(name.as_slice(), kind, val.as_slice()),
        }
    }

    /// Reads the tag that a line declares, such as `ISIF    =  3`.
    pub fn from_str(schema: &TagSchema, s: &str) -> (r: Result<IncarTag, IncarError>)
        ensures
            match tag_of_line(schema@, s@) {
                Ok(t) => r is Ok && r->Ok_0@ == t,
                Err(f) => r is Err && r->Err_0@ == f,
            },
    {
        let line = chars_of(s);
        IncarTag::from_chars(schema, line.as_slice())
    }
}

/// Whether two kinds are the same.
fn same_kind(a: IncarTagType, b: IncarTagType) -> (r: bool)
    ensures
        r == (a == b),
{
    a == b
}

/// Appends `name`, ` = ` and `value` to `out`.
fn push_assignment(out: &mut Vec<char>, name: &[char], value: &[char])
    ensures
        final(out)@ == old(out)@ + assignment(name@, value@),
{
    push_chars(out, name);
    out.push(' ');
    out.push('=');
    out.push(' ');
    push_chars(out, value);
    assert(out@ =~= old(out)@ + assignment(name@, value@));
}

/// The text of each integer, written as an assignment to `name`.
fn integer_assignments(name: &[char], v: &Vec<i64>) -> (r: Vec<Vec<char>>)
    ensures
        views(r@) == Seq::new(v@.len(), |i: int| assignment(name@, int_text(v@[i] as int))),
{
    let mut r: Vec<Vec<char>> = Vec::new();
    let mut i: usize = 0;
    while i < v.len()
        invariant
            i <= v.len(),
            r.len() == i,
            forall|j: int|
                0 <= j < i ==> (#[trigger] r[j])@ == assignment(name@, int_text(v@[j] as int)),
        decreases v.len() - i,
    {
        let mut digits: Vec<char> = Vec::new();
        push_int(&mut digits, v[i]);
        assert(digits@ =~= int_text(v@[i as int] as int));
        let mut part: Vec<char> = Vec::new();
        push_assignment(&mut part, name, digits.as_slice());
        assert(part@ =~= assignment(name@, int_text(v@[i as int] as int)));
        r.push(part);
        i += 1;
    }
    assert(views(r@) =~= Seq::new(
        v@.len(),
        |i: int| assignment(name@, int_text(v@[i] as int)),
    ));
    r
}

/// The text of each real, with the digits that an array keeps.
fn real_texts(v: &Vec<Decimal>) -> (r: Vec<Vec<char>>)
    ensures
        views(r@) == Seq::new(v@.len(), |i: int| fixed_text(v@[i], ARRAY_PLACES as nat)),
{
    let mut r: Vec<Vec<char>> = Vec::new();
    let mut i: usize = 0;
    while i < v.len()
        invariant
            i <= v.len(),
            r.len() == i,
            forall|j: int|
                0 <= j < i ==> (#[trigger] r[j])@ == fixed_text(v@[j], ARRAY_PLACES as nat),
        decreases v.len() - i,
    {
        let mut part: Vec<char> = Vec::new();
        v[i].push_fixed(&mut part, ARRAY_PLACES);
        assert(part@ =~= fixed_text(v@[i as int], ARRAY_PLACES as nat));
        r.push(part);
        i += 1;
    }
    assert(views(r@) =~= Seq::new(v@.len(), |i: int| fixed_text(v@[i], ARRAY_PLACES as nat)));
    r
}

impl IncarTag {
    /// The text of the value.
    fn value_chars(&self) -> (r: Vec<char>)
        ensures
            r@ == self@.value_text(),
    {
        let space: Vec<char> = vec![' '];
        assert(space@ =~= seq![' ']);
        match self {
            IncarTag::Boolean(_, val) => {
                if *val {
                    chars_of(".TRUE.")
                } else {
                    chars_of(".FALSE.")
                }
            },
            IncarTag::Integer(_, val) => {
                let mut out: Vec<char> = Vec::new();
                push_int(&mut out, *val);
                assert(out@ =~= int_text(*val as int));
                out
            },
            IncarTag::Real(_, val) => {
                let mut out: Vec<char> = Vec::new();
                val.push_text(&mut out);
                assert(out@ =~= val.text());
                out
            },
            IncarTag::String(_, val) => chars_of(val.as_str()),
            IncarTag::IntegerArray(name, val) => {
                let n = chars_of(name.as_str());
                join(&integer_assignments(n.as_slice(), val), space.as_slice())
            },
            IncarTag::RealArray(_, val) => join(&real_texts(val), space.as_slice()),
        }
    }

    /// The characters of the line that writes the tag.
    pub fn to_chars(&self) -> (r: Vec<char>)
        ensures
            r@ == self@.text(),
    {
        let name = chars_of(self.name());
        let value = self.value_chars();
        let mut out: Vec<char> = Vec::new();
        push_assignment(&mut out, name.as_slice(), value.as_slice());
        assert(out@ =~= self@.text());
        out
    }

    /// The line that writes the tag.
    pub fn to_string(&self) -> (s: String)
        ensures
            s@ == self@.text(),
    {
        string_from_chars(self.to_chars().as_slice())
    }
}

} // verus!
