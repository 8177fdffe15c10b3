use crate::spanned::Spanned;
use vstd::prelude::*;

verus! {

/// The shape a caller requests for one level of extraction: the
/// output-request protocol made explicit.
///
/// The same regex tree can produce a list of records or a single record;
/// the ambiguity is resolved by the consumer through this request, not by
/// the tree.
#[derive(Debug, PartialEq)]
pub enum Request {
    /// A boolean, coerced from the matched substring.
    Bool,
    /// A single character; fails unless the substring is exactly one char.
    Char,
    /// A signed 64-bit integer, parsed from decimal text.
    Int,
    /// An unsigned 64-bit integer, parsed from decimal text.
    UInt,
    /// The matched substring, verbatim.
    Text,
    /// The matched substring's raw bytes.
    Bytes,
    /// Structural presence only; always succeeds and carries no data.
    Unit,
    /// One element per non-overlapping match (or per positional capture).
    List(Box<Request>),
    /// Named fields assembled from one match's named capture groups.  Each
    /// entry gives a field name and the shape requested for that field;
    /// emitted groups the caller did not name are kept as plain text.
    Record(Vec<(String, Request)>),
    /// Match-or-none: absent when the pattern does not match.
    Optional(Box<Request>),
    /// The inner shape together with its byte span in the original text.
    Span(Box<Request>),
}

/// An extracted value: the result of running a regex tree over a text under
/// a [`Request`].
#[derive(Debug, PartialEq)]
pub enum Value {
    Bool(bool),
    Char(char),
    Int(i64),
    UInt(u64),
    Text(String),
    Bytes(Vec<u8>),
    Unit,
    List(Vec<Value>),
    Record(Vec<(String, Value)>),
    Absent,
    Present(Box<Value>),
    Span(Spanned<Box<Value>>),
}

/// The mathematical model of a [`Value`].
pub enum SpecValue {
    Bool(bool),
    Char(char),
    Int(i64),
    UInt(u64),
    Text(Seq<char>),
    Bytes(Seq<u8>),
    Unit,
    List(Seq<SpecValue>),
    Record(Seq<(Seq<char>, SpecValue)>),
    Absent,
    Present(Box<SpecValue>),
    Span(int, int, Box<SpecValue>),
}

/// The model of one [`Value`].
pub open spec fn spec_value_of(v: Value) -> SpecValue
    decreases v,
{
    match v {
        Value::Bool(b) => SpecValue::Bool(b),
        Value::Char(c) => SpecValue::Char(c),
        Value::Int(n) => SpecValue::Int(n),
        Value::UInt(n) => SpecValue::UInt(n),
        Value::Text(s) => SpecValue::Text(s@),
        Value::Bytes(b) => SpecValue::Bytes(b@),
        Value::Unit => SpecValue::Unit,
        Value::List(vs) => SpecValue::List(spec_values_of(vs@)),
        Value::Record(fs) => SpecValue::Record(spec_entries_of(fs@)),
        Value::Absent => SpecValue::Absent,
        Value::Present(inner) => SpecValue::Present(Box::new(spec_value_of(*inner))),
        Value::Span(s) => SpecValue::Span(
            s.begin as int,
            s.end as int,
            Box::new(spec_value_of(*s.value)),
        ),
    }
}

/// The models of a sequence of [`Value`]s, elementwise.
pub open spec fn spec_values_of(vs: Seq<Value>) -> Seq<SpecValue>
    decreases vs,
{
    if vs.len() == 0 {
        Seq::empty()
    } else {
        seq![spec_value_of(vs[0])] + spec_values_of(vs.drop_first())
    }
}

/// The models of a sequence of named [`Value`]s, elementwise.
pub open spec fn spec_entries_of(fs: Seq<(String, Value)>) -> Seq<(Seq<char>, SpecValue)>
    decreases fs,
{
    if fs.len() == 0 {
        Seq::empty()
    } else {
        seq![(fs[0].0@, spec_value_of(fs[0].1))] + spec_entries_of(fs.drop_first())
    }
}

pub broadcast proof fn lemma_spec_values_of(vs: Seq<Value>)
    ensures
        (#[trigger] spec_values_of(vs)).len() == vs.len(),
        forall|i: int| 0 <= i < vs.len() ==> spec_values_of(vs)[i] == spec_value_of(#[trigger] vs[i]),
    decreases vs.len(),
{
    if vs.len() != 0 {
        lemma_spec_values_of(vs.drop_first());
        assert forall|i: int| 0 <= i < vs.len() implies spec_values_of(vs)[i] == spec_value_of(
            vs[i],
        ) by {
            if i > 0 {
                assert(vs.drop_first()[i - 1] == vs[i]);
                assert(spec_values_of(vs)[i] == spec_values_of(vs.drop_first())[i - 1]);
            }
        }
    }
}

pub broadcast proof fn lemma_spec_entries_of(fs: Seq<(String, Value)>)
    ensures
        (#[trigger] spec_entries_of(fs)).len() == fs.len(),
        forall|i: int|
            0 <= i < fs.len() ==> spec_entries_of(fs)[i] == (
            (#[trigger] fs[i]).0@,
            spec_value_of(fs[i].1),
            ),
    decreases fs.len(),
{
    if fs.len() != 0 {
        lemma_spec_entries_of(fs.drop_first());
        assert forall|i: int|
            0 <= i < fs.len() implies spec_entries_of(fs)[i] == (
        fs[i].0@,
        spec_value_of(fs[i].1),
        ) by {
            if i > 0 {
                assert(fs.drop_first()[i - 1] == fs[i]);
                assert(spec_entries_of(fs)[i] == spec_entries_of(fs.drop_first())[i - 1]);
            }
        }
    }
}

impl View for Value {
    type V = SpecValue;

    open spec fn view(&self) -> SpecValue {
        spec_value_of(*self)
    }
}

pub proof fn lemma_spec_values_of_push(vs: Seq<Value>, v: Value)
    ensures
        spec_values_of(vs.push(v)) == spec_values_of(vs).push(spec_value_of(v)),
{
    lemma_spec_values_of(vs);
    lemma_spec_values_of(vs.push(v));
    assert forall|i: int|
        0 <= i < vs.len() + 1 implies spec_values_of(vs.push(v))[i] == spec_values_of(vs).push(
        spec_value_of(v),
    )[i] by {
        if i < vs.len() {
            assert(vs.push(v)[i] == vs[i]);
        } else {
            assert(vs.push(v)[i] == v);
        }
    }
    assert(spec_values_of(vs.push(v)) =~= spec_values_of(vs).push(spec_value_of(v)));
}

pub proof fn lemma_spec_entries_of_push(fs: Seq<(String, Value)>, k: String, v: Value)
    ensures
        spec_entries_of(fs.push((k, v))) == spec_entries_of(fs).push((k@, spec_value_of(v))),
{
    lemma_spec_entries_of(fs);
    lemma_spec_entries_of(fs.push((k, v)));
    assert forall|i: int|
        0 <= i < fs.len() + 1 implies spec_entries_of(fs.push((k, v)))[i] == spec_entries_of(
        fs,
    ).push((k@, spec_value_of(v)))[i] by {
        if i < fs.len() {
            assert(fs.push((k, v))[i] == fs[i]);
        } else {
            assert(fs.push((k, v))[i] == (k, v));
        }
    }
    assert(spec_entries_of(fs.push((k, v))) =~= spec_entries_of(fs).push((k@, spec_value_of(v))));
}

/// What can go wrong while building a tree or extracting from a text.
#[derive(Debug, PartialEq)]
pub enum Error {
    /// The regex engine rejected a pattern at tree-construction time; carries
    /// the engine's own message.
    Pattern { message: String },
    /// The pattern required by the request did not match the given text.
    NoMatch,
    /// A matched substring could not be coerced to the requested scalar
    /// type; carries the offending substring and what was expected of it.
    Parse { text: String, expected: String },
    /// The request violates the extraction protocol (a structured shape was
    /// requested where only a scalar can stand): a broken caller, not bad
    /// input data.
    Protocol,
}

/// The mathematical model of an [`Error`]: the `Parse` case keeps the
/// offending substring; engine-supplied messages are not modelled.
pub enum SpecErr {
    Pattern,
    NoMatch,
    Parse(Seq<char>),
    Protocol,
}

impl View for Error {
    type V = SpecErr;

    open spec fn view(&self) -> SpecErr {
        match self {
            Error::Pattern { .. } => SpecErr::Pattern,
            Error::NoMatch => SpecErr::NoMatch,
            Error::Parse { text, .. } => SpecErr::Parse(text@),
            Error::Protocol => SpecErr::Protocol,
        }
    }
}

/// Relates an executable extraction result to its model: same success or
/// failure, and the payloads agree up to view.
pub open spec fn res_matches(r: Result<Value, Error>, s: Result<SpecValue, SpecErr>) -> bool {
    match r {
        Ok(v) => s is Ok && v@ == s->Ok_0,
        Err(e) => s is Err && e@ == s->Err_0,
    }
}

} // verus!
