//! Extraction of structured, typed data from unstructured text, driven by a
//! recursive tree of regular expressions.
//!
//! Each tree node holds a compiled pattern together with a mapping from
//! capture-group name to a child tree.  When a node's pattern matches a piece
//! of text, every named capture group either recurses into the child tree of
//! the same name (run against the captured substring) or terminates in the
//! scalar coercion layer, which turns the captured substring into a requested
//! primitive value.  The shape of the output — a single record, a list, a
//! scalar, an optional value, or a value wrapped with its byte span — is
//! chosen by the caller through an explicit [`Request`](value::Request), and
//! the result is returned as a [`Value`](value::Value).
//!
//! Byte offsets reported in [`Spanned`](spanned::Spanned) values are always
//! relative to the original, outermost text.

pub mod just_string;
pub mod multi_capture;
pub mod regex_tree;
pub mod semantics;
pub mod single_capture;
pub mod spanned;
pub mod string;
pub mod uncaptured;
pub mod value;

pub use crate::regex_tree::RegexTree;
pub use crate::spanned::Spanned;
pub use crate::string::StrDeserializer;

use crate::semantics::spec_dispatch;
use crate::value::{res_matches, Error, Request, Value};
use vstd::prelude::*;
use vstd::string::StringSliceAdditionalSpecFns;

verus! {

/// Primary entry point to the library: runs the regex tree over the text
/// and assembles a value of the requested shape.
///
/// The contract pins the result down to [`spec_dispatch`], the model of
/// extraction.  It also carries the round-trip law for spans: every span
/// in the result lies within the text and, wrapped directly around text,
/// selects exactly the characters of the reported value (see
/// [`semantics::spans_wf`] and [`string::span_scalar_round_trip`]).
/// Extraction is a pure function of the tree, the text and the request:
/// see [`lemma_extraction_deterministic`].
pub fn from_regex_tree_and_str(regex_tree: &RegexTree, text: &str, request: &Request) -> (r:
    Result<Value, Error>)
    requires
        regex_tree.wf(),
    ensures
        res_matches(r, spec_dispatch(*regex_tree, text@, 0, *request)),
        crate::string::span_scalar_round_trip(*request, r, 0, text.spec_bytes()),
        r matches Ok(v) ==> crate::semantics::spans_wf(v@, 0, text.spec_bytes()),
{
    let bytes = text.as_bytes();
    proof {
        broadcast use vstd::slice::group_slice_axioms;

        assert(bytes@.len() == vstd::slice::spec_slice_len(bytes));
    }
    StrDeserializer::from_regex_tree_and_str(regex_tree, text).deserialize(request)
}

/// Secondary entry point: the substrings of `text` that the whole matches
/// of the tree's top-level pattern leave unclaimed, in order.
pub fn get_uncaptured(regex_tree: &RegexTree, text: &str) -> (r: Vec<String>)
    requires
        regex_tree.wf(),
    ensures
        ({
            let list = crate::regex_tree::spec_captures_list(regex_tree.pattern@, text@);
            let ranges = Seq::new(list.len(), |i: int| list[i][0]->0);
            let gaps = crate::uncaptured::spec_gaps(ranges, text.spec_bytes().len() as usize);
            &&& r@.len() == gaps.len()
            &&& forall|j: int|
                0 <= j < gaps.len() ==> (#[trigger] r@[j])@ == vstd::utf8::decode_utf8(
                    text.spec_bytes().subrange(gaps[j].0 as int, gaps[j].1 as int),
                )
        }),
{
    let bytes = text.as_bytes();
    proof {
        broadcast use vstd::slice::group_slice_axioms;

        assert(bytes@.len() == vstd::slice::spec_slice_len(bytes));
    }
    let ghost slist = crate::regex_tree::spec_captures_list(regex_tree.pattern@, text@);
    let list = regex_tree.captures_iter(text);
    let mut ranges: Vec<(usize, usize)> = Vec::new();
    let n = list.len();
    let mut i: usize = 0;
    while i < n
        invariant
            0 <= i <= n,
            n == list@.len(),
            n == slist.len(),
            forall|k: int| 0 <= k < n ==> (#[trigger] list@[k])@ == slist[k],
            forall|k: int|
                0 <= k < n ==> crate::regex_tree::caps_wf(
                    (#[trigger] list@[k])@,
                    text.spec_bytes(),
                ),
            ranges@ =~= Seq::new(i as nat, |k: int| slist[k][0]->0),
            crate::uncaptured::ranges_wf(ranges@, text.spec_bytes()),
        decreases n - i,
    {
        let caps = &list[i];
        ranges.push(caps[0].unwrap());
        i += 1;
    }
    proof {
        assert(ranges@ =~= Seq::new(slist.len(), |k: int| slist[k][0]->0));
    }
    crate::uncaptured::gap_strings(text, &ranges)
}

/// Match-or-fail: when the root pattern does not match the text, a
/// `Record` or `Span` request fails with `NoMatch`, while an `Optional`
/// request yields an absent value and no error at all.
pub proof fn lemma_no_match(t: RegexTree, text: Seq<char>, base: int, req: Request)
    requires
        crate::regex_tree::spec_captures(t.pattern@, text) is None,
    ensures
        req is Record || req is Span ==> spec_dispatch(t, text, base, req) == Err::<
            crate::value::SpecValue,
            _,
        >(crate::value::SpecErr::NoMatch),
        req is Optional ==> spec_dispatch(t, text, base, req) == Ok::<_, crate::value::SpecErr>(
            crate::value::SpecValue::Absent,
        ),
{
}

/// Idempotence of extraction: the result is a pure function of the tree,
/// the text and the request, so running the same extraction twice yields
/// equal results — the tree holds no hidden mutable state.
pub proof fn lemma_extraction_deterministic(
    r1: Result<Value, Error>,
    r2: Result<Value, Error>,
    t: RegexTree,
    text: Seq<char>,
    req: Request,
)
    requires
        res_matches(r1, spec_dispatch(t, text, 0, req)),
        res_matches(r2, spec_dispatch(t, text, 0, req)),
    ensures
        match (r1, r2) {
            (Ok(a), Ok(b)) => a@ == b@,
            (Err(a), Err(b)) => a@ == b@,
            _ => false,
        },
{
}

} // verus!
