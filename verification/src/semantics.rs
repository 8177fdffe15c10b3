use crate::just_string::spec_coerce;
use crate::regex_tree::{spec_captures, spec_captures_list, spec_child_of, spec_names, RegexTree};
use crate::value::{Request, SpecErr, SpecValue};
use vstd::prelude::*;

verus! {

/// The characters a capture with byte offsets `[s, e)` selects out of the
/// window of text the pattern was run on.
pub open spec fn sub_window(window: Seq<char>, s: int, e: int) -> Seq<char> {
    vstd::utf8::decode_utf8(vstd::utf8::encode_utf8(window).subrange(s, e))
}

pub open spec fn min2(a: int, b: int) -> int {
    if a <= b {
        a
    } else {
        b
    }
}

/// The request registered for field `name`, if the caller named it; an
/// emitted group the caller did not name is kept as plain text.
pub open spec fn spec_field_request(fields: Seq<(String, Request)>, name: Seq<char>) -> Request
    decreases fields,
{
    if fields.len() == 0 {
        Request::Text
    } else if fields[0].0@ == name {
        fields[0].1
    } else {
        spec_field_request(fields.drop_first(), name)
    }
}

/// When the first `i` fields all miss `name`, the field request is decided
/// by what stands at and after position `i`.
pub proof fn lemma_spec_field_request_prefix(fields: Seq<(String, Request)>, name: Seq<char>, i: int)
    requires
        0 <= i <= fields.len(),
        forall|j: int| 0 <= j < i ==> (#[trigger] fields[j]).0@ != name,
    ensures
        i < fields.len() && fields[i].0@ == name ==> spec_field_request(fields, name) == fields[i].1,
        i == fields.len() ==> spec_field_request(fields, name) == Request::Text,
    decreases i,
{
    if i > 0 {
        let rest = fields.drop_first();
        assert forall|j: int| 0 <= j < i - 1 implies (#[trigger] rest[j]).0@ != name by {
            assert(rest[j] == fields[j + 1]);
        }
        lemma_spec_field_request_prefix(rest, name, i - 1);
        if i < fields.len() {
            assert(rest[i - 1] == fields[i]);
        }
    }
}

/// The value one emitted capture produces: recurse into the child tree
/// registered under the group's name, or fall through to scalar coercion.
pub open spec fn spec_entry_value(
    t: RegexTree,
    window: Seq<char>,
    base: int,
    name: Option<Seq<char>>,
    s: int,
    e: int,
    req: Request,
) -> Result<SpecValue, SpecErr>
    decreases t, 0int, 0int, req,
    via spec_entry_value_decreases
{
    let sub = sub_window(window, s, e);
    if name is Some && spec_child_of(t.children@, name->0) is Some {
        spec_dispatch(spec_child_of(t.children@, name->0)->0, sub, base + s, req)
    } else {
        spec_coerce(sub, base + s, req)
    }
}

#[via_fn]
proof fn spec_entry_value_decreases(
    t: RegexTree,
    window: Seq<char>,
    base: int,
    name: Option<Seq<char>>,
    s: int,
    e: int,
    req: Request,
) {
    if name is Some && spec_child_of(t.children@, name->0) is Some {
        crate::regex_tree::lemma_spec_child_of_index(t.children@, name->0);
        let i = choose|i: int|
            0 <= i < t.children@.len() && #[trigger] t.children@[i].1 == spec_child_of(
                t.children@,
                name->0,
            )->0;
        assert(decreases_to!(t => t.children@[i].1));
    }
}

/// The model of the shape dispatcher: what extraction returns for the tree
/// `t` run over the text `window` (which begins at byte offset `base` of
/// the original text) under the request `req`.
///
/// A `Record` or `Span` request runs the pattern once and fails with
/// `NoMatch` when it does not match; a `List` request walks every
/// non-overlapping match; an `Optional` request turns a failed match into
/// an absent value instead of an error; a `Unit` request ignores tree and
/// text; a scalar request coerces the whole window without matching.
pub open spec fn spec_dispatch(
    t: RegexTree,
    window: Seq<char>,
    base: int,
    req: Request,
) -> Result<SpecValue, SpecErr>
    decreases t, 4int, 0int, req,
{
    match req {
        Request::Record(_) | Request::Span(_) => match spec_captures(t.pattern@, window) {
            Option::None => Err(SpecErr::NoMatch),
            Option::Some(caps) => spec_single(t, window, base, caps, req),
        },
        Request::List(elem) => match spec_match_list(
            t,
            window,
            base,
            spec_captures_list(t.pattern@, window),
            0,
            *elem,
        ) {
            Ok(vs) => Ok(SpecValue::List(vs)),
            Err(e) => Err(e),
        },
        Request::Optional(inner) => match spec_captures(t.pattern@, window) {
            Option::None => Ok(SpecValue::Absent),
            Option::Some(caps) => match spec_single(t, window, base, caps, *inner) {
                Ok(v) => Ok(SpecValue::Present(Box::new(v))),
                Err(e) => Err(e),
            },
        },
        Request::Unit => Ok(SpecValue::Unit),
        _ => spec_coerce(window, base, req),
    }
}

/// The model of the multi-match walk: one value per match, in engine
/// order, each produced by the single-match walker; the first failure
/// aborts the whole extraction.
pub open spec fn spec_match_list(
    t: RegexTree,
    window: Seq<char>,
    base: int,
    list: Seq<Seq<Option<(usize, usize)>>>,
    i: int,
    elem: Request,
) -> Result<Seq<SpecValue>, SpecErr>
    decreases t, 3int, list.len() - i, elem,
{
    if i < 0 || i >= list.len() {
        Ok(Seq::empty())
    } else {
        match spec_single(t, window, base, list[i], elem) {
            Ok(v) => match spec_match_list(t, window, base, list, i + 1, elem) {
                Ok(vs) => Ok(seq![v] + vs),
                Err(e) => Err(e),
            },
            Err(e) => Err(e),
        }
    }
}

/// The model of the single-match walker: what one successful match of
/// `t`'s pattern produces under `req`.  `caps` are the match's capture
/// group offsets, relative to `window`.
pub open spec fn spec_single(
    t: RegexTree,
    window: Seq<char>,
    base: int,
    caps: Seq<Option<(usize, usize)>>,
    req: Request,
) -> Result<SpecValue, SpecErr>
    decreases t, 2int, 0int, req,
{
    match req {
        Request::Record(fields) => match spec_map_entries(
            t,
            window,
            base,
            caps,
            spec_names(t.pattern@),
            fields@,
            0,
        ) {
            Ok(es) => Ok(SpecValue::Record(es)),
            Err(e) => Err(e),
        },
        Request::List(elem) => match spec_seq_items(
            t,
            window,
            base,
            caps,
            spec_names(t.pattern@),
            *elem,
            1,
        ) {
            Ok(vs) => Ok(SpecValue::List(vs)),
            Err(e) => Err(e),
        },
        Request::Optional(inner) => match spec_single(t, window, base, caps, *inner) {
            Ok(v) => Ok(SpecValue::Present(Box::new(v))),
            Err(e) => Err(e),
        },
        Request::Unit => Ok(SpecValue::Unit),
        Request::Span(inner) => {
            let (s, e) = caps[0]->0;
            match spec_single(t, window, base, caps, *inner) {
                Ok(v) => Ok(SpecValue::Span(base + s, base + e, Box::new(v))),
                Err(er) => Err(er),
            }
        },
        _ => {
            let (s, e) = caps[0]->0;
            spec_coerce(sub_window(window, s as int, e as int), base + s, req)
        },
    }
}

/// The model of key/value emission: for each capture group from `idx` on,
/// in group order, a named, participating group emits one record entry;
/// group 0 and groups that did not participate are skipped.
pub open spec fn spec_map_entries(
    t: RegexTree,
    window: Seq<char>,
    base: int,
    caps: Seq<Option<(usize, usize)>>,
    names: Seq<Option<Seq<char>>>,
    fields: Seq<(String, Request)>,
    idx: int,
) -> Result<Seq<(Seq<char>, SpecValue)>, SpecErr>
    decreases t, 1int, min2(names.len() as int, caps.len() as int) - idx, Request::Unit,
{
    if idx < 0 || idx >= min2(names.len() as int, caps.len() as int) {
        Ok(Seq::empty())
    } else if names[idx] is Some && caps[idx] is Some {
        let name = names[idx]->0;
        let (s, e) = caps[idx]->0;
        match spec_entry_value(t, window, base, Some(name), s as int, e as int, spec_field_request(fields, name)) {
            Ok(v) => match spec_map_entries(t, window, base, caps, names, fields, idx + 1) {
                Ok(es) => Ok(seq![(name, v)] + es),
                Err(er) => Err(er),
            },
            Err(er) => Err(er),
        }
    } else {
        spec_map_entries(t, window, base, caps, names, fields, idx + 1)
    }
}

/// The model of positional emission: for each capture group from `idx`
/// on, in group order, a participating group emits one element; group 0
/// is skipped, and a named group still recurses into its child tree.
pub open spec fn spec_seq_items(
    t: RegexTree,
    window: Seq<char>,
    base: int,
    caps: Seq<Option<(usize, usize)>>,
    names: Seq<Option<Seq<char>>>,
    elem: Request,
    idx: int,
) -> Result<Seq<SpecValue>, SpecErr>
    decreases t, 1int, min2(names.len() as int, caps.len() as int) - idx, elem,
{
    if idx < 1 || idx >= min2(names.len() as int, caps.len() as int) {
        Ok(Seq::empty())
    } else if caps[idx] is Some {
        let name = names[idx];
        let (s, e) = caps[idx]->0;
        match spec_entry_value(t, window, base, name, s as int, e as int, elem) {
            Ok(v) => match spec_seq_items(t, window, base, caps, names, elem, idx + 1) {
                Ok(vs) => Ok(seq![v] + vs),
                Err(er) => Err(er),
            },
            Err(er) => Err(er),
        }
    } else {
        spec_seq_items(t, window, base, caps, names, elem, idx + 1)
    }
}

/// Validity of every span in an extracted value, relative to the window
/// of text (starting at byte offset `base` of the original) it was
/// extracted from: each `[b, e)` lies within the window, and a span
/// wrapped directly around text carries exactly the bytes the offsets
/// select.  At the top of an extraction, where `base` is 0 and the window
/// is the whole input, this is the round-trip law for spans:
/// `text[b..e]` is the raw captured substring and `b <= e <= text.len()`.
pub open spec fn spans_wf(v: SpecValue, base: int, wbytes: Seq<u8>) -> bool
    decreases v,
{
    match v {
        SpecValue::List(vs) => spans_wf_all(vs, base, wbytes),
        SpecValue::Record(es) => spans_wf_entries(es, base, wbytes),
        SpecValue::Present(inner) => spans_wf(*inner, base, wbytes),
        SpecValue::Span(b, e, val) => {
            &&& base <= b <= e <= base + wbytes.len()
            &&& match *val {
                SpecValue::Text(s) => vstd::utf8::encode_utf8(s) == wbytes.subrange(
                    b - base,
                    e - base,
                ),
                _ => true,
            }
            &&& spans_wf(*val, base, wbytes)
        },
        _ => true,
    }
}

pub open spec fn spans_wf_all(vs: Seq<SpecValue>, base: int, wbytes: Seq<u8>) -> bool
    decreases vs,
{
    vs.len() == 0 || (spans_wf(vs[0], base, wbytes) && spans_wf_all(vs.drop_first(), base, wbytes))
}

pub open spec fn spans_wf_entries(es: Seq<(Seq<char>, SpecValue)>, base: int, wbytes: Seq<u8>) -> bool
    decreases es,
{
    es.len() == 0 || (spans_wf(es[0].1, base, wbytes) && spans_wf_entries(
        es.drop_first(),
        base,
        wbytes,
    ))
}

pub proof fn lemma_spans_wf_all_push(vs: Seq<SpecValue>, v: SpecValue, base: int, wbytes: Seq<u8>)
    requires
        spans_wf_all(vs, base, wbytes),
        spans_wf(v, base, wbytes),
    ensures
        spans_wf_all(vs.push(v), base, wbytes),
    decreases vs.len(),
{
    reveal_with_fuel(spans_wf_all, 2);
    if vs.len() == 0 {
        assert(vs.push(v)[0] == v);
        assert(vs.push(v).drop_first() =~= Seq::empty());
    } else {
        lemma_spans_wf_all_push(vs.drop_first(), v, base, wbytes);
        assert(vs.push(v)[0] == vs[0]);
        assert(vs.push(v).drop_first() =~= vs.drop_first().push(v));
    }
}

pub proof fn lemma_spans_wf_entries_push(
    es: Seq<(Seq<char>, SpecValue)>,
    x: (Seq<char>, SpecValue),
    base: int,
    wbytes: Seq<u8>,
)
    requires
        spans_wf_entries(es, base, wbytes),
        spans_wf(x.1, base, wbytes),
    ensures
        spans_wf_entries(es.push(x), base, wbytes),
    decreases es.len(),
{
    reveal_with_fuel(spans_wf_entries, 2);
    if es.len() == 0 {
        assert(es.push(x)[0] == x);
        assert(es.push(x).drop_first() =~= Seq::empty());
    } else {
        lemma_spans_wf_entries_push(es.drop_first(), x, base, wbytes);
        assert(es.push(x)[0] == es[0]);
        assert(es.push(x).drop_first() =~= es.drop_first().push(x));
    }
}

/// The bytes a capture selects: decoding a subrange cut at character
/// boundaries and re-encoding it yields the same bytes.
pub proof fn lemma_encode_sub_window(window: Seq<char>, s: int, e: int)
    requires
        0 <= s <= e <= vstd::utf8::encode_utf8(window).len(),
        vstd::utf8::is_char_boundary(vstd::utf8::encode_utf8(window), s),
        vstd::utf8::is_char_boundary(vstd::utf8::encode_utf8(window), e),
    ensures
        vstd::utf8::encode_utf8(sub_window(window, s, e)) == vstd::utf8::encode_utf8(
            window,
        ).subrange(s, e),
{
    let w = vstd::utf8::encode_utf8(window);
    vstd::utf8::encode_utf8_valid_utf8(window);
    vstd::utf8::valid_utf8_split(w, s);
    let tail = w.subrange(s, w.len() as int);
    if e < w.len() {
        vstd::utf8::is_char_boundary_iff_not_is_continuation_byte(w, e);
        assert(tail[e - s] == w[e]);
        vstd::utf8::is_char_boundary_iff_not_is_continuation_byte(tail, e - s);
    } else {
        vstd::utf8::is_char_boundary_start_end_of_seq(tail);
    }
    vstd::utf8::valid_utf8_split(tail, e - s);
    assert(tail.subrange(0, e - s) =~= w.subrange(s, e));
    vstd::utf8::decode_utf8_encode_utf8(w.subrange(s, e));
}

/// Spans valid relative to a sub-window are valid relative to the whole
/// window: the offsets only move inward, and the bytes they select are
/// the same.
pub proof fn lemma_spans_rebase(v: SpecValue, base: int, s: int, e: int, w: Seq<u8>)
    requires
        0 <= s <= e <= w.len(),
        spans_wf(v, base + s, w.subrange(s, e)),
    ensures
        spans_wf(v, base, w),
    decreases v,
{
    match v {
        SpecValue::List(vs) => {
            lemma_spans_rebase_all(vs, base, s, e, w);
        },
        SpecValue::Record(es) => {
            lemma_spans_rebase_entries(es, base, s, e, w);
        },
        SpecValue::Present(inner) => {
            lemma_spans_rebase(*inner, base, s, e, w);
        },
        SpecValue::Span(b, e2, val) => {
            let sub = w.subrange(s, e);
            assert(match *val {
                SpecValue::Text(t) => vstd::utf8::encode_utf8(t) == w.subrange(b - base, e2 - base),
                _ => true,
            }) by {
                match *val {
                    SpecValue::Text(t) => {
                        assert(vstd::utf8::encode_utf8(t) == sub.subrange(
                            b - (base + s),
                            e2 - (base + s),
                        ));
                        assert(sub.subrange(b - (base + s), e2 - (base + s)) =~= w.subrange(
                            b - base,
                            e2 - base,
                        ));
                    },
                    _ => {},
                }
            }
            lemma_spans_rebase(*val, base, s, e, w);
        },
        _ => {},
    }
}

proof fn lemma_spans_rebase_all(vs: Seq<SpecValue>, base: int, s: int, e: int, w: Seq<u8>)
    requires
        0 <= s <= e <= w.len(),
        spans_wf_all(vs, base + s, w.subrange(s, e)),
    ensures
        spans_wf_all(vs, base, w),
    decreases vs,
{
    if vs.len() > 0 {
        lemma_spans_rebase(vs[0], base, s, e, w);
        lemma_spans_rebase_all(vs.drop_first(), base, s, e, w);
    }
}

proof fn lemma_spans_rebase_entries(
    es: Seq<(Seq<char>, SpecValue)>,
    base: int,
    s: int,
    e: int,
    w: Seq<u8>,
)
    requires
        0 <= s <= e <= w.len(),
        spans_wf_entries(es, base + s, w.subrange(s, e)),
    ensures
        spans_wf_entries(es, base, w),
    decreases es,
{
    if es.len() > 0 {
        lemma_spans_rebase(es[0].1, base, s, e, w);
        lemma_spans_rebase_entries(es.drop_first(), base, s, e, w);
    }
}

} // verus!
