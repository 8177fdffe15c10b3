use crate::just_string::JustStrDeserializer;
use crate::multi_capture::MultiCaptureSeqAccess;
use crate::regex_tree::{spec_captures_list, RegexTree};
use crate::semantics::spec_dispatch;
use crate::single_capture::SingleCaptureDeserializer;
use crate::value::{res_matches, Error, Request, SpecValue, Value};
use vstd::prelude::*;
use vstd::string::StringSliceAdditionalSpecFns;

verus! {

/// The characters of `s` between byte offsets `lo` and `hi`, as an owned
/// string.  Both offsets must lie on character boundaries.
pub(crate) fn slice_by_bytes(s: &str, lo: usize, hi: usize) -> (r: String)
    requires
        lo <= hi <= s.spec_bytes().len(),
        vstd::utf8::is_char_boundary(s.spec_bytes(), lo as int),
        vstd::utf8::is_char_boundary(s.spec_bytes(), hi as int),
    ensures
        vstd::utf8::encode_utf8(r@) == s.spec_bytes().subrange(lo as int, hi as int),
        r@ == vstd::utf8::decode_utf8(s.spec_bytes().subrange(lo as int, hi as int)),
{
    proof {
        vstd::utf8::encode_utf8_valid_utf8(s@);
        vstd::utf8::valid_utf8_split(s.spec_bytes(), lo as int);
    }
    let (_, tail) = s.split_at(lo);
    proof {
        let sb = s.spec_bytes();
        let tb = tail.spec_bytes();
        assert(tb =~= sb.subrange(lo as int, sb.len() as int));
        if hi < sb.len() {
            vstd::utf8::is_char_boundary_iff_not_is_continuation_byte(sb, hi as int);
            assert(tb[hi - lo] == sb[hi as int]);
            vstd::utf8::is_char_boundary_iff_not_is_continuation_byte(tb, hi - lo);
        } else {
            vstd::utf8::is_char_boundary_start_end_of_seq(tb);
        }
    }
    let (mid, _) = tail.split_at(hi - lo);
    proof {
        assert(mid.spec_bytes() =~= s.spec_bytes().subrange(lo as int, hi as int));
        vstd::utf8::encode_utf8_decode_utf8(mid@);
    }
    mid.to_owned()
}

/// The round-trip law for span-wrapped scalars: when the caller asks for
/// the text of a match together with its span, the reported `[begin, end)`
/// offsets select, out of the text the pattern ran on, exactly the
/// characters of the reported value — `text[begin..end]` is the raw
/// captured substring, and `begin <= end <= text.len()` (offsets taken
/// relative to `start`, the position of this text in the original).
pub open spec fn span_scalar_round_trip(
    req: Request,
    r: Result<Value, Error>,
    start: int,
    tbytes: Seq<u8>,
) -> bool {
    match (req, r) {
        (Request::Span(inner), Ok(v)) => (*inner == Request::Text) ==> (match v@ {
            SpecValue::Span(b, e, val) => {
                &&& start <= b <= e <= start + tbytes.len()
                &&& match *val {
                    SpecValue::Text(s) => vstd::utf8::encode_utf8(s) == tbytes.subrange(
                        b - start,
                        e - start,
                    ),
                    _ => false,
                }
            },
            _ => false,
        }),
        _ => true,
    }
}

/// The shape dispatcher: runs a regex tree over a text under the shape the
/// caller requests.  This is where extraction of any piece of text begins,
/// whether it is the original input or a captured substring handed down by
/// a recursion step.
pub struct StrDeserializer<'r, 't> {
    pub regex_tree: &'r RegexTree,
    pub text: &'t str,
    /// Byte offset of the start of `text` within the original outermost
    /// text.
    pub start: usize,
}

impl<'r, 't> StrDeserializer<'r, 't> {
    pub open spec fn wf(self) -> bool {
        &&& self.regex_tree.wf()
        &&& self.start + self.text.spec_bytes().len() <= usize::MAX
    }

    pub fn from_regex_tree_and_str(regex_tree: &'r RegexTree, text: &'t str) -> (r: Self)
        ensures
            r.regex_tree == regex_tree,
            r.text == text,
            r.start == 0,
    {
        Self { regex_tree, text, start: 0 }
    }

    pub(crate) fn from_regex_tree_and_offset_str(
        regex_tree: &'r RegexTree,
        text: &'t str,
        start: usize,
    ) -> (r: Self)
        ensures
            r.regex_tree == regex_tree,
            r.text == text,
            r.start == start,
    {
        Self { regex_tree, text, start }
    }

    /// Produce a value of the requested shape from this text, or fail.
    ///
    /// A `Record` or `Span` request runs the pattern once (`NoMatch` when
    /// it does not match); a `List` request walks every non-overlapping
    /// match; an `Optional` request yields an absent value instead of
    /// `NoMatch`; a `Unit` request succeeds without looking; a scalar
    /// request coerces the whole text without matching at all.
    pub fn deserialize(self, req: &Request) -> (r: Result<Value, Error>)
        requires
            self.wf(),
        ensures
            res_matches(
                r,
                spec_dispatch(*self.regex_tree, self.text@, self.start as int, *req),
            ),
            span_scalar_round_trip(*req, r, self.start as int, self.text.spec_bytes()),
            r matches Ok(v) ==> crate::semantics::spans_wf(
                v@,
                self.start as int,
                self.text.spec_bytes(),
            ),
        decreases *self.regex_tree, 4int, 0int, *req,
    {
        match req {
            Request::Record(_) | Request::Span(_) => {
                match self.regex_tree.captures(self.text) {
                    Option::None => Err(Error::NoMatch),
                    Option::Some(caps) => {
                        let des = SingleCaptureDeserializer::from_regex_tree_and_single_capture(
                            self.regex_tree,
                            &caps,
                            self.text,
                            self.start,
                        );
                        let r = des.deserialize(req);
                        proof {
                            if req matches Request::Span(inner) && **inner == Request::Text
                                && r is Ok {
                                let tb = self.text.spec_bytes();
                                let (s0, e0) = caps@[0]->0;
                                vstd::utf8::encode_utf8_valid_utf8(self.text@);
                                vstd::utf8::valid_utf8_split(tb, s0 as int);
                                let tail = tb.subrange(s0 as int, tb.len() as int);
                                if e0 < tb.len() {
                                    vstd::utf8::is_char_boundary_iff_not_is_continuation_byte(
                                        tb,
                                        e0 as int,
                                    );
                                    assert(tail[e0 - s0] == tb[e0 as int]);
                                    vstd::utf8::is_char_boundary_iff_not_is_continuation_byte(
                                        tail,
                                        e0 - s0,
                                    );
                                } else {
                                    vstd::utf8::is_char_boundary_start_end_of_seq(tail);
                                }
                                vstd::utf8::valid_utf8_split(tail, e0 - s0);
                                assert(tail.subrange(0, e0 - s0) =~= tb.subrange(
                                    s0 as int,
                                    e0 as int,
                                ));
                                vstd::utf8::decode_utf8_encode_utf8(
                                    tb.subrange(s0 as int, e0 as int),
                                );
                            }
                        }
                        r
                    },
                }
            },
            Request::List(elem) => {
                let list = self.regex_tree.captures_iter(self.text);
                let access = MultiCaptureSeqAccess::from_regex_tree_and_captures(
                    self.regex_tree,
                    list,
                    self.text,
                    self.start,
                );
                proof {
                    let slist = Seq::new(
                        access.list@.len(),
                        |i: int| access.list@[i]@,
                    );
                    assert(slist =~= spec_captures_list(self.regex_tree.pattern@, self.text@));
                }
                match access.collect(elem) {
                    Ok(vs) => Ok(Value::List(vs)),
                    Err(e) => Err(e),
                }
            },
            Request::Optional(inner) => {
                match self.regex_tree.captures(self.text) {
                    Option::None => Ok(Value::Absent),
                    Option::Some(caps) => {
                        let des = SingleCaptureDeserializer::from_regex_tree_and_single_capture(
                            self.regex_tree,
                            &caps,
                            self.text,
                            self.start,
                        );
                        match des.deserialize(inner) {
                            Ok(v) => Ok(Value::Present(Box::new(v))),
                            Err(e) => Err(e),
                        }
                    },
                }
            },
            Request::Unit => Ok(Value::Unit),
            _ => JustStrDeserializer::new(self.text, self.start).deserialize(req),
        }
    }
}

} // verus!
