use crate::just_string::JustStrDeserializer;
use crate::regex_tree::{
    caps_wf, lemma_spec_child_of_index, lemma_spec_child_of_wf, spec_names, RegexTree,
};
use crate::semantics::{
    lemma_spec_field_request_prefix, spec_entry_value, spec_field_request, spec_map_entries,
    spec_seq_items, spec_single,
};
use crate::spanned::Spanned;
use crate::string::{slice_by_bytes, StrDeserializer};
use crate::value::{
    lemma_spec_entries_of_push, lemma_spec_values_of_push, res_matches, spec_entries_of,
    spec_values_of, Error, Request, SpecErr, SpecValue, Value,
};
use vstd::prelude::*;
use vstd::string::StringSliceAdditionalSpecFns;

verus! {

/// Finds the request the caller registered for the field `name`.
fn find_field<'a>(fields: &'a Vec<(String, Request)>, name: &str) -> (r: Option<&'a Request>)
    ensures
        match r {
            Some(q) => spec_field_request(fields@, name@) == *q,
            None => spec_field_request(fields@, name@) == Request::Text,
        },
{
    let n = fields.len();
    let mut i: usize = 0;
    while i < n
        invariant
            0 <= i <= n,
            n == fields@.len(),
            forall|j: int| 0 <= j < i ==> (#[trigger] fields@[j]).0@ != name@,
        decreases n - i,
    {
        if crate::regex_tree::str_eq(fields[i].0.as_str(), name) {
            proof {
                lemma_spec_field_request_prefix(fields@, name@, i as int);
            }
            return Some(&fields[i].1);
        }
        i += 1;
    }
    proof {
        lemma_spec_field_request_prefix(fields@, name@, n as int);
    }
    None
}

/// The single-match walker's entry point: produces a value of the
/// requested shape from one successful match of the tree's pattern.
pub struct SingleCaptureDeserializer<'r, 'c, 't> {
    pub regex_tree: &'r RegexTree,
    /// The match's capture-group offsets, relative to `text`.
    pub caps: &'c Vec<Option<(usize, usize)>>,
    pub text: &'t str,
    /// Byte offset of the start of `text` within the original outermost
    /// text.
    pub start: usize,
}

impl<'r, 'c, 't> SingleCaptureDeserializer<'r, 'c, 't> {
    pub open spec fn wf(self) -> bool {
        &&& self.regex_tree.wf()
        &&& caps_wf(self.caps@, self.text.spec_bytes())
        &&& self.caps@.len() == spec_names(self.regex_tree.pattern@).len()
        &&& self.start + self.text.spec_bytes().len() <= usize::MAX
    }

    pub fn from_regex_tree_and_single_capture(
        regex_tree: &'r RegexTree,
        caps: &'c Vec<Option<(usize, usize)>>,
        text: &'t str,
        start: usize,
    ) -> (r: Self)
        ensures
            r.regex_tree == regex_tree,
            r.caps == caps,
            r.text == text,
            r.start == start,
    {
        Self { regex_tree, caps, text, start }
    }

    /// The byte offsets of the whole match: capture group 0.
    pub fn whole_match(&self) -> (r: (usize, usize))
        requires
            self.wf(),
        ensures
            r == self.caps@[0]->0,
    {
        self.caps[0].unwrap()
    }

    /// Produce a value of the requested shape from this match.
    pub fn deserialize(&self, req: &Request) -> (r: Result<Value, Error>)
        requires
            self.wf(),
        ensures
            res_matches(
                r,
                spec_single(
                    *self.regex_tree,
                    self.text@,
                    self.start as int,
                    self.caps@,
                    *req,
                ),
            ),
            r matches Ok(v) ==> crate::semantics::spans_wf(
                v@,
                self.start as int,
                self.text.spec_bytes(),
            ),
        decreases *self.regex_tree, 2int, 0int, *req,
    {
        match req {
            Request::Record(fields) => {
                let access = SingleCaptureMapAccess::from_regex_tree_and_captures(
                    self.regex_tree,
                    self.caps,
                    self.text,
                    self.start,
                );
                match access.collect(fields) {
                    Ok(entries) => Ok(Value::Record(entries)),
                    Err(e) => Err(e),
                }
            },
            Request::List(elem) => {
                let access = SingleCaptureSeqAccess::from_regex_tree_and_captures(
                    self.regex_tree,
                    self.caps,
                    self.text,
                    self.start,
                );
                match access.collect(elem) {
                    Ok(vs) => Ok(Value::List(vs)),
                    Err(e) => Err(e),
                }
            },
            Request::Optional(inner) => match self.deserialize(inner) {
                Ok(v) => Ok(Value::Present(Box::new(v))),
                Err(e) => Err(e),
            },
            Request::Unit => Ok(Value::Unit),
            Request::Span(inner) => {
                let (s0, e0) = self.whole_match();
                match self.deserialize(inner) {
                    Ok(v) => {
                        proof {
                            crate::semantics::lemma_encode_sub_window(
                                self.text@,
                                s0 as int,
                                e0 as int,
                            );
                        }
                        Ok(
                            Value::Span(
                                Spanned::new_raw(Box::new(v), self.start + s0, self.start + e0),
                            ),
                        )
                    },
                    Err(e) => Err(e),
                }
            },
            _ => {
                let (s0, e0) = self.whole_match();
                let sub = slice_by_bytes(self.text, s0, e0);
                let r = JustStrDeserializer::new(sub.as_str(), self.start + s0).deserialize(req);
                proof {
                    if r is Ok {
                        crate::semantics::lemma_spans_rebase(
                            r->Ok_0@,
                            self.start as int,
                            s0 as int,
                            e0 as int,
                            self.text.spec_bytes(),
                        );
                    }
                }
                r
            },
        }
    }
}

/// Key/value emission over one match: each named, participating capture
/// group, in group order, becomes one record entry; the group's child
/// tree (if any) decides whether the entry recurses or is coerced.
pub struct SingleCaptureMapAccess<'r, 'c, 't> {
    pub regex_tree: &'r RegexTree,
    pub caps: &'c Vec<Option<(usize, usize)>>,
    pub names: Vec<Option<String>>,
    pub text: &'t str,
    pub start: usize,
}

impl<'r, 'c, 't> SingleCaptureMapAccess<'r, 'c, 't> {
    pub open spec fn wf(self) -> bool {
        &&& self.regex_tree.wf()
        &&& caps_wf(self.caps@, self.text.spec_bytes())
        &&& self.caps@.len() == spec_names(self.regex_tree.pattern@).len()
        &&& self.names@.len() == spec_names(self.regex_tree.pattern@).len()
        &&& forall|i: int|
            0 <= i < self.names@.len() ==> ((#[trigger] self.names@[i]) is Some <==> spec_names(
                self.regex_tree.pattern@,
            )[i] is Some)
        &&& forall|i: int|
            0 <= i < self.names@.len() && self.names@[i] is Some ==> ((#[trigger] self.names@[i])->0)@
                == spec_names(self.regex_tree.pattern@)[i]->0
        &&& self.start + self.text.spec_bytes().len() <= usize::MAX
    }

    pub fn from_regex_tree_and_captures(
        regex_tree: &'r RegexTree,
        caps: &'c Vec<Option<(usize, usize)>>,
        text: &'t str,
        start: usize,
    ) -> (r: Self)
        requires
            regex_tree.wf(),
            caps_wf(caps@, text.spec_bytes()),
            caps@.len() == spec_names(regex_tree.pattern@).len(),
            start + text.spec_bytes().len() <= usize::MAX,
        ensures
            r.wf(),
            r.regex_tree == regex_tree,
            r.caps == caps,
            r.text == text,
            r.start == start,
    {
        let names = regex_tree.names();
        Self { regex_tree, caps, names, text, start }
    }

    /// Walks the capture groups once, in order, and assembles the record
    /// entries; the first failure anywhere aborts the walk.
    #[verifier::loop_isolation(false)]
    pub fn collect(&self, fields: &Vec<(String, Request)>) -> (r: Result<
        Vec<(String, Value)>,
        Error,
    >)
        requires
            self.wf(),
        ensures
            ({
                let target = spec_map_entries(
                    *self.regex_tree,
                    self.text@,
                    self.start as int,
                    self.caps@,
                    spec_names(self.regex_tree.pattern@),
                    fields@,
                    0,
                );
                match r {
                    Ok(es) => target == Ok::<_, SpecErr>(spec_entries_of(es@))
                        && crate::semantics::spans_wf_entries(
                        spec_entries_of(es@),
                        self.start as int,
                        self.text.spec_bytes(),
                    ),
                    Err(e) => target matches Err(se) && e@ == se,
                }
            }),
        decreases *self.regex_tree, 1int, 0int, Request::Unit,
    {
        let ghost t = *self.regex_tree;
        let ghost window = self.text@;
        let ghost base = self.start as int;
        let ghost snames = spec_names(self.regex_tree.pattern@);
        let ghost target = spec_map_entries(t, window, base, self.caps@, snames, fields@, 0);
        let m: usize = if self.names.len() <= self.caps.len() {
            self.names.len()
        } else {
            self.caps.len()
        };
        let mut out: Vec<(String, Value)> = Vec::new();
        let mut idx: usize = 0;
        while idx < m
            invariant
                idx <= m,
                ({
                    let suffix = spec_map_entries(
                        t,
                        window,
                        base,
                        self.caps@,
                        snames,
                        fields@,
                        idx as int,
                    );
                    match suffix {
                        Ok(rest) => target == Ok::<_, SpecErr>(spec_entries_of(out@) + rest),
                        Err(e) => target == Err::<Seq<(Seq<char>, SpecValue)>, _>(e),
                    }
                }),
                crate::semantics::spans_wf_entries(
                    spec_entries_of(out@),
                    self.start as int,
                    self.text.spec_bytes(),
                ),
            decreases m - idx,
        {
            let cap = self.caps[idx];
            match (&self.names[idx], cap) {
                (Some(name), Some(rng)) => {
                    let (s, e) = rng;
                    let ghost sname = snames[idx as int]->0;
                    assert(sname == name@);
                    let freq_opt = find_field(fields, name.as_str());
                    let default_req = Request::Text;
                    let freq = match freq_opt {
                        Some(q) => q,
                        None => &default_req,
                    };
                    assert(*freq == spec_field_request(fields@, sname));
                    let sub = slice_by_bytes(self.text, s, e);
                    let vres = match self.regex_tree.child(name.as_str()) {
                        Some(child) => {
                            proof {
                                lemma_spec_child_of_index(self.regex_tree.children@, sname);
                                lemma_spec_child_of_wf(self.regex_tree.children@, sname);
                                let ci = choose|ci: int|
                                    0 <= ci < self.regex_tree.children@.len()
                                        && #[trigger] self.regex_tree.children@[ci].1
                                        == crate::regex_tree::spec_child_of(
                                        self.regex_tree.children@,
                                        sname,
                                    )->0;
                                assert(decreases_to!(*self.regex_tree =>
                                    self.regex_tree.children@[ci].1));
                            }
                            StrDeserializer::from_regex_tree_and_offset_str(
                                child,
                                sub.as_str(),
                                self.start + s,
                            ).deserialize(freq)
                        },
                        None => JustStrDeserializer::new(sub.as_str(), self.start + s).deserialize(
                            freq,
                        ),
                    };
                    proof {
                        assert(res_matches(
                            vres,
                            spec_entry_value(
                                t,
                                window,
                                base,
                                Some(sname),
                                s as int,
                                e as int,
                                spec_field_request(fields@, sname),
                            ),
                        ));
                    }
                    match vres {
                        Ok(v) => {
                            proof {
                                crate::semantics::lemma_spans_rebase(
                                    v@,
                                    self.start as int,
                                    s as int,
                                    e as int,
                                    self.text.spec_bytes(),
                                );
                                crate::semantics::lemma_spans_wf_entries_push(
                                    spec_entries_of(out@),
                                    (name@, v@),
                                    self.start as int,
                                    self.text.spec_bytes(),
                                );
                                lemma_spec_entries_of_push(out@, *name, v);
                                let suffix1 = spec_map_entries(
                                    t,
                                    window,
                                    base,
                                    self.caps@,
                                    snames,
                                    fields@,
                                    idx + 1,
                                );
                                if suffix1 is Ok {
                                    assert(spec_entries_of(out@) + (seq![(sname, v@)]
                                        + suffix1->Ok_0) =~= spec_entries_of(
                                        out@.push((*name, v)),
                                    ) + suffix1->Ok_0);
                                }
                            }
                            out.push((name.clone(), v));
                            idx += 1;
                        },
                        Err(e) => {
                            return Err(e);
                        },
                    }
                },
                _ => {
                    proof {
                        assert(spec_map_entries(
                            t,
                            window,
                            base,
                            self.caps@,
                            snames,
                            fields@,
                            idx as int,
                        ) == spec_map_entries(
                            t,
                            window,
                            base,
                            self.caps@,
                            snames,
                            fields@,
                            idx + 1,
                        ));
                    }
                    idx += 1;
                },
            }
        }
        proof {
            assert(spec_entries_of(out@) + Seq::<(Seq<char>, SpecValue)>::empty() =~= spec_entries_of(out@));
        }
        Ok(out)
    }
}

/// Positional emission over one match: each participating capture group
/// after group 0, in group order, becomes one element; a named group
/// still recurses into its child tree.
pub struct SingleCaptureSeqAccess<'r, 'c, 't> {
    pub regex_tree: &'r RegexTree,
    pub caps: &'c Vec<Option<(usize, usize)>>,
    pub names: Vec<Option<String>>,
    pub text: &'t str,
    pub start: usize,
}

impl<'r, 'c, 't> SingleCaptureSeqAccess<'r, 'c, 't> {
    pub open spec fn wf(self) -> bool {
        &&& self.regex_tree.wf()
        &&& caps_wf(self.caps@, self.text.spec_bytes())
        &&& self.caps@.len() == spec_names(self.regex_tree.pattern@).len()
        &&& self.names@.len() == spec_names(self.regex_tree.pattern@).len()
        &&& forall|i: int|
            0 <= i < self.names@.len() ==> ((#[trigger] self.names@[i]) is Some <==> spec_names(
                self.regex_tree.pattern@,
            )[i] is Some)
        &&& forall|i: int|
            0 <= i < self.names@.len() && self.names@[i] is Some ==> ((#[trigger] self.names@[i])->0)@
                == spec_names(self.regex_tree.pattern@)[i]->0
        &&& self.start + self.text.spec_bytes().len() <= usize::MAX
    }

    pub fn from_regex_tree_and_captures(
        regex_tree: &'r RegexTree,
        caps: &'c Vec<Option<(usize, usize)>>,
        text: &'t str,
        start: usize,
    ) -> (r: Self)
        requires
            regex_tree.wf(),
            caps_wf(caps@, text.spec_bytes()),
            caps@.len() == spec_names(regex_tree.pattern@).len(),
            start + text.spec_bytes().len() <= usize::MAX,
        ensures
            r.wf(),
            r.regex_tree == regex_tree,
            r.caps == caps,
            r.text == text,
            r.start == start,
    {
        let names = regex_tree.names();
        Self { regex_tree, caps, names, text, start }
    }

    /// Walks the capture groups once, in order, and assembles the
    /// elements; the first failure anywhere aborts the walk.
    #[verifier::loop_isolation(false)]
    pub fn collect(&self, elem: &Request) -> (r: Result<Vec<Value>, Error>)
        requires
            self.wf(),
        ensures
            ({
                let target = spec_seq_items(
                    *self.regex_tree,
                    self.text@,
                    self.start as int,
                    self.caps@,
                    spec_names(self.regex_tree.pattern@),
                    *elem,
                    1,
                );
                match r {
                    Ok(vs) => target == Ok::<_, SpecErr>(spec_values_of(vs@))
                        && crate::semantics::spans_wf_all(
                        spec_values_of(vs@),
                        self.start as int,
                        self.text.spec_bytes(),
                    ),
                    Err(e) => target matches Err(se) && e@ == se,
                }
            }),
        decreases *self.regex_tree, 1int, 0int, Request::Unit,
    {
        let ghost t = *self.regex_tree;
        let ghost window = self.text@;
        let ghost base = self.start as int;
        let ghost snames = spec_names(self.regex_tree.pattern@);
        let ghost target = spec_seq_items(t, window, base, self.caps@, snames, *elem, 1);
        let m: usize = if self.names.len() <= self.caps.len() {
            self.names.len()
        } else {
            self.caps.len()
        };
        assert(m >= 1);
        let mut out: Vec<Value> = Vec::new();
        let mut idx: usize = 1;
        while idx < m
            invariant
                1 <= idx <= m,
                ({
                    let suffix = spec_seq_items(
                        t,
                        window,
                        base,
                        self.caps@,
                        snames,
                        *elem,
                        idx as int,
                    );
                    match suffix {
                        Ok(rest) => target == Ok::<_, SpecErr>(spec_values_of(out@) + rest),
                        Err(e) => target == Err::<Seq<SpecValue>, _>(e),
                    }
                }),
                crate::semantics::spans_wf_all(
                    spec_values_of(out@),
                    self.start as int,
                    self.text.spec_bytes(),
                ),
            decreases m - idx,
        {
            let cap = self.caps[idx];
            match cap {
                Some(rng) => {
                    let (s, e) = rng;
                    let ghost sname_opt = snames[idx as int];
                    let sub = slice_by_bytes(self.text, s, e);
                    let name_opt = &self.names[idx];
                    let child_opt = match name_opt {
                        Some(name) => self.regex_tree.child(name.as_str()),
                        None => None,
                    };
                    let vres = match child_opt {
                        Some(child) => {
                            proof {
                                let nm = sname_opt->0;
                                lemma_spec_child_of_index(self.regex_tree.children@, nm);
                                lemma_spec_child_of_wf(self.regex_tree.children@, nm);
                                let ci = choose|ci: int|
                                    0 <= ci < self.regex_tree.children@.len()
                                        && #[trigger] self.regex_tree.children@[ci].1
                                        == crate::regex_tree::spec_child_of(
                                        self.regex_tree.children@,
                                        nm,
                                    )->0;
                                assert(decreases_to!(*self.regex_tree =>
                                    self.regex_tree.children@[ci].1));
                            }
                            StrDeserializer::from_regex_tree_and_offset_str(
                                child,
                                sub.as_str(),
                                self.start + s,
                            ).deserialize(elem)
                        },
                        None => JustStrDeserializer::new(sub.as_str(), self.start + s).deserialize(
                            elem,
                        ),
                    };
                    proof {
                        assert(res_matches(
                            vres,
                            spec_entry_value(
                                t,
                                window,
                                base,
                                sname_opt,
                                s as int,
                                e as int,
                                *elem,
                            ),
                        ));
                    }
                    match vres {
                        Ok(v) => {
                            proof {
                                crate::semantics::lemma_spans_rebase(
                                    v@,
                                    self.start as int,
                                    s as int,
                                    e as int,
                                    self.text.spec_bytes(),
                                );
                                crate::semantics::lemma_spans_wf_all_push(
                                    spec_values_of(out@),
                                    v@,
                                    self.start as int,
                                    self.text.spec_bytes(),
                                );
                                lemma_spec_values_of_push(out@, v);
                                let suffix1 = spec_seq_items(
                                    t,
                                    window,
                                    base,
                                    self.caps@,
                                    snames,
                                    *elem,
                                    idx + 1,
                                );
                                if suffix1 is Ok {
                                    assert(spec_values_of(out@) + (seq![v@] + suffix1->Ok_0)
                                        =~= spec_values_of(out@.push(v)) + suffix1->Ok_0);
                                }
                            }
                            out.push(v);
                            idx += 1;
                        },
                        Err(e) => {
                            return Err(e);
                        },
                    }
                },
                None => {
                    proof {
                        assert(spec_seq_items(t, window, base, self.caps@, snames, *elem, idx as int)
                            == spec_seq_items(
                            t,
                            window,
                            base,
                            self.caps@,
                            snames,
                            *elem,
                            idx + 1,
                        ));
                    }
                    idx += 1;
                },
            }
        }
        proof {
            assert(spec_values_of(out@) + Seq::<SpecValue>::empty() =~= spec_values_of(out@));
        }
        Ok(out)
    }
}

} // verus!
