use crate::regex_tree::{caps_wf, spec_names, RegexTree};
use crate::semantics::spec_match_list;
use crate::single_capture::SingleCaptureDeserializer;
use crate::value::{
    lemma_spec_values_of_push, res_matches, spec_values_of, Error, Request, SpecErr, SpecValue,
    Value,
};
use vstd::prelude::*;
use vstd::string::StringSliceAdditionalSpecFns;

verus! {

/// The multi-match walk: every non-overlapping match of the tree's
/// pattern, in engine order, handed one by one to the single-match
/// walker.
pub struct MultiCaptureSeqAccess<'r, 't> {
    pub regex_tree: &'r RegexTree,
    /// Each match's capture-group offsets, relative to `text`.
    pub list: Vec<Vec<Option<(usize, usize)>>>,
    pub text: &'t str,
    /// Byte offset of the start of `text` within the original outermost
    /// text.
    pub start: usize,
}

impl<'r, 't> MultiCaptureSeqAccess<'r, 't> {
    /// The abstract match list this walk runs over.
    pub open spec fn spec_list(self) -> Seq<Seq<Option<(usize, usize)>>> {
        Seq::new(self.list@.len(), |i: int| self.list@[i]@)
    }

    pub open spec fn wf(self) -> bool {
        &&& self.regex_tree.wf()
        &&& forall|i: int|
            0 <= i < self.list@.len() ==> caps_wf((#[trigger] self.list@[i])@, self.text.spec_bytes())
        &&& forall|i: int|
            0 <= i < self.list@.len() ==> (#[trigger] self.list@[i])@.len() == spec_names(
                self.regex_tree.pattern@,
            ).len()
        &&& self.start + self.text.spec_bytes().len() <= usize::MAX
    }

    pub fn from_regex_tree_and_captures(
        regex_tree: &'r RegexTree,
        list: Vec<Vec<Option<(usize, usize)>>>,
        text: &'t str,
        start: usize,
    ) -> (r: Self)
        ensures
            r.regex_tree == regex_tree,
            r.list == list,
            r.text == text,
            r.start == start,
    {
        Self { regex_tree, list, text, start }
    }

    /// Walks every match once, in order, and assembles the elements; the
    /// first failure anywhere aborts the walk.
    #[verifier::loop_isolation(false)]
    pub fn collect(&self, elem: &Request) -> (r: Result<Vec<Value>, Error>)
        requires
            self.wf(),
        ensures
            ({
                let target = spec_match_list(
                    *self.regex_tree,
                    self.text@,
                    self.start as int,
                    self.spec_list(),
                    0,
                    *elem,
                );
                match r {
                    Ok(vs) => target == Ok::<_, SpecErr>(spec_values_of(vs@))
                        && crate::semantics::spans_wf_all(
                        spec_values_of(vs@),
                        self.start as int,
                        self.text.spec_bytes(),
                    ),
                    Err(e) => target matches Err(se) && e@ == se,
                }
            }),
        decreases *self.regex_tree, 3int, 0int, Request::Unit,
    {
        let ghost t = *self.regex_tree;
        let ghost window = self.text@;
        let ghost base = self.start as int;
        let ghost slist = self.spec_list();
        let ghost target = spec_match_list(t, window, base, slist, 0, *elem);
        let n = self.list.len();
        let mut out: Vec<Value> = Vec::new();
        let mut i: usize = 0;
        while i < n
            invariant
                0 <= i <= n,
                ({
                    let suffix = spec_match_list(t, window, base, slist, i as int, *elem);
                    match suffix {
                        Ok(rest) => target == Ok::<_, SpecErr>(spec_values_of(out@) + rest),
                        Err(e) => target == Err::<Seq<SpecValue>, _>(e),
                    }
                }),
                crate::semantics::spans_wf_all(
                    spec_values_of(out@),
                    self.start as int,
                    self.text.spec_bytes(),
                ),
            decreases n - i,
        {
            let des = SingleCaptureDeserializer::from_regex_tree_and_single_capture(
                self.regex_tree,
                &self.list[i],
                self.text,
                self.start,
            );
            match des.deserialize(elem) {
                Ok(v) => {
                    proof {
                        crate::semantics::lemma_spans_wf_all_push(
                            spec_values_of(out@),
                            v@,
                            self.start as int,
                            self.text.spec_bytes(),
                        );
                        lemma_spec_values_of_push(out@, v);
                        let suffix1 = spec_match_list(t, window, base, slist, i + 1, *elem);
                        if suffix1 is Ok {
                            assert(spec_values_of(out@) + (seq![v@] + suffix1->Ok_0)
                                =~= spec_values_of(out@.push(v)) + suffix1->Ok_0);
                        }
                    }
                    out.push(v);
                    i += 1;
                },
                Err(e) => {
                    return Err(e);
                },
            }
        }
        proof {
            assert(spec_values_of(out@) + Seq::<SpecValue>::empty() =~= spec_values_of(out@));
        }
        Ok(out)
    }
}

} // verus!
