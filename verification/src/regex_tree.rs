use crate::value::{Error, SpecErr};
use vstd::prelude::*;
use vstd::string::StrSliceExecFns;
use vstd::string::StringSliceAdditionalSpecFns;

verus! {

// ---------------------------------------------------------------------------
// The trusted surface over the regex engine
// ---------------------------------------------------------------------------
#[verifier::external_type_specification]
#[verifier::external_body]
pub struct ExRegex(regex::Regex);

/// The pattern a compiled regex holds: what `regex::Regex::as_str` returns.
pub uninterp spec fn regex_pattern(re: regex::Regex) -> Seq<char>;

/// True when the regex engine accepts the pattern.
pub uninterp spec fn spec_compiles(pattern: Seq<char>) -> bool;

/// What `regex::Regex::captures` returns for a pattern run once against a
/// text: `None` when the pattern does not match, otherwise one entry per
/// capture group, each `None` when the group did not participate and
/// otherwise the `[start, end)` byte offsets of what it captured.
pub uninterp spec fn spec_captures(pattern: Seq<char>, text: Seq<char>) -> Option<
    Seq<Option<(usize, usize)>>,
>;

/// What `regex::Regex::captures_iter` returns: the capture groups of every
/// non-overlapping match of the pattern in the text, leftmost first.
pub uninterp spec fn spec_captures_list(pattern: Seq<char>, text: Seq<char>) -> Seq<
    Seq<Option<(usize, usize)>>,
>;

/// What `regex::Regex::capture_names` returns: one entry per capture group
/// in the pattern, in the order of their opening parentheses, `None` for
/// unnamed groups.
pub uninterp spec fn spec_names(pattern: Seq<char>) -> Seq<Option<Seq<char>>>;

/// Well-formedness of one match's capture-group offsets against the text
/// (as bytes) that the pattern was run on: the whole match is group 0 and
/// always present, and every participating group lies within the text,
/// with both offsets on character boundaries.
pub open spec fn caps_wf(caps: Seq<Option<(usize, usize)>>, tbytes: Seq<u8>) -> bool {
    &&& caps.len() >= 1
    &&& caps[0] is Some
    &&& forall|i: int|
        0 <= i < caps.len() && caps[i] is Some ==> {
            let (s, e) = (#[trigger] caps[i])->0;
            &&& s <= e <= tbytes.len()
            &&& vstd::utf8::is_char_boundary(tbytes, s as int)
            &&& vstd::utf8::is_char_boundary(tbytes, e as int)
        }
}

/// Well-formedness of a whole-text match list: every match is well-formed
/// and the whole matches come in non-overlapping, left-to-right order.
pub open spec fn caps_list_wf(list: Seq<Seq<Option<(usize, usize)>>>, tbytes: Seq<u8>) -> bool {
    &&& forall|i: int| 0 <= i < list.len() ==> caps_wf(#[trigger] list[i], tbytes)
    &&& forall|i: int|
        0 <= i < list.len() - 1 ==> ((#[trigger] list[i][0])->0).1 <= (list[i + 1][0]->0).0
}

/// Relies on `regex::Regex::new`: it compiles the pattern or reports the
/// engine's error, and `Regex::as_str` on the result returns the very
/// pattern it was given.
#[verifier::external_body]
fn re_new(pattern: &str) -> (r: Result<regex::Regex, String>)
    ensures
        r is Ok <==> spec_compiles(pattern@),
        r matches Ok(re) ==> regex_pattern(re) == pattern@,
{
    match regex::Regex::new(pattern) {
        Ok(re) => Ok(re),
        Err(e) => Err(e.to_string()),
    }
}

/// Relies on `regex::Regex::captures`: it reports the leftmost match's
/// capture groups, or `None` when the pattern does not match.  Offsets are
/// byte offsets into the haystack, `start <= end`, both on UTF-8 character
/// boundaries; group 0 is the whole match and always participates; there
/// is one entry per capture group of the pattern.
#[verifier::external_body]
fn re_captures(re: &regex::Regex, text: &str) -> (r: Option<Vec<Option<(usize, usize)>>>)
    ensures
        r is Some <==> spec_captures(regex_pattern(*re), text@) is Some,
        r matches Some(c) ==> c@ == spec_captures(regex_pattern(*re), text@)->0,
        r matches Some(c) ==> caps_wf(c@, text.spec_bytes()),
        r matches Some(c) ==> c@.len() == spec_names(regex_pattern(*re)).len(),
{
    re.captures(text).map(|c| c.iter().map(|m| m.map(|m| (m.start(), m.end()))).collect())
}

/// Relies on `regex::Regex::captures_iter`: it yields the capture groups
/// of every non-overlapping match, leftmost first, with the same per-match
/// guarantees as `Regex::captures`.
#[verifier::external_body]
fn re_captures_list(re: &regex::Regex, text: &str) -> (r: Vec<Vec<Option<(usize, usize)>>>)
    ensures
        r@.len() == spec_captures_list(regex_pattern(*re), text@).len(),
        forall|i: int|
            0 <= i < r@.len() ==> (#[trigger] r@[i])@ == spec_captures_list(
                regex_pattern(*re),
                text@,
            )[i],
        forall|i: int| 0 <= i < r@.len() ==> caps_wf((#[trigger] r@[i])@, text.spec_bytes()),
        forall|i: int|
            0 <= i < r@.len() - 1 ==> (((#[trigger] r@[i])@[0])->0).1 <= ((r@[i + 1]@[0])->0).0,
        forall|i: int|
            0 <= i < r@.len() ==> (#[trigger] r@[i])@.len() == spec_names(
                regex_pattern(*re),
            ).len(),
{
    re.captures_iter(text).map(|c| c.iter().map(|m| m.map(|m| (m.start(), m.end()))).collect()).collect()
}

/// Relies on `regex::Regex::capture_names`: it yields one entry per
/// capture group, in the order of their opening parentheses; the first
/// entry is the implicit unnamed group 0.
#[verifier::external_body]
fn re_names(re: &regex::Regex) -> (r: Vec<Option<String>>)
    ensures
        r@.len() == spec_names(regex_pattern(*re)).len(),
        r@.len() >= 1,
        r@[0] is None,
        forall|i: int|
            0 <= i < r@.len() ==> ((#[trigger] r@[i]) is Some <==> spec_names(
                regex_pattern(*re),
            )[i] is Some),
        forall|i: int|
            0 <= i < r@.len() && r@[i] is Some ==> ((#[trigger] r@[i])->0)@ == spec_names(
                regex_pattern(*re),
            )[i]->0,
{
    re.capture_names().map(|n| n.map(|s| s.to_owned())).collect()
}

// ---------------------------------------------------------------------------
// The regex tree
// ---------------------------------------------------------------------------
/// A regex tree: a compiled pattern together with a mapping from capture
/// group name to a child tree.  Once the pattern of a node matches, any
/// named capture group whose name is a child's name recurses: the child
/// tree is run on the substring that group captured.
///
/// A leaf is a tree with no children (see [`RegexTree::leaf`]); a tree
/// with children is put together with [`RegexTree::root`] and the
/// [`Builder`].  Once built, a tree is immutable.
pub struct RegexTree {
    pub regex: regex::Regex,
    pub pattern: String,
    pub children: Vec<(String, RegexTree)>,
}

/// Well-formedness of a child list: every child tree is well formed.
pub open spec fn forest_wf(cs: Seq<(String, RegexTree)>) -> bool
    decreases cs,
{
    cs.len() == 0 || (cs[0].1.wf() && forest_wf(cs.drop_first()))
}

/// The child tree registered for `name`, if any; the entry added last
/// shadows earlier entries of the same name.
pub open spec fn spec_child_of(cs: Seq<(String, RegexTree)>, name: Seq<char>) -> Option<RegexTree>
    decreases cs,
{
    if cs.len() == 0 {
        None
    } else if cs[0].0@ == name {
        Some(cs[0].1)
    } else {
        spec_child_of(cs.drop_first(), name)
    }
}

/// A found child is one of the list's entries.
pub proof fn lemma_spec_child_of_index(cs: Seq<(String, RegexTree)>, name: Seq<char>)
    requires
        spec_child_of(cs, name) is Some,
    ensures
        exists|i: int|
            0 <= i < cs.len() && #[trigger] cs[i].1 == spec_child_of(cs, name)->0,
    decreases cs.len(),
{
    if cs.len() > 0 && cs[0].0@ != name {
        lemma_spec_child_of_index(cs.drop_first(), name);
        let j = choose|j: int|
            0 <= j < cs.drop_first().len() && #[trigger] cs.drop_first()[j].1 == spec_child_of(
                cs.drop_first(),
                name,
            )->0;
        assert(cs[j + 1].1 == cs.drop_first()[j].1);
    }
}

/// A well-formed child list yields well-formed children.
pub broadcast proof fn lemma_spec_child_of_wf(cs: Seq<(String, RegexTree)>, name: Seq<char>)
    requires
        forest_wf(cs),
        #[trigger] spec_child_of(cs, name) is Some,
    ensures
        spec_child_of(cs, name)->0.wf(),
    decreases cs.len(),
{
    if cs.len() > 0 && cs[0].0@ != name {
        lemma_spec_child_of_wf(cs.drop_first(), name);
    }
}

impl RegexTree {
    /// Well-formedness: the stored pattern is the one the regex was
    /// compiled from, the engine accepts it, and the same holds of every
    /// child tree.  Every constructor establishes this and extraction
    /// relies on it.
    pub open spec fn wf(self) -> bool
        decreases self,
    {
        &&& spec_compiles(self.pattern@)
        &&& regex_pattern(self.regex) == self.pattern@
        &&& forest_wf(self.children@)
    }

    /// The child registered under `name`, if any.
    pub open spec fn spec_child(self, name: Seq<char>) -> Option<RegexTree> {
        spec_child_of(self.children@, name)
    }

    /// Begin construction of a regex tree with children; fails with
    /// `Error::Pattern` when the engine rejects the pattern.
    pub fn root(pattern: &str) -> (r: Result<Builder, Error>)
        ensures
            r is Ok <==> spec_compiles(pattern@),
            r matches Ok(b) ==> b.wf() && b.pattern@ == pattern@ && b.children@.len() == 0,
            r matches Err(e) ==> e@ == SpecErr::Pattern,
    {
        Builder::new(pattern)
    }

    /// Construct a regex tree with no children; fails with
    /// `Error::Pattern` when the engine rejects the pattern.
    pub fn leaf(pattern: &str) -> (r: Result<RegexTree, Error>)
        ensures
            r is Ok <==> spec_compiles(pattern@),
            r matches Ok(t) ==> t.wf() && t.pattern@ == pattern@ && t.children@.len() == 0,
            r matches Err(e) ==> e@ == SpecErr::Pattern,
    {
        match re_new(pattern) {
            Ok(re) => Ok(RegexTree { regex: re, pattern: pattern.to_owned(), children: Vec::new() }),
            Err(message) => Err(Error::Pattern { message }),
        }
    }

    /// Runs this node's pattern once against `text`.
    pub fn captures(&self, text: &str) -> (r: Option<Vec<Option<(usize, usize)>>>)
        requires
            self.wf(),
        ensures
            r is Some <==> spec_captures(self.pattern@, text@) is Some,
            r matches Some(c) ==> c@ == spec_captures(self.pattern@, text@)->0,
            r matches Some(c) ==> caps_wf(c@, text.spec_bytes()),
            r matches Some(c) ==> c@.len() == spec_names(self.pattern@).len(),
    {
        re_captures(&self.regex, text)
    }

    /// Runs this node's pattern over all of `text`, yielding the capture
    /// groups of every non-overlapping match in left-to-right order.
    pub fn captures_iter(&self, text: &str) -> (r: Vec<Vec<Option<(usize, usize)>>>)
        requires
            self.wf(),
        ensures
            r@.len() == spec_captures_list(self.pattern@, text@).len(),
            forall|i: int|
                0 <= i < r@.len() ==> (#[trigger] r@[i])@ == spec_captures_list(
                    self.pattern@,
                    text@,
                )[i],
            caps_list_wf(spec_captures_list(self.pattern@, text@), text.spec_bytes()),
            forall|i: int|
                0 <= i < r@.len() ==> (#[trigger] r@[i])@.len() == spec_names(self.pattern@).len(),
    {
        let r = re_captures_list(&self.regex, text);
        proof {
            let list = spec_captures_list(self.pattern@, text@);
            assert forall|i: int| 0 <= i < list.len() implies caps_wf(
                #[trigger] list[i],
                text.spec_bytes(),
            ) by {
                assert(r@[i]@ == list[i]);
                assert(caps_wf(r@[i]@, text.spec_bytes()));
            }
            assert forall|i: int| 0 <= i < list.len() - 1 implies ((#[trigger] list[i][0])->0).1
                <= (list[i + 1][0]->0).0 by {
                assert(r@[i]@ == list[i]);
                assert(r@[i + 1]@ == list[i + 1]);
            }
        }
        r
    }

    /// The names of this node's capture groups, one entry per group.
    pub fn names(&self) -> (r: Vec<Option<String>>)
        requires
            self.wf(),
        ensures
            r@.len() == spec_names(self.pattern@).len(),
            r@.len() >= 1,
            r@[0] is None,
            forall|i: int|
                0 <= i < r@.len() ==> ((#[trigger] r@[i]) is Some <==> spec_names(
                    self.pattern@,
                )[i] is Some),
            forall|i: int|
                0 <= i < r@.len() && r@[i] is Some ==> ((#[trigger] r@[i])->0)@ == spec_names(
                    self.pattern@,
                )[i]->0,
    {
        re_names(&self.regex)
    }

    /// Looks up the child tree registered under `name`.
    pub fn child(&self, name: &str) -> (r: Option<&RegexTree>)
        ensures
            match r {
                Some(c) => self.spec_child(name@) == Some(*c),
                None => self.spec_child(name@) is None,
            },
    {
        let n = self.children.len();
        let mut i: usize = 0;
        while i < n
            invariant
                0 <= i <= n,
                n == self.children@.len(),
                forall|j: int| 0 <= j < i ==> (#[trigger] self.children@[j]).0@ != name@,
            decreases n - i,
        {
            if str_eq(self.children[i].0.as_str(), name) {
                proof {
                    lemma_spec_child_of_prefix(self.children@, name@, i as int);
                }
                return Some(&self.children[i].1);
            }
            i += 1;
        }
        proof {
            lemma_spec_child_of_prefix(self.children@, name@, n as int);
        }
        None
    }
}

/// When the first `i` entries all miss `name`, lookup is decided by what
/// stands at and after position `i`.
proof fn lemma_spec_child_of_prefix(cs: Seq<(String, RegexTree)>, name: Seq<char>, i: int)
    requires
        0 <= i <= cs.len(),
        forall|j: int| 0 <= j < i ==> (#[trigger] cs[j]).0@ != name,
    ensures
        i < cs.len() && cs[i].0@ == name ==> spec_child_of(cs, name) == Some(cs[i].1),
        i == cs.len() ==> spec_child_of(cs, name) is None,
    decreases i,
{
    if i > 0 {
        let rest = cs.drop_first();
        assert forall|j: int| 0 <= j < i - 1 implies (#[trigger] rest[j]).0@ != name by {
            assert(rest[j] == cs[j + 1]);
        }
        lemma_spec_child_of_prefix(rest, name, i - 1);
        if i < cs.len() {
            assert(rest[i - 1] == cs[i]);
        }
    }
}

/// True when two strings hold the same characters.
pub fn str_eq(a: &str, b: &str) -> (r: bool)
    ensures
        r <==> a@ == b@,
{
    proof {
        broadcast use vstd::utf8::encode_utf8_decode_utf8;

    }
    let av = a.as_bytes_vec();
    let bv = b.as_bytes_vec();
    let n = av.len();
    if n != bv.len() {
        return false;
    }
    let mut i: usize = 0;
    while i < n
        invariant
            0 <= i <= n,
            n == av@.len() == bv@.len(),
            av@ == a.spec_bytes(),
            bv@ == b.spec_bytes(),
            forall|j: int| 0 <= j < i ==> av@[j] == bv@[j],
        decreases n - i,
    {
        if av[i] != bv[i] {
            proof {
                broadcast use vstd::utf8::encode_utf8_decode_utf8;

                assert(a.spec_bytes()[i as int] != b.spec_bytes()[i as int]);
            }
            return false;
        }
        i += 1;
    }
    proof {
        assert(a.spec_bytes() =~= b.spec_bytes());
        assert(vstd::utf8::decode_utf8(a.spec_bytes()) == vstd::utf8::decode_utf8(
            b.spec_bytes(),
        ));
    }
    true
}

/// Builds a regex tree with children: start with [`RegexTree::root`], add
/// children with [`Builder::with_child`], finish with [`Builder::build`].
pub struct Builder {
    pub regex: regex::Regex,
    pub pattern: String,
    pub children: Vec<(String, RegexTree)>,
}

impl Builder {
    /// Well-formedness, as for the finished tree.
    pub open spec fn wf(self) -> bool {
        &&& spec_compiles(self.pattern@)
        &&& regex_pattern(self.regex) == self.pattern@
        &&& forest_wf(self.children@)
    }

    fn new(pattern: &str) -> (r: Result<Self, Error>)
        ensures
            r is Ok <==> spec_compiles(pattern@),
            r matches Ok(b) ==> b.wf() && b.pattern@ == pattern@ && b.children@.len() == 0,
            r matches Err(e) ==> e@ == SpecErr::Pattern,
    {
        match re_new(pattern) {
            Ok(re) => Ok(Builder { regex: re, pattern: pattern.to_owned(), children: Vec::new() }),
            Err(message) => Err(Error::Pattern { message }),
        }
    }

    /// Registers `child` under `name`, shadowing any earlier child of the
    /// same name.
    pub fn with_child(self, name: &str, child: RegexTree) -> (r: Builder)
        requires
            self.wf(),
            child.wf(),
        ensures
            r.wf(),
            r.pattern@ == self.pattern@,
            forall|n: Seq<char>|
                #[trigger] spec_child_of(r.children@, n) == if n == name@ {
                    Some(child)
                } else {
                    spec_child_of(self.children@, n)
                },
    {
        let mut children = self.children;
        let ghost old_children = children@;
        children.insert(0, (name.to_owned(), child));
        proof {
            assert(children@.drop_first() =~= old_children);
        }
        Builder { regex: self.regex, pattern: self.pattern, children }
    }

    /// Finish construction and create the regex tree.
    pub fn build(self) -> (r: RegexTree)
        requires
            self.wf(),
        ensures
            r.wf(),
            r.pattern@ == self.pattern@,
            r.children@ == self.children@,
    {
        RegexTree { regex: self.regex, pattern: self.pattern, children: self.children }
    }
}

} // verus!
