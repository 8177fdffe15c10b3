use crate::string::slice_by_bytes;
use vstd::prelude::*;
use vstd::string::StringSliceAdditionalSpecFns;

verus! {

/// The gaps between consecutive boundary pairs: for each neighbouring
/// pair, the span from the first one's end to the second one's start,
/// kept only when it is nonempty.
pub open spec fn spec_gaps_from(bounds: Seq<(usize, usize)>, i: int) -> Seq<(usize, usize)>
    decreases bounds.len() - i,
{
    if i < 0 || i + 1 >= bounds.len() {
        Seq::empty()
    } else {
        let g = (bounds[i].1, bounds[i + 1].0);
        if g.0 < g.1 {
            seq![g] + spec_gaps_from(bounds, i + 1)
        } else {
            spec_gaps_from(bounds, i + 1)
        }
    }
}

/// The boundary list a range list induces over a text of `len` bytes: a
/// sentinel before, the ranges themselves, and a sentinel after.
pub open spec fn spec_bounds(ranges: Seq<(usize, usize)>, len: usize) -> Seq<(usize, usize)> {
    seq![(0usize, 0usize)] + ranges + seq![(len, len)]
}

/// The byte spans of the text that the given ranges leave unclaimed.
pub open spec fn spec_gaps(ranges: Seq<(usize, usize)>, len: usize) -> Seq<(usize, usize)> {
    spec_gaps_from(spec_bounds(ranges, len), 0)
}

/// The participating capture ranges of one match, in group order.
pub open spec fn spec_flatten(caps: Seq<Option<(usize, usize)>>) -> Seq<(usize, usize)>
    decreases caps,
{
    if caps.len() == 0 {
        Seq::empty()
    } else if caps[0] is Some {
        seq![caps[0]->0] + spec_flatten(caps.drop_first())
    } else {
        spec_flatten(caps.drop_first())
    }
}

/// Every range endpoint lies within the text and on a character boundary.
pub open spec fn ranges_wf(ranges: Seq<(usize, usize)>, tbytes: Seq<u8>) -> bool {
    forall|i: int|
        0 <= i < ranges.len() ==> {
            let (s, e) = #[trigger] ranges[i];
            &&& s <= tbytes.len()
            &&& e <= tbytes.len()
            &&& vstd::utf8::is_char_boundary(tbytes, s as int)
            &&& vstd::utf8::is_char_boundary(tbytes, e as int)
        }
}

/// The substrings of `text` that the given ranges leave unclaimed: for
/// each pair of neighbouring ranges (with a sentinel before the first and
/// after the last), the nonempty stretch between them.
#[verifier::loop_isolation(false)]
pub fn gap_strings(text: &str, ranges: &Vec<(usize, usize)>) -> (r: Vec<String>)
    requires
        ranges_wf(ranges@, text.spec_bytes()),
        text.spec_bytes().len() <= usize::MAX,
    ensures
        ({
            let gaps = spec_gaps(ranges@, text.spec_bytes().len() as usize);
            &&& r@.len() == gaps.len()
            &&& forall|j: int|
                0 <= j < gaps.len() ==> (#[trigger] r@[j])@ == vstd::utf8::decode_utf8(
                    text.spec_bytes().subrange(gaps[j].0 as int, gaps[j].1 as int),
                )
        }),
{
    proof {
        vstd::utf8::encode_utf8_valid_utf8(text@);
        vstd::utf8::is_char_boundary_start_end_of_seq(text.spec_bytes());
    }
    let len = text.len();
    let mut bounds: Vec<(usize, usize)> = Vec::new();
    bounds.push((0, 0));
    let mut k: usize = 0;
    while k < ranges.len()
        invariant
            0 <= k <= ranges@.len(),
            bounds@.len() == k + 1,
            bounds@ =~= seq![(0usize, 0usize)] + ranges@.subrange(0, k as int),
        decreases ranges@.len() - k,
    {
        bounds.push(ranges[k]);
        k += 1;
    }
    bounds.push((len, len));
    proof {
        assert(bounds@ =~= spec_bounds(ranges@, len));
        assert(len == text.spec_bytes().len());
    }
    let ghost gb = bounds@;
    let ghost target = spec_gaps_from(gb, 0);
    let mut out: Vec<String> = Vec::new();
    let ghost mut gs: Seq<(usize, usize)> = Seq::empty();
    let n = bounds.len();
    let mut i: usize = 0;
    while i + 1 < n
        invariant
            0 <= i < n,
            n == gb.len(),
            target == gs + spec_gaps_from(gb, i as int),
            out@.len() == gs.len(),
            forall|j: int|
                0 <= j < gs.len() ==> (#[trigger] out@[j])@ == vstd::utf8::decode_utf8(
                    text.spec_bytes().subrange(gs[j].0 as int, gs[j].1 as int),
                ),
        decreases n - i,
    {
        let lo = bounds[i].1;
        let hi = bounds[i + 1].0;
        if lo < hi {
            let piece = slice_by_bytes(text, lo, hi);
            out.push(piece);
            proof {
                gs = gs.push((lo, hi));
                assert(gs + spec_gaps_from(gb, i + 1) =~= gs.drop_last() + (seq![(lo, hi)]
                    + spec_gaps_from(gb, i + 1)));
            }
        } else {
            proof {
                assert(spec_gaps_from(gb, i as int) == spec_gaps_from(gb, i + 1));
            }
        }
        i += 1;
    }
    proof {
        assert(gs + Seq::<(usize, usize)>::empty() =~= gs);
        assert(target == gs);
    }
    out
}

/// The substrings of `text` that one match's capture groups leave
/// unclaimed: the stretches before, between and after the participating
/// capture ranges, in order, nonempty ones only.
pub fn get_uncaptured_by_one(text: &str, caps: &Vec<Option<(usize, usize)>>) -> (r: Vec<String>)
    requires
        crate::regex_tree::caps_wf(caps@, text.spec_bytes()),
        text.spec_bytes().len() <= usize::MAX,
    ensures
        ({
            let gaps = spec_gaps(spec_flatten(caps@), text.spec_bytes().len() as usize);
            &&& r@.len() == gaps.len()
            &&& forall|j: int|
                0 <= j < gaps.len() ==> (#[trigger] r@[j])@ == vstd::utf8::decode_utf8(
                    text.spec_bytes().subrange(gaps[j].0 as int, gaps[j].1 as int),
                )
        }),
{
    let mut ranges: Vec<(usize, usize)> = Vec::new();
    let n = caps.len();
    let mut i: usize = 0;
    while i < n
        invariant
            0 <= i <= n,
            n == caps@.len(),
            crate::regex_tree::caps_wf(caps@, text.spec_bytes()),
            ranges@ =~= spec_flatten(caps@.subrange(0, i as int)),
            ranges_wf(ranges@, text.spec_bytes()),
        decreases n - i,
    {
        proof {
            lemma_spec_flatten_step(caps@, i as int);
        }
        match caps[i] {
            Some(rng) => {
                ranges.push(rng);
            },
            None => {},
        }
        i += 1;
    }
    proof {
        assert(caps@.subrange(0, n as int) =~= caps@);
    }
    gap_strings(text, &ranges)
}

/// Flattening one more group appends its range when it participated.
proof fn lemma_spec_flatten_step(caps: Seq<Option<(usize, usize)>>, i: int)
    requires
        0 <= i < caps.len(),
    ensures
        caps[i] is Some ==> spec_flatten(caps.subrange(0, i + 1)) == spec_flatten(
            caps.subrange(0, i),
        ).push(caps[i]->0),
        caps[i] is None ==> spec_flatten(caps.subrange(0, i + 1)) == spec_flatten(
            caps.subrange(0, i),
        ),
    decreases i,
{
    let p = caps.subrange(0, i);
    let q = caps.subrange(0, i + 1);
    if i == 0 {
        assert(p =~= Seq::empty());
        if caps[0] is Some {
            assert(q.drop_first() =~= Seq::empty());
            assert(spec_flatten(q) =~= seq![caps[0]->0]);
            assert(spec_flatten(p).push(caps[0]->0) =~= seq![caps[0]->0]);
        } else {
            assert(q.drop_first() =~= Seq::empty());
        }
    } else {
        lemma_spec_flatten_step(caps.drop_first(), i - 1);
        assert(p.drop_first() =~= caps.drop_first().subrange(0, i - 1));
        assert(q.drop_first() =~= caps.drop_first().subrange(0, i));
        assert(p[0] == caps[0] && q[0] == caps[0]);
        if caps[0] is Some {
            if caps[i] is Some {
                assert(spec_flatten(q) == seq![caps[0]->0] + spec_flatten(q.drop_first()));
                assert(spec_flatten(p).push(caps[i]->0) =~= seq![caps[0]->0] + spec_flatten(
                    p.drop_first(),
                ).push(caps[i]->0));
                assert(caps.drop_first()[i - 1] == caps[i]);
            } else {
                assert(caps.drop_first()[i - 1] == caps[i]);
            }
        } else {
            assert(caps.drop_first()[i - 1] == caps[i]);
        }
    }
}

/// The interleaved reconstruction: gap before, range, gap, range, ...,
/// ending with the gap after the last range, as one byte sequence.
pub open spec fn spec_cover(bounds: Seq<(usize, usize)>, i: int, tbytes: Seq<u8>) -> Seq<u8>
    decreases bounds.len() - i,
{
    if i < 0 || i + 1 >= bounds.len() {
        Seq::empty()
    } else {
        tbytes.subrange(bounds[i].1 as int, bounds[i + 1].0 as int) + tbytes.subrange(
            bounds[i + 1].0 as int,
            bounds[i + 1].1 as int,
        ) + spec_cover(bounds, i + 1, tbytes)
    }
}

/// True when the ranges stand in left-to-right order without overlap and
/// within the text.
pub open spec fn ranges_sorted(ranges: Seq<(usize, usize)>, len: int) -> bool {
    &&& forall|i: int| 0 <= i < ranges.len() ==> (#[trigger] ranges[i]).0 <= ranges[i].1 <= len
    &&& forall|i: int| 0 <= i < ranges.len() - 1 ==> (#[trigger] ranges[i]).1 <= ranges[i + 1].0
}

/// The gap law: concatenating, in order, the uncaptured stretches and the
/// captured ranges — interleaved by position, as [`spec_cover`] lays them
/// out — reconstructs the original text exactly.  The empty stretches
/// contribute nothing, so the same holds of the nonempty gap substrings
/// that [`gap_strings`] returns.
pub proof fn lemma_gap_law(ranges: Seq<(usize, usize)>, tbytes: Seq<u8>)
    requires
        ranges_sorted(ranges, tbytes.len() as int),
        tbytes.len() <= usize::MAX,
    ensures
        spec_cover(spec_bounds(ranges, tbytes.len() as usize), 0, tbytes) == tbytes,
{
    let bounds = spec_bounds(ranges, tbytes.len() as usize);
    let m = bounds.len() as int;
    assert(bounds[0] == (0usize, 0usize));
    assert(bounds[m - 1] == (tbytes.len() as usize, tbytes.len() as usize));
    assert forall|j: int| 0 <= j < m ==> (#[trigger] bounds[j]).0 <= bounds[j].1 <= tbytes.len() by {
        if 1 <= j < m - 1 {
            assert(bounds[j] == ranges[j - 1]);
        }
    }
    assert forall|j: int| 0 <= j < m - 1 implies (#[trigger] bounds[j]).1 <= bounds[j + 1].0 by {
        if j == 0 {
            if m > 2 {
                assert(bounds[1] == ranges[0]);
            }
        } else if j < m - 2 {
            assert(bounds[j] == ranges[j - 1]);
            assert(bounds[j + 1] == ranges[j]);
        } else {
            assert(bounds[j] == ranges[j - 1]);
        }
    }
    lemma_cover_suffix(bounds, 0, tbytes);
    assert(tbytes.subrange(0, tbytes.len() as int) =~= tbytes);
}

/// From position `i` on, the interleaved reconstruction yields the text
/// from the end of range `i` to the end.
proof fn lemma_cover_suffix(bounds: Seq<(usize, usize)>, i: int, tbytes: Seq<u8>)
    requires
        0 <= i < bounds.len(),
        forall|j: int| 0 <= j < bounds.len() ==> (#[trigger] bounds[j]).0 <= bounds[j].1 <= tbytes.len(),
        forall|j: int| 0 <= j < bounds.len() - 1 ==> (#[trigger] bounds[j]).1 <= bounds[j + 1].0,
        bounds[bounds.len() - 1].1 == tbytes.len(),
    ensures
        spec_cover(bounds, i, tbytes) == tbytes.subrange(bounds[i].1 as int, tbytes.len() as int),
    decreases bounds.len() - i,
{
    if i + 1 >= bounds.len() {
        assert(bounds[i].1 == tbytes.len());
        assert(tbytes.subrange(tbytes.len() as int, tbytes.len() as int) =~= Seq::empty());
    } else {
        lemma_cover_suffix(bounds, i + 1, tbytes);
        assert(tbytes.subrange(bounds[i].1 as int, bounds[i + 1].0 as int) + tbytes.subrange(
            bounds[i + 1].0 as int,
            bounds[i + 1].1 as int,
        ) + tbytes.subrange(bounds[i + 1].1 as int, tbytes.len() as int) =~= tbytes.subrange(
            bounds[i].1 as int,
            tbytes.len() as int,
        ));
    }
}

} // verus!
