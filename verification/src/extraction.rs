use vstd::prelude::*;
use vstd::math::abs;
use vstd::arithmetic::div_mod::{
    lemma_fundamental_div_mod, lemma_mod_division_less_than_divisor, lemma_multiply_divide_lt,
};

use crate::image::{Image, ImageView, lemma_index_in_range};
use crate::template_matching::{Match, MatchTemplateMethod, spec_more_match, is_a_more_match_than_b};

verus! {

/// The global extremes of a surface, with the first location (row major)
/// that attains each.
#[derive(Copy, Clone, Debug, PartialEq)]
pub struct Extremes {
    pub min_value: i128,
    pub max_value: i128,
    pub min_value_location: (u32, u32),
    pub max_value_location: (u32, u32),
}

/// The row-major index of a location in a surface of width `w`.
pub open spec fn loc_index(loc: (u32, u32), w: int) -> int {
    loc.1 * w + loc.0
}

/// Scans the surface once and returns the smallest and largest value, each
/// with the first (row-major) location where it occurs.
pub fn find_extremes(surface: &Image) -> (r: Extremes)
    requires
        surface@.wf(),
        1 <= surface@.width,
        1 <= surface@.height,
    ensures
        r.min_value_location.0 < surface@.width,
        r.min_value_location.1 < surface@.height,
        r.max_value_location.0 < surface@.width,
        r.max_value_location.1 < surface@.height,
        surface@.pix(r.min_value_location.0 as int, r.min_value_location.1 as int)
            == r.min_value,
        surface@.pix(r.max_value_location.0 as int, r.max_value_location.1 as int)
            == r.max_value,
        forall|k: int| 0 <= k < surface@.data.len() ==> r.min_value <= #[trigger] surface@.data[k],
        forall|k: int| 0 <= k < surface@.data.len() ==> #[trigger] surface@.data[k] <= r.max_value,
        forall|k: int| 0 <= k < loc_index(r.min_value_location, surface@.width)
            ==> r.min_value < #[trigger] surface@.data[k],
        forall|k: int| 0 <= k < loc_index(r.max_value_location, surface@.width)
            ==> #[trigger] surface@.data[k] < r.max_value,
{
    let w = surface.width();
    let h = surface.height();
    let raw = surface.as_raw();
    let n = raw.len();
    proof {
        lemma_index_in_range(surface@.width, surface@.height, 0, 0);
        assert(surface@.data.len() >= 1);
    }
    let mut min_value: i128 = raw[0];
    let mut max_value: i128 = raw[0];
    let mut min_idx: usize = 0;
    let mut max_idx: usize = 0;
    let mut k: usize = 1;
    while k < n
        invariant
            surface@.wf(),
            w == surface@.width,
            h == surface@.height,
            raw@ == surface@.data,
            n == surface@.data.len(),
            1 <= n,
            1 <= k,
            k <= n,
            min_idx < n,
            max_idx < n,
            min_value == surface@.data[min_idx as int],
            max_value == surface@.data[max_idx as int],
            forall|i: int| 0 <= i < k ==> min_value <= #[trigger] surface@.data[i],
            forall|i: int| 0 <= i < k ==> #[trigger] surface@.data[i] <= max_value,
            forall|i: int| 0 <= i < min_idx ==> min_value < #[trigger] surface@.data[i],
            forall|i: int| 0 <= i < max_idx ==> #[trigger] surface@.data[i] < max_value,
        decreases n - k,
    {
        let v = raw[k];
        if v < min_value {
            min_value = v;
            min_idx = k;
        }
        if v > max_value {
            max_value = v;
            max_idx = k;
        }
        k += 1;
    }
    let min_loc = split_index(min_idx, w, h, Ghost(surface@));
    let max_loc = split_index(max_idx, w, h, Ghost(surface@));
    Extremes { min_value, max_value, min_value_location: min_loc, max_value_location: max_loc }
}

/// Splits a row-major index into surface coordinates.
fn split_index(idx: usize, w: u32, h: u32, Ghost(s): Ghost<ImageView>) -> (r: (u32, u32))
    requires
        s.wf(),
        w == s.width,
        h == s.height,
        1 <= w,
        1 <= h,
        idx < s.data.len(),
    ensures
        r.0 < w,
        r.1 < h,
        loc_index(r, s.width) == idx,
        s.pix(r.0 as int, r.1 as int) == s.data[idx as int],
{
    proof {
        lemma_mod_division_less_than_divisor(idx as int, w as int);
        assert((idx as int) < (w as int) * (h as int));
        lemma_multiply_divide_lt(idx as int, w as int, h as int);
        lemma_fundamental_div_mod(idx as int, w as int);
    }
    let x = (idx % (w as usize)) as u32;
    let y = (idx / (w as usize)) as u32;
    proof {
        assert((w as int) * (idx as int / (w as int)) == (idx as int / (w as int)) * (w as int))
            by (nonlinear_arith);
        assert((y as int) * (w as int) + x as int == idx as int);
        lemma_index_in_range(s.width, s.height, x as int, y as int);
    }
    (x, y)
}

/// The two locations lie within a template-sized box of each other: their
/// horizontal distance is under `tw` and their vertical distance under `th`.
pub open spec fn box_overlap(m: Match, x: int, y: int, tw: int, th: int) -> bool {
    abs(m.location.0 - x) < tw && abs(m.location.1 - y) < th
}

/// The index of the last match in `ms` that overlaps `(x, y)`, or `-1` when
/// none does; the executable search scans the list in reverse.
pub open spec fn last_overlap_idx(ms: Seq<Match>, x: int, y: int, tw: int, th: int) -> int
    decreases ms.len(),
{
    if ms.len() == 0 {
        -1
    } else if box_overlap(ms.last(), x, y, tw, th) {
        ms.len() - 1
    } else {
        last_overlap_idx(ms.drop_last(), x, y, tw, th)
    }
}

/// How one qualifying pixel updates the accumulated matches: it merges into
/// the most recently seen overlapping match when it beats it, vanishes when
/// it does not, and starts a new match when nothing overlaps.
pub open spec fn nms_step(
    ms: Seq<Match>,
    x: int,
    y: int,
    v: i128,
    tw: int,
    th: int,
    method: MatchTemplateMethod,
) -> Seq<Match> {
    let i = last_overlap_idx(ms, x, y, tw, th);
    if i < 0 {
        ms.push(Match { location: (x as u32, y as u32), value: v })
    } else if spec_more_match(v as int, ms[i].value as int, method) {
        ms.update(i, Match { location: (x as u32, y as u32), value: v })
    } else {
        ms
    }
}

/// The matches accumulated after the first `k` pixels (row major) of the
/// surface: each pixel beating the threshold goes through [`nms_step`].
pub open spec fn nms_scan(
    s: ImageView,
    tw: int,
    th: int,
    method: MatchTemplateMethod,
    threshold: i128,
    k: int,
) -> Seq<Match>
    decreases k,
{
    if k <= 0 {
        Seq::empty()
    } else {
        let prev = nms_scan(s, tw, th, method, threshold, k - 1);
        if spec_more_match(s.data[k - 1] as int, threshold as int, method) {
            nms_step(prev, (k - 1) % s.width, (k - 1) / s.width, s.data[k - 1], tw, th, method)
        } else {
            prev
        }
    }
}

/// The full accumulation over the whole surface.
pub open spec fn nms_matches(
    s: ImageView,
    tw: int,
    th: int,
    method: MatchTemplateMethod,
    threshold: i128,
) -> Seq<Match> {
    nms_scan(s, tw, th, method, threshold, s.width * s.height)
}

/// The position where `m` is inserted into a better-first list: before the
/// first entry it strictly beats, after every earlier one.
pub open spec fn insert_pos(ms: Seq<Match>, m: Match, method: MatchTemplateMethod) -> int
    decreases ms.len(),
{
    if ms.len() == 0 {
        0
    } else if spec_more_match(m.value as int, ms[0].value as int, method) {
        0
    } else {
        1 + insert_pos(ms.drop_first(), m, method)
    }
}

/// Sorting by repeated insertion, in the order the matches were found:
/// equal values keep their relative order.
pub open spec fn sort_spec(ms: Seq<Match>, method: MatchTemplateMethod) -> Seq<Match>
    decreases ms.len(),
{
    if ms.len() == 0 {
        Seq::empty()
    } else {
        let prev = sort_spec(ms.drop_last(), method);
        prev.insert(insert_pos(prev, ms.last(), method), ms.last())
    }
}

/// A witness position pins down `insert_pos`.
proof fn lemma_insert_pos_at(ms: Seq<Match>, m: Match, method: MatchTemplateMethod, p: int)
    requires
        0 <= p <= ms.len(),
        forall|a: int| 0 <= a < p
            ==> !spec_more_match(m.value as int, (#[trigger] ms[a]).value as int, method),
        p < ms.len() ==> spec_more_match(m.value as int, ms[p].value as int, method),
    ensures
        insert_pos(ms, m, method) == p,
    decreases ms.len(),
{
    if ms.len() > 0 && !spec_more_match(m.value as int, ms[0].value as int, method) {
        assert(p >= 1);
        assert(forall|a: int| 0 <= a < p - 1
            ==> !spec_more_match(m.value as int,
                (#[trigger] ms.drop_first()[a]).value as int, method)) by {
            assert(forall|a: int| 0 <= a < p - 1 ==> ms.drop_first()[a] == ms[a + 1]);
        }
        lemma_insert_pos_at(ms.drop_first(), m, method, p - 1);
    }
}

/// Better matches first: no later entry is strictly better than an earlier
/// one.
pub open spec fn sorted_better_first(ms: Seq<Match>, method: MatchTemplateMethod) -> bool {
    forall|i: int, j: int| 0 <= i <= j < ms.len()
        ==> !spec_more_match(#[trigger] ms[j].value as int, #[trigger] ms[i].value as int, method)
}

/// `last_overlap_idx` is `-1` or a valid index.
pub proof fn lemma_last_overlap_range(ms: Seq<Match>, x: int, y: int, tw: int, th: int)
    ensures
        -1 <= last_overlap_idx(ms, x, y, tw, th) < ms.len(),
    decreases ms.len(),
{
    if ms.len() > 0 && !box_overlap(ms.last(), x, y, tw, th) {
        lemma_last_overlap_range(ms.drop_last(), x, y, tw, th);
    }
}

/// A witness index pins down `last_overlap_idx`.
proof fn lemma_last_overlap_at(ms: Seq<Match>, x: int, y: int, tw: int, th: int, idx: int)
    requires
        0 <= idx < ms.len(),
        box_overlap(ms[idx], x, y, tw, th),
        forall|j: int| idx < j < ms.len() ==> !box_overlap(#[trigger] ms[j], x, y, tw, th),
    ensures
        last_overlap_idx(ms, x, y, tw, th) == idx,
    decreases ms.len(),
{
    if idx == ms.len() - 1 {
    } else {
        assert(!box_overlap(ms.last(), x, y, tw, th));
        assert(ms.drop_last()[idx] == ms[idx]);
        lemma_last_overlap_at(ms.drop_last(), x, y, tw, th, idx);
    }
}

/// When nothing overlaps, `last_overlap_idx` reports none.
proof fn lemma_last_overlap_none(ms: Seq<Match>, x: int, y: int, tw: int, th: int)
    requires
        forall|j: int| 0 <= j < ms.len() ==> !box_overlap(#[trigger] ms[j], x, y, tw, th),
    ensures
        last_overlap_idx(ms, x, y, tw, th) == -1,
    decreases ms.len(),
{
    if ms.len() > 0 {
        lemma_last_overlap_none(ms.drop_last(), x, y, tw, th);
    }
}

/// Scans the surface row major, collecting every value that beats
/// `threshold` and merging it into the most recently seen match within a
/// `tw` by `th` box, then sorts the result better first.
pub fn find_matches(
    input: &Image,
    template_width: u32,
    template_height: u32,
    method: MatchTemplateMethod,
    threshold: i128,
) -> (r: Vec<Match>)
    requires
        input@.wf(),
        1 <= template_width,
        1 <= template_height,
    ensures
        r@ == sort_spec(
            nms_matches(input@, template_width as int, template_height as int, method, threshold),
            method,
        ),
        r@.to_multiset() == nms_matches(
            input@, template_width as int, template_height as int, method, threshold,
        ).to_multiset(),
        sorted_better_first(r@, method),
{
    let w = input.width();
    let h = input.height();
    let ghost tw: int = template_width as int;
    let ghost th: int = template_height as int;
    let mut matches: Vec<Match> = Vec::new();
    let mut y: u32 = 0;
    while y < h
        invariant
            input@.wf(),
            w == input@.width,
            h == input@.height,
            tw == template_width as int,
            th == template_height as int,
            1 <= tw,
            1 <= th,
            y <= h,
            matches@ == nms_scan(input@, tw, th, method, threshold, (y as int) * (w as int)),
        decreases h - y,
    {
        let mut x: u32 = 0;
        while x < w
            invariant
                input@.wf(),
                w == input@.width,
                h == input@.height,
                tw == template_width as int,
                th == template_height as int,
                1 <= tw,
                1 <= th,
                y < h,
                x <= w,
                matches@ == nms_scan(input@, tw, th, method, threshold,
                    (y as int) * (w as int) + x as int),
            decreases w - x,
        {
            let ghost k: int = (y as int) * (w as int) + x as int;
            proof {
                crate::template_matching::lemma_cell(x as int, y as int, w as int);
                lemma_index_in_range(w as int, h as int, x as int, y as int);
            }
            let v = input.get_pixel(x, y);
            if is_a_more_match_than_b(v, threshold, method) {
                let ghost before: Seq<Match> = matches@;
                let mut idx = matches.len();
                let mut found = false;
                while idx > 0 && !found
                    invariant
                        tw == template_width as int,
                        th == template_height as int,
                        idx <= matches.len(),
                        !found ==> forall|j: int| idx <= j < matches@.len()
                            ==> !box_overlap(#[trigger] matches@[j], x as int, y as int, tw, th),
                        found ==> idx < matches@.len()
                            && box_overlap(matches@[idx as int], x as int, y as int, tw, th)
                            && forall|j: int| idx < j < matches@.len()
                                ==> !box_overlap(#[trigger] matches@[j], x as int, y as int, tw, th),
                        matches@ == before,
                    decreases idx + (if found { 0int } else { 1int }),
                {
                    idx -= 1;
                    let m = matches[idx];
                    let dx = if m.location.0 >= x { m.location.0 - x } else { x - m.location.0 };
                    let dy = if m.location.1 >= y { m.location.1 - y } else { y - m.location.1 };
                    proof {
                        assert(m == matches@[idx as int]);
                        assert(abs(m.location.0 as int - x as int) == dx as int);
                        assert(abs(m.location.1 as int - y as int) == dy as int);
                    }
                    if dx < template_width && dy < template_height {
                        found = true;
                        proof {
                            assert(box_overlap(matches@[idx as int], x as int, y as int, tw, th));
                        }
                    } else {
                        proof {
                            assert(!box_overlap(matches@[idx as int], x as int, y as int, tw, th));
                        }
                    }
                }
                if found {
                    proof {
                        lemma_last_overlap_at(matches@, x as int, y as int, tw, th, idx as int);
                    }
                    let m = matches[idx];
                    if is_a_more_match_than_b(v, m.value, method) {
                        let updated = Match { location: (x, y), value: v };
                        matches.set(idx, updated);
                        proof {
                            assert(matches@ =~= nms_step(before, x as int, y as int, v,
                                tw, th, method));
                        }
                    } else {
                        proof {
                            assert(matches@ =~= nms_step(before, x as int, y as int, v,
                                tw, th, method));
                        }
                    }
                } else {
                    proof {
                        lemma_last_overlap_none(matches@, x as int, y as int, tw, th);
                    }
                    matches.push(Match { location: (x, y), value: v });
                    proof {
                        assert(matches@ =~= nms_step(before, x as int, y as int, v,
                            tw, th, method));
                    }
                }
                proof {
                    assert(matches@ == nms_scan(input@, tw, th, method, threshold, k + 1));
                }
            } else {
                proof {
                    assert(matches@ == nms_scan(input@, tw, th, method, threshold, k + 1));
                }
            }
            x += 1;
        }
        proof {
            assert(((y + 1) as int) * (w as int) == (y as int) * (w as int) + w as int)
                by (nonlinear_arith);
        }
        y += 1;
    }
    proof {
        assert((h as int) * (w as int) == (w as int) * (h as int)) by (nonlinear_arith);
    }
    let sorted = sort_matches(matches, method);
    sorted
}

/// Sorts matches better first (per the method's direction) by repeated
/// insertion; equal values keep the order in which they were found.
pub fn sort_matches(input: Vec<Match>, method: MatchTemplateMethod) -> (r: Vec<Match>)
    ensures
        r@ == sort_spec(input@, method),
        r@.to_multiset() == input@.to_multiset(),
        sorted_better_first(r@, method),
{
    broadcast use vstd::seq_lib::group_to_multiset_ensures;
    broadcast use vstd::seq_lib::to_multiset_insert;
    broadcast use vstd::seq_lib::to_multiset_build;

    let n = input.len();
    let mut out: Vec<Match> = Vec::new();
    let mut i: usize = 0;
    proof {
        assert(input@.subrange(0, 0) =~= Seq::<Match>::empty());
        assert(out@.to_multiset() == input@.subrange(0, 0).to_multiset());
    }
    while i < n
        invariant
            n == input@.len(),
            i <= n,
            out@.len() == i,
            out@ == sort_spec(input@.subrange(0, i as int), method),
            out@.to_multiset() == input@.subrange(0, i as int).to_multiset(),
            sorted_better_first(out@, method),
        decreases n - i,
    {
        let m = input[i];
        let mut p: usize = 0;
        while p < out.len() && !is_a_more_match_than_b(m.value, out[p].value, method)
            invariant
                p <= out@.len(),
                forall|a: int| 0 <= a < p
                    ==> !spec_more_match(m.value as int, #[trigger] out@[a].value as int, method),
                p < out@.len() ==> true,
            decreases out@.len() - p,
        {
            p += 1;
        }
        let ghost old_out: Seq<Match> = out@;
        proof {
            lemma_insert_pos_at(old_out, m, method, p as int);
            assert(input@.subrange(0, i + 1).drop_last() =~= input@.subrange(0, i as int));
            assert(input@.subrange(0, i + 1).last() == m);
            assert(sort_spec(input@.subrange(0, i + 1), method)
                == old_out.insert(p as int, m));
        }
        out.insert(p, m);
        proof {
            assert(out@ == old_out.insert(p as int, m));
            vstd::seq_lib::to_multiset_insert(old_out, p as int, m);
            assert(out@.to_multiset() == old_out.to_multiset().insert(m));
            assert(input@.subrange(0, i + 1) =~= input@.subrange(0, i as int).push(m));
            vstd::seq_lib::to_multiset_build(input@.subrange(0, i as int), m);
            assert(input@.subrange(0, i + 1).to_multiset()
                == input@.subrange(0, i as int).to_multiset().insert(m));
            assert forall|a: int, b: int| 0 <= a <= b < out@.len()
                implies !spec_more_match(out@[b].value as int, out@[a].value as int, method) by {
                if a < p && b >= p && b > a {
                    if b == p {
                    } else {
                        assert(out@[b] == old_out[b - 1]);
                    }
                }
            }
        }
        i += 1;
    }
    proof {
        assert(input@.subrange(0, n as int) =~= input@);
    }
    out
}

/// Every accumulated match beats the threshold: steps only admit values
/// that do.
proof fn lemma_nms_scan_pass_threshold(
    s: ImageView,
    tw: int,
    th: int,
    method: MatchTemplateMethod,
    threshold: i128,
    k: int,
)
    ensures
        forall|i: int| 0 <= i < nms_scan(s, tw, th, method, threshold, k).len()
            ==> spec_more_match(
                #[trigger] nms_scan(s, tw, th, method, threshold, k)[i].value as int,
                threshold as int, method),
    decreases k,
{
    if k > 0 {
        lemma_nms_scan_pass_threshold(s, tw, th, method, threshold, k - 1);
        let prev = nms_scan(s, tw, th, method, threshold, k - 1);
        let cur = nms_scan(s, tw, th, method, threshold, k);
        if spec_more_match(s.data[k - 1] as int, threshold as int, method) {
            let x = (k - 1) % s.width;
            let y = (k - 1) / s.width;
            let v = s.data[k - 1];
            let idx = last_overlap_idx(prev, x, y, tw, th);
            lemma_last_overlap_range(prev, x, y, tw, th);
            let nm = Match { location: (x as u32, y as u32), value: v };
            assert(cur == nms_step(prev, x, y, v, tw, th, method));
            if idx < 0 {
                assert(cur == prev.push(nm));
                assert forall|i: int| 0 <= i < cur.len()
                    implies spec_more_match(#[trigger] cur[i].value as int,
                        threshold as int, method) by {
                    if i < prev.len() {
                        assert(cur[i] == prev[i]);
                    } else {
                        assert(cur[i] == nm);
                    }
                }
            } else if spec_more_match(v as int, prev[idx].value as int, method) {
                assert(cur == prev.update(idx, nm));
                assert forall|i: int| 0 <= i < cur.len()
                    implies spec_more_match(#[trigger] cur[i].value as int,
                        threshold as int, method) by {
                    if i != idx {
                        assert(cur[i] == prev[i]);
                    } else {
                        assert(cur[i] == nm);
                    }
                }
            } else {
                assert(cur == prev);
            }
        } else {
            assert(cur == prev);
        }
    }
}

/// Every match returned by the accumulation beats the threshold.
pub proof fn lemma_nms_matches_pass_threshold(
    s: ImageView,
    tw: int,
    th: int,
    method: MatchTemplateMethod,
    threshold: i128,
)
    ensures
        forall|i: int| 0 <= i < nms_matches(s, tw, th, method, threshold).len()
            ==> spec_more_match(
                #[trigger] nms_matches(s, tw, th, method, threshold)[i].value as int,
                threshold as int, method),
{
    lemma_nms_scan_pass_threshold(s, tw, th, method, threshold, s.width * s.height);
}

} // verus!
