use crate::core_model::primitives::{ranges_overlap, Range};
use crate::font::fonts::AppFont;
use crate::util::color::FloatRgbaBits;
use vstd::prelude::*;
use vstd::std_specs::cmp::PartialEqSpecImpl;

verus! {

/// A styled range of text: the font and the color of the clusters in `range`.
/// Two regions are equal when their ranges are.
#[derive(Clone, Copy, Debug)]
pub struct ColorFontRegion {
    pub range: Range,
    pub font: Option<AppFont>,
    pub color: Option<FloatRgbaBits>,
}

impl PartialEq for ColorFontRegion {
    fn eq(&self, other: &Self) -> (same: bool) {
        self.range == other.range
    }
}

impl PartialEqSpecImpl for ColorFontRegion {
    open spec fn obeys_eq_spec() -> bool {
        true
    }

    open spec fn eq_spec(&self, other: &Self) -> bool {
        self.range == other.range
    }
}

impl Eq for ColorFontRegion {
}

impl ColorFontRegion {
    pub fn new(range: Range, font: Option<AppFont>, color: Option<FloatRgbaBits>) -> (region: Self)
        ensures
            region == (ColorFontRegion { range, font, color }),
    {
        ColorFontRegion { range, font, color }
    }

    /// A region that only names a range: used to look regions up.
    pub fn new_key_only(range: Range) -> (region: Self)
        ensures
            region == (ColorFontRegion { range, font: None, color: None }),
    {
        ColorFontRegion { range, font: None, color: None }
    }
}

/// A field of a region, to compare or to change.
#[derive(Clone, Copy, Debug)]
pub enum ColorFontRegionField {
    Range(Range),
    Font(AppFont),
    Color(FloatRgbaBits),
    This,
}

/// Ranges in their order: by start, then by end.
pub open spec fn range_before(a: Range, b: Range) -> bool {
    a.start < b.start || (a.start == b.start && a.end < b.end)
}

/// Regions in strictly increasing order of their ranges: no range occurs twice.
pub open spec fn regions_sorted(s: Seq<ColorFontRegion>) -> bool {
    forall|i: int, j: int| 0 <= i < j < s.len() ==> range_before(#[trigger] s[i].range, #[trigger] s[j].range)
}

/// Whether some region of `s` has the range `k`.
pub open spec fn has_range(s: Set<ColorFontRegion>, k: Range) -> bool {
    exists|x: ColorFontRegion| #[trigger] s.contains(x) && x.range == k
}

/// The region of `s` with range `k`, when there is one.
pub open spec fn region_of(s: Set<ColorFontRegion>, k: Range) -> ColorFontRegion {
    choose|x: ColorFontRegion| #[trigger] s.contains(x) && x.range == k
}

/// `s` with `r` added unless a region with its range is there already (which stays).
pub open spec fn with_absent(s: Set<ColorFontRegion>, r: ColorFontRegion) -> Set<ColorFontRegion> {
    if has_range(s, r.range) {
        s
    } else {
        s.insert(r)
    }
}

/// `s` with `r` in place of any region with its range.
pub open spec fn with_replaced(s: Set<ColorFontRegion>, r: ColorFontRegion) -> Set<ColorFontRegion> {
    s.filter(|x: ColorFontRegion| x.range != r.range).insert(r)
}

/// The regions of `rs` added one by one, each kept only when its range is new.
pub open spec fn gathered(rs: Seq<ColorFontRegion>) -> Set<ColorFontRegion>
    decreases rs.len(),
{
    if rs.len() == 0 {
        Set::empty()
    } else {
        with_absent(gathered(rs.drop_last()), rs.last())
    }
}

/// The regions of `rs` added one by one, each replacing any region with its range.
pub open spec fn collected(rs: Seq<ColorFontRegion>) -> Set<ColorFontRegion>
    decreases rs.len(),
{
    if rs.len() == 0 {
        Set::empty()
    } else {
        with_replaced(collected(rs.drop_last()), rs.last())
    }
}

/// Region `r` after `split_and_separate(range)` made room: cut at the start of
/// `range` where it overlaps it, pushed right by its length where it starts at or
/// after its end, unchanged otherwise.
pub open spec fn separated(r: ColorFontRegion, range: Range) -> ColorFontRegion {
    let n = range.end - range.start;
    if ranges_overlap(range, r.range) {
        ColorFontRegion { range: Range { start: r.range.start, end: range.start }, ..r }
    } else if r.range.start >= range.end {
        ColorFontRegion { range: Range { start: (r.range.start + n) as usize, end: (r.range.end + n) as usize }, ..r }
    } else {
        r
    }
}

/// The part of a region overlapping `range` that `split_and_separate(range)` moves
/// behind it: from the end of `range` to the region's end pushed right by its length.
pub open spec fn right_part(r: ColorFontRegion, range: Range) -> ColorFontRegion {
    ColorFontRegion { range: Range { start: range.end, end: (r.range.end + (range.end - range.start)) as usize }, ..r }
}

/// The right parts of the regions of `rs` that overlap `range`, in order.
pub open spec fn right_parts(rs: Seq<ColorFontRegion>, range: Range) -> Seq<ColorFontRegion>
    decreases rs.len(),
{
    if rs.len() == 0 {
        Seq::empty()
    } else {
        let before = right_parts(rs.drop_last(), range);
        if ranges_overlap(range, rs.last().range) {
            before.push(right_part(rs.last(), range))
        } else {
            before
        }
    }
}

/// Region `r` after `shift_regions_after(idx, magnitude)`.
pub open spec fn shifted_after(r: ColorFontRegion, idx: usize, magnitude: usize) -> ColorFontRegion {
    if r.range.start > idx {
        ColorFontRegion {
            range: Range { start: (r.range.start + magnitude) as usize, end: (r.range.end + magnitude) as usize },
            ..r
        }
    } else {
        r
    }
}

/// `existing` with the font and color of `update` where `update` has them.
pub open spec fn merged(existing: ColorFontRegion, update: ColorFontRegion) -> ColorFontRegion {
    ColorFontRegion {
        range: existing.range,
        font: if update.font is Some { update.font } else { existing.font },
        color: if update.color is Some { update.color } else { existing.color },
    }
}

/// The regions of `s` in the order of their ranges.
pub open spec fn sorted_regions_of(s: Set<ColorFontRegion>) -> Seq<ColorFontRegion> {
    choose|v: Seq<ColorFontRegion>| regions_sorted(v) && v.to_set() == s
}

/// The first region of a sorted sequence comes before all the others.
proof fn lemma_sorted_rest(a: Seq<ColorFontRegion>, x: ColorFontRegion)
    requires
        regions_sorted(a),
        a.len() > 0,
        a.drop_first().to_set().contains(x),
    ensures
        range_before(a[0].range, x.range),
        a.to_set().contains(x),
{
    let k = choose|k: int| 0 <= k < a.drop_first().len() && a.drop_first()[k] == x;
    assert(a[k + 1] == x);
}

/// A set of regions with distinct ranges is held by one sorted sequence only.
pub proof fn lemma_sorted_unique(a: Seq<ColorFontRegion>, b: Seq<ColorFontRegion>)
    requires
        regions_sorted(a),
        regions_sorted(b),
        a.to_set() == b.to_set(),
    ensures
        a == b,
    decreases a.len(),
{
    if a.len() == 0 {
        if b.len() > 0 {
            assert(b.to_set().contains(b[0]));
        }
        assert(a =~= b);
    } else {
        if b.len() == 0 {
            assert(a.to_set().contains(a[0]));
        }
        assert(a.to_set().contains(a[0]));
        assert(b.to_set().contains(b[0]));
        let j = choose|j: int| 0 <= j < b.len() && b[j] == a[0];
        let i = choose|i: int| 0 <= i < a.len() && a[i] == b[0];
        if j > 0 {
            assert(range_before(b[0].range, b[j].range));
            if i > 0 {
                assert(range_before(a[0].range, a[i].range));
            }
        }
        assert(a[0] == b[0]);
        let a1 = a.drop_first();
        let b1 = b.drop_first();
        assert forall|x: ColorFontRegion| a1.to_set().contains(x) implies b1.to_set().contains(x) by {
            lemma_sorted_rest(a, x);
            let m = choose|m: int| 0 <= m < b.len() && b[m] == x;
            assert(m != 0);
            assert(b1[m - 1] == x);
        }
        assert forall|x: ColorFontRegion| b1.to_set().contains(x) implies a1.to_set().contains(x) by {
            lemma_sorted_rest(b, x);
            let m = choose|m: int| 0 <= m < a.len() && a[m] == x;
            assert(m != 0);
            assert(a1[m - 1] == x);
        }
        assert(a1.to_set() =~= b1.to_set());
        lemma_sorted_unique(a1, b1);
        assert(a =~= b) by {
            assert forall|k: int| 0 <= k < a.len() implies a[k] == b[k] by {
                if k > 0 {
                    assert(a[k] == a1[k - 1]);
                    assert(b[k] == b1[k - 1]);
                }
            }
        }
    }
}

/// A sorted sequence is the sorted sequence of its regions.
pub proof fn lemma_sorted_regions_of(v: Seq<ColorFontRegion>)
    requires
        regions_sorted(v),
    ensures
        sorted_regions_of(v.to_set()) == v,
{
    let w = sorted_regions_of(v.to_set());
    assert(regions_sorted(v) && v.to_set() == v.to_set());
    lemma_sorted_unique(w, v);
}

/// After a region is submitted, looking its range up gives that region back: it is
/// there, and it is the only region with its range.
pub proof fn law_submitted_region_is_found(before: Set<ColorFontRegion>, r: ColorFontRegion)
    ensures
        with_replaced(before, r).contains(r),
        has_range(with_replaced(before, r), r.range),
        forall|x: ColorFontRegion| #[trigger] with_replaced(before, r).contains(x) && x.range == r.range ==> x == r,
{
    assert(with_replaced(before, r).contains(r));
}

/// After a range is removed, no region has it.
pub proof fn law_removed_range_is_gone(before: Set<ColorFontRegion>, k: Range)
    ensures
        !has_range(before.filter(|x: ColorFontRegion| x.range != k), k),
{
}

/// What `set_or_insert(update)` makes of the regions `s` that have a region with the
/// update's range: that range's region takes the update's font and color where the
/// update has them and keeps its own where it has none; the other regions stay.
pub proof fn law_set_or_insert_keeps_what_the_update_leaves(s: Set<ColorFontRegion>, update: ColorFontRegion)
    requires
        has_range(s, update.range),
    ensures
        ({
            let old_region = region_of(s, update.range);
            let after = with_replaced(s, merged(old_region, update));
            &&& has_range(after, update.range)
            &&& forall|x: ColorFontRegion| #[trigger] after.contains(x) && x.range == update.range ==> {
                &&& x.font == if update.font is Some { update.font } else { old_region.font }
                &&& x.color == if update.color is Some { update.color } else { old_region.color }
            }
            &&& forall|x: ColorFontRegion| x.range != update.range ==> (#[trigger] after.contains(x) <==> s.contains(x))
        }),
{
    let old_region = region_of(s, update.range);
    let m = merged(old_region, update);
    assert(m.range == update.range);
    assert(with_replaced(s, m).contains(m));
}

/// An update with neither a font nor a color leaves regions with distinct ranges as
/// they are: `set_or_insert` never drops what a region has.
pub proof fn law_empty_update_changes_nothing(s: Set<ColorFontRegion>, update: ColorFontRegion)
    requires
        has_range(s, update.range),
        update.font is None,
        update.color is None,
        forall|x: ColorFontRegion, y: ColorFontRegion| #[trigger] s.contains(x) && #[trigger] s.contains(y) && x.range == y.range ==> x == y,
    ensures
        with_replaced(s, merged(region_of(s, update.range), update)) == s,
{
    let old_region = region_of(s, update.range);
    let m = merged(old_region, update);
    assert(m == old_region);
    assert(with_replaced(s, m) =~= s);
}

/// Every region of `gathered(rs)` is one of `rs`.
proof fn lemma_gathered_from(rs: Seq<ColorFontRegion>)
    ensures
        forall|x: ColorFontRegion| #[trigger] gathered(rs).contains(x) ==> rs.contains(x),
    decreases rs.len(),
{
    if rs.len() > 0 {
        lemma_gathered_from(rs.drop_last());
        assert forall|x: ColorFontRegion| #[trigger] gathered(rs).contains(x) implies rs.contains(x) by {
            if gathered(rs.drop_last()).contains(x) {
                let j = choose|j: int| 0 <= j < rs.drop_last().len() && rs.drop_last()[j] == x;
                assert(rs[j] == x);
            } else {
                assert(rs[rs.len() - 1] == x);
            }
        }
    }
}

/// Every right part of the regions `rs` is the right part of one of them.
proof fn lemma_right_parts_from(rs: Seq<ColorFontRegion>, range: Range)
    ensures
        forall|n: int| 0 <= n < right_parts(rs, range).len() ==> exists|i: int|
            0 <= i < rs.len() && #[trigger] right_parts(rs, range)[n] == right_part(rs[i], range),
    decreases rs.len(),
{
    if rs.len() > 0 {
        lemma_right_parts_from(rs.drop_last(), range);
        let before = right_parts(rs.drop_last(), range);
        assert forall|n: int| 0 <= n < right_parts(rs, range).len() implies exists|i: int|
            0 <= i < rs.len() && #[trigger] right_parts(rs, range)[n] == right_part(rs[i], range) by {
            if n < before.len() {
                let i = choose|i: int| 0 <= i < rs.drop_last().len() && before[n] == right_part(rs.drop_last()[i], range);
                assert(rs[i] == rs.drop_last()[i]);
                assert(right_parts(rs, range)[n] == before[n]);
            } else {
                assert(right_parts(rs, range)[n] == right_part(rs[rs.len() - 1], range));
            }
        }
    }
}

/// `split_and_separate` moves and cuts regions but never restyles them: every region
/// it leaves has the font and the color of one of the regions it was given.
pub proof fn law_split_keeps_styles(rs: Seq<ColorFontRegion>, range: Range)
    ensures
        ({
            let after = gathered(rs.map_values(|r: ColorFontRegion| separated(r, range)) + right_parts(rs, range));
            forall|x: ColorFontRegion|
                #[trigger] after.contains(x) ==> exists|i: int| 0 <= i < rs.len() && x.font == rs[i].font && x.color == rs[i].color
        }),
{
    let left = rs.map_values(|r: ColorFontRegion| separated(r, range));
    let all = left + right_parts(rs, range);
    lemma_gathered_from(all);
    lemma_right_parts_from(rs, range);
    assert forall|x: ColorFontRegion| #[trigger] gathered(all).contains(x) implies exists|i: int|
        0 <= i < rs.len() && x.font == rs[i].font && x.color == rs[i].color by {
        let k = choose|k: int| 0 <= k < all.len() && all[k] == x;
        if k < left.len() {
            assert(all[k] == separated(rs[k], range));
        } else {
            let n = k - left.len();
            assert(all[k] == right_parts(rs, range)[n]);
            let i = choose|i: int| 0 <= i < rs.len() && right_parts(rs, range)[n] == right_part(rs[i], range);
            assert(x.font == rs[i].font && x.color == rs[i].color);
        }
    }
}

/// Each region that `split_and_separate` cuts at the start of `range` has its right
/// part moved behind the range: from the range's end on, as long as the cut-off part
/// was plus the range's length, in the region's own font and color.
pub proof fn law_split_moves_right_parts(r: ColorFontRegion, range: Range)
    requires
        range.start <= range.end,
        ranges_overlap(range, r.range),
        r.range.end + (range.end - range.start) <= usize::MAX,
    ensures
        right_part(r, range).range.start == range.end,
        right_part(r, range).range.end - right_part(r, range).range.start == r.range.end - range.start,
        right_part(r, range).font == r.font,
        right_part(r, range).color == r.color,
        separated(r, range).range == (Range { start: r.range.start, end: range.start }),
        separated(r, range).font == r.font,
        separated(r, range).color == r.color,
{
}

/// `shift_regions_after` moves regions but never restyles them: every region it leaves
/// has the font and the color of one of the regions it was given, and a region that
/// starts at or before `idx` keeps its range.
pub proof fn law_shift_keeps_styles(rs: Seq<ColorFontRegion>, idx: usize, magnitude: usize)
    ensures
        ({
            let after = gathered(rs.map_values(|r: ColorFontRegion| shifted_after(r, idx, magnitude)));
            forall|x: ColorFontRegion|
                #[trigger] after.contains(x) ==> exists|i: int| 0 <= i < rs.len() && x.font == rs[i].font && x.color == rs[i].color
        }),
        forall|r: ColorFontRegion| r.range.start <= idx ==> #[trigger] shifted_after(r, idx, magnitude) == r,
{
    let all = rs.map_values(|r: ColorFontRegion| shifted_after(r, idx, magnitude));
    lemma_gathered_from(all);
    assert forall|x: ColorFontRegion| #[trigger] gathered(all).contains(x) implies exists|i: int|
        0 <= i < rs.len() && x.font == rs[i].font && x.color == rs[i].color by {
        let k = choose|k: int| 0 <= k < all.len() && all[k] == x;
        assert(all[k] == shifted_after(rs[k], idx, magnitude));
    }
}

fn range_before_exec(a: Range, b: Range) -> (before: bool)
    ensures
        before == range_before(a, b),
{
    a.start < b.start || (a.start == b.start && a.end < b.end)
}

/// The first position of sorted `v` whose range does not come before `r`'s.
fn seek(v: &Vec<ColorFontRegion>, k: Range) -> (p: usize)
    requires
        regions_sorted(v@),
    ensures
        p <= v.len(),
        forall|i: int| 0 <= i < p ==> range_before(#[trigger] v@[i].range, k),
        forall|i: int| p <= i < v.len() ==> !range_before(#[trigger] v@[i].range, k),
        p < v.len() && v@[p as int].range == k <==> has_range(v@.to_set(), k),
{
    let mut p: usize = 0;
    while p < v.len() && range_before_exec(v[p].range, k)
        invariant
            p <= v.len(),
            regions_sorted(v@),
            forall|i: int| 0 <= i < p ==> range_before(#[trigger] v@[i].range, k),
        decreases v.len() - p,
    {
        p = p + 1;
    }
    proof {
        if p < v.len() {
            assert forall|i: int| p <= i < v.len() implies !range_before(#[trigger] v@[i].range, k) by {
                if i > p {
                    assert(range_before(v@[p as int].range, v@[i].range));
                }
            }
        }
        if has_range(v@.to_set(), k) {
            let x = choose|x: ColorFontRegion| #[trigger] v@.to_set().contains(x) && x.range == k;
            assert(v@.contains(x));
            let i = choose|i: int| 0 <= i < v@.len() && v@[i] == x;
            if i < p {
                assert(range_before(v@[i].range, k));
            }
            if i > p {
                assert(range_before(v@[p as int].range, v@[i].range));
            }
        }
        if p < v.len() && v@[p as int].range == k {
            assert(v@.to_set().contains(v@[p as int]));
        }
    }
    p
}

/// Adds `r` to sorted `v` unless a region with its range is there already.
fn insert_absent(v: &mut Vec<ColorFontRegion>, r: ColorFontRegion)
    requires
        regions_sorted(old(v)@),
    ensures
        regions_sorted(final(v)@),
        final(v)@.to_set() == with_absent(old(v)@.to_set(), r),
{
    let p = seek(v, r.range);
    if p < v.len() && v[p].range == r.range {
        return;
    }
    let ghost before = v@;
    v.insert(p, r);
    proof {
        assert forall|i: int, j: int| 0 <= i < j < v@.len() implies range_before(#[trigger] v@[i].range, #[trigger] v@[j].range) by {
            if j < p {
                assert(v@[i] == before[i] && v@[j] == before[j]);
            } else if j == p {
                assert(v@[i] == before[i]);
            } else if i == p {
                assert(v@[j] == before[j - 1]);
                assert(!range_before(before[j - 1].range, r.range));
                assert(before[j - 1].range != r.range);
            } else if i < p {
                assert(v@[i] == before[i] && v@[j] == before[j - 1]);
                assert(range_before(before[i].range, r.range));
                assert(!range_before(before[j - 1].range, r.range));
            } else {
                assert(v@[i] == before[i - 1] && v@[j] == before[j - 1]);
            }
        }
        assert forall|x: ColorFontRegion| v@.to_set().contains(x) <==> before.to_set().insert(r).contains(x) by {
            if v@.contains(x) {
                let i = choose|i: int| 0 <= i < v@.len() && v@[i] == x;
                if i < p {
                    assert(before[i] == x);
                } else if i > p {
                    assert(before[i - 1] == x);
                }
            }
            if before.contains(x) {
                let i = choose|i: int| 0 <= i < before.len() && before[i] == x;
                if i < p {
                    assert(v@[i] == x);
                } else {
                    assert(v@[i + 1] == x);
                }
            }
            if x == r {
                assert(v@[p as int] == r);
            }
        }
        assert(v@.to_set() =~= before.to_set().insert(r));
    }
}

/// Puts `r` into sorted `v`, in place of any region with its range.
fn insert_replacing(v: &mut Vec<ColorFontRegion>, r: ColorFontRegion)
    requires
        regions_sorted(old(v)@),
    ensures
        regions_sorted(final(v)@),
        final(v)@.to_set() == with_replaced(old(v)@.to_set(), r),
{
    let p = seek(v, r.range);
    let ghost before = v@;
    if p < v.len() && v[p].range == r.range {
        v.set(p, r);
        proof {
            assert forall|i: int, j: int| 0 <= i < j < v@.len() implies range_before(#[trigger] v@[i].range, #[trigger] v@[j].range) by {
                assert(v@[i].range == before[i].range);
                assert(v@[j].range == before[j].range);
            }
            assert forall|x: ColorFontRegion| v@.to_set().contains(x) <==> with_replaced(before.to_set(), r).contains(x) by {
                if v@.contains(x) {
                    let i = choose|i: int| 0 <= i < v@.len() && v@[i] == x;
                    if i != p {
                        assert(before[i] == x);
                        assert(before[i].range != before[p as int].range) by {
                            if i < p {
                                assert(range_before(before[i].range, before[p as int].range));
                            } else {
                                assert(range_before(before[p as int].range, before[i].range));
                            }
                        }
                    }
                }
                if before.contains(x) && x.range != r.range {
                    let i = choose|i: int| 0 <= i < before.len() && before[i] == x;
                    assert(v@[i] == x);
                }
                if x == r {
                    assert(v@[p as int] == r);
                }
            }
            assert(v@.to_set() =~= with_replaced(before.to_set(), r));
        }
    } else {
        v.insert(p, r);
        proof {
            assert forall|i: int, j: int| 0 <= i < j < v@.len() implies range_before(#[trigger] v@[i].range, #[trigger] v@[j].range) by {
                if j < p {
                    assert(v@[i] == before[i] && v@[j] == before[j]);
                } else if j == p {
                    assert(v@[i] == before[i]);
                } else if i == p {
                    assert(v@[j] == before[j - 1]);
                    assert(!range_before(before[j - 1].range, r.range));
                    assert(before[j - 1].range != r.range);
                } else if i < p {
                    assert(v@[i] == before[i] && v@[j] == before[j - 1]);
                    assert(range_before(before[i].range, r.range));
                    assert(!range_before(before[j - 1].range, r.range));
                } else {
                    assert(v@[i] == before[i - 1] && v@[j] == before[j - 1]);
                }
            }
            assert forall|x: ColorFontRegion| v@.to_set().contains(x) <==> with_replaced(before.to_set(), r).contains(x) by {
                if v@.contains(x) {
                    let i = choose|i: int| 0 <= i < v@.len() && v@[i] == x;
                    if i < p {
                        assert(before[i] == x);
                        assert(range_before(x.range, r.range));
                    } else if i > p {
                        assert(before[i - 1] == x);
                        assert(!range_before(x.range, r.range));
                        assert(x.range != r.range);
                    }
                }
                if before.contains(x) && x.range != r.range {
                    let i = choose|i: int| 0 <= i < before.len() && before[i] == x;
                    if i < p {
                        assert(v@[i] == x);
                    } else {
                        assert(v@[i + 1] == x);
                    }
                }
                if x == r {
                    assert(v@[p as int] == r);
                }
            }
            assert(v@.to_set() =~= with_replaced(before.to_set(), r));
        }
    }
}

/// Removes from sorted `v` the region with range `k`, if there is one.
fn remove_range_from(v: &mut Vec<ColorFontRegion>, k: Range) -> (removed: bool)
    requires
        regions_sorted(old(v)@),
    ensures
        regions_sorted(final(v)@),
        removed == has_range(old(v)@.to_set(), k),
        final(v)@.to_set() == old(v)@.to_set().filter(|x: ColorFontRegion| x.range != k),
{
    let p = seek(v, k);
    let ghost before = v@;
    if p < v.len() && v[p].range == k {
        v.remove(p);
        proof {
            assert forall|i: int, j: int| 0 <= i < j < v@.len() implies range_before(#[trigger] v@[i].range, #[trigger] v@[j].range) by {
                if j < p {
                    assert(v@[i] == before[i] && v@[j] == before[j]);
                } else if i < p {
                    assert(v@[i] == before[i] && v@[j] == before[j + 1]);
                } else {
                    assert(v@[i] == before[i + 1] && v@[j] == before[j + 1]);
                }
            }
            assert forall|x: ColorFontRegion| v@.to_set().contains(x) <==> before.to_set().filter(|y: ColorFontRegion| y.range != k).contains(x) by {
                if v@.contains(x) {
                    let i = choose|i: int| 0 <= i < v@.len() && v@[i] == x;
                    if i < p {
                        assert(before[i] == x);
                        assert(range_before(x.range, k));
                    } else {
                        assert(before[i + 1] == x);
                        assert(range_before(before[p as int].range, before[i + 1].range));
                    }
                }
                if before.contains(x) && x.range != k {
                    let i = choose|i: int| 0 <= i < before.len() && before[i] == x;
                    if i < p {
                        assert(v@[i] == x);
                    } else {
                        assert(i != p);
                        assert(v@[i - 1] == x);
                    }
                }
            }
            assert(v@.to_set() =~= before.to_set().filter(|x: ColorFontRegion| x.range != k));
        }
        true
    } else {
        proof {
            assert forall|x: ColorFontRegion| v@.to_set().contains(x) <==> before.to_set().filter(|y: ColorFontRegion| y.range != k).contains(x) by {
                if v@.contains(x) {
                    assert(x.range != k);
                }
            }
            assert(v@.to_set() =~= before.to_set().filter(|x: ColorFontRegion| x.range != k));
        }
        false
    }
}

/// Regions of text with their fonts and colors, at most one per range, kept in the
/// order of their ranges.
#[derive(Clone, Debug)]
pub struct ColorFontRegions {
    pub regions: Vec<ColorFontRegion>,
}

impl ColorFontRegions {
    /// The regions are in strictly increasing order of their ranges.
    pub open spec fn wf(&self) -> bool {
        regions_sorted(self.regions@)
    }

    /// The regions, as a set.
    pub open spec fn region_set(&self) -> Set<ColorFontRegion> {
        self.regions@.to_set()
    }

    /// The regions of `source`, a later one taking the place of an earlier one with
    /// the same range.
    pub fn new_from(source: Vec<ColorFontRegion>) -> (regions: Self)
        ensures
            regions.wf(),
            regions.region_set() == collected(source@),
    {
        let mut v: Vec<ColorFontRegion> = Vec::new();
        let mut i: usize = 0;
        assert(source@.take(0) =~= Seq::<ColorFontRegion>::empty());
        assert(v@.to_set() =~= Set::<ColorFontRegion>::empty());
        while i < source.len()
            invariant
                i <= source.len(),
                regions_sorted(v@),
                v@.to_set() == collected(source@.take(i as int)),
            decreases source.len() - i,
        {
            assert(source@.take(i + 1).drop_last() =~= source@.take(i as int));
            insert_replacing(&mut v, source[i]);
            i = i + 1;
        }
        assert(source@.take(source.len() as int) =~= source@);
        ColorFontRegions { regions: v }
    }

    /// No regions.
    pub fn new_empty() -> (regions: Self)
        ensures
            regions.wf(),
            regions.regions@.len() == 0,
    {
        ColorFontRegions { regions: Vec::new() }
    }

    /// The regions, in the order of their ranges.
    pub fn all_regions(&self) -> (all: Vec<&ColorFontRegion>)
        ensures
            all@.len() == self.regions@.len(),
            forall|i: int| 0 <= i < all@.len() ==> *all@[i] == self.regions@[i],
    {
        let mut all: Vec<&ColorFontRegion> = Vec::new();
        let mut i: usize = 0;
        while i < self.regions.len()
            invariant
                i <= self.regions.len(),
                all@.len() == i,
                forall|j: int| 0 <= j < i ==> *all@[j] == self.regions@[j],
            decreases self.regions.len() - i,
        {
            all.push(&self.regions[i]);
            i = i + 1;
        }
        all
    }

    /// The number of regions.
    pub fn num_regions(&self) -> (n: usize)
        ensures
            n == self.regions@.len(),
    {
        self.regions.len()
    }

    /// Puts `region` in, in place of any region with its range.
    pub fn submit_region(&mut self, region: ColorFontRegion)
        requires
            old(self).wf(),
            region.range.start <= region.range.end,
        ensures
            final(self).wf(),
            final(self).region_set() == with_replaced(old(self).region_set(), region),
    {
        insert_replacing(&mut self.regions, region);
    }

    /// Makes room for `range`: a region that overlaps it is cut at its start and its
    /// part from there on moves behind `range`, stretched by the length of `range`;
    /// regions that start at or after the end of `range` move right by that length.
    /// The regions are then gathered anew, the cut and moved ones first, each new
    /// range keeping the first region that comes to it.
    pub fn split_and_separate(&mut self, range: Range)
        requires
            old(self).wf(),
            range.start <= range.end,
            forall|i: int| 0 <= i < old(self).regions@.len() ==> ({
                let r = #[trigger] old(self).regions@[i];
                &&& ranges_overlap(range, r.range) ==> r.range.end + (range.end - range.start) <= usize::MAX
                &&& r.range.start >= range.end ==> r.range.end + (range.end - range.start) <= usize::MAX
                    && r.range.start + (range.end - range.start) <= usize::MAX
            }),
        ensures
            final(self).wf(),
            final(self).region_set() == gathered(
                old(self).regions@.map_values(|r: ColorFontRegion| separated(r, range)) + right_parts(
                    old(self).regions@,
                    range,
                ),
            ),
    {
        let ghost old_regions = self.regions@;
        let n = range.magnitude();
        let mut copies: Vec<ColorFontRegion> = Vec::new();
        let mut rights: Vec<ColorFontRegion> = Vec::new();
        let mut i: usize = 0;
        assert(old_regions.take(0) =~= Seq::<ColorFontRegion>::empty());
        while i < self.regions.len()
            invariant
                i <= self.regions.len(),
                self.regions@ == old_regions,
                n == range.end - range.start,
                forall|j: int| 0 <= j < old_regions.len() ==> ({
                    let r = #[trigger] old_regions[j];
                    &&& ranges_overlap(range, r.range) ==> r.range.end + n <= usize::MAX
                    &&& r.range.start >= range.end ==> r.range.end + n <= usize::MAX && r.range.start + n <= usize::MAX
                }),
                copies@ == old_regions.take(i as int).map_values(|r: ColorFontRegion| separated(r, range)),
                rights@ == right_parts(old_regions.take(i as int), range),
            decreases self.regions.len() - i,
        {
            let mut region = self.regions[i];
            assert(old_regions.take(i + 1).drop_last() =~= old_regions.take(i as int));
            if range.overlaps(&region.range) {
                let mut right = region;
                right.range.start = range.end;
                right.range.end = right.range.end + n;
                rights.push(right);
                region.range.end = range.start;
            }
            if region.range.start >= range.end {
                region.range.push_right(n);
            }
            copies.push(region);
            assert(copies@ =~= old_regions.take(i + 1).map_values(|r: ColorFontRegion| separated(r, range)));
            i = i + 1;
        }
        assert(old_regions.take(old_regions.len() as int) =~= old_regions);
        let mut offered = copies;
        offered.append(&mut rights);
        self.regions = gather(&offered);
    }

    /// Moves every region that starts after `idx` right by `magnitude`; the regions are
    /// then gathered anew, each range keeping the first region that comes to it.
    pub fn shift_regions_after(&mut self, idx: usize, magnitude: usize)
        requires
            forall|i: int| 0 <= i < old(self).regions@.len() && (#[trigger] old(self).regions@[i]).range.start > idx
                ==> old(self).regions@[i].range.start + magnitude <= usize::MAX
                && old(self).regions@[i].range.end + magnitude <= usize::MAX,
        ensures
            final(self).wf(),
            final(self).region_set() == gathered(
                old(self).regions@.map_values(|r: ColorFontRegion| shifted_after(r, idx, magnitude)),
            ),
    {
        let ghost old_regions = self.regions@;
        let mut copies: Vec<ColorFontRegion> = Vec::new();
        let mut i: usize = 0;
        while i < self.regions.len()
            invariant
                i <= self.regions.len(),
                self.regions@ == old_regions,
                forall|j: int| 0 <= j < old_regions.len() && (#[trigger] old_regions[j]).range.start > idx
                    ==> old_regions[j].range.start + magnitude <= usize::MAX
                    && old_regions[j].range.end + magnitude <= usize::MAX,
                copies@ == old_regions.take(i as int).map_values(|r: ColorFontRegion| shifted_after(r, idx, magnitude)),
            decreases self.regions.len() - i,
        {
            let mut region = self.regions[i];
            if region.range.start > idx {
                region.range.start = region.range.start + magnitude;
                region.range.end = region.range.end + magnitude;
            }
            copies.push(region);
            assert(copies@ =~= old_regions.take(i + 1).map_values(|r: ColorFontRegion| shifted_after(r, idx, magnitude)));
            i = i + 1;
        }
        assert(old_regions.take(old_regions.len() as int) =~= old_regions);
        self.regions = gather(&copies);
    }

    /// Takes the regions of `regions` in place of its own.
    pub fn replace_regions(&mut self, regions: &Self)
        requires
            regions.wf(),
        ensures
            final(self).wf(),
            final(self).regions@ == regions.regions@,
    {
        let mut v: Vec<ColorFontRegion> = Vec::new();
        let mut i: usize = 0;
        while i < regions.regions.len()
            invariant
                i <= regions.regions.len(),
                v@ == regions.regions@.take(i as int),
            decreases regions.regions.len() - i,
        {
            v.push(regions.regions[i]);
            i = i + 1;
            assert(v@ =~= regions.regions@.take(i as int));
        }
        assert(regions.regions@.take(regions.regions@.len() as int) =~= regions.regions@);
        self.regions = v;
    }

    /// Where a region with the range of `region` exists, takes the font and the color
    /// of `region` into it, where `region` has them; otherwise adds `region`.
    pub fn set_or_insert(&mut self, region: &ColorFontRegion)
        requires
            old(self).wf(),
            has_range(old(self).region_set(), region.range) ==> region.range.start <= region.range.end,
        ensures
            final(self).wf(),
            final(self).region_set() == if has_range(old(self).region_set(), region.range) {
                with_replaced(old(self).region_set(), merged(region_of(old(self).region_set(), region.range), *region))
            } else {
                old(self).region_set().insert(*region)
            },
    {
        let p = seek(&self.regions, region.range);
        if p < self.regions.len() && self.regions[p].range == region.range {
            let mut new_region = self.regions[p];
            proof {
                let s = self.regions@.to_set();
                let x = region_of(s, region.range);
                assert(s.contains(self.regions@[p as int]));
                assert(s.contains(x) && x.range == region.range);
                let i = choose|i: int| 0 <= i < self.regions@.len() && self.regions@[i] == x;
                if i < p {
                    assert(range_before(self.regions@[i].range, self.regions@[p as int].range));
                } else if i > p {
                    assert(range_before(self.regions@[p as int].range, self.regions@[i].range));
                }
            }
            if region.color.is_some() {
                new_region.color = region.color;
            }
            if region.font.is_some() {
                new_region.font = region.font;
            }
            self.submit_region(new_region);
        } else {
            insert_absent(&mut self.regions, *region);
        }
    }

    /// The region with range `range`, if there is one.
    pub fn get(&self, range: Range) -> (found: Option<&ColorFontRegion>)
        requires
            self.wf(),
        ensures
            match found {
                Some(r) => self.region_set().contains(*r) && r.range == range,
                None => !has_range(self.region_set(), range),
            },
    {
        let p = seek(&self.regions, range);
        if p < self.regions.len() && self.regions[p].range == range {
            proof {
                assert(self.regions@.to_set().contains(self.regions@[p as int]));
            }
            Some(&self.regions[p])
        } else {
            None
        }
    }

    /// The region with range `range`, which must exist.
    pub fn hard_get(&self, range: Range) -> (found: ColorFontRegion)
        requires
            self.wf(),
            has_range(self.region_set(), range),
        ensures
            self.region_set().contains(found),
            found.range == range,
    {
        let p = seek(&self.regions, range);
        proof {
            assert(self.regions@.to_set().contains(self.regions@[p as int]));
        }
        self.regions[p]
    }

    /// Removes the region with range `range`; whether there was one.
    pub fn remove_range(&mut self, range: Range) -> (removed: bool)
        requires
            old(self).wf(),
        ensures
            final(self).wf(),
            removed == has_range(old(self).region_set(), range),
            final(self).region_set() == old(self).region_set().filter(|x: ColorFontRegion| x.range != range),
    {
        remove_range_from(&mut self.regions, range)
    }

    /// Removes the region with the range of `region`; whether there was one.
    pub fn remove(&mut self, region: &ColorFontRegion) -> (removed: bool)
        requires
            old(self).wf(),
        ensures
            final(self).wf(),
            removed == has_range(old(self).region_set(), region.range),
            final(self).region_set() == old(self).region_set().filter(|x: ColorFontRegion| x.range != region.range),
    {
        remove_range_from(&mut self.regions, region.range)
    }
}

/// The regions of `offered`, added in order, each kept only when its range is new.
fn gather(offered: &Vec<ColorFontRegion>) -> (v: Vec<ColorFontRegion>)
    ensures
        regions_sorted(v@),
        v@.to_set() == gathered(offered@),
{
    let mut v: Vec<ColorFontRegion> = Vec::new();
    let mut i: usize = 0;
    assert(offered@.take(0) =~= Seq::<ColorFontRegion>::empty());
    assert(v@.to_set() =~= Set::<ColorFontRegion>::empty());
    while i < offered.len()
        invariant
            i <= offered.len(),
            regions_sorted(v@),
            v@.to_set() == gathered(offered@.take(i as int)),
        decreases offered.len() - i,
    {
        assert(offered@.take(i + 1).drop_last() =~= offered@.take(i as int));
        insert_absent(&mut v, offered[i]);
        i = i + 1;
    }
    assert(offered@.take(offered.len() as int) =~= offered@);
    v
}

impl Default for ColorFontRegions {
    fn default() -> (regions: Self)
        ensures
            regions.wf(),
            regions.regions@.len() == 0,
    {
        ColorFontRegions::new_empty()
    }
}

} // verus!
