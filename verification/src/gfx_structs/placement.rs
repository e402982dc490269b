use crate::core_model::primitives::Range;
use crate::core_model::regions::{
    gathered, lemma_sorted_regions_of, shifted_after, sorted_regions_of, with_replaced,
    ColorFontRegion, ColorFontRegions,
};
use crate::gfx_structs::model::{comp_len, ComponentView, GlyphMatrix, LineView};
use crate::util::color::float_bits_of;
use crate::util::grapheme_chad::{
    count_grapheme_clusters, count_newline_bytes, count_number_lines, find_nth_line_grapheme_range,
    grapheme_clusters, grapheme_start, insert_new_lines, insert_spaces, lemma_nth_line_range_ordered,
    nth_line_range, push_spaces, replace_fits, replace_report, replaced_until_newline,
    try_replace_graphemes_until_newline,
};
use crate::util::strings::{byte_len, repeated};
use vstd::prelude::*;

verus! {

/// Whether every region that starts after `idx` can move right by `by` within `usize`.
pub open spec fn shift_fits(regs: Seq<ColorFontRegion>, idx: int, by: int) -> bool {
    forall|i: int|
        0 <= i < regs.len() && (#[trigger] regs[i]).range.start > idx ==> regs[i].range.start + by
            <= usize::MAX && regs[i].range.end + by <= usize::MAX
}

/// The region that `place_in` records for component `c` written from cluster `head`.
pub open spec fn component_region(head: int, c: ComponentView) -> ColorFontRegion {
    ColorFontRegion {
        range: Range { start: head as usize, end: (head + comp_len(c)) as usize },
        font: Some(c.1),
        color: Some(float_bits_of(c.2)),
    }
}

/// Component `c` written into the text from cluster `head` on, the regions after it
/// moved right by what the line grew, and the region of `c` recorded; `None` where
/// `place_in` stops.
pub open spec fn place_component(
    text: Seq<char>,
    regs: Seq<ColorFontRegion>,
    head: int,
    c: ComponentView,
) -> Option<(Seq<char>, Seq<ColorFontRegion>)> {
    let report = replace_report(text, head, c.0);
    let shift_fails = match report {
        Some((a, b)) => !shift_fits(regs, a, b),
        None => false,
    };
    if !replace_fits(text, head, c.0) || head + comp_len(c) > usize::MAX || shift_fails {
        None
    } else {
        let shifted = match report {
            Some((a, b)) => sorted_regions_of(
                gathered(regs.map_values(|r: ColorFontRegion| shifted_after(r, a as usize, b as usize))),
            ),
            None => regs,
        };
        Some(
            (
                replaced_until_newline(text, head, c.0),
                sorted_regions_of(with_replaced(shifted.to_set(), component_region(head, c))),
            ),
        )
    }
}

/// The components `comps` written one after the other from cluster `head` on.
pub open spec fn place_components(
    text: Seq<char>,
    regs: Seq<ColorFontRegion>,
    comps: Seq<ComponentView>,
    head: int,
) -> Option<(Seq<char>, Seq<ColorFontRegion>)>
    decreases comps.len(),
{
    if comps.len() == 0 {
        Some((text, regs))
    } else {
        match place_component(text, regs, head, comps[0]) {
            Some((t, r)) => place_components(t, r, comps.drop_first(), head + comp_len(comps[0])),
            None => None,
        }
    }
}

/// A line of components written into text line `line_idx`, from column `x` on: the
/// text line is first padded with spaces to `x` clusters; past the last text line,
/// spaces are appended to the text.
pub open spec fn place_line(
    text: Seq<char>,
    regs: Seq<ColorFontRegion>,
    comps: Seq<ComponentView>,
    line_idx: int,
    x: int,
) -> Option<(Seq<char>, Seq<ColorFontRegion>)> {
    let g = grapheme_clusters(text);
    match nth_line_range(g, seq!['\n'], line_idx) {
        Some((a, b)) => {
            let padded = if b - a < x {
                let pos = grapheme_start(text, b);
                text.take(pos) + repeated(' ', (x - (b - a)) as nat) + text.skip(pos)
            } else {
                text
            };
            if a + x > usize::MAX {
                None
            } else {
                place_components(padded, regs, comps, a + x)
            }
        },
        None => {
            if g.len() + x > usize::MAX {
                None
            } else {
                place_components(text + repeated(' ', x as nat), regs, comps, g.len() + x)
            }
        },
    }
}

/// The lines from `i` on written into the text, line `i` into text line
/// `i + offset.1`, from column `offset.0`.
pub open spec fn place_lines(
    text: Seq<char>,
    regs: Seq<ColorFontRegion>,
    lines: Seq<LineView>,
    i: int,
    offset: (usize, usize),
) -> Option<(Seq<char>, Seq<ColorFontRegion>)>
    decreases lines.len() - i,
{
    if i < 0 || i >= lines.len() {
        Some((text, regs))
    } else if i + offset.1 > usize::MAX {
        None
    } else {
        match place_line(text, regs, lines[i].0, i + offset.1, offset.0 as int) {
            Some((t, r)) => place_lines(t, r, lines, i + 1, offset),
            None => None,
        }
    }
}

/// The text and regions after `place_in`: newlines are added until the text has a line
/// for every line of the matrix, then the lines are written in; `None` where
/// `place_in` stops.
pub open spec fn placed(
    text: Seq<char>,
    regs: Seq<ColorFontRegion>,
    lines: Seq<LineView>,
    offset: (usize, usize),
) -> Option<(Seq<char>, Seq<ColorFontRegion>)> {
    let bytes = vstd::utf8::encode_utf8(text);
    let needed = lines.len() + offset.1;
    if bytes.len() >= usize::MAX || needed > usize::MAX {
        None
    } else {
        let num = count_newline_bytes(bytes) + 1;
        let grown = if needed > num {
            text + repeated('\n', (needed - num) as nat)
        } else {
            text
        };
        place_lines(grown, regs, lines, 0, offset)
    }
}

/// Whether every region of `regions` that starts after `idx` can move right by `by`.
fn shift_fits_exec(regions: &ColorFontRegions, idx: usize, by: usize) -> (fits: bool)
    ensures
        fits == shift_fits(regions.regions@, idx as int, by as int),
{
    let mut i: usize = 0;
    while i < regions.regions.len()
        invariant
            i <= regions.regions.len(),
            forall|j: int|
                0 <= j < i && (#[trigger] regions.regions@[j]).range.start > idx
                    ==> regions.regions@[j].range.start + by <= usize::MAX
                    && regions.regions@[j].range.end + by <= usize::MAX,
        decreases regions.regions.len() - i,
    {
        let r = regions.regions[i].range;
        if r.start > idx && (r.start > usize::MAX - by || r.end > usize::MAX - by) {
            return false;
        }
        i = i + 1;
    }
    true
}

impl GlyphMatrix {
    /// Writes the matrix into `string` and records the font and color of every
    /// component in `regions`: line `i` goes into text line `offset.1 + i`, from
    /// grapheme cluster `offset.0` of that line on; newlines and spaces are added where
    /// the text is too short. Each component replaces as many clusters as it has
    /// (see `replace_graphemes_until_newline`); where the line grows, the regions after
    /// the component move right. `false` where it stopped, leaving the work unfinished:
    /// where a number would not fit in `usize`, or where the text's clusters do not
    /// show where a replacement ends.
    pub fn place_in(&self, string: &mut String, regions: &mut ColorFontRegions, offset: (usize, usize)) -> (done: bool)
        requires
            old(regions).wf(),
        ensures
            final(regions).wf(),
            done == placed(old(string)@, old(regions).regions@, self@, offset) is Some,
            done ==> placed(old(string)@, old(regions).regions@, self@, offset) == Some(
                (final(string)@, final(regions).regions@),
            ),
    {
        let ghost overall = placed(string@, regions.regions@, self@, offset);
        let total = byte_len(string.as_str());
        if total == usize::MAX {
            return false;
        }
        let num_lines = count_number_lines(string.as_str());
        if self.matrix.len() > usize::MAX - offset.1 {
            return false;
        }
        let needed_lines = self.matrix.len() + offset.1;
        if needed_lines > num_lines {
            insert_new_lines(string, needed_lines - num_lines);
        }
        let ghost lines = self@;
        assert(place_lines(string@, regions.regions@, lines, 0, offset) == overall);
        let mut i: usize = 0;
        while i < self.matrix.len()
            invariant
                i <= self.matrix.len(),
                lines == self@,
                lines.len() == self.matrix.len(),
                regions.wf(),
                place_lines(string@, regions.regions@, lines, i as int, offset) == overall,
                overall == placed(old(string)@, old(regions).regions@, self@, offset),
            decreases self.matrix.len() - i,
        {
            if i > usize::MAX - offset.1 {
                return false;
            }
            let line_idx = i + offset.1;
            let ghost comps = lines[i as int].0;
            let ghost line_result = place_line(string@, regions.regions@, comps, line_idx as int, offset.0 as int);
            assert(overall == match line_result {
                Some((t, r)) => place_lines(t, r, lines, i + 1, offset),
                None => None,
            });
            let ghost before = string@;
            let head0: usize;
            match find_nth_line_grapheme_range(string.as_str(), line_idx) {
                Some((a, b)) => {
                    proof {
                        lemma_nth_line_range_ordered(grapheme_clusters(before), seq!['\n'], line_idx as int);
                    }
                    let len = b - a;
                    if len < offset.0 {
                        insert_spaces(string, b, offset.0 - len);
                    }
                    if a > usize::MAX - offset.0 {
                        assert(line_result is None);
                        return false;
                    }
                    head0 = a + offset.0;
                },
                None => {
                    let start = count_grapheme_clusters(string.as_str());
                    push_spaces(string, offset.0);
                    if start > usize::MAX - offset.0 {
                        assert(line_result is None);
                        return false;
                    }
                    head0 = start + offset.0;
                },
            }
            assert(line_result == place_components(string@, regions.regions@, comps, head0 as int));
            let line = &self.matrix[i];
            assert(comps == line@);
            let mut head = head0;
            let mut j: usize = 0;
            assert(comps.skip(0) =~= comps);
            while j < line.line.len()
                invariant
                    j <= line.line.len(),
                    comps == line@,
                    comps.len() == line.line.len(),
                    regions.wf(),
                    place_components(string@, regions.regions@, comps.skip(j as int), head as int) == line_result,
                    overall == match line_result {
                        Some((t, r)) => place_lines(t, r, lines, i + 1, offset),
                        None => None,
                    },
                    i < lines.len(),
                    overall == placed(old(string)@, old(regions).regions@, self@, offset),
                    lines == self@,
                    lines.len() == self.matrix.len(),
                decreases line.line.len() - j,
            {
                let comp = &line.line[j];
                let ghost c = comps[j as int];
                assert(c == comp@);
                assert(comps.skip(j as int)[0] == c);
                assert(comps.skip(j as int).drop_first() =~= comps.skip(j + 1));
                let ghost text = string@;
                let ghost regs = regions.regions@;
                match try_replace_graphemes_until_newline(string, head, comp.text.as_str()) {
                    None => {
                        return false;
                    },
                    Some(report) => {
                        let ghost shifted: Seq<ColorFontRegion>;
                        match report {
                            Some((a, b)) => {
                                if !shift_fits_exec(regions, a, b) {
                                    return false;
                                }
                                regions.shift_regions_after(a, b);
                                proof {
                                    lemma_sorted_regions_of(regions.regions@);
                                    shifted = regions.regions@;
                                }
                            },
                            None => {
                                proof {
                                    shifted = regs;
                                }
                            },
                        }
                        let n = comp.length();
                        if head > usize::MAX - n {
                            return false;
                        }
                        let region = ColorFontRegion::new(
                            Range::new(head, head + n),
                            Some(comp.font),
                            Some(comp.color.to_float_bits()),
                        );
                        assert(region == component_region(head as int, c));
                        regions.submit_region(region);
                        proof {
                            lemma_sorted_regions_of(regions.regions@);
                        }
                        head = head + n;
                    },
                }
                j = j + 1;
            }
            assert(comps.skip(comps.len() as int) =~= Seq::<ComponentView>::empty());
            i = i + 1;
        }
        true
    }
}

} // verus!
