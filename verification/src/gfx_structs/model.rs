use crate::core_model::primitives::ApplyOperation;
use crate::font::fonts::AppFont;
use crate::util::color::Color;
use crate::util::grapheme_chad::{
    lemma_joined_split, count_grapheme_clusters, delete_back_unicode, delete_front_unicode, front_deletion_count,
    grapheme_clusters, joined, split_off_graphemes,
};
use crate::util::strings::{chars_of, repeated, string_from_chars};
use std::ops::{Add, AddAssign, MulAssign, SubAssign};
use vstd::prelude::*;
use vstd::string::*;

verus! {

/// Whether `c` has the Unicode `White_Space` property, which `char::is_whitespace`
/// tests: the controls U+0009 to U+000D, the space, U+0085, the no-break space,
/// U+1680, U+2000 to U+200A, the line and paragraph separators, U+202F, U+205F and
/// U+3000.
pub open spec fn is_white_space(c: char) -> bool {
    let u = c as u32;
    ||| 0x9 <= u <= 0xD
    ||| u == 0x20
    ||| u == 0x85
    ||| u == 0xA0
    ||| u == 0x1680
    ||| 0x2000 <= u <= 0x200A
    ||| u == 0x2028
    ||| u == 0x2029
    ||| u == 0x202F
    ||| u == 0x205F
    ||| u == 0x3000
}

/// Whether `c` is white space, as `char::is_whitespace` says.
fn char_is_whitespace(c: char) -> (white: bool)
    ensures
        white == is_white_space(c),
{
    let u = c as u32;
    (0x9 <= u && u <= 0xD) || u == 0x20 || u == 0x85 || u == 0xA0 || u == 0x1680 || (0x2000 <= u && u <= 0x200A)
        || u == 0x2028 || u == 0x2029 || u == 0x202F || u == 0x205F || u == 0x3000
}

/// The kinds of fields of a glyph model.
#[derive(Clone, Copy, PartialEq, Eq, Hash, Debug, Structural)]
pub enum GlyphModelFieldType {
    GlyphMatrix,
    GlyphLine,
    GlyphLines,
    Flags,
    Layer,
    Position,
    Operation,
}

/// The kinds of commands on a glyph model.
#[derive(Clone, Copy, PartialEq, Eq, Hash, Debug, Structural)]
pub enum GlyphModelCommandType {
    NudgeLeft,
    NudgeRight,
    NudgeDown,
    NudgeUp,
    MoveTo,
    SetFlag,
    Rotate,
    RudeInsert,
    PoliteInsert,
}

/// What a component holds: its text, font and color.
pub type ComponentView = (Seq<char>, AppFont, Color);

/// The number of grapheme clusters of a component's text.
pub open spec fn comp_len(c: ComponentView) -> nat {
    grapheme_clusters(c.0).len()
}

/// Whether a text holds a character that is not white space.
pub open spec fn has_non_space(text: Seq<char>) -> bool {
    exists|i: int| 0 <= i < text.len() && !is_white_space(#[trigger] text[i])
}

/// `pad` repeated `n` times.
pub open spec fn repeat_text(pad: Seq<char>, n: nat) -> Seq<char>
    decreases n,
{
    if n == 0 {
        Seq::empty()
    } else {
        repeat_text(pad, (n - 1) as nat) + pad
    }
}

/// The component of the first `k` clusters of `c`.
pub open spec fn comp_prefix(c: ComponentView, k: int) -> ComponentView {
    (joined(grapheme_clusters(c.0), 0, k), c.1, c.2)
}

/// The component of the clusters of `c` from the `k`th on.
pub open spec fn comp_suffix(c: ComponentView, k: int) -> ComponentView {
    (joined(grapheme_clusters(c.0), k, grapheme_clusters(c.0).len() as int), c.1, c.2)
}

/// `c` after `discard_front(n)`.
pub open spec fn comp_front_discarded(c: ComponentView, n: nat) -> ComponentView {
    let g = grapheme_clusters(c.0);
    (joined(g, front_deletion_count(g.len(), n) as int, g.len() as int), c.1, c.2)
}

/// `c` after `discard_back(n)`.
pub open spec fn comp_back_discarded(c: ComponentView, n: nat) -> ComponentView {
    let g = grapheme_clusters(c.0);
    (joined(g, 0, if n < g.len() { g.len() - n } else { 0 }), c.1, c.2)
}

/// The component of `n` spaces, in no particular font and invisible.
pub open spec fn space_comp(n: nat) -> ComponentView {
    (repeated(' ', n), AppFont::Any, Color { rgba: [0u8, 0u8, 0u8, 0u8] })
}

/// Text, font, and color: one part of a [GlyphLine].
#[derive(Debug, Eq, PartialEq, Hash)]
pub struct GlyphComponent {
    pub text: String,
    pub font: AppFont,
    pub color: Color,
}

impl View for GlyphComponent {
    type V = ComponentView;

    open spec fn view(&self) -> ComponentView {
        (self.text@, self.font, self.color)
    }
}

impl Clone for GlyphComponent {
    fn clone(&self) -> (copy: Self)
        ensures
            copy@ == self@,
    {
        GlyphComponent { text: self.text.clone(), font: self.font, color: self.color }
    }
}

impl GlyphComponent {
    pub fn text(text: &str, font: AppFont, color: Color) -> (comp: Self)
        ensures
            comp@ == (text@, font, color),
    {
        GlyphComponent { text: String::from_str(text), font, color }
    }

    /// `n` spaces, in no particular font and invisible.
    pub fn space(n: usize) -> (comp: Self)
        ensures
            comp@ == space_comp(n as nat),
            !has_non_space(comp.text@),
    {
        let mut text = String::new();
        crate::util::grapheme_chad::push_spaces(&mut text, n);
        assert(is_white_space(' '));
        GlyphComponent { text, font: AppFont::Any, color: Color::invisible() }
    }

    /// Splits off the clusters from `at_idx` on into a new component of the same
    /// font and color. When there are no more than `at_idx` clusters, nothing moves.
    pub fn split_off(&mut self, at_idx: usize) -> (rest: Self)
        ensures
            ({
                let g = grapheme_clusters(old(self)@.0);
                if at_idx >= g.len() {
                    &&& final(self)@ == old(self)@
                    &&& rest@ == (Seq::<char>::empty(), old(self).font, old(self).color)
                } else {
                    &&& final(self)@ == comp_prefix(old(self)@, at_idx as int)
                    &&& rest@ == comp_suffix(old(self)@, at_idx as int)
                }
            }),
    {
        let split_str = split_off_graphemes(&mut self.text, at_idx);
        GlyphComponent { text: split_str, font: self.font, color: self.color }
    }

    pub fn space_front(&mut self, n: usize)
        ensures
            final(self)@ == (repeated(' ', n as nat) + old(self)@.0, old(self).font, old(self).color),
    {
        let mut text = String::new();
        crate::util::grapheme_chad::push_spaces(&mut text, n);
        text.append(self.text.as_str());
        self.text = text;
    }

    pub fn space_back(&mut self, n: usize)
        ensures
            final(self)@ == (old(self)@.0 + repeated(' ', n as nat), old(self).font, old(self).color),
    {
        crate::util::grapheme_chad::push_spaces(&mut self.text, n);
    }

    pub fn pad_front(&mut self, pad: &str, n: usize)
        ensures
            final(self)@ == (repeat_text(pad@, n as nat) + old(self)@.0, old(self).font, old(self).color),
    {
        let mut text = String::new();
        let mut i: usize = 0;
        while i < n
            invariant
                i <= n,
                text@ == repeat_text(pad@, i as nat),
            decreases n - i,
        {
            text.append(pad);
            i += 1;
        }
        text.append(self.text.as_str());
        self.text = text;
    }

    pub fn pad_back(&mut self, pad: &str, n: usize)
        ensures
            final(self)@ == (old(self)@.0 + repeat_text(pad@, n as nat), old(self).font, old(self).color),
    {
        let mut padding = String::new();
        let mut i: usize = 0;
        while i < n
            invariant
                i <= n,
                padding@ == repeat_text(pad@, i as nat),
            decreases n - i,
        {
            padding.append(pad);
            i += 1;
        }
        self.text.append(padding.as_str());
    }

    /// Whether the text holds a character that is not white space.
    pub fn contains_non_space(&self) -> (found: bool)
        ensures
            found == has_non_space(self.text@),
    {
        let chars = chars_of(self.text.as_str());
        let mut i: usize = 0;
        while i < chars.len()
            invariant
                chars@ == self.text@,
                i <= chars.len(),
                forall|j: int| 0 <= j < i ==> is_white_space(#[trigger] chars@[j]),
            decreases chars.len() - i,
        {
            if !char_is_whitespace(chars[i]) {
                return true;
            }
            i += 1;
        }
        false
    }

    /// The position, counted in characters, of the first character that is not
    /// white space.
    pub fn index_of_first_non_space_char(&self) -> (index: Option<usize>)
        ensures
            match index {
                Some(i) => i < self.text@.len() && !is_white_space(self.text@[i as int])
                    && forall|j: int| 0 <= j < i ==> is_white_space(#[trigger] self.text@[j]),
                None => !has_non_space(self.text@),
            },
    {
        let chars = chars_of(self.text.as_str());
        let mut i: usize = 0;
        while i < chars.len()
            invariant
                chars@ == self.text@,
                i <= chars.len(),
                forall|j: int| 0 <= j < i ==> is_white_space(#[trigger] chars@[j]),
            decreases chars.len() - i,
        {
            if !char_is_whitespace(chars[i]) {
                return Some(i);
            }
            i += 1;
        }
        None
    }

    pub fn as_str(&self) -> (s: &str)
        ensures
            s@ == self.text@,
    {
        self.text.as_str()
    }

    /// The number of grapheme clusters of the text.
    pub fn length(&self) -> (len: usize)
        ensures
            len == comp_len(self@),
            comp_segmented(self@),
    {
        count_grapheme_clusters(self.text.as_str())
    }

    /// Removes the first `num` grapheme clusters (all of them where it has fewer).
    pub fn discard_front(&mut self, num: usize)
        ensures
            final(self)@ == comp_front_discarded(old(self)@, num as nat),
    {
        delete_front_unicode(&mut self.text, num);
    }

    /// Removes the last `num` grapheme clusters.
    pub fn discard_back(&mut self, num: usize)
        ensures
            final(self)@ == comp_back_discarded(old(self)@, num as nat),
    {
        delete_back_unicode(&mut self.text, num);
    }
}



impl MulAssign for GlyphComponent {
    /// Takes the text of `rhs` unless it is empty, its font unless it is
    /// [AppFont::Any], and multiplies the colors channel by channel modulo 256.
    fn mul_assign(&mut self, rhs: Self)
        ensures
            final(self).text@ == if rhs.text@.len() == 0 { old(self).text@ } else { rhs.text@ },
            final(self).font == if rhs.font != AppFont::Any { rhs.font } else { old(self).font },
            final(self).color == crate::util::color::wrapped_product(old(self).color, rhs.color),
    {
        if !rhs.text.as_str().is_empty() {
            self.text = rhs.text.clone();
        }
        if rhs.font != AppFont::Any {
            self.font = rhs.font;
        }
        self.color = self.color * rhs.color;
    }
}

impl AddAssign for GlyphComponent {
    /// Appends the text of `rhs`, takes its font when this one is [AppFont::Any],
    /// and adds the colors channel by channel modulo 256.
    fn add_assign(&mut self, rhs: Self)
        ensures
            final(self).text@ == old(self).text@ + rhs.text@,
            final(self).font == if old(self).font == AppFont::Any { rhs.font } else { old(self).font },
            final(self).color == crate::util::color::wrapped_sum(old(self).color, rhs.color),
    {
        if !rhs.text.as_str().is_empty() {
            self.text.append(rhs.text.as_str());
        }
        if self.font == AppFont::Any {
            self.font = rhs.font;
        }
        self.color = self.color + rhs.color;
    }
}

impl Add for GlyphComponent {
    type Output = GlyphComponent;

    /// A copy of this component with `rhs` added to it as `+=` adds.
    fn add(self, rhs: Self) -> (sum: GlyphComponent)
        ensures
            sum.text@ == self.text@ + rhs.text@,
            sum.font == if self.font == AppFont::Any { rhs.font } else { self.font },
            sum.color == crate::util::color::wrapped_sum(self.color, rhs.color),
    {
        let mut output = self.clone();
        output.add_assign(rhs);
        output
    }
}

impl vstd::std_specs::ops::AddSpecImpl for GlyphComponent {
    /// `add` is held to its own `ensures`, which state the sum.
    open spec fn obeys_add_spec() -> bool {
        false
    }

    open spec fn add_req(self, rhs: GlyphComponent) -> bool {
        true
    }

    /// A component with the texts one after the other, the font of `self` unless it
    /// is [AppFont::Any], and the colors added channel by channel, wrapping.
    open spec fn add_spec(self, rhs: GlyphComponent) -> GlyphComponent {
        choose|sum: GlyphComponent|
            {
                &&& sum.text@ == self.text@ + rhs.text@
                &&& sum.font == if self.font == AppFont::Any { rhs.font } else { self.font }
                &&& sum.color == crate::util::color::wrapped_sum(self.color, rhs.color)
            }
    }
}


/// The clusters of a component's text make up that text (as segmentation hands out
/// consecutive pieces of it).
pub open spec fn comp_segmented(c: ComponentView) -> bool {
    grapheme_clusters(c.0).flatten() == c.0
}

/// Every component of the line is segmented.
pub open spec fn all_segmented(cs: Seq<ComponentView>) -> bool {
    forall|i: int| 0 <= i < cs.len() ==> comp_segmented(#[trigger] cs[i])
}

/// The text of a line: the texts of its components, one after the other.
pub open spec fn line_text(cs: Seq<ComponentView>) -> Seq<char>
    decreases cs.len(),
{
    if cs.len() == 0 {
        Seq::empty()
    } else {
        line_text(cs.drop_last()) + cs.last().0
    }
}

/// The character position in the line's text at which cluster position `x` lies; the
/// end of the text for positions past the line.
pub open spec fn text_pos(cs: Seq<ComponentView>, x: int) -> int {
    if x >= line_len(cs) {
        line_text(cs).len() as int
    } else {
        let k = cover_from(cs, x, 0);
        (line_text(cs.take(k)).len() + joined(grapheme_clusters(cs[k].0), 0, x - comp_start(cs, k)).len()) as int
    }
}

pub proof fn lemma_line_text_concat(a: Seq<ComponentView>, b: Seq<ComponentView>)
    ensures
        line_text(a + b) == line_text(a) + line_text(b),
    decreases b.len(),
{
    if b.len() == 0 {
        assert(a + b =~= a);
        assert(line_text(a) + line_text(b) =~= line_text(a));
    } else {
        lemma_line_text_concat(a, b.drop_last());
        assert((a + b).drop_last() =~= a + b.drop_last());
        assert(line_text(a + b) =~= line_text(a) + line_text(b));
    }
}

proof fn lemma_line_text_one(c: ComponentView)
    ensures
        line_text(seq![c]) == c.0,
{
    assert(seq![c].drop_last() =~= Seq::<ComponentView>::empty());
    assert(line_text(Seq::<ComponentView>::empty()) =~= Seq::<char>::empty());
    assert(seq![c].last() == c);
    assert(line_text(seq![c]) =~= c.0);
}

/// The text of a line around component `k`: before it, its own, after it.
proof fn lemma_line_text_at(cs: Seq<ComponentView>, k: int)
    requires
        0 <= k < cs.len(),
    ensures
        line_text(cs) == line_text(cs.take(k)) + cs[k].0 + line_text(cs.skip(k + 1)),
{
    assert(cs =~= cs.take(k) + seq![cs[k]] + cs.skip(k + 1));
    lemma_line_text_concat(cs.take(k) + seq![cs[k]], cs.skip(k + 1));
    lemma_line_text_concat(cs.take(k), seq![cs[k]]);
    lemma_line_text_one(cs[k]);
}

/// What `expanding_insert` does to the text of a line: the item's text goes in at the
/// character position of cluster `begin`, all the text stays around it; past the end
/// of the line, spaces fill the gap before the item.
pub proof fn law_expanding_insert_text(cs: Seq<ComponentView>, begin: int, item: ComponentView)
    requires
        0 <= begin,
        all_segmented(cs),
    ensures
        line_len(cs) > begin ==> line_text(expanded(cs, begin, item)) == line_text(cs).take(text_pos(cs, begin))
            + item.0 + line_text(cs).skip(text_pos(cs, begin)),
        line_len(cs) <= begin ==> line_text(expanded(cs, begin, item)) == line_text(cs) + repeated(
            ' ',
            (begin - line_len(cs)) as nat,
        ) + item.0,
{
    let total = line_len(cs);
    if total <= begin {
        let need = (begin - total) as nat;
        let sp = repeated(' ', need);
        if cs.len() > 0 {
            let last = cs.last();
            let padded = (last.0 + sp, last.1, last.2);
            lemma_line_text_concat(cs.drop_last().push(padded), seq![item]);
            assert(cs.drop_last().push(padded).push(item) =~= cs.drop_last().push(padded) + seq![item]);
            lemma_line_text_one(item);
            assert(cs.drop_last().push(padded).drop_last() =~= cs.drop_last());
            assert(line_text(cs.drop_last().push(padded)) == line_text(cs.drop_last()) + last.0 + sp);
            assert(line_text(expanded(cs, begin, item)) =~= line_text(cs) + sp + item.0);
        } else if need > 0 {
            assert(seq![space_comp(need), item] =~= seq![space_comp(need)] + seq![item]);
            lemma_line_text_concat(seq![space_comp(need)], seq![item]);
            lemma_line_text_one(space_comp(need));
            lemma_line_text_one(item);
            assert(line_text(cs) =~= Seq::<char>::empty());
            assert(line_text(expanded(cs, begin, item)) =~= line_text(cs) + sp + item.0);
        } else {
            lemma_line_text_one(item);
            assert(line_text(cs) =~= Seq::<char>::empty());
            assert(sp =~= Seq::<char>::empty());
            assert(line_text(expanded(cs, begin, item)) =~= line_text(cs) + sp + item.0);
        }
    } else {
        lemma_cover_found(cs, begin);
        let k = cover_from(cs, begin, 0);
        let ek = comp_start(cs, k);
        let g = grapheme_clusters(cs[k].0);
        let j = begin - ek;
        lemma_comp_start_succ(cs, k);
        let t0 = line_text(cs.take(k));
        let t1 = line_text(cs.skip(k + 1));
        lemma_line_text_at(cs, k);
        assert(comp_segmented(cs[k]));
        assert(g.subrange(0, g.len() as int) =~= g);
        lemma_joined_split(g, 0, j, g.len() as int);
        let text = line_text(cs);
        let p = text_pos(cs, begin);
        assert(p == t0.len() + joined(g, 0, j).len());
        if ek == begin {
            assert(joined(g, 0, 0) =~= Seq::<char>::empty());
            assert(cs.insert(k, item) =~= cs.take(k) + seq![item] + (seq![cs[k]] + cs.skip(k + 1)));
            lemma_line_text_concat(cs.take(k) + seq![item], seq![cs[k]] + cs.skip(k + 1));
            lemma_line_text_concat(cs.take(k), seq![item]);
            lemma_line_text_concat(seq![cs[k]], cs.skip(k + 1));
            lemma_line_text_one(item);
            lemma_line_text_one(cs[k]);
            assert(text.take(p) =~= t0);
            assert(text.skip(p) =~= cs[k].0 + t1);
            assert(line_text(expanded(cs, begin, item)) =~= text.take(p) + item.0 + text.skip(p));
        } else {
            let pre = comp_prefix(cs[k], j);
            let suf = comp_suffix(cs[k], j);
            let mid = seq![pre, item, suf];
            assert(mid =~= seq![pre] + seq![item] + seq![suf]);
            lemma_line_text_concat(seq![pre] + seq![item], seq![suf]);
            lemma_line_text_concat(seq![pre], seq![item]);
            lemma_line_text_one(pre);
            lemma_line_text_one(item);
            lemma_line_text_one(suf);
            lemma_line_text_concat(cs.take(k) + mid, cs.skip(k + 1));
            lemma_line_text_concat(cs.take(k), mid);
            assert(text.take(p) =~= t0 + joined(g, 0, j));
            assert(text.skip(p) =~= joined(g, j, g.len() as int) + t1);
            assert(line_text(expanded(cs, begin, item)) =~= text.take(p) + item.0 + text.skip(p));
        }
    }
}

/// The views of a sequence of components.
pub open spec fn views(comps: Seq<GlyphComponent>) -> Seq<ComponentView> {
    comps.map_values(|c: GlyphComponent| c@)
}

/// The number of grapheme clusters of a line: the sum over its components.
pub open spec fn line_len(cs: Seq<ComponentView>) -> nat
    decreases cs.len(),
{
    if cs.len() == 0 {
        0
    } else {
        line_len(cs.drop_last()) + comp_len(cs.last())
    }
}

/// The position, counted in grapheme clusters, at which component `i` starts.
pub open spec fn comp_start(cs: Seq<ComponentView>, i: int) -> nat {
    line_len(cs.take(i))
}

/// The first component from `i` on that reaches position `x`, that is, ends at or
/// after it; the number of components if there is none.
pub open spec fn reach_from(cs: Seq<ComponentView>, x: int, i: int) -> int
    decreases cs.len() - i,
{
    if i >= cs.len() || i < 0 {
        cs.len() as int
    } else if comp_start(cs, i + 1) >= x {
        i
    } else {
        reach_from(cs, x, i + 1)
    }
}

/// The first component that covers position `index`, that is, ends after it; the
/// number of components if there is none.
pub open spec fn cover_from(cs: Seq<ComponentView>, index: int, i: int) -> int
    decreases cs.len() - i,
{
    if i >= cs.len() || i < 0 {
        cs.len() as int
    } else if comp_start(cs, i + 1) > index {
        i
    } else {
        cover_from(cs, index, i + 1)
    }
}

pub proof fn lemma_line_len_concat(a: Seq<ComponentView>, b: Seq<ComponentView>)
    ensures
        line_len(a + b) == line_len(a) + line_len(b),
    decreases b.len(),
{
    if b.len() == 0 {
        assert(a + b =~= a);
    } else {
        lemma_line_len_concat(a, b.drop_last());
        assert((a + b).drop_last() =~= a + b.drop_last());
    }
}

pub proof fn lemma_comp_start_succ(cs: Seq<ComponentView>, i: int)
    requires
        0 <= i < cs.len(),
    ensures
        comp_start(cs, i + 1) == comp_start(cs, i) + comp_len(cs[i]),
{
    assert(cs.take(i + 1).drop_last() =~= cs.take(i));
}

pub proof fn lemma_comp_start_mono(cs: Seq<ComponentView>, i: int, j: int)
    requires
        0 <= i <= j <= cs.len(),
    ensures
        comp_start(cs, i) <= comp_start(cs, j),
    decreases j - i,
{
    if i < j {
        lemma_comp_start_mono(cs, i, j - 1);
        lemma_comp_start_succ(cs, j - 1);
    }
}

pub proof fn lemma_comp_start_full(cs: Seq<ComponentView>)
    ensures
        comp_start(cs, cs.len() as int) == line_len(cs),
{
    assert(cs.take(cs.len() as int) =~= cs);
}

/// Skipping components that do not reach `x` does not change where the search ends.
pub proof fn lemma_reach_skip(cs: Seq<ComponentView>, x: int, a: int, b: int)
    requires
        0 <= a <= b <= cs.len(),
        forall|j: int| a < j <= b ==> #[trigger] comp_start(cs, j) < x,
    ensures
        reach_from(cs, x, a) == reach_from(cs, x, b),
    decreases b - a,
{
    if a < b {
        lemma_reach_skip(cs, x, a + 1, b);
    }
}

/// Skipping components that do not cover `index` does not change where the search ends.
pub proof fn lemma_cover_skip(cs: Seq<ComponentView>, index: int, a: int, b: int)
    requires
        0 <= a <= b <= cs.len(),
        forall|j: int| a < j <= b ==> #[trigger] comp_start(cs, j) <= index,
    ensures
        cover_from(cs, index, a) == cover_from(cs, index, b),
    decreases b - a,
{
    if a < b {
        lemma_cover_skip(cs, index, a + 1, b);
    }
}


/// `cs` after padding `delta` spaces in front of position `idx`: nothing when
/// `delta` is 0; otherwise the spaces go to the end of the previous component when
/// that one is all white space, and into a new space component at `idx` if not.
pub open spec fn space_delta_added(cs: Seq<ComponentView>, idx: int, delta: nat) -> Seq<ComponentView> {
    if delta == 0 {
        cs
    } else if idx > 0 && !has_non_space(cs[idx - 1].0) {
        cs.update(idx - 1, (cs[idx - 1].0 + repeated(' ', delta), cs[idx - 1].1, cs[idx - 1].2))
    } else {
        cs.insert(idx, space_comp(delta))
    }
}

/// What follows the inserted component of an overriding insert whose range ends at
/// `end`: the components from `m`, the one that reaches `end`, with `m` cut to start
/// at `end`.
pub open spec fn override_tail(cs: Seq<ComponentView>, m: int, end: int) -> Seq<ComponentView> {
    if m >= cs.len() {
        Seq::empty()
    } else if comp_start(cs, m + 1) == end {
        cs.skip(m + 1)
    } else if comp_start(cs, m) == end {
        cs.skip(m)
    } else {
        seq![comp_front_discarded(cs[m], (end - comp_start(cs, m)) as nat)] + cs.skip(m + 1)
    }
}

/// The components of a line after `item` is written over it from position `begin`:
/// the clusters `[begin, begin + n)` of the line (`n` the item's clusters, or all
/// clusters from `begin` on where fewer follow) give way to the item, which stands as
/// one component; the component where `begin` falls keeps its clusters before
/// `begin`, the one where the range ends keeps those from the end on. Past the end of
/// the line, the gap before the item is filled with spaces.
pub open spec fn overridden(cs: Seq<ComponentView>, begin: int, item: ComponentView) -> Seq<ComponentView> {
    let total = line_len(cs);
    let end = begin + comp_len(item);
    if total <= begin {
        space_delta_added(cs.push(item), cs.len() as int, (begin - total) as nat)
    } else {
        let f = cover_from(cs, begin, 0);
        let ef = comp_start(cs, f);
        let head = if ef < begin {
            cs.take(f).push(comp_prefix(cs[f], begin - ef))
        } else {
            cs.take(f)
        };
        head.push(item) + override_tail(cs, reach_from(cs, end, f), end)
    }
}

/// The components of a line after `item` is inserted at position `begin`, pushing
/// what was there to the right; past the end of the line, the last component is
/// padded with spaces up to `begin` (or a space component leads an empty line).
pub open spec fn expanded(cs: Seq<ComponentView>, begin: int, item: ComponentView) -> Seq<ComponentView> {
    let total = line_len(cs);
    if total <= begin {
        let need = (begin - total) as nat;
        if cs.len() > 0 {
            cs.drop_last().push((cs.last().0 + repeated(' ', need), cs.last().1, cs.last().2)).push(item)
        } else if need > 0 {
            seq![space_comp(need), item]
        } else {
            seq![item]
        }
    } else {
        let k = cover_from(cs, begin, 0);
        let ek = comp_start(cs, k);
        if ek == begin {
            cs.insert(k, item)
        } else {
            cs.take(k) + seq![comp_prefix(cs[k], begin - ek), item, comp_suffix(cs[k], begin - ek)] + cs.skip(k + 1)
        }
    }
}


/// When position `index` lies within the line, the component that covers it exists
/// and starts at or before `index`.
pub proof fn lemma_cover_found(cs: Seq<ComponentView>, index: int)
    requires
        0 <= index < line_len(cs),
    ensures
        0 <= cover_from(cs, index, 0) < cs.len(),
        comp_start(cs, cover_from(cs, index, 0)) <= index < comp_start(cs, cover_from(cs, index, 0) + 1),
{
    lemma_comp_start_full(cs);
    lemma_cover_found_from(cs, index, 0);
}

proof fn lemma_cover_found_from(cs: Seq<ComponentView>, index: int, i: int)
    requires
        0 <= i <= cs.len(),
        comp_start(cs, i) <= index < comp_start(cs, cs.len() as int),
    ensures
        i <= cover_from(cs, index, i) < cs.len(),
        comp_start(cs, cover_from(cs, index, i)) <= index < comp_start(cs, cover_from(cs, index, i) + 1),
    decreases cs.len() - i,
{
    if i == cs.len() {
    } else {
        lemma_comp_start_succ(cs, i);
        if comp_start(cs, i + 1) <= index {
            lemma_cover_found_from(cs, index, i + 1);
        }
    }
}

/// No component is found only when the line ends at or before `index`.
pub proof fn lemma_cover_none(cs: Seq<ComponentView>, index: int)
    requires
        cover_from(cs, index, 0) >= cs.len(),
        0 <= index,
    ensures
        line_len(cs) <= index,
{
    if line_len(cs) > index {
        lemma_cover_found(cs, index);
    }
}


/// Looking up the component at the position where a non-empty component starts finds
/// that component: `component_of_index(index_of_component(i)) == i`.
pub proof fn law_component_at_own_start(cs: Seq<ComponentView>, i: int)
    requires
        0 <= i < cs.len(),
        comp_len(cs[i]) > 0,
    ensures
        cover_from(cs, comp_start(cs, i) as int, 0) == i,
{
    let x = comp_start(cs, i) as int;
    assert forall|j: int| 0 < j <= i implies #[trigger] comp_start(cs, j) <= x by {
        lemma_comp_start_mono(cs, j, i);
    }
    lemma_cover_skip(cs, x, 0, i);
    lemma_comp_start_succ(cs, i);
}

/// A position within the line lies in the component found for it:
/// `index_of_component(component_of_index(x)) <= x`, and `x` comes before that
/// component's end.
pub proof fn law_position_in_its_component(cs: Seq<ComponentView>, x: int)
    requires
        0 <= x < line_len(cs),
    ensures
        0 <= cover_from(cs, x, 0) < cs.len(),
        comp_start(cs, cover_from(cs, x, 0)) <= x < comp_start(cs, cover_from(cs, x, 0) + 1),
{
    lemma_cover_found(cs, x);
}

/// What `reach_from` finds: the components it passes end before `x`, the one it
/// stops at ends at or after `x`.
proof fn lemma_reach_props(cs: Seq<ComponentView>, x: int, i: int)
    requires
        0 <= i <= cs.len(),
    ensures
        i <= reach_from(cs, x, i) <= cs.len(),
        forall|k: int| i <= k < reach_from(cs, x, i) ==> #[trigger] comp_start(cs, k + 1) < x,
        reach_from(cs, x, i) < cs.len() ==> comp_start(cs, reach_from(cs, x, i) + 1) >= x,
    decreases cs.len() - i,
{
    if i < cs.len() && comp_start(cs, i + 1) < x {
        lemma_reach_props(cs, x, i + 1);
    }
}

/// The text of a line is that of its first `k` components followed by that of the rest.
proof fn lemma_text_split(cs: Seq<ComponentView>, k: int)
    requires
        0 <= k <= cs.len(),
    ensures
        line_text(cs) == line_text(cs.take(k)) + line_text(cs.skip(k)),
{
    assert(cs =~= cs.take(k) + cs.skip(k));
    lemma_line_text_concat(cs.take(k), cs.skip(k));
}

/// A segmented component without clusters has no text.
proof fn lemma_empty_comp_text(c: ComponentView)
    requires
        comp_segmented(c),
        comp_len(c) == 0,
    ensures
        c.0 == Seq::<char>::empty(),
{
    assert(grapheme_clusters(c.0) =~= Seq::<Seq<char>>::empty());
    assert(Seq::<Seq<char>>::empty().flatten() =~= Seq::<char>::empty());
}

/// The text of a segmented component is that of all its clusters.
proof fn lemma_comp_text(c: ComponentView)
    requires
        comp_segmented(c),
    ensures
        c.0 == joined(grapheme_clusters(c.0), 0, comp_len(c) as int),
{
    let g = grapheme_clusters(c.0);
    assert(g.subrange(0, g.len() as int) =~= g);
}

/// Where component `k` starts, the text position is the end of the text before it.
proof fn lemma_text_pos_at_start(cs: Seq<ComponentView>, k: int)
    requires
        0 <= k <= cs.len(),
        all_segmented(cs),
    ensures
        text_pos(cs, comp_start(cs, k) as int) == line_text(cs.take(k)).len(),
    decreases cs.len() - k,
{
    lemma_comp_start_full(cs);
    if k == cs.len() {
        assert(cs.take(k) =~= cs);
    } else {
        lemma_comp_start_succ(cs, k);
        lemma_comp_start_mono(cs, k + 1, cs.len() as int);
        if comp_len(cs[k]) > 0 {
            law_component_at_own_start(cs, k);
            assert(joined(grapheme_clusters(cs[k].0), 0, 0) =~= Seq::<char>::empty());
        } else {
            lemma_text_pos_at_start(cs, k + 1);
            assert(comp_segmented(cs[k]));
            lemma_empty_comp_text(cs[k]);
            assert(cs.take(k + 1) =~= cs.take(k) + seq![cs[k]]);
            lemma_line_text_concat(cs.take(k), seq![cs[k]]);
            lemma_line_text_one(cs[k]);
        }
    }
}

/// Within component `k`, the text position is the text before it and that of its
/// clusters up to the position.
proof fn lemma_text_pos_in(cs: Seq<ComponentView>, k: int, x: int)
    requires
        0 <= k < cs.len(),
        comp_start(cs, k) <= x < comp_start(cs, k + 1),
    ensures
        text_pos(cs, x) == line_text(cs.take(k)).len() + joined(grapheme_clusters(cs[k].0), 0, x - comp_start(cs, k)).len(),
{
    lemma_comp_start_full(cs);
    lemma_comp_start_mono(cs, k + 1, cs.len() as int);
    assert forall|j: int| 0 < j <= k implies #[trigger] comp_start(cs, j) <= x by {
        lemma_comp_start_mono(cs, j, k);
    }
    lemma_cover_skip(cs, x, 0, k);
}

/// The clusters `[a, b)` of the clusters from `j` on are the clusters `[j + a, j + b)`.
proof fn lemma_joined_of_subrange(g: Seq<Seq<char>>, j: int, a: int, b: int)
    requires
        0 <= j <= g.len(),
        0 <= a <= b <= g.len() - j,
    ensures
        joined(g.subrange(j, g.len() as int), a, b) == joined(g, j + a, j + b),
{
    assert(g.subrange(j, g.len() as int).subrange(a, b) =~= g.subrange(j + a, j + b));
}

/// The text of the result of `override_tail`: the line's text from position `end` on,
/// where the search for the component that reaches `end` starts at a component `f`
/// that starts at or before `end`.
proof fn lemma_override_tail_text(cs: Seq<ComponentView>, f: int, end: int)
    requires
        all_segmented(cs),
        0 <= f < cs.len(),
        comp_start(cs, f) <= end,
    ensures
        ({
            let m = reach_from(cs, end, f);
            line_text(override_tail(cs, m, end)) == line_text(cs).skip(text_pos(cs, end))
        }),
{
    let m = reach_from(cs, end, f);
    let text = line_text(cs);
    lemma_reach_props(cs, end, f);
    lemma_comp_start_full(cs);
    if m >= cs.len() {
        let k = cs.len() - 1;
        assert(comp_start(cs, k + 1) < end);
        assert(line_text(Seq::<ComponentView>::empty()) =~= Seq::<char>::empty());
        assert(text.skip(text.len() as int) =~= Seq::<char>::empty());
    } else if comp_start(cs, m + 1) == end {
        lemma_text_pos_at_start(cs, m + 1);
        lemma_text_split(cs, m + 1);
    } else if comp_start(cs, m) == end {
        lemma_text_pos_at_start(cs, m);
        lemma_text_split(cs, m);
    } else {
        let g = grapheme_clusters(cs[m].0);
        let sm = comp_start(cs, m);
        lemma_comp_start_succ(cs, m);
        if m > f {
            let k = m - 1;
            assert(comp_start(cs, k + 1) < end);
        }
        let d = end - sm;
        lemma_text_pos_in(cs, m, end);
        lemma_line_text_at(cs, m);
        assert(comp_segmented(cs[m]));
        lemma_comp_text(cs[m]);
        lemma_joined_split(g, 0, d, g.len() as int);
        let piece = comp_front_discarded(cs[m], d as nat);
        assert(piece.0 == joined(g, d, g.len() as int));
        assert(override_tail(cs, m, end) =~= seq![piece] + cs.skip(m + 1));
        lemma_line_text_concat(seq![piece], cs.skip(m + 1));
        lemma_line_text_one(piece);
        assert(text.skip(text_pos(cs, end)) =~= joined(g, d, g.len() as int) + line_text(cs.skip(m + 1)));
    }
}

/// The text before position `begin`, where `begin` lies inside component `f` at
/// cluster `j` of it.
proof fn lemma_text_before(cs: Seq<ComponentView>, f: int, begin: int)
    requires
        all_segmented(cs),
        0 <= f < cs.len(),
        comp_start(cs, f) <= begin < comp_start(cs, f + 1),
    ensures
        ({
            let g = grapheme_clusters(cs[f].0);
            let j = begin - comp_start(cs, f);
            &&& line_text(cs).take(text_pos(cs, begin)) == line_text(cs.take(f)) + joined(g, 0, j)
            &&& line_text(cs) == line_text(cs.take(f)) + joined(g, 0, j) + joined(g, j, g.len() as int)
                + line_text(cs.skip(f + 1))
        }),
{
    let g = grapheme_clusters(cs[f].0);
    let j = begin - comp_start(cs, f);
    lemma_comp_start_succ(cs, f);
    lemma_text_pos_in(cs, f, begin);
    lemma_line_text_at(cs, f);
    assert(comp_segmented(cs[f]));
    lemma_comp_text(cs[f]);
    lemma_joined_split(g, 0, j, g.len() as int);
    assert(line_text(cs) =~= line_text(cs.take(f)) + joined(g, 0, j) + joined(g, j, g.len() as int) + line_text(
        cs.skip(f + 1),
    ));
}

proof fn lemma_override_past_end_text(cs: Seq<ComponentView>, begin: int, item: ComponentView)
    requires
        line_len(cs) <= begin,
    ensures
        line_text(overridden(cs, begin, item)) == line_text(cs) + repeated(' ', (begin - line_len(cs)) as nat)
            + item.0,
{
    let total = line_len(cs);
    let text = line_text(cs);
    lemma_line_text_one(item);
    let delta = (begin - total) as nat;
    let sp = repeated(' ', delta);
    let pushed = cs.push(item);
    assert(pushed =~= cs + seq![item]);
    lemma_line_text_concat(cs, seq![item]);
    if delta == 0 {
        assert(sp =~= Seq::<char>::empty());
        assert(line_text(overridden(cs, begin, item)) =~= text + sp + item.0);
    } else if cs.len() > 0 && !has_non_space(pushed[cs.len() - 1].0) {
        let k = cs.len() - 1;
        let prev = pushed[k];
        let grown = (prev.0 + sp, prev.1, prev.2);
        let upd = pushed.update(k, grown);
        assert(upd =~= cs.take(k) + seq![grown] + seq![item]);
        lemma_line_text_concat(cs.take(k) + seq![grown], seq![item]);
        lemma_line_text_concat(cs.take(k), seq![grown]);
        lemma_line_text_one(grown);
        lemma_line_text_at(cs, k);
        assert(cs.skip(k + 1) =~= Seq::<ComponentView>::empty());
        assert(line_text(Seq::<ComponentView>::empty()) =~= Seq::<char>::empty());
        assert(line_text(overridden(cs, begin, item)) =~= text + sp + item.0);
    } else {
        let ins = pushed.insert(cs.len() as int, space_comp(delta));
        assert(ins =~= cs + seq![space_comp(delta)] + seq![item]);
        lemma_line_text_concat(cs + seq![space_comp(delta)], seq![item]);
        lemma_line_text_concat(cs, seq![space_comp(delta)]);
        lemma_line_text_one(space_comp(delta));
        assert(line_text(overridden(cs, begin, item)) =~= text + sp + item.0);
    }
}

/// What `overriding_insert` does to the text of a line: the item's text replaces the
/// text of the clusters `[begin, begin + n)` of the line (`n` the item's clusters), or
/// of all clusters from `begin` on where fewer follow; past the end of the line,
/// spaces fill the gap before the item.
pub proof fn law_overriding_insert_text(cs: Seq<ComponentView>, begin: int, item: ComponentView)
    requires
        0 <= begin,
        all_segmented(cs),
    ensures
        line_len(cs) <= begin ==> line_text(overridden(cs, begin, item)) == line_text(cs) + repeated(
            ' ',
            (begin - line_len(cs)) as nat,
        ) + item.0,
        line_len(cs) > begin ==> line_text(overridden(cs, begin, item)) == line_text(cs).take(
            text_pos(cs, begin),
        ) + item.0 + line_text(cs).skip(text_pos(cs, begin + comp_len(item))),
{
    if line_len(cs) <= begin {
        lemma_override_past_end_text(cs, begin, item);
    } else {
        let end = begin + comp_len(item);
        let text = line_text(cs);
        lemma_cover_found(cs, begin);
        let f = cover_from(cs, begin, 0);
        let ef = comp_start(cs, f);
        let g = grapheme_clusters(cs[f].0);
        lemma_text_before(cs, f, begin);
        lemma_override_tail_text(cs, f, end);
        lemma_line_text_one(item);
        let tail = override_tail(cs, reach_from(cs, end, f), end);
        let head = if ef < begin {
            cs.take(f).push(comp_prefix(cs[f], begin - ef))
        } else {
            cs.take(f)
        };
        if ef < begin {
            let pre = comp_prefix(cs[f], begin - ef);
            assert(head =~= cs.take(f) + seq![pre]);
            lemma_line_text_concat(cs.take(f), seq![pre]);
            lemma_line_text_one(pre);
        } else {
            assert(joined(g, 0, 0) =~= Seq::<char>::empty());
        }
        assert(line_text(head) =~= text.take(text_pos(cs, begin)));
        assert(head.push(item) =~= head + seq![item]);
        lemma_line_text_concat(head, seq![item]);
        lemma_line_text_concat(head.push(item), tail);
        assert(line_text(overridden(cs, begin, item)) =~= text.take(text_pos(cs, begin)) + item.0 + text.skip(
            text_pos(cs, end),
        ));
    }
}

/// Whether a component has the font and the color of one of the components `cs`.
pub open spec fn styled_as_one_of(cs: Seq<ComponentView>, c: ComponentView) -> bool {
    exists|j: int| 0 <= j < cs.len() && #[trigger] cs[j].1 == c.1 && cs[j].2 == c.2
}

proof fn lemma_styled_at(cs: Seq<ComponentView>, j: int, c: ComponentView)
    requires
        0 <= j < cs.len(),
        cs[j].1 == c.1,
        cs[j].2 == c.2,
    ensures
        styled_as_one_of(cs, c),
{
}

/// Every component of `override_tail(cs, m, end)` has the style of a component of `cs`.
proof fn lemma_override_tail_styles(cs: Seq<ComponentView>, m: int, end: int)
    requires
        0 <= m,
    ensures
        forall|k: int| 0 <= k < override_tail(cs, m, end).len() ==> styled_as_one_of(cs, #[trigger] override_tail(cs, m, end)[k]),
{
    let t = override_tail(cs, m, end);
    assert forall|k: int| 0 <= k < t.len() implies styled_as_one_of(cs, #[trigger] t[k]) by {
        if m < cs.len() {
            if comp_start(cs, m + 1) == end {
                lemma_styled_at(cs, m + 1 + k, t[k]);
            } else if comp_start(cs, m) == end {
                lemma_styled_at(cs, m + k, t[k]);
            } else if k == 0 {
                lemma_styled_at(cs, m, t[k]);
            } else {
                lemma_styled_at(cs, m + k, t[k]);
            }
        }
    }
}

/// What `overriding_insert` does to the styles of a line: the item is in the line
/// afterwards; every other component has the font and color of a component the line
/// had, or is padding in no particular font and invisible; and where `begin` falls
/// inside a component, the components before it stay, the part of it before `begin`
/// keeps its font and color, and the item follows that part.
pub proof fn law_overriding_insert_keeps_styles(cs: Seq<ComponentView>, begin: int, item: ComponentView)
    requires
        0 <= begin,
    ensures
        ({
            let r = overridden(cs, begin, item);
            &&& r.contains(item)
            &&& forall|k: int| 0 <= k < r.len() ==> (#[trigger] r[k] == item || styled_as_one_of(cs, r[k]) || (r[k].1
                == AppFont::Any && r[k].2 == (Color { rgba: [0u8, 0u8, 0u8, 0u8] })))
        }),
        begin < line_len(cs) && comp_start(cs, cover_from(cs, begin, 0)) < begin ==> ({
            let f = cover_from(cs, begin, 0);
            let r = overridden(cs, begin, item);
            &&& r.take(f) == cs.take(f)
            &&& r[f].1 == cs[f].1
            &&& r[f].2 == cs[f].2
            &&& r[f + 1] == item
        }),
{
    let r = overridden(cs, begin, item);
    let total = line_len(cs);
    if total <= begin {
        let pushed = cs.push(item);
        let idx = cs.len() as int;
        let delta = (begin - total) as nat;
        assert(pushed[idx] == item);
        if delta == 0 {
            assert(r == pushed);
            assert(r[idx] == item);
            assert forall|k: int| 0 <= k < r.len() implies (#[trigger] r[k] == item || styled_as_one_of(cs, r[k]) || (r[k].1
                == AppFont::Any && r[k].2 == (Color { rgba: [0u8, 0u8, 0u8, 0u8] }))) by {
                if k < idx {
                    lemma_styled_at(cs, k, r[k]);
                }
            }
        } else if idx > 0 && !has_non_space(pushed[idx - 1].0) {
            assert(r[idx] == item);
            assert forall|k: int| 0 <= k < r.len() implies (#[trigger] r[k] == item || styled_as_one_of(cs, r[k]) || (r[k].1
                == AppFont::Any && r[k].2 == (Color { rgba: [0u8, 0u8, 0u8, 0u8] }))) by {
                if k < idx {
                    lemma_styled_at(cs, k, r[k]);
                }
            }
        } else {
            assert(r[idx + 1] == item);
            assert forall|k: int| 0 <= k < r.len() implies (#[trigger] r[k] == item || styled_as_one_of(cs, r[k]) || (r[k].1
                == AppFont::Any && r[k].2 == (Color { rgba: [0u8, 0u8, 0u8, 0u8] }))) by {
                if k < idx {
                    lemma_styled_at(cs, k, r[k]);
                }
            }
        }
    } else {
        lemma_cover_found(cs, begin);
        let f = cover_from(cs, begin, 0);
        let ef = comp_start(cs, f);
        let end = begin + comp_len(item);
        let m = reach_from(cs, end, f);
        lemma_reach_props(cs, end, f);
        let head = if ef < begin {
            cs.take(f).push(comp_prefix(cs[f], begin - ef))
        } else {
            cs.take(f)
        };
        let tail = override_tail(cs, m, end);
        lemma_override_tail_styles(cs, m, end);
        assert(r == head.push(item) + tail);
        assert(r[head.len() as int] == item);
        assert forall|k: int| 0 <= k < r.len() implies (#[trigger] r[k] == item || styled_as_one_of(cs, r[k]) || (r[k].1
            == AppFont::Any && r[k].2 == (Color { rgba: [0u8, 0u8, 0u8, 0u8] }))) by {
            if k < f {
                lemma_styled_at(cs, k, r[k]);
            } else if k < head.len() {
                lemma_styled_at(cs, f, r[k]);
            } else if k > head.len() {
                assert(r[k] == tail[k - head.len() - 1]);
            }
        }
        if ef < begin {
            assert(r.take(f) =~= cs.take(f));
        }
    }
}

/// The color that `perform_op` gives the component it lays first (the non-space part
/// of the leading component `j` of `rhs`), against the color `c` of this line's
/// component `j`: adding back the laid color under `-=` gives `c`, taking it away
/// under `+=` gives `c`, under `*=` it is the product with `c`, and under plain
/// laying it is the laid color; channel by channel, modulo 256. The component keeps
/// the font of `rhs`'s component and its text from the first non-space character on,
/// and it is in the line once it is laid.
pub proof fn law_lead_color(cs: Seq<ComponentView>, rhs: Seq<ComponentView>, j: int, op: GlyphLineOp)
    requires
        0 <= j < rhs.len(),
    ensures
        ({
            let lead = lead_item(cs, rhs, j, op);
            let laid = rhs[j].2;
            &&& lead.1 == rhs[j].1
            &&& lead.0 == rhs[j].0.skip(first_non_space(rhs[j].0))
            &&& op is SubAssign && j < cs.len() ==> {
                &&& (lead.2.rgba[0] + laid.rgba[0]) % 256 == cs[j].2.rgba[0]
                &&& (lead.2.rgba[1] + laid.rgba[1]) % 256 == cs[j].2.rgba[1]
                &&& (lead.2.rgba[2] + laid.rgba[2]) % 256 == cs[j].2.rgba[2]
                &&& (lead.2.rgba[3] + laid.rgba[3]) % 256 == cs[j].2.rgba[3]
            }
            &&& op is AddAssign && j < cs.len() ==> {
                &&& (lead.2.rgba[0] + 256 - laid.rgba[0]) % 256 == cs[j].2.rgba[0]
                &&& (lead.2.rgba[1] + 256 - laid.rgba[1]) % 256 == cs[j].2.rgba[1]
                &&& (lead.2.rgba[2] + 256 - laid.rgba[2]) % 256 == cs[j].2.rgba[2]
                &&& (lead.2.rgba[3] + 256 - laid.rgba[3]) % 256 == cs[j].2.rgba[3]
            }
            &&& op is MulAssign && j < cs.len() ==> {
                &&& lead.2.rgba[0] == (cs[j].2.rgba[0] * laid.rgba[0]) % 256
                &&& lead.2.rgba[1] == (cs[j].2.rgba[1] * laid.rgba[1]) % 256
                &&& lead.2.rgba[2] == (cs[j].2.rgba[2] * laid.rgba[2]) % 256
                &&& lead.2.rgba[3] == (cs[j].2.rgba[3] * laid.rgba[3]) % 256
            }
            &&& (op is Assign || (op is AddAssign && j >= cs.len())) ==> lead.2 == laid
        }),
        leading_comp(rhs, true) == j ==> lead_laid(cs, rhs, true, op).contains(lead_item(cs, rhs, j, op)),
{
    let lead = lead_item(cs, rhs, j, op);
    let laid = rhs[j].2;
    if j < cs.len() {
        let own = cs[j].2;
        match op {
            GlyphLineOp::SubAssign => {
                assert(lead.2 == crate::util::color::wrapped_difference(own, laid));
                lemma_difference_adds_back(own.rgba[0] as int, laid.rgba[0] as int);
                lemma_difference_adds_back(own.rgba[1] as int, laid.rgba[1] as int);
                lemma_difference_adds_back(own.rgba[2] as int, laid.rgba[2] as int);
                lemma_difference_adds_back(own.rgba[3] as int, laid.rgba[3] as int);
            },
            GlyphLineOp::AddAssign => {
                assert(lead.2 == crate::util::color::wrapped_sum(own, laid));
                lemma_sum_takes_back(own.rgba[0] as int, laid.rgba[0] as int);
                lemma_sum_takes_back(own.rgba[1] as int, laid.rgba[1] as int);
                lemma_sum_takes_back(own.rgba[2] as int, laid.rgba[2] as int);
                lemma_sum_takes_back(own.rgba[3] as int, laid.rgba[3] as int);
            },
            _ => {},
        }
    }
    if leading_comp(rhs, true) == j {
        lemma_leading_comp_has_non_space(rhs, 0);
        lemma_first_non_space_found(rhs[j].0, 0);
        law_overriding_insert_keeps_styles(cs, lead_position(rhs, j), lead_item(cs, rhs, j, op));
    }
}

/// The component that leads when initial white space is skipped has a character that
/// is not white space.
proof fn lemma_leading_comp_has_non_space(rhs: Seq<ComponentView>, i: int)
    requires
        0 <= i,
    ensures
        first_non_space_comp(rhs, i) < rhs.len() ==> has_non_space(rhs[first_non_space_comp(rhs, i)].0),
    decreases rhs.len() - i,
{
    if i < rhs.len() && !has_non_space(rhs[i].0) {
        lemma_leading_comp_has_non_space(rhs, i + 1);
    }
}

/// In a text with a character that is not white space, the first such character is
/// found from any position before which all characters are white space.
proof fn lemma_first_non_space_found(text: Seq<char>, k: int)
    requires
        0 <= k,
        has_non_space(text),
        forall|j: int| 0 <= j < k ==> is_white_space(#[trigger] text[j]),
    ensures
        0 <= first_non_space(text) < text.len(),
    decreases text.len() - k,
{
    if k < text.len() {
        if !is_white_space(text[k]) {
            assert(0 <= k < text.len() && !is_white_space(text[k]) && forall|j: int|
                0 <= j < k ==> is_white_space(#[trigger] text[j]));
        } else {
            lemma_first_non_space_found(text, k + 1);
        }
    } else {
        let i = choose|i: int| 0 <= i < text.len() && !is_white_space(#[trigger] text[i]);
        assert(is_white_space(text[i]));
    }
}

proof fn lemma_difference_adds_back(a: int, b: int)
    requires
        0 <= a < 256,
        0 <= b < 256,
    ensures
        (((a - b + 256) % 256) as u8 + b) % 256 == a,
{
    if a >= b {
        assert((a - b + 256) % 256 == a - b);
    } else {
        assert((a - b + 256) % 256 == a - b + 256);
    }
}

proof fn lemma_sum_takes_back(a: int, b: int)
    requires
        0 <= a < 256,
        0 <= b < 256,
    ensures
        (((a + b) % 256) as u8 + 256 - b) % 256 == a,
{
    if a + b < 256 {
        assert((a + b) % 256 == a + b);
    } else {
        assert((a + b) % 256 == a + b - 256);
    }
}

/// Whether `overriding_insert(begin, item)` can run on `cs`: the line's length and the
/// end of the written range fit in `usize`.
pub open spec fn override_safe(cs: Seq<ComponentView>, begin: int, item: ComponentView) -> bool {
    &&& line_len(cs) <= usize::MAX
    &&& begin + comp_len(item) <= usize::MAX
}

/// The position of the first character of `text` that is not white space.
pub open spec fn first_non_space(text: Seq<char>) -> int {
    choose|i: int|
        0 <= i < text.len() && !is_white_space(text[i]) && forall|j: int|
            0 <= j < i ==> is_white_space(#[trigger] text[j])
}

/// The first component of `rhs`, from `i` on, whose text is not all white space;
/// `rhs.len()` if there is none.
pub open spec fn first_non_space_comp(rhs: Seq<ComponentView>, i: int) -> int
    decreases rhs.len() - i,
{
    if i >= rhs.len() || i < 0 {
        rhs.len() as int
    } else if has_non_space(rhs[i].0) {
        i
    } else {
        first_non_space_comp(rhs, i + 1)
    }
}

/// The ways in which a line can be laid over another.
pub enum GlyphLineOp {
    Assign,
    AddAssign,
    MulAssign,
    SubAssign,
}

/// The color that a component laid over component `i` of `cs` gets under `op`.
pub open spec fn op_color(op: GlyphLineOp, cs: Seq<ComponentView>, i: int, color: Color) -> Color {
    match op {
        GlyphLineOp::Assign => color,
        GlyphLineOp::AddAssign => if i < cs.len() {
            crate::util::color::wrapped_sum(cs[i].2, color)
        } else {
            color
        },
        GlyphLineOp::SubAssign => crate::util::color::wrapped_difference(cs[i].2, color),
        GlyphLineOp::MulAssign => crate::util::color::wrapped_product(cs[i].2, color),
    }
}

/// The component that `rhs` leads with when its initial white space is skipped: the
/// non-space part of its component `j`, in the color that `op` gives it.
pub open spec fn lead_item(cs: Seq<ComponentView>, rhs: Seq<ComponentView>, j: int, op: GlyphLineOp) -> ComponentView {
    let k = first_non_space(rhs[j].0);
    (rhs[j].0.skip(k), rhs[j].1, op_color(op, cs, j, rhs[j].2))
}

/// Where that leading component goes: as far into the line as it was in `rhs`.
pub open spec fn lead_position(rhs: Seq<ComponentView>, j: int) -> int {
    comp_start(rhs, j) + first_non_space(rhs[j].0)
}

/// Whether laying the leading component of `rhs` runs through.
pub open spec fn lead_ok(cs: Seq<ComponentView>, rhs: Seq<ComponentView>, j: int, op: GlyphLineOp) -> bool {
    &&& (op is SubAssign || op is MulAssign) ==> j < cs.len()
    &&& lead_position(rhs, j) <= usize::MAX
    &&& override_safe(cs, lead_position(rhs, j), lead_item(cs, rhs, j, op))
}

/// One step of laying `rhs` over `cs`: its component `i` is written over the
/// position where component `i` of `cs` starts, or appended when `cs` has no
/// component `i`.
pub open spec fn assign_step(cs: Seq<ComponentView>, rhs: Seq<ComponentView>, i: int) -> Seq<ComponentView> {
    if i < cs.len() {
        overridden(cs, comp_start(cs, i) as int, rhs[i])
    } else {
        cs.insert(i, rhs[i])
    }
}

pub open spec fn assign_step_ok(cs: Seq<ComponentView>, rhs: Seq<ComponentView>, i: int) -> bool {
    if i < cs.len() {
        override_safe(cs, comp_start(cs, i) as int, rhs[i])
    } else {
        i == cs.len()
    }
}

/// `cs` after the components of `rhs` from `i` on are laid over it, one by one.
pub open spec fn assign_from(cs: Seq<ComponentView>, rhs: Seq<ComponentView>, i: int) -> Seq<ComponentView>
    decreases rhs.len() - i,
{
    if i >= rhs.len() || i < 0 {
        cs
    } else {
        assign_from(assign_step(cs, rhs, i), rhs, i + 1)
    }
}

pub open spec fn assign_ok(cs: Seq<ComponentView>, rhs: Seq<ComponentView>, i: int) -> bool
    decreases rhs.len() - i,
{
    if i >= rhs.len() || i < 0 {
        true
    } else {
        assign_step_ok(cs, rhs, i) && assign_ok(assign_step(cs, rhs, i), rhs, i + 1)
    }
}

/// The component of `rhs` that leads, when its initial white space is skipped.
pub open spec fn leading_comp(rhs: Seq<ComponentView>, ignore_initial_space: bool) -> int {
    if ignore_initial_space {
        first_non_space_comp(rhs, 0)
    } else {
        rhs.len() as int
    }
}

/// `cs` after the leading component of `rhs` is laid over it, if there is one.
pub open spec fn lead_laid(cs: Seq<ComponentView>, rhs: Seq<ComponentView>, ignore_initial_space: bool, op: GlyphLineOp) -> Seq<ComponentView> {
    let j = leading_comp(rhs, ignore_initial_space);
    if j < rhs.len() {
        overridden(cs, lead_position(rhs, j), lead_item(cs, rhs, j, op))
    } else {
        cs
    }
}

/// The components of a line after the line `rhs` is laid over it under `op`.
pub open spec fn performed(cs: Seq<ComponentView>, rhs: Seq<ComponentView>, ignore_initial_space: bool, op: GlyphLineOp) -> Seq<ComponentView> {
    let j = leading_comp(rhs, ignore_initial_space);
    let first = if j < rhs.len() { j + 1 } else { 0 };
    assign_from(lead_laid(cs, rhs, ignore_initial_space, op), rhs, first)
}

/// Whether laying `rhs` over `cs` runs through.
pub open spec fn perform_ok(cs: Seq<ComponentView>, rhs: Seq<ComponentView>, ignore_initial_space: bool, op: GlyphLineOp) -> bool {
    let j = leading_comp(rhs, ignore_initial_space);
    let first = if j < rhs.len() { j + 1 } else { 0 };
    &&& line_len(rhs) <= usize::MAX
    &&& j < rhs.len() ==> lead_ok(cs, rhs, j, op)
    &&& assign_ok(lead_laid(cs, rhs, ignore_initial_space, op), rhs, first)
}


pub proof fn lemma_first_non_space_unique(text: Seq<char>, i: int)
    requires
        0 <= i < text.len(),
        !is_white_space(text[i]),
        forall|j: int| 0 <= j < i ==> is_white_space(#[trigger] text[j]),
    ensures
        first_non_space(text) == i,
{
    let k = first_non_space(text);
    assert(0 <= k < text.len() && !is_white_space(text[k]) && forall|j: int|
        0 <= j < k ==> is_white_space(#[trigger] text[j]));
    if k < i {
        assert(is_white_space(text[k]));
    }
    if i < k {
        assert(is_white_space(text[i]));
    }
}

pub proof fn lemma_first_non_space_comp_skip(rhs: Seq<ComponentView>, a: int, b: int)
    requires
        0 <= a <= b <= rhs.len(),
        forall|j: int| a <= j < b ==> !has_non_space(#[trigger] rhs[j].0),
    ensures
        first_non_space_comp(rhs, a) == first_non_space_comp(rhs, b),
    decreases b - a,
{
    if a < b {
        lemma_first_non_space_comp_skip(rhs, a + 1, b);
    }
}

/// One line of a [GlyphMatrix]: a sequence of components.
#[derive(Debug, Eq, PartialEq)]
pub struct GlyphLine {
    pub line: Vec<GlyphComponent>,
    pub ignore_initial_space: bool,
}

impl View for GlyphLine {
    type V = Seq<ComponentView>;

    open spec fn view(&self) -> Seq<ComponentView> {
        views(self.line@)
    }
}

impl Clone for GlyphLine {
    fn clone(&self) -> (copy: Self)
        ensures
            copy@ == self@,
            copy.ignore_initial_space == self.ignore_initial_space,
    {
        let mut line: Vec<GlyphComponent> = Vec::new();
        copy_components(&mut line, &self.line, 0, self.line.len());
        assert(views(self.line@).subrange(0, self.line.len() as int) =~= views(self.line@));
        GlyphLine { line, ignore_initial_space: self.ignore_initial_space }
    }
}

/// Appends copies of `src[from..to]` to `dst`.
fn copy_components(dst: &mut Vec<GlyphComponent>, src: &Vec<GlyphComponent>, from: usize, to: usize)
    requires
        from <= to <= src.len(),
    ensures
        views(final(dst)@) == views(old(dst)@) + views(src@).subrange(from as int, to as int),
{
    let mut i = from;
    while i < to
        invariant
            from <= i <= to <= src.len(),
            views(dst@) == views(old(dst)@) + views(src@).subrange(from as int, i as int),
        decreases to - i,
    {
        let c = src[i].clone();
        assert(c@ == views(src@)[i as int]);
        let ghost before = dst@;
        dst.push(c);
        assert(views(dst@) =~= views(before).push(c@));
        i += 1;
        assert(views(src@).subrange(from as int, i as int) =~= views(src@).subrange(from as int, i - 1).push(c@));
        assert(views(dst@) =~= views(old(dst)@) + views(src@).subrange(from as int, i as int));
    }
}

/// The lengths of the components of `line`.
fn component_lengths(line: &Vec<GlyphComponent>) -> (lens: Vec<usize>)
    ensures
        lens.len() == line.len(),
        forall|i: int| 0 <= i < line.len() ==> lens[i] == comp_len(#[trigger] views(line@)[i]),
        all_segmented(views(line@)),
{
    let mut lens: Vec<usize> = Vec::new();
    let mut i: usize = 0;
    while i < line.len()
        invariant
            i <= line.len(),
            lens.len() == i,
            forall|k: int| 0 <= k < i ==> lens[k] == comp_len(#[trigger] views(line@)[k]),
            forall|k: int| 0 <= k < i ==> comp_segmented(#[trigger] views(line@)[k]),
        decreases line.len() - i,
    {
        lens.push(line[i].length());
        i += 1;
    }
    lens
}

impl GlyphLine {
    pub fn new() -> (line: Self)
        ensures
            line@ == Seq::<ComponentView>::empty(),
            !line.ignore_initial_space,
    {
        let line = GlyphLine { line: Vec::new(), ignore_initial_space: false };
        assert(line@ =~= Seq::<ComponentView>::empty());
        line
    }

    /// Inserts the components of `source` before component `index`, or at the end
    /// when there are no more than `index` components.
    pub fn insert_at_index(&mut self, source: Vec<GlyphComponent>, index: usize)
        ensures
            ({
                let e = if index < old(self)@.len() { index as int } else { old(self)@.len() as int };
                final(self)@ == old(self)@.take(e) + views(source@) + old(self)@.skip(e)
            }),
            final(self).ignore_initial_space == old(self).ignore_initial_space,
    {
        let len = self.line.len();
        let effective_index = if index < len { index } else { len };
        let mut line: Vec<GlyphComponent> = Vec::new();
        copy_components(&mut line, &self.line, 0, effective_index);
        copy_components(&mut line, &source, 0, source.len());
        copy_components(&mut line, &self.line, effective_index, len);
        proof {
            assert(views(source@).subrange(0, source.len() as int) =~= views(source@));
            assert(views(self.line@).subrange(0, effective_index as int) =~= self@.take(effective_index as int));
            assert(views(self.line@).subrange(effective_index as int, len as int) =~= self@.skip(effective_index as int));
        }
        self.line = line;
    }

    pub fn new_with(component: GlyphComponent) -> (line: Self)
        ensures
            line@ == seq![component@],
            !line.ignore_initial_space,
    {
        let mut new = GlyphLine::new();
        new.push(component);
        assert(new@ =~= seq![component@]);
        new
    }

    pub fn new_with_vec(comps: Vec<GlyphComponent>, ignore_initial_space: bool) -> (line: Self)
        ensures
            line@ == views(comps@),
            line.ignore_initial_space == ignore_initial_space,
    {
        GlyphLine { line: comps, ignore_initial_space }
    }

    pub fn push(&mut self, glyph: GlyphComponent)
        ensures
            final(self)@ == old(self)@.push(glyph@),
            final(self).ignore_initial_space == old(self).ignore_initial_space,
    {
        self.line.push(glyph);
        assert(self@ =~= old(self)@.push(glyph@));
    }

    pub fn get(&self, i: usize) -> (comp: Option<&GlyphComponent>)
        ensures
            match comp {
                Some(c) => i < self@.len() && c@ == self@[i as int],
                None => i >= self@.len(),
            },
    {
        if i < self.line.len() {
            Some(&self.line[i])
        } else {
            None
        }
    }

    pub fn last_component(&self) -> (comp: Option<&GlyphComponent>)
        ensures
            match comp {
                Some(c) => self@.len() > 0 && c@ == self@.last(),
                None => self@.len() == 0,
            },
    {
        if self.line.len() > 0 {
            Some(&self.line[self.line.len() - 1])
        } else {
            None
        }
    }

    /// The last component, for changing it in place.
    pub fn last_comp_mut(&mut self) -> (comp: Option<&mut GlyphComponent>)
        ensures
            old(self).line@.len() == 0 ==> comp is None && *final(self) == *old(self),
            old(self).line@.len() > 0 ==> (comp matches Some(c) && *c == old(self).line@.last()
                && final(self).line@ == old(self).line@.update(old(self).line@.len() - 1, *final(c))
                && final(self).ignore_initial_space == old(self).ignore_initial_space),
    {
        let n = self.line.len();
        if n > 0 {
            Some(&mut self.line[n - 1])
        } else {
            None
        }
    }

    /// Component `i`, for changing it in place.
    pub fn get_mut(&mut self, i: usize) -> (comp: Option<&mut GlyphComponent>)
        ensures
            i >= old(self).line@.len() ==> comp is None && *final(self) == *old(self),
            i < old(self).line@.len() ==> (comp matches Some(c) && *c == old(self).line@[i as int]
                && final(self).line@ == old(self).line@.update(i as int, *final(c))
                && final(self).ignore_initial_space == old(self).ignore_initial_space),
    {
        if i < self.line.len() {
            Some(&mut self.line[i])
        } else {
            None
        }
    }

    /// The index of the component that covers position `index`: the first whose end
    /// lies after it; the number of components if the line is not that long.
    pub fn component_of_index(&self, index: usize) -> (comp_index: usize)
        requires
            line_len(self@) <= usize::MAX,
        ensures
            comp_index == cover_from(self@, index as int, 0),
    {
        let lens = component_lengths(&self.line);
        let mut head: usize = 0;
        let mut i: usize = 0;
        proof {
            lemma_comp_start_full(self@);
        }
        while i < self.line.len()
            invariant
                lens.len() == self.line.len(),
                forall|k: int| 0 <= k < self.line.len() ==> lens[k] == comp_len(#[trigger] self@[k]),
                line_len(self@) <= usize::MAX,
                comp_start(self@, self@.len() as int) == line_len(self@),
                i <= self.line.len(),
                head == comp_start(self@, i as int),
                cover_from(self@, index as int, 0) == cover_from(self@, index as int, i as int),
            decreases self.line.len() - i,
        {
            proof {
                lemma_comp_start_succ(self@, i as int);
                lemma_comp_start_mono(self@, i + 1, self@.len() as int);
            }
            if head + lens[i] > index {
                return i;
            }
            head += lens[i];
            proof {
                lemma_cover_skip(self@, index as int, i as int, i + 1);
            }
            i += 1;
        }
        self.line.len()
    }

    /// The position at which component `index` starts.
    pub fn index_of_component(&self, index: usize) -> (start: usize)
        requires
            index < self@.len(),
            line_len(self@) <= usize::MAX,
        ensures
            start == comp_start(self@, index as int),
    {
        let lens = component_lengths(&self.line);
        let mut idx: usize = 0;
        let mut i: usize = 0;
        proof {
            lemma_comp_start_full(self@);
        }
        while i < index
            invariant
                lens.len() == self.line.len(),
                forall|k: int| 0 <= k < self.line.len() ==> lens[k] == comp_len(#[trigger] self@[k]),
                comp_start(self@, self@.len() as int) == line_len(self@),
                line_len(self@) <= usize::MAX,
                index < self.line.len(),
                i <= index,
                idx == comp_start(self@, i as int),
            decreases index - i,
        {
            proof {
                lemma_comp_start_succ(self@, i as int);
                lemma_comp_start_mono(self@, i + 1, self@.len() as int);
            }
            idx += lens[i];
            i += 1;
        }
        idx
    }

    /// The number of grapheme clusters of the line.
    pub fn length(&self) -> (len: usize)
        requires
            line_len(self@) <= usize::MAX,
        ensures
            len == line_len(self@),
            all_segmented(self@),
    {
        let lens = component_lengths(&self.line);
        let mut total: usize = 0;
        let mut i: usize = 0;
        proof {
            lemma_comp_start_full(self@);
        }
        while i < self.line.len()
            invariant
                lens.len() == self.line.len(),
                forall|k: int| 0 <= k < self.line.len() ==> lens[k] == comp_len(#[trigger] self@[k]),
                comp_start(self@, self@.len() as int) == line_len(self@),
                line_len(self@) <= usize::MAX,
                i <= self.line.len(),
                total == comp_start(self@, i as int),
            decreases self.line.len() - i,
        {
            proof {
                lemma_comp_start_succ(self@, i as int);
                lemma_comp_start_mono(self@, i + 1, self@.len() as int);
            }
            total += lens[i];
            i += 1;
        }
        total
    }


    /// Splits component `comp_idx` after `split_at` clusters into two components.
    fn split_component_at(comp_idx: usize, split_at: usize, line: &mut Vec<GlyphComponent>)
        requires
            comp_idx < old(line)@.len(),
            split_at < comp_len(views(old(line)@)[comp_idx as int]),
        ensures
            views(final(line)@) == views(old(line)@).take(comp_idx as int) + seq![
                comp_prefix(views(old(line)@)[comp_idx as int], split_at as int),
                comp_suffix(views(old(line)@)[comp_idx as int], split_at as int),
            ] + views(old(line)@).skip(comp_idx + 1),
    {
        let ghost before = views(line@);
        assert(comp_idx < line.len());
        let split_off_comp = line[comp_idx].split_off(split_at);
        line.insert(comp_idx + 1, split_off_comp);
        assert(views(line@) =~= before.take(comp_idx as int) + seq![
            comp_prefix(before[comp_idx as int], split_at as int),
            comp_suffix(before[comp_idx as int], split_at as int),
        ] + before.skip(comp_idx + 1));
    }

    /// Inserts `item` at position `begin`, pushing what was there to the right.
    /// Past the end of the line, the gap up to `begin` is filled with spaces.
    pub fn expanding_insert(&mut self, begin: usize, item: &GlyphComponent)
        requires
            line_len(old(self)@) <= usize::MAX,
        ensures
            final(self)@ == expanded(old(self)@, begin as int, item@),
            final(self).ignore_initial_space == old(self).ignore_initial_space,
            line_len(old(self)@) > begin ==> line_text(final(self)@) == line_text(old(self)@).take(
                text_pos(old(self)@, begin as int),
            ) + item.text@ + line_text(old(self)@).skip(text_pos(old(self)@, begin as int)),
            line_len(old(self)@) <= begin ==> line_text(final(self)@) == line_text(old(self)@)
                + repeated(' ', (begin - line_len(old(self)@)) as nat) + item.text@,
    {
        let ghost cs = self@;
        let len = self.length();
        proof {
            law_expanding_insert_text(cs, begin as int, item@);
        }
        if len <= begin {
            let spaces_we_need_to_add = begin - len;
            if self.line.len() > 0 {
                let last = self.line.len() - 1;
                self.line[last].space_back(spaces_we_need_to_add);
                assert(self@ =~= cs.drop_last().push(
                    (cs.last().0 + repeated(' ', spaces_we_need_to_add as nat), cs.last().1, cs.last().2)));
            } else {
                if spaces_we_need_to_add > 0 {
                    self.push(GlyphComponent::space(spaces_we_need_to_add));
                }
            }
            self.push(item.clone());
            assert(self@ =~= expanded(cs, begin as int, item@));
            return;
        }
        let comp_at_insert = self.component_of_index(begin);
        proof {
            lemma_comp_start_full(cs);
            if comp_at_insert >= cs.len() {
                lemma_cover_none(cs, begin as int);
            }
            lemma_cover_found(cs, begin as int);
            lemma_comp_start_succ(cs, comp_at_insert as int);
            lemma_comp_start_mono(cs, comp_at_insert + 1, cs.len() as int);
        }
        let index_of_comp_at_insert = self.index_of_component(comp_at_insert);
        if index_of_comp_at_insert == begin {
            self.line.insert(comp_at_insert, item.clone());
            assert(self@ =~= cs.insert(comp_at_insert as int, item@));
            return;
        }
        let end_index_of_comp_at_insert = index_of_comp_at_insert + self.line[comp_at_insert].length();
        if end_index_of_comp_at_insert == begin {
            self.line.insert(comp_at_insert + 1, item.clone());
            return;
        }
        Self::split_component_at(comp_at_insert, begin - index_of_comp_at_insert, &mut self.line);
        let ghost split = self@;
        assert(split.len() == cs.len() + 1);
        assert(self.line@.len() == split.len());
        assert(comp_at_insert < self.line.len());
        self.line.insert(comp_at_insert + 1, item.clone());
        assert(self@ =~= split.insert(comp_at_insert + 1, item@));
        assert(self@ =~= expanded(cs, begin as int, item@));
    }


    /// The number of grapheme clusters of the line, if it fits in `usize`.
    pub fn checked_length(&self) -> (len: Option<usize>)
        ensures
            match len {
                Some(l) => line_len(self@) <= usize::MAX && l == line_len(self@),
                None => line_len(self@) > usize::MAX,
            },
    {
        let lens = component_lengths(&self.line);
        let mut total: usize = 0;
        let mut i: usize = 0;
        proof {
            lemma_comp_start_full(self@);
            assert(self@.take(0) =~= Seq::<ComponentView>::empty());
        }
        while i < self.line.len()
            invariant
                lens.len() == self.line.len(),
                forall|k: int| 0 <= k < self.line.len() ==> lens[k] == comp_len(#[trigger] self@[k]),
                comp_start(self@, self@.len() as int) == line_len(self@),
                i <= self.line.len(),
                total == comp_start(self@, i as int),
            decreases self.line.len() - i,
        {
            proof {
                lemma_comp_start_succ(self@, i as int);
                lemma_comp_start_mono(self@, i + 1, self@.len() as int);
            }
            match total.checked_add(lens[i]) {
                Some(t) => {
                    total = t;
                },
                None => {
                    return None;
                },
            }
            i += 1;
        }
        Some(total)
    }

    /// Whether `overriding_insert(begin, item)` can run on this line: its length and
    /// the end of the written range fit in `usize`.
    pub fn override_is_safe(&self, begin: usize, item: &GlyphComponent) -> (safe: bool)
        ensures
            safe == override_safe(self@, begin as int, item@),
    {
        if self.checked_length().is_none() {
            return false;
        }
        begin.checked_add(item.length()).is_some()
    }

    /// Lays `rhs` over this line: each of its components is written over the
    /// position where this line's component of the same index starts (appended
    /// where there is none). When `rhs` skips its initial white space, its first
    /// component that is not all space is written, from its first non-space
    /// character on, as far into the line as it was in `rhs`, in the color that
    /// `operation` makes of its own and this line's component of that index.
    /// Where a step cannot run (a length that does not fit, or a subtracted or
    /// multiplied color with no component of that index in this line), the line
    /// stays as it is at that step.
    pub(crate) fn perform_op(&mut self, rhs: &Self, operation: GlyphLineOp)
        ensures
            perform_ok(old(self)@, rhs@, rhs.ignore_initial_space, operation)
                ==> final(self)@ == performed(old(self)@, rhs@, rhs.ignore_initial_space, operation),
            final(self).ignore_initial_space == old(self).ignore_initial_space,
    {
        broadcast use vstd::utf8::group_utf8_lib;

        let ghost cs0 = self@;
        let ghost r = rhs@;
        if rhs.checked_length().is_none() {
            return;
        }
        let mut begin_comp: usize = 0;
        if rhs.ignore_initial_space {
            let mut i: usize = 0;
            while i < rhs.line.len() && !rhs.line[i].contains_non_space()
                invariant
                    i <= rhs.line.len(),
                    r == rhs@,
                    forall|j: int| 0 <= j < i ==> !has_non_space(#[trigger] r[j].0),
                    first_non_space_comp(r, 0) == first_non_space_comp(r, i as int),
                decreases rhs.line.len() - i,
            {
                proof {
                    lemma_first_non_space_comp_skip(r, i as int, i + 1);
                }
                i += 1;
            }
            assert(leading_comp(r, rhs.ignore_initial_space) == i);
            if i < rhs.line.len() {
                begin_comp = i + 1;
                let rhs_comp = &rhs.line[i];
                let comp_index = match rhs_comp.index_of_first_non_space_char() {
                    Some(k) => k,
                    None => {
                        return;
                    },
                };
                proof {
                    lemma_first_non_space_unique(r[i as int].0, comp_index as int);
                }
                let rhs_chars = chars_of(rhs_comp.text.as_str());
                let to_insert = string_from_chars(&rhs_chars, comp_index, rhs_chars.len());
                assert(to_insert@ =~= r[i as int].0.skip(comp_index as int));
                let index_of_comp = rhs.index_of_component(i);
                let position = match index_of_comp.checked_add(comp_index) {
                    Some(p) => p,
                    None => {
                        return;
                    },
                };
                let color = match operation {
                    GlyphLineOp::AddAssign => {
                        if i < self.line.len() {
                            self.line[i].color + rhs_comp.color
                        } else {
                            rhs_comp.color
                        }
                    },
                    GlyphLineOp::Assign => rhs_comp.color,
                    GlyphLineOp::SubAssign => {
                        if i >= self.line.len() {
                            return;
                        }
                        self.line[i].color - rhs_comp.color
                    },
                    GlyphLineOp::MulAssign => {
                        if i >= self.line.len() {
                            return;
                        }
                        self.line[i].color * rhs_comp.color
                    },
                };
                let item = GlyphComponent { text: to_insert, font: rhs_comp.font, color };
                assert(item@ == lead_item(cs0, r, i as int, operation));
                if !self.override_is_safe(position, &item) {
                    return;
                }
                self.overriding_insert(position, &item);
            }
        }
        let ghost cs1 = self@;
        assert(cs1 == lead_laid(cs0, r, rhs.ignore_initial_space, operation));
        assert(begin_comp == if leading_comp(r, rhs.ignore_initial_space) < r.len() {
            leading_comp(r, rhs.ignore_initial_space) + 1
        } else {
            0
        });
        let mut i = begin_comp;
        while i < rhs.line.len()
            invariant
                r == rhs@,
                begin_comp <= i <= rhs.line.len(),
                assign_from(self@, r, i as int) == assign_from(cs1, r, begin_comp as int),
                assign_ok(cs1, r, begin_comp as int) ==> assign_ok(self@, r, i as int),
                self.ignore_initial_space == old(self).ignore_initial_space,
                cs0 == old(self)@,
                perform_ok(cs0, r, rhs.ignore_initial_space, operation) ==> assign_ok(cs1, r, begin_comp as int),
                performed(cs0, r, rhs.ignore_initial_space, operation) == assign_from(cs1, r, begin_comp as int),
            decreases rhs.line.len() - i,
        {
            if i < self.line.len() {
                let start = match self.checked_length() {
                    Some(_) => self.index_of_component(i),
                    None => {
                        assert(!assign_step_ok(self@, r, i as int));
                        return;
                    },
                };
                let comp = rhs.line[i].clone();
                if !self.override_is_safe(start, &comp) {
                    return;
                }
                self.overriding_insert(start, &comp);
            } else {
                if i > self.line.len() {
                    assert(!assign_step_ok(self@, r, i as int));
                    return;
                }
                let comp = rhs.line[i].clone();
                let ghost before = self@;
                self.line.insert(i, comp);
                assert(self@ =~= before.insert(i as int, r[i as int]));
            }
            i += 1;
        }
    }

    fn add_space_delta(&mut self, idx_insert_comp: usize, delta_head: usize)
        requires
            idx_insert_comp <= old(self)@.len(),
        ensures
            final(self)@ == space_delta_added(old(self)@, idx_insert_comp as int, delta_head as nat),
            final(self).ignore_initial_space == old(self).ignore_initial_space,
    {
        if delta_head > 0 {
            if idx_insert_comp > 0 {
                if !self.line[idx_insert_comp - 1].contains_non_space() {
                    let ghost before = self@;
                    self.line[idx_insert_comp - 1].space_back(delta_head);
                    assert(self@ =~= before.update(
                        idx_insert_comp - 1,
                        (before[idx_insert_comp - 1].0 + repeated(' ', delta_head as nat),
                        before[idx_insert_comp - 1].1, before[idx_insert_comp - 1].2),
                    ));
                    return;
                }
            }
            let ghost before = self@;
            self.line.insert(idx_insert_comp, GlyphComponent::space(delta_head));
            assert(self@ =~= before.insert(idx_insert_comp as int, space_comp(delta_head as nat)));
        }
    }

    /// Writes `item` over the line from position `begin`, replacing what was there
    /// (see [overridden]). Past the end of the line, the gap is filled with spaces.
    #[verifier::rlimit(80)]
    #[verifier::spinoff_prover]
    pub fn overriding_insert(&mut self, begin: usize, item: &GlyphComponent)
        requires
            line_len(old(self)@) <= usize::MAX,
            begin + comp_len(item@) <= usize::MAX,
        ensures
            final(self)@ == overridden(old(self)@, begin as int, item@),
            final(self).ignore_initial_space == old(self).ignore_initial_space,
    {
        let ghost cs = self@;
        let self_len = self.length();
        let item_len = item.length();
        let end = begin + item_len;
        let count = self.line.len();
        if self_len <= begin {
            let delta_head = begin - self_len;
            self.push(item.clone());
            self.add_space_delta(count, delta_head);
            return;
        }
        let lens = component_lengths(&self.line);
        proof {
            lemma_comp_start_full(cs);
            lemma_cover_found(cs, begin as int);
        }
        let mut f: usize = 0;
        let mut ef: usize = 0;
        proof {
            lemma_comp_start_succ(cs, 0);
            lemma_comp_start_mono(cs, 1, count as int);
            assert(cs.take(0) =~= Seq::<ComponentView>::empty());
        }
        while ef + lens[f] <= begin
            invariant
                lens.len() == count == cs.len(),
                forall|k: int| 0 <= k < count ==> lens[k] == comp_len(#[trigger] cs[k]),
                comp_start(cs, count as int) == line_len(cs),
                line_len(cs) <= usize::MAX,
                begin < line_len(cs),
                f < count,
                ef == comp_start(cs, f as int),
                ef <= begin,
                ef + lens[f as int] == comp_start(cs, f + 1) <= line_len(cs),
                cover_from(cs, begin as int, 0) == cover_from(cs, begin as int, f as int),
            decreases count - f,
        {
            proof {
                lemma_cover_skip(cs, begin as int, f as int, f + 1);
                if f + 1 == count {
                    assert(false);
                }
            }
            ef += lens[f];
            f += 1;
            proof {
                lemma_comp_start_succ(cs, f as int);
                lemma_comp_start_mono(cs, f + 1, count as int);
            }
        }
        assert(cover_from(cs, begin as int, 0) == f);
        let mut m: usize = f;
        let mut em: usize = ef;
        while m < count && em + lens[m] < end
            invariant
                lens.len() == count == cs.len(),
                forall|k: int| 0 <= k < count ==> lens[k] == comp_len(#[trigger] cs[k]),
                comp_start(cs, count as int) == line_len(cs),
                line_len(cs) <= usize::MAX,
                f < count,
                f <= m <= count,
                em == comp_start(cs, m as int),
                em <= end,
                m < count ==> em + lens[m as int] == comp_start(cs, m + 1) <= line_len(cs),
                reach_from(cs, end as int, f as int) == reach_from(cs, end as int, m as int),
            decreases count - m,
        {
            proof {
                lemma_reach_skip(cs, end as int, m as int, m + 1);
            }
            em += lens[m];
            m += 1;
            proof {
                if m < count {
                    lemma_comp_start_succ(cs, m as int);
                    lemma_comp_start_mono(cs, m + 1, count as int);
                }
            }
        }
        assert(reach_from(cs, end as int, f as int) == m);
        let mut line: Vec<GlyphComponent> = Vec::new();
        copy_components(&mut line, &self.line, 0, f);
        proof {
            assert(views(self.line@).subrange(0, f as int) =~= cs.take(f as int));
        }
        if ef < begin {
            let mut head = self.line[f].clone();
            head.discard_back(lens[f] - (begin - ef));
            line.push(head);
        }
        line.push(item.clone());
        let ghost front = views(line@);
        proof {
            let pre = comp_prefix(cs[f as int], begin - ef);
            if ef < begin {
                assert(comp_back_discarded(cs[f as int], (lens[f as int] - (begin - ef)) as nat) == pre);
                assert(front =~= cs.take(f as int).push(pre).push(item@));
            } else {
                assert(front =~= cs.take(f as int).push(item@));
            }
        }
        self.push_override_tail(&mut line, &lens, m, em, end);
        self.line = line;
        assert(self@ =~= front + override_tail(cs, m as int, end as int));
    }

    /// Appends to `out` the components that follow an overriding insert whose range
    /// ends at `end` and is reached by component `m`, which starts at `em`.
    fn push_override_tail(&self, out: &mut Vec<GlyphComponent>, lens: &Vec<usize>, m: usize, em: usize, end: usize)
        requires
            lens.len() == self@.len(),
            forall|k: int| 0 <= k < self@.len() ==> lens[k] == comp_len(#[trigger] self@[k]),
            line_len(self@) <= usize::MAX,
            m <= self@.len(),
            em == comp_start(self@, m as int),
            em <= end,
            m < self@.len() ==> comp_start(self@, m + 1) >= end,
        ensures
            views(final(out)@) == views(old(out)@) + override_tail(self@, m as int, end as int),
    {
        let count = self.line.len();
        if m >= count {
            assert(views(out@) =~= views(old(out)@) + override_tail(self@, m as int, end as int));
            return;
        }
        proof {
            lemma_comp_start_full(self@);
            lemma_comp_start_succ(self@, m as int);
            lemma_comp_start_mono(self@, m + 1, count as int);
        }
        let em1 = em + lens[m];
        if em1 == end {
            copy_components(out, &self.line, m + 1, count);
            assert(views(self.line@).subrange(m + 1, count as int) =~= self@.skip(m + 1));
        } else if em == end {
            copy_components(out, &self.line, m, count);
            assert(views(self.line@).subrange(m as int, count as int) =~= self@.skip(m as int));
        } else {
            let mut cut = self.line[m].clone();
            cut.discard_front(end - em);
            let ghost before = views(out@);
            out.push(cut);
            copy_components(out, &self.line, m + 1, count);
            assert(views(self.line@).subrange(m + 1, count as int) =~= self@.skip(m + 1));
            assert(views(out@) =~= before + override_tail(self@, m as int, end as int));
        }
    }
}



/// What a line holds: its components and whether it skips its initial white space.
pub type LineView = (Seq<ComponentView>, bool);

/// The views of a sequence of lines.
pub open spec fn line_views(lines: Seq<GlyphLine>) -> Seq<LineView> {
    lines.map_values(|l: GlyphLine| (l@, l.ignore_initial_space))
}

/// The lines of a matrix grown, if needed, to hold line `line_num`: empty lines are
/// added, of which the last starts with `idx` spaces when `idx` is not 0.
pub open spec fn expanded_to_line(ms: Seq<LineView>, line_num: int, idx: nat) -> Seq<LineView> {
    if ms.len() <= line_num {
        let last: LineView = if idx > 0 { (seq![space_comp(idx)], false) } else { (Seq::empty(), false) };
        ms + Seq::new((line_num - ms.len()) as nat, |_i: int| (Seq::<ComponentView>::empty(), false)) + seq![last]
    } else {
        ms
    }
}


/// How the lines of a matrix `ms` become `result` when the lines of `rhs` are laid
/// over them under `op`: each line that both have is laid over (see
/// [GlyphLine::perform_op]), keeping its own flag; lines of `ms` beyond `rhs` stay;
/// lines of `rhs` beyond `ms` are added when `grows`, and fall away when not.
pub open spec fn lines_laid(ms: Seq<LineView>, rhs: Seq<LineView>, op: GlyphLineOp, grows: bool, result: Seq<LineView>) -> bool {
    &&& result.len() == if grows && rhs.len() > ms.len() { rhs.len() } else { ms.len() }
    &&& forall|i: int| 0 <= i < result.len() ==> {
        if i >= ms.len() {
            #[trigger] result[i] == rhs[i]
        } else if i >= rhs.len() {
            result[i] == ms[i]
        } else {
            &&& result[i].1 == ms[i].1
            &&& perform_ok(ms[i].0, rhs[i].0, rhs[i].1, op) ==> result[i].0 == performed(ms[i].0, rhs[i].0, rhs[i].1, op)
        }
    }
}

/// A matrix of glyphs: a sequence of [GlyphLine]s.
#[derive(Debug, Eq, PartialEq)]
pub struct GlyphMatrix {
    pub matrix: Vec<GlyphLine>,
}

impl View for GlyphMatrix {
    type V = Seq<LineView>;

    open spec fn view(&self) -> Seq<LineView> {
        line_views(self.matrix@)
    }
}

impl Clone for GlyphMatrix {
    fn clone(&self) -> (copy: Self)
        ensures
            copy@ == self@,
    {
        let mut matrix: Vec<GlyphLine> = Vec::new();
        let mut i: usize = 0;
        while i < self.matrix.len()
            invariant
                i <= self.matrix.len(),
                line_views(matrix@) == line_views(self.matrix@).take(i as int),
            decreases self.matrix.len() - i,
        {
            let line = self.matrix[i].clone();
            assert((line@, line.ignore_initial_space) == line_views(self.matrix@)[i as int]);
            let ghost before = matrix@;
            matrix.push(line);
            assert(line_views(matrix@) =~= line_views(before).push((line@, line.ignore_initial_space)));
            i += 1;
            assert(line_views(matrix@) =~= line_views(self.matrix@).take(i as int));
        }
        assert(line_views(self.matrix@).take(i as int) =~= line_views(self.matrix@));
        GlyphMatrix { matrix }
    }
}

impl GlyphMatrix {
    pub fn new() -> (m: Self)
        ensures
            m@ == Seq::<LineView>::empty(),
    {
        let m = GlyphMatrix { matrix: Vec::new() };
        assert(m@ =~= Seq::<LineView>::empty());
        m
    }

    pub fn push(&mut self, line: GlyphLine)
        ensures
            final(self)@ == old(self)@.push((line@, line.ignore_initial_space)),
    {
        self.matrix.push(line);
        assert(self@ =~= old(self)@.push((line@, line.ignore_initial_space)));
    }

    pub fn get(&self, line_num: usize) -> (line: Option<&GlyphLine>)
        ensures
            match line {
                Some(l) => line_num < self@.len() && (l@, l.ignore_initial_space) == self@[line_num as int],
                None => line_num >= self@.len(),
            },
    {
        if line_num < self.matrix.len() {
            Some(&self.matrix[line_num])
        } else {
            None
        }
    }

    /// Line `index`, for changing it in place; the matrix first grows with empty lines
    /// to have it.
    pub fn index_mut(&mut self, index: usize) -> (line: &mut GlyphLine)
        ensures
            index < old(self).matrix@.len() ==> *line == old(self).matrix@[index as int]
                && final(self).matrix@ == old(self).matrix@.update(index as int, *final(line)),
            index >= old(self).matrix@.len() ==> {
                &&& (*line)@ == Seq::<ComponentView>::empty()
                &&& !line.ignore_initial_space
                &&& final(self).matrix@.len() == index + 1
                &&& final(self).matrix@[index as int] == *final(line)
                &&& forall|k: int| 0 <= k < old(self).matrix@.len() ==> final(self).matrix@[k] == old(self).matrix@[k]
                &&& forall|k: int| old(self).matrix@.len() <= k < index ==> (#[trigger] final(self).matrix@[k])@
                    == Seq::<ComponentView>::empty() && !final(self).matrix@[k].ignore_initial_space
            },
    {
        let n = self.matrix.len();
        if index < n {
            return &mut self.matrix[index];
        }
        let mut k = n;
        while k < index
            invariant
                n <= k <= index,
                self.matrix@.len() == k,
                forall|j: int| 0 <= j < n ==> self.matrix@[j] == old(self).matrix@[j],
                forall|j: int| n <= j < k ==> (#[trigger] self.matrix@[j])@ == Seq::<ComponentView>::empty()
                    && !self.matrix@[j].ignore_initial_space,
                n == old(self).matrix@.len(),
            decreases index - k,
        {
            self.matrix.push(GlyphLine::new());
            k = k + 1;
        }
        self.matrix.push(GlyphLine::new());
        &mut self.matrix[index]
    }

    /// Line `line_num`, for changing it in place.
    pub fn get_mut(&mut self, line_num: usize) -> (line: Option<&mut GlyphLine>)
        ensures
            line_num >= old(self).matrix@.len() ==> line is None && *final(self) == *old(self),
            line_num < old(self).matrix@.len() ==> (line matches Some(l) && *l == old(self).matrix@[line_num as int]
                && final(self).matrix@ == old(self).matrix@.update(line_num as int, *final(l))),
    {
        if line_num < self.matrix.len() {
            Some(&mut self.matrix[line_num])
        } else {
            None
        }
    }

    /// Grows the matrix, if needed, to hold line `line_num` (see [expanded_to_line]).
    fn expand_to_line(&mut self, line_num: usize, idx: usize)
        ensures
            final(self)@ == expanded_to_line(old(self)@, line_num as int, idx as nat),
    {
        let matrix_len = self.matrix.len();
        if matrix_len <= line_num {
            let line_delta = line_num - matrix_len;
            let mut k: usize = 0;
            while k < line_delta
                invariant
                    k <= line_delta == line_num - matrix_len,
                    matrix_len == old(self)@.len(),
                    self@ == old(self)@ + Seq::new(k as nat, |_i: int| (Seq::<ComponentView>::empty(), false)),
                decreases line_delta - k,
            {
                self.push(GlyphLine::new());
                k += 1;
                assert(self@ =~= old(self)@ + Seq::new(k as nat, |_i: int| (Seq::<ComponentView>::empty(), false)));
            }
            let line: GlyphLine;
            if idx > 0 {
                line = GlyphLine::new_with(GlyphComponent::space(idx));
            } else {
                line = GlyphLine::new();
            }
            self.push(line);
        }
    }

    /// Inserts `component` into line `line_num` at position `idx`, pushing what was
    /// there to the right (see [GlyphLine::expanding_insert]); the matrix first grows
    /// to hold that line.
    pub fn expanding_insert(&mut self, line_num: usize, idx: usize, component: &GlyphComponent)
        requires
            line_len(expanded_to_line(old(self)@, line_num as int, idx as nat)[line_num as int].0) <= usize::MAX,
        ensures
            ({
                let grown = expanded_to_line(old(self)@, line_num as int, idx as nat);
                final(self)@ == grown.update(
                    line_num as int,
                    (expanded(grown[line_num as int].0, idx as int, component@), grown[line_num as int].1),
                )
            }),
    {
        self.expand_to_line(line_num, idx);
        let ghost grown = self@;
        assert(line_num < grown.len());
        assert(grown[line_num as int].0 == self.matrix@[line_num as int]@);
        self.matrix[line_num].expanding_insert(idx, component);
        assert(self@ =~= grown.update(
            line_num as int,
            (expanded(grown[line_num as int].0, idx as int, component@), grown[line_num as int].1),
        ));
    }

    /// Writes `component` over line `line_num` from position `idx` (see
    /// [GlyphLine::overriding_insert]); the matrix first grows to hold that line.
    pub fn overriding_insert(&mut self, line_num: usize, idx: usize, component: &GlyphComponent)
        requires
            override_safe(expanded_to_line(old(self)@, line_num as int, idx as nat)[line_num as int].0, idx as int, component@),
        ensures
            ({
                let grown = expanded_to_line(old(self)@, line_num as int, idx as nat);
                final(self)@ == grown.update(
                    line_num as int,
                    (overridden(grown[line_num as int].0, idx as int, component@), grown[line_num as int].1),
                )
            }),
    {
        self.expand_to_line(line_num, idx);
        let ghost grown = self@;
        assert(line_num < grown.len());
        assert(grown[line_num as int].0 == self.matrix@[line_num as int]@);
        self.matrix[line_num].overriding_insert(idx, component);
        assert(self@ =~= grown.update(
            line_num as int,
            (overridden(grown[line_num as int].0, idx as int, component@), grown[line_num as int].1),
        ));
    }

    /// `overriding_insert`, where it can run on the line (see [override_safe]): then
    /// `true`. Otherwise `false`, and only the growth of the matrix to hold line
    /// `line_num` has happened.
    pub fn checked_overriding_insert(&mut self, line_num: usize, idx: usize, component: &GlyphComponent) -> (done: bool)
        ensures
            ({
                let grown = expanded_to_line(old(self)@, line_num as int, idx as nat);
                &&& done == override_safe(grown[line_num as int].0, idx as int, component@)
                &&& done ==> final(self)@ == grown.update(
                    line_num as int,
                    (overridden(grown[line_num as int].0, idx as int, component@), grown[line_num as int].1),
                )
                &&& !done ==> final(self)@ == grown
            }),
    {
        self.expand_to_line(line_num, idx);
        let ghost grown = self@;
        assert(line_num < grown.len());
        assert(grown[line_num as int].0 == self.matrix@[line_num as int]@);
        if !self.matrix[line_num].override_is_safe(idx, component) {
            return false;
        }
        self.matrix[line_num].overriding_insert(idx, component);
        assert(self@ =~= grown.update(
            line_num as int,
            (overridden(grown[line_num as int].0, idx as int, component@), grown[line_num as int].1),
        ));
        true
    }

    /// `expanding_insert`, where the length of the line fits in `usize`: then `true`.
    /// Otherwise `false`, and only the growth of the matrix to hold line `line_num` has
    /// happened.
    pub fn checked_expanding_insert(&mut self, line_num: usize, idx: usize, component: &GlyphComponent) -> (done: bool)
        ensures
            ({
                let grown = expanded_to_line(old(self)@, line_num as int, idx as nat);
                &&& done == (line_len(grown[line_num as int].0) <= usize::MAX)
                &&& done ==> final(self)@ == grown.update(
                    line_num as int,
                    (expanded(grown[line_num as int].0, idx as int, component@), grown[line_num as int].1),
                )
                &&& !done ==> final(self)@ == grown
            }),
    {
        self.expand_to_line(line_num, idx);
        let ghost grown = self@;
        assert(line_num < grown.len());
        assert(grown[line_num as int].0 == self.matrix@[line_num as int]@);
        if self.matrix[line_num].checked_length().is_none() {
            return false;
        }
        self.matrix[line_num].expanding_insert(idx, component);
        assert(self@ =~= grown.update(
            line_num as int,
            (expanded(grown[line_num as int].0, idx as int, component@), grown[line_num as int].1),
        ));
        true
    }
}

impl Default for GlyphLine {
    fn default() -> (line: Self)
        ensures
            line@ == Seq::<ComponentView>::empty(),
            !line.ignore_initial_space,
    {
        GlyphLine::new()
    }
}

impl Default for GlyphMatrix {
    fn default() -> (m: Self)
        ensures
            m@ == Seq::<LineView>::empty(),
    {
        GlyphMatrix::new()
    }
}

impl SubAssign for GlyphLine {
    /// Lays `rhs` over this line, subtracting colors (see [GlyphLine::perform_op]).
    fn sub_assign(&mut self, rhs: Self)
        ensures
            perform_ok(old(self)@, rhs@, rhs.ignore_initial_space, GlyphLineOp::SubAssign)
                ==> final(self)@ == performed(old(self)@, rhs@, rhs.ignore_initial_space, GlyphLineOp::SubAssign),
            final(self).ignore_initial_space == old(self).ignore_initial_space,
    {
        self.perform_op(&rhs, GlyphLineOp::SubAssign);
    }
}

impl MulAssign for GlyphLine {
    /// Lays `rhs` over this line, multiplying colors (see [GlyphLine::perform_op]).
    fn mul_assign(&mut self, rhs: Self)
        ensures
            perform_ok(old(self)@, rhs@, rhs.ignore_initial_space, GlyphLineOp::MulAssign)
                ==> final(self)@ == performed(old(self)@, rhs@, rhs.ignore_initial_space, GlyphLineOp::MulAssign),
            final(self).ignore_initial_space == old(self).ignore_initial_space,
    {
        self.perform_op(&rhs, GlyphLineOp::MulAssign);
    }
}

impl AddAssign for GlyphLine {
    /// Lays `rhs` over this line, taking its colors (see [GlyphLine::perform_op]).
    fn add_assign(&mut self, rhs: Self)
        ensures
            perform_ok(old(self)@, rhs@, rhs.ignore_initial_space, GlyphLineOp::Assign)
                ==> final(self)@ == performed(old(self)@, rhs@, rhs.ignore_initial_space, GlyphLineOp::Assign),
            final(self).ignore_initial_space == old(self).ignore_initial_space,
    {
        self.perform_op(&rhs, GlyphLineOp::Assign);
    }
}


impl GlyphMatrix {
    /// Lays the lines of `rhs` over these lines under `op`; with `grows`, the lines
    /// of `rhs` beyond these are added.
    fn lay_lines(&mut self, rhs: &GlyphMatrix, op: GlyphLineOp, grows: bool)
        ensures
            lines_laid(old(self)@, rhs@, op, grows, final(self)@),
    {
        let ghost ms = self@;
        let ghost r = rhs@;
        let mut i: usize = 0;
        while i < rhs.matrix.len()
            invariant
                r == rhs@,
                ms == old(self)@,
                i <= rhs.matrix.len(),
                self@.len() == if grows && i > ms.len() { i as int } else { ms.len() as int },
                forall|k: int| 0 <= k < self@.len() ==> {
                    if k >= ms.len() {
                        #[trigger] self@[k] == r[k]
                    } else if k >= i {
                        self@[k] == ms[k]
                    } else {
                        &&& self@[k].1 == ms[k].1
                        &&& perform_ok(ms[k].0, r[k].0, r[k].1, op) ==> self@[k].0 == performed(ms[k].0, r[k].0, r[k].1, op)
                    }
                },
            decreases rhs.matrix.len() - i,
        {
            let line = rhs.matrix[i].clone();
            if i >= self.matrix.len() {
                if grows {
                    let ghost before = self@;
                    self.matrix.insert(i, line);
                    assert(self@ =~= before.push(r[i as int]));
                }
            } else {
                let ghost before = self@;
                let ghost before_lines = self.matrix@;
                assert(self@[i as int] == ms[i as int]);
                match op {
                    GlyphLineOp::Assign => self.matrix[i].add_assign(line),
                    GlyphLineOp::SubAssign => self.matrix[i].sub_assign(line),
                    GlyphLineOp::MulAssign => self.matrix[i].mul_assign(line),
                    GlyphLineOp::AddAssign => self.matrix[i].perform_op(&line, GlyphLineOp::AddAssign),
                }
                assert(self.matrix@ == before_lines.update(i as int, self.matrix@[i as int]));
                assert(self@.len() == before.len());
                assert forall|k: int| 0 <= k < self@.len() && k != i implies #[trigger] self@[k] == before[k] by {
                    assert(self.matrix@[k] == before_lines[k]);
                }
            }
            i += 1;
        }
    }
}

impl SubAssign for GlyphMatrix {
    /// Lays the lines of `rhs` over the lines that this matrix has, subtracting
    /// colors; lines of `rhs` beyond these fall away.
    fn sub_assign(&mut self, rhs: Self)
        ensures
            lines_laid(old(self)@, rhs@, GlyphLineOp::SubAssign, false, final(self)@),
    {
        self.lay_lines(&rhs, GlyphLineOp::SubAssign, false);
    }
}

impl MulAssign for GlyphMatrix {
    /// Lays the lines of `rhs` over the lines that this matrix has, multiplying
    /// colors; lines of `rhs` beyond these fall away.
    fn mul_assign(&mut self, rhs: Self)
        ensures
            lines_laid(old(self)@, rhs@, GlyphLineOp::MulAssign, false, final(self)@),
    {
        self.lay_lines(&rhs, GlyphLineOp::MulAssign, false);
    }
}

impl AddAssign for GlyphMatrix {
    /// Lays the lines of `rhs` over these lines, taking its colors; lines of `rhs`
    /// beyond these are added.
    fn add_assign(&mut self, rhs: Self)
        ensures
            lines_laid(old(self)@, rhs@, GlyphLineOp::Assign, true, final(self)@),
    {
        self.lay_lines(&rhs, GlyphLineOp::Assign, true);
    }
}

/// A model's layer after `op` applies `rhs` to it: added, subtracted or multiplied,
/// taken over, reset to 0, or kept.
pub open spec fn layer_applied(op: ApplyOperation, layer: usize, rhs: usize) -> int {
    match op {
        ApplyOperation::Add => layer + rhs,
        ApplyOperation::Assign => rhs as int,
        ApplyOperation::Delete => 0,
        ApplyOperation::Subtract => layer - rhs,
        ApplyOperation::Multiply => layer * rhs,
        ApplyOperation::Noop => layer as int,
    }
}

/// Applies `rhs` to a model's layer under `op` (see [layer_applied]); the result must
/// be a `usize`.
pub fn apply_to_layer(op: ApplyOperation, layer: &mut usize, rhs: usize)
    requires
        0 <= layer_applied(op, *old(layer), rhs) <= usize::MAX,
    ensures
        *final(layer) == layer_applied(op, *old(layer), rhs),
{
    match op {
        ApplyOperation::Add => *layer = *layer + rhs,
        ApplyOperation::Assign => *layer = rhs,
        ApplyOperation::Delete => *layer = 0,
        ApplyOperation::Subtract => *layer = *layer - rhs,
        ApplyOperation::Multiply => *layer = *layer * rhs,
        ApplyOperation::Noop => {},
    }
}

/// Applies `rhs` to a model's matrix under `op`: adding lays its lines over the
/// matrix and adds those beyond it, subtracting and multiplying lay them over the
/// lines the matrix has with those colors, assigning takes `rhs` over, deleting
/// empties the matrix, and no operation keeps it.
pub fn apply_to_matrix(op: ApplyOperation, matrix: &mut GlyphMatrix, rhs: GlyphMatrix)
    ensures
        match op {
            ApplyOperation::Add => lines_laid(old(matrix)@, rhs@, GlyphLineOp::Assign, true, final(matrix)@),
            ApplyOperation::Subtract => lines_laid(old(matrix)@, rhs@, GlyphLineOp::SubAssign, false, final(matrix)@),
            ApplyOperation::Multiply => lines_laid(old(matrix)@, rhs@, GlyphLineOp::MulAssign, false, final(matrix)@),
            ApplyOperation::Assign => final(matrix)@ == rhs@,
            ApplyOperation::Delete => final(matrix)@ == Seq::<LineView>::empty(),
            ApplyOperation::Noop => final(matrix)@ == old(matrix)@,
        },
{
    match op {
        ApplyOperation::Add => matrix.lay_lines(&rhs, GlyphLineOp::Assign, true),
        ApplyOperation::Subtract => matrix.lay_lines(&rhs, GlyphLineOp::SubAssign, false),
        ApplyOperation::Multiply => matrix.lay_lines(&rhs, GlyphLineOp::MulAssign, false),
        ApplyOperation::Assign => *matrix = rhs,
        ApplyOperation::Delete => *matrix = GlyphMatrix::new(),
        ApplyOperation::Noop => {},
    }
}

} // verus!
