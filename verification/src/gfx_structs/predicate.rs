use crate::core_model::primitives::Range;
use crate::core_model::regions::{
    has_range, range_before, region_of, regions_sorted, ColorFontRegion, ColorFontRegionField, ColorFontRegions,
};
use crate::font::fonts::AppFont;
use vstd::prelude::*;

verus! {

/// A comparison, which the flag negates when set.
#[derive(Clone, Debug, Copy, PartialEq, Eq, Structural)]
pub enum Comparator {
    Equals(bool),
    Exists(bool),
    GreaterThan(bool),
    LessThan(bool),
}

impl Comparator {
    pub fn equals() -> (c: Self)
        ensures
            c == Comparator::Equals(false),
    {
        Comparator::Equals(false)
    }

    pub fn not_equals() -> (c: Self)
        ensures
            c == Comparator::Equals(true),
    {
        Comparator::Equals(true)
    }

    pub fn does_exist() -> (c: Self)
        ensures
            c == Comparator::Exists(false),
    {
        Comparator::Exists(false)
    }

    pub fn not_exists() -> (c: Self)
        ensures
            c == Comparator::Exists(true),
    {
        Comparator::Exists(true)
    }

    pub fn greater() -> (c: Self)
        ensures
            c == Comparator::GreaterThan(false),
    {
        Comparator::GreaterThan(false)
    }

    pub fn less_or_equal() -> (c: Self)
        ensures
            c == Comparator::GreaterThan(true),
    {
        Comparator::GreaterThan(true)
    }

    pub fn less() -> (c: Self)
        ensures
            c == Comparator::LessThan(false),
    {
        Comparator::LessThan(false)
    }

    pub fn greater_or_equal() -> (c: Self)
        ensures
            c == Comparator::LessThan(true),
    {
        Comparator::LessThan(true)
    }
}

/// One field test of a predicate, with what it reads of the element as plain values.
#[derive(Clone, Copy, Debug, PartialEq, Eq)]
pub enum PlainFieldTest {
    /// A test whose outcome is computed where the values are: the comparisons of
    /// floats (scale, line height, positions, bounds), of texts, of matrices and lines,
    /// and of region colors.
    Decided(bool),
    /// A test that does not decide: those on the regions or the operation of an area,
    /// on flags, and on a region the element does not have.
    Undecided,
    /// The wanted channel and the element's channel.
    Channel { wanted: usize, element: usize },
    /// The wanted id and the element's id.
    Id { wanted: usize, element: usize },
    /// The wanted layer and the layer of the element's model (`None`: no model).
    Layer { wanted: usize, layer: Option<usize> },
    /// The length of a line and that of the model's line of the same number
    /// (`None`: no model; `Some(None)`: no such line).
    LineLength { wanted: usize, line: Option<Option<usize>> },
    /// A number of lines and the number of lines of the model (`None`: no model).
    LineCount { wanted: usize, lines: Option<usize> },
    /// A range and that of the element's region.
    RegionRange { wanted: Range, target: Range },
    /// A font and the font of the element's region, if it has one.
    RegionFont { wanted: AppFont, target: Option<AppFont> },
    /// Whether the element's region has a color, for a test of its existence.
    RegionColor { present: bool },
    /// The element's region as a whole, for a test of its existence.
    RegionWhole,
}

/// Whether a comparator can be put to a field test: equality is not asked of a line
/// count or a whole region, order not of a region's font, color or whole, and no
/// comparison but existence of a region's color.
pub open spec fn test_supported(t: PlainFieldTest, c: Comparator) -> bool {
    match t {
        PlainFieldTest::LineCount { .. } => !(c is Equals),
        PlainFieldTest::RegionFont { .. } => c is Equals || c is Exists,
        PlainFieldTest::RegionColor { .. } => c is Exists,
        PlainFieldTest::RegionWhole => c is Exists,
        _ => true,
    }
}

/// What a field test decides under a comparator, if it decides; `n` is the
/// comparator's negation flag.
pub open spec fn field_verdict(t: PlainFieldTest, c: Comparator) -> Option<bool> {
    let n = match c {
        Comparator::Equals(n) => n,
        Comparator::Exists(n) => n,
        Comparator::GreaterThan(n) => n,
        Comparator::LessThan(n) => n,
    };
    match t {
        PlainFieldTest::Decided(b) => Some(b),
        PlainFieldTest::Undecided => None,
        PlainFieldTest::Channel { wanted, element } => Some(
            match c {
                Comparator::Equals(_) => (wanted == element) != n,
                Comparator::GreaterThan(_) => (wanted > element) != n,
                Comparator::LessThan(_) => (wanted < element) != n,
                Comparator::Exists(_) => false,
            },
        ),
        PlainFieldTest::Id { wanted, element } => Some(
            match c {
                Comparator::Equals(_) => (wanted == element) != n,
                Comparator::GreaterThan(_) => (element > wanted) != n,
                Comparator::LessThan(_) => (element < wanted) != n,
                Comparator::Exists(_) => !n,
            },
        ),
        PlainFieldTest::Layer { wanted, layer } => Some(
            match layer {
                None => false,
                Some(l) => match c {
                    Comparator::Equals(_) => (wanted == l) != n,
                    Comparator::GreaterThan(_) => (wanted > l) != n,
                    Comparator::LessThan(_) => wanted < l,
                    Comparator::Exists(_) => !n,
                },
            },
        ),
        PlainFieldTest::LineLength { wanted, line } => Some(
            match line {
                None => false,
                Some(found) => match c {
                    Comparator::Exists(_) => !n,
                    Comparator::Equals(_) => false,
                    Comparator::GreaterThan(_) => match found {
                        Some(len) => (len > wanted) != n,
                        None => false,
                    },
                    Comparator::LessThan(_) => match found {
                        Some(len) => (len < wanted) != n,
                        None => false,
                    },
                },
            },
        ),
        PlainFieldTest::LineCount { wanted, lines } => Some(
            match lines {
                None => false,
                Some(count) => match c {
                    Comparator::GreaterThan(_) => (wanted > count) != n,
                    Comparator::LessThan(_) => (wanted < count) != n,
                    _ => !n,
                },
            },
        ),
        PlainFieldTest::RegionRange { wanted, target } => Some(
            match c {
                Comparator::Equals(_) => (wanted == target) != n,
                Comparator::GreaterThan(_) => range_before(wanted, target) != n,
                Comparator::LessThan(_) => range_before(target, wanted) != n,
                Comparator::Exists(_) => !n,
            },
        ),
        PlainFieldTest::RegionFont { wanted, target } => Some(
            match c {
                Comparator::Exists(_) => target.is_some() != n,
                _ => match target {
                    Some(f) => (wanted == f) != n,
                    None => false,
                },
            },
        ),
        PlainFieldTest::RegionColor { present } => Some(present != n),
        PlainFieldTest::RegionWhole => Some(!n),
    }
}

/// Whether a predicate's tests can be run: each test up to the first that decides
/// takes its comparator.
pub open spec fn tests_supported(fields: Seq<(PlainFieldTest, Comparator)>) -> bool
    decreases fields.len(),
{
    if fields.len() == 0 {
        true
    } else {
        &&& test_supported(fields[0].0, fields[0].1)
        &&& field_verdict(fields[0].0, fields[0].1) is None ==> tests_supported(fields.drop_first())
    }
}

/// What a predicate decides: the outcome of the earliest field that decides, or `false`
/// when no field does.
pub open spec fn first_verdict(fields: Seq<(PlainFieldTest, Comparator)>) -> bool
    decreases fields.len(),
{
    if fields.len() == 0 {
        false
    } else {
        match field_verdict(fields[0].0, fields[0].1) {
            Some(b) => b,
            None => first_verdict(fields.drop_first()),
        }
    }
}

/// What one field test decides under a comparator, if it decides (see [field_verdict]).
pub fn test_field(t: &PlainFieldTest, c: Comparator) -> (verdict: Option<bool>)
    ensures
        verdict == field_verdict(*t, c),
{
    let n = match c {
        Comparator::Equals(n) => n,
        Comparator::Exists(n) => n,
        Comparator::GreaterThan(n) => n,
        Comparator::LessThan(n) => n,
    };
    match t {
        PlainFieldTest::Decided(b) => Some(*b),
        PlainFieldTest::Undecided => None,
        PlainFieldTest::Channel { wanted, element } => Some(
            match c {
                Comparator::Equals(_) => (*wanted == *element) != n,
                Comparator::GreaterThan(_) => (*wanted > *element) != n,
                Comparator::LessThan(_) => (*wanted < *element) != n,
                Comparator::Exists(_) => false,
            },
        ),
        PlainFieldTest::Id { wanted, element } => Some(
            match c {
                Comparator::Equals(_) => (*wanted == *element) != n,
                Comparator::GreaterThan(_) => (*element > *wanted) != n,
                Comparator::LessThan(_) => (*element < *wanted) != n,
                Comparator::Exists(_) => !n,
            },
        ),
        PlainFieldTest::Layer { wanted, layer } => Some(
            match layer {
                None => false,
                Some(l) => match c {
                    Comparator::Equals(_) => (*wanted == *l) != n,
                    Comparator::GreaterThan(_) => (*wanted > *l) != n,
                    Comparator::LessThan(_) => *wanted < *l,
                    Comparator::Exists(_) => !n,
                },
            },
        ),
        PlainFieldTest::LineLength { wanted, line } => Some(
            match line {
                None => false,
                Some(found) => match c {
                    Comparator::Exists(_) => !n,
                    Comparator::Equals(_) => false,
                    Comparator::GreaterThan(_) => match found {
                        Some(len) => (*len > *wanted) != n,
                        None => false,
                    },
                    Comparator::LessThan(_) => match found {
                        Some(len) => (*len < *wanted) != n,
                        None => false,
                    },
                },
            },
        ),
        PlainFieldTest::LineCount { wanted, lines } => Some(
            match lines {
                None => false,
                Some(count) => match c {
                    Comparator::GreaterThan(_) => (*wanted > *count) != n,
                    Comparator::LessThan(_) => (*wanted < *count) != n,
                    _ => !n,
                },
            },
        ),
        PlainFieldTest::RegionRange { wanted, target } => Some(
            match c {
                Comparator::Equals(_) => (wanted.start == target.start && wanted.end == target.end) != n,
                Comparator::GreaterThan(_) => (wanted.start < target.start || (wanted.start == target.start
                    && wanted.end < target.end)) != n,
                Comparator::LessThan(_) => (target.start < wanted.start || (target.start == wanted.start
                    && target.end < wanted.end)) != n,
                Comparator::Exists(_) => !n,
            },
        ),
        PlainFieldTest::RegionFont { wanted, target } => Some(
            match c {
                Comparator::Exists(_) => target.is_some() != n,
                _ => match target {
                    Some(f) => (*wanted == *f) != n,
                    None => false,
                },
            },
        ),
        PlainFieldTest::RegionColor { present } => Some(*present != n),
        PlainFieldTest::RegionWhole => Some(!n),
    }
}

/// The outcome of a predicate on an element, given its field tests in order (see
/// [first_verdict]).
pub fn predicate_verdict(fields: &Vec<(PlainFieldTest, Comparator)>) -> (verdict: bool)
    requires
        tests_supported(fields@),
    ensures
        verdict == first_verdict(fields@),
{
    let mut i: usize = 0;
    assert(fields@.skip(0) =~= fields@);
    while i < fields.len()
        invariant
            i <= fields.len(),
            tests_supported(fields@.skip(i as int)),
            first_verdict(fields@) == first_verdict(fields@.skip(i as int)),
        decreases fields.len() - i,
    {
        let ghost rest = fields@.skip(i as int);
        assert(rest[0] == fields@[i as int]);
        assert(rest.drop_first() =~= fields@.skip(i + 1));
        match test_field(&fields[i].0, fields[i].1) {
            Some(b) => {
                return b;
            },
            None => {},
        }
        i += 1;
    }
    assert(fields@.skip(i as int).len() == 0);
    false
}

/// What a predicate reads of a glyph model: its layer and the length, in grapheme
/// clusters, of each of its lines.
pub struct ModelFacts {
    pub layer: usize,
    pub line_lengths: Vec<usize>,
}

/// What a predicate reads of an element: its channel and id, its glyph model if it is
/// one, and the regions of its glyph area if it is one.
pub struct ElementFacts {
    pub channel: usize,
    pub id: usize,
    pub model: Option<ModelFacts>,
    pub regions: Option<ColorFontRegions>,
}

/// A field of a predicate, as far as it is read from plain values.
pub enum PlainField {
    Channel(usize),
    Id(usize),
    /// A model's layer.
    Layer(usize),
    /// A line of a model, by its number, with the length of the line it is compared to.
    LineLength(usize, usize),
    /// A number of lines of a model.
    LineCount(usize),
    /// A region of an area, by its range, and what of it is tested.
    Region(Range, ColorFontRegionField),
    /// A field whose test is computed where its values are (floats, texts, matrices,
    /// region colors).
    Decided(bool),
    /// A field whose test does not decide (an area's regions or operation, a flag).
    Undecided,
}

/// The region of `regions` with range `k`, if there is one.
pub open spec fn region_with_range(regions: ColorFontRegions, k: Range) -> Option<ColorFontRegion> {
    if has_range(regions.region_set(), k) {
        Some(region_of(regions.region_set(), k))
    } else {
        None
    }
}

/// The test that `field` makes of `e`. A region field reads the region with its range:
/// where there is none, it does not decide.
pub open spec fn field_test_of(field: PlainField, e: ElementFacts) -> PlainFieldTest {
    match field {
        PlainField::Channel(c) => PlainFieldTest::Channel { wanted: c, element: e.channel },
        PlainField::Id(i) => PlainFieldTest::Id { wanted: i, element: e.id },
        PlainField::Layer(l) => PlainFieldTest::Layer {
            wanted: l,
            layer: match e.model {
                Some(mf) => Some(mf.layer),
                None => None,
            },
        },
        PlainField::LineLength(n, len) => PlainFieldTest::LineLength {
            wanted: len,
            line: match e.model {
                Some(mf) => Some(if n < mf.line_lengths@.len() { Some(mf.line_lengths@[n as int]) } else { None }),
                None => None,
            },
        },
        PlainField::LineCount(c) => PlainFieldTest::LineCount {
            wanted: c,
            lines: match e.model {
                Some(mf) => Some(mf.line_lengths@.len() as usize),
                None => None,
            },
        },
        PlainField::Region(k, what) => match e.regions {
            Some(regs) => match region_with_range(regs, k) {
                Some(r) => match what {
                    ColorFontRegionField::Range(wanted) => PlainFieldTest::RegionRange { wanted, target: r.range },
                    ColorFontRegionField::Font(wanted) => PlainFieldTest::RegionFont { wanted, target: r.font },
                    ColorFontRegionField::Color(_) => PlainFieldTest::RegionColor { present: r.color is Some },
                    ColorFontRegionField::This => PlainFieldTest::RegionWhole,
                },
                None => PlainFieldTest::Undecided,
            },
            None => PlainFieldTest::Undecided,
        },
        PlainField::Decided(b) => PlainFieldTest::Decided(b),
        PlainField::Undecided => PlainFieldTest::Undecided,
    }
}

/// Two regions of sorted regions with one range are the same region.
proof fn lemma_region_unique(regions: ColorFontRegions, x: ColorFontRegion, y: ColorFontRegion)
    requires
        regions.wf(),
        regions.region_set().contains(x),
        regions.region_set().contains(y),
        x.range == y.range,
    ensures
        x == y,
{
    let s = regions.regions@;
    let i = choose|i: int| 0 <= i < s.len() && s[i] == x;
    let j = choose|j: int| 0 <= j < s.len() && s[j] == y;
    if i < j {
        assert(range_before(s[i].range, s[j].range));
    } else if j < i {
        assert(range_before(s[j].range, s[i].range));
    }
}

/// Reads the test that `field` makes of `e` (see [field_test_of]). A region is read
/// of an element that has an area.
pub fn read_field(field: &PlainField, e: &ElementFacts) -> (test: PlainFieldTest)
    requires
        field is Region ==> e.regions is Some,
        e.regions matches Some(regs) ==> regs.wf(),
    ensures
        test == field_test_of(*field, *e),
{
    match field {
        PlainField::Channel(c) => PlainFieldTest::Channel { wanted: *c, element: e.channel },
        PlainField::Id(i) => PlainFieldTest::Id { wanted: *i, element: e.id },
        PlainField::Layer(l) => PlainFieldTest::Layer {
            wanted: *l,
            layer: match &e.model {
                Some(mf) => Some(mf.layer),
                None => None,
            },
        },
        PlainField::LineLength(n, len) => PlainFieldTest::LineLength {
            wanted: *len,
            line: match &e.model {
                Some(mf) => Some(if *n < mf.line_lengths.len() { Some(mf.line_lengths[*n]) } else { None }),
                None => None,
            },
        },
        PlainField::LineCount(c) => PlainFieldTest::LineCount {
            wanted: *c,
            lines: match &e.model {
                Some(mf) => Some(mf.line_lengths.len()),
                None => None,
            },
        },
        PlainField::Region(k, what) => {
            let regs = e.regions.as_ref().unwrap();
            match regs.get(*k) {
                Some(r) => {
                    proof {
                        let s = regs.region_set();
                        assert(has_range(s, *k));
                        lemma_region_unique(*regs, *r, region_of(s, *k));
                    }
                    match what {
                        ColorFontRegionField::Range(wanted) => PlainFieldTest::RegionRange { wanted: *wanted, target: r.range },
                        ColorFontRegionField::Font(wanted) => PlainFieldTest::RegionFont { wanted: *wanted, target: r.font },
                        ColorFontRegionField::Color(_) => PlainFieldTest::RegionColor { present: r.color.is_some() },
                        ColorFontRegionField::This => PlainFieldTest::RegionWhole,
                    }
                },
                None => PlainFieldTest::Undecided,
            }
        },
        PlainField::Decided(b) => PlainFieldTest::Decided(*b),
        PlainField::Undecided => PlainFieldTest::Undecided,
    }
}

/// Whether the fields of a predicate can be read of `e` and tested: regions only of an
/// element with an area, and each test up to the first that decides takes its
/// comparator.
pub open spec fn fields_supported(fields: Seq<(PlainField, Comparator)>, e: ElementFacts) -> bool {
    &&& forall|i: int| 0 <= i < fields.len() ==> ((#[trigger] fields[i]).0 is Region ==> e.regions is Some)
    &&& tests_supported(fields.map_values(|f: (PlainField, Comparator)| (field_test_of(f.0, e), f.1)))
}

/// The verdict of a predicate with fields `fields` on element `e`: the fields are
/// read of the element (see [read_field]), then tested (see [predicate_verdict]).
pub fn test_element(fields: &Vec<(PlainField, Comparator)>, e: &ElementFacts) -> (verdict: bool)
    requires
        e.regions matches Some(regs) ==> regs.wf(),
        fields_supported(fields@, *e),
    ensures
        verdict == first_verdict(fields@.map_values(|f: (PlainField, Comparator)| (field_test_of(f.0, *e), f.1))),
{
    let mut tests: Vec<(PlainFieldTest, Comparator)> = Vec::new();
    let mut i: usize = 0;
    while i < fields.len()
        invariant
            i <= fields.len(),
            e.regions matches Some(regs) ==> regs.wf(),
            forall|j: int| 0 <= j < fields.len() ==> ((#[trigger] fields@[j]).0 is Region ==> e.regions is Some),
            tests@ == fields@.take(i as int).map_values(|f: (PlainField, Comparator)| (field_test_of(f.0, *e), f.1)),
        decreases fields.len() - i,
    {
        let t = read_field(&fields[i].0, e);
        tests.push((t, fields[i].1));
        assert(tests@ =~= fields@.take(i + 1).map_values(|f: (PlainField, Comparator)| (field_test_of(f.0, *e), f.1)));
        i += 1;
    }
    assert(fields@.take(i as int) =~= fields@);
    predicate_verdict(&tests)
}

/// How a predicate compares channels: the wanted channel stands on the left, so
/// `less()` holds when it is below the element's channel and `greater()` when it is
/// above; of equal, below and above exactly one holds; comparing `a` below `b` is
/// comparing `b` above `a`; and the negated comparators give the opposite verdicts.
pub proof fn law_channel_comparisons(wanted: usize, element: usize)
    ensures
        field_verdict(PlainFieldTest::Channel { wanted, element }, Comparator::LessThan(false)) == Some(wanted < element),
        field_verdict(PlainFieldTest::Channel { wanted, element }, Comparator::GreaterThan(false)) == Some(wanted > element),
        field_verdict(PlainFieldTest::Channel { wanted, element }, Comparator::Equals(false)) == Some(wanted == element),
        field_verdict(PlainFieldTest::Channel { wanted, element }, Comparator::LessThan(false)) == field_verdict(
            PlainFieldTest::Channel { wanted: element, element: wanted },
            Comparator::GreaterThan(false),
        ),
        ({
            let eq = field_verdict(PlainFieldTest::Channel { wanted, element }, Comparator::Equals(false)) == Some(true);
            let lt = field_verdict(PlainFieldTest::Channel { wanted, element }, Comparator::LessThan(false)) == Some(true);
            let gt = field_verdict(PlainFieldTest::Channel { wanted, element }, Comparator::GreaterThan(false)) == Some(true);
            (eq || lt || gt) && !(eq && lt) && !(eq && gt) && !(lt && gt)
        }),
        field_verdict(PlainFieldTest::Channel { wanted, element }, Comparator::LessThan(true)) == Some(
            !(field_verdict(PlainFieldTest::Channel { wanted, element }, Comparator::LessThan(false)) == Some(true)),
        ),
        field_verdict(PlainFieldTest::Channel { wanted, element }, Comparator::GreaterThan(true)) == Some(
            !(field_verdict(PlainFieldTest::Channel { wanted, element }, Comparator::GreaterThan(false)) == Some(true)),
        ),
        field_verdict(PlainFieldTest::Channel { wanted, element }, Comparator::Equals(true)) == Some(
            !(field_verdict(PlainFieldTest::Channel { wanted, element }, Comparator::Equals(false)) == Some(true)),
        ),
{
}

/// How a predicate compares ids: the element's id stands on the left, so `greater()`
/// holds when the element's id is above the wanted one and `less()` when it is below;
/// of equal, below and above exactly one holds; the negated comparators give the
/// opposite verdicts; and every element has an id.
pub proof fn law_id_comparisons(wanted: usize, element: usize)
    ensures
        field_verdict(PlainFieldTest::Id { wanted, element }, Comparator::GreaterThan(false)) == Some(element > wanted),
        field_verdict(PlainFieldTest::Id { wanted, element }, Comparator::LessThan(false)) == Some(element < wanted),
        field_verdict(PlainFieldTest::Id { wanted, element }, Comparator::Equals(false)) == Some(element == wanted),
        ({
            let eq = field_verdict(PlainFieldTest::Id { wanted, element }, Comparator::Equals(false)) == Some(true);
            let lt = field_verdict(PlainFieldTest::Id { wanted, element }, Comparator::LessThan(false)) == Some(true);
            let gt = field_verdict(PlainFieldTest::Id { wanted, element }, Comparator::GreaterThan(false)) == Some(true);
            (eq || lt || gt) && !(eq && lt) && !(eq && gt) && !(lt && gt)
        }),
        field_verdict(PlainFieldTest::Id { wanted, element }, Comparator::LessThan(true)) == Some(
            !(field_verdict(PlainFieldTest::Id { wanted, element }, Comparator::LessThan(false)) == Some(true)),
        ),
        field_verdict(PlainFieldTest::Id { wanted, element }, Comparator::GreaterThan(true)) == Some(
            !(field_verdict(PlainFieldTest::Id { wanted, element }, Comparator::GreaterThan(false)) == Some(true)),
        ),
        field_verdict(PlainFieldTest::Id { wanted, element }, Comparator::Exists(false)) == Some(true),
        field_verdict(PlainFieldTest::Id { wanted, element }, Comparator::Exists(true)) == Some(false),
{
}

/// How a predicate orders a region's range: `greater()` holds when the element's
/// region comes after the wanted range (by start, then end), `less()` when it comes
/// before; of equal, before and after exactly one holds.
pub proof fn law_region_range_comparisons(wanted: Range, target: Range)
    ensures
        field_verdict(PlainFieldTest::RegionRange { wanted, target }, Comparator::GreaterThan(false)) == Some(
            target.start > wanted.start || (target.start == wanted.start && target.end > wanted.end),
        ),
        field_verdict(PlainFieldTest::RegionRange { wanted, target }, Comparator::LessThan(false)) == Some(
            target.start < wanted.start || (target.start == wanted.start && target.end < wanted.end),
        ),
        ({
            let eq = field_verdict(PlainFieldTest::RegionRange { wanted, target }, Comparator::Equals(false)) == Some(true);
            let lt = field_verdict(PlainFieldTest::RegionRange { wanted, target }, Comparator::LessThan(false)) == Some(true);
            let gt = field_verdict(PlainFieldTest::RegionRange { wanted, target }, Comparator::GreaterThan(false)) == Some(true);
            (eq || lt || gt) && !(eq && lt) && !(eq && gt) && !(lt && gt)
        }),
{
}

/// A predicate's verdict is that of its earliest field that decides: fields before it
/// that do not decide change nothing, and nothing after it is looked at.
pub proof fn law_first_deciding_field(
    undecided: Seq<(PlainFieldTest, Comparator)>,
    deciding: (PlainFieldTest, Comparator),
    rest: Seq<(PlainFieldTest, Comparator)>,
)
    requires
        forall|i: int| 0 <= i < undecided.len() ==> field_verdict((#[trigger] undecided[i]).0, undecided[i].1) is None,
        field_verdict(deciding.0, deciding.1) is Some,
    ensures
        first_verdict(undecided + seq![deciding] + rest) == field_verdict(deciding.0, deciding.1)->0,
    decreases undecided.len(),
{
    let all = undecided + seq![deciding] + rest;
    if undecided.len() == 0 {
        assert(all[0] == deciding);
    } else {
        assert(all[0] == undecided[0]);
        assert(all.drop_first() =~= undecided.drop_first() + seq![deciding] + rest);
        assert forall|i: int| 0 <= i < undecided.drop_first().len() implies field_verdict(
            (#[trigger] undecided.drop_first()[i]).0,
            undecided.drop_first()[i].1,
        ) is None by {
            assert(undecided.drop_first()[i] == undecided[i + 1]);
        }
        law_first_deciding_field(undecided.drop_first(), deciding, rest);
    }
}

/// How a predicate compares a glyph model: `greater()` holds when the wanted layer is
/// above the model's, a line of the model is longer than the wanted length, or the
/// wanted number of lines is above the model's; `less()` the other way round (on a
/// layer, regardless of negation); an element without a model passes no model test,
/// and a missing line passes no length comparison.
pub proof fn law_model_comparisons(wanted: usize, value: usize, n: bool)
    ensures
        field_verdict(PlainFieldTest::Layer { wanted, layer: Some(value) }, Comparator::GreaterThan(false)) == Some(wanted > value),
        field_verdict(PlainFieldTest::Layer { wanted, layer: Some(value) }, Comparator::LessThan(n)) == Some(wanted < value),
        field_verdict(PlainFieldTest::Layer { wanted, layer: Some(value) }, Comparator::Equals(false)) == Some(wanted == value),
        field_verdict(PlainFieldTest::LineLength { wanted, line: Some(Some(value)) }, Comparator::GreaterThan(false)) == Some(value > wanted),
        field_verdict(PlainFieldTest::LineLength { wanted, line: Some(Some(value)) }, Comparator::LessThan(false)) == Some(value < wanted),
        field_verdict(PlainFieldTest::LineCount { wanted, lines: Some(value) }, Comparator::GreaterThan(false)) == Some(wanted > value),
        field_verdict(PlainFieldTest::LineCount { wanted, lines: Some(value) }, Comparator::LessThan(false)) == Some(wanted < value),
        field_verdict(PlainFieldTest::Layer { wanted, layer: None }, Comparator::Exists(n)) == Some(false),
        field_verdict(PlainFieldTest::LineLength { wanted, line: None }, Comparator::Exists(n)) == Some(false),
        field_verdict(PlainFieldTest::LineCount { wanted, lines: None }, Comparator::Exists(n)) == Some(false),
        field_verdict(PlainFieldTest::LineLength { wanted, line: Some(None) }, Comparator::GreaterThan(n)) == Some(false),
        field_verdict(PlainFieldTest::LineLength { wanted, line: Some(None) }, Comparator::LessThan(n)) == Some(false),
{
}

} // verus!
