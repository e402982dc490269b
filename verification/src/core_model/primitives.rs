
use vstd::prelude::*;

verus! {

/// The ways in which a change is applied to a value.
#[derive(Clone, Copy, Eq, PartialEq, Debug)]
pub enum ApplyOperation {
    Add,
    Assign,
    Delete,
    Subtract,
    Multiply,
    Noop,
}

/// A half-open range of positions, `start..end`.
#[derive(Clone, Copy, PartialOrd, Ord, PartialEq, Eq, Hash, Debug, Structural)]
pub struct Range {
    pub start: usize,
    pub end: usize,
}

impl Range {
    pub fn tup(range: (usize, usize)) -> (r: Self)
        ensures
            r == (Range { start: range.0, end: range.1 }),
    {
        Range { start: range.0, end: range.1 }
    }

    pub fn new(start: usize, end: usize) -> (r: Self)
        ensures
            r == (Range { start, end }),
    {
        Range { start, end }
    }

    pub fn to_rust_range(&self) -> (r: std::ops::Range<usize>)
        ensures
            r.start == self.start,
            r.end == self.end,
    {
        self.start..self.end
    }

    /// The number of positions in the range.
    pub fn magnitude(&self) -> (m: usize)
        requires
            self.start <= self.end,
        ensures
            m == self.end - self.start,
    {
        self.end - self.start
    }

    pub fn push_right(&mut self, n: usize)
        requires
            old(self).end + n <= usize::MAX,
            old(self).start + n <= usize::MAX,
        ensures
            final(self).start == old(self).start + n,
            final(self).end == old(self).end + n,
    {
        self.start += n;
        self.end += n;
    }

    pub fn push_left(&mut self, n: usize)
        requires
            old(self).start >= n,
            old(self).end >= n,
        ensures
            final(self).start == old(self).start - n,
            final(self).end == old(self).end - n,
    {
        self.start -= n;
        self.end -= n;
    }

    /// Whether the two ranges share a position.
    pub fn overlaps(&self, other: &Self) -> (o: bool)
        ensures
            o == ranges_overlap(*self, *other),
    {
        if self.start >= other.end || other.start >= self.end {
            return false;
        }
        true
    }
}

/// Whether `a` and `b` share a position.
pub open spec fn ranges_overlap(a: Range, b: Range) -> bool {
    a.start < b.end && b.start < a.end
}

/// Overlapping is symmetric: `a` overlaps `b` exactly when `b` overlaps `a`.
pub proof fn law_overlaps_symmetric(a: Range, b: Range)
    ensures
        ranges_overlap(a, b) == ranges_overlap(b, a),
{
}

pub trait Flaggable {
    fn flag_is_set(&self, flag: Flag) -> bool;

    fn set_flag(&mut self, flag: Flag);

    fn clear_flag(&mut self, flag: Flag);
}

pub trait Applicable<T: Clone> {
    fn apply_to(&self, target: &mut T);
}

/// State that a node can carry.
#[derive(Debug, Clone, Copy, Hash, Eq, PartialEq)]
pub enum Flag {
    Focused,
    Mutable,
    Anchored(AnchorBox),
    /// If set in an element, all mutations should also create a corresponding event
    MutationEvents,
}

#[derive(Clone, Copy, Hash, Eq, PartialEq, Debug)]
pub enum AnchorBox {
    Single(Anchor),
    Dual(Anchor, Anchor),
    Trio(Anchor, Anchor, Anchor),
    Full(Anchor, Anchor, Anchor, Anchor),
}

/// Ties a point of an element to a point of its target.
#[derive(Clone, Copy, Hash, Eq, PartialEq, Debug)]
pub struct Anchor {
    target: AnchorTarget,
    self_point: AnchorPoint,
    target_point: AnchorPoint,
}

impl Anchor {
    pub closed spec fn target(self) -> AnchorTarget {
        self.target
    }

    pub closed spec fn self_point(self) -> AnchorPoint {
        self.self_point
    }

    pub closed spec fn target_point(self) -> AnchorPoint {
        self.target_point
    }

    pub fn new(target: AnchorTarget, target_point: AnchorPoint, self_point: AnchorPoint) -> (a: Self)
        ensures
            a.target() == target,
            a.target_point() == target_point,
            a.self_point() == self_point,
    {
        Anchor { target, self_point, target_point }
    }

    /// Anchored to the direct parent.
    pub fn on_parent(parent_point: AnchorPoint, self_point: AnchorPoint) -> (a: Self)
        ensures
            a.target() == (AnchorTarget::Parent { generation_offset: 0 }),
            a.target_point() == parent_point,
            a.self_point() == self_point,
    {
        Anchor { target: AnchorTarget::Parent { generation_offset: 0 }, self_point, target_point: parent_point }
    }

    pub fn on_window(window_point: AnchorPoint, self_point: AnchorPoint) -> (a: Self)
        ensures
            a.target() == AnchorTarget::Window,
            a.target_point() == window_point,
            a.self_point() == self_point,
    {
        Anchor { target: AnchorTarget::Window, self_point, target_point: window_point }
    }

    pub fn in_world(world_point: AnchorPoint, self_point: AnchorPoint) -> (a: Self)
        ensures
            a.target() == AnchorTarget::World,
            a.target_point() == world_point,
            a.self_point() == self_point,
    {
        Anchor { target: AnchorTarget::World, self_point, target_point: world_point }
    }
}

impl Default for Anchor {
    fn default() -> (a: Self)
        ensures
            a.target() == (AnchorTarget::Parent { generation_offset: 0 }),
            a.target_point() == AnchorPoint::Center(0),
            a.self_point() == AnchorPoint::Center(0),
    {
        Anchor::new(AnchorTarget::Parent { generation_offset: 0 }, AnchorPoint::Center(0), AnchorPoint::Center(0))
    }
}

#[derive(Clone, Copy, Hash, Eq, PartialEq, Debug)]
pub enum AnchorTarget {
    Parent { generation_offset: usize },
    Child { child_num: usize },
    Window,
    Display,
    World,
}

#[derive(Clone, Copy, Hash, Eq, PartialEq, Debug)]
pub enum AnchorPoint {
    TopLeft(i16),
    TopCenter(i16),
    TopRight(i16),
    BotLeft(i16),
    BotCenter(i16),
    BotRight(i16),
    LeftCenter(i16),
    RightCenter(i16),
    Center(i16),
}


} // verus!
