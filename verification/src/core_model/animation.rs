use std::rc::Rc;
use vstd::prelude::*;

verus! {

pub trait Mutator<T: Mutable> {
    fn mutate(&self, value: &mut T);
}

pub trait AnimationMutator<T: Mutable> {
    fn update(instance: AnimationInstance<T>);
}

/// An animation: a timeline of events and the mutators that the events refer to.
pub struct AnimationDef<T: Mutable> {
    pub timeline: Timeline,
    pub mutators: Vec<Box<T>>,
}

impl<T: Mutable> AnimationDef<T> {
    pub fn new(timeline: Timeline, mutators: Vec<Box<T>>) -> (def: Rc<Self>)
        ensures
            def.timeline@ == timeline@,
            def.mutators@ == mutators@,
    {
        Rc::new(Self { timeline, mutators })
    }

    pub fn empty() -> (def: Rc<Self>)
        ensures
            def.timeline@.len() == 0,
            def.mutators@.len() == 0,
    {
        Rc::new(Self { timeline: Vec::new(), mutators: Vec::new() })
    }
}

/// A running animation.
pub struct AnimationInstance<T: Mutable> {
    pub def: Rc<AnimationDef<T>>,
    pub speed: usize,
    pub play_num_times: usize,
    pub current_frame: u16,
    pub frame_elapsed_time: usize,
}

pub trait Mutable {
}

pub type Timeline = Vec<TimelineEvent>;

/// Builds a [Timeline] event by event.
#[derive(Clone, Eq, Hash, PartialEq)]
pub struct TimelineBuilder {
    pub events: Vec<TimelineEvent>,
}

impl TimelineBuilder {
    pub fn begin() -> (builder: Self)
        ensures
            builder.events@.len() == 0,
    {
        Self { events: Vec::new() }
    }

    fn build(self) -> (timeline: Timeline)
        ensures
            timeline@ == self.events@,
    {
        self.events
    }

    /// The timeline, ended by [TimelineEvent::Terminate].
    pub fn terminate(self) -> (timeline: Timeline)
        ensures
            timeline@ == self.events@.push(TimelineEvent::Terminate),
    {
        let mut events = self.events;
        events.push(TimelineEvent::Terminate);
        TimelineBuilder { events }.build()
    }

    /// The timeline, ended by a jump to event `label`.
    pub fn goto(self, label: usize) -> (timeline: Timeline)
        ensures
            timeline@ == self.events@.push(TimelineEvent::Goto(label)),
    {
        let mut events = self.events;
        events.push(TimelineEvent::Goto(label));
        TimelineBuilder { events }.build()
    }

    pub fn wait_millis(self, millis: usize) -> (builder: Self)
        ensures
            builder.events@ == self.events@.push(TimelineEvent::WaitMillis(millis)),
    {
        let mut events = self.events;
        events.push(TimelineEvent::WaitMillis(millis));
        TimelineBuilder { events }
    }

    pub fn mutator(self, mutator: u16) -> (builder: Self)
        ensures
            builder.events@ == self.events@.push(TimelineEvent::Mutator(mutator)),
    {
        let mut events = self.events;
        events.push(TimelineEvent::Mutator(mutator));
        TimelineBuilder { events }
    }

    pub fn interpolation(self, mutator: u16, num_frames: u16, duration: usize) -> (builder: Self)
        ensures
            builder.events@ == self.events@.push(
                TimelineEvent::Interpolation { mutator, num_frames, duration },
            ),
    {
        let mut events = self.events;
        events.push(TimelineEvent::Interpolation { mutator, num_frames, duration });
        TimelineBuilder { events }
    }
}

#[derive(Copy, Clone, Eq, Hash, PartialEq)]
pub enum TimelineEvent {
    Terminate,
    Goto(usize),
    WaitMillis(usize),
    Mutator(u16),
    Interpolation { mutator: u16, num_frames: u16, duration: usize },
}

} // verus!
