use vstd::prelude::*;

verus! {

#[derive(Clone, Copy, PartialEq, Eq, Debug, Structural)]
pub enum MutatorType {
    Single,
    Macro,
    Void,
    Instruction,
}

/// A specific instance of an event: what happened, and when.
#[derive(Clone, Debug)]
pub struct GlyphTreeEventInstance {
    pub event_type: GlyphTreeEvent,
    /// Milliseconds since the application was launched
    pub event_time_millis: usize,
}

impl GlyphTreeEventInstance {
    pub fn new(event_type: GlyphTreeEvent, event_time_millis: usize) -> (instance: Self)
        ensures
            instance.event_type == event_type,
            instance.event_time_millis == event_time_millis,
    {
        GlyphTreeEventInstance { event_type, event_time_millis }
    }
}

#[derive(Clone, Debug, Eq, PartialEq)]
pub enum GlyphTreeEvent {
    /// Keyboard input events
    KeyboardEvent,
    /// Mouse input events
    MouseEvent,
    /// Events that are defined by the software application
    AppEvent,
    /// The recipient should start preparing to shut down now
    CloseEvent,
    /// The recipient will be terminated any time
    KillEvent,
    /// A mutation has been performed
    MutationEvent,
    /// This is used for testing mainly
    NoopEvent(usize),
}

#[derive(Copy, Clone, Debug, PartialEq, Eq, Structural)]
pub enum MutationType {
    AreaDelta,
    AreaCommand,
    ModelDelta,
    ModelCommand,
    Event,
    /// No mutation at all
    NoMutation,
}

} // verus!
