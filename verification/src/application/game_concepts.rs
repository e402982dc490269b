use vstd::prelude::*;

verus! {

/// The stack of user interface elements.
pub struct UiStack {
    pub elements: Vec<Box<usize>>,
}

impl UiStack {
    /// An empty stack.
    pub fn new() -> (stack: Self)
        ensures
            stack.elements@.len() == 0,
    {
        UiStack { elements: Vec::new() }
    }
}

/// A property of a game object with its value.
#[derive(Clone, Copy, PartialEq, Eq, Hash, Debug, Structural)]
pub enum ObjectProperty {
    Health(usize),
}

impl ObjectProperty {
    /// The kind of this property.
    pub fn get_type(&self) -> (kind: ObjectPropertyType)
        ensures
            self is Health ==> kind == ObjectPropertyType::Health,
    {
        match self {
            ObjectProperty::Health(_) => ObjectPropertyType::Health,
        }
    }
}

/// The kinds of properties of game objects.
#[derive(Clone, Copy, PartialEq, Eq, Hash, Debug, Structural)]
pub enum ObjectPropertyType {
    Health,
}

/// Drives a game object; implemented by the users of the library.
pub trait ObjectController {
    fn tick(&mut self);
}

} // verus!
