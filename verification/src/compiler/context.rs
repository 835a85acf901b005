//! What a running program reads and changes.
use crate::compiler::state::RuntimeState;
use crate::path::{OwnedTargetPath, PathPrefix, Step, TargetPath};
use crate::value;
use crate::value::{Value, ValueModel};
use vstd::prelude::*;

verus! {

/// The event that a program runs on, with its metadata.
pub trait EventTarget {
    /// The value at a path, where there is one and it can be had.
    spec fn found(&self, path: TargetPath) -> Option<ValueModel>;

    /// The value at a path, where there is one. An error says why it cannot be had.
    fn target_get(&self, path: &OwnedTargetPath) -> (r: Result<Option<&Value>, String>)
        ensures
            match r {
                Ok(Some(value)) => self.found(path@) == Some(value@),
                Ok(None) => self.found(path@) is None,
                Err(_) => self.found(path@) is None,
            },
    ;
}

/// An event and its metadata, each of them a value.
pub struct TargetValueRef<'a> {
    pub value: &'a mut Value,
    pub metadata: &'a mut Value,
}

/// The value at a path into an event or its metadata.
pub open spec fn found_in(
    event: ValueModel,
    metadata: ValueModel,
    path: TargetPath,
) -> Option<ValueModel> {
    match path.prefix {
        PathPrefix::Event => value::lookup(event, path.path),
        PathPrefix::Metadata => value::lookup(metadata, path.path),
    }
}

/// A path into the event finds what it finds in the event, and one into the metadata what it finds
/// there.
pub proof fn a_path_finds_a_value_in_its_part(
    event: ValueModel,
    metadata: ValueModel,
    path: Seq<Step>,
)
    ensures
        found_in(event, metadata, TargetPath { prefix: PathPrefix::Event, path }) == value::lookup(
            event,
            path,
        ),
        found_in(event, metadata, TargetPath { prefix: PathPrefix::Metadata, path })
            == value::lookup(metadata, path),
{
}

impl<'a> EventTarget for TargetValueRef<'a> {
    open spec fn found(&self, path: TargetPath) -> Option<ValueModel> {
        found_in((*self.value)@, (*self.metadata)@, path)
    }

    fn target_get(&self, path: &OwnedTargetPath) -> (r: Result<Option<&Value>, String>)
        ensures
            r matches Ok(found) && match found {
                Some(value) => Some(value@),
                None => None,
            } == match path@.prefix {
                PathPrefix::Event => value::lookup((*old(self.value))@, path@.path),
                PathPrefix::Metadata => value::lookup((*old(self.metadata))@, path@.path),
            },
    {
        match path.prefix {
            PathPrefix::Event => Ok(self.value.get(&path.path)),
            PathPrefix::Metadata => Ok(self.metadata.get(&path.path)),
        }
    }
}

/// What a running program reads and changes: the event with its metadata, and the variables.
pub struct Context<'a> {
    pub target: Box<dyn EventTarget + 'a>,
    pub state: &'a mut RuntimeState,
}

/// What a [`Context`] holds.
#[verifier::ext_equal]
pub struct ContextModel {
    /// The value at each path into the event or its metadata, where there is one.
    pub found: spec_fn(TargetPath) -> Option<ValueModel>,
    /// The value of each variable that has one.
    pub variables: Map<Seq<char>, ValueModel>,
}

impl<'a> View for Context<'a> {
    type V = ContextModel;

    open spec fn view(&self) -> ContextModel {
        ContextModel {
            found: |path: TargetPath| self.target.found(path),
            variables: (*self.state)@,
        }
    }
}

impl<'a> Context<'a> {
    /// The context in which a program runs on an event, with these variables.
    pub fn new(target: TargetValueRef<'a>, state: &'a mut RuntimeState) -> (r: Self)
        ensures
            r@.found == (|path: TargetPath| target.found(path)),
            forall|path: TargetPath| #[trigger]
                (r@.found)(path) == match path.prefix {
                    PathPrefix::Event => value::lookup((*old(target.value))@, path.path),
                    PathPrefix::Metadata => value::lookup((*old(target.metadata))@, path.path),
                },
            r@.variables == old(state)@,
            *final(r.state) == *final(state),
    {
        Context { target: Box::new(target), state }
    }

    /// The variables.
    pub fn state(&self) -> (r: &RuntimeState)
        ensures
            r@ == self@.variables,
    {
        &*self.state
    }

    /// The variables, to be changed.
    pub fn state_mut(&mut self) -> (r: &mut RuntimeState)
        ensures
            r@ == old(self)@.variables,
            final(self)@ == (ContextModel { variables: final(r)@, ..old(self)@ }),
    {
        &mut *self.state
    }
}

} // verus!
