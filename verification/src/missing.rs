//! What a command may find gone, and what is to be done about it.
//!
//! A command runs some time after it was recorded. If by then the entity was
//! destroyed, or something else removed the marker, the command has nothing
//! to work on. That points to a logic error in the program, such as
//! destroying an entity that still has expansions pending, so a program under
//! development wants to stop on it, while a shipped one would rather drop the
//! command. The choice is the caller's, as a [`MissingPolicy`].

use vstd::prelude::*;

verus! {

/// What a command can find gone when it runs, though it was there when the
/// command was recorded.
#[derive(Clone, Copy, Debug, PartialEq, Eq, Structural)]
pub enum Missing {
    /// The entity that the command was recorded for.
    Entity,
    /// The marker on that entity.
    Marker,
}

/// The kinds of deferred command, one per kind of marker.
#[derive(Clone, Copy, Debug, PartialEq, Eq, Structural)]
pub enum CommandKind {
    WithChild,
    WithChildren,
    WithChildSlots,
    Maybe,
}

/// What to do about a command that found its entity or its marker gone.
#[derive(Clone, Copy, Debug, PartialEq, Eq, Structural)]
pub enum MissingPolicy {
    /// Stop the program with a diagnostic.
    Fatal,
    /// Drop the command and go on.
    Ignore,
}

/// The words of the diagnostic for a command of `kind` that found `missing`
/// gone.
pub open spec fn diagnostic_text(kind: CommandKind, missing: Missing) -> Seq<char> {
    match (kind, missing) {
        (CommandKind::Maybe, Missing::Entity) => "Entity with Maybe component not found"@,
        (CommandKind::Maybe, Missing::Marker) => "Maybe component not found"@,
        (_, Missing::Entity) => "Parent entity not found"@,
        (CommandKind::WithChild, Missing::Marker) => "WithChild component not found"@,
        (CommandKind::WithChildren, Missing::Marker) => "WithChildren component not found"@,
        (CommandKind::WithChildSlots, Missing::Marker) => "WithChildSlots component not found"@,
    }
}

/// The diagnostic for a command of `kind` that found `missing` gone.
pub fn diagnostic(kind: CommandKind, missing: Missing) -> (message: &'static str)
    ensures
        message@ == diagnostic_text(kind, missing),
{
    match (kind, missing) {
        (CommandKind::Maybe, Missing::Entity) => "Entity with Maybe component not found",
        (CommandKind::Maybe, Missing::Marker) => "Maybe component not found",
        (_, Missing::Entity) => "Parent entity not found",
        (CommandKind::WithChild, Missing::Marker) => "WithChild component not found",
        (CommandKind::WithChildren, Missing::Marker) => "WithChildren component not found",
        (CommandKind::WithChildSlots, Missing::Marker) => "WithChildSlots component not found",
    }
}

impl MissingPolicy {
    /// Whether a run that ended with `end` stops the program under this
    /// policy.
    pub open spec fn stops_on(self, end: Result<(), Missing>) -> bool {
        self == MissingPolicy::Fatal && end is Err
    }

    /// Judges the end of a run of a command of `kind`: the diagnostic to stop
    /// the program with, or `None` to go on.
    pub fn judge(self, kind: CommandKind, end: Result<(), Missing>) -> (fatal: Option<
        &'static str,
    >)
        ensures
            fatal is Some <==> self.stops_on(end),
            fatal is Some ==> fatal->0@ == diagnostic_text(kind, end->Err_0),
    {
        match (self, end) {
            (MissingPolicy::Fatal, Err(missing)) => Some(diagnostic(kind, missing)),
            _ => None,
        }
    }
}

} // verus!
