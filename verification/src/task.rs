//! The one-shot task data model: a closed set of task kinds, each tagged by a
//! discriminator for persistence, together with the identity relation used to
//! deduplicate pending work.

use vstd::prelude::*;

verus! {

/// The closed set of task kinds. Each variant carries the plain fields its
/// effect needs; the effect itself is performed by the host application
/// against its action context.
#[derive(Clone, Copy, PartialEq, Eq, Structural, Debug)]
pub enum TaskKind {
    /// Remove `role_id` from `user_id` in `guild_id`.
    Unmute { guild_id: u64, user_id: u64, role_id: u64 },
}

/// A one-shot task: fire the effect described by `kind` once `due` (seconds
/// of absolute time) has been reached.
#[derive(Clone, Copy, PartialEq, Eq, Structural, Debug)]
pub struct Task {
    pub due: u64,
    pub kind: TaskKind,
}

/// Two tasks represent the same logical pending effect when they are of the
/// same kind and their identity fields agree. For an unmute that is the
/// target user alone; tasks of different kinds are never identified.
pub open spec fn same_identity(a: Task, b: Task) -> bool {
    match (a.kind, b.kind) {
        (
            TaskKind::Unmute { user_id: ua, guild_id: _, role_id: _ },
            TaskKind::Unmute { user_id: ub, guild_id: _, role_id: _ },
        ) => ua == ub,
    }
}

/// No two tasks of the sequence share an identity; the pending queue keeps
/// this invariant.
pub open spec fn distinct_identities(s: Seq<Task>) -> bool {
    forall|i: int, j: int|
        0 <= i < j < s.len() ==> !#[trigger] same_identity(s[i], s[j])
}

impl Task {
    /// When the task becomes eligible to fire.
    pub fn when(&self) -> (r: u64)
        ensures
            r == self.due,
    {
        self.due
    }

    /// Whether `self` and `other` are distinct pending effects (`true` means
    /// the two may be pending at the same time).
    pub fn is_diferent(&self, other: &Task) -> (r: bool)
        ensures
            r == !same_identity(*self, *other),
    {
        match (&self.kind, &other.kind) {
            (
                TaskKind::Unmute { user_id: ua, guild_id: _, role_id: _ },
                TaskKind::Unmute { user_id: ub, guild_id: _, role_id: _ },
            ) => ua != ub,
        }
    }
}

} // verus!
