//! Naming and access discipline for the objects of a game universe: object
//! names, universe identities, insertion errors, and the runtime-checked
//! exclusive/shared borrow guard of the single-owner model.

use vstd::prelude::*;

verus! {

/// Name/key of an object in a universe.
#[derive(Clone, Debug, Hash)]
pub enum Name {
    /// An explicitly set name.
    Specific(String),
    /// An automatically assigned name.
    Anonym(usize),
}

/// Copiable identifier for a universe, unique as far as its allocator makes
/// it so; used to check whether references belong to particular universes.
#[derive(Clone, Copy, Debug, Hash, PartialEq, Eq, Structural)]
pub struct UniverseId {
    /// The identifier value.
    pub raw: u64,
}

impl UniverseId {
    /// Wrap an identifier value; the caller (the universe allocator) is
    /// responsible for handing out distinct values.
    pub fn new(raw: u64) -> (r: UniverseId)
        ensures
            r.raw == raw,
    {
        UniverseId { raw }
    }

}

/// Errors resulting from attempting to insert an object in a universe.
#[derive(Clone, Debug)]
pub enum InsertError {
    /// An object already exists with the given name.
    AlreadyExists(Name),
}

/// Performance data returned by stepping a universe.
#[derive(Clone, Copy, Debug, Default, PartialEq, Eq, Hash, Structural)]
pub struct UniverseStepInfo {
    /// Statistics of the step of the contained space.
    pub space_step: crate::space::SpaceStepInfo,
}

/// Ways that borrowing an object of the universe can fail.
#[derive(Clone, Debug)]
pub enum RefError {
    /// The object was in use at the time the borrow was attempted.
    InUse(Name),
}

/// The runtime-checked exclusive/shared borrow discipline of the
/// single-owner model: a reference-count guard that fails fast on
/// conflicting access instead of blocking.
///
/// Invariant: never both an exclusive borrow and shared borrows at once.
#[derive(Clone, Copy, Debug, PartialEq, Eq, Structural)]
pub struct BorrowState {
    /// How many shared borrows are outstanding.
    pub readers: usize,
    /// Whether an exclusive borrow is outstanding.
    pub writer: bool,
}

impl BorrowState {
    /// The guard's invariant.
    pub open spec fn wf(self) -> bool {
        self.writer ==> self.readers == 0
    }

    /// A guard with no outstanding borrows.
    pub fn new() -> (r: BorrowState)
        ensures
            r.wf(),
            r.readers == 0,
            !r.writer,
    {
        BorrowState { readers: 0, writer: false }
    }

    /// Attempt to take a shared borrow: succeeds exactly when no exclusive
    /// borrow is outstanding and the reader count can grow.
    pub fn try_acquire_shared(&mut self, name: &Name) -> (r: Result<(), RefError>)
        requires
            old(self).wf(),
        ensures
            final(self).wf(),
            r is Ok <==> !old(self).writer && old(self).readers < usize::MAX,
            r is Ok ==> *final(self) == (BorrowState {
                readers: (old(self).readers + 1) as usize,
                writer: false,
            }),
            r is Err ==> *final(self) == *old(self),
    {
        if self.writer || self.readers == usize::MAX {
            return Err(RefError::InUse(name.clone()));
        }
        self.readers = self.readers + 1;
        Ok(())
    }

    /// Release one shared borrow.
    pub fn release_shared(&mut self)
        requires
            old(self).wf(),
            old(self).readers > 0,
        ensures
            final(self).wf(),
            *final(self) == (BorrowState {
                readers: (old(self).readers - 1) as usize,
                writer: old(self).writer,
            }),
    {
        self.readers = self.readers - 1;
    }

    /// Attempt to take the exclusive borrow: succeeds exactly when no
    /// borrow of any kind is outstanding.
    pub fn try_acquire_exclusive(&mut self, name: &Name) -> (r: Result<(), RefError>)
        requires
            old(self).wf(),
        ensures
            final(self).wf(),
            r is Ok <==> !old(self).writer && old(self).readers == 0,
            r is Ok ==> *final(self) == (BorrowState { readers: 0, writer: true }),
            r is Err ==> *final(self) == *old(self),
    {
        if self.writer || self.readers > 0 {
            return Err(RefError::InUse(name.clone()));
        }
        self.writer = true;
        Ok(())
    }

    /// Release the exclusive borrow.
    pub fn release_exclusive(&mut self)
        requires
            old(self).wf(),
            old(self).writer,
        ensures
            final(self).wf(),
            *final(self) == (BorrowState { readers: 0, writer: false }),
    {
        self.writer = false;
    }
}

} // verus!
