//! A snapshot of what an upstream offers, replaced as a whole when the
//! upstream is found to offer something else.
//!
//! The container itself holds no lock and starts no job. A caller that
//! shares it puts it behind a lock of its own: `needs_update` is what is
//! asked under shared access, `replace` what is done under exclusive access,
//! and only where `needs_update` said so.

use vstd::prelude::*;

verus! {

/// What can be kept as a snapshot: two of them can be held against each
/// other, and each has a size.
pub trait Snapshot: Sized {
    /// Whether the snapshot is in order.
    spec fn valid(&self) -> bool;

    /// Whether two snapshots hold the same.
    spec fn same(&self, other: &Self) -> bool;

    /// How many items the snapshot holds.
    spec fn size(&self) -> nat;

    /// Whether two snapshots hold the same.
    fn same_as(&self, other: &Self) -> (r: bool)
        requires
            self.valid(),
            other.valid(),
        ensures
            r == self.same(other),
    ;

    /// How many items the snapshot holds.
    fn len(&self) -> (n: usize)
        requires
            self.valid(),
        ensures
            n == self.size(),
    ;
}

/// What a refresh did to the snapshot.
#[derive(Clone, Copy, Debug, PartialEq, Eq, Structural)]
pub enum Refreshed {
    /// The upstream offers what the snapshot holds: nothing was written.
    Unchanged,
    /// The snapshot was replaced; the sizes are those of the old and of the
    /// new one.
    Replaced { old_len: usize, new_len: usize },
}

/// What a round of the refresh job came to.
#[derive(Debug)]
pub enum RefreshOutcome<E> {
    /// The upstream answered.
    Applied(Refreshed),
    /// The upstream could not be asked: the snapshot is as it was.
    Failed(E),
}

/// What is to be done with what asking the upstream came to.
#[derive(Debug)]
pub enum RefreshStep<T, E> {
    /// The upstream offers what the snapshot holds: nothing is to be
    /// written.
    Keep,
    /// The upstream offers something else: this is to be put in the place of
    /// the snapshot.
    Swap(T),
    /// The upstream could not be asked: the snapshot stays, and this is why.
    Failed(E),
}

/// The current snapshot of an upstream's offer.
#[derive(Clone, Debug, Default)]
pub struct RefreshableVersions<T> {
    versions: T,
}

impl<T> View for RefreshableVersions<T> {
    type V = T;

    closed spec fn view(&self) -> T {
        self.versions
    }
}

impl<T> RefreshableVersions<T> {
    /// A container that holds `inner`.
    pub fn new(inner: T) -> (r: Self)
        ensures
            r@ == inner,
    {
        RefreshableVersions { versions: inner }
    }

    /// The snapshot, to read.
    pub fn read(&self) -> (inner: &T)
        ensures
            *inner == self@,
    {
        &self.versions
    }

    /// The snapshot, to change in place.
    pub fn write(&mut self) -> (inner: &mut T)
        ensures
            *inner == old(self)@,
            final(self)@ == *final(inner),
    {
        &mut self.versions
    }
}

impl<T: Snapshot> RefreshableVersions<T> {
    /// Whether `new` differs from the snapshot, so that it has to be
    /// replaced.
    pub fn needs_update(&self, new: &T) -> (r: bool)
        requires
            self@.valid(),
            new.valid(),
        ensures
            r == !new.same(&self@),
    {
        !new.same_as(&self.versions)
    }

    /// Puts `new` in the place of the snapshot and gives the sizes of the
    /// old and of the new one.
    pub fn replace(&mut self, new: T) -> (sizes: (usize, usize))
        requires
            old(self)@.valid(),
            new.valid(),
        ensures
            final(self)@ == new,
            sizes.0 == old(self)@.size(),
            sizes.1 == new.size(),
    {
        let old_len = self.versions.len();
        let new_len = new.len();
        self.versions = new;
        (old_len, new_len)
    }

    /// Takes in what the upstream offers now: a snapshot that holds the
    /// same is left untouched, any other is replaced by `new`.
    pub fn update_versions(&mut self, new: T) -> (r: Refreshed)
        requires
            old(self)@.valid(),
            new.valid(),
        ensures
            final(self)@.valid(),
            new.same(&old(self)@) ==> final(self)@ == old(self)@ && r == Refreshed::Unchanged,
            !new.same(&old(self)@) ==> final(self)@ == new && r == (Refreshed::Replaced {
                old_len: old(self)@.size() as usize,
                new_len: new.size() as usize,
            }),
    {
        if self.needs_update(&new) {
            let (old_len, new_len) = self.replace(new);
            Refreshed::Replaced { old_len, new_len }
        } else {
            Refreshed::Unchanged
        }
    }

    /// Decides, with no more than a look at the snapshot, what is to be done
    /// with what asking the upstream came to: nothing where it offers what
    /// the snapshot holds, a swap where it offers something else, and
    /// nothing but a report where it could not be asked.
    pub fn next_step<E>(&self, fetched: Result<T, E>) -> (step: RefreshStep<T, E>)
        requires
            self@.valid(),
            fetched is Ok ==> fetched->Ok_0.valid(),
        ensures
            match fetched {
                Ok(new) => if new.same(&self@) {
                    step is Keep
                } else {
                    step is Swap && step->Swap_0 == new
                },
                Err(e) => step is Failed && step->Failed_0 == e,
            },
    {
        match fetched {
            Ok(new) => if self.needs_update(&new) {
                RefreshStep::Swap(new)
            } else {
                RefreshStep::Keep
            },
            Err(e) => RefreshStep::Failed(e),
        }
    }

    /// One round of the refresh job, given what asking the upstream came
    /// to: its answer is taken in, its failure leaves the snapshot as it was
    /// and is handed back.
    pub fn take_in<E>(&mut self, fetched: Result<T, E>) -> (r: RefreshOutcome<E>)
        requires
            old(self)@.valid(),
            fetched is Ok ==> fetched->Ok_0.valid(),
        ensures
            final(self)@.valid(),
            match fetched {
                Ok(new) => r is Applied && (if new.same(&old(self)@) {
                    final(self)@ == old(self)@ && r->Applied_0 == Refreshed::Unchanged
                } else {
                    final(self)@ == new && r->Applied_0 == (Refreshed::Replaced {
                        old_len: old(self)@.size() as usize,
                        new_len: new.size() as usize,
                    })
                }),
                Err(e) => final(self)@ == old(self)@ && r is Failed && r->Failed_0 == e,
            },
    {
        match self.next_step(fetched) {
            RefreshStep::Keep => RefreshOutcome::Applied(Refreshed::Unchanged),
            RefreshStep::Swap(new) => {
                let (old_len, new_len) = self.replace(new);
                RefreshOutcome::Applied(Refreshed::Replaced { old_len, new_len })
            },
            RefreshStep::Failed(e) => RefreshOutcome::Failed(e),
        }
    }
}

} // verus!
