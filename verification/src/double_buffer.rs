use vstd::prelude::*;
use crate::update::Update;

verus! {

/// Two copies of a state, one of which is exposed to readers.
///
/// A writer never touches the exposed copy. It brings the hidden copy up to
/// date, flips which copy is exposed, and then brings the other copy up to date
/// as well. Between any two of these steps a reader finds a whole value: the
/// state as it was before the update, or as it is after it.
pub struct DoubleBuffer<S> {
    first: S,
    second: S,
    second_exposed: bool,
}

impl<S> DoubleBuffer<S> {
    /// The copy that readers see.
    pub closed spec fn exposed(&self) -> S {
        if self.second_exposed {
            self.second
        } else {
            self.first
        }
    }

    /// The copy that readers do not see.
    pub closed spec fn hidden(&self) -> S {
        if self.second_exposed {
            self.first
        } else {
            self.second
        }
    }

    /// Whether the second copy is the exposed one.
    pub closed spec fn second_is_exposed(&self) -> bool {
        self.second_exposed
    }

    /// Both copies hold the same value: no update is under way.
    pub open spec fn settled(&self) -> bool {
        self.hidden() == self.exposed()
    }

    /// Starts with `state` as the exposed copy and a clone of it as the hidden
    /// one. The buffer is settled if the clone is equal to its original.
    pub fn new(state: S) -> (buffer: Self) where S: Clone
        ensures
            buffer.exposed() == state,
            cloned(state, buffer.hidden()),
            !buffer.second_is_exposed(),
    {
        let copy = state.clone();
        DoubleBuffer { first: state, second: copy, second_exposed: false }
    }

    /// The exposed copy.
    pub fn read(&self) -> (state: &S)
        ensures
            *state == self.exposed(),
    {
        if self.second_exposed {
            &self.second
        } else {
            &self.first
        }
    }

    /// First step of an update: applies it to the hidden copy. Readers still see
    /// the value from before the update.
    pub fn stage<U: Update<S>>(&mut self, update: &U)
        ensures
            final(self).exposed() == old(self).exposed(),
            final(self).hidden() == update.applied(old(self).hidden()),
            final(self).second_is_exposed() == old(self).second_is_exposed(),
    {
        if self.second_exposed {
            update.apply(&mut self.first);
        } else {
            update.apply(&mut self.second);
        }
    }

    /// Second step of an update: exposes the copy that was hidden, and hides the
    /// one that was exposed. Neither copy is changed.
    pub fn flip(&mut self)
        ensures
            final(self).exposed() == old(self).hidden(),
            final(self).hidden() == old(self).exposed(),
            final(self).second_is_exposed() == !old(self).second_is_exposed(),
    {
        self.second_exposed = !self.second_exposed;
    }

    /// Applies `update` to the buffer: to the hidden copy, which is then exposed,
    /// and then to the copy that readers saw until the flip.
    ///
    /// The update is applied twice, once to each copy. Copies that were equal
    /// are equal again, and readers find the value that they found before with
    /// the update applied to it.
    pub fn apply<U: Update<S>>(&mut self, update: &U)
        ensures
            final(self).exposed() == update.applied(old(self).hidden()),
            final(self).hidden() == update.applied(old(self).exposed()),
            final(self).second_is_exposed() == !old(self).second_is_exposed(),
            old(self).settled() ==> final(self).settled() && final(self).exposed()
                == update.applied(old(self).exposed()),
    {
        self.stage(update);
        self.flip();
        self.stage(update);
    }
}

/// A reader never finds a half-applied value.
///
/// An update of a settled buffer goes through two states on its way: `staged`,
/// after the hidden copy has been brought up to date, and `flipped`, after the
/// copies have changed places. While it is staged the exposed copy is still the
/// value from before the update, as is required here; once it is flipped, and
/// when it is done, the exposed copy is that value with the update applied, and
/// the two copies end equal.
pub proof fn lemma_reader_sees_whole_value<S, U: Update<S>>(
    before: DoubleBuffer<S>,
    staged: DoubleBuffer<S>,
    flipped: DoubleBuffer<S>,
    after: DoubleBuffer<S>,
    update: U,
)
    requires
        before.settled(),
        staged.exposed() == before.exposed(),
        staged.hidden() == update.applied(before.hidden()),
        flipped.exposed() == staged.hidden(),
        flipped.hidden() == staged.exposed(),
        after.exposed() == flipped.exposed(),
        after.hidden() == update.applied(flipped.hidden()),
    ensures
        flipped.exposed() == update.applied(before.exposed()),
        after.exposed() == update.applied(before.exposed()),
        after.settled(),
{
}

} // verus!
