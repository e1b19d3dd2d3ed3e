use vstd::prelude::*;

verus! {

/// The last few snapshots of a game, for undo: at most `max_history` are
/// kept, and pushing onto a full history forgets the oldest.
pub struct GameHistory<T> {
    pub snapshots: Vec<T>,
    pub max_history: usize,
}

impl<T> GameHistory<T> {
    pub open spec fn wf(&self) -> bool {
        self.snapshots@.len() <= self.max_history
    }

    pub fn new(max_history: usize) -> (h: GameHistory<T>)
        ensures
            h.wf(),
            h.snapshots@.len() == 0,
            h.max_history == max_history,
    {
        GameHistory { snapshots: Vec::new(), max_history }
    }

    /// Keeps `snapshot` as the newest; drops the oldest when full. A history
    /// of capacity 0 keeps nothing.
    pub fn push(&mut self, snapshot: T)
        requires
            old(self).wf(),
        ensures
            final(self).wf(),
            final(self).max_history == old(self).max_history,
            old(self).max_history == 0 ==> final(self).snapshots@.len() == 0,
            old(self).max_history > 0 && old(self).snapshots@.len() < old(self).max_history
                ==> final(self).snapshots@ == old(self).snapshots@.push(snapshot),
            old(self).max_history > 0 && old(self).snapshots@.len() == old(self).max_history
                ==> final(self).snapshots@ == old(self).snapshots@.drop_first().push(snapshot),
    {
        if self.max_history == 0 {
            return;
        }
        if self.snapshots.len() >= self.max_history {
            self.snapshots.remove(0);
        }
        self.snapshots.push(snapshot);
    }

    /// Takes back the newest snapshot.
    pub fn pop(&mut self) -> (s: Option<T>)
        requires
            old(self).wf(),
        ensures
            final(self).wf(),
            final(self).max_history == old(self).max_history,
            old(self).snapshots@.len() == 0 ==> s is None && final(self).snapshots@ == old(self).snapshots@,
            old(self).snapshots@.len() > 0 ==> s == Some(old(self).snapshots@.last())
                && final(self).snapshots@ == old(self).snapshots@.drop_last(),
    {
        self.snapshots.pop()
    }
}

} // verus!
