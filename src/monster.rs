//! The identifiers of the native objects that are currently alive, kept up
//! to date by creation and destruction notifications.

use vstd::prelude::*;

verus! {

pub struct MonsterTracker {
    monsters: Vec<usize>,
}

impl MonsterTracker {
    /// The live identifiers, in order of creation.
    pub closed spec fn live(&self) -> Seq<usize> {
        self.monsters@
    }

    pub fn new() -> (r: MonsterTracker)
        ensures
            r.live() == Seq::<usize>::empty(),
    {
        MonsterTracker { monsters: Vec::new() }
    }

    /// Records that an object was created.
    pub fn on_create(&mut self, monster: usize)
        ensures
            final(self).live() == old(self).live().push(monster),
    {
        self.monsters.push(monster);
    }

    /// Records that an object was destroyed: every entry of it goes.
    pub fn on_destroy(&mut self, monster: usize)
        ensures
            final(self).live() == old(self).live().filter(|m: usize| m != monster),
    {
        let mut kept: Vec<usize> = Vec::new();
        let mut i: usize = 0;
        while i < self.monsters.len()
            invariant
                i <= self.monsters@.len(),
                self.monsters@ == old(self).monsters@,
                kept@ == self.monsters@.take(i as int).filter(|m: usize| m != monster),
            decreases self.monsters@.len() - i,
        {
            let m = self.monsters[i];
            proof {
                assert(self.monsters@.take(i + 1).drop_last() =~= self.monsters@.take(i as int));
                reveal(Seq::filter);
            }
            if m != monster {
                kept.push(m);
            }
            i = i + 1;
        }
        assert(self.monsters@.take(self.monsters@.len() as int) =~= self.monsters@);
        self.monsters = kept;
    }
}

/// The identifiers of all live objects, in order of creation.
pub fn get_all_monsters(tracker: &MonsterTracker) -> (r: Vec<usize>)
    ensures
        r@ == tracker.live(),
{
    let r = tracker.monsters.clone();
    assert(r@ =~= tracker.monsters@);
    r
}

} // verus!
