//! Bounded navigation history: an ordered list of visited locations with a
//! cursor. The cursor is absent exactly while the list is empty; pushing a
//! location appends it and moves the cursor to the end, evicting the oldest
//! entry once the bound is reached. Moving back or forward requires the
//! corresponding predicate to hold.

use vstd::prelude::*;

verus! {

/// Maximum number of locations retained; pushing beyond it evicts the oldest.
pub const MAX_SIZE: usize = 256;

pub struct History {
    list: Vec<String>,
    cursor: Option<usize>,
}

impl History {
    /// The visited locations, oldest first.
    pub closed spec fn locations(&self) -> Seq<Seq<char>> {
        self.list.deep_view()
    }

    /// The cursor: index of the current location, absent iff no location.
    pub closed spec fn cursor(&self) -> Option<int> {
        match self.cursor {
            Some(i) => Some(i as int),
            None => None,
        }
    }

    /// Structural invariant: the cursor is a valid index iff the list is
    /// non-empty, and the list never exceeds the bound.
    pub open spec fn wf(&self) -> bool {
        &&& self.locations().len() <= MAX_SIZE
        &&& match self.cursor() {
            Some(i) => 0 <= i < self.locations().len(),
            None => self.locations().len() == 0,
        }
    }

    pub fn new() -> (h: History)
        ensures
            h.wf(),
            h.locations() == Seq::<Seq<char>>::empty(),
            h.cursor() is None,
    {
        let h = History { list: Vec::new(), cursor: None };
        proof {
            assert(h.locations() =~= Seq::<Seq<char>>::empty());
        }
        h
    }

    pub fn push(&mut self, addr: String)
        requires
            old(self).wf(),
        ensures
            final(self).wf(),
            final(self).locations() == (if old(self).locations().len() < MAX_SIZE {
                old(self).locations()
            } else {
                old(self).locations().skip(1)
            }).push(addr@),
            final(self).cursor() == Some(final(self).locations().len() - 1),
    {
        if self.list.len() == MAX_SIZE {
            self.list.remove(0);
            proof {
                assert(self.list.deep_view() =~= old(self).locations().skip(1));
            }
        }
        self.list.push(addr);
        self.cursor = Some(self.list.len() - 1);
        proof {
            if old(self).locations().len() < MAX_SIZE {
                assert(self.list.deep_view() =~= old(self).locations().push(addr@));
            } else {
                assert(self.list.deep_view() =~= old(self).locations().skip(1).push(addr@));
            }
        }
    }

    pub fn can_go_back(&self) -> (r: bool)
        ensures
            r == (self.cursor() is Some && self.cursor()->0 > 0),
    {
        match self.cursor {
            Some(i) => i > 0,
            None => false,
        }
    }

    /// Moves the cursor one step towards the oldest entry and returns the
    /// location it now rests on. The caller must check `can_go_back` first.
    pub fn back(&mut self) -> (r: String)
        requires
            old(self).wf(),
            old(self).cursor() is Some && old(self).cursor()->0 > 0,
        ensures
            final(self).wf(),
            final(self).locations() == old(self).locations(),
            final(self).cursor() == Some(old(self).cursor()->0 - 1),
            r@ == old(self).locations()[old(self).cursor()->0 - 1],
    {
        let i = match self.cursor {
            Some(i) => i,
            None => unreached(),
        };
        self.cursor = Some(i - 1);
        self.current_location()
    }

    pub fn can_go_forward(&self) -> (r: bool)
        requires
            self.wf(),
        ensures
            r == (self.cursor() is Some && self.cursor()->0 < self.locations().len() - 1),
    {
        match self.cursor {
            Some(i) => i < self.list.len() - 1,
            None => false,
        }
    }

    /// Moves the cursor one step towards the newest entry and returns the
    /// location it now rests on. The caller must check `can_go_forward` first.
    pub fn forward(&mut self) -> (r: String)
        requires
            old(self).wf(),
            old(self).cursor() is Some && old(self).cursor()->0 < old(self).locations().len() - 1,
        ensures
            final(self).wf(),
            final(self).locations() == old(self).locations(),
            final(self).cursor() == Some(old(self).cursor()->0 + 1),
            r@ == old(self).locations()[old(self).cursor()->0 + 1],
    {
        let i = match self.cursor {
            Some(i) => i,
            None => unreached(),
        };
        self.cursor = Some(i + 1);
        self.current_location()
    }

    /// The location the cursor rests on.
    pub fn current_location(&self) -> (r: String)
        requires
            self.wf(),
            self.cursor() is Some,
        ensures
            r@ == self.locations()[self.cursor()->0],
    {
        let i = match self.cursor {
            Some(i) => i,
            None => unreached(),
        };
        self.list[i].clone()
    }
}

} // verus!
