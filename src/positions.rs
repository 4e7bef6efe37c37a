//! Per-trader holdings, keyed by the trader's identity.
use vstd::prelude::*;

verus! {

/// The amounts that a trader holds.
#[derive(Clone, Copy, Debug, PartialEq, Eq, Structural)]
pub struct Holding {
    pub yes_shares: u64,
    pub no_shares: u64,
    pub total_invested: u64,
}

impl Holding {
    pub open spec fn zero() -> Holding {
        Holding { yes_shares: 0, no_shares: 0, total_invested: 0 }
    }
}

/// A trader's position.
#[derive(Clone, Debug)]
pub struct Position {
    pub owner: String,
    pub yes_shares: u64,
    pub no_shares: u64,
    pub total_invested: u64,
}

impl Position {
    pub open spec fn holding(&self) -> Holding {
        Holding {
            yes_shares: self.yes_shares,
            no_shares: self.no_shares,
            total_invested: self.total_invested,
        }
    }
}

/// Positions keyed by owner. Each owner appears at most once, and an
/// owner without an entry holds nothing.
pub struct PositionBook {
    entries: Vec<Position>,
    held: Ghost<Map<Seq<char>, Holding>>,
}

impl View for PositionBook {
    type V = Map<Seq<char>, Holding>;

    closed spec fn view(&self) -> Map<Seq<char>, Holding> {
        self.held@
    }
}

impl PositionBook {
    pub closed spec fn wf(&self) -> bool {
        &&& forall|i: int|
            0 <= i < self.entries@.len() ==> {
                &&& self.held@.contains_key(#[trigger] self.entries@[i].owner@)
                &&& self.held@[self.entries@[i].owner@] == self.entries@[i].holding()
            }
        &&& forall|o: Seq<char>|
            #[trigger] self.held@.contains_key(o) ==> exists|i: int|
                0 <= i < self.entries@.len() && #[trigger] self.entries@[i].owner@ == o
        &&& forall|i: int, j: int|
            0 <= i < self.entries@.len() && 0 <= j < self.entries@.len() && i != j
                ==> #[trigger] self.entries@[i].owner@ != #[trigger] self.entries@[j].owner@
    }

    /// What `owner` holds; nothing where the book has no entry.
    pub open spec fn holding_of(&self, owner: Seq<char>) -> Holding {
        if self@.contains_key(owner) {
            self@[owner]
        } else {
            Holding::zero()
        }
    }

    pub fn new() -> (book: PositionBook)
        ensures
            book.wf(),
            book@ == Map::<Seq<char>, Holding>::empty(),
    {
        PositionBook { entries: Vec::new(), held: Ghost(Map::empty()) }
    }

    fn find(&self, owner: &String) -> (r: Option<usize>)
        requires
            self.wf(),
        ensures
            r matches Some(i) ==> i < self.entries@.len() && self.entries@[i as int].owner@
                == owner@,
            r is None ==> !self@.contains_key(owner@),
    {
        let mut i: usize = 0;
        while i < self.entries.len()
            invariant
                self.wf(),
                i <= self.entries@.len(),
                forall|j: int| 0 <= j < i ==> self.entries@[j].owner@ != owner@,
            decreases self.entries@.len() - i,
        {
            if self.entries[i].owner == *owner {
                return Some(i);
            }
            i = i + 1;
        }
        proof {
            if self@.contains_key(owner@) {
                let j = choose|j: int|
                    0 <= j < self.entries@.len() && #[trigger] self.entries@[j].owner@ == owner@;
                assert(self.entries@[j].owner@ != owner@);
            }
        }
        None
    }

    /// The position of `owner`, or `None` where the book has no entry.
    pub fn lookup(&self, owner: &String) -> (r: Option<Position>)
        requires
            self.wf(),
        ensures
            r is Some <==> self@.contains_key(owner@),
            r matches Some(p) ==> p.owner@ == owner@ && p.holding() == self@[owner@],
    {
        match self.find(owner) {
            Some(i) => Some(self.entries[i].clone_position()),
            None => None,
        }
    }

    /// The position of `owner`, all zero where the book has no entry.
    pub fn get(&self, owner: &String) -> (p: Position)
        requires
            self.wf(),
        ensures
            p.owner@ == owner@,
            p.holding() == self.holding_of(owner@),
    {
        match self.find(owner) {
            Some(i) => self.entries[i].clone_position(),
            None => Position {
                owner: owner.clone(),
                yes_shares: 0,
                no_shares: 0,
                total_invested: 0,
            },
        }
    }

    /// Records `h` as what `owner` holds.
    pub fn set(&mut self, owner: &String, h: Holding)
        requires
            old(self).wf(),
        ensures
            final(self).wf(),
            final(self)@ == old(self)@.insert(owner@, h),
    {
        let p = Position {
            owner: owner.clone(),
            yes_shares: h.yes_shares,
            no_shares: h.no_shares,
            total_invested: h.total_invested,
        };
        let ghost old_entries = self.entries@;
        match self.find(owner) {
            Some(i) => {
                self.entries.set(i, p);
                self.held = Ghost(self.held@.insert(owner@, h));
                proof {
                    assert forall|o: Seq<char>| #[trigger] self.held@.contains_key(o) implies exists|
                        j: int,
                    |
                        0 <= j < self.entries@.len() && #[trigger] self.entries@[j].owner@ == o by {
                        if o == owner@ {
                            assert(self.entries@[i as int].owner@ == o);
                        } else {
                            let j = choose|j: int|
                                0 <= j < old_entries.len() && #[trigger] old_entries[j].owner@
                                    == o;
                            assert(self.entries@[j].owner@ == o);
                        }
                    }
                }
            },
            None => {
                self.entries.push(p);
                self.held = Ghost(self.held@.insert(owner@, h));
                proof {
                    let n = old_entries.len() as int;
                    assert forall|o: Seq<char>| #[trigger] self.held@.contains_key(o) implies exists|
                        j: int,
                    |
                        0 <= j < self.entries@.len() && #[trigger] self.entries@[j].owner@ == o by {
                        if o == owner@ {
                            assert(self.entries@[n].owner@ == o);
                        } else {
                            let j = choose|j: int|
                                0 <= j < old_entries.len() && #[trigger] old_entries[j].owner@
                                    == o;
                            assert(self.entries@[j].owner@ == o);
                        }
                    }
                }
            },
        }
    }

    /// Drops the entry of `owner`, if any.
    pub fn remove(&mut self, owner: &String)
        requires
            old(self).wf(),
        ensures
            final(self).wf(),
            final(self)@ == old(self)@.remove(owner@),
    {
        let ghost old_entries = self.entries@;
        match self.find(owner) {
            Some(i) => {
                self.entries.remove(i);
                self.held = Ghost(self.held@.remove(owner@));
                proof {
                    assert forall|k: int|
                        0 <= k < self.entries@.len() implies self.held@.contains_key(
                        #[trigger] self.entries@[k].owner@,
                    ) && self.held@[self.entries@[k].owner@] == self.entries@[k].holding() by {
                        if k < i {
                            assert(self.entries@[k] == old_entries[k]);
                            assert(k != i as int);
                        } else {
                            assert(self.entries@[k] == old_entries[k + 1]);
                            assert(k + 1 != i as int);
                        }
                    }
                    assert forall|o: Seq<char>| #[trigger] self.held@.contains_key(o) implies exists|
                        j: int,
                    |
                        0 <= j < self.entries@.len() && #[trigger] self.entries@[j].owner@ == o by {
                        let j = choose|j: int|
                            0 <= j < old_entries.len() && #[trigger] old_entries[j].owner@ == o;
                        assert(j != i as int);
                        if j < i {
                            assert(self.entries@[j].owner@ == o);
                        } else {
                            assert(self.entries@[j - 1].owner@ == o);
                        }
                    }
                    assert forall|a: int, b: int|
                        0 <= a < self.entries@.len() && 0 <= b < self.entries@.len() && a
                            != b implies #[trigger] self.entries@[a].owner@
                        != #[trigger] self.entries@[b].owner@ by {
                        let a2 = if a < i {
                            a
                        } else {
                            a + 1
                        };
                        let b2 = if b < i {
                            b
                        } else {
                            b + 1
                        };
                        assert(self.entries@[a] == old_entries[a2]);
                        assert(self.entries@[b] == old_entries[b2]);
                    }
                }
            },
            None => {
                proof {
                    assert(self.held@.remove(owner@) =~= self.held@);
                }
            },
        }
    }
}

impl Position {
    /// A copy of this position.
    pub fn clone_position(&self) -> (p: Position)
        ensures
            p.owner@ == self.owner@,
            p.holding() == self.holding(),
    {
        Position {
            owner: self.owner.clone(),
            yes_shares: self.yes_shares,
            no_shares: self.no_shares,
            total_invested: self.total_invested,
        }
    }
}

} // verus!
