use vstd::prelude::*;

verus! {

/// Identifier of a player (a "guy") in the game.
///
/// Connected clients get non-negative identifiers from an [`IdGen`], the local
/// player without a server is `Id::localhost()` (-1), and recorded replays use
/// `Id::replay(index)`, which is -2 and below.
#[derive(Debug, Clone, Copy, PartialEq, Eq, Hash, Structural)]
pub struct Id(pub i32);

impl Id {
    /// The integer that this identifier stands for.
    pub open spec fn value(self) -> int {
        self.0 as int
    }

    /// The identifier of the local player when no server is involved.
    pub fn localhost() -> (id: Id)
        ensures
            id.value() == -1,
    {
        Id(-1)
    }

    /// The identifier used for the replay with the given index.
    pub fn replay(index: usize) -> (id: Id)
        requires
            (index as i32) < i32::MAX - 1,
        ensures
            id.value() == -((index as i32) + 2),
    {
        let i: i32 = index as i32;
        Id(-(i + 2))
    }
}

/// Hands out fresh identifiers 0, 1, 2, ... in order.
pub struct IdGen {
    next: i32,
}

impl IdGen {
    #[verifier::type_invariant]
    spec fn inv(self) -> bool {
        self.next >= 0
    }

    /// The identifier that the next call of `gen` hands out.
    pub closed spec fn next_value(self) -> int {
        self.next as int
    }

    pub fn new() -> (g: IdGen)
        ensures
            g.next_value() == 0,
    {
        IdGen { next: 0 }
    }

    /// The identifier that the next call of `gen` hands out.
    pub fn peek(&self) -> (id: Id)
        ensures
            id.value() == self.next_value(),
    {
        Id(self.next)
    }

    pub fn gen(&mut self) -> (id: Id)
        requires
            old(self).next_value() < i32::MAX,
        ensures
            id.value() == old(self).next_value(),
            id.value() >= 0,
            final(self).next_value() == old(self).next_value() + 1,
    {
        proof {
            use_type_invariant(&*self);
        }
        let id = Id(self.next);
        self.next = self.next + 1;
        id
    }
}

impl Default for IdGen {
    fn default() -> (g: IdGen)
        ensures
            g.next_value() == 0,
    {
        IdGen::new()
    }
}

/// The integer that `Id::replay(index)` stands for.
pub open spec fn replay_value(index: usize) -> int {
    -((index as i32) + 2)
}

/// Law: replays with different indices (each small enough to be an `i32`)
/// get different identifiers, and each of them is below the local player's
/// identifier, so it never meets an identifier handed out by an `IdGen`.
pub proof fn lemma_replay_ids_distinct(i: usize, j: usize)
    requires
        i < i32::MAX - 1,
        j < i32::MAX - 1,
    ensures
        i != j ==> replay_value(i) != replay_value(j),
        replay_value(i) <= -2,
        replay_value(i) < -1,
{
}

/// Law: every identifier that an `IdGen` hands out is non-negative, so it is
/// neither the local player's identifier nor a replay's.
pub proof fn lemma_generated_ids_disjoint(g: IdGen, i: usize)
    requires
        g.next_value() >= 0,
        i < i32::MAX - 1,
    ensures
        g.next_value() != -1,
        g.next_value() != replay_value(i),
{
}

} // verus!
