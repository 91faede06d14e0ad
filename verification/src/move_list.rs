//! A growable list of moves with stack access, for a move generator to fill.

use vstd::prelude::*;
use crate::game_move::GameMove;

verus! {

/// A list of game moves; the view is the sequence of moves pushed so far.
pub struct MoveList {
    pub backing: Vec<GameMove>,
}

impl View for MoveList {
    type V = Seq<GameMove>;

    open spec fn view(&self) -> Seq<GameMove> {
        self.backing@
    }
}

impl MoveList {
    /// Create a new, empty move list.
    pub fn new() -> (r: Self)
        ensures
            r@ == Seq::<GameMove>::empty(),
    {
        MoveList { backing: Vec::new() }
    }

    /// Add the given move to the end of the list.
    pub fn push(&mut self, elt: GameMove)
        ensures
            final(self)@ == old(self)@.push(elt),
    {
        self.backing.push(elt);
    }

    /// Get the last move of the list without removing it, or none if the
    /// list is empty.
    pub fn peek(&self) -> (r: Option<GameMove>)
        ensures
            self@.len() == 0 ==> r is None,
            self@.len() > 0 ==> r == Some(self@.last()),
    {
        if self.backing.len() == 0 {
            return None;
        }
        Some(self.backing[self.backing.len() - 1])
    }

    /// Remove and return the last move of the list, or none if the list is
    /// empty.
    pub fn pop(&mut self) -> (r: Option<GameMove>)
        ensures
            old(self)@.len() == 0 ==> r is None && final(self)@ == old(self)@,
            old(self)@.len() > 0 ==> r == Some(old(self)@.last()) && final(self)@ == old(
                self,
            )@.drop_last(),
    {
        if self.backing.len() == 0 {
            return None;
        }
        self.backing.pop()
    }
}

} // verus!
