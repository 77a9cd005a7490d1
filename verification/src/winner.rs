use vstd::prelude::*;

verus! {

/// Terminal result of a game: a particular player has won, or the game drew.
#[derive(Copy, Clone, PartialEq, Eq, Debug, Hash)]
pub enum Winner<P> {
    Player(P),
    Draw,
}

} // verus!
