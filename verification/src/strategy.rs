use vstd::prelude::*;
use crate::state::State;

verus! {

/// Something carrying a rating by which it can be ranked.
pub trait Rated {
    type Rating: Copy;

    fn rating(&self) -> Self::Rating;
}

/// A decision procedure over a searchable game: it rates every legal action
/// of a position and can pick a best-rated one.
pub trait Strategy<S: State> {
    type Rating;

    /// Rates every legal action at `state`, in enumeration order.
    fn rated_actions(&self, state: &S) -> (r: Vec<(S::Action, Self::Rating)>)
        requires
            state.inv(),
        ensures
            r@.len() == state.spec_actions().len(),
            forall|i: int| 0 <= i < r@.len() ==> #[trigger] r@[i].0 == state.spec_actions()[i],
    ;

    /// An action with the maximum rating, ties broken by enumeration order
    /// (the first maximum is selected); `None` iff the game is over.
    fn best_action(&self, state: &S) -> (r: Option<S::Action>)
        requires
            state.inv(),
        ensures
            r is Some <==> state.spec_actions().len() > 0,
            r matches Some(a) ==> state.spec_actions().contains(a),
    ;
}

} // verus!
