use vstd::prelude::*;
use crate::winner::Winner;

verus! {

/// Probabilities are fixed-point values in millionths: the probabilities of
/// all effects of one action sum to exactly `TOTAL_PROB` (that is, to 1).
pub const TOTAL_PROB: u64 = 1000000;

/// Sum of a sequence of integers.
pub open spec fn sum_ints(s: Seq<int>) -> int
    decreases s.len(),
{
    if s.len() == 0 {
        0
    } else {
        sum_ints(s.drop_last()) + s.last()
    }
}

/// A searchable game position. An action resolves into one or more effects,
/// each with an occurrence probability; applying an effect mutates the state
/// in place and unapplying it restores the previous state exactly.
///
/// The spec functions give the mathematical model of the game; the laws state
/// the obligations every game must meet for the search to be meaningful:
/// reversibility of effects, probability conservation, and that the set of
/// legal actions is empty exactly on terminal states.
pub trait State: Sized {
    type Action;
    type Player: Copy;
    type ActionEffect;

    /// Structural well-formedness of a position.
    spec fn inv(&self) -> bool;

    /// An upper bound on the number of plies until every play terminates;
    /// applying any effect strictly decreases it.
    spec fn height(&self) -> nat;

    spec fn spec_player(&self) -> Self::Player;

    spec fn spec_winner(&self) -> Option<Winner<Self::Player>>;

    spec fn spec_actions(&self) -> Seq<Self::Action>;

    spec fn spec_effects(&self, a: Self::Action) -> Seq<Self::ActionEffect>;

    /// Occurrence probability of effect `e`, in millionths.
    spec fn spec_prob(&self, e: Self::ActionEffect) -> int;

    spec fn spec_apply(&self, e: Self::ActionEffect) -> Self;

    spec fn spec_unapply(&self, e: Self::ActionEffect) -> Self;

    /// All legal actions in the current position; empty iff the game is over.
    fn possible_actions(&self) -> (r: Vec<Self::Action>)
        requires
            self.inv(),
        ensures
            r@ == self.spec_actions(),
    ;

    /// Whose turn it is.
    fn player(&self) -> (p: Self::Player)
        requires
            self.inv(),
        ensures
            p == self.spec_player(),
    ;

    /// Whether `p` and `q` are the same player identity.
    fn same_player(p: &Self::Player, q: &Self::Player) -> (r: bool)
        ensures
            r == (p == q),
    ;

    /// The terminal outcome, or `None` while the game is ongoing.
    fn winner(&self) -> (w: Option<Winner<Self::Player>>)
        requires
            self.inv(),
        ensures
            w == self.spec_winner(),
    ;

    /// The effects that `action` may resolve into, in a fixed order.
    fn action_effects(&self, action: &Self::Action) -> (r: Vec<Self::ActionEffect>)
        requires
            self.inv(),
            self.spec_actions().contains(*action),
        ensures
            r@ == self.spec_effects(*action),
    ;

    /// Mutates the state in place and returns the effect's occurrence
    /// probability in millionths.
    fn apply_effect(&mut self, effect: &Self::ActionEffect) -> (p: u64)
        requires
            old(self).inv(),
            exists|a: Self::Action|
                old(self).spec_actions().contains(a) && #[trigger] old(self).spec_effects(
                    a,
                ).contains(*effect),
        ensures
            *final(self) == old(self).spec_apply(*effect),
            final(self).inv(),
            final(self).height() < old(self).height(),
            p as int == old(self).spec_prob(*effect),
    ;

    /// Exact inverse of `apply_effect` (see `lemma_reversible`).
    fn unapply_effect(&mut self, effect: &Self::ActionEffect)
        requires
            old(self).inv(),
            exists|s0: Self|
                s0.inv() && *old(self) == #[trigger] s0.spec_apply(*effect) && exists|
                    a: Self::Action,
                |
                    s0.spec_actions().contains(a) && #[trigger] s0.spec_effects(a).contains(
                        *effect,
                    ),
        ensures
            *final(self) == old(self).spec_unapply(*effect),
    ;

    /// A deep copy with value semantics.
    fn duplicate(&self) -> (r: Self)
        requires
            self.inv(),
        ensures
            r == *self,
    ;

    /// Applying an effect of a legal action and then unapplying it restores
    /// the original position exactly.
    proof fn lemma_reversible(s: Self, a: Self::Action, e: Self::ActionEffect)
        requires
            s.inv(),
            s.spec_actions().contains(a),
            s.spec_effects(a).contains(e),
        ensures
            s.spec_apply(e).spec_unapply(e) == s,
    ;

    /// The probabilities of the effects of one action are each positive and
    /// sum to exactly `TOTAL_PROB`; an action has at least one effect.
    proof fn lemma_probabilities(s: Self, a: Self::Action)
        requires
            s.inv(),
            s.spec_actions().contains(a),
        ensures
            sum_ints(s.spec_effects(a).map_values(|e: Self::ActionEffect| s.spec_prob(e)))
                == TOTAL_PROB,
            s.spec_effects(a).len() > 0,
            forall|i: int|
                0 <= i < s.spec_effects(a).len() ==> 0 < #[trigger] s.spec_prob(
                    s.spec_effects(a)[i],
                ) <= TOTAL_PROB,
    ;

    /// A position that is not yet decided offers at least one action.
    proof fn lemma_nonterminal_has_actions(s: Self)
        requires
            s.inv(),
            s.spec_winner() is None,
        ensures
            s.spec_actions().len() > 0,
    ;

    /// A decided position offers no further actions.
    proof fn lemma_terminal_has_no_actions(s: Self)
        requires
            s.inv(),
            s.spec_winner() is Some,
        ensures
            s.spec_actions().len() == 0,
    ;
}

} // verus!
