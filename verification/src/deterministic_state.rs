use vstd::prelude::*;
use crate::winner::Winner;
use crate::state::{State, TOTAL_PROB};

verus! {

/// A game with no chance element: actions are applied and unapplied directly,
/// with no effect-resolution step. `Deterministic` lifts any such game to the
/// general `State` contract.
pub trait DeterministicState: Sized {
    type Action;
    type Player: Copy;

    /// Structural well-formedness of a position.
    spec fn inv(&self) -> bool;

    /// An upper bound on the number of plies until every play terminates.
    spec fn height(&self) -> nat;

    spec fn spec_player(&self) -> Self::Player;

    spec fn spec_winner(&self) -> Option<Winner<Self::Player>>;

    spec fn spec_actions(&self) -> Seq<Self::Action>;

    spec fn spec_apply_action(&self, a: Self::Action) -> Self;

    spec fn spec_unapply_action(&self, a: Self::Action) -> Self;

    /// All legal actions in the current position; empty iff the game is over.
    fn possible_actions(&self) -> (r: Vec<Self::Action>)
        requires
            self.inv(),
        ensures
            r@ == self.spec_actions(),
    ;

    /// Whose turn it is.
    fn player(&self) -> (p: Self::Player)
        requires
            self.inv(),
        ensures
            p == self.spec_player(),
    ;

    /// Whether `p` and `q` are the same player identity.
    fn same_player(p: &Self::Player, q: &Self::Player) -> (r: bool)
        ensures
            r == (p == q),
    ;

    /// The terminal outcome, or `None` while the game is ongoing.
    fn winner(&self) -> (w: Option<Winner<Self::Player>>)
        requires
            self.inv(),
        ensures
            w == self.spec_winner(),
    ;

    /// Mutates the state in place by making the move `action`.
    fn apply_action(&mut self, action: &Self::Action)
        requires
            old(self).inv(),
            old(self).spec_actions().contains(*action),
        ensures
            *final(self) == old(self).spec_apply_action(*action),
            final(self).inv(),
            final(self).height() < old(self).height(),
    ;

    /// Exact inverse of `apply_action` (see `lemma_reversible_action`).
    fn unapply_action(&mut self, action: &Self::Action)
        requires
            old(self).inv(),
            exists|s0: Self|
                s0.inv() && s0.spec_actions().contains(*action) && *old(self)
                    == #[trigger] s0.spec_apply_action(*action),
        ensures
            *final(self) == old(self).spec_unapply_action(*action),
    ;

    /// A deep copy with value semantics.
    fn duplicate(&self) -> (r: Self)
        requires
            self.inv(),
        ensures
            r == *self,
    ;

    /// A copy of an action value.
    fn duplicate_action(a: &Self::Action) -> (r: Self::Action)
        ensures
            r == *a,
    ;

    /// Making a legal move and then retracting it restores the original
    /// position exactly.
    proof fn lemma_reversible_action(s: Self, a: Self::Action)
        requires
            s.inv(),
            s.spec_actions().contains(a),
        ensures
            s.spec_apply_action(a).spec_unapply_action(a) == s,
    ;

    /// A position that is not yet decided offers at least one action.
    proof fn lemma_nonterminal_has_actions(s: Self)
        requires
            s.inv(),
            s.spec_winner() is None,
        ensures
            s.spec_actions().len() > 0,
    ;

    /// A decided position offers no further actions.
    proof fn lemma_terminal_has_no_actions(s: Self)
        requires
            s.inv(),
            s.spec_winner() is Some,
        ensures
            s.spec_actions().len() == 0,
    ;
}

/// Adapter lifting a deterministic game to the general `State` contract:
/// each action is its own single effect, with probability 1.
#[verifier::ext_equal]
pub struct Deterministic<T: DeterministicState> {
    pub game: T,
}

impl<T: DeterministicState> Deterministic<T> {
    /// Wraps a deterministic game for use with the general search engine.
    pub fn new(game: T) -> (r: Deterministic<T>)
        ensures
            r.spec_game() == game,
    {
        Deterministic { game }
    }

    /// The wrapped game position.
    pub open spec fn spec_game(self) -> T {
        self.game
    }

    /// Gives the wrapped game position back.
    pub fn into_game(self) -> (r: T)
        ensures
            r == self.spec_game(),
    {
        self.game
    }

    /// A view of the wrapped game position.
    pub fn game(&self) -> (r: &T)
        ensures
            *r == self.spec_game(),
    {
        &self.game
    }
}

impl<T: DeterministicState> State for Deterministic<T> {
    type Action = T::Action;

    type Player = T::Player;

    type ActionEffect = T::Action;

    open spec fn inv(&self) -> bool {
        self.game.inv()
    }

    open spec fn height(&self) -> nat {
        self.game.height()
    }

    open spec fn spec_player(&self) -> T::Player {
        self.game.spec_player()
    }

    open spec fn spec_winner(&self) -> Option<Winner<T::Player>> {
        self.game.spec_winner()
    }

    open spec fn spec_actions(&self) -> Seq<T::Action> {
        self.game.spec_actions()
    }

    open spec fn spec_effects(&self, a: T::Action) -> Seq<T::Action> {
        seq![a]
    }

    open spec fn spec_prob(&self, e: T::Action) -> int {
        TOTAL_PROB as int
    }

    open spec fn spec_apply(&self, e: T::Action) -> Self {
        Deterministic { game: self.game.spec_apply_action(e) }
    }

    open spec fn spec_unapply(&self, e: T::Action) -> Self {
        Deterministic { game: self.game.spec_unapply_action(e) }
    }

    fn possible_actions(&self) -> (r: Vec<T::Action>) {
        self.game.possible_actions()
    }

    fn player(&self) -> (p: T::Player) {
        self.game.player()
    }

    fn same_player(p: &T::Player, q: &T::Player) -> (r: bool) {
        T::same_player(p, q)
    }

    fn winner(&self) -> (w: Option<Winner<T::Player>>) {
        self.game.winner()
    }

    fn action_effects(&self, action: &T::Action) -> (r: Vec<T::Action>) {
        let mut r: Vec<T::Action> = Vec::new();
        r.push(T::duplicate_action(action));
        proof {
            assert(r@ =~= self.spec_effects(*action));
        }
        r
    }

    fn apply_effect(&mut self, effect: &T::Action) -> (p: u64) {
        proof {
            let a = choose|a: T::Action|
                old(self).spec_actions().contains(a) && #[trigger] old(self).spec_effects(
                    a,
                ).contains(*effect);
            assert(old(self).spec_effects(a)[0] == a);
            assert(a == *effect);
        }
        self.game.apply_action(effect);
        TOTAL_PROB
    }

    fn unapply_effect(&mut self, effect: &T::Action) {
        proof {
            let s0 = choose|s0: Self|
                s0.inv() && *old(self) == #[trigger] s0.spec_apply(*effect) && exists|
                    a: T::Action,
                |
                    s0.spec_actions().contains(a) && #[trigger] s0.spec_effects(a).contains(
                        *effect,
                    );
            let a = choose|a: T::Action|
                s0.spec_actions().contains(a) && #[trigger] s0.spec_effects(a).contains(*effect);
            assert(s0.spec_effects(a)[0] == a);
            assert(a == *effect);
            assert(s0.spec_game().inv() && s0.spec_game().spec_actions().contains(*effect)
                && self.game == s0.spec_game().spec_apply_action(*effect));
        }
        self.game.unapply_action(effect);
    }

    fn duplicate(&self) -> (r: Self) {
        let r = Deterministic { game: self.game.duplicate() };
        proof {
            assert(r =~= *self);
        }
        r
    }

    proof fn lemma_reversible(s: Self, a: T::Action, e: T::Action) {
        assert(s.spec_effects(a)[0] == a);
        assert(e == a);
        T::lemma_reversible_action(s.game, a);
        assert(s.spec_apply(e).spec_unapply(e) =~= s);
    }

    proof fn lemma_probabilities(s: Self, a: T::Action) {
        let es = s.spec_effects(a);
        let ps = es.map_values(|e: T::Action| s.spec_prob(e));
        assert(ps.len() == 1);
        assert(ps.drop_last().len() == 0);
        assert(crate::state::sum_ints(ps.drop_last()) == 0);
        assert(crate::state::sum_ints(ps) == ps.last());
        assert(ps.last() == TOTAL_PROB as int);
    }

    proof fn lemma_nonterminal_has_actions(s: Self) {
        T::lemma_nonterminal_has_actions(s.game);
    }

    proof fn lemma_terminal_has_no_actions(s: Self) {
        T::lemma_terminal_has_no_actions(s.game);
    }
}

/// Determinism lift: under the adapter, an action resolves into exactly one
/// effect, equal by value to the action itself, with probability 1.
pub proof fn lemma_determinism_lift<T: DeterministicState>(s: Deterministic<T>, a: T::Action)
    ensures
        s.spec_effects(a) =~= seq![a],
        s.spec_effects(a).len() == 1,
        s.spec_effects(a)[0] == a,
        s.spec_prob(a) == TOTAL_PROB as int,
{
}

} // verus!
