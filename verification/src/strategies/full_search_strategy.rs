use vstd::prelude::*;
use vstd::arithmetic::div_mod::{lemma_div_is_ordered, lemma_div_multiples_vanish};
use vstd::arithmetic::mul::lemma_mul_inequality;
use crate::winner::Winner;
use crate::state::{State, TOTAL_PROB, sum_ints};
use crate::strategy::Strategy;

verus! {

/// Default reward for a won game, in millionths (that is, 1).
pub const DEFAULT_WIN_REWARD: u64 = 1000000;

/// Default reward for a drawn game, in millionths (that is, 0.2).
pub const DEFAULT_DRAW_REWARD: u64 = 200000;

/// Default reward for a lost game, in millionths (that is, 0).
pub const DEFAULT_LOOSE_REWARD: u64 = 0;

/// Exhaustive minimax search with alpha-beta pruning. The three rewards are
/// fixed-point values in millionths, taken from the perspective of the player
/// on whose behalf the top-level call is made. For the pruning to be sound the
/// caller must keep `loose_reward <= draw_reward <= win_reward`; `validated`
/// checks that ordering at construction time.
#[derive(Clone, Copy, PartialEq, Eq, Structural, Debug)]
pub struct FullSearchStrategy {
    pub win_reward: u64,
    pub draw_reward: u64,
    pub loose_reward: u64,
}

/// Reward of a decided position, from the viewpoint of `player`.
pub open spec fn terminal_rating<P>(cfg: FullSearchStrategy, w: Winner<P>, player: P) -> int {
    match w {
        Winner::Draw => cfg.draw_reward as int,
        Winner::Player(p) => if p == player {
            cfg.win_reward as int
        } else {
            cfg.loose_reward as int
        },
    }
}

/// Expected reward of `s` for `player`: the configured reward if the game is
/// decided, and otherwise the best (for the mover) rating among the legal
/// actions, searched with the running bounds `alpha` and `beta`. `fuel` bounds
/// the remaining recursion depth; the search uses `fuel >= s.height()`, which
/// the strictly decreasing height makes sufficient for a full search.
pub open spec fn rate_state_rec<S: State>(
    cfg: FullSearchStrategy,
    fuel: nat,
    alpha: int,
    beta: int,
    s: S,
    player: S::Player,
) -> int
    decreases fuel, 3nat, 0nat,
{
    match s.spec_winner() {
        Some(w) => terminal_rating(cfg, w, player),
        None => {
            let try_win = s.spec_player() == player;
            search_rec(
                cfg,
                fuel,
                alpha,
                beta,
                s,
                s.spec_actions(),
                if try_win {
                    0
                } else {
                    u64::MAX as int
                },
                try_win,
                player,
            )
        },
    }
}

/// Folds the alpha-beta step over the remaining `actions`: rate one action,
/// tighten the mover's bound and the running best value, and stop as soon as
/// `alpha >= beta`. On effect-deterministic trees the cut only avoids work
/// and never changes a root rating (`lemma_alpha_beta_equivalence`).
pub open spec fn search_rec<S: State>(
    cfg: FullSearchStrategy,
    fuel: nat,
    alpha: int,
    beta: int,
    s: S,
    actions: Seq<S::Action>,
    best: int,
    try_win: bool,
    player: S::Player,
) -> int
    decreases fuel, 2nat, actions.len(),
{
    if actions.len() == 0 {
        best
    } else {
        let rate = rate_action_rec(cfg, fuel, alpha, beta, s, actions[0], player);
        let alpha2 = if try_win && rate > alpha {
            rate
        } else {
            alpha
        };
        let beta2 = if !try_win && rate < beta {
            rate
        } else {
            beta
        };
        let best2 = if try_win == (rate > best) {
            rate
        } else {
            best
        };
        if alpha2 >= beta2 {
            best2
        } else {
            search_rec(cfg, fuel, alpha2, beta2, s, actions.drop_first(), best2, try_win, player)
        }
    }
}

/// Expected reward of taking `a` at `s`: the probability-weighted average of
/// the subtree value under each effect `a` may resolve into.
pub open spec fn rate_action_rec<S: State>(
    cfg: FullSearchStrategy,
    fuel: nat,
    alpha: int,
    beta: int,
    s: S,
    a: S::Action,
    player: S::Player,
) -> int
    decreases fuel, 1nat, 0nat,
{
    weighted_sum_rec(cfg, fuel, alpha, beta, s, s.spec_effects(a), player) / (TOTAL_PROB as int)
}

/// Sum over `es` of occurrence probability times subtree value.
pub open spec fn weighted_sum_rec<S: State>(
    cfg: FullSearchStrategy,
    fuel: nat,
    alpha: int,
    beta: int,
    s: S,
    es: Seq<S::ActionEffect>,
    player: S::Player,
) -> int
    decreases fuel, 0nat, es.len(),
{
    if es.len() == 0 || fuel == 0 {
        0
    } else {
        weighted_sum_rec(cfg, fuel, alpha, beta, s, es.drop_last(), player) + s.spec_prob(es.last())
            * rate_state_rec(cfg, (fuel - 1) as nat, alpha, beta, s.spec_apply(es.last()), player)
    }
}

/// Rating that the full search gives to the `i`th legal action at `s`, from
/// the viewpoint of the mover at `s`, with the bounds fully open.
pub open spec fn root_rating<S: State>(cfg: FullSearchStrategy, s: S, i: int) -> int {
    rate_action_rec(
        cfg,
        s.height(),
        0,
        u64::MAX as int,
        s,
        s.spec_actions()[i],
        s.spec_player(),
    )
}

/// Expected reward of `s` for `player` by plain exhaustive minimax with no
/// pruning: the reference value that the pruned search is measured against.
pub open spec fn minimax_state_rec<S: State>(
    cfg: FullSearchStrategy,
    fuel: nat,
    s: S,
    player: S::Player,
) -> int
    decreases fuel, 3nat, 0nat,
{
    match s.spec_winner() {
        Some(w) => terminal_rating(cfg, w, player),
        None => {
            let try_win = s.spec_player() == player;
            minimax_search_rec(
                cfg,
                fuel,
                s,
                s.spec_actions(),
                if try_win {
                    0
                } else {
                    u64::MAX as int
                },
                try_win,
                player,
            )
        },
    }
}

/// Folds the best (for the mover) rating over all remaining `actions`.
pub open spec fn minimax_search_rec<S: State>(
    cfg: FullSearchStrategy,
    fuel: nat,
    s: S,
    actions: Seq<S::Action>,
    best: int,
    try_win: bool,
    player: S::Player,
) -> int
    decreases fuel, 2nat, actions.len(),
{
    if actions.len() == 0 {
        best
    } else {
        let rate = minimax_action_rec(cfg, fuel, s, actions[0], player);
        let best2 = if try_win == (rate > best) {
            rate
        } else {
            best
        };
        minimax_search_rec(cfg, fuel, s, actions.drop_first(), best2, try_win, player)
    }
}

/// Expected reward of taking `a` at `s`, by plain minimax.
pub open spec fn minimax_action_rec<S: State>(
    cfg: FullSearchStrategy,
    fuel: nat,
    s: S,
    a: S::Action,
    player: S::Player,
) -> int
    decreases fuel, 1nat, 0nat,
{
    minimax_weighted_rec(cfg, fuel, s, s.spec_effects(a), player) / (TOTAL_PROB as int)
}

/// Sum over `es` of occurrence probability times plain-minimax subtree value.
pub open spec fn minimax_weighted_rec<S: State>(
    cfg: FullSearchStrategy,
    fuel: nat,
    s: S,
    es: Seq<S::ActionEffect>,
    player: S::Player,
) -> int
    decreases fuel, 0nat, es.len(),
{
    if es.len() == 0 || fuel == 0 {
        0
    } else {
        minimax_weighted_rec(cfg, fuel, s, es.drop_last(), player) + s.spec_prob(es.last())
            * minimax_state_rec(cfg, (fuel - 1) as nat, s.spec_apply(es.last()), player)
    }
}

proof fn lemma_sum_ints_nonneg(s: Seq<int>)
    requires
        forall|i: int| 0 <= i < s.len() ==> s[i] >= 0,
    ensures
        sum_ints(s) >= 0,
    decreases s.len(),
{
    if s.len() > 0 {
        lemma_sum_ints_nonneg(s.drop_last());
    }
}

proof fn lemma_sum_ints_take_le(s: Seq<int>, i: int)
    requires
        0 <= i <= s.len(),
        forall|j: int| 0 <= j < s.len() ==> s[j] >= 0,
    ensures
        sum_ints(s.take(i)) <= sum_ints(s),
    decreases s.len() - i,
{
    if i == s.len() {
        assert(s.take(i) =~= s);
    } else {
        assert(s.take(i + 1).drop_last() =~= s.take(i));
        assert(s.take(i + 1).last() == s[i]);
        lemma_sum_ints_take_le(s, i + 1);
    }
}

impl FullSearchStrategy {
    /// A strategy with the default rewards.
    pub fn new() -> (r: FullSearchStrategy)
        ensures
            r.win_reward == DEFAULT_WIN_REWARD,
            r.draw_reward == DEFAULT_DRAW_REWARD,
            r.loose_reward == DEFAULT_LOOSE_REWARD,
    {
        FullSearchStrategy {
            win_reward: DEFAULT_WIN_REWARD,
            draw_reward: DEFAULT_DRAW_REWARD,
            loose_reward: DEFAULT_LOOSE_REWARD,
        }
    }

    /// A strategy with the given rewards, in millionths. The ordering needed
    /// for sound pruning is not checked here; see `validated`.
    pub fn with_rewards(win_reward: u64, draw_reward: u64, loose_reward: u64) -> (r:
        FullSearchStrategy)
        ensures
            r.win_reward == win_reward,
            r.draw_reward == draw_reward,
            r.loose_reward == loose_reward,
    {
        FullSearchStrategy { win_reward, draw_reward, loose_reward }
    }

    /// A strategy with the given rewards, in millionths; `None` exactly when
    /// the rewards are not ordered `loose <= draw <= win`, the ordering that
    /// keeps alpha-beta pruning sound.
    pub fn validated(win_reward: u64, draw_reward: u64, loose_reward: u64) -> (r: Option<
        FullSearchStrategy,
    >)
        ensures
            r is Some <==> loose_reward <= draw_reward <= win_reward,
            r matches Some(c) ==> c == (FullSearchStrategy { win_reward, draw_reward, loose_reward }),
    {
        if loose_reward <= draw_reward && draw_reward <= win_reward {
            Some(FullSearchStrategy { win_reward, draw_reward, loose_reward })
        } else {
            None
        }
    }

    /// Expected reward of taking `action` at `state`, by full search of every
    /// effect's subtree under the bounds `alpha` and `beta`. The state is
    /// mutated in place during the search and restored before returning.
    fn rate_action<S: State>(
        &self,
        alpha: u64,
        beta: u64,
        state: &mut S,
        action: &S::Action,
        player: S::Player,
        Ghost(fuel): Ghost<nat>,
    ) -> (r: u64)
        requires
            old(state).inv(),
            old(state).spec_actions().contains(*action),
            fuel >= old(state).height(),
        ensures
            *final(state) == *old(state),
            r as int == rate_action_rec(
                *self,
                fuel,
                alpha as int,
                beta as int,
                *old(state),
                *action,
                player,
            ),
        decreases fuel, 0nat,
    {
        let ghost s0 = *state;
        let effects = state.action_effects(action);
        let ghost es = effects@;
        let ghost ps = es.map_values(|e: S::ActionEffect| s0.spec_prob(e));
        proof {
            S::lemma_probabilities(s0, *action);
        }
        let mut sum: u128 = 0;
        let mut i: usize = 0;
        while i < effects.len()
            invariant
                state.inv(),
                *state == s0,
                s0.inv(),
                s0.spec_actions().contains(*action),
                es == s0.spec_effects(*action),
                effects@ == es,
                ps == es.map_values(|e: S::ActionEffect| s0.spec_prob(e)),
                sum_ints(ps) == TOTAL_PROB as int,
                forall|j: int| 0 <= j < ps.len() ==> 0 < #[trigger] ps[j] <= TOTAL_PROB as int,
                fuel >= s0.height(),
                i <= es.len(),
                sum as int == weighted_sum_rec(
                    *self,
                    fuel,
                    alpha as int,
                    beta as int,
                    s0,
                    es.take(i as int),
                    player,
                ),
                sum as int <= sum_ints(ps.take(i as int)) * (u64::MAX as int),
            decreases es.len() - i,
        {
            proof {
                assert(s0.spec_effects(*action).contains(es[i as int])) by {
                    assert(s0.spec_effects(*action)[i as int] == es[i as int]);
                }
            }
            let p = state.apply_effect(&effects[i]);
            proof {
                assert(fuel >= 1);
                assert(*state == s0.spec_apply(es[i as int]));
            }
            let v = self.rate_state(alpha, beta, state, player, Ghost((fuel - 1) as nat));
            proof {
                assert(s0.inv() && *state == s0.spec_apply(es[i as int]) && s0.spec_actions()
                    .contains(*action) && s0.spec_effects(*action).contains(es[i as int]));
            }
            state.unapply_effect(&effects[i]);
            proof {
                S::lemma_reversible(s0, *action, es[i as int]);
                assert(*state == s0);
                assert(ps[i as int] == s0.spec_prob(es[i as int]));
                assert(es.take(i + 1).drop_last() =~= es.take(i as int));
                assert(es.take(i + 1).last() == es[i as int]);
                assert(ps.take(i + 1).drop_last() =~= ps.take(i as int));
                assert(ps.take(i + 1).last() == ps[i as int]);
                assert(p as int == ps[i as int]);
                assert((p as int) * (v as int) <= (ps[i as int]) * (u64::MAX as int)) by {
                    lemma_mul_inequality(v as int, u64::MAX as int, p as int);
                }
                lemma_sum_ints_nonneg(ps.take(i as int));
                lemma_sum_ints_take_le(ps, i + 1);
                assert(sum_ints(ps.take(i + 1)) * (u64::MAX as int) <= (TOTAL_PROB as int) * (
                u64::MAX as int)) by {
                    lemma_mul_inequality(
                        sum_ints(ps.take(i + 1)),
                        TOTAL_PROB as int,
                        u64::MAX as int,
                    );
                }
                assert(weighted_sum_rec(
                    *self,
                    fuel,
                    alpha as int,
                    beta as int,
                    s0,
                    es.take(i + 1),
                    player,
                ) == weighted_sum_rec(
                    *self,
                    fuel,
                    alpha as int,
                    beta as int,
                    s0,
                    es.take(i as int),
                    player,
                ) + ps[i as int] * (v as int));
            }
            sum = sum + (p as u128) * (v as u128);
            i = i + 1;
        }
        proof {
            assert(es.take(i as int) =~= es);
            assert(ps.take(i as int) =~= ps);
            assert(sum as int <= (TOTAL_PROB as int) * (u64::MAX as int)) by {
                lemma_mul_inequality(sum_ints(ps), TOTAL_PROB as int, u64::MAX as int);
            }
            lemma_div_is_ordered(
                sum as int,
                (TOTAL_PROB as int) * (u64::MAX as int),
                TOTAL_PROB as int,
            );
            lemma_div_multiples_vanish(u64::MAX as int, TOTAL_PROB as int);
        }
        let r = sum / (TOTAL_PROB as u128);
        r as u64
    }

    /// Expected reward of the position `state` for `player`, by exhaustive
    /// search to every terminal state, pruning with the bounds `alpha` and
    /// `beta`. The state is mutated in place during the search and restored
    /// before returning.
    fn rate_state<S: State>(
        &self,
        alpha: u64,
        beta: u64,
        state: &mut S,
        player: S::Player,
        Ghost(fuel): Ghost<nat>,
    ) -> (r: u64)
        requires
            old(state).inv(),
            fuel >= old(state).height(),
        ensures
            *final(state) == *old(state),
            r as int == rate_state_rec(
                *self,
                fuel,
                alpha as int,
                beta as int,
                *old(state),
                player,
            ),
        decreases fuel, 1nat,
    {
        match state.winner() {
            Some(Winner::Draw) => {
                return self.draw_reward;
            },
            Some(Winner::Player(w)) => {
                return if S::same_player(&w, &player) {
                    self.win_reward
                } else {
                    self.loose_reward
                };
            },
            None => {},
        }
        let cur = state.player();
        let try_win = S::same_player(&cur, &player);
        let actions = state.possible_actions();
        let ghost s0 = *state;
        let ghost all = actions@;
        let ghost target = rate_state_rec(*self, fuel, alpha as int, beta as int, s0, player);
        let mut a_bound = alpha;
        let mut b_bound = beta;
        let mut best: u64 = if try_win {
            0
        } else {
            u64::MAX
        };
        let mut i: usize = 0;
        proof {
            assert(all.skip(0) =~= all);
        }
        while i < actions.len()
            invariant
                state.inv(),
                *state == s0,
                s0 == *old(state),
                s0.inv(),
                s0.spec_winner() is None,
                all == s0.spec_actions(),
                actions@ == all,
                try_win == (s0.spec_player() == player),
                fuel >= s0.height(),
                i <= all.len(),
                target == rate_state_rec(*self, fuel, alpha as int, beta as int, s0, player),
                target == search_rec(
                    *self,
                    fuel,
                    a_bound as int,
                    b_bound as int,
                    s0,
                    all.skip(i as int),
                    best as int,
                    try_win,
                    player,
                ),
            decreases all.len() - i,
        {
            let ghost rem = all.skip(i as int);
            let ghost a_old = a_bound;
            let ghost b_old = b_bound;
            let ghost best_old = best;
            proof {
                assert(s0.spec_actions().contains(all[i as int])) by {
                    assert(s0.spec_actions()[i as int] == all[i as int]);
                }
                assert(rem[0] == all[i as int]);
                assert(rem.drop_first() =~= all.skip(i + 1));
            }
            let rate = self.rate_action(a_bound, b_bound, state, &actions[i], player, Ghost(fuel));
            if try_win {
                if rate > a_bound {
                    a_bound = rate;
                }
                if rate > best {
                    best = rate;
                }
            } else {
                if rate < b_bound {
                    b_bound = rate;
                }
                if rate < best {
                    best = rate;
                }
            }
            proof {
                assert(rate as int == rate_action_rec(
                    *self,
                    fuel,
                    a_old as int,
                    b_old as int,
                    s0,
                    rem[0],
                    player,
                ));
                assert(search_rec(
                    *self,
                    fuel,
                    a_old as int,
                    b_old as int,
                    s0,
                    rem,
                    best_old as int,
                    try_win,
                    player,
                ) == if a_bound as int >= b_bound as int {
                    best as int
                } else {
                    search_rec(
                        *self,
                        fuel,
                        a_bound as int,
                        b_bound as int,
                        s0,
                        all.skip(i + 1),
                        best as int,
                        try_win,
                        player,
                    )
                });
            }
            if a_bound >= b_bound {
                return best;
            }
            i = i + 1;
        }
        proof {
            assert(all.skip(i as int) =~= Seq::<S::Action>::empty());
        }
        best
    }
}

impl Default for FullSearchStrategy {
    /// A strategy with the default rewards.
    fn default() -> (r: FullSearchStrategy)
        ensures
            r.win_reward == DEFAULT_WIN_REWARD,
            r.draw_reward == DEFAULT_DRAW_REWARD,
            r.loose_reward == DEFAULT_LOOSE_REWARD,
    {
        FullSearchStrategy::new()
    }
}

impl<S: State> Strategy<S> for FullSearchStrategy {
    type Rating = u64;

    /// Rates every legal action at `state` by full exhaustive search, from
    /// the viewpoint of the mover at `state`, with fully open bounds at the
    /// root: the `i`th returned rating is exactly `root_rating(self, state, i)`.
    fn rated_actions(&self, state: &S) -> (r: Vec<(S::Action, u64)>)
        ensures
            forall|i: int|
                0 <= i < r@.len() ==> #[trigger] r@[i].1 as int == root_rating(*self, *state, i),
    {
        let ghost s0 = *state;
        let mut work = state.duplicate();
        let mut actions = state.possible_actions();
        let player = state.player();
        let ghost all = actions@;
        let mut r: Vec<(S::Action, u64)> = Vec::new();
        while actions.len() > 0
            invariant
                work == s0,
                s0 == *state,
                s0.inv(),
                all == s0.spec_actions(),
                player == s0.spec_player(),
                r@.len() + actions@.len() == all.len(),
                actions@ == all.skip(r@.len() as int),
                forall|i: int| 0 <= i < r@.len() ==> #[trigger] r@[i].0 == all[i],
                forall|i: int|
                    0 <= i < r@.len() ==> #[trigger] r@[i].1 as int == root_rating(*self, s0, i),
            decreases actions@.len(),
        {
            let ghost k = r@.len() as int;
            let a = actions.remove(0);
            proof {
                assert(a == all[k]);
                assert(s0.spec_actions().contains(a)) by {
                    assert(s0.spec_actions()[k] == a);
                }
                assert(actions@ =~= all.skip(k + 1));
            }
            let rate = self.rate_action(0, u64::MAX, &mut work, &a, player, Ghost(s0.height()));
            r.push((a, rate));
        }
        r
    }

    /// Selects the first action among those with the maximum full-search
    /// rating; `None` iff the game is over.
    fn best_action(&self, state: &S) -> (r: Option<S::Action>)
        ensures
            r matches Some(a) ==> exists|i: int|
                0 <= i < state.spec_actions().len() && a == state.spec_actions()[i] && (forall|
                    j: int,
                |
                    0 <= j < state.spec_actions().len() ==> #[trigger] root_rating(*self, *state, j)
                        <= root_rating(*self, *state, i)) && (forall|j: int|
                    0 <= j < i ==> #[trigger] root_rating(*self, *state, j) < root_rating(
                        *self,
                        *state,
                        i,
                    )),
    {
        let mut rated = self.rated_actions(state);
        if rated.len() == 0 {
            return None;
        }
        let ghost all = state.spec_actions();
        let mut best_i: usize = 0;
        let mut i: usize = 1;
        while i < rated.len()
            invariant
                rated@.len() == all.len(),
                forall|j: int| 0 <= j < rated@.len() ==> #[trigger] rated@[j].0 == all[j],
                forall|j: int|
                    0 <= j < rated@.len() ==> #[trigger] rated@[j].1 as int == root_rating(
                        *self,
                        *state,
                        j,
                    ),
                0 < rated@.len(),
                best_i < i,
                i <= rated@.len(),
                forall|j: int|
                    0 <= j < i ==> #[trigger] rated@[j].1 <= rated@[best_i as int].1,
                forall|j: int| 0 <= j < best_i ==> #[trigger] rated@[j].1 < rated@[best_i as int].1,
            decreases rated@.len() - i,
        {
            if rated[i].1 > rated[best_i].1 {
                best_i = i;
            }
            i = i + 1;
        }
        let ghost rv = rated@;
        let (a, _) = rated.remove(best_i);
        proof {
            assert(a == rv[best_i as int].0);
            assert(a == state.spec_actions()[best_i as int]);
            assert forall|j: int| 0 <= j < all.len() implies #[trigger] root_rating(
                *self,
                *state,
                j,
            ) <= root_rating(*self, *state, best_i as int) by {
                assert(rv[j].1 <= rv[best_i as int].1);
                assert(rv[j].1 as int == root_rating(*self, *state, j));
                assert(rv[best_i as int].1 as int == root_rating(*self, *state, best_i as int));
            }
            assert forall|j: int| 0 <= j < best_i as int implies #[trigger] root_rating(
                *self,
                *state,
                j,
            ) < root_rating(*self, *state, best_i as int) by {
                assert(rv[j].1 < rv[best_i as int].1);
                assert(rv[j].1 as int == root_rating(*self, *state, j));
            }
        }
        Some(a)
    }
}

/// `a` behaves deterministically at `s`: it resolves into exactly one effect,
/// with probability 1, and the game below that effect is again deterministic.
pub open spec fn det_action<S: State>(s: S, a: S::Action, fuel: nat) -> bool
    decreases fuel, 0nat, 0nat,
{
    &&& fuel >= 1
    &&& s.spec_effects(a).len() == 1
    &&& s.spec_prob(s.spec_effects(a)[0]) == TOTAL_PROB as int
    &&& det_tree(s.spec_apply(s.spec_effects(a)[0]), (fuel - 1) as nat)
}

/// Each action among `actions` behaves deterministically at `s`.
pub open spec fn det_actions<S: State>(s: S, actions: Seq<S::Action>, fuel: nat) -> bool
    decreases fuel, 1nat, actions.len(),
{
    actions.len() == 0 || (det_action(s, actions[0], fuel) && det_actions(
        s,
        actions.drop_first(),
        fuel,
    ))
}

/// The game below `s` has no chance element and terminates within `fuel`
/// plies: every play reaches a decided position, and every action along the
/// way resolves into a single certain effect.
pub open spec fn det_tree<S: State>(s: S, fuel: nat) -> bool
    decreases fuel, 2nat, 0nat,
{
    s.spec_winner() is None ==> (fuel >= 1 && det_actions(s, s.spec_actions(), fuel))
}

/// On a deterministic action, both the pruned and the unpruned rating of the
/// action are exactly the value of the position after it.
proof fn lemma_det_action_value<S: State>(
    cfg: FullSearchStrategy,
    fuel: nat,
    alpha: int,
    beta: int,
    s: S,
    a: S::Action,
    player: S::Player,
)
    requires
        det_action(s, a, fuel),
    ensures
        rate_action_rec(cfg, fuel, alpha, beta, s, a, player) == rate_state_rec(
            cfg,
            (fuel - 1) as nat,
            alpha,
            beta,
            s.spec_apply(s.spec_effects(a)[0]),
            player,
        ),
        minimax_action_rec(cfg, fuel, s, a, player) == minimax_state_rec(
            cfg,
            (fuel - 1) as nat,
            s.spec_apply(s.spec_effects(a)[0]),
            player,
        ),
{
    let es = s.spec_effects(a);
    let child = s.spec_apply(es[0]);
    assert(es.last() == es[0]);
    assert(es.drop_last().len() == 0);
    assert(weighted_sum_rec(cfg, fuel, alpha, beta, s, es.drop_last(), player) == 0);
    assert(minimax_weighted_rec(cfg, fuel, s, es.drop_last(), player) == 0);
    lemma_div_multiples_vanish(
        rate_state_rec(cfg, (fuel - 1) as nat, alpha, beta, child, player),
        TOTAL_PROB as int,
    );
    lemma_div_multiples_vanish(
        minimax_state_rec(cfg, (fuel - 1) as nat, child, player),
        TOTAL_PROB as int,
    );
}

/// The unpruned value of a deterministic tree lies between 0 and `u64::MAX`.
proof fn lemma_minimax_bounds<S: State>(
    cfg: FullSearchStrategy,
    fuel: nat,
    s: S,
    player: S::Player,
)
    requires
        det_tree(s, fuel),
    ensures
        0 <= minimax_state_rec(cfg, fuel, s, player) <= u64::MAX as int,
    decreases fuel, 2nat, 0nat,
{
    if s.spec_winner() is None {
        let try_win = s.spec_player() == player;
        lemma_minimax_search_bounds(
            cfg,
            fuel,
            s,
            s.spec_actions(),
            if try_win {
                0int
            } else {
                u64::MAX as int
            },
            try_win,
            player,
        );
    }
}

proof fn lemma_minimax_search_bounds<S: State>(
    cfg: FullSearchStrategy,
    fuel: nat,
    s: S,
    actions: Seq<S::Action>,
    best: int,
    try_win: bool,
    player: S::Player,
)
    requires
        det_actions(s, actions, fuel),
        0 <= best <= u64::MAX as int,
    ensures
        0 <= minimax_search_rec(cfg, fuel, s, actions, best, try_win, player) <= u64::MAX as int,
    decreases fuel, 1nat, actions.len(),
{
    if actions.len() != 0 {
        let a0 = actions[0];
        assert(det_action(s, a0, fuel) && det_actions(s, actions.drop_first(), fuel));
        assert(fuel >= 1);
        lemma_det_action_value(cfg, fuel, 0, 0, s, a0, player);
        lemma_minimax_bounds(cfg, (fuel - 1) as nat, s.spec_apply(s.spec_effects(a0)[0]), player);
        let rate = minimax_action_rec(cfg, fuel, s, a0, player);
        let best2 = if try_win == (rate > best) {
            rate
        } else {
            best
        };
        lemma_minimax_search_bounds(cfg, fuel, s, actions.drop_first(), best2, try_win, player);
    }
}

/// Folding more actions into the unpruned search only improves the running
/// best value for the mover.
proof fn lemma_minimax_search_monotone<S: State>(
    cfg: FullSearchStrategy,
    fuel: nat,
    s: S,
    actions: Seq<S::Action>,
    best: int,
    try_win: bool,
    player: S::Player,
)
    ensures
        try_win ==> minimax_search_rec(cfg, fuel, s, actions, best, try_win, player) >= best,
        !try_win ==> minimax_search_rec(cfg, fuel, s, actions, best, try_win, player) <= best,
    decreases actions.len(),
{
    if actions.len() != 0 {
        let rate = minimax_action_rec(cfg, fuel, s, actions[0], player);
        let best2 = if try_win == (rate > best) {
            rate
        } else {
            best
        };
        lemma_minimax_search_monotone(cfg, fuel, s, actions.drop_first(), best2, try_win, player);
    }
}

proof fn lemma_det_actions_index<S: State>(s: S, actions: Seq<S::Action>, fuel: nat, i: int)
    requires
        det_actions(s, actions, fuel),
        0 <= i < actions.len(),
    ensures
        det_action(s, actions[i], fuel),
    decreases i,
{
    assert(det_action(s, actions[0], fuel) && det_actions(s, actions.drop_first(), fuel));
    if i > 0 {
        assert(actions.drop_first()[i - 1] == actions[i]);
        lemma_det_actions_index(s, actions.drop_first(), fuel, i - 1);
    }
}

/// Soundness of one pruned node against the unpruned value `v`: inside the
/// window the pruned result is exact; at or outside a bound, both values are
/// on the same side of that bound, with the pruned one no further out.
proof fn lemma_ab_state<S: State>(
    cfg: FullSearchStrategy,
    fuel: nat,
    alpha: int,
    beta: int,
    s: S,
    player: S::Player,
)
    requires
        det_tree(s, fuel),
        0 <= alpha < beta,
        alpha <= u64::MAX as int,
        beta <= u64::MAX as int,
    ensures
        ({
            let v = minimax_state_rec(cfg, fuel, s, player);
            let r = rate_state_rec(cfg, fuel, alpha, beta, s, player);
            &&& (alpha < v < beta ==> r == v)
            &&& (v <= alpha ==> v <= r <= alpha)
            &&& (v >= beta ==> beta <= r <= v)
        }),
    decreases fuel, 2nat, 0nat,
{
    if s.spec_winner() is None {
        let try_win = s.spec_player() == player;
        assert(fuel >= 1 && det_actions(s, s.spec_actions(), fuel));
        if try_win {
            lemma_ab_search_max(
                cfg,
                fuel,
                alpha,
                beta,
                s,
                s.spec_actions(),
                alpha,
                0,
                0,
                player,
            );
        } else {
            lemma_ab_search_min(
                cfg,
                fuel,
                alpha,
                beta,
                s,
                s.spec_actions(),
                beta,
                u64::MAX as int,
                u64::MAX as int,
                player,
            );
        }
    }
}

/// The fold step of `lemma_ab_state` at a maximizing node: `a` is the running
/// lower bound, `best` the pruned and `vbest` the unpruned best value over
/// the actions already rated.
proof fn lemma_ab_search_max<S: State>(
    cfg: FullSearchStrategy,
    fuel: nat,
    alpha0: int,
    beta: int,
    s: S,
    actions: Seq<S::Action>,
    a: int,
    best: int,
    vbest: int,
    player: S::Player,
)
    requires
        det_actions(s, actions, fuel),
        0 <= alpha0 < beta,
        alpha0 <= u64::MAX as int,
        beta <= u64::MAX as int,
        0 <= best <= u64::MAX as int,
        0 <= vbest <= u64::MAX as int,
        vbest < beta,
        a == (if best > alpha0 {
            best
        } else {
            alpha0
        }),
        vbest <= alpha0 ==> vbest <= best <= alpha0,
        vbest > alpha0 ==> best == vbest,
    ensures
        ({
            let v = minimax_search_rec(cfg, fuel, s, actions, vbest, true, player);
            let r = search_rec(cfg, fuel, a, beta, s, actions, best, true, player);
            &&& (alpha0 < v < beta ==> r == v)
            &&& (v <= alpha0 ==> v <= r <= alpha0)
            &&& (v >= beta ==> beta <= r <= v)
        }),
    decreases fuel, 1nat, actions.len(),
{
    if actions.len() == 0 {
    } else {
        let a0 = actions[0];
        assert(det_action(s, a0, fuel) && det_actions(s, actions.drop_first(), fuel));
        let child = s.spec_apply(s.spec_effects(a0)[0]);
        lemma_det_action_value(cfg, fuel, a, beta, s, a0, player);
        lemma_minimax_bounds(cfg, (fuel - 1) as nat, child, player);
        lemma_ab_state(cfg, (fuel - 1) as nat, a, beta, child, player);
        let v0 = minimax_state_rec(cfg, (fuel - 1) as nat, child, player);
        let r0 = rate_state_rec(cfg, (fuel - 1) as nat, a, beta, child, player);
        let a2 = if r0 > a {
            r0
        } else {
            a
        };
        let best2 = if r0 > best {
            r0
        } else {
            best
        };
        let vbest2 = if v0 > vbest {
            v0
        } else {
            vbest
        };
        if v0 >= beta {
            assert(beta <= r0 <= v0);
            assert(a2 >= beta);
            lemma_minimax_search_monotone(
                cfg,
                fuel,
                s,
                actions.drop_first(),
                vbest2,
                true,
                player,
            );
        } else {
            assert(a2 < beta);
            lemma_ab_search_max(
                cfg,
                fuel,
                alpha0,
                beta,
                s,
                actions.drop_first(),
                a2,
                best2,
                vbest2,
                player,
            );
        }
    }
}

/// The fold step of `lemma_ab_state` at a minimizing node: `b` is the running
/// upper bound, `best` the pruned and `vbest` the unpruned best value over
/// the actions already rated.
proof fn lemma_ab_search_min<S: State>(
    cfg: FullSearchStrategy,
    fuel: nat,
    alpha0: int,
    beta0: int,
    s: S,
    actions: Seq<S::Action>,
    b: int,
    best: int,
    vbest: int,
    player: S::Player,
)
    requires
        det_actions(s, actions, fuel),
        0 <= alpha0 < beta0,
        alpha0 <= u64::MAX as int,
        beta0 <= u64::MAX as int,
        0 <= best <= u64::MAX as int,
        0 <= vbest <= u64::MAX as int,
        vbest > alpha0,
        b == (if best < beta0 {
            best
        } else {
            beta0
        }),
        vbest >= beta0 ==> beta0 <= best <= vbest,
        vbest < beta0 ==> best == vbest,
    ensures
        ({
            let v = minimax_search_rec(cfg, fuel, s, actions, vbest, false, player);
            let r = search_rec(cfg, fuel, alpha0, b, s, actions, best, false, player);
            &&& (alpha0 < v < beta0 ==> r == v)
            &&& (v <= alpha0 ==> v <= r <= alpha0)
            &&& (v >= beta0 ==> beta0 <= r <= v)
        }),
    decreases fuel, 1nat, actions.len(),
{
    if actions.len() == 0 {
    } else {
        let a0 = actions[0];
        assert(det_action(s, a0, fuel) && det_actions(s, actions.drop_first(), fuel));
        let child = s.spec_apply(s.spec_effects(a0)[0]);
        lemma_det_action_value(cfg, fuel, alpha0, b, s, a0, player);
        lemma_minimax_bounds(cfg, (fuel - 1) as nat, child, player);
        lemma_ab_state(cfg, (fuel - 1) as nat, alpha0, b, child, player);
        let v0 = minimax_state_rec(cfg, (fuel - 1) as nat, child, player);
        let r0 = rate_state_rec(cfg, (fuel - 1) as nat, alpha0, b, child, player);
        let b2 = if r0 < b {
            r0
        } else {
            b
        };
        let best2 = if r0 < best {
            r0
        } else {
            best
        };
        let vbest2 = if v0 < vbest {
            v0
        } else {
            vbest
        };
        if v0 <= alpha0 {
            assert(v0 <= r0 <= alpha0);
            assert(b2 <= alpha0);
            lemma_minimax_search_monotone(
                cfg,
                fuel,
                s,
                actions.drop_first(),
                vbest2,
                false,
                player,
            );
        } else {
            assert(alpha0 < b2);
            lemma_ab_search_min(
                cfg,
                fuel,
                alpha0,
                beta0,
                s,
                actions.drop_first(),
                b2,
                best2,
                vbest2,
                player,
            );
        }
    }
}

/// Alpha-beta equivalence on games without chance: with the bounds fully open
/// at the root, every rating the pruned full search produces equals the value
/// of the unpruned exhaustive minimax on the same position. (Bounds passed
/// through a chance node can cut branches that shift an expected value, so
/// the claim is stated for effect-deterministic game trees, the setting the
/// pruning is designed for.)
pub proof fn lemma_alpha_beta_equivalence<S: State>(cfg: FullSearchStrategy, s: S, i: int)
    requires
        s.spec_winner() is None,
        det_tree(s, s.height()),
        0 <= i < s.spec_actions().len(),
    ensures
        root_rating(cfg, s, i) == minimax_action_rec(
            cfg,
            s.height(),
            s,
            s.spec_actions()[i],
            s.spec_player(),
        ),
{
    let fuel = s.height();
    let player = s.spec_player();
    let a = s.spec_actions()[i];
    assert(fuel >= 1 && det_actions(s, s.spec_actions(), fuel));
    lemma_det_actions_index(s, s.spec_actions(), fuel, i);
    lemma_det_action_value(cfg, fuel, 0, u64::MAX as int, s, a, player);
    let child = s.spec_apply(s.spec_effects(a)[0]);
    lemma_minimax_bounds(cfg, (fuel - 1) as nat, child, player);
    lemma_ab_state(cfg, (fuel - 1) as nat, 0, u64::MAX as int, child, player);
}

/// Terminal coverage at the root: a legal action whose single effect ends the
/// game at once is rated by `rated_actions` exactly the reward configured for
/// its outcome.
pub proof fn lemma_root_one_ply_rating<S: State>(cfg: FullSearchStrategy, s: S, i: int)
    requires
        s.inv(),
        0 <= i < s.spec_actions().len(),
        s.spec_effects(s.spec_actions()[i]).len() == 1,
        s.height() >= 1,
        s.spec_apply(s.spec_effects(s.spec_actions()[i])[0]).spec_winner() is Some,
    ensures
        root_rating(cfg, s, i) == terminal_rating(
            cfg,
            s.spec_apply(s.spec_effects(s.spec_actions()[i])[0]).spec_winner()->Some_0,
            s.spec_player(),
        ),
{
    let a = s.spec_actions()[i];
    assert(s.spec_actions().contains(a)) by {
        assert(s.spec_actions()[i] == a);
    }
    lemma_one_ply_rating(cfg, s.height(), 0, u64::MAX as int, s, a, s.spec_player());
}

/// Terminal coverage: an action whose single effect ends the game at once is
/// rated exactly the reward configured for its outcome, whatever the bounds.
pub proof fn lemma_one_ply_rating<S: State>(
    cfg: FullSearchStrategy,
    fuel: nat,
    alpha: int,
    beta: int,
    s: S,
    a: S::Action,
    player: S::Player,
)
    requires
        s.inv(),
        s.spec_actions().contains(a),
        s.spec_effects(a).len() == 1,
        fuel >= 1,
        s.spec_apply(s.spec_effects(a)[0]).spec_winner() is Some,
    ensures
        rate_action_rec(cfg, fuel, alpha, beta, s, a, player) == terminal_rating(
            cfg,
            s.spec_apply(s.spec_effects(a)[0]).spec_winner()->Some_0,
            player,
        ),
{
    let es = s.spec_effects(a);
    S::lemma_probabilities(s, a);
    let ps = es.map_values(|e: S::ActionEffect| s.spec_prob(e));
    assert(ps.len() == 1);
    assert(sum_ints(ps.drop_last()) == 0);
    assert(sum_ints(ps) == ps.last());
    assert(ps[0] == s.spec_prob(es[0]));
    assert(s.spec_prob(es[0]) == TOTAL_PROB as int);
    assert(es.last() == es[0]);
    let child = s.spec_apply(es[0]);
    let t = terminal_rating(cfg, child.spec_winner()->Some_0, player);
    assert(rate_state_rec(cfg, (fuel - 1) as nat, alpha, beta, child, player) == t);
    assert(weighted_sum_rec(cfg, fuel, alpha, beta, s, es.drop_last(), player) == 0);
    assert(weighted_sum_rec(cfg, fuel, alpha, beta, s, es, player) == (TOTAL_PROB as int) * t);
    lemma_div_multiples_vanish(t, TOTAL_PROB as int);
}

proof fn lemma_weighted_terminal<S: State>(
    cfg: FullSearchStrategy,
    fuel: nat,
    alpha: int,
    beta: int,
    s: S,
    es: Seq<S::ActionEffect>,
    player: S::Player,
)
    requires
        forall|i: int|
            0 <= i < es.len() ==> (#[trigger] s.spec_apply(es[i]).spec_winner()) is Some,
    ensures
        weighted_sum_rec(cfg, fuel, alpha, beta, s, es, player) == minimax_weighted_rec(
            cfg,
            fuel,
            s,
            es,
            player,
        ),
    decreases es.len(),
{
    if es.len() != 0 && fuel != 0 {
        assert(forall|i: int|
            0 <= i < es.drop_last().len() ==> (#[trigger] s.spec_apply(
                es.drop_last()[i],
            ).spec_winner()) is Some) by {
            assert(forall|i: int|
                0 <= i < es.drop_last().len() ==> es.drop_last()[i] == es[i]);
        }
        lemma_weighted_terminal(cfg, fuel, alpha, beta, s, es.drop_last(), player);
        let child = s.spec_apply(es.last());
        assert(es.last() == es[es.len() - 1]);
        assert(child.spec_winner() is Some);
        assert(rate_state_rec(cfg, (fuel - 1) as nat, alpha, beta, child, player)
            == minimax_state_rec(cfg, (fuel - 1) as nat, child, player));
    }
}

/// Pruning exactness one ply from termination: for an action all of whose
/// effects end the game at once, the pruned search rates it exactly as the
/// unpruned minimax does, whatever bounds are in force. (Deeper down, the
/// bounds can cut work; at the root the search always uses open bounds.)
pub proof fn lemma_pruning_exact_below_terminal<S: State>(
    cfg: FullSearchStrategy,
    fuel: nat,
    alpha: int,
    beta: int,
    s: S,
    a: S::Action,
    player: S::Player,
)
    requires
        forall|i: int|
            0 <= i < s.spec_effects(a).len() ==> (#[trigger] s.spec_apply(
                s.spec_effects(a)[i],
            ).spec_winner()) is Some,
    ensures
        rate_action_rec(cfg, fuel, alpha, beta, s, a, player) == minimax_action_rec(
            cfg,
            fuel,
            s,
            a,
            player,
        ),
{
    lemma_weighted_terminal(cfg, fuel, alpha, beta, s, s.spec_effects(a), player);
}

} // verus!
