use vstd::prelude::*;
use rand::Rng;
use crate::state::State;
use crate::strategy::Strategy;

verus! {

/// Baseline strategy: assigns each legal action an independently drawn random
/// rating. Exists to exercise the `Strategy` contract, not to play well.
pub struct RandomStrategy;

impl RandomStrategy {
    pub fn new() -> (r: RandomStrategy)
        ensures
            r == (RandomStrategy),
    {
        RandomStrategy
    }
}

impl Default for RandomStrategy {
    fn default() -> (r: RandomStrategy)
        ensures
            r == (RandomStrategy),
    {
        RandomStrategy
    }
}

/// Relies on rand::rngs::ThreadRng (via rand::thread_rng) and rand::Rng::gen:
/// a fresh 32-bit value from the process-wide random source. Nothing can be
/// promised of a random result.
#[verifier::external_body]
fn random_u32() -> u32 {
    rand::thread_rng().gen::<u32>()
}

impl<S: State> Strategy<S> for RandomStrategy {
    type Rating = u32;

    fn rated_actions(&self, state: &S) -> (r: Vec<(S::Action, u32)>) {
        let mut actions = state.possible_actions();
        let ghost all = actions@;
        let mut r: Vec<(S::Action, u32)> = Vec::new();
        while actions.len() > 0
            invariant
                all == state.spec_actions(),
                r@.len() + actions@.len() == all.len(),
                actions@ == all.skip(r@.len() as int),
                forall|i: int| 0 <= i < r@.len() ==> #[trigger] r@[i].0 == all[i],
            decreases actions@.len(),
        {
            let a = actions.remove(0);
            let rating = random_u32();
            r.push((a, rating));
        }
        r
    }

    fn best_action(&self, state: &S) -> (r: Option<S::Action>) {
        let mut rated = self.rated_actions(state);
        if rated.len() == 0 {
            return None;
        }
        let ghost all = state.spec_actions();
        let mut best_i: usize = 0;
        let mut i: usize = 1;
        while i < rated.len()
            invariant
                rated@.len() == all.len(),
                forall|j: int| 0 <= j < rated@.len() ==> #[trigger] rated@[j].0 == all[j],
                0 < rated@.len(),
                best_i < i,
                i <= rated@.len(),
            decreases rated@.len() - i,
        {
            if rated[i].1 > rated[best_i].1 {
                best_i = i;
            }
            i += 1;
        }
        let (a, _) = rated.remove(best_i);
        proof {
            assert(state.spec_actions()[best_i as int] == a);
        }
        Some(a)
    }
}

} // verus!
