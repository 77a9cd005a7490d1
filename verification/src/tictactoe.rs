use vstd::prelude::*;
use vstd::arithmetic::div_mod::lemma_fundamental_div_mod;
use crate::winner::Winner;
use crate::deterministic_state::{Deterministic, DeterministicState};
use crate::state::State;
use crate::strategies::full_search_strategy::{
    det_action, det_actions, det_tree, lemma_alpha_beta_equivalence, minimax_action_rec,
    root_rating, FullSearchStrategy,
};

verus! {

/// The two players' marks.
#[derive(Copy, Clone, PartialEq, Eq, Structural, Debug, Hash)]
pub enum Stone {
    Circle,
    Cross,
}

/// A move: place the mover's stone in column `x`, row `y` (both below 3).
#[derive(Copy, Clone, PartialEq, Eq, Structural, Debug)]
pub struct TicTacToeAction {
    pub x: usize,
    pub y: usize,
}

impl TicTacToeAction {
    pub fn new(x: usize, y: usize) -> (r: TicTacToeAction)
        ensures
            r.x == x,
            r.y == y,
    {
        TicTacToeAction { x, y }
    }
}

/// The action enumerated at position `k`: open cells are listed with the
/// first coordinate running fastest, (0,0), (1,0), (2,0), (0,1), and so on.
pub open spec fn action_at(k: int) -> TicTacToeAction {
    TicTacToeAction { x: (k % 3) as usize, y: (k / 3) as usize }
}

/// The board index of the cell enumerated at position `k`.
pub open spec fn cell_index(k: int) -> int {
    3 * (k % 3) + k / 3
}

/// Number of occupied cells.
pub open spec fn count_stones(c: Seq<Option<Stone>>) -> int
    decreases c.len(),
{
    if c.len() == 0 {
        0
    } else {
        count_stones(c.drop_last()) + if c.last() is Some {
            1int
        } else {
            0int
        }
    }
}

/// Cells `i`, `j` and `k` all hold `p`'s stone.
pub open spec fn line(c: Seq<Option<Stone>>, p: Stone, i: int, j: int, k: int) -> bool {
    c[i] == Some(p) && c[j] == Some(p) && c[k] == Some(p)
}

/// `p` holds one of the eight three-in-a-row lines of the board.
pub open spec fn wins(c: Seq<Option<Stone>>, p: Stone) -> bool {
    ||| line(c, p, 0, 1, 2)
    ||| line(c, p, 3, 4, 5)
    ||| line(c, p, 6, 7, 8)
    ||| line(c, p, 0, 3, 6)
    ||| line(c, p, 1, 4, 7)
    ||| line(c, p, 2, 5, 8)
    ||| line(c, p, 0, 4, 8)
    ||| line(c, p, 2, 4, 6)
}

/// The actions opening each empty cell enumerated at position `k` or later,
/// in enumeration order (first coordinate fastest).
pub open spec fn open_cells(c: Seq<Option<Stone>>, k: int) -> Seq<TicTacToeAction>
    decreases 9 - k,
{
    if k < 0 || k >= 9 {
        Seq::empty()
    } else {
        let rest = open_cells(c, k + 1);
        if c[cell_index(k)] is None {
            seq![action_at(k)] + rest
        } else {
            rest
        }
    }
}

/// A 3x3 board game: the mover places a stone on an empty cell; three own
/// stones in a row, column or diagonal win; a full board without a line draws.
/// The very first move is restricted to a corner, an edge and the center.
/// Cell `(x, y)` is board index `3 * x + y`.
#[derive(Copy, Clone, PartialEq, Eq, Debug)]
pub struct TicTacToeState {
    pub c0: Option<Stone>,
    pub c1: Option<Stone>,
    pub c2: Option<Stone>,
    pub c3: Option<Stone>,
    pub c4: Option<Stone>,
    pub c5: Option<Stone>,
    pub c6: Option<Stone>,
    pub c7: Option<Stone>,
    pub c8: Option<Stone>,
    pub turn: u32,
    pub winner: Option<Winner<Stone>>,
}

impl TicTacToeState {
    /// The board as a sequence of nine cells, index `3 * x + y`.
    pub open spec fn board(&self) -> Seq<Option<Stone>> {
        seq![self.c0, self.c1, self.c2, self.c3, self.c4, self.c5, self.c6, self.c7, self.c8]
    }

    pub open spec fn spec_turn(&self) -> u32 {
        self.turn
    }

    /// The board with cell `i` replaced by `v`.
    pub open spec fn with_cell(self, i: int, v: Option<Stone>) -> Self {
        if i == 0 {
            Self { c0: v, ..self }
        } else if i == 1 {
            Self { c1: v, ..self }
        } else if i == 2 {
            Self { c2: v, ..self }
        } else if i == 3 {
            Self { c3: v, ..self }
        } else if i == 4 {
            Self { c4: v, ..self }
        } else if i == 5 {
            Self { c5: v, ..self }
        } else if i == 6 {
            Self { c6: v, ..self }
        } else if i == 7 {
            Self { c7: v, ..self }
        } else {
            Self { c8: v, ..self }
        }
    }

    /// The empty starting position.
    pub fn initial() -> (r: TicTacToeState)
        ensures
            r.inv(),
            r.board() =~= Seq::new(9, |i: int| None::<Stone>),
            r.spec_turn() == 0,
            r.spec_winner() is None,
    {
        let r = TicTacToeState {
            c0: None,
            c1: None,
            c2: None,
            c3: None,
            c4: None,
            c5: None,
            c6: None,
            c7: None,
            c8: None,
            turn: 0,
            winner: None,
        };
        proof {
            reveal_with_fuel(count_stones, 10);
            assert(count_stones(r.board()) == 0);
            assert(!wins(r.board(), Stone::Circle));
            assert(!wins(r.board(), Stone::Cross));
        }
        r
    }

    /// The stone on cell `i`.
    fn get_cell(&self, i: usize) -> (r: Option<Stone>)
        requires
            i < 9,
        ensures
            r == self.board()[i as int],
    {
        if i == 0 {
            self.c0
        } else if i == 1 {
            self.c1
        } else if i == 2 {
            self.c2
        } else if i == 3 {
            self.c3
        } else if i == 4 {
            self.c4
        } else if i == 5 {
            self.c5
        } else if i == 6 {
            self.c6
        } else if i == 7 {
            self.c7
        } else {
            self.c8
        }
    }

    fn set_cell(&mut self, i: usize, v: Option<Stone>)
        requires
            i < 9,
        ensures
            *final(self) == old(self).with_cell(i as int, v),
    {
        if i == 0 {
            self.c0 = v;
        } else if i == 1 {
            self.c1 = v;
        } else if i == 2 {
            self.c2 = v;
        } else if i == 3 {
            self.c3 = v;
        } else if i == 4 {
            self.c4 = v;
        } else if i == 5 {
            self.c5 = v;
        } else if i == 6 {
            self.c6 = v;
        } else if i == 7 {
            self.c7 = v;
        } else {
            self.c8 = v;
        }
    }

    /// The stone on cell `(x, y)`, or `None` while the cell is open.
    pub fn at(&self, x: usize, y: usize) -> (r: Option<Stone>)
        requires
            x < 3,
            y < 3,
        ensures
            r == self.board()[3 * x + y],
    {
        self.get_cell(3 * x + y)
    }

    /// Whether cell `(x, y)` is open.
    pub fn empty(&self, x: usize, y: usize) -> (r: bool)
        requires
            x < 3,
            y < 3,
        ensures
            r == (self.board()[3 * x + y] is None),
    {
        self.at(x, y).is_none()
    }

    /// How many moves have been made.
    pub fn turn(&self) -> (r: u32)
        ensures
            r == self.spec_turn(),
    {
        self.turn
    }

    /// A copy of the nine cells, index `3 * x + y`.
    pub fn fields(&self) -> (r: Vec<Option<Stone>>)
        ensures
            r@ == self.board(),
    {
        let mut r: Vec<Option<Stone>> = Vec::new();
        r.push(self.c0);
        r.push(self.c1);
        r.push(self.c2);
        r.push(self.c3);
        r.push(self.c4);
        r.push(self.c5);
        r.push(self.c6);
        r.push(self.c7);
        r.push(self.c8);
        proof {
            assert(r@ =~= self.board());
        }
        r
    }

    fn stone_at_is(&self, i: usize, p: Stone) -> (r: bool)
        requires
            i < 9,
        ensures
            r == (self.board()[i as int] == Some(p)),
    {
        match self.get_cell(i) {
            Some(s) => s == p,
            None => false,
        }
    }

    fn line_of(&self, p: Stone, i: usize, j: usize, k: usize) -> (r: bool)
        requires
            i < 9,
            j < 9,
            k < 9,
        ensures
            r == line(self.board(), p, i as int, j as int, k as int),
    {
        self.stone_at_is(i, p) && self.stone_at_is(j, p) && self.stone_at_is(k, p)
    }

    fn has_win(&self, p: Stone) -> (r: bool)
        ensures
            r == wins(self.board(), p),
    {
        self.line_of(p, 0, 1, 2) || self.line_of(p, 3, 4, 5) || self.line_of(p, 6, 7, 8)
            || self.line_of(p, 0, 3, 6) || self.line_of(p, 1, 4, 7) || self.line_of(p, 2, 5, 8)
            || self.line_of(p, 0, 4, 8) || self.line_of(p, 2, 4, 6)
    }
}

proof fn lemma_with_cell_board(s: TicTacToeState, i: int, v: Option<Stone>)
    requires
        0 <= i < 9,
    ensures
        s.with_cell(i, v).board() =~= s.board().update(i, v),
        s.with_cell(i, v).spec_turn() == s.spec_turn(),
        s.with_cell(i, v).spec_winner() == s.spec_winner(),
{
}

proof fn lemma_count_bounds(c: Seq<Option<Stone>>)
    ensures
        0 <= count_stones(c) <= c.len(),
    decreases c.len(),
{
    if c.len() > 0 {
        lemma_count_bounds(c.drop_last());
    }
}

proof fn lemma_count_zero_all_open(c: Seq<Option<Stone>>, j: int)
    requires
        count_stones(c) == 0,
        0 <= j < c.len(),
    ensures
        c[j] is None,
    decreases c.len(),
{
    lemma_count_bounds(c.drop_last());
    if j < c.len() - 1 {
        lemma_count_zero_all_open(c.drop_last(), j);
    }
}

proof fn lemma_count_update(c: Seq<Option<Stone>>, i: int, p: Stone)
    requires
        0 <= i < c.len(),
        c[i] is None,
    ensures
        count_stones(c.update(i, Some(p))) == count_stones(c) + 1,
    decreases c.len(),
{
    let c2 = c.update(i, Some(p));
    if i == c.len() - 1 {
        assert(c2.drop_last() =~= c.drop_last());
    } else {
        assert(c2.drop_last() =~= c.drop_last().update(i, Some(p)));
        lemma_count_update(c.drop_last(), i, p);
    }
}

proof fn lemma_count_low_leaves_open(c: Seq<Option<Stone>>)
    requires
        count_stones(c) < c.len(),
    ensures
        exists|j: int| 0 <= j < c.len() && c[j] is None,
    decreases c.len(),
{
    lemma_count_bounds(c.drop_last());
    if c.last() is None {
        assert(c[c.len() - 1] is None);
    } else {
        lemma_count_low_leaves_open(c.drop_last());
        let j = choose|j: int| 0 <= j < c.drop_last().len() && c.drop_last()[j] is None;
        assert(c[j] is None);
    }
}

/// Placing one of `p`'s stones cannot complete a line for the other player.
proof fn lemma_no_new_opponent_line(c: Seq<Option<Stone>>, i: int, p: Stone, q: Stone)
    requires
        0 <= i < 9,
        c.len() == 9,
        p != q,
        !wins(c, q),
    ensures
        !wins(c.update(i, Some(p)), q),
{
}

/// Enumeration positions and board indices pair up one to one.
proof fn lemma_enum_of_cell(j: int)
    requires
        0 <= j < 9,
    ensures
        0 <= cell_index(j) < 9,
        cell_index(cell_index(j)) == j,
{
    lemma_fundamental_div_mod(j, 3);
    lemma_fundamental_div_mod(cell_index(j), 3);
}

/// Every action listed by `open_cells` opens an in-range empty cell.
proof fn lemma_open_cells_sound(c: Seq<Option<Stone>>, i: int, a: TicTacToeAction)
    requires
        open_cells(c, i).contains(a),
        c.len() == 9,
    ensures
        a.x < 3,
        a.y < 3,
        c[3 * a.x + a.y] is None,
    decreases 9 - i,
{
    if i < 0 || i >= 9 {
        assert(false);
    } else {
        if c[cell_index(i)] is None && a == action_at(i) {
            lemma_fundamental_div_mod(i, 3);
            assert(3 * a.x + a.y == cell_index(i));
        } else {
            assert(open_cells(c, i + 1).contains(a)) by {
                let k = choose|k: int| 0 <= k < open_cells(c, i).len() && open_cells(c, i)[k] == a;
                if c[cell_index(i)] is None {
                    assert(open_cells(c, i)[k] == (seq![action_at(i)] + open_cells(c, i + 1))[k]);
                    assert(open_cells(c, i + 1)[k - 1] == a);
                } else {
                    assert(open_cells(c, i + 1)[k] == a);
                }
            }
            lemma_open_cells_sound(c, i + 1, a);
        }
    }
}

/// Every empty cell is listed by `open_cells` from any position at or before
/// its enumeration position.
proof fn lemma_open_cells_complete(c: Seq<Option<Stone>>, i: int, p: int)
    requires
        0 <= i <= p < 9,
        c.len() == 9,
        c[cell_index(p)] is None,
    ensures
        open_cells(c, i).contains(action_at(p)),
    decreases 9 - i,
{
    if i == p {
        assert(open_cells(c, i)[0] == action_at(p));
    } else {
        lemma_open_cells_complete(c, i + 1, p);
        let k = choose|k: int|
            0 <= k < open_cells(c, i + 1).len() && #[trigger] open_cells(c, i + 1)[k] == action_at(
                p,
            );
        if c[cell_index(i)] is None {
            assert(open_cells(c, i)[k + 1] == action_at(p));
        } else {
            assert(open_cells(c, i)[k] == action_at(p));
        }
    }
}

impl DeterministicState for TicTacToeState {
    type Action = TicTacToeAction;

    type Player = Stone;

    open spec fn inv(&self) -> bool {
        &&& self.spec_turn() <= 9
        &&& count_stones(self.board()) == self.spec_turn()
        &&& (self.spec_turn() == 9 ==> self.spec_winner() is Some)
        &&& (self.spec_winner() is None ==> !wins(self.board(), Stone::Circle) && !wins(
            self.board(),
            Stone::Cross,
        ))
    }

    open spec fn height(&self) -> nat {
        if self.spec_turn() <= 9 {
            (9 - self.spec_turn()) as nat
        } else {
            0
        }
    }

    open spec fn spec_player(&self) -> Stone {
        if self.spec_turn() % 2 == 0 {
            Stone::Circle
        } else {
            Stone::Cross
        }
    }

    open spec fn spec_winner(&self) -> Option<Winner<Stone>> {
        self.winner
    }

    open spec fn spec_actions(&self) -> Seq<TicTacToeAction> {
        if self.spec_winner() is Some {
            Seq::empty()
        } else if self.spec_turn() == 0 {
            seq![
                TicTacToeAction { x: 0, y: 0 },
                TicTacToeAction { x: 1, y: 0 },
                TicTacToeAction { x: 1, y: 1 },
            ]
        } else {
            open_cells(self.board(), 0)
        }
    }

    open spec fn spec_apply_action(&self, a: TicTacToeAction) -> Self {
        let p = self.spec_player();
        let s1 = self.with_cell(3 * a.x + a.y, Some(p));
        let w = if wins(s1.board(), p) {
            Some(Winner::Player(p))
        } else if self.spec_turn() + 1 == 9 {
            Some(Winner::Draw)
        } else {
            self.spec_winner()
        };
        TicTacToeState { turn: (self.turn + 1) as u32, winner: w, ..s1 }
    }

    open spec fn spec_unapply_action(&self, a: TicTacToeAction) -> Self {
        let s1 = self.with_cell(3 * a.x + a.y, None);
        TicTacToeState {
            turn: if self.turn == 0 {
                0u32
            } else {
                (self.turn - 1) as u32
            },
            winner: None,
            ..s1
        }
    }

    fn possible_actions(&self) -> (r: Vec<TicTacToeAction>) {
        if self.winner.is_some() {
            let r: Vec<TicTacToeAction> = Vec::new();
            proof {
                assert(r@ =~= self.spec_actions());
            }
            return r;
        }
        if self.turn == 0 {
            let mut r: Vec<TicTacToeAction> = Vec::new();
            r.push(TicTacToeAction::new(0, 0));
            r.push(TicTacToeAction::new(1, 0));
            r.push(TicTacToeAction::new(1, 1));
            proof {
                assert(r@ =~= self.spec_actions());
            }
            return r;
        }
        let ghost b = self.board();
        let mut r: Vec<TicTacToeAction> = Vec::new();
        let mut i: usize = 0;
        while i < 9
            invariant
                b == self.board(),
                i <= 9,
                open_cells(b, 0) =~= r@ + open_cells(b, i as int),
            decreases 9 - i,
        {
            let ghost r_old = r@;
            let ci = 3 * (i % 3) + i / 3;
            proof {
                assert(ci < 9);
                assert(ci as int == cell_index(i as int));
            }
            if self.get_cell(ci).is_none() {
                r.push(TicTacToeAction::new(i % 3, i / 3));
                proof {
                    lemma_fundamental_div_mod(i as int, 3);
                    assert(r@.last() == action_at(i as int));
                    assert(r@ =~= r_old + seq![action_at(i as int)]);
                    assert(open_cells(b, i as int) == seq![action_at(i as int)] + open_cells(
                        b,
                        i + 1,
                    ));
                    assert(open_cells(b, 0) =~= r@ + open_cells(b, i + 1));
                }
            } else {
                proof {
                    assert(open_cells(b, i as int) == open_cells(b, i + 1));
                }
            }
            i = i + 1;
        }
        proof {
            assert(open_cells(b, 9) =~= Seq::<TicTacToeAction>::empty());
            assert(r@ =~= open_cells(b, 0));
        }
        r
    }

    fn player(&self) -> (p: Stone) {
        if self.turn % 2 == 0 {
            Stone::Circle
        } else {
            Stone::Cross
        }
    }

    fn same_player(p: &Stone, q: &Stone) -> (r: bool) {
        *p == *q
    }

    fn winner(&self) -> (w: Option<Winner<Stone>>) {
        self.winner
    }

    fn apply_action(&mut self, action: &TicTacToeAction) {
        proof {
            lemma_action_cell_open(*old(self), *action);
        }
        let i = 3 * action.x + action.y;
        let p = self.player();
        let ghost s0 = *self;
        self.set_cell(i, Some(p));
        proof {
            lemma_with_cell_board(s0, i as int, Some(p));
            lemma_count_update(s0.board(), i as int, p);
        }
        self.turn = self.turn + 1;
        if self.has_win(p) {
            self.winner = Some(Winner::Player(p));
        } else if self.turn == 9 {
            self.winner = Some(Winner::Draw);
        }
        proof {
            assert(*self == old(self).spec_apply_action(*action));
            assert(self.board() == old(self).spec_apply_action(*action).board());
            if self.winner is None {
                let q = if p == Stone::Circle {
                    Stone::Cross
                } else {
                    Stone::Circle
                };
                lemma_no_new_opponent_line(s0.board(), i as int, p, q);
                assert(self.board() =~= s0.board().update(i as int, Some(p)));
            }
        }
    }

    fn unapply_action(&mut self, action: &TicTacToeAction) {
        proof {
            let s0 = choose|s0: TicTacToeState|
                s0.inv() && s0.spec_actions().contains(*action) && *old(self)
                    == #[trigger] s0.spec_apply_action(*action);
            lemma_action_cell_open(s0, *action);
            assert(self.turn >= 1);
        }
        let i = 3 * action.x + action.y;
        self.set_cell(i, None);
        self.turn = self.turn - 1;
        self.winner = None;
    }

    fn duplicate(&self) -> (r: Self) {
        *self
    }

    fn duplicate_action(a: &TicTacToeAction) -> (r: TicTacToeAction) {
        *a
    }

    proof fn lemma_reversible_action(s: Self, a: TicTacToeAction) {
        lemma_action_cell_open(s, a);
        let i = 3 * a.x + a.y;
        let p = s.spec_player();
        let s1 = s.spec_apply_action(a);
        let s2 = s1.spec_unapply_action(a);
        assert(s2.board() =~= s.board()) by {
            lemma_with_cell_board(s, i as int, Some(p));
            lemma_with_cell_board(s1, i as int, None);
        }
        assert(s2 == s);
    }

    proof fn lemma_nonterminal_has_actions(s: Self) {
        if s.spec_turn() != 0 {
            assert(s.spec_turn() < 9);
            lemma_count_low_leaves_open(s.board());
            let j = choose|j: int| 0 <= j < 9 && s.board()[j] is None;
            lemma_enum_of_cell(j);
            lemma_open_cells_complete(s.board(), 0, cell_index(j));
        }
    }

    proof fn lemma_terminal_has_no_actions(s: Self) {
    }
}

/// Making a legal move preserves well-formedness and brings the game closer
/// to its end.
proof fn lemma_apply_keeps_inv(s: TicTacToeState, a: TicTacToeAction)
    requires
        s.inv(),
        s.spec_actions().contains(a),
    ensures
        s.spec_apply_action(a).inv(),
        s.spec_apply_action(a).height() < s.height(),
{
    lemma_action_cell_open(s, a);
    let i = 3 * a.x + a.y;
    let p = s.spec_player();
    lemma_with_cell_board(s, i as int, Some(p));
    lemma_count_update(s.board(), i as int, p);
    let s1 = s.spec_apply_action(a);
    assert(s1.board() == s.with_cell(i as int, Some(p)).board());
    if s1.spec_winner() is None {
        let q = if p == Stone::Circle {
            Stone::Cross
        } else {
            Stone::Circle
        };
        lemma_no_new_opponent_line(s.board(), i as int, p, q);
        assert(s1.board() =~= s.board().update(i as int, Some(p)));
    }
}

proof fn lemma_ttt_det_actions(g: TicTacToeState, fuel: nat, k: int)
    requires
        g.inv(),
        g.spec_winner() is None,
        fuel >= g.height(),
        0 <= k <= g.spec_actions().len(),
    ensures
        det_actions(
            Deterministic { game: g },
            g.spec_actions().skip(k),
            fuel,
        ),
    decreases fuel, 0nat, g.spec_actions().len() - k,
{
    let d = Deterministic { game: g };
    let acts = g.spec_actions();
    assert(d.spec_actions() == acts);
    assert(g.spec_turn() <= 8);
    assert(g.height() >= 1);
    if k < acts.len() {
        let a = acts[k];
        assert(acts.contains(a)) by {
            assert(acts[k] == a);
        }
        lemma_apply_keeps_inv(g, a);
        let child = g.spec_apply_action(a);
        assert(d.spec_effects(a) == seq![a]);
        assert(d.spec_effects(a)[0] == a);
        assert(d.spec_prob(a) == crate::state::TOTAL_PROB as int);
        assert(d.spec_apply(a) == (Deterministic { game: child }));
        lemma_ttt_det_tree(child, (fuel - 1) as nat);
        assert(det_action(d, a, fuel));
        lemma_ttt_det_actions(g, fuel, k + 1);
        assert(acts.skip(k)[0] == a);
        assert(acts.skip(k).drop_first() =~= acts.skip(k + 1));
    } else {
        assert(acts.skip(k).len() == 0);
    }
}

/// The lifted 3x3 game is an effect-deterministic tree: from any well-formed
/// position it terminates within `height` plies, every action resolving into
/// a single certain effect. Together with the alpha-beta equivalence of the
/// full-search strategy, its pruned root ratings equal unpruned minimax.
pub proof fn lemma_ttt_det_tree(g: TicTacToeState, fuel: nat)
    requires
        g.inv(),
        fuel >= g.height(),
    ensures
        det_tree(Deterministic { game: g }, fuel),
    decreases fuel, 1nat, 0nat,
{
    if g.spec_winner() is None {
        assert(g.spec_turn() <= 8);
        assert(fuel >= 1);
        lemma_ttt_det_actions(g, fuel, 0);
        assert(g.spec_actions().skip(0) =~= g.spec_actions());
    }
}

/// On the lifted 3x3 game the pruned full search is exact: every root rating
/// equals the unpruned exhaustive minimax value of the same action.
pub proof fn lemma_ttt_alpha_beta_exact(cfg: FullSearchStrategy, g: TicTacToeState, i: int)
    requires
        g.inv(),
        g.spec_winner() is None,
        0 <= i < g.spec_actions().len(),
    ensures
        ({
            let d = Deterministic { game: g };
            root_rating(cfg, d, i) == minimax_action_rec(
                cfg,
                d.height(),
                d,
                d.spec_actions()[i],
                d.spec_player(),
            )
        }),
{
    let d = Deterministic { game: g };
    lemma_ttt_det_tree(g, g.height());
    lemma_alpha_beta_equivalence(cfg, d, i);
}

/// A legal action opens an in-range empty cell of a position that is not yet
/// decided and not yet full.
proof fn lemma_action_cell_open(s: TicTacToeState, a: TicTacToeAction)
    requires
        s.inv(),
        s.spec_actions().contains(a),
    ensures
        a.x < 3,
        a.y < 3,
        s.board()[3 * a.x + a.y] is None,
        s.spec_winner() is None,
        s.spec_turn() <= 8,
{
    assert(s.spec_winner() is None);
    assert(s.spec_turn() < 9);
    if s.spec_turn() == 0 {
        assert forall|j: int| 0 <= j < 9 implies s.board()[j] is None by {
            lemma_count_zero_all_open(s.board(), j);
        }
        let acts = s.spec_actions();
        let k = choose|k: int| 0 <= k < acts.len() && acts[k] == a;
        assert(k == 0 || k == 1 || k == 2);
    } else {
        lemma_open_cells_sound(s.board(), 0, a);
    }
}

} // verus!
