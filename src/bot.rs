use rand::Rng;
use vstd::arithmetic::div_mod::lemma_add_mod_noop_right;
use vstd::prelude::*;

use crate::game::{owns_label, GameState};
use crate::ring::{
    in_row, label_index, label_of, landing, lemma_labels_inverse, next_index, other, owner,
    store_index, Player,
};

verus! {

/// The position of ring index `i` on the cycle that `p`'s seeds travel,
/// counted from the pocket just after the opponent's store.
pub open spec fn cycle_rank(p: Player, i: int) -> int {
    match p {
        Player::First => i - 1,
        Player::Second => if i >= 8 {
            i - 8
        } else {
            i + 6
        },
    }
}

/// The ring index of the first row pocket of `p`.
pub open spec fn row_start(p: Player) -> int {
    match p {
        Player::First => 1,
        Player::Second => 8,
    }
}

/// Whether sowing the pocket at `i`, which must not be empty, puts its last
/// seed into its owner's store.
pub open spec fn reaches_store(s: Seq<nat>, i: int) -> bool {
    s[i] > 0 && landing(owner(i), i, s[i]) == store_index(owner(i))
}

/// Whether `i` is the first row pocket of `p`, in label order, whose seeds
/// end in `p`'s store.
pub open spec fn first_store_move(s: Seq<nat>, p: Player, i: int) -> bool {
    &&& in_row(p, i)
    &&& reaches_store(s, i)
    &&& forall|j: int| in_row(p, j) && j < i ==> !reaches_store(s, j)
}

proof fn lemma_rank_next(p: Player, i: int)
    requires
        0 <= i < 14,
        i != store_index(other(p)),
    ensures
        0 <= cycle_rank(p, i) < 13,
        cycle_rank(p, next_index(p, i)) == (cycle_rank(p, i) + 1) % 13,
        next_index(p, i) != store_index(other(p)),
        0 <= next_index(p, i) < 14,
{
}

/// Each seed moves one place along the cycle.
proof fn lemma_landing_rank(p: Player, i: int, k: nat)
    requires
        0 <= i < 14,
        i != store_index(other(p)),
    ensures
        cycle_rank(p, landing(p, i, k)) == (cycle_rank(p, i) + k) % 13,
        0 <= landing(p, i, k) < 14,
        landing(p, i, k) != store_index(other(p)),
    decreases k,
{
    lemma_rank_next(p, i);
    if k > 0 {
        let j = next_index(p, i);
        lemma_landing_rank(p, j, (k - 1) as nat);
        lemma_add_mod_noop_right(k - 1, cycle_rank(p, i) + 1, 13);
    }
}

/// A row pocket's seeds end in its owner's store exactly when their number,
/// taken modulo the thirteen pockets they travel over, is the distance to
/// that store.
pub proof fn lemma_reaches_store(s: Seq<nat>, p: Player, i: int)
    requires
        s.len() == 14,
        in_row(p, i),
    ensures
        reaches_store(s, i) <==> s[i] % 13 == 6 - cycle_rank(p, i),
{
    lemma_landing_rank(p, i, s[i]);
    lemma_add_mod_noop_right(cycle_rank(p, i), s[i] as int, 13);
    let l = landing(p, i, s[i]);
    assert(cycle_rank(p, l) == 6 <==> l == store_index(p));
}

/// The label of the `k`-th row pocket of `p`, counting from 0.
pub fn row_label(p: Player, k: usize) -> (r: char)
    requires
        k < 6,
    ensures
        label_index(r) == Some(row_start(p) + k),
{
    let i: usize = match p {
        Player::First => 1 + k,
        Player::Second => 8 + k,
    };
    let r = label_of(i).unwrap();
    proof {
        lemma_labels_inverse(r, i as int);
    }
    r
}

/// The label of the first row pocket of the side to move, in label order,
/// whose last seed would land in that side's store, if there is one.
pub fn store_landing_move(state: &GameState) -> (r: Option<char>)
    ensures
        r matches Some(c) ==> (label_index(c) matches Some(i) && first_store_move(
            state.board@,
            state.player,
            i,
        )),
        r is None ==> forall|j: int|
            in_row(state.player, j) ==> !reaches_store(state.board@, j),
{
    let p = state.player;
    let (lo, hi, goal): (usize, usize, usize) = match p {
        Player::First => (1, 7, 7),
        Player::Second => (8, 14, 14),
    };
    let ghost s = state.board@;
    for i in lo..hi
        invariant
            s == state.board@,
            s.len() == 14,
            p == state.player,
            lo == row_start(p),
            hi == row_start(p) + 6,
            goal == row_start(p) + 6,
            forall|j: int| in_row(p, j) && j < i ==> !reaches_store(s, j),
            lo <= i,
    {
        proof {
            lemma_reaches_store(s, p, i as int);
        }
        let seeds = state.board.pockets[i].seeds;
        assert(seeds == s[i as int]);
        if seeds % 13 == goal - i {
            let c = label_of(i).unwrap();
            proof {
                lemma_labels_inverse(c, i as int);
            }
            return Some(c);
        }
    }
    None
}

/// A strategy that picks a move for the side to move.
pub trait Bot {
    /// The label chosen for the side to move in `state`.
    fn react(&self, state: &GameState) -> (r: char)
        ensures
            owns_label(state.player, r),
    ;
}

/// Picks one of the six row pockets of the side to move at random, empty or
/// not.
pub struct RandomBot {}

/// Plays the first row pocket whose seeds end in the mover's own store, and
/// otherwise plays as `RandomBot` does.
pub struct CaptureBot {}

/// Relies on rand's `thread_rng().gen_range(0..bound)`: a value drawn from
/// `0..bound`; the range must not be empty, else the call panics.
#[verifier::external_body]
fn random_below(bound: usize) -> (r: usize)
    requires
        bound > 0,
    ensures
        r < bound,
{
    rand::thread_rng().gen_range(0..bound)
}

impl Bot for RandomBot {
    fn react(&self, state: &GameState) -> (r: char) {
        let k = random_below(6);
        row_label(state.player, k)
    }
}

impl Bot for CaptureBot {
    fn react(&self, state: &GameState) -> (r: char)
        ensures
            forall|i: int|
                first_store_move(state.board@, state.player, i) ==> label_index(r) == Some(i),
    {
        match store_landing_move(state) {
            Some(c) => c,
            None => (RandomBot {}).react(state),
        }
    }
}

} // verus!
