use vstd::prelude::*;

use crate::board::{new_board, pocket_in_place, Board, PocketKind};
use crate::ring::{
    index_of, initial_seeds, is_store, label_index, lemma_move_outcome, move_outcome, other,
    other_player, owner, store_index, total, Player,
};

verus! {

/// A board and the side whose turn it is.
pub struct GameState {
    pub board: Board,
    pub player: Player,
}

/// Whether `c` labels one of `p`'s row pockets.
pub open spec fn owns_label(p: Player, c: char) -> bool {
    label_index(c) matches Some(i) && owner(i) == p
}

/// The seed counts and the side to move after side `p` asks to play `c` on
/// seed counts `s`. A label of the other side, or one that the board
/// refuses, changes nothing. A move that ends in a store gives the mover
/// another turn; any other move passes the turn.
pub open spec fn game_step(s: Seq<nat>, p: Player, c: char) -> (Seq<nat>, Player) {
    if !owns_label(p, c) {
        (s, p)
    } else {
        match move_outcome(s, c) {
            Err(_) => (s, p),
            Ok(res) => (res.0, if is_store(res.1) { p } else { other(p) }),
        }
    }
}

/// A fresh game: the starting board, First to move.
pub fn new_game() -> (r: GameState)
    ensures
        r.board.wf(),
        r.board@ == initial_seeds(),
        r.player == Player::First,
{
    GameState { board: new_board(), player: Player::First }
}

impl GameState {
    /// Whether `position` labels a row pocket of the side to move.
    pub fn valid_move(&self, position: char) -> (r: bool)
        ensures
            r == owns_label(self.player, position),
    {
        match index_of(position) {
            None => false,
            Some(i) => match self.player {
                Player::First => i < 7,
                Player::Second => i > 7,
            },
        }
    }

    /// Asks for the move `position` on behalf of the side to move. A label
    /// of the other side or an empty pocket leaves the game as it was. After
    /// a move the turn passes, unless the last seed landed in the mover's
    /// store.
    pub fn play(&mut self, position: char)
        requires
            old(self).board.wf(),
        ensures
            final(self).board.wf(),
            (final(self).board@, final(self).player) == game_step(
                old(self).board@,
                old(self).player,
                position,
            ),
    {
        if !self.valid_move(position) {
            return;
        }
        proof {
            lemma_move_outcome(self.board@, position);
        }
        match self.board.play(position) {
            Err(_) => {},
            Ok(land) => {
                assert(pocket_in_place(self.board.pockets@[land as int], land as int));
                if self.board.pockets[land].kind == PocketKind::Store {
                    return;
                }
                self.player = other_player(self.player);
            },
        }
    }
}

/// The seed counts and the side to move after the move requests `moves`, in
/// order, starting from a fresh game.
pub open spec fn run(moves: Seq<char>) -> (Seq<nat>, Player)
    decreases moves.len(),
{
    if moves.len() == 0 {
        (initial_seeds(), Player::First)
    } else {
        let before = run(moves.drop_last());
        game_step(before.0, before.1, moves.last())
    }
}

/// Whatever moves are asked for, the fourteen pockets of a game hold
/// forty-eight seeds in all after each of them.
pub proof fn lemma_seed_conservation(moves: Seq<char>)
    ensures
        run(moves).0.len() == 14,
        total(run(moves).0) == 48,
    decreases moves.len(),
{
    if moves.len() == 0 {
        reveal(total);
    } else {
        let before = run(moves.drop_last());
        lemma_seed_conservation(moves.drop_last());
        lemma_move_outcome(before.0, moves.last());
    }
}

/// A move that lands in a store lands in the mover's own store and keeps
/// the turn; a move that lands anywhere else passes the turn.
pub proof fn lemma_extra_turn(s: Seq<nat>, p: Player, c: char)
    requires
        s.len() == 14,
        owns_label(p, c),
        move_outcome(s, c) is Ok,
    ensures
        is_store(move_outcome(s, c)->Ok_0.1) <==> move_outcome(s, c)->Ok_0.1 == store_index(p),
        move_outcome(s, c)->Ok_0.1 == store_index(p) ==> game_step(s, p, c).1 == p,
        move_outcome(s, c)->Ok_0.1 != store_index(p) ==> game_step(s, p, c).1 == other(p),
{
    lemma_move_outcome(s, c);
}

} // verus!
