use vstd::prelude::*;

use crate::ring::{
    capture, game_over, index_label, index_of, initial_seeds, is_store, label_of, landing,
    lemma_next_index, lemma_partial_total, lemma_three_within_total, lemma_total_update,
    move_outcome, next_index, owner, owner_of, partial_total, sow, sown, total, Player,
};

verus! {

/// Why a move is refused.
#[derive(Clone, Copy, Debug, PartialEq, Eq, Structural)]
pub enum MoveError {
    /// The character is not one of the twelve move labels.
    InvalidLabel,
    /// The addressed pocket holds no seeds.
    EmptyPocket,
}

/// What a pocket is: a store, or a row pocket with its move label.
#[derive(Clone, Copy, Debug, PartialEq, Eq, Structural)]
pub enum PocketKind {
    Row(char),
    Store,
}

/// One seed-holding cell of the ring.
#[derive(Clone, Copy, Debug, PartialEq, Eq, Structural)]
pub struct Pocket {
    pub kind: PocketKind,
    pub seeds: usize,
    pub player: Player,
}

/// The ring of fourteen pockets: index 0 is Second's store, 1-6 First's row
/// (`A`-`F`), 7 First's store, 8-13 Second's row (`a`-`f`).
pub struct Board {
    pub pockets: [Pocket; 14],
}

/// The pocket that the standard layout puts at ring index `i`, seeds aside.
pub open spec fn pocket_in_place(p: Pocket, i: int) -> bool {
    &&& p.player == owner(i)
    &&& if is_store(i) {
        p.kind == PocketKind::Store
    } else {
        p.kind matches PocketKind::Row(l) && index_label(i) == Some(l)
    }
}

impl View for Board {
    type V = Seq<nat>;

    /// The seed counts, by ring index.
    open spec fn view(&self) -> Seq<nat> {
        self.pockets@.map_values(|p: Pocket| p.seeds as nat)
    }
}

impl Board {
    /// Every pocket is where the standard layout puts it, and the seeds on
    /// the ring can be counted in a `usize`.
    pub open spec fn wf(&self) -> bool {
        &&& forall|i: int| 0 <= i < 14 ==> pocket_in_place(#[trigger] self.pockets@[i], i)
        &&& total(self@) <= usize::MAX
    }

    /// Plays the row pocket labelled `position`: its seeds are sown one by
    /// one into the following pockets, skipping the opponent's store, and
    /// the capture rule is applied where the last seed lands. Returns the
    /// landing index.
    pub fn play(&mut self, position: char) -> (r: Result<usize, MoveError>)
        requires
            old(self).wf(),
        ensures
            final(self).wf(),
            match move_outcome(old(self)@, position) {
                Err(e) => r == Err::<usize, MoveError>(e) && *final(self) == *old(self),
                Ok(res) => r == Ok::<usize, MoveError>(res.1 as usize) && final(self)@ == res.0,
            },
    {
        let start = match index_of(position) {
            Some(i) => i,
            None => return Err(MoveError::InvalidLabel),
        };
        let seeds = self.pockets[start].seeds;
        if seeds == 0 {
            return Err(MoveError::EmptyPocket);
        }
        let mover = self.pockets[start].player;
        let ghost s_in = self@;
        self.pockets[start].seeds = 0;
        proof {
            assert(self@ =~= s_in.update(start as int, 0));
            lemma_total_update(s_in, start as int, 0);
        }
        let mut index: usize = start;
        let mut given: usize = 0;
        while given < seeds
            invariant
                self.wf(),
                index < 14,
                given <= seeds,
                s_in.len() == 14,
                total(s_in) <= usize::MAX,
                self@.len() == 14,
                start < 14,
                seeds == s_in[start as int],
                mover == owner(start as int),
                total(self@) + (seeds - given) == total(s_in),
                sow(self@, mover, index as int, (seeds - given) as nat) == sown(s_in, start as int),
                landing(mover, index as int, (seeds - given) as nat) == landing(
                    mover,
                    start as int,
                    seeds as nat,
                ),
            decreases seeds - given,
        {
            let ghost old_index = index as int;
            proof {
                lemma_next_index(mover, old_index);
            }
            index = (index + 1) % 14;
            let here = self.pockets[index];
            if here.kind == PocketKind::Store && here.player != mover {
                index = (index + 1) % 14;
            }
            let ghost before = self@;
            assert(index as int == next_index(mover, old_index));
            let ghost pockets_before = self.pockets@;
            proof {
                lemma_total_update(before, index as int, 0);
                lemma_total_update(before, index as int, before[index as int] + 1);
            }
            self.pockets[index].seeds = self.pockets[index].seeds + 1;
            given = given + 1;
            assert(self.pockets@ =~= pockets_before.update(
                index as int,
                (Pocket {
                    seeds: (pockets_before[index as int].seeds + 1) as usize,
                    ..pockets_before[index as int]
                }),
            ));
            assert(self@ =~= before.update(index as int, before[index as int] + 1));
        }
        proof {
            assert(self@ == sown(s_in, start as int));
        }
        self.apply_capture(mover, index);
        Ok(index)
    }

    /// Checks `wf`: that each pocket is where the standard layout puts it,
    /// and that the seeds on the ring can be counted in a `usize`.
    pub fn is_well_formed(&self) -> (r: bool)
        ensures
            r == self.wf(),
    {
        let mut sum: u128 = 0;
        for i in 0..14
            invariant
                self@.len() == 14,
                sum == partial_total(self@, i as int),
                sum <= i * 0x1_0000_0000_0000_0000,
                forall|j: int| 0 <= j < i ==> pocket_in_place(#[trigger] self.pockets@[j], j),
        {
            let p = self.pockets[i];
            let expected = if i == 0 || i == 7 {
                PocketKind::Store
            } else {
                PocketKind::Row(label_of(i).unwrap())
            };
            if p.kind != expected || p.player != owner_of(i) {
                assert(!pocket_in_place(self.pockets@[i as int], i as int));
                return false;
            }
            assert(self@[i as int] == p.seeds);
            sum = sum + p.seeds as u128;
        }
        proof {
            lemma_partial_total(self@);
        }
        sum <= usize::MAX as u128
    }

    /// Whether the game is over: every row pocket of one side is empty.
    pub fn is_game_over(&self) -> (r: bool)
        ensures
            r == game_over(self@),
    {
        let mut first_has_seeds = false;
        for i in 1..7
            invariant
                self@.len() == 14,
                first_has_seeds == !(forall|j: int| 1 <= j < i ==> self@[j] == 0),
        {
            let ghost before = first_has_seeds;
            first_has_seeds = first_has_seeds || self.pockets[i].seeds != 0;
            assert(self@[i as int] == self.pockets@[i as int].seeds);
            assert(first_has_seeds == !(forall|j: int| 1 <= j < i + 1 ==> self@[j] == 0)) by {
                if !first_has_seeds {
                    assert forall|j: int| 1 <= j < i + 1 implies self@[j] == 0 by {
                        if j < i {
                            assert(!before);
                        }
                    }
                }
            }
        }
        if !first_has_seeds {
            return true;
        }
        let mut second_has_seeds = false;
        for i in 8..14
            invariant
                self@.len() == 14,
                second_has_seeds == !(forall|j: int| 8 <= j < i ==> self@[j] == 0),
        {
            let ghost before = second_has_seeds;
            second_has_seeds = second_has_seeds || self.pockets[i].seeds != 0;
            assert(self@[i as int] == self.pockets@[i as int].seeds);
            assert(second_has_seeds == !(forall|j: int| 8 <= j < i + 1 ==> self@[j] == 0)) by {
                if !second_has_seeds {
                    assert forall|j: int| 8 <= j < i + 1 implies self@[j] == 0 by {
                        if j < i {
                            assert(!before);
                        }
                    }
                }
            }
        }
        !second_has_seeds
    }

    /// The capture rule at the end of a sowing pass of `mover` that landed on
    /// `index`.
    fn apply_capture(&mut self, mover: Player, index: usize)
        requires
            old(self).wf(),
            index < 14,
        ensures
            final(self).wf(),
            final(self)@ == capture(old(self)@, mover, index as int),
    {
        let ghost s1 = self@;
        let here = self.pockets[index];
        if here.kind != PocketKind::Store && here.player == mover && here.seeds == 1 {
            let across = 14 - index;
            let taken = self.pockets[across].seeds;
            if taken != 0 {
                let store: usize = if index < 7 {
                    7
                } else {
                    0
                };
                let ghost p0 = self.pockets@;
                let ghost gain = s1[store as int] + 1 + s1[across as int];
                let ghost s2 = s1.update(store as int, gain);
                let ghost s3 = s2.update(across as int, 0);
                proof {
                    lemma_three_within_total(s1, store as int, index as int, across as int);
                    lemma_total_update(s1, store as int, gain);
                    lemma_total_update(s2, across as int, 0);
                    lemma_total_update(s3, index as int, 0);
                }
                self.pockets[store].seeds = self.pockets[store].seeds + 1 + taken;
                self.pockets[across].seeds = 0;
                self.pockets[index].seeds = 0;
                assert(self.pockets@ =~= p0.update(
                    store as int,
                    (Pocket { seeds: gain as usize, ..p0[store as int] }),
                ).update(across as int, (Pocket { seeds: 0, ..p0[across as int] })).update(
                    index as int,
                    (Pocket { seeds: 0, ..p0[index as int] }),
                ));
                assert(self@ =~= s3.update(index as int, 0));
            }
        }
    }
}

/// A row pocket of the starting layout.
fn row_pocket(label: char, player: Player) -> (r: Pocket)
    ensures
        r == (Pocket { kind: PocketKind::Row(label), seeds: 4, player }),
{
    Pocket { kind: PocketKind::Row(label), seeds: 4, player }
}

/// A store of the starting layout.
fn store_pocket(player: Player) -> (r: Pocket)
    ensures
        r == (Pocket { kind: PocketKind::Store, seeds: 0, player }),
{
    Pocket { kind: PocketKind::Store, seeds: 0, player }
}

/// The board at the start of a game: four seeds in each of the twelve row
/// pockets, both stores empty.
pub fn new_board() -> (r: Board)
    ensures
        r.wf(),
        r@ == initial_seeds(),
{
    let pockets = [
        store_pocket(Player::Second),
        row_pocket('A', Player::First),
        row_pocket('B', Player::First),
        row_pocket('C', Player::First),
        row_pocket('D', Player::First),
        row_pocket('E', Player::First),
        row_pocket('F', Player::First),
        store_pocket(Player::First),
        row_pocket('a', Player::Second),
        row_pocket('b', Player::Second),
        row_pocket('c', Player::Second),
        row_pocket('d', Player::Second),
        row_pocket('e', Player::Second),
        row_pocket('f', Player::Second),
    ];
    let r = Board { pockets };
    assert(r@ =~= initial_seeds());
    proof {
        reveal(total);
    }
    r
}

} // verus!
