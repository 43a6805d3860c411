use vstd::prelude::*;

use crate::board::MoveError;

verus! {

/// One of the two sides of the game.
#[derive(Clone, Copy, Debug, PartialEq, Eq, Structural)]
pub enum Player {
    First,
    Second,
}

/// The side that is not `p`.
pub open spec fn other(p: Player) -> Player {
    match p {
        Player::First => Player::Second,
        Player::Second => Player::First,
    }
}

/// The side that is not `p`.
pub fn other_player(p: Player) -> (r: Player)
    ensures
        r == other(p),
{
    match p {
        Player::First => Player::Second,
        Player::Second => Player::First,
    }
}

/// The ring index that a move label addresses: `A`-`F` are First's row
/// (indices 1-6), `a`-`f` are Second's row (indices 8-13).
pub open spec fn label_index(c: char) -> Option<int> {
    match c {
        'A' => Some(1),
        'B' => Some(2),
        'C' => Some(3),
        'D' => Some(4),
        'E' => Some(5),
        'F' => Some(6),
        'a' => Some(8),
        'b' => Some(9),
        'c' => Some(10),
        'd' => Some(11),
        'e' => Some(12),
        'f' => Some(13),
        _ => None,
    }
}

/// The label of the row pocket at ring index `i`, if it is one.
pub open spec fn index_label(i: int) -> Option<char> {
    if i == 1 {
        Some('A')
    } else if i == 2 {
        Some('B')
    } else if i == 3 {
        Some('C')
    } else if i == 4 {
        Some('D')
    } else if i == 5 {
        Some('E')
    } else if i == 6 {
        Some('F')
    } else if i == 8 {
        Some('a')
    } else if i == 9 {
        Some('b')
    } else if i == 10 {
        Some('c')
    } else if i == 11 {
        Some('d')
    } else if i == 12 {
        Some('e')
    } else if i == 13 {
        Some('f')
    } else {
        None
    }
}

/// Looks a move label up in the fixed letter table.
pub fn index_of(c: char) -> (r: Option<usize>)
    ensures
        r matches Some(i) ==> label_index(c) == Some(i as int),
        r is None ==> label_index(c) is None,
{
    match c {
        'A' => Some(1),
        'B' => Some(2),
        'C' => Some(3),
        'D' => Some(4),
        'E' => Some(5),
        'F' => Some(6),
        'a' => Some(8),
        'b' => Some(9),
        'c' => Some(10),
        'd' => Some(11),
        'e' => Some(12),
        'f' => Some(13),
        _ => None,
    }
}

/// The label of the row pocket at ring index `i`, if it is one.
pub fn label_of(i: usize) -> (r: Option<char>)
    ensures
        r == index_label(i as int),
{
    match i {
        1 => Some('A'),
        2 => Some('B'),
        3 => Some('C'),
        4 => Some('D'),
        5 => Some('E'),
        6 => Some('F'),
        8 => Some('a'),
        9 => Some('b'),
        10 => Some('c'),
        11 => Some('d'),
        12 => Some('e'),
        13 => Some('f'),
        _ => None,
    }
}

/// The two tables are inverse to each other.
pub proof fn lemma_labels_inverse(c: char, i: int)
    ensures
        label_index(c) == Some(i) <==> index_label(i) == Some(c),
{
}

/// Whether ring index `i` is a store (index 0 is Second's, index 7 First's).
pub open spec fn is_store(i: int) -> bool {
    i == 0 || i == 7
}

/// The side owning ring index `i`: 1-7 are First's, 8-13 and 0 are Second's.
pub open spec fn owner(i: int) -> Player {
    if 1 <= i <= 7 {
        Player::First
    } else {
        Player::Second
    }
}

/// The ring index of `p`'s store.
pub open spec fn store_index(p: Player) -> int {
    match p {
        Player::First => 7,
        Player::Second => 0,
    }
}

/// Whether `i` is one of `p`'s six row pockets.
pub open spec fn in_row(p: Player, i: int) -> bool {
    0 <= i < 14 && !is_store(i) && owner(i) == p
}

/// The pocket across the ring from row pocket `i`.
pub open spec fn mirror(i: int) -> int {
    14 - i
}

/// The next index that a seed of `p`'s move goes to after index `i`:
/// one step forward, and one more past the opponent's store.
pub open spec fn next_index(p: Player, i: int) -> int {
    let j = (i + 1) % 14;
    if j == store_index(other(p)) {
        (j + 1) % 14
    } else {
        j
    }
}

/// The seed counts after `k` seeds of `p`'s move are sown, one by one,
/// into the pockets that follow index `i`.
pub open spec fn sow(s: Seq<nat>, p: Player, i: int, k: nat) -> Seq<nat>
    decreases k,
{
    if k == 0 {
        s
    } else {
        let j = next_index(p, i);
        sow(s.update(j, s[j] + 1), p, j, (k - 1) as nat)
    }
}

/// The index where the last of `k` seeds sown after index `i` lands.
pub open spec fn landing(p: Player, i: int, k: nat) -> int
    decreases k,
{
    if k == 0 {
        i
    } else {
        landing(p, next_index(p, i), (k - 1) as nat)
    }
}

/// Whether the move of `p` that ended at `land` captures: the landing pocket
/// is one of `p`'s row pockets, holds exactly one seed, and the pocket across
/// from it is not empty.
pub open spec fn captures(s: Seq<nat>, p: Player, land: int) -> bool {
    &&& in_row(p, land)
    &&& s[land] == 1
    &&& s[mirror(land)] > 0
}

/// The capture rule, applied to the seed counts `s` after a sowing pass of
/// `p` ended at `land`.
pub open spec fn capture(s: Seq<nat>, p: Player, land: int) -> Seq<nat> {
    if captures(s, p, land) {
        let st = store_index(p);
        s.update(st, s[st] + 1 + s[mirror(land)]).update(mirror(land), 0).update(land, 0)
    } else {
        s
    }
}

/// The seed counts after the pocket at `i` is emptied and its seeds are sown
/// by its owner.
pub open spec fn sown(s: Seq<nat>, i: int) -> Seq<nat> {
    sow(s.update(i, 0), owner(i), i, s[i])
}

/// What a move by label `c` does to seed counts `s`: the new counts and the
/// landing index, or why the move is refused.
pub open spec fn move_outcome(s: Seq<nat>, c: char) -> Result<(Seq<nat>, int), MoveError> {
    match label_index(c) {
        None => Err(MoveError::InvalidLabel),
        Some(i) => if s[i] == 0 {
            Err(MoveError::EmptyPocket)
        } else {
            let land = landing(owner(i), i, s[i]);
            Ok((capture(sown(s, i), owner(i), land), land))
        },
    }
}

/// Whether all six row pockets of `p` are empty.
pub open spec fn row_empty(s: Seq<nat>, p: Player) -> bool {
    forall|i: int| in_row(p, i) ==> s[i] == 0
}

/// Whether the game is over: one side's row is empty.
pub open spec fn game_over(s: Seq<nat>) -> bool {
    row_empty(s, Player::First) || row_empty(s, Player::Second)
}

/// The seed counts at the start of a game: four in every row pocket, the
/// stores empty.
pub open spec fn initial_seeds() -> Seq<nat> {
    seq![0nat, 4, 4, 4, 4, 4, 4, 0, 4, 4, 4, 4, 4, 4]
}

/// The number of seeds on the whole ring.
#[verifier::opaque]
pub open spec fn total(s: Seq<nat>) -> nat {
    s[0] + s[1] + s[2] + s[3] + s[4] + s[5] + s[6] + s[7] + s[8] + s[9] + s[10] + s[11] + s[12]
        + s[13]
}

/// The number of seeds in the first `n` pockets.
pub open spec fn partial_total(s: Seq<nat>, n: int) -> nat
    decreases n,
{
    if n <= 0 {
        0
    } else {
        partial_total(s, n - 1) + s[n - 1]
    }
}

/// The fourteen pockets together hold the total.
pub proof fn lemma_partial_total(s: Seq<nat>)
    ensures
        partial_total(s, 14) == total(s),
{
    reveal(total);
    reveal_with_fuel(partial_total, 15);
}

/// The owner of ring index `i`.
pub fn owner_of(i: usize) -> (r: Player)
    ensures
        r == owner(i as int),
{
    if 1 <= i && i <= 7 {
        Player::First
    } else {
        Player::Second
    }
}

/// Setting one pocket changes the total by the difference.
pub proof fn lemma_total_update(s: Seq<nat>, i: int, v: nat)
    requires
        s.len() == 14,
        0 <= i < 14,
    ensures
        total(s.update(i, v)) == total(s) - s[i] + v,
{
    reveal(total);
}

/// Any three distinct pockets together hold no more than the total.
pub proof fn lemma_three_within_total(s: Seq<nat>, a: int, b: int, c: int)
    requires
        s.len() == 14,
        0 <= a < 14,
        0 <= b < 14,
        0 <= c < 14,
        a != b,
        a != c,
        b != c,
    ensures
        s[a] + s[b] + s[c] <= total(s),
{
    let s1 = s.update(a, 0);
    let s2 = s1.update(b, 0);
    lemma_total_update(s, a, 0);
    lemma_total_update(s1, b, 0);
    lemma_total_update(s2, c, 0);
    assert(s1[b] == s[b]);
    assert(s2[c] == s[c]);
    assert(total(s2.update(c, 0)) >= 0);
}

/// A sowing step never reaches the opponent's store and stays on the ring.
pub proof fn lemma_next_index(p: Player, i: int)
    requires
        0 <= i < 14,
    ensures
        0 <= next_index(p, i) < 14,
        next_index(p, i) != store_index(other(p)),
{
}

/// Sowing `k` seeds adds `k` to the total, never touches the opponent's
/// store, and ends on the ring elsewhere than that store.
pub proof fn lemma_sow(s: Seq<nat>, p: Player, i: int, k: nat)
    requires
        s.len() == 14,
        0 <= i < 14,
        i != store_index(other(p)),
    ensures
        sow(s, p, i, k).len() == 14,
        total(sow(s, p, i, k)) == total(s) + k,
        sow(s, p, i, k)[store_index(other(p))] == s[store_index(other(p))],
        0 <= landing(p, i, k) < 14,
        landing(p, i, k) != store_index(other(p)),
    decreases k,
{
    if k > 0 {
        let j = next_index(p, i);
        lemma_next_index(p, i);
        lemma_total_update(s, j, s[j] + 1);
        lemma_sow(s.update(j, s[j] + 1), p, j, (k - 1) as nat);
    }
}

/// The capture rule moves seeds without creating or destroying any, and
/// leaves the opponent's store alone.
pub proof fn lemma_capture(s: Seq<nat>, p: Player, land: int)
    requires
        s.len() == 14,
        0 <= land < 14,
    ensures
        capture(s, p, land).len() == 14,
        total(capture(s, p, land)) == total(s),
        capture(s, p, land)[store_index(other(p))] == s[store_index(other(p))],
{
    if captures(s, p, land) {
        let st = store_index(p);
        let m = mirror(land);
        let s2 = s.update(st, s[st] + 1 + s[m]);
        let s3 = s2.update(m, 0);
        lemma_total_update(s, st, s[st] + 1 + s[m]);
        lemma_total_update(s2, m, 0);
        lemma_total_update(s3, land, 0);
    }
}

/// What a successful move yields: fourteen pockets again, holding as many
/// seeds as before, and a landing index on the ring that is not the
/// opponent's store.
pub proof fn lemma_move_outcome(s: Seq<nat>, c: char)
    requires
        s.len() == 14,
    ensures
        move_outcome(s, c) matches Ok(res) ==> {
            &&& res.0.len() == 14
            &&& total(res.0) == total(s)
            &&& 0 <= res.1 < 14
            &&& res.1 != store_index(other(owner(label_index(c)->0)))
        },
{
    if let Some(i) = label_index(c) {
        if s[i] != 0 {
            let p = owner(i);
            let t = s.update(i, 0);
            lemma_total_update(s, i, 0);
            lemma_sow(t, p, i, s[i]);
            lemma_capture(sown(s, i), p, landing(p, i, s[i]));
        }
    }
}

/// A move never puts a seed into the opponent's store, however many times
/// its seeds go round the ring.
pub proof fn lemma_skip_rule(s: Seq<nat>, c: char)
    requires
        s.len() == 14,
    ensures
        move_outcome(s, c) matches Ok(res) ==> res.0[store_index(other(owner(label_index(c)->0)))]
            == s[store_index(other(owner(label_index(c)->0)))],
{
    if let Some(i) = label_index(c) {
        if s[i] != 0 {
            let p = owner(i);
            lemma_sow(s.update(i, 0), p, i, s[i]);
            lemma_capture(sown(s, i), p, landing(p, i, s[i]));
        }
    }
}

/// The capture rule on a move by `c` whose sowing pass ended on a row pocket
/// of the mover that now holds a single seed: when the pocket across is not
/// empty, both are emptied and the mover's store gains that seed and all
/// seeds across; when it is empty, nothing is captured.
pub proof fn lemma_capture_rule(s: Seq<nat>, c: char)
    requires
        s.len() == 14,
        move_outcome(s, c) is Ok,
        in_row(owner(label_index(c)->0), move_outcome(s, c)->Ok_0.1),
        sown(s, label_index(c)->0)[move_outcome(s, c)->Ok_0.1] == 1,
    ensures
        ({
            let i = label_index(c)->0;
            let p = owner(i);
            let t = sown(s, i);
            let land = move_outcome(s, c)->Ok_0.1;
            let after = move_outcome(s, c)->Ok_0.0;
            &&& t[mirror(land)] > 0 ==> {
                &&& after[land] == 0
                &&& after[mirror(land)] == 0
                &&& after[store_index(p)] == t[store_index(p)] + 1 + t[mirror(land)]
            }
            &&& t[mirror(land)] == 0 ==> after == t && after[land] == 1
        }),
{
    let i = label_index(c)->0;
    lemma_sow(s.update(i, 0), owner(i), i, s[i]);
}

} // verus!
