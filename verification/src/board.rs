//! The board: the live cards of a round held in fill order, with the counting
//! and searching vocabulary the round's contracts are written in, and the
//! grid placement that starts a round.

use vstd::prelude::*;
use vstd::arithmetic::div_mod::lemma_fundamental_div_mod_converse;
use rand::seq::SliceRandom;

use crate::card::{Card, CardTurning};
use crate::{CARD_WIDTH, CARD_HEIGHT, WINDOW_WIDTH};

verus! {

/// How often the value `x` occurs in `s`.
pub open spec fn count_ids(s: Seq<u32>, x: u32) -> nat
    decreases s.len(),
{
    if s.len() == 0 {
        0
    } else {
        count_ids(s.drop_last(), x) + if s.last() == x {
            1nat
        } else {
            0nat
        }
    }
}

/// How many cards of `s` carry the pair identity `id`.
pub open spec fn count_board(s: Seq<Card>, id: u32) -> nat
    decreases s.len(),
{
    if s.len() == 0 {
        0
    } else {
        count_board(s.drop_last(), id) + if s.last().match_id == id {
            1nat
        } else {
            0nat
        }
    }
}

/// Every pair identity on the board is carried by exactly zero or two cards:
/// no card is ever left unpaired.
pub open spec fn paired(s: Seq<Card>) -> bool {
    forall|id: u32| #[trigger] count_board(s, id) == 0 || count_board(s, id) == 2
}

/// No two cards of `s` share a grid position.
pub open spec fn positions_distinct(s: Seq<Card>) -> bool {
    forall|a: int, b: int|
        0 <= a < b < s.len() ==> !(#[trigger] s[a].x == #[trigger] s[b].x && s[a].y == s[b].y)
}

/// A card that can be chosen: face down and not in the middle of a flip.
pub open spec fn free_card(c: Card) -> bool {
    !c.is_clicked && !c.turning
}

/// Whether the point `(x, y)` lies on the card's clickable rectangle.
pub open spec fn card_contains(c: Card, x: u32, y: u32) -> bool {
    &&& c.x <= x <= c.x + CARD_WIDTH
    &&& c.y <= y <= c.y + CARD_HEIGHT
}

pub proof fn lemma_count_ids_push(s: Seq<u32>, v: u32, x: u32)
    ensures
        count_ids(s.push(v), x) == count_ids(s, x) + if v == x {
            1nat
        } else {
            0nat
        },
{
    assert(s.push(v).drop_last() =~= s);
}

pub proof fn lemma_count_board_push(s: Seq<Card>, c: Card, id: u32)
    ensures
        count_board(s.push(c), id) == count_board(s, id) + if c.match_id == id {
            1nat
        } else {
            0nat
        },
{
    assert(s.push(c).drop_last() =~= s);
}

/// Removing the card at index `i` lowers the count of its identity by one and
/// leaves every other count unchanged.
pub proof fn lemma_count_board_remove(s: Seq<Card>, i: int, id: u32)
    requires
        0 <= i < s.len(),
    ensures
        count_board(s, id) == count_board(s.remove(i), id) + if s[i].match_id == id {
            1nat
        } else {
            0nat
        },
    decreases s.len(),
{
    if i == s.len() - 1 {
        assert(s.remove(i) =~= s.drop_last());
    } else {
        let t = s.drop_last();
        lemma_count_board_remove(t, i, id);
        assert(s.remove(i).drop_last() =~= t.remove(i));
        assert(s.remove(i).last() == s.last());
    }
}

/// Replacing the card at index `i` by one with the same identity leaves every
/// count unchanged.
pub proof fn lemma_count_board_update(s: Seq<Card>, i: int, c: Card, id: u32)
    requires
        0 <= i < s.len(),
        c.match_id == s[i].match_id,
    ensures
        count_board(s.update(i, c), id) == count_board(s, id),
    decreases s.len(),
{
    if i == s.len() - 1 {
        assert(s.update(i, c).drop_last() =~= s.drop_last());
        assert(s.update(i, c).last() == c);
    } else {
        let t = s.drop_last();
        lemma_count_board_update(t, i, c, id);
        assert(s.update(i, c).drop_last() =~= t.update(i, c));
        assert(s.update(i, c).last() == s.last());
    }
}

/// A card with identity `id` makes its count at least one.
pub proof fn lemma_count_board_at_least_one(s: Seq<Card>, k: int, id: u32)
    requires
        0 <= k < s.len(),
        s[k].match_id == id,
    ensures
        count_board(s, id) >= 1,
    decreases s.len(),
{
    if k < s.len() - 1 {
        lemma_count_board_at_least_one(s.drop_last(), k, id);
    }
}

/// Two cards at distinct indices with the same identity make its count at
/// least two.
pub proof fn lemma_count_board_at_least_two(s: Seq<Card>, k1: int, k2: int, id: u32)
    requires
        0 <= k1 < s.len(),
        0 <= k2 < s.len(),
        k1 != k2,
        s[k1].match_id == id,
        s[k2].match_id == id,
    ensures
        count_board(s, id) >= 2,
    decreases s.len(),
{
    if k1 == s.len() - 1 {
        lemma_count_board_at_least_one(s.drop_last(), k2, id);
    } else if k2 == s.len() - 1 {
        lemma_count_board_at_least_one(s.drop_last(), k1, id);
    } else {
        lemma_count_board_at_least_two(s.drop_last(), k1, k2, id);
    }
}

/// Boards of equal length whose cards carry the same identities card for
/// card have the same counts.
pub proof fn lemma_count_board_pointwise(s1: Seq<Card>, s2: Seq<Card>, id: u32)
    requires
        s1.len() == s2.len(),
        forall|k: int| 0 <= k < s1.len() ==> s1[k].match_id == s2[k].match_id,
    ensures
        count_board(s1, id) == count_board(s2, id),
    decreases s1.len(),
{
    if s1.len() > 0 {
        lemma_count_board_pointwise(s1.drop_last(), s2.drop_last(), id);
    }
}

/// Removing a card keeps the remaining positions pairwise distinct.
pub proof fn lemma_positions_distinct_remove(s: Seq<Card>, i: int)
    requires
        0 <= i < s.len(),
        positions_distinct(s),
    ensures
        positions_distinct(s.remove(i)),
{
    let t = s.remove(i);
    s.remove_ensures(i);
    assert forall|a: int, b: int|
        0 <= a < b < t.len() implies !(t[a].x == t[b].x && t[a].y == t[b].y) by {
        let a2 = if a < i {
            a
        } else {
            a + 1
        };
        let b2 = if b < i {
            b
        } else {
            b + 1
        };
        assert(t[a] == s[a2]);
        assert(t[b] == s[b2]);
    }
}

/// The first index at or after `i` whose card sits exactly at `(x, y)`.
pub open spec fn find_pos_from(s: Seq<Card>, x: u32, y: u32, i: int) -> Option<int>
    decreases s.len() - i,
{
    if i < 0 || i >= s.len() {
        None
    } else if s[i].x == x && s[i].y == y {
        Some(i)
    } else {
        find_pos_from(s, x, y, i + 1)
    }
}

/// The first index at or after `i` whose card's rectangle contains `(x, y)`.
pub open spec fn find_hit_from(s: Seq<Card>, x: u32, y: u32, i: int) -> Option<int>
    decreases s.len() - i,
{
    if i < 0 || i >= s.len() {
        None
    } else if card_contains(s[i], x, y) {
        Some(i)
    } else {
        find_hit_from(s, x, y, i + 1)
    }
}

/// The first index at or after `i` holding a free card.
pub open spec fn find_free_from(s: Seq<Card>, i: int) -> Option<int>
    decreases s.len() - i,
{
    if i < 0 || i >= s.len() {
        None
    } else if free_card(s[i]) {
        Some(i)
    } else {
        find_free_from(s, i + 1)
    }
}

/// The first index at or after `i` holding a free card with identity `id`
/// that does not sit at `(px, py)`: the partner the match hint looks for.
pub open spec fn find_partner_from(s: Seq<Card>, id: u32, px: u32, py: u32, i: int) -> Option<int>
    decreases s.len() - i,
{
    if i < 0 || i >= s.len() {
        None
    } else if s[i].match_id == id && !(s[i].x == px && s[i].y == py) && free_card(s[i]) {
        Some(i)
    } else {
        find_partner_from(s, id, px, py, i + 1)
    }
}

/// The board with the card at `(x, y)` removed, if there is one.
pub open spec fn remove_pos(s: Seq<Card>, x: u32, y: u32) -> Seq<Card> {
    match find_pos_from(s, x, y, 0) {
        Some(k) => s.remove(k),
        None => s,
    }
}

/// The board with the card at `(x, y)` sent turning, if there is one.
pub open spec fn click_pos(s: Seq<Card>, x: u32, y: u32) -> Seq<Card> {
    match find_pos_from(s, x, y, 0) {
        Some(k) => s.update(k, Card { turning: true, ..s[k] }),
        None => s,
    }
}

/// What a `find_pos_from` result means: a hit is in range, sits at `(x, y)`,
/// and nothing before it does; a miss means no card at or after `i` does.
pub proof fn lemma_find_pos_from_props(s: Seq<Card>, x: u32, y: u32, i: int)
    requires
        0 <= i <= s.len(),
    ensures
        match find_pos_from(s, x, y, i) {
            Some(k) => i <= k < s.len() && s[k].x == x && s[k].y == y && (forall|j: int|
                i <= j < k ==> !(s[j].x == x && s[j].y == y)),
            None => forall|j: int| i <= j < s.len() ==> !(s[j].x == x && s[j].y == y),
        },
    decreases s.len() - i,
{
    if i < s.len() && !(s[i].x == x && s[i].y == y) {
        lemma_find_pos_from_props(s, x, y, i + 1);
    }
}

pub proof fn lemma_find_hit_from_props(s: Seq<Card>, x: u32, y: u32, i: int)
    requires
        0 <= i <= s.len(),
    ensures
        match find_hit_from(s, x, y, i) {
            Some(k) => i <= k < s.len() && card_contains(s[k], x, y),
            None => forall|j: int| i <= j < s.len() ==> !card_contains(s[j], x, y),
        },
    decreases s.len() - i,
{
    if i < s.len() && !card_contains(s[i], x, y) {
        lemma_find_hit_from_props(s, x, y, i + 1);
    }
}

pub proof fn lemma_find_free_from_props(s: Seq<Card>, i: int)
    requires
        0 <= i <= s.len(),
    ensures
        match find_free_from(s, i) {
            Some(k) => i <= k < s.len() && free_card(s[k]),
            None => forall|j: int| i <= j < s.len() ==> !free_card(s[j]),
        },
    decreases s.len() - i,
{
    if i < s.len() && !free_card(s[i]) {
        lemma_find_free_from_props(s, i + 1);
    }
}

pub proof fn lemma_find_partner_from_props(s: Seq<Card>, id: u32, px: u32, py: u32, i: int)
    requires
        0 <= i <= s.len(),
    ensures
        match find_partner_from(s, id, px, py, i) {
            Some(k) => i <= k < s.len() && s[k].match_id == id && !(s[k].x == px && s[k].y == py)
                && free_card(s[k]),
            None => forall|j: int|
                i <= j < s.len() ==> !(s[j].match_id == id && !(s[j].x == px && s[j].y == py)
                && free_card(s[j])),
        },
    decreases s.len() - i,
{
    if i < s.len() && !(s[i].match_id == id && !(s[i].x == px && s[i].y == py) && free_card(s[i])) {
        lemma_find_partner_from_props(s, id, px, py, i + 1);
    }
}

/// First card sitting exactly at `(x, y)`, by index.
pub fn find_pos(board: &Vec<Card>, x: u32, y: u32) -> (r: Option<usize>)
    ensures
        match r {
            Some(k) => find_pos_from(board@, x, y, 0) == Some(k as int),
            None => find_pos_from(board@, x, y, 0) is None,
        },
{
    let mut k: usize = 0;
    while k < board.len()
        invariant
            0 <= k <= board@.len(),
            find_pos_from(board@, x, y, 0) == find_pos_from(board@, x, y, k as int),
        decreases board@.len() - k,
    {
        if board[k].x == x && board[k].y == y {
            return Some(k);
        }
        k = k + 1;
    }
    None
}

/// First card whose rectangle contains the click `(x, y)`, by index.
pub fn find_hit(board: &Vec<Card>, x: u32, y: u32) -> (r: Option<usize>)
    ensures
        match r {
            Some(k) => find_hit_from(board@, x, y, 0) == Some(k as int),
            None => find_hit_from(board@, x, y, 0) is None,
        },
{
    let mut k: usize = 0;
    while k < board.len()
        invariant
            0 <= k <= board@.len(),
            find_hit_from(board@, x, y, 0) == find_hit_from(board@, x, y, k as int),
        decreases board@.len() - k,
    {
        let c = board[k];
        if (c.x as u64) <= (x as u64) && (x as u64) <= (c.x as u64) + (CARD_WIDTH as u64)
            && (c.y as u64) <= (y as u64) && (y as u64) <= (c.y as u64) + (CARD_HEIGHT as u64) {
            return Some(k);
        }
        k = k + 1;
    }
    None
}

/// First free card, by index.
pub fn find_free(board: &Vec<Card>) -> (r: Option<usize>)
    ensures
        match r {
            Some(k) => find_free_from(board@, 0) == Some(k as int),
            None => find_free_from(board@, 0) is None,
        },
{
    let mut k: usize = 0;
    while k < board.len()
        invariant
            0 <= k <= board@.len(),
            find_free_from(board@, 0) == find_free_from(board@, k as int),
        decreases board@.len() - k,
    {
        let c = board[k];
        if !c.is_clicked && !c.turning {
            return Some(k);
        }
        k = k + 1;
    }
    None
}

/// First free card carrying `id` away from `(px, py)`, by index: the partner
/// the match hint selects.
pub fn find_partner(board: &Vec<Card>, id: u32, px: u32, py: u32) -> (r: Option<usize>)
    ensures
        match r {
            Some(k) => find_partner_from(board@, id, px, py, 0) == Some(k as int),
            None => find_partner_from(board@, id, px, py, 0) is None,
        },
{
    let mut k: usize = 0;
    while k < board.len()
        invariant
            0 <= k <= board@.len(),
            find_partner_from(board@, id, px, py, 0) == find_partner_from(board@, id, px, py, k as int),
        decreases board@.len() - k,
    {
        let c = board[k];
        if c.match_id == id && !(c.x == px && c.y == py) && !c.is_clicked && !c.turning {
            return Some(k);
        }
        k = k + 1;
    }
    None
}

/// Relies on rand::seq::SliceRandom::shuffle, a Fisher-Yates shuffle that
/// reorders the slice in place by swaps: the result is a permutation of the
/// input, so every value keeps its number of occurrences.
#[verifier::external_body]
pub(crate) fn shuffle_ids(ids: &mut Vec<u32>)
    ensures
        final(ids)@.len() == old(ids)@.len(),
        forall|x: u32| #[trigger] count_ids(final(ids)@, x) == count_ids(old(ids)@, x),
{
    let mut rng = rand::thread_rng();
    ids.as_mut_slice().shuffle(&mut rng);
}

/// Leftmost pixel of the grid for a board `board_size` columns wide: the
/// cards are centred, 10 pixels apart.
pub open spec fn grid_start(board_size: u32) -> int {
    (1600 - 10 * (board_size - 1) - 125 * board_size) / 2
}

/// Pixel x of the `k`-th cell in fill order (left to right, top to bottom).
pub open spec fn grid_x(board_size: u32, k: int) -> int {
    grid_start(board_size) + 135 * (k % (board_size as int))
}

/// Pixel y of the `k`-th cell in fill order.
pub open spec fn grid_y(board_size: u32, k: int) -> int {
    250 * (k / (board_size as int)) + 50
}

/// The card the `k`-th cell receives: face down, idle, carrying the identity
/// popped from the tail of `ids`.
pub open spec fn placed_card(ids: Seq<u32>, board_size: u32, k: int) -> Card {
    Card {
        match_id: ids[ids.len() - 1 - k],
        is_clicked: false,
        turning: false,
        turning_state: CardTurning::TurnEnd,
        is_matched: false,
        x: grid_x(board_size, k) as u32,
        y: grid_y(board_size, k) as u32,
    }
}

/// Fills the three-row grid with one card per identity in `ids`, popping from
/// the tail, left to right and top to bottom.
pub fn place_cards(ids: Vec<u32>, board_size: u32) -> (board: Vec<Card>)
    requires
        1 <= board_size <= 11,
        ids@.len() == 3 * board_size,
    ensures
        board@.len() == ids@.len(),
        forall|k: int| 0 <= k < board@.len() ==> board@[k] == placed_card(ids@, board_size, k),
        forall|id: u32| #[trigger] count_board(board@, id) == count_ids(ids@, id),
{
    let ghost ids0: Seq<u32> = ids@;
    let mut ids = ids;
    let mut board: Vec<Card> = Vec::new();
    let start: u32 = (WINDOW_WIDTH - 10 * (board_size - 1) - CARD_WIDTH * board_size) / 2;
    assert(start == grid_start(board_size));

    let mut j: u32 = 1;
    while j < 4
        invariant
            1 <= j <= 4,
            1 <= board_size <= 11,
            ids0.len() == 3 * board_size,
            board@.len() == (j - 1) * board_size,
            ids@ == ids0.subrange(0, ids0.len() - board@.len()),
            start == grid_start(board_size),
            forall|k: int| 0 <= k < board@.len() ==> board@[k] == placed_card(ids0, board_size, k),
            forall|id: u32| #[trigger] count_board(board@, id) + count_ids(ids@, id) == count_ids(
                ids0,
                id,
            ),
        decreases 4 - j,
    {
        let y: u32 = 50 * j + CARD_HEIGHT * (j - 1);
        let mut i: u32 = 0;
        while i < board_size
            invariant
                1 <= j <= 3,
                0 <= i <= board_size,
                1 <= board_size <= 11,
                ids0.len() == 3 * board_size,
                y == 250 * (j - 1) + 50,
                board@.len() == (j - 1) * board_size + i,
                ids@ == ids0.subrange(0, ids0.len() - board@.len()),
                start == grid_start(board_size),
                forall|k: int| 0 <= k < board@.len() ==> board@[k] == placed_card(ids0, board_size, k),
                forall|id: u32| #[trigger] count_board(board@, id) + count_ids(ids@, id)
                    == count_ids(ids0, id),
            decreases board_size - i,
        {
            let x: u32 = start + (CARD_WIDTH + 10) * i;
            proof {
                assert((j - 1) * board_size + i < 3 * board_size) by (nonlinear_arith)
                    requires
                        1 <= j <= 3,
                        0 <= i < board_size,
                ;
            }
            let ghost k: int = board@.len() as int;
            let ghost pre_ids: Seq<u32> = ids@;
            let id = match ids.pop() {
                Some(v) => v,
                None => {
                    proof {
                        assert(false);
                    }
                    0
                }
            };
            proof {
                assert(pre_ids.drop_last() =~= ids0.subrange(0, ids0.len() - k - 1));
                assert(id == ids0[ids0.len() - 1 - k]);
                lemma_fundamental_div_mod_converse(k, board_size as int, j - 1, i as int);
                assert(x == grid_x(board_size, k));
                assert(y == grid_y(board_size, k));
            }
            let card = Card::new(x, y, id);
            let ghost pre_board: Seq<Card> = board@;
            board.push(card);
            proof {
                assert forall|id2: u32| #[trigger] count_board(board@, id2) + count_ids(ids@, id2)
                    == count_ids(ids0, id2) by {
                    lemma_count_board_push(pre_board, card, id2);
                    assert(count_ids(pre_ids, id2) == count_ids(ids@, id2) + if id == id2 {
                        1nat
                    } else {
                        0nat
                    });
                }
            }
            i = i + 1;
        }
        proof {
            assert(j * board_size == (j - 1) * board_size + board_size) by (nonlinear_arith);
        }
        j = j + 1;
    }
    proof {
        assert(board@.len() == 3 * board_size);
        assert(ids@.len() == 0);
        assert forall|id: u32| #[trigger] count_board(board@, id) == count_ids(ids0, id) by {
            assert(count_ids(ids@, id) == 0);
        }
    }
    board
}

/// Cells of the fill order are pairwise distinct positions.
pub proof fn lemma_grid_positions_distinct(board_size: u32, k1: int, k2: int)
    requires
        1 <= board_size <= 11,
        0 <= k1,
        0 <= k2,
        k1 != k2,
    ensures
        !(grid_x(board_size, k1) == grid_x(board_size, k2) && grid_y(board_size, k1) == grid_y(
            board_size,
            k2,
        )),
{
    let b = board_size as int;
    vstd::arithmetic::div_mod::lemma_fundamental_div_mod(k1, b);
    vstd::arithmetic::div_mod::lemma_fundamental_div_mod(k2, b);
    vstd::arithmetic::div_mod::lemma_mod_bound(k1, b);
    vstd::arithmetic::div_mod::lemma_mod_bound(k2, b);
    if k1 / b == k2 / b && k1 % b == k2 % b {
        assert(k1 == b * (k1 / b) + k1 % b);
        assert(k2 == b * (k2 / b) + k2 % b);
        assert(false);
    }
}

} // verus!
