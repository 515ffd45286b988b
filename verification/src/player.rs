//! Turn-by-turn player bookkeeping: the concealed hand, discards, and the
//! calls made so far.

use crate::tile::ins_sorted;
use crate::tile::lemma_ins_sorted_len;
use crate::tile::lemma_ins_sorted_multiset;
use crate::tile::lemma_ins_sorted_sorted;
use crate::tile::lemma_inserted_at;
use crate::tile::sort_tiles;
use crate::tile::sort_tiles_spec;
use crate::tile::Suit;
use crate::tile::Tile;
use crate::types::Call;
use crate::types::CallType;
use vstd::prelude::*;

verus! {

/// The order on hand positions.
pub open spec fn usize_leq_fn() -> spec_fn(usize, usize) -> bool {
    |a: usize, b: usize| a <= b
}

fn index_insert_pos(out: &Vec<usize>, x: usize) -> (j: usize)
    ensures
        j <= out@.len(),
        forall|k: int| j <= k < out@.len() ==> !usize_leq_fn()(#[trigger] out@[k], x),
        j > 0 ==> usize_leq_fn()(out@[j - 1], x),
{
    let mut j: usize = out.len();
    let mut scanning = true;
    while scanning
        invariant
            j <= out@.len(),
            forall|k: int| j <= k < out@.len() ==> !usize_leq_fn()(#[trigger] out@[k], x),
            !scanning ==> (j == 0 || usize_leq_fn()(out@[j - 1], x)),
        decreases j + if scanning { 1int } else { 0int },
    {
        if j == 0 {
            scanning = false;
        } else if out[j - 1] <= x {
            scanning = false;
        } else {
            j = j - 1;
        }
    }
    j
}

fn sort_indices(v: &Vec<usize>) -> (r: Vec<usize>)
    ensures
        r@ == ins_sorted(v@, usize_leq_fn()),
{
    let mut out: Vec<usize> = Vec::new();
    let mut i: usize = 0;
    while i < v.len()
        invariant
            i <= v@.len(),
            out@ == ins_sorted(v@.take(i as int), usize_leq_fn()),
        decreases v@.len() - i,
    {
        let x = v[i];
        let j = index_insert_pos(&out, x);
        proof {
            lemma_inserted_at(out@, x, usize_leq_fn(), j as int);
            assert(out@.insert(j as int, x) =~= out@.subrange(0, j as int) + seq![x]
                + out@.subrange(j as int, out@.len() as int));
            assert(v@.take(i + 1).drop_last() =~= v@.take(i as int));
        }
        out.insert(j, x);
        i = i + 1;
    }
    proof {
        assert(v@.take(v@.len() as int) =~= v@);
    }
    out
}

/// The hand after removing the given positions, largest position first.
pub open spec fn hand_after_removals(hand: Seq<Tile>, idxs: Seq<usize>) -> Seq<Tile>
    decreases idxs.len(),
{
    if idxs.len() == 0 {
        hand
    } else {
        hand_after_removals(hand.remove(idxs.last() as int), idxs.drop_last())
    }
}

/// The tiles removed at the given positions, largest position first.
pub open spec fn removed_tiles(hand: Seq<Tile>, idxs: Seq<usize>) -> Seq<Tile>
    decreases idxs.len(),
{
    if idxs.len() == 0 {
        Seq::empty()
    } else {
        seq![hand[idxs.last() as int]] + removed_tiles(
            hand.remove(idxs.last() as int),
            idxs.drop_last(),
        )
    }
}

/// A player: the concealed hand, the seat wind, the discards, the calls, and
/// the running score.
#[derive(Debug)]
pub struct Player {
    pub hand: Vec<Tile>,
    pub player_wind: Tile,
    pub discards: Vec<Tile>,
    pub calls: Vec<Call>,
    pub total_score: u32,
}

impl Default for Player {
    fn default() -> (r: Player)
        ensures
            r.hand@ == Seq::<Tile>::empty(),
            r.player_wind == (Tile { suit: Suit::Hon, number: 1 }),
            r.discards@ == Seq::<Tile>::empty(),
            r.calls@ == Seq::<Call>::empty(),
            r.total_score == 0,
    {
        Player {
            hand: Vec::new(),
            player_wind: Tile { suit: Suit::Hon, number: 1 },
            discards: Vec::new(),
            calls: Vec::new(),
            total_score: 0,
        }
    }
}

impl Player {
    /// Adds a drawn tile to the hand.
    pub fn draw(&mut self, tile: Tile)
        ensures
            final(self).hand@ == old(self).hand@.push(tile),
            final(self).player_wind == old(self).player_wind,
            final(self).discards@ == old(self).discards@,
            final(self).calls@ == old(self).calls@,
            final(self).total_score == old(self).total_score,
    {
        self.hand.push(tile);
    }

    /// Removes and returns the tile at the given hand position.
    pub fn discard(&mut self, idx: usize) -> (r: Tile)
        requires
            idx < old(self).hand@.len(),
        ensures
            r == old(self).hand@[idx as int],
            final(self).hand@ == old(self).hand@.remove(idx as int),
            final(self).player_wind == old(self).player_wind,
            final(self).discards@ == old(self).discards@,
            final(self).calls@ == old(self).calls@,
            final(self).total_score == old(self).total_score,
    {
        self.hand.remove(idx)
    }

    /// Records a call: the named hand tiles leave the hand and join the
    /// called tile as a meld, recorded by its lowest tile.
    pub fn call(&mut self, call_type: CallType, called_tile: Tile, hand_tile_indices: Vec<usize>)
        requires
            hand_tile_indices@.no_duplicates(),
            forall|k: int|
                0 <= k < hand_tile_indices@.len() ==> #[trigger] hand_tile_indices@[k] < old(
                    self,
                ).hand@.len(),
        ensures
            final(self).hand@ == hand_after_removals(
                old(self).hand@,
                ins_sorted(hand_tile_indices@, usize_leq_fn()),
            ),
            final(self).calls@ == old(self).calls@.push(
                Call {
                    ctype: call_type,
                    tile: sort_tiles_spec(
                        seq![called_tile] + removed_tiles(
                            old(self).hand@,
                            ins_sorted(hand_tile_indices@, usize_leq_fn()),
                        ),
                    )[0],
                },
            ),
            final(self).player_wind == old(self).player_wind,
            final(self).discards@ == old(self).discards@,
            final(self).total_score == old(self).total_score,
    {
        broadcast use vstd::seq_lib::group_to_multiset_ensures;
        broadcast use vstd::multiset::group_multiset_axioms;

        let sidx = sort_indices(&hand_tile_indices);
        proof {
            let leq = usize_leq_fn();
            assert(vstd::relations::transitive(leq)) by {
                assert forall|a: usize, b: usize, c: usize|
                    #[trigger] leq(a, b) && #[trigger] leq(b, c) implies leq(a, c) by {}
            }
            assert(vstd::relations::strongly_connected(leq)) by {
                assert forall|a: usize, b: usize| #[trigger] leq(a, b) || #[trigger] leq(b, a) by {}
            }
            lemma_ins_sorted_sorted(hand_tile_indices@, leq);
            lemma_ins_sorted_multiset(hand_tile_indices@, leq);
            hand_tile_indices@.lemma_multiset_has_no_duplicates();
            sidx@.lemma_multiset_has_no_duplicates_conv();
            // Every position in the sorted list is a position of the input,
            // so each is inside the hand.
            assert forall|k: int|
                0 <= k < sidx@.len() implies #[trigger] sidx@[k] < old(self).hand@.len() by {
                assert(sidx@.contains(sidx@[k]));
                assert(sidx@.to_multiset().contains(sidx@[k]));
                assert(hand_tile_indices@.to_multiset().contains(sidx@[k]));
                assert(hand_tile_indices@.contains(sidx@[k]));
                let j = choose|j: int|
                    0 <= j < hand_tile_indices@.len() && hand_tile_indices@[j] == sidx@[k];
            }
            assert forall|a: int, b: int| 0 <= a < b < sidx@.len() implies sidx@[a] < sidx@[b] by {
                assert(leq(sidx@[a], sidx@[b]));
            }
        }

        let mut meld: Vec<Tile> = vec![called_tile];
        let ghost old_hand = self.hand@;
        let ghost sv = sidx@;
        let mut j: usize = sidx.len();
        proof {
            assert(sv.take(j as int) =~= sv);
            assert(meld@.drop_first() =~= Seq::<Tile>::empty());
        }
        while j > 0
            invariant
                j <= sv.len(),
                sv == sidx@,
                forall|a: int, b: int| 0 <= a < b < sv.len() ==> sv[a] < sv[b],
                forall|k: int| 0 <= k < j ==> #[trigger] sv[k] < self.hand@.len(),
                hand_after_removals(old_hand, sv) == hand_after_removals(
                    self.hand@,
                    sv.take(j as int),
                ),
                meld@.len() >= 1,
                meld@[0] == called_tile,
                removed_tiles(old_hand, sv) == meld@.drop_first() + removed_tiles(
                    self.hand@,
                    sv.take(j as int),
                ),
                self.player_wind == old(self).player_wind,
                self.discards@ == old(self).discards@,
                self.calls@ == old(self).calls@,
                self.total_score == old(self).total_score,
            decreases j,
        {
            proof {
                assert(sv.take(j as int).drop_last() =~= sv.take(j - 1));
                assert(sv.take(j as int).last() == sv[j - 1]);
            }
            let idx = sidx[j - 1];
            let ghost h = self.hand@;
            let t = self.hand.remove(idx);
            proof {
                assert(t == h[idx as int]);
                assert(self.hand@ == h.remove(idx as int));
                assert(meld@.push(t).drop_first() =~= meld@.drop_first().push(t));
                assert(meld@.drop_first() + (seq![t] + removed_tiles(
                    self.hand@,
                    sv.take(j - 1),
                )) =~= meld@.drop_first().push(t) + removed_tiles(self.hand@, sv.take(j - 1)));
            }
            meld.push(t);
            j = j - 1;
        }
        proof {
            assert(sv.take(0) =~= Seq::<usize>::empty());
            assert(removed_tiles(old_hand, sv) =~= meld@.drop_first());
            assert(seq![called_tile] + meld@.drop_first() =~= meld@);
        }
        let sorted_meld = sort_tiles(&meld);
        proof {
            lemma_ins_sorted_len(meld@, crate::tile::tile_leq_fn());
        }
        let call = Call { ctype: call_type, tile: sorted_meld[0] };
        self.calls.push(call);
    }
}

} // verus!
