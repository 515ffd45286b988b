//! Meld shapes: calls and the melds they stand for, complete and partial
//! meld predicates, wait computation, and the candidate-meld universe.

use crate::tile::all_tiles;
use crate::tile::all_tiles_spec;
use crate::tile::contains_tile;
use crate::tile::count_of;
use crate::tile::count_tile;
use crate::tile::seq_contains_tile;
use crate::tile::tile_from_string;
use crate::tile::tiles_wf;
use crate::tile::tile_of_chars;
use crate::tile::valid_tile_str;
use crate::tile::Tile;
use crate::types::Call;
use crate::types::CallType;
use vstd::prelude::*;

verus! {

/// A complete meld: an ordered group of three or four tiles.
pub type Meld = Vec<Tile>;

/// The mathematical value of a list of melds.
pub open spec fn melds_view(m: Seq<Meld>) -> Seq<Seq<Tile>> {
    Seq::new(m.len(), |i: int| m[i]@)
}

/// Every meld of the list is made of structurally valid tiles.
pub open spec fn melds_wf(ms: Seq<Seq<Tile>>) -> bool {
    forall|j: int| 0 <= j < ms.len() ==> tiles_wf(#[trigger] ms[j])
}

/// A copy of a meld list (element for element).
pub fn copy_melds(melds: &Vec<Meld>) -> (r: Vec<Meld>)
    ensures
        r@.len() == melds@.len(),
        forall|i: int| 0 <= i < r@.len() ==> #[trigger] r@[i]@ == melds@[i]@,
        melds_view(r@) == melds_view(melds@),
{
    let mut out: Vec<Meld> = Vec::new();
    let mut i: usize = 0;
    while i < melds.len()
        invariant
            i <= melds@.len(),
            out@.len() == i,
            forall|k: int| 0 <= k < i ==> #[trigger] out@[k]@ == melds@[k]@,
        decreases melds@.len() - i,
    {
        out.push(crate::tile::copy_tiles(&melds[i]));
        i = i + 1;
    }
    proof {
        assert(melds_view(out@) =~= melds_view(melds@));
    }
    out
}

/// The meld a call stands for: the consecutive triple from its tile for a
/// sequence call, identical triples or quadruples otherwise.
pub open spec fn spec_call_meld(c: Call) -> Seq<Tile> {
    match c.ctype {
        CallType::Chi => seq![c.tile, c.tile.spec_next(), c.tile.spec_next().spec_next()],
        CallType::Pon => seq![c.tile, c.tile, c.tile],
        CallType::Minkan | CallType::Ankan => seq![c.tile, c.tile, c.tile, c.tile],
        CallType::NoCall => Seq::empty(),
    }
}

impl Call {
    /// Builds a call from a call type and a tile notation string.
    pub fn new(ctype: CallType, tile: &str) -> (r: Call)
        requires
            valid_tile_str(tile@),
        ensures
            r == (Call { ctype, tile: tile_of_chars(tile@[0], tile@[1]) }),
    {
        Call { ctype, tile: tile_from_string(tile) }
    }

    /// A sequence call on `tile` and the two tiles above it.
    pub fn chi(tile: Tile) -> (r: Call)
        ensures
            r == (Call { ctype: CallType::Chi, tile }),
    {
        Call { ctype: CallType::Chi, tile }
    }

    /// An exposed triplet call.
    pub fn pon(tile: Tile) -> (r: Call)
        ensures
            r == (Call { ctype: CallType::Pon, tile }),
    {
        Call { ctype: CallType::Pon, tile }
    }

    /// An exposed quad call.
    pub fn minkan(tile: Tile) -> (r: Call)
        ensures
            r == (Call { ctype: CallType::Minkan, tile }),
    {
        Call { ctype: CallType::Minkan, tile }
    }

    /// A concealed quad call.
    pub fn ankan(tile: Tile) -> (r: Call)
        ensures
            r == (Call { ctype: CallType::Ankan, tile }),
    {
        Call { ctype: CallType::Ankan, tile }
    }

    /// The full meld the call stands for.
    pub fn meld(&self) -> (r: Meld)
        requires
            self.wf(),
        ensures
            r@ == spec_call_meld(*self),
            tiles_wf(r@),
    {
        match self.ctype {
            CallType::Chi => {
                let r = vec![self.tile, self.tile.next(), self.tile.next().next()];
                proof {
                    assert(r@ =~= spec_call_meld(*self));
                }
                r
            },
            CallType::Pon => {
                let r = vec![self.tile, self.tile, self.tile];
                proof {
                    assert(r@ =~= spec_call_meld(*self));
                }
                r
            },
            CallType::Minkan | CallType::Ankan => {
                let r = vec![self.tile, self.tile, self.tile, self.tile];
                proof {
                    assert(r@ =~= spec_call_meld(*self));
                }
                r
            },
            CallType::NoCall => {
                let r: Meld = Vec::new();
                proof {
                    assert(r@ =~= spec_call_meld(*self));
                }
                r
            },
        }
    }
}

/// Three identical tiles.
pub open spec fn spec_is_triplet(s: Seq<Tile>) -> bool {
    s.len() == 3 && forall|i: int| 0 <= i < s.len() ==> #[trigger] s[i] == s[0]
}

/// Checks for a triplet: three identical tiles.
pub fn is_triplet(tiles: &Vec<Tile>) -> (r: bool)
    ensures
        r == spec_is_triplet(tiles@),
{
    tiles.len() == 3 && tiles[1] == tiles[0] && tiles[2] == tiles[0]
}

/// Four identical tiles.
pub open spec fn spec_is_quadruplet(s: Seq<Tile>) -> bool {
    s.len() == 4 && forall|i: int| 0 <= i < s.len() ==> #[trigger] s[i] == s[0]
}

/// Checks for a quadruplet: four identical tiles.
pub fn is_quadruplet(tiles: &Vec<Tile>) -> (r: bool)
    ensures
        r == spec_is_quadruplet(tiles@),
{
    tiles.len() == 4 && tiles[1] == tiles[0] && tiles[2] == tiles[0] && tiles[3] == tiles[0]
}

/// Three consecutive tiles of one numbered suit, starting at rank 7 or below.
pub open spec fn spec_is_sequence(s: Seq<Tile>) -> bool {
    s.len() == 3 && s[0].spec_is_number() && s[0].number <= 7 && s[1] == s[0].spec_next() && s[2]
        == s[0].spec_next().spec_next()
}

/// Checks for a sequence: three consecutive same-suit tiles.
pub fn is_sequence(tiles: &Vec<Tile>) -> (r: bool)
    requires
        tiles_wf(tiles@),
    ensures
        r == spec_is_sequence(tiles@),
{
    tiles.len() == 3 && tiles[0].is_number() && tiles[0].number <= 7 && tiles[1] == (Tile {
        suit: tiles[0].suit,
        number: tiles[0].number + 1,
    }) && tiles[2] == (Tile { suit: tiles[0].suit, number: tiles[0].number + 2 })
}

/// A two-sided partial run: a numbered start not at an edge, and the tile
/// above it.
pub open spec fn spec_is_ryanmen(s: Seq<Tile>) -> bool {
    s.len() == 2 && s[0].spec_is_number() && s[0].number != 1 && s[0].number != 8 && s[0].number
        != 9 && s[1] == s[0].spec_next()
}

/// Checks for a two-sided partial run.
pub fn is_ryanmen(tiles: &Vec<Tile>) -> (r: bool)
    requires
        tiles_wf(tiles@),
    ensures
        r == spec_is_ryanmen(tiles@),
{
    tiles.len() == 2 && tiles[0].is_number() && tiles[0].number != 1 && tiles[0].number != 8
        && tiles[0].number != 9 && tiles[1] == (Tile {
        suit: tiles[0].suit,
        number: tiles[0].number + 1,
    })
}

/// An edge partial run: a numbered start at rank 1 or 8, and the tile above.
pub open spec fn spec_is_penchan(s: Seq<Tile>) -> bool {
    s.len() == 2 && s[0].spec_is_number() && (s[0].number == 1 || s[0].number == 8) && s[1] == s[0]
        .spec_next()
}

/// Checks for an edge partial run.
pub fn is_penchan(tiles: &Vec<Tile>) -> (r: bool)
    requires
        tiles_wf(tiles@),
    ensures
        r == spec_is_penchan(tiles@),
{
    tiles.len() == 2 && tiles[0].is_number() && (tiles[0].number == 1 || tiles[0].number == 8)
        && tiles[1] == (Tile { suit: tiles[0].suit, number: tiles[0].number + 1 })
}

/// A closed (gap) partial run: a numbered start below rank 8, and the tile
/// two above it.
pub open spec fn spec_is_kanchan(s: Seq<Tile>) -> bool {
    s.len() == 2 && s[0].spec_is_number() && s[0].number != 8 && s[0].number != 9 && s[1] == s[0]
        .spec_next().spec_next()
}

/// Checks for a closed (gap) partial run.
pub fn is_kanchan(tiles: &Vec<Tile>) -> (r: bool)
    requires
        tiles_wf(tiles@),
    ensures
        r == spec_is_kanchan(tiles@),
{
    tiles.len() == 2 && tiles[0].is_number() && tiles[0].number != 8 && tiles[0].number != 9
        && tiles[1] == (Tile { suit: tiles[0].suit, number: tiles[0].number + 2 })
}

/// A paired wait: two identical tiles.
pub open spec fn spec_is_shanpon(s: Seq<Tile>) -> bool {
    s.len() == 2 && s[0] == s[1]
}

/// Checks for a paired wait.
pub fn is_shanpon(tiles: &Vec<Tile>) -> (r: bool)
    ensures
        r == spec_is_shanpon(tiles@),
{
    tiles.len() == 2 && tiles[0] == tiles[1]
}

/// One of the four two-tile partial meld shapes.
pub open spec fn spec_is_partial_meld(s: Seq<Tile>) -> bool {
    spec_is_ryanmen(s) || spec_is_penchan(s) || spec_is_kanchan(s) || spec_is_shanpon(s)
}

/// Checks for any two-tile partial meld shape.
pub fn is_partial_meld(tiles: &Vec<Tile>) -> (r: bool)
    requires
        tiles_wf(tiles@),
    ensures
        r == spec_is_partial_meld(tiles@),
{
    is_ryanmen(tiles) || is_penchan(tiles) || is_kanchan(tiles) || is_shanpon(tiles)
}

/// Completion tiles of a two-sided partial run: one below and one above.
pub open spec fn spec_ryanmen_waits(s: Seq<Tile>) -> Seq<Tile> {
    seq![s[0].spec_prev(), s[1].spec_next()]
}

/// The two tiles that complete a two-sided partial run.
pub fn ryanmen_waits(tiles: &Meld) -> (r: Vec<Tile>)
    requires
        tiles_wf(tiles@),
        spec_is_ryanmen(tiles@),
    ensures
        r@ == spec_ryanmen_waits(tiles@),
        tiles_wf(r@),
{
    let r = vec![tiles[0].prev(), tiles[1].next()];
    proof {
        assert(r@ =~= spec_ryanmen_waits(tiles@));
    }
    r
}

/// Completion tile of an edge partial run: the single in-range neighbour.
pub open spec fn spec_penchan_waits(s: Seq<Tile>) -> Seq<Tile> {
    if s[0].number == 1 {
        seq![s[1].spec_next()]
    } else {
        seq![s[0].spec_prev()]
    }
}

/// The single tile that completes an edge partial run.
pub fn penchan_waits(tiles: &Meld) -> (r: Vec<Tile>)
    requires
        tiles_wf(tiles@),
        spec_is_penchan(tiles@),
    ensures
        r@ == spec_penchan_waits(tiles@),
        tiles_wf(r@),
{
    let r = if tiles[0].number == 1 {
        vec![tiles[1].next()]
    } else {
        vec![tiles[0].prev()]
    };
    proof {
        assert(r@ =~= spec_penchan_waits(tiles@));
    }
    r
}

/// Completion tile of a closed partial run: the tile in the gap.
pub open spec fn spec_kanchan_waits(s: Seq<Tile>) -> Seq<Tile> {
    seq![s[0].spec_next()]
}

/// The single tile that fills a closed partial run.
pub fn kanchan_waits(tiles: &Meld) -> (r: Vec<Tile>)
    requires
        tiles_wf(tiles@),
        spec_is_kanchan(tiles@),
    ensures
        r@ == spec_kanchan_waits(tiles@),
        tiles_wf(r@),
{
    let r = vec![tiles[0].next()];
    proof {
        assert(r@ =~= spec_kanchan_waits(tiles@));
    }
    r
}

/// Completion tile of a paired wait: a third copy of the pair tile.
pub open spec fn spec_shanpon_waits(s: Seq<Tile>) -> Seq<Tile> {
    seq![s[0]]
}

/// The tile that turns a paired wait into a triplet.
pub fn shanpon_waits(tiles: &Meld) -> (r: Vec<Tile>)
    requires
        tiles_wf(tiles@),
        tiles@.len() >= 1,
    ensures
        r@ == spec_shanpon_waits(tiles@),
        tiles_wf(r@),
{
    let r = vec![tiles[0]];
    proof {
        assert(r@ =~= spec_shanpon_waits(tiles@));
    }
    r
}

/// Every call is a concealed quad: the hand counts as fully concealed.
pub open spec fn spec_no_open_calls(calls: Seq<Call>) -> bool {
    forall|i: int| 0 <= i < calls.len() ==> (#[trigger] calls[i]).ctype == CallType::Ankan
}

/// Checks whether the hand has no open call (concealed quads do not count as
/// open).
pub fn no_open_calls(calls: &Vec<Call>) -> (r: bool)
    ensures
        r == spec_no_open_calls(calls@),
{
    let mut i: usize = 0;
    while i < calls.len()
        invariant
            i <= calls@.len(),
            forall|k: int| 0 <= k < i ==> (#[trigger] calls@[k]).ctype == CallType::Ankan,
        decreases calls@.len() - i,
    {
        if !(calls[i].ctype == CallType::Ankan) {
            return false;
        }
        i = i + 1;
    }
    true
}

/// The start of the `i`-th possible sequence: ranks 1 to 7 of each numbered
/// suit.
pub open spec fn nth_sequence_start(i: int) -> Tile {
    if i < 7 {
        Tile { suit: crate::tile::Suit::Man, number: (i + 1) as u8 }
    } else if i < 14 {
        Tile { suit: crate::tile::Suit::Pin, number: (i - 6) as u8 }
    } else {
        Tile { suit: crate::tile::Suit::Sou, number: (i - 13) as u8 }
    }
}

/// The sequence meld starting at `t`.
pub open spec fn sequence_of(t: Tile) -> Seq<Tile> {
    seq![t, t.spec_next(), t.spec_next().spec_next()]
}

/// All 21 sequence melds, ascending.
pub open spec fn all_sequences_spec() -> Seq<Seq<Tile>> {
    Seq::new(21, |i: int| sequence_of(nth_sequence_start(i)))
}

/// All 21 sequence melds.
pub fn all_sequences() -> (r: Vec<Meld>)
    ensures
        melds_view(r@) == all_sequences_spec(),
        forall|i: int| 0 <= i < r@.len() ==> tiles_wf(#[trigger] r@[i]@),
{
    let mut out: Vec<Meld> = Vec::new();
    let mut i: usize = 0;
    while i < 21
        invariant
            i <= 21,
            out@.len() == i,
            forall|k: int|
                0 <= k < i ==> #[trigger] out@[k]@ == sequence_of(nth_sequence_start(k)),
            forall|k: int| 0 <= k < i ==> tiles_wf(#[trigger] out@[k]@),
        decreases 21 - i,
    {
        let start = if i < 7 {
            Tile { suit: crate::tile::Suit::Man, number: (i + 1) as u8 }
        } else if i < 14 {
            Tile { suit: crate::tile::Suit::Pin, number: (i - 6) as u8 }
        } else {
            Tile { suit: crate::tile::Suit::Sou, number: (i - 13) as u8 }
        };
        let m = vec![start, start.next(), start.next().next()];
        proof {
            assert(m@ =~= sequence_of(nth_sequence_start(i as int)));
        }
        out.push(m);
        i = i + 1;
    }
    proof {
        assert(melds_view(out@) =~= all_sequences_spec());
    }
    out
}

/// The triplet meld of tile `t`.
pub open spec fn triplet_of(t: Tile) -> Seq<Tile> {
    seq![t, t, t]
}

/// All 34 triplet melds, ascending.
pub open spec fn all_triplets_spec() -> Seq<Seq<Tile>> {
    Seq::new(34, |i: int| triplet_of(crate::tile::nth_tile(i)))
}

/// All 34 triplet melds.
pub fn all_triplets() -> (r: Vec<Meld>)
    ensures
        melds_view(r@) == all_triplets_spec(),
        forall|i: int| 0 <= i < r@.len() ==> tiles_wf(#[trigger] r@[i]@),
{
    let ts = all_tiles();
    let mut out: Vec<Meld> = Vec::new();
    let mut i: usize = 0;
    while i < ts.len()
        invariant
            i <= ts@.len(),
            ts@ == all_tiles_spec(),
            tiles_wf(ts@),
            out@.len() == i,
            forall|k: int|
                0 <= k < i ==> #[trigger] out@[k]@ == triplet_of(crate::tile::nth_tile(k)),
            forall|k: int| 0 <= k < i ==> tiles_wf(#[trigger] out@[k]@),
        decreases ts@.len() - i,
    {
        let t = ts[i];
        let m = vec![t, t, t];
        proof {
            assert(m@ =~= triplet_of(crate::tile::nth_tile(i as int)));
        }
        out.push(m);
        i = i + 1;
    }
    proof {
        assert(melds_view(out@) =~= all_triplets_spec());
    }
    out
}

/// Every tile of the meld occurs in `tiles`.
pub open spec fn meld_present(m: Seq<Tile>, tiles: Seq<Tile>) -> bool {
    forall|k: int| 0 <= k < m.len() ==> seq_contains_tile(tiles, #[trigger] m[k])
}

/// The melds of `ms`, in order, whose tiles all occur in `tiles`.
pub open spec fn filter_present(ms: Seq<Seq<Tile>>, tiles: Seq<Tile>) -> Seq<Seq<Tile>>
    decreases ms.len(),
{
    if ms.len() == 0 {
        ms
    } else {
        let rest = filter_present(ms.drop_last(), tiles);
        if meld_present(ms.last(), tiles) {
            rest.push(ms.last())
        } else {
            rest
        }
    }
}

/// The sequence melds whose three tiles all occur in `tiles`.
pub open spec fn possible_sequences_spec(tiles: Seq<Tile>) -> Seq<Seq<Tile>> {
    filter_present(all_sequences_spec(), tiles)
}

/// Sequence melds all of whose tiles occur in `tiles`.
pub fn possible_sequences(tiles: &Vec<Tile>) -> (r: Vec<Meld>)
    ensures
        melds_view(r@) == possible_sequences_spec(tiles@),
        forall|i: int| 0 <= i < r@.len() ==> tiles_wf(#[trigger] r@[i]@),
{
    let all = all_sequences();
    let mut out: Vec<Meld> = Vec::new();
    let mut i: usize = 0;
    while i < all.len()
        invariant
            i <= all@.len(),
            melds_view(all@) == all_sequences_spec(),
            forall|k: int| 0 <= k < all@.len() ==> tiles_wf(#[trigger] all@[k]@),
            melds_view(out@) == filter_present(melds_view(all@).take(i as int), tiles@),
            forall|k: int| 0 <= k < out@.len() ==> tiles_wf(#[trigger] out@[k]@),
        decreases all@.len() - i,
    {
        proof {
            assert(melds_view(all@).take(i + 1).drop_last() =~= melds_view(all@).take(i as int));
            assert(melds_view(all@).take(i + 1).last() == all@[i as int]@);
        }
        let m = &all[i];
        let mut k: usize = 0;
        let mut present = true;
        while k < m.len()
            invariant
                k <= m@.len(),
                present == forall|kk: int| 0 <= kk < k ==> seq_contains_tile(tiles@, #[trigger] m@[kk]),
            decreases m@.len() - k,
        {
            if !contains_tile(tiles, m[k]) {
                present = false;
            }
            k = k + 1;
        }
        if present {
            let copy = crate::tile::copy_tiles(m);
            proof {
                assert(meld_present(m@, tiles@));
            }
            out.push(copy);
            proof {
                assert(melds_view(out@) =~= filter_present(melds_view(all@).take(i + 1), tiles@));
            }
        } else {
            proof {
                assert(!meld_present(m@, tiles@));
            }
        }
        i = i + 1;
    }
    proof {
        assert(melds_view(all@).take(melds_view(all@).len() as int) =~= melds_view(all@));
    }
    out
}

/// The triplets of `ts`, in order, whose tile occurs at least three times in
/// `tiles`.
pub open spec fn filter_triplets(ts: Seq<Tile>, tiles: Seq<Tile>) -> Seq<Seq<Tile>>
    decreases ts.len(),
{
    if ts.len() == 0 {
        Seq::empty()
    } else {
        let rest = filter_triplets(ts.drop_last(), tiles);
        if count_of(tiles, ts.last()) >= 3 {
            rest.push(triplet_of(ts.last()))
        } else {
            rest
        }
    }
}

/// The triplet melds whose tile occurs at least three times in `tiles`.
pub open spec fn possible_triplets_spec(tiles: Seq<Tile>) -> Seq<Seq<Tile>> {
    filter_triplets(all_tiles_spec(), tiles)
}

/// Triplet melds whose tile occurs at least three times in `tiles`.
pub fn possible_triplets(tiles: &Vec<Tile>) -> (r: Vec<Meld>)
    ensures
        melds_view(r@) == possible_triplets_spec(tiles@),
        forall|i: int| 0 <= i < r@.len() ==> tiles_wf(#[trigger] r@[i]@),
{
    let all = all_tiles();
    let mut out: Vec<Meld> = Vec::new();
    let mut i: usize = 0;
    while i < all.len()
        invariant
            i <= all@.len(),
            all@ == all_tiles_spec(),
            tiles_wf(all@),
            melds_view(out@) == filter_triplets(all@.take(i as int), tiles@),
            forall|k: int| 0 <= k < out@.len() ==> tiles_wf(#[trigger] out@[k]@),
        decreases all@.len() - i,
    {
        proof {
            assert(all@.take(i + 1).drop_last() =~= all@.take(i as int));
        }
        let t = all[i];
        if count_tile(tiles, t) >= 3 {
            let m = vec![t, t, t];
            proof {
                assert(m@ =~= triplet_of(t));
            }
            out.push(m);
            proof {
                assert(melds_view(out@) =~= filter_triplets(all@.take(i + 1), tiles@));
            }
        }
        i = i + 1;
    }
    proof {
        assert(all@.take(all@.len() as int) =~= all@);
    }
    out
}

/// All melds structurally possible with the tiles present: the possible
/// sequences, then the possible triplets.
pub open spec fn possible_melds_spec(tiles: Seq<Tile>) -> Seq<Seq<Tile>> {
    possible_sequences_spec(tiles) + possible_triplets_spec(tiles)
}

/// Every meld structurally possible given the tiles present.
pub fn possible_melds(tiles: &Vec<Tile>) -> (r: Vec<Meld>)
    ensures
        melds_view(r@) == possible_melds_spec(tiles@),
        forall|i: int| 0 <= i < r@.len() ==> tiles_wf(#[trigger] r@[i]@),
{
    let mut r = possible_sequences(tiles);
    let mut trips = possible_triplets(tiles);
    let ghost seqs = r@;
    let ghost tr = trips@;
    r.append(&mut trips);
    proof {
        assert(r@ == seqs + tr);
        assert(melds_view(seqs + tr) =~= melds_view(seqs) + melds_view(tr));
    }
    r
}

} // verus!
