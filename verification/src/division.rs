//! Candidate decompositions of the concealed hand: a pair (or none), up to
//! four complete melds, and the leftover wait shape, together with the
//! exhaustive enumerator that produces every combinatorially valid one.

use crate::meld::copy_melds;
use crate::meld::is_kanchan;
use crate::meld::is_partial_meld;
use crate::meld::is_penchan;
use crate::meld::is_ryanmen;
use crate::meld::is_shanpon;
use crate::meld::kanchan_waits;
use crate::meld::melds_view;
use crate::meld::melds_wf;
use crate::meld::penchan_waits;
use crate::meld::possible_melds;
use crate::meld::possible_melds_spec;
use crate::meld::ryanmen_waits;
use crate::meld::shanpon_waits;
use crate::meld::spec_is_kanchan;
use crate::meld::spec_is_partial_meld;
use crate::meld::spec_is_penchan;
use crate::meld::spec_is_ryanmen;
use crate::meld::spec_is_shanpon;
use crate::meld::spec_kanchan_waits;
use crate::meld::spec_penchan_waits;
use crate::meld::spec_ryanmen_waits;
use crate::meld::spec_shanpon_waits;
use crate::meld::Meld;
use crate::tile::copy_tiles;
use crate::tile::count_of;
use crate::tile::count_tile;
use crate::tile::dedup_spec;
use crate::tile::dedup_tiles;
use crate::tile::has_tiles;
use crate::tile::ins_sorted;
use crate::tile::lemma_inserted_at;
use crate::tile::remove_all_spec;
use crate::tile::seq_contains_tile;
use crate::tile::seq_tile_le;
use crate::tile::sort_tiles;
use crate::tile::sort_tiles_spec;
use crate::tile::spec_has_tiles;
use crate::tile::tiles_le_exec;
use crate::tile::tiles_wf;
use crate::tile::with_tiles_removed;
use crate::tile::Tile;
use vstd::prelude::*;

verus! {

/// A candidate decomposition of the concealed hand.
#[derive(Debug)]
pub struct Division {
    /// The pair: empty (no pair yet, single-tile wait) or two equal tiles.
    pub pair: Vec<Tile>,
    /// The complete melds carved out of the concealed tiles.
    pub melds: Vec<Meld>,
    /// The leftover tiles not yet grouped: the wait shape.
    pub remaining: Vec<Tile>,
}

/// The mathematical value of a [`Division`].
pub ghost struct DivisionV {
    pub pair: Seq<Tile>,
    pub melds: Seq<Seq<Tile>>,
    pub remaining: Seq<Tile>,
}

impl View for Division {
    type V = DivisionV;

    open spec fn view(&self) -> DivisionV {
        DivisionV {
            pair: self.pair@,
            melds: melds_view(self.melds@),
            remaining: self.remaining@,
        }
    }
}

/// A division all of whose tiles are structurally valid.
pub open spec fn div_wf(d: DivisionV) -> bool {
    tiles_wf(d.pair) && melds_wf(d.melds) && tiles_wf(d.remaining)
}

/// The mathematical value of a list of divisions.
pub open spec fn divs_view(s: Seq<Division>) -> Seq<DivisionV> {
    Seq::new(s.len(), |i: int| s[i]@)
}

impl PartialEq for Division {
    fn eq(&self, other: &Division) -> (r: bool) {
        crate::tile::tiles_eq(&self.pair, &other.pair) && melds_eq(&self.melds, &other.melds)
            && crate::tile::tiles_eq(&self.remaining, &other.remaining)
    }
}

impl Eq for Division {

}

impl vstd::std_specs::cmp::PartialEqSpecImpl for Division {
    open spec fn obeys_eq_spec() -> bool {
        true
    }

    open spec fn eq_spec(&self, other: &Division) -> bool {
        self@ == other@
    }
}

/// Element-wise equality of two meld lists.
fn melds_eq(a: &Vec<Meld>, b: &Vec<Meld>) -> (r: bool)
    ensures
        r == (melds_view(a@) == melds_view(b@)),
{
    if a.len() != b.len() {
        proof {
            assert(melds_view(a@).len() != melds_view(b@).len());
        }
        return false;
    }
    let mut i: usize = 0;
    while i < a.len()
        invariant
            i <= a@.len(),
            a@.len() == b@.len(),
            forall|k: int| 0 <= k < i ==> #[trigger] a@[k]@ == b@[k]@,
        decreases a@.len() - i,
    {
        if !crate::tile::tiles_eq(&a[i], &b[i]) {
            proof {
                assert(melds_view(a@)[i as int] != melds_view(b@)[i as int]);
            }
            return false;
        }
        i = i + 1;
    }
    proof {
        assert(melds_view(a@) =~= melds_view(b@));
    }
    true
}

impl Clone for Division {
    /// A copy whose mathematical value equals the original's.
    fn clone(&self) -> (r: Division)
        ensures
            r@ == self@,
    {
        Division {
            pair: copy_tiles(&self.pair),
            melds: copy_melds(&self.melds),
            remaining: copy_tiles(&self.remaining),
        }
    }
}

/// All tiles of a division: the pair, the melds flattened, the leftover.
pub open spec fn div_tiles(d: DivisionV) -> Seq<Tile> {
    d.pair + flat(d.melds) + d.remaining
}

/// A meld list flattened to one tile sequence, in order.
pub open spec fn flat(ms: Seq<Seq<Tile>>) -> Seq<Tile>
    decreases ms.len(),
{
    if ms.len() == 0 {
        Seq::empty()
    } else {
        flat(ms.drop_last()) + ms.last()
    }
}

/// Flattens a meld list to one tile vector.
pub fn flat_tiles(melds: &Vec<Meld>) -> (r: Vec<Tile>)
    ensures
        r@ == flat(melds_view(melds@)),
        melds_wf(melds_view(melds@)) ==> tiles_wf(r@),
{
    let mut out: Vec<Tile> = Vec::new();
    let mut i: usize = 0;
    while i < melds.len()
        invariant
            i <= melds@.len(),
            out@ == flat(melds_view(melds@).take(i as int)),
            melds_wf(melds_view(melds@)) ==> tiles_wf(out@),
        decreases melds@.len() - i,
    {
        proof {
            assert(melds_view(melds@).take(i + 1).drop_last() =~= melds_view(melds@).take(i as int));
            assert(melds_view(melds@).take(i + 1).last() == melds@[i as int]@);
        }
        let mut part = copy_tiles(&melds[i]);
        out.append(&mut part);
        i = i + 1;
    }
    proof {
        assert(melds_view(melds@).take(melds@.len() as int) =~= melds_view(melds@));
    }
    out
}

/// The meld order as a first-class relation (lexicographic by tile).
pub open spec fn seq_le_fn() -> spec_fn(Seq<Tile>, Seq<Tile>) -> bool {
    |a: Seq<Tile>, b: Seq<Tile>| seq_tile_le(a, b)
}

/// The canonical (ascending) reordering of a meld list.
pub open spec fn sort_melds_spec(ms: Seq<Seq<Tile>>) -> Seq<Seq<Tile>> {
    ins_sorted(ms, seq_le_fn())
}

/// Finds the insertion position that `inserted` uses, scanning from the end.
fn meld_insert_pos(out: &Vec<Meld>, m: &Meld) -> (j: usize)
    ensures
        j <= out@.len(),
        forall|k: int|
            j <= k < out@.len() ==> !seq_le_fn()(#[trigger] melds_view(out@)[k], m@),
        j > 0 ==> seq_le_fn()(melds_view(out@)[j - 1], m@),
{
    let mut j: usize = out.len();
    let mut scanning = true;
    while scanning
        invariant
            j <= out@.len(),
            forall|k: int|
                j <= k < out@.len() ==> !seq_le_fn()(#[trigger] melds_view(out@)[k], m@),
            !scanning ==> (j == 0 || seq_le_fn()(melds_view(out@)[j - 1], m@)),
        decreases j + if scanning { 1int } else { 0int },
    {
        if j == 0 {
            scanning = false;
        } else if tiles_le_exec(&out[j - 1], m) {
            scanning = false;
        } else {
            j = j - 1;
        }
    }
    j
}

/// Sorts a meld list into the canonical ascending order.
pub fn sort_melds(melds: &Vec<Meld>) -> (r: Vec<Meld>)
    ensures
        melds_view(r@) == sort_melds_spec(melds_view(melds@)),
        melds_wf(melds_view(melds@)) ==> melds_wf(melds_view(r@)),
{
    let mut out: Vec<Meld> = Vec::new();
    let mut i: usize = 0;
    while i < melds.len()
        invariant
            i <= melds@.len(),
            melds_view(out@) == sort_melds_spec(melds_view(melds@).take(i as int)),
            melds_wf(melds_view(melds@)) ==> melds_wf(melds_view(out@)),
        decreases melds@.len() - i,
    {
        let m = copy_tiles(&melds[i]);
        let j = meld_insert_pos(&out, &m);
        proof {
            lemma_inserted_at(melds_view(out@), m@, seq_le_fn(), j as int);
            assert(melds_view(melds@).take(i + 1).drop_last() =~= melds_view(melds@).take(
                i as int,
            ));
            assert(melds_view(melds@).take(i + 1).last() == melds@[i as int]@);
        }
        let ghost oldv = melds_view(out@);
        out.insert(j, m);
        proof {
            assert(melds_view(out@) =~= oldv.subrange(0, j as int) + seq![melds@[i as int]@]
                + oldv.subrange(j as int, oldv.len() as int));
        }
        i = i + 1;
    }
    proof {
        assert(melds_view(melds@).take(melds@.len() as int) =~= melds_view(melds@));
    }
    out
}

/// The mathematical value of a list of meld combinations.
pub open spec fn combis_view(s: Seq<Vec<Meld>>) -> Seq<Seq<Seq<Tile>>> {
    Seq::new(s.len(), |i: int| melds_view(s[i]@))
}

/// Every combination-with-replacement of `n` melds drawn from `melds`, in
/// the order the pick-or-skip recursion produces them.  With no candidates
/// there is no combination at all, not even the empty one.
pub open spec fn combis_spec(n: nat, melds: Seq<Seq<Tile>>) -> Seq<Seq<Seq<Tile>>>
    decreases melds.len(), n,
{
    if melds.len() == 0 {
        Seq::empty()
    } else if n == 0 {
        seq![Seq::<Seq<Tile>>::empty()]
    } else {
        let skipped = combis_spec(n, melds.drop_first());
        let taken = combis_spec((n - 1) as nat, melds);
        skipped + taken.map_values(|c: Seq<Seq<Tile>>| c.push(melds.first()))
    }
}

fn combis_rec(n: u8, melds: &Vec<Meld>, start: usize) -> (r: Vec<Vec<Meld>>)
    requires
        start <= melds@.len(),
    ensures
        combis_view(r@) == combis_spec(n as nat, melds_view(melds@).skip(start as int)),
        melds_wf(melds_view(melds@)) ==> forall|i: int|
            0 <= i < r@.len() ==> melds_wf(melds_view(#[trigger] r@[i]@)),
    decreases melds@.len() - start, n,
{
    let ghost tail = melds_view(melds@).skip(start as int);
    if start == melds.len() {
        let r: Vec<Vec<Meld>> = Vec::new();
        proof {
            assert(combis_view(r@) =~= combis_spec(n as nat, tail));
        }
        return r;
    }
    if n == 0 {
        let mut r: Vec<Vec<Meld>> = Vec::new();
        let empty: Vec<Meld> = Vec::new();
        r.push(empty);
        proof {
            assert(melds_view(r@[0]@) =~= Seq::<Seq<Tile>>::empty());
            assert(combis_view(r@) =~= combis_spec(n as nat, tail));
        }
        return r;
    }
    proof {
        assert(tail.drop_first() =~= melds_view(melds@).skip(start + 1));
        assert(tail.first() == melds@[start as int]@);
    }
    let mut result = combis_rec(n, melds, start + 1);
    let sub = combis_rec(n - 1, melds, start);
    let ghost skipped = combis_view(result@);
    let ghost taken = combis_view(sub@);
    let ghost pushf = |c: Seq<Seq<Tile>>| c.push(tail.first());
    let mut k: usize = 0;
    while k < sub.len()
        invariant
            k <= sub@.len(),
            start < melds@.len(),
            tail == melds_view(melds@).skip(start as int),
            taken == combis_view(sub@),
            pushf == (|c: Seq<Seq<Tile>>| c.push(tail.first())),
            combis_view(result@) == skipped + taken.take(k as int).map_values(pushf),
            melds_wf(melds_view(melds@)) ==> forall|i: int|
                0 <= i < result@.len() ==> melds_wf(melds_view(#[trigger] result@[i]@)),
            melds_wf(melds_view(melds@)) ==> forall|i: int|
                0 <= i < sub@.len() ==> melds_wf(melds_view(#[trigger] sub@[i]@)),
        decreases sub@.len() - k,
    {
        let mut c = copy_melds(&sub[k]);
        c.push(copy_tiles(&melds[start]));
        proof {
            assert(melds_view(c@) =~= melds_view(sub@[k as int]@).push(tail.first()));
        }
        let ghost rv0 = combis_view(result@);
        result.push(c);
        proof {
            assert(combis_view(result@) =~= rv0.push(melds_view(c@)));
            assert(pushf(taken[k as int]) == melds_view(sub@[k as int]@).push(tail.first()));
            assert(melds_view(c@) == pushf(taken[k as int]));
            assert(taken.take(k + 1).map_values(pushf) =~= taken.take(k as int).map_values(
                pushf,
            ).push(pushf(taken[k as int])));
            assert((skipped + taken.take(k as int).map_values(pushf)).push(pushf(taken[k as int]))
                =~= skipped + taken.take(k as int).map_values(pushf).push(pushf(taken[k as int])));
            assert(combis_view(result@) == skipped + taken.take(k + 1).map_values(pushf));
        }
        k = k + 1;
    }
    proof {
        assert(taken.take(sub@.len() as int) =~= taken);
        assert(combis_view(result@) =~= combis_spec(n as nat, tail));
    }
    result
}

/// Every combination with replacement of `n` melds from the candidate list.
pub fn combis_with_rep(n: u8, melds: &Vec<Meld>) -> (r: Vec<Vec<Meld>>)
    ensures
        combis_view(r@) == combis_spec(n as nat, melds_view(melds@)),
        melds_wf(melds_view(melds@)) ==> forall|i: int|
            0 <= i < r@.len() ==> melds_wf(melds_view(#[trigger] r@[i]@)),
{
    proof {
        assert(melds_view(melds@).skip(0) =~= melds_view(melds@));
    }
    combis_rec(n, melds, 0)
}

/// The divisions a given meld combination list yields for one candidate
/// pair: combinations whose tiles are actually available, with the melds in
/// canonical order and the true leftover; a pairless combination whose
/// leftover is exactly two tiles is left to the paired branch.
pub open spec fn combo_divisions(
    combos: Seq<Seq<Seq<Tile>>>,
    pair: Seq<Tile>,
    remaining: Seq<Tile>,
) -> Seq<DivisionV>
    decreases combos.len(),
{
    if combos.len() == 0 {
        Seq::empty()
    } else {
        let rest = combo_divisions(combos.drop_last(), pair, remaining);
        let c = combos.last();
        let ct = flat(c);
        if spec_has_tiles(remaining, ct) {
            let left = remove_all_spec(remaining, ct);
            if pair.len() == 0 && left.len() == 2 {
                rest
            } else {
                rest.push(
                    DivisionV { pair, melds: sort_melds_spec(c), remaining: left },
                )
            }
        } else {
            rest
        }
    }
}

/// The divisions for one candidate pair: remove the pair; if fewer than
/// three tiles remain, one meldless division; otherwise one division per
/// valid combination of `remaining / 3` candidate melds.
pub open spec fn spec_divisions_for_pair(pair: Seq<Tile>, tiles: Seq<Tile>) -> Seq<DivisionV> {
    let remaining = remove_all_spec(tiles, pair);
    if remaining.len() < 3 {
        seq![DivisionV { pair, melds: Seq::empty(), remaining }]
    } else {
        let combos = combis_spec((remaining.len() / 3) as nat, possible_melds_spec(remaining));
        combo_divisions(combos, pair, remaining)
    }
}

#[verifier::rlimit(60)]
fn divisions_for_pair(pair: &Vec<Tile>, tiles: &Vec<Tile>) -> (r: Vec<Division>)
    requires
        tiles_wf(tiles@),
        tiles_wf(pair@),
        tiles@.len() <= 14,
    ensures
        divs_view(r@) == spec_divisions_for_pair(pair@, tiles@),
        forall|i: int| 0 <= i < r@.len() ==> div_wf(#[trigger] r@[i]@),
    decreases 0int,
{
    let mut results: Vec<Division> = Vec::new();
    let remaining = with_tiles_removed(tiles, pair);
    if remaining.len() < 3 {
        let d = Division { pair: copy_tiles(pair), melds: Vec::new(), remaining };
        proof {
            assert(melds_view(d.melds@) =~= Seq::<Seq<Tile>>::empty());
        }
        results.push(d);
        proof {
            assert(divs_view(results@) =~= spec_divisions_for_pair(pair@, tiles@));
        }
        return results;
    }
    proof {
        assert(remaining@.len() <= 14);
    }
    let n_melds = (remaining.len() / 3) as u8;
    let cands = possible_melds(&remaining);
    let combinations = combis_with_rep(n_melds, &cands);
    let ghost cv = combis_view(combinations@);
    proof {
        assert(melds_view(cands@) =~= possible_melds_spec(remaining@));
        assert(n_melds as nat == (remaining@.len() / 3) as nat);
    }
    let mut i: usize = 0;
    while i < combinations.len()
        invariant
            i <= combinations@.len(),
            cv == combis_view(combinations@),
            cv == combis_spec((remaining@.len() / 3) as nat, possible_melds_spec(remaining@)),
            remaining@ == remove_all_spec(tiles@, pair@),
            remaining@.len() >= 3,
            tiles_wf(remaining@),
            tiles_wf(pair@),
            forall|k: int|
                0 <= k < combinations@.len() ==> melds_wf(
                    melds_view(#[trigger] combinations@[k]@),
                ),
            divs_view(results@) == combo_divisions(cv.take(i as int), pair@, remaining@),
            forall|k: int| 0 <= k < results@.len() ==> div_wf(#[trigger] results@[k]@),
        decreases combinations@.len() - i,
    {
        proof {
            assert(cv.take(i + 1).drop_last() =~= cv.take(i as int));
            assert(cv.take(i + 1).last() == melds_view(combinations@[i as int]@));
        }
        let combi = &combinations[i];
        let combi_tiles = flat_tiles(combi);
        if has_tiles(&remaining, &combi_tiles) {
            let combi_remaining = with_tiles_removed(&remaining, &combi_tiles);
            if !(pair.len() == 0 && combi_remaining.len() == 2) {
                let sorted = sort_melds(combi);
                let d = Division {
                    pair: copy_tiles(pair),
                    melds: sorted,
                    remaining: combi_remaining,
                };
                results.push(d);
                proof {
                    assert(divs_view(results@) =~= combo_divisions(
                        cv.take(i + 1),
                        pair@,
                        remaining@,
                    ));
                }
            }
        }
        i = i + 1;
    }
    proof {
        assert(cv.take(combinations@.len() as int) =~= cv);
    }
    results
}

/// The candidate pairs drawn from the unique tiles of the hand, ascending,
/// preceded by the empty pair (the single-tile-wait case).
pub open spec fn pairs_from(uniq: Seq<Tile>, tiles: Seq<Tile>) -> Seq<Seq<Tile>>
    decreases uniq.len(),
{
    if uniq.len() == 0 {
        Seq::empty()
    } else {
        let rest = pairs_from(uniq.drop_last(), tiles);
        if count_of(tiles, uniq.last()) >= 2 {
            rest.push(seq![uniq.last(), uniq.last()])
        } else {
            rest
        }
    }
}

/// Every candidate pair of the hand: the empty pair, then each tile value
/// the hand holds at least twice, ascending.
pub open spec fn spec_candidate_pairs(tiles: Seq<Tile>) -> Seq<Seq<Tile>> {
    seq![Seq::<Tile>::empty()] + pairs_from(dedup_spec(sort_tiles_spec(tiles)), tiles)
}

/// The divisions of every candidate pair, in candidate-pair order.
pub open spec fn divide_rec(pairs: Seq<Seq<Tile>>, tiles: Seq<Tile>) -> Seq<DivisionV>
    decreases pairs.len(),
{
    if pairs.len() == 0 {
        Seq::empty()
    } else {
        divide_rec(pairs.drop_last(), tiles) + spec_divisions_for_pair(pairs.last(), tiles)
    }
}

/// Every combinatorially valid decomposition of the hand.
pub open spec fn spec_divide(tiles: Seq<Tile>) -> Seq<DivisionV> {
    divide_rec(spec_candidate_pairs(tiles), tiles)
}

/// Produces every combinatorially valid decomposition of the concealed hand
/// into a pair (or none), complete melds, and leftover tiles.
pub fn divide(tiles: &Vec<Tile>) -> (r: Vec<Division>)
    requires
        tiles_wf(tiles@),
        tiles@.len() <= 14,
    ensures
        divs_view(r@) == spec_divide(tiles@),
        forall|i: int| 0 <= i < r@.len() ==> div_wf(#[trigger] r@[i]@),
{
    let sorted = sort_tiles(tiles);
    let uniq = dedup_tiles(&sorted);

    let mut pairs: Vec<Vec<Tile>> = Vec::new();
    let empty_pair: Vec<Tile> = Vec::new();
    pairs.push(empty_pair);
    let mut k: usize = 0;
    while k < uniq.len()
        invariant
            k <= uniq@.len(),
            uniq@ == dedup_spec(sort_tiles_spec(tiles@)),
            tiles_wf(uniq@),
            pairs@.len() >= 1,
            Seq::new(pairs@.len(), |i: int| pairs@[i]@) == seq![Seq::<Tile>::empty()]
                + pairs_from(uniq@.take(k as int), tiles@),
            forall|i: int| 0 <= i < pairs@.len() ==> tiles_wf(#[trigger] pairs@[i]@),
        decreases uniq@.len() - k,
    {
        proof {
            assert(uniq@.take(k + 1).drop_last() =~= uniq@.take(k as int));
        }
        proof {
            assert(uniq@.take(k + 1).last() == uniq@[k as int]);
        }
        let ghost pv0 = Seq::new(pairs@.len(), |i: int| pairs@[i]@);
        if count_tile(tiles, uniq[k]) >= 2 {
            let p = vec![uniq[k], uniq[k]];
            proof {
                assert(p@ =~= seq![uniq@[k as int], uniq@[k as int]]);
            }
            pairs.push(p);
            proof {
                assert(Seq::new(pairs@.len(), |i: int| pairs@[i]@) =~= pv0.push(
                    seq![uniq@[k as int], uniq@[k as int]],
                ));
                assert(pv0.push(seq![uniq@[k as int], uniq@[k as int]]) =~= seq![
                    Seq::<Tile>::empty(),
                ] + pairs_from(uniq@.take(k + 1), tiles@));
            }
        } else {
            proof {
                assert(pairs_from(uniq@.take(k + 1), tiles@) == pairs_from(
                    uniq@.take(k as int),
                    tiles@,
                ));
            }
        }
        k = k + 1;
    }
    proof {
        assert(uniq@.take(uniq@.len() as int) =~= uniq@);
        assert(Seq::new(pairs@.len(), |i: int| pairs@[i]@) =~= spec_candidate_pairs(tiles@));
    }

    let ghost pv = Seq::new(pairs@.len(), |i: int| pairs@[i]@);
    let mut results: Vec<Division> = Vec::new();
    let mut p: usize = 0;
    while p < pairs.len()
        invariant
            p <= pairs@.len(),
            pv == Seq::new(pairs@.len(), |i: int| pairs@[i]@),
            pv == spec_candidate_pairs(tiles@),
            forall|i: int| 0 <= i < pairs@.len() ==> tiles_wf(#[trigger] pairs@[i]@),
            tiles_wf(tiles@),
            tiles@.len() <= 14,
            divs_view(results@) == divide_rec(pv.take(p as int), tiles@),
            forall|i: int| 0 <= i < results@.len() ==> div_wf(#[trigger] results@[i]@),
        decreases pairs@.len() - p,
    {
        proof {
            assert(pv.take(p + 1).drop_last() =~= pv.take(p as int));
            assert(pv.take(p + 1).last() == pairs@[p as int]@);
        }
        let ghost res0 = divs_view(results@);
        let mut part = divisions_for_pair(&pairs[p], tiles);
        let ghost partv = divs_view(part@);
        results.append(&mut part);
        proof {
            assert(divs_view(results@) =~= res0 + partv);
            assert(divs_view(results@) =~= divide_rec(pv.take(p + 1), tiles@));
        }
        p = p + 1;
    }
    proof {
        assert(pv.take(pairs@.len() as int) =~= pv);
    }
    results
}

/// The completion tiles of the wait shape, before the supply filter.
pub open spec fn raw_waits(d: DivisionV) -> Seq<Tile> {
    if d.pair.len() == 0 && d.remaining.len() == 1 {
        d.remaining
    } else if d.pair.len() == 2 && d.remaining.len() == 2 {
        if spec_is_ryanmen(d.remaining) {
            spec_ryanmen_waits(d.remaining)
        } else if spec_is_penchan(d.remaining) {
            spec_penchan_waits(d.remaining)
        } else if spec_is_kanchan(d.remaining) {
            spec_kanchan_waits(d.remaining)
        } else if spec_is_shanpon(d.remaining) {
            spec_shanpon_waits(d.remaining)
        } else {
            Seq::empty()
        }
    } else {
        Seq::empty()
    }
}

/// The waits whose tile still has a copy left to draw: fewer than four
/// copies held among the division's own tiles.
pub open spec fn filter_drawable(ws: Seq<Tile>, tiles: Seq<Tile>) -> Seq<Tile>
    decreases ws.len(),
{
    if ws.len() == 0 {
        ws
    } else {
        let rest = filter_drawable(ws.drop_last(), tiles);
        if count_of(tiles, ws.last()) < 4 {
            rest.push(ws.last())
        } else {
            rest
        }
    }
}

/// The wait set of a division: the completion tiles of its wait shape,
/// without any tile all four copies of which the division already holds.
pub open spec fn spec_waits(d: DivisionV) -> Seq<Tile> {
    filter_drawable(raw_waits(d), div_tiles(d))
}

/// One tile from completion: all four groups formed and a single-tile wait,
/// or three groups, a pair, and a two-tile partial meld.
pub open spec fn spec_is_tenpai(d: DivisionV, n_calls: int) -> bool {
    if d.pair.len() == 0 {
        d.melds.len() + n_calls == 4 && d.remaining.len() == 1
    } else if d.pair.len() == 2 {
        d.melds.len() + n_calls == 3 && spec_is_partial_meld(d.remaining)
    } else {
        false
    }
}

impl Division {
    /// All tiles the division holds, in order: pair, melds, leftover.
    fn tiles(&self) -> (r: Vec<Tile>)
        ensures
            r@ == div_tiles(self@),
            div_wf(self@) ==> tiles_wf(r@),
    {
        let mut out = copy_tiles(&self.pair);
        let mut mid = flat_tiles(&self.melds);
        out.append(&mut mid);
        let mut rest = copy_tiles(&self.remaining);
        out.append(&mut rest);
        out
    }

    /// The tiles on which this division completes the hand, minus any tile
    /// whose four copies the division already holds.
    pub fn waits(&self) -> (r: Vec<Tile>)
        requires
            div_wf(self@),
        ensures
            r@ == spec_waits(self@),
            tiles_wf(r@),
    {
        let mut ws: Vec<Tile> = Vec::new();
        if self.pair.len() == 0 && self.remaining.len() == 1 {
            ws.push(self.remaining[0]);
            proof {
                assert(ws@ =~= raw_waits(self@));
            }
        } else if self.pair.len() == 2 && self.remaining.len() == 2 {
            if is_ryanmen(&self.remaining) {
                ws = ryanmen_waits(&self.remaining);
            } else if is_penchan(&self.remaining) {
                ws = penchan_waits(&self.remaining);
            } else if is_kanchan(&self.remaining) {
                ws = kanchan_waits(&self.remaining);
            } else if is_shanpon(&self.remaining) {
                ws = shanpon_waits(&self.remaining);
            }
        }
        proof {
            assert(ws@ == raw_waits(self@));
        }
        let all = self.tiles();
        let mut out: Vec<Tile> = Vec::new();
        let mut i: usize = 0;
        while i < ws.len()
            invariant
                i <= ws@.len(),
                all@ == div_tiles(self@),
                tiles_wf(ws@),
                out@ == filter_drawable(ws@.take(i as int), div_tiles(self@)),
                tiles_wf(out@),
            decreases ws@.len() - i,
        {
            proof {
                assert(ws@.take(i + 1).drop_last() =~= ws@.take(i as int));
            }
            if count_tile(&all, ws[i]) < 4 {
                out.push(ws[i]);
            }
            i = i + 1;
        }
        proof {
            assert(ws@.take(ws@.len() as int) =~= ws@);
        }
        out
    }

    /// Whether the division is exactly one tile from completion, given how
    /// many calls the hand has exposed.
    pub fn is_tenpai(&self, n_calls: usize) -> (r: bool)
        requires
            div_wf(self@),
        ensures
            r == spec_is_tenpai(self@, n_calls as int),
    {
        let m = self.melds.len();
        if self.pair.len() == 0 {
            m <= 4 && n_calls <= 4 && m + n_calls == 4 && self.remaining.len() == 1
        } else if self.pair.len() == 2 {
            m <= 3 && n_calls <= 3 && m + n_calls == 3 && is_partial_meld(&self.remaining)
        } else {
            false
        }
    }

    /// Whether the division's wait set contains the winning tile.
    pub fn wins_on(&self, winning_tile: &Tile) -> (r: bool)
        requires
            div_wf(self@),
        ensures
            r == seq_contains_tile(spec_waits(self@), *winning_tile),
    {
        let ws = self.waits();
        crate::tile::contains_tile(&ws, *winning_tile)
    }
}

} // verus!
