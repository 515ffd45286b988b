//! Helpers that join a division's groups with the melds of the exposed
//! calls.

use crate::division::div_wf;
use crate::division::flat;
use crate::division::Division;
use crate::meld::copy_melds;
use crate::meld::melds_view;
use crate::meld::melds_wf;
use crate::meld::spec_call_meld;
use crate::tile::copy_tiles;
use crate::tile::tiles_wf;
use crate::tile::Tile;
use crate::types::calls_wf;
use crate::types::Call;
use vstd::prelude::*;

verus! {

/// The melds of the exposed calls, in call order.
pub open spec fn calls_melds(calls: Seq<Call>) -> Seq<Seq<Tile>>
    decreases calls.len(),
{
    if calls.len() == 0 {
        Seq::empty()
    } else {
        calls_melds(calls.drop_last()).push(spec_call_meld(calls.last()))
    }
}

/// Builds the meld list of the exposed calls.
pub fn call_melds(calls: &Vec<Call>) -> (r: Vec<Vec<Tile>>)
    requires
        calls_wf(calls@),
    ensures
        melds_view(r@) == calls_melds(calls@),
        melds_wf(melds_view(r@)),
{
    let mut out: Vec<Vec<Tile>> = Vec::new();
    let mut i: usize = 0;
    while i < calls.len()
        invariant
            i <= calls@.len(),
            calls_wf(calls@),
            melds_view(out@) == calls_melds(calls@.take(i as int)),
            melds_wf(melds_view(out@)),
        decreases calls@.len() - i,
    {
        proof {
            assert(calls@.take(i + 1).drop_last() =~= calls@.take(i as int));
        }
        let m = calls[i].meld();
        out.push(m);
        proof {
            assert(melds_view(out@) =~= calls_melds(calls@.take(i + 1)));
        }
        i = i + 1;
    }
    proof {
        assert(calls@.take(calls@.len() as int) =~= calls@);
    }
    out
}

/// The division's melds followed by the melds of the calls.
pub open spec fn spec_combine_melds(d: crate::division::DivisionV, calls: Seq<Call>) -> Seq<
    Seq<Tile>,
> {
    d.melds + calls_melds(calls)
}

/// Joins the division's melds with the melds of the calls.
pub fn combine_melds(division: &Division, calls: &Vec<Call>) -> (r: Vec<Vec<Tile>>)
    requires
        calls_wf(calls@),
    ensures
        melds_view(r@) == spec_combine_melds(division@, calls@),
        div_wf(division@) ==> melds_wf(melds_view(r@)),
{
    let mut out = copy_melds(&division.melds);
    let mut cm = call_melds(calls);
    let ghost a = melds_view(out@);
    let ghost b = melds_view(cm@);
    out.append(&mut cm);
    proof {
        assert(melds_view(out@) =~= a + b);
    }
    out
}

/// The combined melds followed by the division's pair.
pub open spec fn spec_combine_melds_with_pair(
    d: crate::division::DivisionV,
    calls: Seq<Call>,
) -> Seq<Seq<Tile>> {
    spec_combine_melds(d, calls).push(d.pair)
}

/// Joins the division's melds, the calls' melds, and the pair.
pub fn combine_melds_with_pair(division: &Division, calls: &Vec<Call>) -> (r: Vec<Vec<Tile>>)
    requires
        calls_wf(calls@),
    ensures
        melds_view(r@) == spec_combine_melds_with_pair(division@, calls@),
        div_wf(division@) ==> melds_wf(melds_view(r@)),
{
    let mut out = combine_melds(division, calls);
    out.push(copy_tiles(&division.pair));
    proof {
        assert(melds_view(out@) =~= spec_combine_melds_with_pair(division@, calls@));
    }
    out
}

/// Every tile of the division and of the calls, in order: pair, division
/// melds, leftover, call melds.
pub open spec fn spec_flatten_tiles(d: crate::division::DivisionV, calls: Seq<Call>) -> Seq<
    Tile,
> {
    d.pair + flat(d.melds) + d.remaining + flat(calls_melds(calls))
}

/// Flattens the division's tiles and the calls' tiles into one list.
pub fn flatten_tiles(division: &Division, calls: &Vec<Call>) -> (r: Vec<Tile>)
    requires
        calls_wf(calls@),
    ensures
        r@ == spec_flatten_tiles(division@, calls@),
        div_wf(division@) ==> tiles_wf(r@),
{
    let mut out = copy_tiles(&division.pair);
    let mut mid = crate::division::flat_tiles(&division.melds);
    out.append(&mut mid);
    let mut rem = copy_tiles(&division.remaining);
    out.append(&mut rem);
    let cm = call_melds(calls);
    let mut called = crate::division::flat_tiles(&cm);
    out.append(&mut called);
    out
}

} // verus!
