//! The table-driven detector for named scoring patterns (yaku and yakuman):
//! each pattern's han values, its predicate over the augmented decomposition,
//! and the supersession filter.

use crate::division::div_wf;
use crate::division::Division;
use crate::division::DivisionV;
use crate::meld::is_sequence;
use crate::meld::is_triplet;
use crate::meld::melds_view;
use crate::meld::melds_wf;
use crate::meld::sequence_of;
use crate::meld::spec_is_quadruplet;
use crate::meld::spec_is_sequence;
use crate::meld::spec_is_triplet;
use crate::meld::spec_no_open_calls;
use crate::meld::no_open_calls;
use crate::tile::count_of;
use crate::tile::count_tile;
use crate::tile::copy_tiles;
use crate::tile::sort_tiles;
use crate::tile::sort_tiles_spec;
use crate::tile::tiles_eq;
use crate::tile::tiles_wf;
use crate::tile::seq_contains_tile;
use crate::tile::Suit;
use crate::tile::Tile;
use crate::types::calls_wf;
use crate::types::Call;
use crate::types::CallType;
use crate::types::HandContext;
use crate::types::HandContextV;
use crate::types::Yaku;
use crate::types::Yakuman;
use crate::utils::combine_melds;
use crate::utils::flatten_tiles;
use crate::utils::spec_combine_melds;
use crate::utils::spec_combine_melds_with_pair;
use crate::utils::spec_flatten_tiles;
use vstd::prelude::*;

verus! {

// ---------------------------------------------------------------------------
// The pattern table: han values and supersession sets.
// ---------------------------------------------------------------------------

/// The yaku whose han values and predicate the table defines: all but the
/// three bonus-tile markers, which are scored straight from the context.
pub open spec fn yaku_in_table(y: Yaku) -> bool {
    y != Yaku::Dora && y != Yaku::Akadora && y != Yaku::Uradora
}

/// The yakuman whose predicate the table defines.
pub open spec fn yakuman_in_table(y: Yakuman) -> bool {
    y != Yakuman::KazoeYakuman && y != Yakuman::NagashiMangan
}

/// Han value of a yaku when the hand is fully concealed.
pub open spec fn spec_yaku_han_closed(y: Yaku) -> u8 {
    match y {
        Yaku::DoubleRiichi | Yaku::Chantaiyao | Yaku::SanshokuDoujun | Yaku::Sankantsu
        | Yaku::Ittsu | Yaku::Toitoi | Yaku::Sanankou | Yaku::SanshokuDoukou | Yaku::Chiitoitsu
        | Yaku::Honroutou | Yaku::Shousangen => 2,
        Yaku::Ryanpeikou | Yaku::Honitsu | Yaku::JunchanTaiyao => 3,
        Yaku::Chinitsu => 6,
        _ => 1,
    }
}

/// Han value of a yaku when a call is exposed; zero means closed-hand only.
pub open spec fn spec_yaku_han_open(y: Yaku) -> u8 {
    match y {
        Yaku::MenzenTsumo | Yaku::Riichi | Yaku::Ippatsu | Yaku::Pinfu | Yaku::Iipeikou
        | Yaku::DoubleRiichi | Yaku::Chiitoitsu | Yaku::Ryanpeikou => 0,
        Yaku::Toitoi | Yaku::Sanankou | Yaku::SanshokuDoukou | Yaku::Sankantsu
        | Yaku::Honroutou | Yaku::Shousangen => 2,
        Yaku::Honitsu | Yaku::JunchanTaiyao => 2,
        Yaku::Chinitsu => 5,
        Yaku::Chantaiyao | Yaku::SanshokuDoujun | Yaku::Ittsu => 1,
        _ => 1,
    }
}

/// The lesser yaku a pattern supersedes when both match at once.
pub open spec fn spec_yaku_supercedes(y: Yaku) -> Seq<Yaku> {
    match y {
        Yaku::Chiitoitsu => seq![Yaku::Toitoi],
        Yaku::Honroutou => seq![Yaku::Chantaiyao],
        Yaku::Ryanpeikou => seq![Yaku::Iipeikou],
        Yaku::JunchanTaiyao => seq![Yaku::Honroutou, Yaku::Chantaiyao, Yaku::Toitoi],
        Yaku::Chinitsu => seq![Yaku::Honitsu, Yaku::JunchanTaiyao],
        _ => Seq::empty(),
    }
}

/// The lesser yakuman a pattern supersedes when both match at once.
pub open spec fn spec_yakuman_supercedes(y: Yakuman) -> Seq<Yakuman> {
    match y {
        Yakuman::Daisuushii => seq![Yakuman::Shousuushii],
        _ => Seq::empty(),
    }
}

impl Yaku {
    /// Han value when the hand is fully concealed.
    pub fn han_closed(&self) -> (r: u8)
        requires
            yaku_in_table(*self),
        ensures
            r == spec_yaku_han_closed(*self),
    {
        match self {
            Yaku::DoubleRiichi | Yaku::Chantaiyao | Yaku::SanshokuDoujun | Yaku::Sankantsu
            | Yaku::Ittsu | Yaku::Toitoi | Yaku::Sanankou | Yaku::SanshokuDoukou
            | Yaku::Chiitoitsu | Yaku::Honroutou | Yaku::Shousangen => 2,
            Yaku::Ryanpeikou | Yaku::Honitsu | Yaku::JunchanTaiyao => 3,
            Yaku::Chinitsu => 6,
            _ => 1,
        }
    }

    /// Han value when a call is exposed; zero means closed-hand only.
    pub fn han_open(&self) -> (r: u8)
        requires
            yaku_in_table(*self),
        ensures
            r == spec_yaku_han_open(*self),
    {
        match self {
            Yaku::MenzenTsumo | Yaku::Riichi | Yaku::Ippatsu | Yaku::Pinfu | Yaku::Iipeikou
            | Yaku::DoubleRiichi | Yaku::Chiitoitsu | Yaku::Ryanpeikou => 0,
            Yaku::Toitoi | Yaku::Sanankou | Yaku::SanshokuDoukou | Yaku::Sankantsu
            | Yaku::Honroutou | Yaku::Shousangen => 2,
            Yaku::Honitsu | Yaku::JunchanTaiyao => 2,
            Yaku::Chinitsu => 5,
            Yaku::Chantaiyao | Yaku::SanshokuDoujun | Yaku::Ittsu => 1,
            _ => 1,
        }
    }

    /// Whether the yaku is one of the four wind patterns.
    pub fn is_wind(&self) -> (r: bool)
        ensures
            r == (*self == Yaku::Ton || *self == Yaku::Nan || *self == Yaku::Sha || *self
                == Yaku::Pei),
    {
        *self == Yaku::Ton || *self == Yaku::Nan || *self == Yaku::Sha || *self == Yaku::Pei
    }

    /// The lesser yaku this one supersedes.
    pub fn supercedes(&self) -> (r: Vec<Yaku>)
        ensures
            r@ == spec_yaku_supercedes(*self),
    {
        let r: Vec<Yaku> = match self {
            Yaku::Chiitoitsu => vec![Yaku::Toitoi],
            Yaku::Honroutou => vec![Yaku::Chantaiyao],
            Yaku::Ryanpeikou => vec![Yaku::Iipeikou],
            Yaku::JunchanTaiyao => vec![Yaku::Honroutou, Yaku::Chantaiyao, Yaku::Toitoi],
            Yaku::Chinitsu => vec![Yaku::Honitsu, Yaku::JunchanTaiyao],
            _ => Vec::new(),
        };
        proof {
            assert(r@ =~= spec_yaku_supercedes(*self));
        }
        r
    }
}

impl Yakuman {
    /// Han value when the hand is fully concealed.
    pub fn han_closed(&self) -> (r: u8)
        requires
            yakuman_in_table(*self),
        ensures
            r == 13,
    {
        13
    }

    /// Han value when a call is exposed.
    pub fn han_open(&self) -> (r: u8)
        requires
            yakuman_in_table(*self),
        ensures
            r == 13,
    {
        13
    }

    /// The lesser yakuman this one supersedes.
    pub fn supercedes(&self) -> (r: Vec<Yakuman>)
        ensures
            r@ == spec_yakuman_supercedes(*self),
    {
        let r: Vec<Yakuman> = match self {
            Yakuman::Daisuushii => vec![Yakuman::Shousuushii],
            _ => Vec::new(),
        };
        proof {
            assert(r@ =~= spec_yakuman_supercedes(*self));
        }
        r
    }
}

/// The yaku the detector evaluates, in evaluation order: every table yaku
/// but pinfu, which the fu calculation decides.
pub open spec fn yaku_to_check_spec() -> Seq<Yaku> {
    seq![
        Yaku::MenzenTsumo,
        Yaku::Riichi,
        Yaku::Ippatsu,
        Yaku::Iipeikou,
        Yaku::HaiteiRaoyue,
        Yaku::HouteiRaoyui,
        Yaku::RinshanKaihou,
        Yaku::Chankan,
        Yaku::Tanyao,
        Yaku::Ton,
        Yaku::Nan,
        Yaku::Sha,
        Yaku::Pei,
        Yaku::Haku,
        Yaku::Hatsu,
        Yaku::Chun,
        Yaku::DoubleRiichi,
        Yaku::Chantaiyao,
        Yaku::SanshokuDoujun,
        Yaku::Sankantsu,
        Yaku::Ittsu,
        Yaku::Toitoi,
        Yaku::Sanankou,
        Yaku::SanshokuDoukou,
        Yaku::Chiitoitsu,
        Yaku::Honroutou,
        Yaku::Shousangen,
        Yaku::Ryanpeikou,
        Yaku::Honitsu,
        Yaku::JunchanTaiyao,
        Yaku::Chinitsu,
    ]
}

/// The yakuman the detector evaluates, in evaluation order.
pub open spec fn yakuman_to_check_spec() -> Seq<Yakuman> {
    seq![
        Yakuman::KokushiMusou,
        Yakuman::Suuankou,
        Yakuman::Daisangen,
        Yakuman::Shousuushii,
        Yakuman::Daisuushii,
        Yakuman::Tsuuiisou,
        Yakuman::Chinroutou,
        Yakuman::Ryuuiisou,
        Yakuman::ChuurenPoutou,
        Yakuman::Suukantsu,
        Yakuman::Tenhou,
        Yakuman::Chiihou,
    ]
}

fn yaku_to_check() -> (r: Vec<Yaku>)
    ensures
        r@ == yaku_to_check_spec(),
        forall|i: int|
            0 <= i < r@.len() ==> yaku_in_table(#[trigger] r@[i]) && r@[i] != Yaku::Pinfu,
{
    let r = vec![
        Yaku::MenzenTsumo,
        Yaku::Riichi,
        Yaku::Ippatsu,
        Yaku::Iipeikou,
        Yaku::HaiteiRaoyue,
        Yaku::HouteiRaoyui,
        Yaku::RinshanKaihou,
        Yaku::Chankan,
        Yaku::Tanyao,
        Yaku::Ton,
        Yaku::Nan,
        Yaku::Sha,
        Yaku::Pei,
        Yaku::Haku,
        Yaku::Hatsu,
        Yaku::Chun,
        Yaku::DoubleRiichi,
        Yaku::Chantaiyao,
        Yaku::SanshokuDoujun,
        Yaku::Sankantsu,
        Yaku::Ittsu,
        Yaku::Toitoi,
        Yaku::Sanankou,
        Yaku::SanshokuDoukou,
        Yaku::Chiitoitsu,
        Yaku::Honroutou,
        Yaku::Shousangen,
        Yaku::Ryanpeikou,
        Yaku::Honitsu,
        Yaku::JunchanTaiyao,
        Yaku::Chinitsu,
    ];
    proof {
        assert(r@ =~= yaku_to_check_spec());
    }
    r
}

fn yakuman_to_check() -> (r: Vec<Yakuman>)
    ensures
        r@ == yakuman_to_check_spec(),
        forall|i: int| 0 <= i < r@.len() ==> yakuman_in_table(#[trigger] r@[i]),
{
    let r = vec![
        Yakuman::KokushiMusou,
        Yakuman::Suuankou,
        Yakuman::Daisangen,
        Yakuman::Shousuushii,
        Yakuman::Daisuushii,
        Yakuman::Tsuuiisou,
        Yakuman::Chinroutou,
        Yakuman::Ryuuiisou,
        Yakuman::ChuurenPoutou,
        Yakuman::Suukantsu,
        Yakuman::Tenhou,
        Yakuman::Chiihou,
    ];
    proof {
        assert(r@ =~= yakuman_to_check_spec());
    }
    r
}

// ---------------------------------------------------------------------------
// Small helpers over meld lists.
// ---------------------------------------------------------------------------

/// How many melds of `ms` equal `m`.
pub open spec fn count_melds(ms: Seq<Seq<Tile>>, m: Seq<Tile>) -> nat
    decreases ms.len(),
{
    if ms.len() == 0 {
        0
    } else {
        count_melds(ms.drop_last(), m) + if ms.last() == m {
            1nat
        } else {
            0nat
        }
    }
}

/// Whether some meld of `ms` equals `m`.
pub open spec fn contains_meld(ms: Seq<Seq<Tile>>, m: Seq<Tile>) -> bool {
    exists|i: int| 0 <= i < ms.len() && ms[i] == m
}

fn count_equal_melds(melds: &Vec<Vec<Tile>>, m: &Vec<Tile>) -> (n: usize)
    ensures
        n == count_melds(melds_view(melds@), m@),
{
    let ghost ms = melds_view(melds@);
    let mut n: usize = 0;
    let mut i: usize = 0;
    while i < melds.len()
        invariant
            i <= melds@.len(),
            ms == melds_view(melds@),
            n <= i,
            n == count_melds(ms.take(i as int), m@),
        decreases melds@.len() - i,
    {
        proof {
            assert(ms.take(i + 1).drop_last() =~= ms.take(i as int));
            assert(ms.take(i + 1).last() == melds@[i as int]@);
        }
        if tiles_eq(&melds[i], m) {
            n = n + 1;
        }
        i = i + 1;
    }
    proof {
        assert(ms.take(ms.len() as int) =~= ms);
    }
    n
}

fn melds_contain(melds: &Vec<Vec<Tile>>, m: &Vec<Tile>) -> (r: bool)
    ensures
        r == contains_meld(melds_view(melds@), m@),
{
    let ghost ms = melds_view(melds@);
    let mut i: usize = 0;
    while i < melds.len()
        invariant
            i <= melds@.len(),
            ms == melds_view(melds@),
            forall|k: int| 0 <= k < i ==> ms[k] != m@,
        decreases melds@.len() - i,
    {
        if tiles_eq(&melds[i], m) {
            proof {
                assert(ms[i as int] == m@);
            }
            return true;
        }
        i = i + 1;
    }
    false
}

/// How many calls are quads.
pub open spec fn spec_kan_count(calls: Seq<Call>) -> nat
    decreases calls.len(),
{
    if calls.len() == 0 {
        0
    } else {
        spec_kan_count(calls.drop_last()) + if calls.last().ctype == CallType::Minkan
            || calls.last().ctype == CallType::Ankan {
            1nat
        } else {
            0nat
        }
    }
}

fn kan_count(calls: &Vec<Call>) -> (n: usize)
    ensures
        n == spec_kan_count(calls@),
{
    let mut n: usize = 0;
    let mut i: usize = 0;
    while i < calls.len()
        invariant
            i <= calls@.len(),
            n <= i,
            n == spec_kan_count(calls@.take(i as int)),
        decreases calls@.len() - i,
    {
        proof {
            assert(calls@.take(i + 1).drop_last() =~= calls@.take(i as int));
        }
        if calls[i].ctype == CallType::Minkan || calls[i].ctype == CallType::Ankan {
            n = n + 1;
        }
        i = i + 1;
    }
    proof {
        assert(calls@.take(calls@.len() as int) =~= calls@);
    }
    n
}

/// How many calls are concealed quads.
pub open spec fn spec_ankan_count(calls: Seq<Call>) -> nat
    decreases calls.len(),
{
    if calls.len() == 0 {
        0
    } else {
        spec_ankan_count(calls.drop_last()) + if calls.last().ctype == CallType::Ankan {
            1nat
        } else {
            0nat
        }
    }
}

fn ankan_count(calls: &Vec<Call>) -> (n: usize)
    ensures
        n == spec_ankan_count(calls@),
{
    let mut n: usize = 0;
    let mut i: usize = 0;
    while i < calls.len()
        invariant
            i <= calls@.len(),
            n <= i,
            n == spec_ankan_count(calls@.take(i as int)),
        decreases calls@.len() - i,
    {
        proof {
            assert(calls@.take(i + 1).drop_last() =~= calls@.take(i as int));
        }
        if calls[i].ctype == CallType::Ankan {
            n = n + 1;
        }
        i = i + 1;
    }
    proof {
        assert(calls@.take(calls@.len() as int) =~= calls@);
    }
    n
}

/// How many melds of the division are triplets.
pub open spec fn spec_triplet_count(ms: Seq<Seq<Tile>>) -> nat
    decreases ms.len(),
{
    if ms.len() == 0 {
        0
    } else {
        spec_triplet_count(ms.drop_last()) + if spec_is_triplet(ms.last()) {
            1nat
        } else {
            0nat
        }
    }
}

fn triplet_count(melds: &Vec<Vec<Tile>>) -> (n: usize)
    ensures
        n == spec_triplet_count(melds_view(melds@)),
{
    let ghost ms = melds_view(melds@);
    let mut n: usize = 0;
    let mut i: usize = 0;
    while i < melds.len()
        invariant
            i <= melds@.len(),
            ms == melds_view(melds@),
            n <= i,
            n == spec_triplet_count(ms.take(i as int)),
        decreases melds@.len() - i,
    {
        proof {
            assert(ms.take(i + 1).drop_last() =~= ms.take(i as int));
            assert(ms.take(i + 1).last() == melds@[i as int]@);
        }
        if is_triplet(&melds[i]) {
            n = n + 1;
        }
        i = i + 1;
    }
    proof {
        assert(ms.take(ms.len() as int) =~= ms);
    }
    n
}

/// Whether a triplet meld of the division equals the winning meld: the group
/// the winning tile completed, which a discard win makes open.
pub open spec fn spec_has_ronned_triplet(ms: Seq<Seq<Tile>>, winning_meld: Seq<Tile>) -> bool {
    exists|i: int| 0 <= i < ms.len() && spec_is_triplet(#[trigger] ms[i]) && ms[i] == winning_meld
}

fn has_ronned_triplet(melds: &Vec<Vec<Tile>>, winning_meld: &Vec<Tile>) -> (r: bool)
    ensures
        r == spec_has_ronned_triplet(melds_view(melds@), winning_meld@),
{
    let ghost ms = melds_view(melds@);
    let mut i: usize = 0;
    while i < melds.len()
        invariant
            i <= melds@.len(),
            ms == melds_view(melds@),
            forall|k: int|
                0 <= k < i ==> !(spec_is_triplet(#[trigger] ms[k]) && ms[k] == winning_meld@),
        decreases melds@.len() - i,
    {
        if is_triplet(&melds[i]) && tiles_eq(&melds[i], winning_meld) {
            proof {
                assert(spec_is_triplet(ms[i as int]) && ms[i as int] == winning_meld@);
            }
            return true;
        }
        i = i + 1;
    }
    false
}

// ---------------------------------------------------------------------------
// Context-dependent (composition-independent) yaku.
// ---------------------------------------------------------------------------

/// Self-draw win with a fully concealed hand.
pub open spec fn spec_has_menzen_tsumo(calls: Seq<Call>, ctx: HandContextV) -> bool {
    spec_no_open_calls(calls) && ctx.is_tsumo
}

pub fn has_menzen_tsumo(_division: &Division, calls: &Vec<Call>, context: &HandContext) -> (r:
    bool)
    ensures
        r == spec_has_menzen_tsumo(calls@, context@),
{
    no_open_calls(calls) && context.is_tsumo
}

/// Riichi declared, hand concealed.
pub open spec fn spec_has_riichi(calls: Seq<Call>, ctx: HandContextV) -> bool {
    spec_no_open_calls(calls) && ctx.is_riichi
}

pub fn has_riichi(_division: &Division, calls: &Vec<Call>, context: &HandContext) -> (r: bool)
    ensures
        r == spec_has_riichi(calls@, context@),
{
    no_open_calls(calls) && context.is_riichi
}

/// Win within one uninterrupted turn of declaring riichi.
pub open spec fn spec_has_ippatsu(calls: Seq<Call>, ctx: HandContextV) -> bool {
    spec_no_open_calls(calls) && ctx.is_ippatsu
}

pub fn has_ippatsu(_division: &Division, calls: &Vec<Call>, context: &HandContext) -> (r: bool)
    ensures
        r == spec_has_ippatsu(calls@, context@),
{
    no_open_calls(calls) && context.is_ippatsu
}

/// Win on the last drawable tile.
pub fn has_haitei(_division: &Division, _calls: &Vec<Call>, context: &HandContext) -> (r: bool)
    ensures
        r == context@.is_haitei,
{
    context.is_haitei
}

/// Win on the last discard.
pub fn has_houtei(_division: &Division, _calls: &Vec<Call>, context: &HandContext) -> (r: bool)
    ensures
        r == context@.is_houtei,
{
    context.is_houtei
}

/// Win on the replacement tile after a quad.
pub fn has_rinshan(_division: &Division, _calls: &Vec<Call>, context: &HandContext) -> (r: bool)
    ensures
        r == context@.is_rinshan,
{
    context.is_rinshan
}

/// Win by robbing a quad.
pub fn has_chankan(_division: &Division, _calls: &Vec<Call>, context: &HandContext) -> (r: bool)
    ensures
        r == context@.is_chankan,
{
    context.is_chankan
}

/// Riichi declared on the first discard, hand concealed.
pub open spec fn spec_has_double_riichi(calls: Seq<Call>, ctx: HandContextV) -> bool {
    spec_no_open_calls(calls) && ctx.is_double_riichi
}

pub fn has_double_riichi(_division: &Division, calls: &Vec<Call>, context: &HandContext) -> (r:
    bool)
    ensures
        r == spec_has_double_riichi(calls@, context@),
{
    no_open_calls(calls) && context.is_double_riichi
}

/// Dealer's win on the very first draw.
pub fn has_tenhou(_division: &Division, _calls: &Vec<Call>, context: &HandContext) -> (r: bool)
    ensures
        r == context@.is_tenhou,
{
    context.is_tenhou
}

/// Non-dealer's win on the first uninterrupted draw.
pub fn has_chiihou(_division: &Division, _calls: &Vec<Call>, context: &HandContext) -> (r: bool)
    ensures
        r == context@.is_chiihou,
{
    context.is_chiihou
}

// ---------------------------------------------------------------------------
// Composition-dependent yaku.
// ---------------------------------------------------------------------------

/// A concealed hand holding the same sequence twice.
pub open spec fn spec_has_iipeikou(d: DivisionV, calls: Seq<Call>) -> bool {
    let ms = spec_combine_melds(d, calls);
    spec_no_open_calls(calls) && exists|i: int|
        0 <= i < ms.len() && spec_is_sequence(#[trigger] ms[i]) && count_melds(ms, ms[i]) >= 2
}

pub fn has_iipeikou(division: &Division, calls: &Vec<Call>, _context: &HandContext) -> (r: bool)
    requires
        div_wf(division@),
        calls_wf(calls@),
    ensures
        r == spec_has_iipeikou(division@, calls@),
{
    if !no_open_calls(calls) {
        return false;
    }
    let melds = combine_melds(division, calls);
    let ghost ms = melds_view(melds@);
    let mut i: usize = 0;
    while i < melds.len()
        invariant
            i <= melds@.len(),
            ms == melds_view(melds@),
            ms == spec_combine_melds(division@, calls@),
            spec_no_open_calls(calls@),
            melds_wf(ms),
            forall|k: int|
                0 <= k < i ==> !(spec_is_sequence(#[trigger] ms[k]) && count_melds(ms, ms[k])
                    >= 2),
        decreases melds@.len() - i,
    {
        proof {
            assert(tiles_wf(ms[i as int]));
        }
        if is_sequence(&melds[i]) {
            if count_equal_melds(&melds, &melds[i]) >= 2 {
                proof {
                    assert(spec_is_sequence(ms[i as int]) && count_melds(ms, ms[i as int]) >= 2);
                }
                return true;
            }
        }
        i = i + 1;
    }
    false
}

/// Every tile a simple: numbered, neither 1 nor 9.
pub open spec fn spec_has_tanyao(d: DivisionV, calls: Seq<Call>) -> bool {
    let ts = spec_flatten_tiles(d, calls);
    forall|i: int| 0 <= i < ts.len() ==> (#[trigger] ts[i]).spec_is_simple()
}

pub fn has_tanyao(division: &Division, calls: &Vec<Call>, _context: &HandContext) -> (r: bool)
    requires
        calls_wf(calls@),
    ensures
        r == spec_has_tanyao(division@, calls@),
{
    let ts = flatten_tiles(division, calls);
    let mut i: usize = 0;
    while i < ts.len()
        invariant
            i <= ts@.len(),
            ts@ == spec_flatten_tiles(division@, calls@),
            forall|k: int| 0 <= k < i ==> (#[trigger] ts@[k]).spec_is_simple(),
        decreases ts@.len() - i,
    {
        if !ts[i].is_simple() {
            return false;
        }
        i = i + 1;
    }
    true
}

/// A group of the given tile is held (the first tile of a meld determines
/// identical groups).
pub open spec fn spec_has_tile_group(ms: Seq<Seq<Tile>>, t: Tile) -> bool {
    exists|i: int| 0 <= i < ms.len() && (#[trigger] ms[i]).len() > 0 && ms[i][0] == t
}

fn has_tile_group(melds: &Vec<Vec<Tile>>, t: Tile) -> (r: bool)
    ensures
        r == spec_has_tile_group(melds_view(melds@), t),
{
    let ghost ms = melds_view(melds@);
    let mut i: usize = 0;
    while i < melds.len()
        invariant
            i <= melds@.len(),
            ms == melds_view(melds@),
            forall|k: int| 0 <= k < i ==> !((#[trigger] ms[k]).len() > 0 && ms[k][0] == t),
        decreases melds@.len() - i,
    {
        if melds[i].len() > 0 {
            if melds[i][0] == t {
                proof {
                    assert(ms[i as int].len() > 0 && ms[i as int][0] == t);
                }
                return true;
            }
        }
        i = i + 1;
    }
    false
}

/// A wind group whose wind is the round wind or the seat wind.
pub open spec fn spec_has_wind(wind: Tile, d: DivisionV, calls: Seq<Call>, ctx: HandContextV) ->
    bool {
    (wind == ctx.round_wind || wind == ctx.player_wind) && spec_has_tile_group(
        spec_combine_melds(d, calls),
        wind,
    )
}

pub fn has_wind(wind: Tile, division: &Division, calls: &Vec<Call>, context: &HandContext) -> (r:
    bool)
    requires
        calls_wf(calls@),
    ensures
        r == spec_has_wind(wind, division@, calls@, context@),
{
    if !(wind == context.round_wind || wind == context.player_wind) {
        return false;
    }
    let melds = combine_melds(division, calls);
    has_tile_group(&melds, wind)
}

/// A group of the first wind, which is the round or seat wind.
pub fn has_ton(division: &Division, calls: &Vec<Call>, context: &HandContext) -> (r: bool)
    requires
        calls_wf(calls@),
    ensures
        r == spec_has_wind(Tile { suit: Suit::Hon, number: 1 }, division@, calls@, context@),
{
    has_wind(Tile { suit: Suit::Hon, number: 1 }, division, calls, context)
}

/// A group of the second wind, which is the round or seat wind.
pub fn has_nan(division: &Division, calls: &Vec<Call>, context: &HandContext) -> (r: bool)
    requires
        calls_wf(calls@),
    ensures
        r == spec_has_wind(Tile { suit: Suit::Hon, number: 2 }, division@, calls@, context@),
{
    has_wind(Tile { suit: Suit::Hon, number: 2 }, division, calls, context)
}

/// A group of the third wind, which is the round or seat wind.
pub fn has_sha(division: &Division, calls: &Vec<Call>, context: &HandContext) -> (r: bool)
    requires
        calls_wf(calls@),
    ensures
        r == spec_has_wind(Tile { suit: Suit::Hon, number: 3 }, division@, calls@, context@),
{
    has_wind(Tile { suit: Suit::Hon, number: 3 }, division, calls, context)
}

/// A group of the fourth wind, which is the round or seat wind.
pub fn has_pei(division: &Division, calls: &Vec<Call>, context: &HandContext) -> (r: bool)
    requires
        calls_wf(calls@),
    ensures
        r == spec_has_wind(Tile { suit: Suit::Hon, number: 4 }, division@, calls@, context@),
{
    has_wind(Tile { suit: Suit::Hon, number: 4 }, division, calls, context)
}

/// A group of the given dragon is held.
pub open spec fn spec_has_colour(colour: Tile, d: DivisionV, calls: Seq<Call>) -> bool {
    spec_has_tile_group(spec_combine_melds(d, calls), colour)
}

fn has_colour(colour: Tile, division: &Division, calls: &Vec<Call>) -> (r: bool)
    requires
        calls_wf(calls@),
    ensures
        r == spec_has_colour(colour, division@, calls@),
{
    let melds = combine_melds(division, calls);
    has_tile_group(&melds, colour)
}

/// A group of the white dragon.
pub fn has_haku(division: &Division, calls: &Vec<Call>, _context: &HandContext) -> (r: bool)
    requires
        calls_wf(calls@),
    ensures
        r == spec_has_colour(Tile { suit: Suit::Hon, number: 5 }, division@, calls@),
{
    has_colour(Tile { suit: Suit::Hon, number: 5 }, division, calls)
}

/// A group of the green dragon.
pub fn has_hatsu(division: &Division, calls: &Vec<Call>, _context: &HandContext) -> (r: bool)
    requires
        calls_wf(calls@),
    ensures
        r == spec_has_colour(Tile { suit: Suit::Hon, number: 6 }, division@, calls@),
{
    has_colour(Tile { suit: Suit::Hon, number: 6 }, division, calls)
}

/// A group of the red dragon.
pub fn has_chun(division: &Division, calls: &Vec<Call>, _context: &HandContext) -> (r: bool)
    requires
        calls_wf(calls@),
    ensures
        r == spec_has_colour(Tile { suit: Suit::Hon, number: 7 }, division@, calls@),
{
    has_colour(Tile { suit: Suit::Hon, number: 7 }, division, calls)
}

/// The group holds a terminal or honour tile.
pub open spec fn meld_has_th(m: Seq<Tile>) -> bool {
    exists|k: int| 0 <= k < m.len() && ((#[trigger] m[k]).spec_is_terminal() || m[k].spec_is_honour())
}

fn meld_has_terminal_or_honour(m: &Vec<Tile>) -> (r: bool)
    ensures
        r == meld_has_th(m@),
{
    let mut k: usize = 0;
    while k < m.len()
        invariant
            k <= m@.len(),
            forall|j: int|
                0 <= j < k ==> !((#[trigger] m@[j]).spec_is_terminal() || m@[j].spec_is_honour()),
        decreases m@.len() - k,
    {
        if m[k].is_terminal() || m[k].is_honour() {
            return true;
        }
        k = k + 1;
    }
    false
}

/// Every group (pair included) holds a terminal or honour tile.
pub open spec fn spec_has_chanta(d: DivisionV, calls: Seq<Call>) -> bool {
    let ms = spec_combine_melds_with_pair(d, calls);
    forall|i: int| 0 <= i < ms.len() ==> meld_has_th(#[trigger] ms[i])
}

pub fn has_chanta(division: &Division, calls: &Vec<Call>, _context: &HandContext) -> (r: bool)
    requires
        calls_wf(calls@),
    ensures
        r == spec_has_chanta(division@, calls@),
{
    let melds = crate::utils::combine_melds_with_pair(division, calls);
    let ghost ms = melds_view(melds@);
    let mut i: usize = 0;
    while i < melds.len()
        invariant
            i <= melds@.len(),
            ms == melds_view(melds@),
            ms == spec_combine_melds_with_pair(division@, calls@),
            forall|kk: int| 0 <= kk < i ==> meld_has_th(#[trigger] ms[kk]),
        decreases melds@.len() - i,
    {
        proof {
            assert(ms[i as int] == melds@[i as int]@);
        }
        if !meld_has_terminal_or_honour(&melds[i]) {
            proof {
                assert(!meld_has_th(ms[i as int]));
            }
            return false;
        }
        i = i + 1;
    }
    true
}

/// The same sequence held in all three numbered suits.
pub open spec fn spec_has_sanshoku_doujun(d: DivisionV, calls: Seq<Call>) -> bool {
    let ms = spec_combine_melds(d, calls);
    exists|n: u8|
        1 <= n <= 7 && contains_meld(ms, sequence_of(Tile { suit: Suit::Man, number: n }))
            && contains_meld(ms, sequence_of(Tile { suit: Suit::Pin, number: n }))
            && contains_meld(
            ms,
            #[trigger] sequence_of(Tile { suit: Suit::Sou, number: n }),
        )
}

pub fn has_sanshoku_doujun(division: &Division, calls: &Vec<Call>, _context: &HandContext) -> (r:
    bool)
    requires
        calls_wf(calls@),
    ensures
        r == spec_has_sanshoku_doujun(division@, calls@),
{
    let melds = combine_melds(division, calls);
    let ghost ms = melds_view(melds@);
    let mut n: u8 = 1;
    while n <= 7
        invariant
            1 <= n <= 8,
            ms == melds_view(melds@),
            ms == spec_combine_melds(division@, calls@),
            forall|v: u8|
                1 <= v < n ==> !(contains_meld(ms, sequence_of(Tile { suit: Suit::Man, number: v }))
                    && contains_meld(ms, sequence_of(Tile { suit: Suit::Pin, number: v }))
                    && contains_meld(
                    ms,
                    #[trigger] sequence_of(Tile { suit: Suit::Sou, number: v }),
                )),
        decreases 8 - n,
    {
        let man = vec![
            Tile { suit: Suit::Man, number: n },
            Tile { suit: Suit::Man, number: n + 1 },
            Tile { suit: Suit::Man, number: n + 2 },
        ];
        let pin = vec![
            Tile { suit: Suit::Pin, number: n },
            Tile { suit: Suit::Pin, number: n + 1 },
            Tile { suit: Suit::Pin, number: n + 2 },
        ];
        let sou = vec![
            Tile { suit: Suit::Sou, number: n },
            Tile { suit: Suit::Sou, number: n + 1 },
            Tile { suit: Suit::Sou, number: n + 2 },
        ];
        proof {
            assert(man@ =~= sequence_of(Tile { suit: Suit::Man, number: n }));
            assert(pin@ =~= sequence_of(Tile { suit: Suit::Pin, number: n }));
            assert(sou@ =~= sequence_of(Tile { suit: Suit::Sou, number: n }));
        }
        if melds_contain(&melds, &man) && melds_contain(&melds, &pin) && melds_contain(
            &melds,
            &sou,
        ) {
            return true;
        }
        n = n + 1;
    }
    false
}

/// Three quads called.
pub open spec fn spec_has_sankantsu(calls: Seq<Call>) -> bool {
    spec_kan_count(calls) == 3
}

pub fn has_sankantsu(_division: &Division, calls: &Vec<Call>, _context: &HandContext) -> (r: bool)
    ensures
        r == spec_has_sankantsu(calls@),
{
    kan_count(calls) == 3
}

/// The three sequences 1-2-3, 4-5-6, 7-8-9 of one suit.
pub open spec fn spec_has_ittsu(d: DivisionV, calls: Seq<Call>) -> bool {
    let ms = spec_combine_melds(d, calls);
    exists|s: Suit|
        (s == Suit::Man || s == Suit::Pin || s == Suit::Sou) && contains_meld(
            ms,
            sequence_of(Tile { suit: s, number: 1 }),
        ) && contains_meld(ms, sequence_of(Tile { suit: s, number: 4 })) && contains_meld(
            ms,
            #[trigger] sequence_of(Tile { suit: s, number: 7 }),
        )
}

pub fn has_ittsu(division: &Division, calls: &Vec<Call>, _context: &HandContext) -> (r: bool)
    requires
        calls_wf(calls@),
    ensures
        r == spec_has_ittsu(division@, calls@),
{
    let melds = combine_melds(division, calls);
    let ghost ms = melds_view(melds@);
    let suits = vec![Suit::Man, Suit::Pin, Suit::Sou];
    let mut si: usize = 0;
    while si < suits.len()
        invariant
            si <= suits@.len(),
            ms == melds_view(melds@),
            ms == spec_combine_melds(division@, calls@),
            suits@ =~= seq![Suit::Man, Suit::Pin, Suit::Sou],
            forall|k: int|
                0 <= k < si ==> !(contains_meld(
                    ms,
                    sequence_of(Tile { suit: suits@[k], number: 1 }),
                ) && contains_meld(ms, sequence_of(Tile { suit: suits@[k], number: 4 }))
                    && contains_meld(
                    ms,
                    #[trigger] sequence_of(Tile { suit: suits@[k], number: 7 }),
                )),
        decreases suits@.len() - si,
    {
        let s = suits[si];
        let low = vec![
            Tile { suit: s, number: 1 },
            Tile { suit: s, number: 2 },
            Tile { suit: s, number: 3 },
        ];
        let mid = vec![
            Tile { suit: s, number: 4 },
            Tile { suit: s, number: 5 },
            Tile { suit: s, number: 6 },
        ];
        let high = vec![
            Tile { suit: s, number: 7 },
            Tile { suit: s, number: 8 },
            Tile { suit: s, number: 9 },
        ];
        proof {
            assert(low@ =~= sequence_of(Tile { suit: s, number: 1 }));
            assert(mid@ =~= sequence_of(Tile { suit: s, number: 4 }));
            assert(high@ =~= sequence_of(Tile { suit: s, number: 7 }));
        }
        if melds_contain(&melds, &low) && melds_contain(&melds, &mid) && melds_contain(
            &melds,
            &high,
        ) {
            return true;
        }
        si = si + 1;
    }
    proof {
        assert forall|s: Suit| (s == Suit::Man || s == Suit::Pin || s == Suit::Sou) implies !(
        contains_meld(ms, sequence_of(Tile { suit: s, number: 1 })) && contains_meld(
            ms,
            sequence_of(Tile { suit: s, number: 4 }),
        ) && contains_meld(ms, sequence_of(Tile { suit: s, number: 7 }))) by {
            assert(s == suits@[0] || s == suits@[1] || s == suits@[2]);
        }
    }
    false
}

/// No sequence anywhere: every group a triplet or quad.
pub open spec fn spec_has_toitoi(d: DivisionV, calls: Seq<Call>) -> bool {
    let ms = spec_combine_melds(d, calls);
    forall|i: int| 0 <= i < ms.len() ==> !spec_is_sequence(#[trigger] ms[i])
}

pub fn has_toitoi(division: &Division, calls: &Vec<Call>, _context: &HandContext) -> (r: bool)
    requires
        div_wf(division@),
        calls_wf(calls@),
    ensures
        r == spec_has_toitoi(division@, calls@),
{
    let melds = combine_melds(division, calls);
    let ghost ms = melds_view(melds@);
    let mut i: usize = 0;
    while i < melds.len()
        invariant
            i <= melds@.len(),
            ms == melds_view(melds@),
            ms == spec_combine_melds(division@, calls@),
            melds_wf(ms),
            forall|k: int| 0 <= k < i ==> !spec_is_sequence(#[trigger] ms[k]),
        decreases melds@.len() - i,
    {
        proof {
            assert(tiles_wf(ms[i as int]));
        }
        if is_sequence(&melds[i]) {
            return false;
        }
        i = i + 1;
    }
    true
}

/// Three concealed triplets or quads; a triplet the discard win completed
/// does not count as concealed.
pub open spec fn spec_has_sanankou(d: DivisionV, calls: Seq<Call>, ctx: HandContextV) -> bool {
    let count = spec_ankan_count(calls) + spec_triplet_count(d.melds);
    if count <= 2 {
        false
    } else if count == 3 {
        ctx.is_tsumo || !spec_has_ronned_triplet(d.melds, ctx.winning_meld)
    } else {
        true
    }
}

pub fn has_sanankou(division: &Division, calls: &Vec<Call>, context: &HandContext) -> (r: bool)
    ensures
        r == spec_has_sanankou(division@, calls@, context@),
{
    let quads = ankan_count(calls);
    let triplets = triplet_count(&division.melds);
    // A sum capped at five classifies exactly like the true sum: the only
    // cases that matter are at most two, exactly three, and four or more.
    let count: usize = if quads >= 5 || triplets >= 5 {
        5
    } else {
        quads + triplets
    };
    if count <= 2 {
        false
    } else if count == 3 {
        context.is_tsumo || !has_ronned_triplet(&division.melds, &context.winning_meld)
    } else {
        true
    }
}

proof fn lemma_ankan_count_le(calls: Seq<Call>)
    ensures
        spec_ankan_count(calls) <= calls.len(),
    decreases calls.len(),
{
    if calls.len() > 0 {
        lemma_ankan_count_le(calls.drop_last());
    }
}

proof fn lemma_triplet_count_le(ms: Seq<Seq<Tile>>)
    ensures
        spec_triplet_count(ms) <= ms.len(),
    decreases ms.len(),
{
    if ms.len() > 0 {
        lemma_triplet_count_le(ms.drop_last());
    }
}

/// The quadruple meld of tile `t`.
pub open spec fn quad_of(t: Tile) -> Seq<Tile> {
    seq![t, t, t, t]
}

/// The same triplet (or quad) held in all three numbered suits.
pub open spec fn spec_has_sanshoku_doukou(d: DivisionV, calls: Seq<Call>) -> bool {
    let ms = spec_combine_melds(d, calls);
    exists|n: u8| 1 <= n <= 9 && #[trigger] sanshoku_doukou_at(ms, n)
}

/// Each numbered suit holds the triplet or quad of rank `n`.
pub open spec fn sanshoku_doukou_at(ms: Seq<Seq<Tile>>, n: u8) -> bool {
    (contains_meld(ms, crate::meld::triplet_of(Tile { suit: Suit::Man, number: n }))
        || contains_meld(ms, quad_of(Tile { suit: Suit::Man, number: n }))) && (contains_meld(
        ms,
        crate::meld::triplet_of(Tile { suit: Suit::Pin, number: n }),
    ) || contains_meld(ms, quad_of(Tile { suit: Suit::Pin, number: n }))) && (contains_meld(
        ms,
        crate::meld::triplet_of(Tile { suit: Suit::Sou, number: n }),
    ) || contains_meld(ms, quad_of(Tile { suit: Suit::Sou, number: n })))
}

pub fn has_sanshoku_doukou(division: &Division, calls: &Vec<Call>, _context: &HandContext) -> (r:
    bool)
    requires
        calls_wf(calls@),
    ensures
        r == spec_has_sanshoku_doukou(division@, calls@),
{
    let melds = combine_melds(division, calls);
    let ghost ms = melds_view(melds@);
    let mut n: u8 = 1;
    while n <= 9
        invariant
            1 <= n <= 10,
            ms == melds_view(melds@),
            ms == spec_combine_melds(division@, calls@),
            forall|v: u8| 1 <= v < n ==> !(#[trigger] sanshoku_doukou_at(ms, v)),
        decreases 10 - n,
    {
        let mut all = true;
        let suits = vec![Suit::Man, Suit::Pin, Suit::Sou];
        let mut si: usize = 0;
        while si < suits.len()
            invariant
                si <= suits@.len(),
                ms == melds_view(melds@),
                suits@ =~= seq![Suit::Man, Suit::Pin, Suit::Sou],
                all == forall|k: int|
                    0 <= k < si ==> (contains_meld(
                        ms,
                        crate::meld::triplet_of(Tile { suit: suits@[k], number: n }),
                    ) || contains_meld(
                        ms,
                        #[trigger] quad_of(Tile { suit: suits@[k], number: n }),
                    )),
            decreases suits@.len() - si,
        {
            let s = suits[si];
            let trip = vec![
                Tile { suit: s, number: n },
                Tile { suit: s, number: n },
                Tile { suit: s, number: n },
            ];
            let quad = vec![
                Tile { suit: s, number: n },
                Tile { suit: s, number: n },
                Tile { suit: s, number: n },
                Tile { suit: s, number: n },
            ];
            proof {
                assert(trip@ =~= crate::meld::triplet_of(Tile { suit: s, number: n }));
                assert(quad@ =~= quad_of(Tile { suit: s, number: n }));
            }
            if !(melds_contain(&melds, &trip) || melds_contain(&melds, &quad)) {
                all = false;
            }
            si = si + 1;
        }
        if all {
            proof {
                assert(sanshoku_doukou_at(ms, n)) by {
                    assert(suits@[0] == Suit::Man && suits@[1] == Suit::Pin && suits@[2]
                        == Suit::Sou);
                }
            }
            return true;
        }
        proof {
            if sanshoku_doukou_at(ms, n) {
                assert(suits@[0] == Suit::Man && suits@[1] == Suit::Pin && suits@[2] == Suit::Sou);
                assert(false);
            }
        }
        n = n + 1;
    }
    false
}

/// Seven distinct pairs: fourteen leftover tiles, each held exactly twice.
pub open spec fn spec_has_chiitoi(d: DivisionV) -> bool {
    d.remaining.len() == 14 && forall|i: int|
        0 <= i < d.remaining.len() ==> count_of(d.remaining, #[trigger] d.remaining[i]) == 2
}

pub fn has_chiitoi(division: &Division, _calls: &Vec<Call>, _context: &HandContext) -> (r: bool)
    ensures
        r == spec_has_chiitoi(division@),
{
    if division.remaining.len() != 14 {
        return false;
    }
    let mut i: usize = 0;
    while i < division.remaining.len()
        invariant
            i <= division.remaining@.len(),
            forall|k: int|
                0 <= k < i ==> count_of(division@.remaining, #[trigger] division@.remaining[k])
                    == 2,
        decreases division.remaining@.len() - i,
    {
        if count_tile(&division.remaining, division.remaining[i]) != 2 {
            return false;
        }
        i = i + 1;
    }
    true
}

/// Every tile a terminal or honour.
pub open spec fn spec_has_honroutou(d: DivisionV, calls: Seq<Call>) -> bool {
    let ts = spec_flatten_tiles(d, calls);
    forall|i: int|
        0 <= i < ts.len() ==> ((#[trigger] ts[i]).spec_is_terminal() || ts[i].spec_is_honour())
}

pub fn has_honroutou(division: &Division, calls: &Vec<Call>, _context: &HandContext) -> (r: bool)
    requires
        calls_wf(calls@),
    ensures
        r == spec_has_honroutou(division@, calls@),
{
    let ts = flatten_tiles(division, calls);
    let mut i: usize = 0;
    while i < ts.len()
        invariant
            i <= ts@.len(),
            ts@ == spec_flatten_tiles(division@, calls@),
            forall|k: int|
                0 <= k < i ==> ((#[trigger] ts@[k]).spec_is_terminal() || ts@[k].spec_is_honour()),
        decreases ts@.len() - i,
    {
        if !(ts[i].is_terminal() || ts[i].is_honour()) {
            return false;
        }
        i = i + 1;
    }
    true
}

/// How many groups are dragon triplets or quads.
pub open spec fn spec_colour_group_count(ms: Seq<Seq<Tile>>) -> nat
    decreases ms.len(),
{
    if ms.len() == 0 {
        0
    } else {
        spec_colour_group_count(ms.drop_last()) + if (spec_is_triplet(ms.last())
            || spec_is_quadruplet(ms.last())) && ms.last()[0].spec_is_colour() {
            1nat
        } else {
            0nat
        }
    }
}

/// Two dragon groups and the pair of the third dragon.
pub open spec fn spec_has_shousangen(d: DivisionV, calls: Seq<Call>) -> bool {
    spec_colour_group_count(spec_combine_melds(d, calls)) == 2 && d.pair.len() >= 1
        && d.pair[0].spec_is_colour()
}

pub fn has_shousangen(division: &Division, calls: &Vec<Call>, _context: &HandContext) -> (r: bool)
    requires
        calls_wf(calls@),
    ensures
        r == spec_has_shousangen(division@, calls@),
{
    let melds = combine_melds(division, calls);
    let ghost ms = melds_view(melds@);
    let mut n: usize = 0;
    let mut i: usize = 0;
    while i < melds.len()
        invariant
            i <= melds@.len(),
            ms == melds_view(melds@),
            ms == spec_combine_melds(division@, calls@),
            n <= i,
            n == spec_colour_group_count(ms.take(i as int)),
        decreases melds@.len() - i,
    {
        proof {
            assert(ms.take(i + 1).drop_last() =~= ms.take(i as int));
            assert(ms.take(i + 1).last() == melds@[i as int]@);
        }
        let m = &melds[i];
        if (is_triplet(m) || crate::meld::is_quadruplet(m)) && m[0].is_colour() {
            n = n + 1;
        }
        i = i + 1;
    }
    proof {
        assert(ms.take(ms.len() as int) =~= ms);
    }
    n == 2 && division.pair.len() >= 1 && division.pair[0].is_colour()
}

/// How many melds are sequences held two or four times over.
pub open spec fn spec_paired_run_count(ms: Seq<Seq<Tile>>, all: Seq<Seq<Tile>>) -> nat
    decreases ms.len(),
{
    if ms.len() == 0 {
        0
    } else {
        spec_paired_run_count(ms.drop_last(), all) + if spec_is_sequence(ms.last()) && (count_melds(
            all,
            ms.last(),
        ) == 2 || count_melds(all, ms.last()) == 4) {
            1nat
        } else {
            0nat
        }
    }
}

/// Two distinct sequences, each held twice (a doubled double-run).
pub open spec fn spec_has_ryanpeikou(d: DivisionV, calls: Seq<Call>) -> bool {
    let ms = spec_combine_melds(d, calls);
    spec_paired_run_count(ms, ms) == 4
}

pub fn has_ryanpeikou(division: &Division, calls: &Vec<Call>, _context: &HandContext) -> (r: bool)
    requires
        div_wf(division@),
        calls_wf(calls@),
    ensures
        r == spec_has_ryanpeikou(division@, calls@),
{
    let melds = combine_melds(division, calls);
    let ghost ms = melds_view(melds@);
    let mut n: usize = 0;
    let mut i: usize = 0;
    while i < melds.len()
        invariant
            i <= melds@.len(),
            ms == melds_view(melds@),
            ms == spec_combine_melds(division@, calls@),
            melds_wf(ms),
            n <= i,
            n == spec_paired_run_count(ms.take(i as int), ms),
        decreases melds@.len() - i,
    {
        proof {
            assert(ms.take(i + 1).drop_last() =~= ms.take(i as int));
            assert(ms.take(i + 1).last() == melds@[i as int]@);
            assert(tiles_wf(ms[i as int]));
        }
        if is_sequence(&melds[i]) {
            let c = count_equal_melds(&melds, &melds[i]);
            if c == 2 || c == 4 {
                n = n + 1;
            }
        }
        i = i + 1;
    }
    proof {
        assert(ms.take(ms.len() as int) =~= ms);
    }
    n == 4
}

/// Every tile an honour or of the one given numbered suit.
pub open spec fn all_honour_or_suit(ts: Seq<Tile>, s: Suit) -> bool {
    forall|i: int| 0 <= i < ts.len() ==> ((#[trigger] ts[i]).spec_is_honour() || ts[i].suit == s)
}

fn check_honour_or_suit(ts: &Vec<Tile>, s: Suit) -> (r: bool)
    ensures
        r == all_honour_or_suit(ts@, s),
{
    let mut i: usize = 0;
    while i < ts.len()
        invariant
            i <= ts@.len(),
            forall|k: int| 0 <= k < i ==> ((#[trigger] ts@[k]).spec_is_honour() || ts@[k].suit
                == s),
        decreases ts@.len() - i,
    {
        if !(ts[i].is_honour() || ts[i].suit == s) {
            return false;
        }
        i = i + 1;
    }
    true
}

/// One numbered suit plus honours only.
pub open spec fn spec_has_honitsu(d: DivisionV, calls: Seq<Call>) -> bool {
    let ts = spec_flatten_tiles(d, calls);
    all_honour_or_suit(ts, Suit::Man) || all_honour_or_suit(ts, Suit::Pin) || all_honour_or_suit(
        ts,
        Suit::Sou,
    )
}

pub fn has_honitsu(division: &Division, calls: &Vec<Call>, _context: &HandContext) -> (r: bool)
    requires
        calls_wf(calls@),
    ensures
        r == spec_has_honitsu(division@, calls@),
{
    let ts = flatten_tiles(division, calls);
    check_honour_or_suit(&ts, Suit::Man) || check_honour_or_suit(&ts, Suit::Pin)
        || check_honour_or_suit(&ts, Suit::Sou)
}

/// The group holds a terminal tile.
pub open spec fn meld_has_terminal(m: Seq<Tile>) -> bool {
    exists|k: int| 0 <= k < m.len() && (#[trigger] m[k]).spec_is_terminal()
}

fn meld_has_terminal_exec(m: &Vec<Tile>) -> (r: bool)
    ensures
        r == meld_has_terminal(m@),
{
    let mut k: usize = 0;
    while k < m.len()
        invariant
            k <= m@.len(),
            forall|j: int| 0 <= j < k ==> !(#[trigger] m@[j]).spec_is_terminal(),
        decreases m@.len() - k,
    {
        if m[k].is_terminal() {
            return true;
        }
        k = k + 1;
    }
    false
}

/// Every group (pair included) holds a terminal tile.
pub open spec fn spec_has_junchan(d: DivisionV, calls: Seq<Call>) -> bool {
    let ms = spec_combine_melds_with_pair(d, calls);
    forall|i: int| 0 <= i < ms.len() ==> meld_has_terminal(#[trigger] ms[i])
}

pub fn has_junchan(division: &Division, calls: &Vec<Call>, _context: &HandContext) -> (r: bool)
    requires
        calls_wf(calls@),
    ensures
        r == spec_has_junchan(division@, calls@),
{
    let melds = crate::utils::combine_melds_with_pair(division, calls);
    let ghost ms = melds_view(melds@);
    let mut i: usize = 0;
    while i < melds.len()
        invariant
            i <= melds@.len(),
            ms == melds_view(melds@),
            ms == spec_combine_melds_with_pair(division@, calls@),
            forall|kk: int| 0 <= kk < i ==> meld_has_terminal(#[trigger] ms[kk]),
        decreases melds@.len() - i,
    {
        proof {
            assert(ms[i as int] == melds@[i as int]@);
        }
        if !meld_has_terminal_exec(&melds[i]) {
            proof {
                assert(!meld_has_terminal(ms[i as int]));
            }
            return false;
        }
        i = i + 1;
    }
    true
}

/// Every tile of one numbered suit.
pub open spec fn all_of_suit(ts: Seq<Tile>, s: Suit) -> bool {
    forall|i: int| 0 <= i < ts.len() ==> (#[trigger] ts[i]).suit == s
}

fn check_all_of_suit(ts: &Vec<Tile>, s: Suit) -> (r: bool)
    ensures
        r == all_of_suit(ts@, s),
{
    let mut i: usize = 0;
    while i < ts.len()
        invariant
            i <= ts@.len(),
            forall|k: int| 0 <= k < i ==> (#[trigger] ts@[k]).suit == s,
        decreases ts@.len() - i,
    {
        if !(ts[i].suit == s) {
            return false;
        }
        i = i + 1;
    }
    true
}

/// One numbered suit only, no honours.
pub open spec fn spec_has_chinitsu(d: DivisionV, calls: Seq<Call>) -> bool {
    let ts = spec_flatten_tiles(d, calls);
    all_of_suit(ts, Suit::Man) || all_of_suit(ts, Suit::Pin) || all_of_suit(ts, Suit::Sou)
}

pub fn has_chinitsu(division: &Division, calls: &Vec<Call>, _context: &HandContext) -> (r: bool)
    requires
        calls_wf(calls@),
    ensures
        r == spec_has_chinitsu(division@, calls@),
{
    let ts = flatten_tiles(division, calls);
    check_all_of_suit(&ts, Suit::Man) || check_all_of_suit(&ts, Suit::Pin) || check_all_of_suit(
        &ts,
        Suit::Sou,
    )
}

// ---------------------------------------------------------------------------
// Yakuman predicates.
// ---------------------------------------------------------------------------

/// One of the thirteen terminal and honour tiles.
pub open spec fn spec_is_kokushi_tile(t: Tile) -> bool {
    (t.spec_is_number() && (t.number == 1 || t.number == 9)) || (t.spec_is_honour() && 1
        <= t.number <= 7)
}

/// The thirteen terminal and honour tiles, ascending.
pub open spec fn kokushi_tiles_spec() -> Seq<Tile> {
    seq![
        Tile { suit: Suit::Man, number: 1 },
        Tile { suit: Suit::Man, number: 9 },
        Tile { suit: Suit::Pin, number: 1 },
        Tile { suit: Suit::Pin, number: 9 },
        Tile { suit: Suit::Sou, number: 1 },
        Tile { suit: Suit::Sou, number: 9 },
        Tile { suit: Suit::Hon, number: 1 },
        Tile { suit: Suit::Hon, number: 2 },
        Tile { suit: Suit::Hon, number: 3 },
        Tile { suit: Suit::Hon, number: 4 },
        Tile { suit: Suit::Hon, number: 5 },
        Tile { suit: Suit::Hon, number: 6 },
        Tile { suit: Suit::Hon, number: 7 },
    ]
}

fn kokushi_tiles() -> (r: Vec<Tile>)
    ensures
        r@ == kokushi_tiles_spec(),
{
    let r = vec![
        Tile { suit: Suit::Man, number: 1 },
        Tile { suit: Suit::Man, number: 9 },
        Tile { suit: Suit::Pin, number: 1 },
        Tile { suit: Suit::Pin, number: 9 },
        Tile { suit: Suit::Sou, number: 1 },
        Tile { suit: Suit::Sou, number: 9 },
        Tile { suit: Suit::Hon, number: 1 },
        Tile { suit: Suit::Hon, number: 2 },
        Tile { suit: Suit::Hon, number: 3 },
        Tile { suit: Suit::Hon, number: 4 },
        Tile { suit: Suit::Hon, number: 5 },
        Tile { suit: Suit::Hon, number: 6 },
        Tile { suit: Suit::Hon, number: 7 },
    ];
    proof {
        assert(r@ =~= kokushi_tiles_spec());
    }
    r
}

/// Each of the thirteen is a terminal or honour.
pub proof fn lemma_kokushi_all_kok()
    ensures
        forall|j: int| 0 <= j < 13 ==> spec_is_kokushi_tile(#[trigger] kokushi_tiles_spec()[j]),
{
    let ks = kokushi_tiles_spec();
    assert forall|j: int| 0 <= j < 13 implies spec_is_kokushi_tile(#[trigger] ks[j]) by {
        if j == 0 {
            assert(spec_is_kokushi_tile(ks[0]));
        } else if j == 1 {
            assert(spec_is_kokushi_tile(ks[1]));
        } else if j == 2 {
            assert(spec_is_kokushi_tile(ks[2]));
        } else if j == 3 {
            assert(spec_is_kokushi_tile(ks[3]));
        } else if j == 4 {
            assert(spec_is_kokushi_tile(ks[4]));
        } else if j == 5 {
            assert(spec_is_kokushi_tile(ks[5]));
        } else if j == 6 {
            assert(spec_is_kokushi_tile(ks[6]));
        } else if j == 7 {
            assert(spec_is_kokushi_tile(ks[7]));
        } else if j == 8 {
            assert(spec_is_kokushi_tile(ks[8]));
        } else if j == 9 {
            assert(spec_is_kokushi_tile(ks[9]));
        } else if j == 10 {
            assert(spec_is_kokushi_tile(ks[10]));
        } else if j == 11 {
            assert(spec_is_kokushi_tile(ks[11]));
        } else {
            assert(spec_is_kokushi_tile(ks[12]));
        }
    }
}

/// A tile is a terminal or honour exactly when it is one of the thirteen.
pub proof fn lemma_kokushi_tile_iff(t: Tile)
    ensures
        spec_is_kokushi_tile(t) <==> seq_contains_tile(kokushi_tiles_spec(), t),
{
    let ks = kokushi_tiles_spec();
    if spec_is_kokushi_tile(t) {
        if t.suit == Suit::Man && t.number == 1 {
            assert(ks[0] == t);
        } else if t.suit == Suit::Man {
            assert(ks[1] == t);
        } else if t.suit == Suit::Pin && t.number == 1 {
            assert(ks[2] == t);
        } else if t.suit == Suit::Pin {
            assert(ks[3] == t);
        } else if t.suit == Suit::Sou && t.number == 1 {
            assert(ks[4] == t);
        } else if t.suit == Suit::Sou {
            assert(ks[5] == t);
        } else {
            assert(ks[5 + t.number] == t);
        }
    }
}

/// The thirteen-distinct-terminals-and-honours shape: the leftover tiles hold
/// each of the thirteen, with exactly one tile value doubled.
pub open spec fn spec_has_kokushi(d: DivisionV) -> bool {
    let s = d.remaining;
    (forall|t: Tile| seq_contains_tile(s, t) <==> spec_is_kokushi_tile(t)) && (exists|t: Tile|
        #[trigger] count_of(s, t) == 2 && forall|u: Tile| #[trigger] count_of(s, u) == 2 ==> u
            == t)
}

pub fn has_kokushi(division: &Division, _calls: &Vec<Call>, _context: &HandContext) -> (r: bool)
    ensures
        r == spec_has_kokushi(division@),
{
    let s = &division.remaining;
    let ghost sv = division@.remaining;

    // Every tile held must be a terminal or honour.
    let mut i: usize = 0;
    while i < s.len()
        invariant
            i <= s@.len(),
            sv == s@,
            sv == division@.remaining,
            forall|k: int| 0 <= k < i ==> spec_is_kokushi_tile(#[trigger] sv[k]),
        decreases s@.len() - i,
    {
        let t = s[i];
        if !((t.is_number() && (t.number == 1 || t.number == 9)) || (t.is_honour() && 1 <= t.number
            && t.number <= 7)) {
            proof {
                assert(seq_contains_tile(sv, sv[i as int]));
                assert(!spec_is_kokushi_tile(sv[i as int]));
            }
            return false;
        }
        i = i + 1;
    }

    // Each of the thirteen must be held, and exactly one of them twice.
    let kok = kokushi_tiles();
    let ghost ks = kokushi_tiles_spec();
    let mut pair_found = false;
    let mut pair_tile = Tile { suit: Suit::Hon, number: 1 };
    let mut k: usize = 0;
    while k < kok.len()
        invariant
            k <= kok@.len(),
            kok@ == ks,
            ks == kokushi_tiles_spec(),
            sv == s@,
            sv == division@.remaining,
            forall|j: int| 0 <= j < k ==> seq_contains_tile(sv, #[trigger] ks[j]),
            !pair_found ==> forall|j: int| 0 <= j < k ==> count_of(sv, #[trigger] ks[j]) != 2,
            pair_found ==> count_of(sv, pair_tile) == 2,
            pair_found ==> forall|j: int|
                0 <= j < k && count_of(sv, #[trigger] ks[j]) == 2 ==> ks[j] == pair_tile,
        decreases kok@.len() - k,
    {
        let c = count_tile(s, kok[k]);
        proof {
            crate::tile::lemma_count_pos(sv, ks[k as int]);
        }
        if c == 0 {
            proof {
                assert(!seq_contains_tile(sv, ks[k as int]));
                lemma_kokushi_all_kok();
                assert(spec_is_kokushi_tile(ks[k as int]));
            }
            return false;
        }
        if c == 2 {
            if pair_found {
                if pair_tile != kok[k] {
                    // Two distinct doubled values: the shape needs exactly one.
                    proof {
                        assert(count_of(sv, pair_tile) == 2 && count_of(sv, ks[k as int]) == 2);
                        assert(!spec_has_kokushi(division@));
                    }
                    return false;
                }
            } else {
                pair_found = true;
                pair_tile = kok[k];
            }
        }
        k = k + 1;
    }

    if !pair_found {
        proof {
            if spec_has_kokushi(division@) {
                let t = choose|t: Tile|
                    #[trigger] count_of(sv, t) == 2 && forall|u: Tile|
                        #[trigger] count_of(sv, u) == 2 ==> u == t;
                crate::tile::lemma_count_pos(sv, t);
                let j = choose|j: int| 0 <= j < sv.len() && sv[j] == t;
                assert(spec_is_kokushi_tile(t));
                lemma_kokushi_tile_iff(t);
                let idx = choose|idx: int| 0 <= idx < ks.len() && ks[idx] == t;
                assert(count_of(sv, ks[idx]) != 2);
                assert(false);
            }
        }
        return false;
    }
    proof {
        // Every tile value held is one of the thirteen, so every doubled
        // value must be the one found.
        assert forall|u: Tile| #[trigger] count_of(sv, u) == 2 implies u == pair_tile by {
            crate::tile::lemma_count_pos(sv, u);
            let j = choose|j: int| 0 <= j < sv.len() && sv[j] == u;
            assert(spec_is_kokushi_tile(u));
            lemma_kokushi_tile_iff(u);
            let idx = choose|idx: int| 0 <= idx < ks.len() && ks[idx] == u;
            assert(count_of(sv, ks[idx]) == 2);
        }
        assert(count_of(sv, pair_tile) == 2);
        assert forall|t: Tile| seq_contains_tile(sv, t) implies spec_is_kokushi_tile(t) by {
            let j = choose|j: int| 0 <= j < sv.len() && sv[j] == t;
            assert(spec_is_kokushi_tile(sv[j]));
        }
        assert forall|t: Tile| spec_is_kokushi_tile(t) implies seq_contains_tile(sv, t) by {
            lemma_kokushi_tile_iff(t);
            let idx = choose|idx: int| 0 <= idx < ks.len() && ks[idx] == t;
            assert(seq_contains_tile(sv, ks[idx]));
        }
    }
    true
}

/// Four concealed triplets or quads; a triplet the discard win completed
/// does not count as concealed.
pub open spec fn spec_has_suuankou(d: DivisionV, calls: Seq<Call>, ctx: HandContextV) -> bool {
    let count = spec_ankan_count(calls) + spec_triplet_count(d.melds);
    if count == 4 {
        ctx.is_tsumo || !spec_has_ronned_triplet(d.melds, ctx.winning_meld)
    } else {
        false
    }
}

pub fn has_suuankou(division: &Division, calls: &Vec<Call>, context: &HandContext) -> (r: bool)
    ensures
        r == spec_has_suuankou(division@, calls@, context@),
{
    let quads = ankan_count(calls);
    let triplets = triplet_count(&division.melds);
    let count: usize = if quads >= 5 || triplets >= 5 {
        5
    } else {
        quads + triplets
    };
    if count == 4 {
        context.is_tsumo || !has_ronned_triplet(&division.melds, &context.winning_meld)
    } else {
        false
    }
}

/// Groups of all three dragons.
pub open spec fn spec_has_daisangen(d: DivisionV, calls: Seq<Call>) -> bool {
    spec_has_colour(Tile { suit: Suit::Hon, number: 5 }, d, calls) && spec_has_colour(
        Tile { suit: Suit::Hon, number: 6 },
        d,
        calls,
    ) && spec_has_colour(Tile { suit: Suit::Hon, number: 7 }, d, calls)
}

pub fn has_daisangen(division: &Division, calls: &Vec<Call>, context: &HandContext) -> (r: bool)
    requires
        calls_wf(calls@),
    ensures
        r == spec_has_daisangen(division@, calls@),
{
    has_haku(division, calls, context) && has_hatsu(division, calls, context) && has_chun(
        division,
        calls,
        context,
    )
}

/// How many groups are led by a wind tile.
pub open spec fn spec_wind_group_count(ms: Seq<Seq<Tile>>) -> nat
    decreases ms.len(),
{
    if ms.len() == 0 {
        0
    } else {
        spec_wind_group_count(ms.drop_last()) + if ms.last().len() > 0
            && ms.last()[0].spec_is_wind() {
            1nat
        } else {
            0nat
        }
    }
}

fn wind_group_count(melds: &Vec<Vec<Tile>>) -> (n: usize)
    ensures
        n == spec_wind_group_count(melds_view(melds@)),
{
    let ghost ms = melds_view(melds@);
    let mut n: usize = 0;
    let mut i: usize = 0;
    while i < melds.len()
        invariant
            i <= melds@.len(),
            ms == melds_view(melds@),
            n <= i,
            n == spec_wind_group_count(ms.take(i as int)),
        decreases melds@.len() - i,
    {
        proof {
            assert(ms.take(i + 1).drop_last() =~= ms.take(i as int));
            assert(ms.take(i + 1).last() == melds@[i as int]@);
        }
        if melds[i].len() > 0 && melds[i][0].is_wind() {
            n = n + 1;
        }
        i = i + 1;
    }
    proof {
        assert(ms.take(ms.len() as int) =~= ms);
    }
    n
}

/// Three wind groups and the pair of the fourth wind.
pub open spec fn spec_has_shousuushii(d: DivisionV, calls: Seq<Call>) -> bool {
    spec_wind_group_count(spec_combine_melds(d, calls)) == 3 && d.pair.len() > 0 && d.pair[
        0
    ].spec_is_wind()
}

pub fn has_shousuushii(division: &Division, calls: &Vec<Call>, _context: &HandContext) -> (r: bool)
    requires
        calls_wf(calls@),
    ensures
        r == spec_has_shousuushii(division@, calls@),
{
    let melds = combine_melds(division, calls);
    wind_group_count(&melds) == 3 && division.pair.len() > 0 && division.pair[0].is_wind()
}

/// Groups of all four winds.
pub open spec fn spec_has_daisuushii(d: DivisionV, calls: Seq<Call>) -> bool {
    spec_wind_group_count(spec_combine_melds(d, calls)) == 4
}

pub fn has_daisuushii(division: &Division, calls: &Vec<Call>, _context: &HandContext) -> (r: bool)
    requires
        calls_wf(calls@),
    ensures
        r == spec_has_daisuushii(division@, calls@),
{
    let melds = combine_melds(division, calls);
    wind_group_count(&melds) == 4
}

/// Every tile an honour.
pub open spec fn spec_has_tsuuiisou(d: DivisionV, calls: Seq<Call>) -> bool {
    let ts = spec_flatten_tiles(d, calls);
    forall|i: int| 0 <= i < ts.len() ==> (#[trigger] ts[i]).spec_is_honour()
}

pub fn has_tsuuiisou(division: &Division, calls: &Vec<Call>, _context: &HandContext) -> (r: bool)
    requires
        calls_wf(calls@),
    ensures
        r == spec_has_tsuuiisou(division@, calls@),
{
    let ts = flatten_tiles(division, calls);
    let mut i: usize = 0;
    while i < ts.len()
        invariant
            i <= ts@.len(),
            ts@ == spec_flatten_tiles(division@, calls@),
            forall|k: int| 0 <= k < i ==> (#[trigger] ts@[k]).spec_is_honour(),
        decreases ts@.len() - i,
    {
        if !ts[i].is_honour() {
            return false;
        }
        i = i + 1;
    }
    true
}

/// Every tile a terminal.
pub open spec fn spec_has_chinroutou(d: DivisionV, calls: Seq<Call>) -> bool {
    let ts = spec_flatten_tiles(d, calls);
    forall|i: int| 0 <= i < ts.len() ==> (#[trigger] ts[i]).spec_is_terminal()
}

pub fn has_chinroutou(division: &Division, calls: &Vec<Call>, _context: &HandContext) -> (r: bool)
    requires
        calls_wf(calls@),
    ensures
        r == spec_has_chinroutou(division@, calls@),
{
    let ts = flatten_tiles(division, calls);
    let mut i: usize = 0;
    while i < ts.len()
        invariant
            i <= ts@.len(),
            ts@ == spec_flatten_tiles(division@, calls@),
            forall|k: int| 0 <= k < i ==> (#[trigger] ts@[k]).spec_is_terminal(),
        decreases ts@.len() - i,
    {
        if !ts[i].is_terminal() {
            return false;
        }
        i = i + 1;
    }
    true
}

/// One of the green tiles: bamboo 2, 3, 4, 6, 8 or the green dragon.
pub open spec fn spec_is_green(t: Tile) -> bool {
    (t.suit == Suit::Sou && (t.number == 2 || t.number == 3 || t.number == 4 || t.number == 6
        || t.number == 8)) || (t.suit == Suit::Hon && t.number == 6)
}

/// Every tile green.
pub open spec fn spec_has_ryuuiisou(d: DivisionV, calls: Seq<Call>) -> bool {
    let ts = spec_flatten_tiles(d, calls);
    forall|i: int| 0 <= i < ts.len() ==> spec_is_green(#[trigger] ts[i])
}

pub fn has_ryuuiisou(division: &Division, calls: &Vec<Call>, _context: &HandContext) -> (r: bool)
    requires
        calls_wf(calls@),
    ensures
        r == spec_has_ryuuiisou(division@, calls@),
{
    let ts = flatten_tiles(division, calls);
    let mut i: usize = 0;
    while i < ts.len()
        invariant
            i <= ts@.len(),
            ts@ == spec_flatten_tiles(division@, calls@),
            forall|k: int| 0 <= k < i ==> spec_is_green(#[trigger] ts@[k]),
        decreases ts@.len() - i,
    {
        let t = ts[i];
        if !((t.suit == Suit::Sou && (t.number == 2 || t.number == 3 || t.number == 4 || t.number
            == 6 || t.number == 8)) || (t.suit == Suit::Hon && t.number == 6)) {
            return false;
        }
        i = i + 1;
    }
    true
}

/// The nine-gates base of one suit: 1112345678999.
pub open spec fn chuuren_base(s: Suit) -> Seq<Tile> {
    seq![
        Tile { suit: s, number: 1 },
        Tile { suit: s, number: 1 },
        Tile { suit: s, number: 1 },
        Tile { suit: s, number: 2 },
        Tile { suit: s, number: 3 },
        Tile { suit: s, number: 4 },
        Tile { suit: s, number: 5 },
        Tile { suit: s, number: 6 },
        Tile { suit: s, number: 7 },
        Tile { suit: s, number: 8 },
        Tile { suit: s, number: 9 },
        Tile { suit: s, number: 9 },
        Tile { suit: s, number: 9 },
    ]
}

fn chuuren_base_exec(s: Suit) -> (r: Vec<Tile>)
    ensures
        r@ == chuuren_base(s),
{
    let r = vec![
        Tile { suit: s, number: 1 },
        Tile { suit: s, number: 1 },
        Tile { suit: s, number: 1 },
        Tile { suit: s, number: 2 },
        Tile { suit: s, number: 3 },
        Tile { suit: s, number: 4 },
        Tile { suit: s, number: 5 },
        Tile { suit: s, number: 6 },
        Tile { suit: s, number: 7 },
        Tile { suit: s, number: 8 },
        Tile { suit: s, number: 9 },
        Tile { suit: s, number: 9 },
        Tile { suit: s, number: 9 },
    ];
    proof {
        assert(r@ =~= chuuren_base(s));
    }
    r
}

/// The hand's sorted tiles equal the nine-gates base of suit `s` plus one
/// more tile of rank `n` in that suit.
pub open spec fn chuuren_match(d: DivisionV, calls: Seq<Call>, s: Suit, n: u8) -> bool {
    (s == Suit::Man || s == Suit::Pin || s == Suit::Sou) && 1 <= n <= 9 && sort_tiles_spec(
        spec_flatten_tiles(d, calls),
    ) == sort_tiles_spec(chuuren_base(s).push(Tile { suit: s, number: n }))
}

/// A concealed hand of one suit's nine-gates base plus any tile of the suit.
pub open spec fn spec_has_chuuren(d: DivisionV, calls: Seq<Call>) -> bool {
    spec_no_open_calls(calls) && exists|s: Suit, n: u8| #[trigger] chuuren_match(d, calls, s, n)
}

pub fn has_chuuren(division: &Division, calls: &Vec<Call>, _context: &HandContext) -> (r: bool)
    requires
        calls_wf(calls@),
    ensures
        r == spec_has_chuuren(division@, calls@),
{
    if !no_open_calls(calls) {
        return false;
    }
    let ts = flatten_tiles(division, calls);
    let sorted = sort_tiles(&ts);
    let suits = vec![Suit::Man, Suit::Pin, Suit::Sou];
    let mut si: usize = 0;
    while si < suits.len()
        invariant
            si <= suits@.len(),
            suits@ =~= seq![Suit::Man, Suit::Pin, Suit::Sou],
            spec_no_open_calls(calls@),
            sorted@ == sort_tiles_spec(spec_flatten_tiles(division@, calls@)),
            forall|k: int, n: u8|
                0 <= k < si ==> !(#[trigger] chuuren_match(division@, calls@, suits@[k], n)),
        decreases suits@.len() - si,
    {
        let s = suits[si];
        proof {
            assert(s == suits@[si as int]);
            assert(s == Suit::Man || s == Suit::Pin || s == Suit::Sou);
        }
        let base = chuuren_base_exec(s);
        let mut n: u8 = 1;
        while n <= 9
            invariant
                1 <= n <= 10,
                base@ == chuuren_base(s),
                s == Suit::Man || s == Suit::Pin || s == Suit::Sou,
                spec_no_open_calls(calls@),
                sorted@ == sort_tiles_spec(spec_flatten_tiles(division@, calls@)),
                forall|v: u8| 1 <= v < n ==> !(#[trigger] chuuren_match(division@, calls@, s, v)),
            decreases 10 - n,
        {
            let mut cand = copy_tiles(&base);
            cand.push(Tile { suit: s, number: n });
            let sc = sort_tiles(&cand);
            proof {
                assert(cand@ == chuuren_base(s).push(Tile { suit: s, number: n }));
            }
            if tiles_eq(&sorted, &sc) {
                proof {
                    assert(chuuren_match(division@, calls@, s, n));
                }
                return true;
            }
            n = n + 1;
        }
        si = si + 1;
    }
    proof {
        assert forall|s: Suit, n: u8| !(#[trigger] chuuren_match(division@, calls@, s, n)) by {
            if chuuren_match(division@, calls@, s, n) {
                assert(s == suits@[0] || s == suits@[1] || s == suits@[2]);
            }
        }
    }
    false
}

/// Four quads called.
pub open spec fn spec_has_suukantsu(calls: Seq<Call>) -> bool {
    spec_kan_count(calls) == 4
}

pub fn has_suukantsu(_division: &Division, calls: &Vec<Call>, _context: &HandContext) -> (r: bool)
    ensures
        r == spec_has_suukantsu(calls@),
{
    kan_count(calls) == 4
}

// ---------------------------------------------------------------------------
// Dispatch and the two-phase match-then-supersede evaluation.
// ---------------------------------------------------------------------------

/// The predicate of one table yaku over the augmented decomposition.  Pinfu
/// and the bonus-tile markers are decided elsewhere and hold nowhere here.
pub open spec fn spec_yaku_check(y: Yaku, d: DivisionV, calls: Seq<Call>, ctx: HandContextV) ->
    bool {
    match y {
        Yaku::MenzenTsumo => spec_has_menzen_tsumo(calls, ctx),
        Yaku::Riichi => spec_has_riichi(calls, ctx),
        Yaku::Ippatsu => spec_has_ippatsu(calls, ctx),
        Yaku::Pinfu => false,
        Yaku::Iipeikou => spec_has_iipeikou(d, calls),
        Yaku::HaiteiRaoyue => ctx.is_haitei,
        Yaku::HouteiRaoyui => ctx.is_houtei,
        Yaku::RinshanKaihou => ctx.is_rinshan,
        Yaku::Chankan => ctx.is_chankan,
        Yaku::Tanyao => spec_has_tanyao(d, calls),
        Yaku::Ton => spec_has_wind(Tile { suit: Suit::Hon, number: 1 }, d, calls, ctx),
        Yaku::Nan => spec_has_wind(Tile { suit: Suit::Hon, number: 2 }, d, calls, ctx),
        Yaku::Sha => spec_has_wind(Tile { suit: Suit::Hon, number: 3 }, d, calls, ctx),
        Yaku::Pei => spec_has_wind(Tile { suit: Suit::Hon, number: 4 }, d, calls, ctx),
        Yaku::Haku => spec_has_colour(Tile { suit: Suit::Hon, number: 5 }, d, calls),
        Yaku::Hatsu => spec_has_colour(Tile { suit: Suit::Hon, number: 6 }, d, calls),
        Yaku::Chun => spec_has_colour(Tile { suit: Suit::Hon, number: 7 }, d, calls),
        Yaku::DoubleRiichi => spec_has_double_riichi(calls, ctx),
        Yaku::Chantaiyao => spec_has_chanta(d, calls),
        Yaku::SanshokuDoujun => spec_has_sanshoku_doujun(d, calls),
        Yaku::Sankantsu => spec_has_sankantsu(calls),
        Yaku::Ittsu => spec_has_ittsu(d, calls),
        Yaku::Toitoi => spec_has_toitoi(d, calls),
        Yaku::Sanankou => spec_has_sanankou(d, calls, ctx),
        Yaku::SanshokuDoukou => spec_has_sanshoku_doukou(d, calls),
        Yaku::Chiitoitsu => spec_has_chiitoi(d),
        Yaku::Honroutou => spec_has_honroutou(d, calls),
        Yaku::Shousangen => spec_has_shousangen(d, calls),
        Yaku::Ryanpeikou => spec_has_ryanpeikou(d, calls),
        Yaku::Honitsu => spec_has_honitsu(d, calls),
        Yaku::JunchanTaiyao => spec_has_junchan(d, calls),
        Yaku::Chinitsu => spec_has_chinitsu(d, calls),
        Yaku::Dora | Yaku::Akadora | Yaku::Uradora => false,
    }
}

/// The predicate of one table yakuman over the augmented decomposition.
pub open spec fn spec_yakuman_check(y: Yakuman, d: DivisionV, calls: Seq<Call>, ctx: HandContextV)
    -> bool {
    match y {
        Yakuman::KokushiMusou => spec_has_kokushi(d),
        Yakuman::Suuankou => spec_has_suuankou(d, calls, ctx),
        Yakuman::Daisangen => spec_has_daisangen(d, calls),
        Yakuman::Shousuushii => spec_has_shousuushii(d, calls),
        Yakuman::Daisuushii => spec_has_daisuushii(d, calls),
        Yakuman::Tsuuiisou => spec_has_tsuuiisou(d, calls),
        Yakuman::Chinroutou => spec_has_chinroutou(d, calls),
        Yakuman::Ryuuiisou => spec_has_ryuuiisou(d, calls),
        Yakuman::ChuurenPoutou => spec_has_chuuren(d, calls),
        Yakuman::Suukantsu => spec_has_suukantsu(calls),
        Yakuman::Tenhou => ctx.is_tenhou,
        Yakuman::Chiihou => ctx.is_chiihou,
        Yakuman::KazoeYakuman | Yakuman::NagashiMangan => false,
    }
}

impl Yaku {
    /// Evaluates the yaku's predicate against the augmented decomposition.
    pub fn check(&self, division: &Division, calls: &Vec<Call>, context: &HandContext) -> (r: bool)
        requires
            yaku_in_table(*self),
            *self != Yaku::Pinfu,
            div_wf(division@),
            calls_wf(calls@),
        ensures
            r == spec_yaku_check(*self, division@, calls@, context@),
    {
        match self {
            Yaku::MenzenTsumo => has_menzen_tsumo(division, calls, context),
            Yaku::Riichi => has_riichi(division, calls, context),
            Yaku::Ippatsu => has_ippatsu(division, calls, context),
            Yaku::Iipeikou => has_iipeikou(division, calls, context),
            Yaku::HaiteiRaoyue => has_haitei(division, calls, context),
            Yaku::HouteiRaoyui => has_houtei(division, calls, context),
            Yaku::RinshanKaihou => has_rinshan(division, calls, context),
            Yaku::Chankan => has_chankan(division, calls, context),
            Yaku::Tanyao => has_tanyao(division, calls, context),
            Yaku::Ton => has_ton(division, calls, context),
            Yaku::Nan => has_nan(division, calls, context),
            Yaku::Sha => has_sha(division, calls, context),
            Yaku::Pei => has_pei(division, calls, context),
            Yaku::Haku => has_haku(division, calls, context),
            Yaku::Hatsu => has_hatsu(division, calls, context),
            Yaku::Chun => has_chun(division, calls, context),
            Yaku::DoubleRiichi => has_double_riichi(division, calls, context),
            Yaku::Chantaiyao => has_chanta(division, calls, context),
            Yaku::SanshokuDoujun => has_sanshoku_doujun(division, calls, context),
            Yaku::Sankantsu => has_sankantsu(division, calls, context),
            Yaku::Ittsu => has_ittsu(division, calls, context),
            Yaku::Toitoi => has_toitoi(division, calls, context),
            Yaku::Sanankou => has_sanankou(division, calls, context),
            Yaku::SanshokuDoukou => has_sanshoku_doukou(division, calls, context),
            Yaku::Chiitoitsu => has_chiitoi(division, calls, context),
            Yaku::Honroutou => has_honroutou(division, calls, context),
            Yaku::Shousangen => has_shousangen(division, calls, context),
            Yaku::Ryanpeikou => has_ryanpeikou(division, calls, context),
            Yaku::Honitsu => has_honitsu(division, calls, context),
            Yaku::JunchanTaiyao => has_junchan(division, calls, context),
            Yaku::Chinitsu => has_chinitsu(division, calls, context),
            Yaku::Pinfu | Yaku::Dora | Yaku::Akadora | Yaku::Uradora => false,
        }
    }
}

impl Yakuman {
    /// Evaluates the yakuman's predicate against the augmented decomposition.
    pub fn check(&self, division: &Division, calls: &Vec<Call>, context: &HandContext) -> (r: bool)
        requires
            yakuman_in_table(*self),
            div_wf(division@),
            calls_wf(calls@),
        ensures
            r == spec_yakuman_check(*self, division@, calls@, context@),
    {
        match self {
            Yakuman::KokushiMusou => has_kokushi(division, calls, context),
            Yakuman::Suuankou => has_suuankou(division, calls, context),
            Yakuman::Daisangen => has_daisangen(division, calls, context),
            Yakuman::Shousuushii => has_shousuushii(division, calls, context),
            Yakuman::Daisuushii => has_daisuushii(division, calls, context),
            Yakuman::Tsuuiisou => has_tsuuiisou(division, calls, context),
            Yakuman::Chinroutou => has_chinroutou(division, calls, context),
            Yakuman::Ryuuiisou => has_ryuuiisou(division, calls, context),
            Yakuman::ChuurenPoutou => has_chuuren(division, calls, context),
            Yakuman::Suukantsu => has_suukantsu(division, calls, context),
            Yakuman::Tenhou => has_tenhou(division, calls, context),
            Yakuman::Chiihou => has_chiihou(division, calls, context),
            Yakuman::KazoeYakuman | Yakuman::NagashiMangan => false,
        }
    }
}

/// The yaku of the list whose predicates match, in list order.
pub open spec fn spec_yaku_matches(
    list: Seq<Yaku>,
    d: DivisionV,
    calls: Seq<Call>,
    ctx: HandContextV,
) -> Seq<Yaku>
    decreases list.len(),
{
    if list.len() == 0 {
        Seq::empty()
    } else {
        let rest = spec_yaku_matches(list.drop_last(), d, calls, ctx);
        if spec_yaku_check(list.last(), d, calls, ctx) {
            rest.push(list.last())
        } else {
            rest
        }
    }
}

/// Everything the matched yaku supersede, concatenated in match order.
pub open spec fn spec_yaku_superceded(found: Seq<Yaku>) -> Seq<Yaku>
    decreases found.len(),
{
    if found.len() == 0 {
        Seq::empty()
    } else {
        spec_yaku_superceded(found.drop_last()) + spec_yaku_supercedes(found.last())
    }
}

/// The matches with every superseded pattern dropped.
pub open spec fn spec_yaku_filter(found: Seq<Yaku>, sup: Seq<Yaku>) -> Seq<Yaku>
    decreases found.len(),
{
    if found.len() == 0 {
        found
    } else {
        let rest = spec_yaku_filter(found.drop_last(), sup);
        if !sup.contains(found.last()) {
            rest.push(found.last())
        } else {
            rest
        }
    }
}

/// The yaku of the hand: every matched pattern that no other matched pattern
/// supersedes.
pub open spec fn spec_yaku_in_hand(d: DivisionV, calls: Seq<Call>, ctx: HandContextV) -> Seq<
    Yaku,
> {
    let found = spec_yaku_matches(yaku_to_check_spec(), d, calls, ctx);
    spec_yaku_filter(found, spec_yaku_superceded(found))
}

fn yaku_vec_contains(v: &Vec<Yaku>, y: Yaku) -> (r: bool)
    ensures
        r == v@.contains(y),
{
    let mut i: usize = 0;
    while i < v.len()
        invariant
            i <= v@.len(),
            forall|k: int| 0 <= k < i ==> v@[k] != y,
        decreases v@.len() - i,
    {
        if v[i] == y {
            proof {
                assert(v@[i as int] == y);
            }
            return true;
        }
        i = i + 1;
    }
    proof {
        if v@.contains(y) {
            let k = choose|k: int| 0 <= k < v@.len() && v@[k] == y;
            assert(false);
        }
    }
    false
}

/// Finds all yaku in the given hand, dropping any that a higher matched
/// pattern supersedes.
pub fn yaku_in_hand(division: &Division, calls: &Vec<Call>, context: &HandContext) -> (r: Vec<
    Yaku,
>)
    requires
        div_wf(division@),
        calls_wf(calls@),
    ensures
        r@ == spec_yaku_in_hand(division@, calls@, context@),
        forall|i: int| 0 <= i < r@.len() ==> yaku_in_table(#[trigger] r@[i]) && r@[i] != Yaku::Pinfu,
{
    let list = yaku_to_check();
    let mut found: Vec<Yaku> = Vec::new();
    let mut i: usize = 0;
    while i < list.len()
        invariant
            i <= list@.len(),
            list@ == yaku_to_check_spec(),
            forall|k: int|
                0 <= k < list@.len() ==> yaku_in_table(#[trigger] list@[k]) && list@[k]
                    != Yaku::Pinfu,
            div_wf(division@),
            calls_wf(calls@),
            found@ == spec_yaku_matches(list@.take(i as int), division@, calls@, context@),
            forall|k: int|
                0 <= k < found@.len() ==> yaku_in_table(#[trigger] found@[k]) && found@[k]
                    != Yaku::Pinfu,
        decreases list@.len() - i,
    {
        proof {
            assert(list@.take(i + 1).drop_last() =~= list@.take(i as int));
        }
        if list[i].check(division, calls, context) {
            found.push(list[i]);
        }
        i = i + 1;
    }
    proof {
        assert(list@.take(list@.len() as int) =~= list@);
    }

    let mut superceded: Vec<Yaku> = Vec::new();
    let mut j: usize = 0;
    while j < found.len()
        invariant
            j <= found@.len(),
            superceded@ == spec_yaku_superceded(found@.take(j as int)),
        decreases found@.len() - j,
    {
        proof {
            assert(found@.take(j + 1).drop_last() =~= found@.take(j as int));
        }
        let mut s = found[j].supercedes();
        let ghost s0 = superceded@;
        superceded.append(&mut s);
        proof {
            assert(superceded@ == s0 + spec_yaku_supercedes(found@[j as int]));
        }
        j = j + 1;
    }
    proof {
        assert(found@.take(found@.len() as int) =~= found@);
    }

    let mut result: Vec<Yaku> = Vec::new();
    let mut k: usize = 0;
    while k < found.len()
        invariant
            k <= found@.len(),
            superceded@ == spec_yaku_superceded(found@),
            result@ == spec_yaku_filter(found@.take(k as int), superceded@),
            forall|kk: int|
                0 <= kk < found@.len() ==> yaku_in_table(#[trigger] found@[kk]) && found@[kk]
                    != Yaku::Pinfu,
            forall|kk: int|
                0 <= kk < result@.len() ==> yaku_in_table(#[trigger] result@[kk]) && result@[kk]
                    != Yaku::Pinfu,
        decreases found@.len() - k,
    {
        proof {
            assert(found@.take(k + 1).drop_last() =~= found@.take(k as int));
        }
        if !yaku_vec_contains(&superceded, found[k]) {
            result.push(found[k]);
        }
        k = k + 1;
    }
    proof {
        assert(found@.take(found@.len() as int) =~= found@);
    }
    result
}

/// The yakuman of the list whose predicates match, in list order.
pub open spec fn spec_yakuman_matches(
    list: Seq<Yakuman>,
    d: DivisionV,
    calls: Seq<Call>,
    ctx: HandContextV,
) -> Seq<Yakuman>
    decreases list.len(),
{
    if list.len() == 0 {
        Seq::empty()
    } else {
        let rest = spec_yakuman_matches(list.drop_last(), d, calls, ctx);
        if spec_yakuman_check(list.last(), d, calls, ctx) {
            rest.push(list.last())
        } else {
            rest
        }
    }
}

/// Everything the matched yakuman supersede.
pub open spec fn spec_yakuman_superceded(found: Seq<Yakuman>) -> Seq<Yakuman>
    decreases found.len(),
{
    if found.len() == 0 {
        Seq::empty()
    } else {
        spec_yakuman_superceded(found.drop_last()) + spec_yakuman_supercedes(found.last())
    }
}

/// The matches with every superseded pattern dropped.
pub open spec fn spec_yakuman_filter(found: Seq<Yakuman>, sup: Seq<Yakuman>) -> Seq<Yakuman>
    decreases found.len(),
{
    if found.len() == 0 {
        found
    } else {
        let rest = spec_yakuman_filter(found.drop_last(), sup);
        if !sup.contains(found.last()) {
            rest.push(found.last())
        } else {
            rest
        }
    }
}

/// The yakuman of the hand: every matched pattern that no other matched
/// pattern supersedes.
pub open spec fn spec_yakuman_in_hand(d: DivisionV, calls: Seq<Call>, ctx: HandContextV) -> Seq<
    Yakuman,
> {
    let found = spec_yakuman_matches(yakuman_to_check_spec(), d, calls, ctx);
    spec_yakuman_filter(found, spec_yakuman_superceded(found))
}

fn yakuman_vec_contains(v: &Vec<Yakuman>, y: Yakuman) -> (r: bool)
    ensures
        r == v@.contains(y),
{
    let mut i: usize = 0;
    while i < v.len()
        invariant
            i <= v@.len(),
            forall|k: int| 0 <= k < i ==> v@[k] != y,
        decreases v@.len() - i,
    {
        if v[i] == y {
            proof {
                assert(v@[i as int] == y);
            }
            return true;
        }
        i = i + 1;
    }
    proof {
        if v@.contains(y) {
            let k = choose|k: int| 0 <= k < v@.len() && v@[k] == y;
            assert(false);
        }
    }
    false
}

/// Finds all yakuman in the given hand, dropping any that a higher matched
/// pattern supersedes.
pub fn yakuman_in_hand(division: &Division, calls: &Vec<Call>, context: &HandContext) -> (r: Vec<
    Yakuman,
>)
    requires
        div_wf(division@),
        calls_wf(calls@),
    ensures
        r@ == spec_yakuman_in_hand(division@, calls@, context@),
        forall|i: int| 0 <= i < r@.len() ==> yakuman_in_table(#[trigger] r@[i]),
{
    let list = yakuman_to_check();
    let mut found: Vec<Yakuman> = Vec::new();
    let mut i: usize = 0;
    while i < list.len()
        invariant
            i <= list@.len(),
            list@ == yakuman_to_check_spec(),
            forall|k: int| 0 <= k < list@.len() ==> yakuman_in_table(#[trigger] list@[k]),
            div_wf(division@),
            calls_wf(calls@),
            found@ == spec_yakuman_matches(list@.take(i as int), division@, calls@, context@),
            forall|k: int| 0 <= k < found@.len() ==> yakuman_in_table(#[trigger] found@[k]),
        decreases list@.len() - i,
    {
        proof {
            assert(list@.take(i + 1).drop_last() =~= list@.take(i as int));
        }
        if list[i].check(division, calls, context) {
            found.push(list[i]);
        }
        i = i + 1;
    }
    proof {
        assert(list@.take(list@.len() as int) =~= list@);
    }

    let mut superceded: Vec<Yakuman> = Vec::new();
    let mut j: usize = 0;
    while j < found.len()
        invariant
            j <= found@.len(),
            superceded@ == spec_yakuman_superceded(found@.take(j as int)),
        decreases found@.len() - j,
    {
        proof {
            assert(found@.take(j + 1).drop_last() =~= found@.take(j as int));
        }
        let mut s = found[j].supercedes();
        let ghost s0 = superceded@;
        superceded.append(&mut s);
        proof {
            assert(superceded@ == s0 + spec_yakuman_supercedes(found@[j as int]));
        }
        j = j + 1;
    }
    proof {
        assert(found@.take(found@.len() as int) =~= found@);
    }

    let mut result: Vec<Yakuman> = Vec::new();
    let mut k: usize = 0;
    while k < found.len()
        invariant
            k <= found@.len(),
            superceded@ == spec_yakuman_superceded(found@),
            result@ == spec_yakuman_filter(found@.take(k as int), superceded@),
            forall|kk: int| 0 <= kk < found@.len() ==> yakuman_in_table(#[trigger] found@[kk]),
            forall|kk: int| 0 <= kk < result@.len() ==> yakuman_in_table(#[trigger] result@[kk]),
        decreases found@.len() - k,
    {
        proof {
            assert(found@.take(k + 1).drop_last() =~= found@.take(k as int));
        }
        if !yakuman_vec_contains(&superceded, found[k]) {
            result.push(found[k]);
        }
        k = k + 1;
    }
    proof {
        assert(found@.take(found@.len() as int) =~= found@);
    }
    result
}

} // verus!
