//! Shared public types: calls, scoring reasons, hand context, limits, points.

use crate::tile::copy_tiles;
use crate::tile::Suit;
use crate::tile::Tile;
use vstd::prelude::*;

verus! {

/// Represents a call type.
#[derive(Clone, Copy, Debug, Eq, PartialEq, Structural)]
pub enum CallType {
    Chi,
    Pon,
    Minkan,
    Ankan,
    NoCall,
}

/// Represents an exposed call.  The first (lowest) tile is enough to
/// determine the whole meld.
#[derive(Clone, Copy, Debug, Eq, PartialEq, Structural)]
pub struct Call {
    pub ctype: CallType,
    pub tile: Tile,
}

impl Call {
    /// A structurally valid call: the tile is valid, and a sequence call
    /// starts low enough for two tiles to follow it in the suit.
    pub open spec fn wf(self) -> bool {
        self.tile.wf() && (self.ctype == CallType::Chi ==> self.tile.spec_is_number()
            && self.tile.number <= 7)
    }
}

/// Every call of the sequence is structurally valid.
pub open spec fn calls_wf(s: Seq<Call>) -> bool {
    forall|i: int| 0 <= i < s.len() ==> (#[trigger] s[i]).wf()
}

/// Represents a fu reason.
#[derive(Clone, Copy, Debug, Eq, PartialEq, Hash, Ord, PartialOrd, Structural)]
pub enum FuReason {
    Base,
    Chiitoitsu,
    // Winning condition
    ClosedRon,
    TsumoNoPinfu,
    OpenPinfu,
    // Pair
    YakuhaiPairColours,
    YakuhaiPairRoundWind,
    YakuhaiPairPlayerWind,
    // Triplets
    OpenTripletHonours,
    OpenTripletTerminals,
    OpenTripletSimples,
    ClosedTripletHonours,
    ClosedTripletTerminals,
    ClosedTripletSimples,
    // Quads
    OpenQuadHonours,
    OpenQuadTerminals,
    OpenQuadSimples,
    ClosedQuadHonours,
    ClosedQuadTerminals,
    ClosedQuadSimples,
    // Wait
    Kanchan,
    Penchan,
    Tanki,
    // Misc
    RoundUp,
    NotWinning,
}

/// Represents yaku.
#[derive(Clone, Copy, Debug, Eq, PartialEq, Ord, PartialOrd, Structural)]
pub enum Yaku {
    // 1 han, closed only
    MenzenTsumo,
    Riichi,
    Ippatsu,
    Pinfu,
    Iipeikou,
    // 1 han, may be open
    HaiteiRaoyue,
    HouteiRaoyui,
    RinshanKaihou,
    Chankan,
    Tanyao,
    Ton,
    Nan,
    Sha,
    Pei,
    Haku,
    Hatsu,
    Chun,
    // 2 han, closed only
    DoubleRiichi,
    // 2 han, may be open
    Chantaiyao,
    SanshokuDoujun,
    Sankantsu,
    Ittsu,
    Toitoi,
    Sanankou,
    SanshokuDoukou,
    Chiitoitsu,
    Honroutou,
    Shousangen,
    // 3 han, closed only
    Ryanpeikou,
    // 3 han, may be open
    Honitsu,
    JunchanTaiyao,
    // 6 han, may be open
    Chinitsu,
    // 1 han each
    Dora,
    Akadora,
    Uradora,
}

/// Represents yakuman.
#[derive(Clone, Copy, Debug, Eq, PartialEq, Ord, PartialOrd, Structural)]
pub enum Yakuman {
    KazoeYakuman,
    KokushiMusou,
    Suuankou,
    Daisangen,
    Shousuushii,
    Daisuushii,
    Tsuuiisou,
    Chinroutou,
    Ryuuiisou,
    ChuurenPoutou,
    Suukantsu,
    Tenhou,
    Chiihou,
    NagashiMangan,
}

/// Represents the union of yaku and yakuman.
#[derive(Clone, Copy, Debug, Eq, PartialEq, Ord, PartialOrd, Structural)]
pub enum HanReason {
    Yaku(Yaku),
    Yakuman(Yakuman),
}

/// Represents a scoring limit.
#[derive(Clone, Copy, Debug, Eq, PartialEq, Structural)]
pub enum Limit {
    NoLimit,
    Mangan,
    Haneman,
    Baiman,
    Sanbaiman,
    Yakuman,
}

/// Represents an allocation of points.
#[derive(Clone, Copy, Debug, Eq, PartialEq, Structural)]
pub enum Points {
    NoPoints,
    /// For dealer tsumo: the same value is paid by each nondealer.
    TsumoAll(u16),
    /// For nondealer tsumo: the first value is paid by each nondealer and the
    /// second value is paid by the dealer.
    Tsumo(u16, u16),
    /// For ron: the single value is paid in full by the discarder.
    Ron(u16),
}

/// Position of a fu reason in the declaration order, for the total order on
/// results.
pub open spec fn fu_reason_index(r: FuReason) -> int {
    match r {
        FuReason::Base => 0,
        FuReason::Chiitoitsu => 1,
        FuReason::ClosedRon => 2,
        FuReason::TsumoNoPinfu => 3,
        FuReason::OpenPinfu => 4,
        FuReason::YakuhaiPairColours => 5,
        FuReason::YakuhaiPairRoundWind => 6,
        FuReason::YakuhaiPairPlayerWind => 7,
        FuReason::OpenTripletHonours => 8,
        FuReason::OpenTripletTerminals => 9,
        FuReason::OpenTripletSimples => 10,
        FuReason::ClosedTripletHonours => 11,
        FuReason::ClosedTripletTerminals => 12,
        FuReason::ClosedTripletSimples => 13,
        FuReason::OpenQuadHonours => 14,
        FuReason::OpenQuadTerminals => 15,
        FuReason::OpenQuadSimples => 16,
        FuReason::ClosedQuadHonours => 17,
        FuReason::ClosedQuadTerminals => 18,
        FuReason::ClosedQuadSimples => 19,
        FuReason::Kanchan => 20,
        FuReason::Penchan => 21,
        FuReason::Tanki => 22,
        FuReason::RoundUp => 23,
        FuReason::NotWinning => 24,
    }
}

/// Position of a yaku in the declaration order.
pub open spec fn yaku_index(y: Yaku) -> int {
    match y {
        Yaku::MenzenTsumo => 0,
        Yaku::Riichi => 1,
        Yaku::Ippatsu => 2,
        Yaku::Pinfu => 3,
        Yaku::Iipeikou => 4,
        Yaku::HaiteiRaoyue => 5,
        Yaku::HouteiRaoyui => 6,
        Yaku::RinshanKaihou => 7,
        Yaku::Chankan => 8,
        Yaku::Tanyao => 9,
        Yaku::Ton => 10,
        Yaku::Nan => 11,
        Yaku::Sha => 12,
        Yaku::Pei => 13,
        Yaku::Haku => 14,
        Yaku::Hatsu => 15,
        Yaku::Chun => 16,
        Yaku::DoubleRiichi => 17,
        Yaku::Chantaiyao => 18,
        Yaku::SanshokuDoujun => 19,
        Yaku::Sankantsu => 20,
        Yaku::Ittsu => 21,
        Yaku::Toitoi => 22,
        Yaku::Sanankou => 23,
        Yaku::SanshokuDoukou => 24,
        Yaku::Chiitoitsu => 25,
        Yaku::Honroutou => 26,
        Yaku::Shousangen => 27,
        Yaku::Ryanpeikou => 28,
        Yaku::Honitsu => 29,
        Yaku::JunchanTaiyao => 30,
        Yaku::Chinitsu => 31,
        Yaku::Dora => 32,
        Yaku::Akadora => 33,
        Yaku::Uradora => 34,
    }
}

/// Position of a yakuman in the declaration order.
pub open spec fn yakuman_index(y: Yakuman) -> int {
    match y {
        Yakuman::KazoeYakuman => 0,
        Yakuman::KokushiMusou => 1,
        Yakuman::Suuankou => 2,
        Yakuman::Daisangen => 3,
        Yakuman::Shousuushii => 4,
        Yakuman::Daisuushii => 5,
        Yakuman::Tsuuiisou => 6,
        Yakuman::Chinroutou => 7,
        Yakuman::Ryuuiisou => 8,
        Yakuman::ChuurenPoutou => 9,
        Yakuman::Suukantsu => 10,
        Yakuman::Tenhou => 11,
        Yakuman::Chiihou => 12,
        Yakuman::NagashiMangan => 13,
    }
}

/// Key for the total order on han reasons: every yaku precedes every yakuman.
pub open spec fn han_reason_index(r: HanReason) -> int {
    match r {
        HanReason::Yaku(y) => yaku_index(y),
        HanReason::Yakuman(m) => 64 + yakuman_index(m),
    }
}

/// Computes `fu_reason_index`.
pub fn fu_reason_key(r: &FuReason) -> (k: u8)
    ensures
        k == fu_reason_index(*r),
{
    match r {
        FuReason::Base => 0,
        FuReason::Chiitoitsu => 1,
        FuReason::ClosedRon => 2,
        FuReason::TsumoNoPinfu => 3,
        FuReason::OpenPinfu => 4,
        FuReason::YakuhaiPairColours => 5,
        FuReason::YakuhaiPairRoundWind => 6,
        FuReason::YakuhaiPairPlayerWind => 7,
        FuReason::OpenTripletHonours => 8,
        FuReason::OpenTripletTerminals => 9,
        FuReason::OpenTripletSimples => 10,
        FuReason::ClosedTripletHonours => 11,
        FuReason::ClosedTripletTerminals => 12,
        FuReason::ClosedTripletSimples => 13,
        FuReason::OpenQuadHonours => 14,
        FuReason::OpenQuadTerminals => 15,
        FuReason::OpenQuadSimples => 16,
        FuReason::ClosedQuadHonours => 17,
        FuReason::ClosedQuadTerminals => 18,
        FuReason::ClosedQuadSimples => 19,
        FuReason::Kanchan => 20,
        FuReason::Penchan => 21,
        FuReason::Tanki => 22,
        FuReason::RoundUp => 23,
        FuReason::NotWinning => 24,
    }
}

/// Computes `yaku_index`.
pub fn yaku_key(y: &Yaku) -> (k: u8)
    ensures
        k == yaku_index(*y),
{
    match y {
        Yaku::MenzenTsumo => 0,
        Yaku::Riichi => 1,
        Yaku::Ippatsu => 2,
        Yaku::Pinfu => 3,
        Yaku::Iipeikou => 4,
        Yaku::HaiteiRaoyue => 5,
        Yaku::HouteiRaoyui => 6,
        Yaku::RinshanKaihou => 7,
        Yaku::Chankan => 8,
        Yaku::Tanyao => 9,
        Yaku::Ton => 10,
        Yaku::Nan => 11,
        Yaku::Sha => 12,
        Yaku::Pei => 13,
        Yaku::Haku => 14,
        Yaku::Hatsu => 15,
        Yaku::Chun => 16,
        Yaku::DoubleRiichi => 17,
        Yaku::Chantaiyao => 18,
        Yaku::SanshokuDoujun => 19,
        Yaku::Sankantsu => 20,
        Yaku::Ittsu => 21,
        Yaku::Toitoi => 22,
        Yaku::Sanankou => 23,
        Yaku::SanshokuDoukou => 24,
        Yaku::Chiitoitsu => 25,
        Yaku::Honroutou => 26,
        Yaku::Shousangen => 27,
        Yaku::Ryanpeikou => 28,
        Yaku::Honitsu => 29,
        Yaku::JunchanTaiyao => 30,
        Yaku::Chinitsu => 31,
        Yaku::Dora => 32,
        Yaku::Akadora => 33,
        Yaku::Uradora => 34,
    }
}

/// Computes `yakuman_index`.
pub fn yakuman_key(y: &Yakuman) -> (k: u8)
    ensures
        k == yakuman_index(*y),
{
    match y {
        Yakuman::KazoeYakuman => 0,
        Yakuman::KokushiMusou => 1,
        Yakuman::Suuankou => 2,
        Yakuman::Daisangen => 3,
        Yakuman::Shousuushii => 4,
        Yakuman::Daisuushii => 5,
        Yakuman::Tsuuiisou => 6,
        Yakuman::Chinroutou => 7,
        Yakuman::Ryuuiisou => 8,
        Yakuman::ChuurenPoutou => 9,
        Yakuman::Suukantsu => 10,
        Yakuman::Tenhou => 11,
        Yakuman::Chiihou => 12,
        Yakuman::NagashiMangan => 13,
    }
}

/// Computes `han_reason_index`.
pub fn han_reason_key(r: &HanReason) -> (k: u8)
    ensures
        k == han_reason_index(*r),
{
    match r {
        HanReason::Yaku(y) => yaku_key(y),
        HanReason::Yakuman(m) => 64 + yakuman_key(m),
    }
}

/// Stores contextual information needed to score a hand.
#[derive(Debug)]
pub struct HandContext {
    pub winning_tile: Tile,
    pub is_tsumo: bool,
    pub round_wind: Tile,
    pub player_wind: Tile,
    pub is_riichi: bool,
    pub is_double_riichi: bool,
    pub is_ippatsu: bool,
    pub is_haitei: bool,
    pub is_houtei: bool,
    pub is_rinshan: bool,
    pub is_chankan: bool,
    pub is_tenhou: bool,
    pub is_chiihou: bool,
    pub winning_meld: Vec<Tile>,
    pub n_dora: u8,
    pub n_akadora: u8,
    pub n_uradora: u8,
}

/// The mathematical value of a [`HandContext`].
pub ghost struct HandContextV {
    pub winning_tile: Tile,
    pub is_tsumo: bool,
    pub round_wind: Tile,
    pub player_wind: Tile,
    pub is_riichi: bool,
    pub is_double_riichi: bool,
    pub is_ippatsu: bool,
    pub is_haitei: bool,
    pub is_houtei: bool,
    pub is_rinshan: bool,
    pub is_chankan: bool,
    pub is_tenhou: bool,
    pub is_chiihou: bool,
    pub winning_meld: Seq<Tile>,
    pub n_dora: u8,
    pub n_akadora: u8,
    pub n_uradora: u8,
}

impl View for HandContext {
    type V = HandContextV;

    open spec fn view(&self) -> HandContextV {
        HandContextV {
            winning_tile: self.winning_tile,
            is_tsumo: self.is_tsumo,
            round_wind: self.round_wind,
            player_wind: self.player_wind,
            is_riichi: self.is_riichi,
            is_double_riichi: self.is_double_riichi,
            is_ippatsu: self.is_ippatsu,
            is_haitei: self.is_haitei,
            is_houtei: self.is_houtei,
            is_rinshan: self.is_rinshan,
            is_chankan: self.is_chankan,
            is_tenhou: self.is_tenhou,
            is_chiihou: self.is_chiihou,
            winning_meld: self.winning_meld@,
            n_dora: self.n_dora,
            n_akadora: self.n_akadora,
            n_uradora: self.n_uradora,
        }
    }
}

/// The context every field of which is unset: no flags, no bonus tiles, the
/// default tile everywhere.
pub open spec fn default_context() -> HandContextV {
    HandContextV {
        winning_tile: Tile { suit: Suit::Hon, number: 1 },
        is_tsumo: false,
        round_wind: Tile { suit: Suit::Hon, number: 1 },
        player_wind: Tile { suit: Suit::Hon, number: 1 },
        is_riichi: false,
        is_double_riichi: false,
        is_ippatsu: false,
        is_haitei: false,
        is_houtei: false,
        is_rinshan: false,
        is_chankan: false,
        is_tenhou: false,
        is_chiihou: false,
        winning_meld: Seq::empty(),
        n_dora: 0,
        n_akadora: 0,
        n_uradora: 0,
    }
}

impl Default for HandContext {
    fn default() -> (r: HandContext)
        ensures
            r@ == default_context(),
    {
        let r = HandContext {
            winning_tile: Tile { suit: Suit::Hon, number: 1 },
            is_tsumo: false,
            round_wind: Tile { suit: Suit::Hon, number: 1 },
            player_wind: Tile { suit: Suit::Hon, number: 1 },
            is_riichi: false,
            is_double_riichi: false,
            is_ippatsu: false,
            is_haitei: false,
            is_houtei: false,
            is_rinshan: false,
            is_chankan: false,
            is_tenhou: false,
            is_chiihou: false,
            winning_meld: Vec::new(),
            n_dora: 0,
            n_akadora: 0,
            n_uradora: 0,
        };
        proof {
            assert(r@ == default_context());
        }
        r
    }
}

impl Clone for HandContext {
    /// A copy whose mathematical value equals the original's.
    fn clone(&self) -> (r: HandContext)
        ensures
            r@ == self@,
    {
        HandContext {
            winning_tile: self.winning_tile,
            is_tsumo: self.is_tsumo,
            round_wind: self.round_wind,
            player_wind: self.player_wind,
            is_riichi: self.is_riichi,
            is_double_riichi: self.is_double_riichi,
            is_ippatsu: self.is_ippatsu,
            is_haitei: self.is_haitei,
            is_houtei: self.is_houtei,
            is_rinshan: self.is_rinshan,
            is_chankan: self.is_chankan,
            is_tenhou: self.is_tenhou,
            is_chiihou: self.is_chiihou,
            winning_meld: copy_tiles(&self.winning_meld),
            n_dora: self.n_dora,
            n_akadora: self.n_akadora,
            n_uradora: self.n_uradora,
        }
    }
}

} // verus!
