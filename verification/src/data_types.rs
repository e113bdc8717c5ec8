//! The composite values that status updates are made of, and how they are
//! read from a buffer.
//!
//! Every reader leaves the cursor where it was when it fails.

use crate::byte_buffer::{ByteBuffer, ReadError};
use crate::rotmg_packet::{past_string, past_uint, string_field, uint_field};
use crate::varint::decode_varint;
use vstd::prelude::*;

verus! {

/// Where the field after a variable-length 32-bit integer starts.
pub open spec fn past_varint(b: Seq<u8>, at: Result<int, ReadError>) -> Result<int, ReadError> {
    match at {
        Err(e) => Err(e),
        Ok(i) => match decode_varint(b.skip(i), i32::MIN as int, i32::MAX as int) {
            Ok((_, width)) => Ok(i + width),
            Err(e) => Err(e),
        },
    }
}

/// The variable-length 32-bit integer that starts at `at`.
pub open spec fn varint_field(b: Seq<u8>, at: Result<int, ReadError>) -> i32 {
    decode_varint(b.skip(at->Ok_0), i32::MIN as int, i32::MAX as int)->Ok_0.0 as i32
}

/// A position on the map. Each coordinate is the bit pattern of an IEEE-754
/// single.
#[derive(Clone, Copy, Debug, PartialEq, Eq, Structural)]
pub struct PositionData {
    pub x: u32,
    pub y: u32,
}

/// One tile of the ground.
#[derive(Clone, Copy, Debug, PartialEq, Eq, Structural)]
pub struct GroundTileData {
    pub x: u16,
    pub y: u16,
    pub type_num: u16,
}

/// The kind of a statistic. On the wire it is one byte; a byte that names no
/// known kind is kept as `Unknown`.
#[derive(Clone, Copy, Debug, PartialEq, Eq, Structural)]
pub enum StatType {
    MaxHp,
    Hp,
    Size,
    MaxMp,
    Mp,
    NextLevelExp,
    Exp,
    Level,
    Inv0,
    Inv1,
    Inv2,
    Inv3,
    Inv4,
    Inv5,
    Inv6,
    Inv7,
    Inv8,
    Inv9,
    Inv10,
    Inv11,
    Attack,
    Defense,
    Speed,
    Unknown23,
    Seasonal,
    SkinId,
    Vitality,
    Wisdom,
    Dexterity,
    Condition,
    NumStars,
    Name,
    Tex1,
    Tex2,
    MerchType,
    Credits,
    MerchandisePrice,
    Active,
    AccountId,
    Fame,
    MerchCurrency,
    Connect,
    MerchCount,
    MerchMinsLeft,
    MerchDiscount,
    MerchRankReq,
    MaxHpBoost,
    MaxMpBoost,
    AttackBoost,
    DefenseBoost,
    SpeedBoost,
    VitalityBoost,
    WisdomBoost,
    DesterityBoost,
    OwnerAccountId,
    RankRequired,
    NameChosen,
    CurrentFame,
    NextClassQuestFame,
    LegendaryRank,
    SinkLevel,
    AltTexture,
    GuildName,
    GuildRankStat,
    Breath,
    XpBoosted,
    XpTimer,
    LdTimer,
    LtTimer,
    HealthPotionStack,
    MagicPotionStack,
    Backpack0,
    Backpack1,
    Backpack2,
    Backpack3,
    Backpack4,
    Backpack5,
    Backpack6,
    Backpack7,
    HasBackpack,
    Texture,
    PetInstanceId,
    PetName,
    PetType,
    PetRarity,
    PetMaxAbilityPower,
    PetFamily,
    PetFirstAbilityPoint,
    PetSecondAbilityPoint,
    PetThirdAbilityPoint,
    PetFirstAbilityPower,
    PetSecondAbilityPower,
    PetThirdAbilityPower,
    PetFirstAbilityType,
    PetSecondAbilityType,
    PetThirdAbilityType,
    NewCon,
    FortuneToken,
    SupporterPoints,
    Supporter,
    ChallengerStarBG,
    PlayerId,
    ProjectileSpeedMul,
    ProjectileLifeMul,
    OwnedAtTimestamp,
    ExaltedAttack,
    ExaltedDefense,
    ExaltedSpeed,
    ExaltedVitality,
    ExaltedWisdom,
    ExaltedDexterity,
    ExaltedHp,
    ExaltedMp,
    ExaltationBonusDamage,
    ExaltationIcReduction,
    GraveAccountId,
    PotionOneType,
    PotionTwoType,
    PotionThreeType,
    PotionBelt,
    ForgeFire,
    Unknown121,
    Unknown122,
    Unknown123,
    Unknown124,
    AnimationId,
    Unknown126,
    Enchantment,
    Unknown(u8),
}

impl StatType {
    /// The byte that stands for this kind on the wire.
    pub open spec fn code(self) -> u8 {
        match self {
            StatType::MaxHp => 0,
            StatType::Hp => 1,
            StatType::Size => 2,
            StatType::MaxMp => 3,
            StatType::Mp => 4,
            StatType::NextLevelExp => 5,
            StatType::Exp => 6,
            StatType::Level => 7,
            StatType::Inv0 => 8,
            StatType::Inv1 => 9,
            StatType::Inv2 => 10,
            StatType::Inv3 => 11,
            StatType::Inv4 => 12,
            StatType::Inv5 => 13,
            StatType::Inv6 => 14,
            StatType::Inv7 => 15,
            StatType::Inv8 => 16,
            StatType::Inv9 => 17,
            StatType::Inv10 => 18,
            StatType::Inv11 => 19,
            StatType::Attack => 20,
            StatType::Defense => 21,
            StatType::Speed => 22,
            StatType::Unknown23 => 23,
            StatType::Seasonal => 24,
            StatType::SkinId => 25,
            StatType::Vitality => 26,
            StatType::Wisdom => 27,
            StatType::Dexterity => 28,
            StatType::Condition => 29,
            StatType::NumStars => 30,
            StatType::Name => 31,
            StatType::Tex1 => 32,
            StatType::Tex2 => 33,
            StatType::MerchType => 34,
            StatType::Credits => 35,
            StatType::MerchandisePrice => 36,
            StatType::Active => 37,
            StatType::AccountId => 38,
            StatType::Fame => 39,
            StatType::MerchCurrency => 40,
            StatType::Connect => 41,
            StatType::MerchCount => 42,
            StatType::MerchMinsLeft => 43,
            StatType::MerchDiscount => 44,
            StatType::MerchRankReq => 45,
            StatType::MaxHpBoost => 46,
            StatType::MaxMpBoost => 47,
            StatType::AttackBoost => 48,
            StatType::DefenseBoost => 49,
            StatType::SpeedBoost => 50,
            StatType::VitalityBoost => 51,
            StatType::WisdomBoost => 52,
            StatType::DesterityBoost => 53,
            StatType::OwnerAccountId => 54,
            StatType::RankRequired => 55,
            StatType::NameChosen => 56,
            StatType::CurrentFame => 57,
            StatType::NextClassQuestFame => 58,
            StatType::LegendaryRank => 59,
            StatType::SinkLevel => 60,
            StatType::AltTexture => 61,
            StatType::GuildName => 62,
            StatType::GuildRankStat => 63,
            StatType::Breath => 64,
            StatType::XpBoosted => 65,
            StatType::XpTimer => 66,
            StatType::LdTimer => 67,
            StatType::LtTimer => 68,
            StatType::HealthPotionStack => 69,
            StatType::MagicPotionStack => 70,
            StatType::Backpack0 => 71,
            StatType::Backpack1 => 72,
            StatType::Backpack2 => 73,
            StatType::Backpack3 => 74,
            StatType::Backpack4 => 75,
            StatType::Backpack5 => 76,
            StatType::Backpack6 => 77,
            StatType::Backpack7 => 78,
            StatType::HasBackpack => 79,
            StatType::Texture => 80,
            StatType::PetInstanceId => 81,
            StatType::PetName => 82,
            StatType::PetType => 83,
            StatType::PetRarity => 84,
            StatType::PetMaxAbilityPower => 85,
            StatType::PetFamily => 86,
            StatType::PetFirstAbilityPoint => 87,
            StatType::PetSecondAbilityPoint => 88,
            StatType::PetThirdAbilityPoint => 89,
            StatType::PetFirstAbilityPower => 90,
            StatType::PetSecondAbilityPower => 91,
            StatType::PetThirdAbilityPower => 92,
            StatType::PetFirstAbilityType => 93,
            StatType::PetSecondAbilityType => 94,
            StatType::PetThirdAbilityType => 95,
            StatType::NewCon => 96,
            StatType::FortuneToken => 97,
            StatType::SupporterPoints => 98,
            StatType::Supporter => 99,
            StatType::ChallengerStarBG => 100,
            StatType::PlayerId => 101,
            StatType::ProjectileSpeedMul => 102,
            StatType::ProjectileLifeMul => 103,
            StatType::OwnedAtTimestamp => 104,
            StatType::ExaltedAttack => 105,
            StatType::ExaltedDefense => 106,
            StatType::ExaltedSpeed => 107,
            StatType::ExaltedVitality => 108,
            StatType::ExaltedWisdom => 109,
            StatType::ExaltedDexterity => 110,
            StatType::ExaltedHp => 111,
            StatType::ExaltedMp => 112,
            StatType::ExaltationBonusDamage => 113,
            StatType::ExaltationIcReduction => 114,
            StatType::GraveAccountId => 115,
            StatType::PotionOneType => 116,
            StatType::PotionTwoType => 117,
            StatType::PotionThreeType => 118,
            StatType::PotionBelt => 119,
            StatType::ForgeFire => 120,
            StatType::Unknown121 => 121,
            StatType::Unknown122 => 122,
            StatType::Unknown123 => 123,
            StatType::Unknown124 => 124,
            StatType::AnimationId => 125,
            StatType::Unknown126 => 126,
            StatType::Enchantment => 127,
            StatType::Unknown(c) => c,
        }
    }

    /// Whether statistics of this kind hold a string; all others hold a
    /// variable-length integer.
    pub open spec fn holds_text(self) -> bool {
        match self {
            StatType::Exp
            | StatType::Name
            | StatType::AccountId
            | StatType::OwnerAccountId
            | StatType::GuildName
            | StatType::Texture
            | StatType::PetName
            | StatType::GraveAccountId
            | StatType::Unknown121
            | StatType::Enchantment => true,
            _ => false,
        }
    }

    /// The kind that `code` stands for.
    pub fn from_u8(code: u8) -> (kind: StatType)
        ensures
            kind.code() == code,
            kind is Unknown <==> code >= 128,
            kind.holds_text() == is_string_code(code),
    {
        match code {
            0 => StatType::MaxHp,
            1 => StatType::Hp,
            2 => StatType::Size,
            3 => StatType::MaxMp,
            4 => StatType::Mp,
            5 => StatType::NextLevelExp,
            6 => StatType::Exp,
            7 => StatType::Level,
            8 => StatType::Inv0,
            9 => StatType::Inv1,
            10 => StatType::Inv2,
            11 => StatType::Inv3,
            12 => StatType::Inv4,
            13 => StatType::Inv5,
            14 => StatType::Inv6,
            15 => StatType::Inv7,
            16 => StatType::Inv8,
            17 => StatType::Inv9,
            18 => StatType::Inv10,
            19 => StatType::Inv11,
            20 => StatType::Attack,
            21 => StatType::Defense,
            22 => StatType::Speed,
            23 => StatType::Unknown23,
            24 => StatType::Seasonal,
            25 => StatType::SkinId,
            26 => StatType::Vitality,
            27 => StatType::Wisdom,
            28 => StatType::Dexterity,
            29 => StatType::Condition,
            30 => StatType::NumStars,
            31 => StatType::Name,
            32 => StatType::Tex1,
            33 => StatType::Tex2,
            34 => StatType::MerchType,
            35 => StatType::Credits,
            36 => StatType::MerchandisePrice,
            37 => StatType::Active,
            38 => StatType::AccountId,
            39 => StatType::Fame,
            40 => StatType::MerchCurrency,
            41 => StatType::Connect,
            42 => StatType::MerchCount,
            43 => StatType::MerchMinsLeft,
            44 => StatType::MerchDiscount,
            45 => StatType::MerchRankReq,
            46 => StatType::MaxHpBoost,
            47 => StatType::MaxMpBoost,
            48 => StatType::AttackBoost,
            49 => StatType::DefenseBoost,
            50 => StatType::SpeedBoost,
            51 => StatType::VitalityBoost,
            52 => StatType::WisdomBoost,
            53 => StatType::DesterityBoost,
            54 => StatType::OwnerAccountId,
            55 => StatType::RankRequired,
            56 => StatType::NameChosen,
            57 => StatType::CurrentFame,
            58 => StatType::NextClassQuestFame,
            59 => StatType::LegendaryRank,
            60 => StatType::SinkLevel,
            61 => StatType::AltTexture,
            62 => StatType::GuildName,
            63 => StatType::GuildRankStat,
            64 => StatType::Breath,
            65 => StatType::XpBoosted,
            66 => StatType::XpTimer,
            67 => StatType::LdTimer,
            68 => StatType::LtTimer,
            69 => StatType::HealthPotionStack,
            70 => StatType::MagicPotionStack,
            71 => StatType::Backpack0,
            72 => StatType::Backpack1,
            73 => StatType::Backpack2,
            74 => StatType::Backpack3,
            75 => StatType::Backpack4,
            76 => StatType::Backpack5,
            77 => StatType::Backpack6,
            78 => StatType::Backpack7,
            79 => StatType::HasBackpack,
            80 => StatType::Texture,
            81 => StatType::PetInstanceId,
            82 => StatType::PetName,
            83 => StatType::PetType,
            84 => StatType::PetRarity,
            85 => StatType::PetMaxAbilityPower,
            86 => StatType::PetFamily,
            87 => StatType::PetFirstAbilityPoint,
            88 => StatType::PetSecondAbilityPoint,
            89 => StatType::PetThirdAbilityPoint,
            90 => StatType::PetFirstAbilityPower,
            91 => StatType::PetSecondAbilityPower,
            92 => StatType::PetThirdAbilityPower,
            93 => StatType::PetFirstAbilityType,
            94 => StatType::PetSecondAbilityType,
            95 => StatType::PetThirdAbilityType,
            96 => StatType::NewCon,
            97 => StatType::FortuneToken,
            98 => StatType::SupporterPoints,
            99 => StatType::Supporter,
            100 => StatType::ChallengerStarBG,
            101 => StatType::PlayerId,
            102 => StatType::ProjectileSpeedMul,
            103 => StatType::ProjectileLifeMul,
            104 => StatType::OwnedAtTimestamp,
            105 => StatType::ExaltedAttack,
            106 => StatType::ExaltedDefense,
            107 => StatType::ExaltedSpeed,
            108 => StatType::ExaltedVitality,
            109 => StatType::ExaltedWisdom,
            110 => StatType::ExaltedDexterity,
            111 => StatType::ExaltedHp,
            112 => StatType::ExaltedMp,
            113 => StatType::ExaltationBonusDamage,
            114 => StatType::ExaltationIcReduction,
            115 => StatType::GraveAccountId,
            116 => StatType::PotionOneType,
            117 => StatType::PotionTwoType,
            118 => StatType::PotionThreeType,
            119 => StatType::PotionBelt,
            120 => StatType::ForgeFire,
            121 => StatType::Unknown121,
            122 => StatType::Unknown122,
            123 => StatType::Unknown123,
            124 => StatType::Unknown124,
            125 => StatType::AnimationId,
            126 => StatType::Unknown126,
            127 => StatType::Enchantment,
            other => StatType::Unknown(other),
        }
    }
}

/// Whether the statistic with this wire code holds a string.
pub open spec fn is_string_code(code: u8) -> bool {
    code == 6 || code == 31 || code == 38 || code == 54 || code == 62 || code == 80 || code == 82
        || code == 115 || code == 121 || code == 127
}

/// The value of a statistic.
#[derive(Clone, Debug, PartialEq, Eq)]
pub enum StatValue {
    StringValue(String),
    IntValue(i32),
}

/// The value of a statistic as a value.
pub ghost enum StatValueView {
    Text(Seq<char>),
    Number(i32),
}

impl View for StatValue {
    type V = StatValueView;

    open spec fn view(&self) -> StatValueView {
        match *self {
            StatValue::StringValue(text) => StatValueView::Text(text@),
            StatValue::IntValue(n) => StatValueView::Number(n),
        }
    }
}

/// One statistic of an object.
#[derive(Clone, Debug, PartialEq, Eq)]
pub struct StatData {
    pub stat_type: StatType,
    pub stat_value: StatValue,
    pub stat_value_two: i32,
}

/// A statistic as a value; its kind is given by its wire code.
pub ghost struct StatDataView {
    pub stat_code: u8,
    pub stat_value: StatValueView,
    pub stat_value_two: i32,
}

impl View for StatData {
    type V = StatDataView;

    open spec fn view(&self) -> StatDataView {
        StatDataView {
            stat_code: self.stat_type.code(),
            stat_value: self.stat_value@,
            stat_value_two: self.stat_value_two,
        }
    }
}

/// The state of an object.
#[derive(Clone, Debug, PartialEq, Eq)]
pub struct ObjectStatusData {
    pub object_id: i32,
    pub position: PositionData,
    pub stats: Vec<StatData>,
}

/// The state of an object as a value.
pub ghost struct ObjectStatusView {
    pub object_id: i32,
    pub position: PositionData,
    pub stats: Seq<StatDataView>,
}

impl View for ObjectStatusData {
    type V = ObjectStatusView;

    open spec fn view(&self) -> ObjectStatusView {
        ObjectStatusView {
            object_id: self.object_id,
            position: self.position,
            stats: stat_views(self.stats@),
        }
    }
}

/// An object and its state.
#[derive(Clone, Debug, PartialEq, Eq)]
pub struct ObjectData {
    pub type_num: u16,
    pub status_data: ObjectStatusData,
}

/// An object and its state as a value.
pub ghost struct ObjectDataView {
    pub type_num: u16,
    pub status_data: ObjectStatusView,
}

impl View for ObjectData {
    type V = ObjectDataView;

    open spec fn view(&self) -> ObjectDataView {
        ObjectDataView { type_num: self.type_num, status_data: self.status_data@ }
    }
}

/// Ground tiles as values: they are their own.
pub open spec fn ground_tiles(items: Seq<GroundTileData>) -> Seq<GroundTileData> {
    items
}

/// Statistics as values.
pub open spec fn stat_views(items: Seq<StatData>) -> Seq<StatDataView> {
    items.map_values(|s: StatData| s@)
}

/// Object states as values.
pub open spec fn status_views(items: Seq<ObjectStatusData>) -> Seq<ObjectStatusView> {
    items.map_values(|s: ObjectStatusData| s@)
}

/// Objects as values.
pub open spec fn object_views(items: Seq<ObjectData>) -> Seq<ObjectDataView> {
    items.map_values(|s: ObjectData| s@)
}

/// A position at `start`: two numbers of four bytes.
pub open spec fn position_layout(b: Seq<u8>, start: int) -> Result<
    (PositionData, int),
    ReadError,
> {
    let x = Ok::<int, ReadError>(start);
    let y = past_uint(b, x, 4);
    match past_uint(b, y, 4) {
        Err(e) => Err(e),
        Ok(end) => Ok(
            (PositionData { x: uint_field(b, x, 4) as u32, y: uint_field(b, y, 4) as u32 }, end),
        ),
    }
}

/// A ground tile at `start`: three numbers of two bytes.
pub open spec fn ground_tile_layout(b: Seq<u8>, start: int) -> Result<
    (GroundTileData, int),
    ReadError,
> {
    let x = Ok::<int, ReadError>(start);
    let y = past_uint(b, x, 2);
    let type_num = past_uint(b, y, 2);
    match past_uint(b, type_num, 2) {
        Err(e) => Err(e),
        Ok(end) => Ok(
            (
                GroundTileData {
                    x: uint_field(b, x, 2) as u16,
                    y: uint_field(b, y, 2) as u16,
                    type_num: uint_field(b, type_num, 2) as u16,
                },
                end,
            ),
        ),
    }
}

/// The value of a statistic at `start`: a string where `text` holds, else a
/// variable-length integer.
pub open spec fn stat_value_layout(b: Seq<u8>, start: int, text: bool) -> Result<
    (StatValueView, int),
    ReadError,
> {
    let value = Ok::<int, ReadError>(start);
    if text {
        match past_string(b, value) {
            Err(e) => Err(e),
            Ok(end) => Ok((StatValueView::Text(string_field(b, value)), end)),
        }
    } else {
        match past_varint(b, value) {
            Err(e) => Err(e),
            Ok(end) => Ok((StatValueView::Number(varint_field(b, value)), end)),
        }
    }
}

/// A statistic at `start`: its wire code, its value, and a variable-length
/// integer.
pub open spec fn stat_data_layout(b: Seq<u8>, start: int) -> Result<
    (StatDataView, int),
    ReadError,
> {
    let stat_code = Ok::<int, ReadError>(start);
    match past_uint(b, stat_code, 1) {
        Err(e) => Err(e),
        Ok(value) => {
            let code = uint_field(b, stat_code, 1) as u8;
            match stat_value_layout(b, value, is_string_code(code)) {
                Err(e) => Err(e),
                Ok((stat_value, stat_value_two)) => match past_varint(
                    b,
                    Ok::<int, ReadError>(stat_value_two),
                ) {
                    Err(e) => Err(e),
                    Ok(end) => Ok(
                        (
                            StatDataView {
                                stat_code: code,
                                stat_value,
                                stat_value_two: varint_field(
                                    b,
                                    Ok::<int, ReadError>(stat_value_two),
                                ),
                            },
                            end,
                        ),
                    ),
                },
            }
        },
    }
}

/// `n` ground tiles in a row from `start` on.
pub open spec fn ground_tile_run(b: Seq<u8>, start: int, n: int) -> Result<
    (Seq<GroundTileData>, int),
    ReadError,
>
    decreases n,
{
    if n <= 0 {
        Ok((Seq::empty(), start))
    } else {
        match ground_tile_layout(b, start) {
            Err(e) => Err(e),
            Ok((first, next)) => match ground_tile_run(b, next, n - 1) {
                Err(e) => Err(e),
                Ok((others, end)) => Ok((seq![first] + others, end)),
            },
        }
    }
}

/// A variable-length count at `start`, then that many ground tiles. A count below
/// zero is ill-formed.
pub open spec fn ground_tile_array(b: Seq<u8>, start: int) -> Result<
    (Seq<GroundTileData>, int),
    ReadError,
> {
    let count = Ok::<int, ReadError>(start);
    match past_varint(b, count) {
        Err(e) => Err(e),
        Ok(first) => if varint_field(b, count) < 0 {
            Err(ReadError::BadVarint)
        } else {
            ground_tile_run(b, first, varint_field(b, count) as int)
        },
    }
}

/// `n` statistics in a row from `start` on.
pub open spec fn stat_data_run(b: Seq<u8>, start: int, n: int) -> Result<
    (Seq<StatDataView>, int),
    ReadError,
>
    decreases n,
{
    if n <= 0 {
        Ok((Seq::empty(), start))
    } else {
        match stat_data_layout(b, start) {
            Err(e) => Err(e),
            Ok((first, next)) => match stat_data_run(b, next, n - 1) {
                Err(e) => Err(e),
                Ok((others, end)) => Ok((seq![first] + others, end)),
            },
        }
    }
}

/// A variable-length count at `start`, then that many statistics. A count below
/// zero is ill-formed.
pub open spec fn stat_data_array(b: Seq<u8>, start: int) -> Result<
    (Seq<StatDataView>, int),
    ReadError,
> {
    let count = Ok::<int, ReadError>(start);
    match past_varint(b, count) {
        Err(e) => Err(e),
        Ok(first) => if varint_field(b, count) < 0 {
            Err(ReadError::BadVarint)
        } else {
            stat_data_run(b, first, varint_field(b, count) as int)
        },
    }
}

/// The state of an object at `start`: its number as a variable-length
/// integer, its position, and a counted run of statistics.
pub open spec fn object_status_layout(b: Seq<u8>, start: int) -> Result<
    (ObjectStatusView, int),
    ReadError,
> {
    let object_id = Ok::<int, ReadError>(start);
    match past_varint(b, object_id) {
        Err(e) => Err(e),
        Ok(position) => match position_layout(b, position) {
            Err(e) => Err(e),
            Ok((at, stats)) => match stat_data_array(b, stats) {
                Err(e) => Err(e),
                Ok((all, end)) => Ok(
                    (
                        ObjectStatusView {
                            object_id: varint_field(b, object_id),
                            position: at,
                            stats: all,
                        },
                        end,
                    ),
                ),
            },
        },
    }
}

/// An object at `start`: its type as a number of two bytes, then its state.
pub open spec fn object_data_layout(b: Seq<u8>, start: int) -> Result<
    (ObjectDataView, int),
    ReadError,
> {
    let type_num = Ok::<int, ReadError>(start);
    match past_uint(b, type_num, 2) {
        Err(e) => Err(e),
        Ok(status) => match object_status_layout(b, status) {
            Err(e) => Err(e),
            Ok((status_data, end)) => Ok(
                (ObjectDataView { type_num: uint_field(b, type_num, 2) as u16, status_data }, end),
            ),
        },
    }
}

/// `n` object states in a row from `start` on.
pub open spec fn object_status_run(b: Seq<u8>, start: int, n: int) -> Result<
    (Seq<ObjectStatusView>, int),
    ReadError,
>
    decreases n,
{
    if n <= 0 {
        Ok((Seq::empty(), start))
    } else {
        match object_status_layout(b, start) {
            Err(e) => Err(e),
            Ok((first, next)) => match object_status_run(b, next, n - 1) {
                Err(e) => Err(e),
                Ok((others, end)) => Ok((seq![first] + others, end)),
            },
        }
    }
}

/// A variable-length count at `start`, then that many object states. A count below
/// zero is ill-formed.
pub open spec fn object_status_array(b: Seq<u8>, start: int) -> Result<
    (Seq<ObjectStatusView>, int),
    ReadError,
> {
    let count = Ok::<int, ReadError>(start);
    match past_varint(b, count) {
        Err(e) => Err(e),
        Ok(first) => if varint_field(b, count) < 0 {
            Err(ReadError::BadVarint)
        } else {
            object_status_run(b, first, varint_field(b, count) as int)
        },
    }
}

/// `n` objects in a row from `start` on.
pub open spec fn object_data_run(b: Seq<u8>, start: int, n: int) -> Result<
    (Seq<ObjectDataView>, int),
    ReadError,
>
    decreases n,
{
    if n <= 0 {
        Ok((Seq::empty(), start))
    } else {
        match object_data_layout(b, start) {
            Err(e) => Err(e),
            Ok((first, next)) => match object_data_run(b, next, n - 1) {
                Err(e) => Err(e),
                Ok((others, end)) => Ok((seq![first] + others, end)),
            },
        }
    }
}

/// A variable-length count at `start`, then that many objects. A count below
/// zero is ill-formed.
pub open spec fn object_data_array(b: Seq<u8>, start: int) -> Result<
    (Seq<ObjectDataView>, int),
    ReadError,
> {
    let count = Ok::<int, ReadError>(start);
    match past_varint(b, count) {
        Err(e) => Err(e),
        Ok(first) => if varint_field(b, count) < 0 {
            Err(ReadError::BadVarint)
        } else {
            object_data_run(b, first, varint_field(b, count) as int)
        },
    }
}

/// Read a variable-length 32-bit integer, as [`ByteBuffer::read_compressed_i32`]
/// does, with the outcome stated over positions in the whole buffer.
fn read_varint(buf: &mut ByteBuffer) -> (r: Result<i32, ReadError>)
    ensures
        final(buf)@ == old(buf)@,
        match past_varint(old(buf)@, Ok::<int, ReadError>(old(buf).spec_index())) {
            Ok(end) => r == Ok::<i32, ReadError>(
                varint_field(old(buf)@, Ok::<int, ReadError>(old(buf).spec_index())),
            ) && final(buf).spec_index() == end,
            Err(e) => r == Err::<i32, ReadError>(e) && final(buf).spec_index() == old(
                buf,
            ).spec_index(),
        },
{
    buf.read_compressed_i32()
}

/// Put the cursor of `buf` back at `start`, which it has passed.
fn rewind(buf: &mut ByteBuffer, start: usize)
    requires
        start <= old(buf)@.len(),
    ensures
        final(buf)@ == old(buf)@,
        final(buf).spec_index() == start,
{
    let _ = buf.seek(start);
}

impl PositionData {
    /// Read a position: two numbers of four bytes.
    pub fn deserialize_from_buf(buf: &mut ByteBuffer) -> (r: Result<Self, ReadError>)
        ensures
            final(buf)@ == old(buf)@,
            match position_layout(old(buf)@, old(buf).spec_index()) {
                Ok((value, end)) => r is Ok && r->Ok_0 == value
                    && final(buf).spec_index() == end,
                Err(e) => r is Err && r->Err_0 == e && final(buf).spec_index() == old(
                    buf,
                ).spec_index(),
            },
    {
        let start: usize = buf.index();
        let x: u32 = buf.read_f32()?;
        match buf.read_f32() {
            Ok(y) => Ok(PositionData { x, y }),
            Err(e) => {
                rewind(buf, start);
                Err(e)
            },
        }
    }
}

impl GroundTileData {
    /// Read a ground tile: three numbers of two bytes.
    pub fn deserialize_from_buf(buf: &mut ByteBuffer) -> (r: Result<Self, ReadError>)
        ensures
            final(buf)@ == old(buf)@,
            match ground_tile_layout(old(buf)@, old(buf).spec_index()) {
                Ok((value, end)) => r is Ok && r->Ok_0 == value
                    && final(buf).spec_index() == end,
                Err(e) => r is Err && r->Err_0 == e && final(buf).spec_index() == old(
                    buf,
                ).spec_index(),
            },
    {
        let start: usize = buf.index();
        let x: u16 = buf.read_u16()?;
        let y: u16 = match buf.read_u16() {
            Ok(y) => y,
            Err(e) => {
                rewind(buf, start);
                return Err(e);
            },
        };
        match buf.read_u16() {
            Ok(type_num) => Ok(GroundTileData { x, y, type_num }),
            Err(e) => {
                rewind(buf, start);
                Err(e)
            },
        }
    }

    /// Read a variable-length count and then that many ground tiles.
    pub fn deserialize_arr_from_buf(buf: &mut ByteBuffer) -> (r: Result<Vec<Self>, ReadError>)
        ensures
            final(buf)@ == old(buf)@,
            match ground_tile_array(old(buf)@, old(buf).spec_index()) {
                Ok((value, end)) => r is Ok && ground_tiles(r->Ok_0@) == value
                    && final(buf).spec_index() == end,
                Err(e) => r is Err && r->Err_0 == e && final(buf).spec_index() == old(
                    buf,
                ).spec_index(),
            },
    {
        let start: usize = buf.index();
        let len: i32 = read_varint(buf)?;
        if len < 0 {
            rewind(buf, start);
            return Err(ReadError::BadVarint);
        }
        match Self::deserialize_n_from_buf(buf, len as usize) {
            Ok(all) => Ok(all),
            Err(e) => {
                rewind(buf, start);
                Err(e)
            },
        }
    }

    /// Read `n` ground tiles in a row.
    pub fn deserialize_n_from_buf(buf: &mut ByteBuffer, n: usize) -> (r: Result<
        Vec<Self>,
        ReadError,
    >)
        ensures
            final(buf)@ == old(buf)@,
            match ground_tile_run(old(buf)@, old(buf).spec_index(), n as int) {
                Ok((value, end)) => r is Ok && ground_tiles(r->Ok_0@) == value
                    && final(buf).spec_index() == end,
                Err(e) => r is Err && r->Err_0 == e && final(buf).spec_index() == old(
                    buf,
                ).spec_index(),
            },
    {
        let start: usize = buf.index();
        let ghost b = buf@;
        let mut ret: Vec<Self> = Vec::new();
        let mut k: usize = 0;
        while k < n
            invariant
                k <= n,
                buf@ == b,
                b == old(buf)@,
                start == old(buf).spec_index(),
                start <= b.len(),
                ground_tile_run(b, start as int, n as int) == match ground_tile_run(
                    b,
                    buf.spec_index(),
                    n - k,
                ) {
                    Ok((others, end)) => Ok::<(Seq<GroundTileData>, int), ReadError>(
                        (ground_tiles(ret@) + others, end),
                    ),
                    Err(e) => Err(e),
                },
            decreases n - k,
        {
            let ghost taken = ground_tiles(ret@);
            match Self::deserialize_from_buf(buf) {
                Ok(item) => {
                    ret.push(item);
                    proof {
                        match ground_tile_run(b, buf.spec_index(), n - k - 1) {
                            Ok((others, end)) => {
                                assert(taken + (seq![item] + others) =~= ground_tiles(ret@)
                                    + others);
                            },
                            Err(e) => {},
                        }
                    }
                },
                Err(e) => {
                    rewind(buf, start);
                    return Err(e);
                },
            }
            k = k + 1;
        }
        proof {
            assert(ground_tiles(ret@) + Seq::empty() =~= ground_tiles(ret@));
        }
        Ok(ret)
    }
}

impl StatValue {
    /// Read the value of a statistic of kind `stat_type`: a string for the
    /// kinds that hold text, a variable-length integer for all others.
    pub fn deserialize_from_buf(buf: &mut ByteBuffer, stat_type: StatType) -> (r: Result<
        Self,
        ReadError,
    >)
        ensures
            final(buf)@ == old(buf)@,
            match stat_value_layout(old(buf)@, old(buf).spec_index(), stat_type.holds_text()) {
                Ok((value, end)) => r is Ok && r->Ok_0@ == value
                    && final(buf).spec_index() == end,
                Err(e) => r is Err && r->Err_0 == e && final(buf).spec_index() == old(
                    buf,
                ).spec_index(),
            },
    {
        match stat_type {
            StatType::Exp
            | StatType::Name
            | StatType::AccountId
            | StatType::OwnerAccountId
            | StatType::GuildName
            | StatType::Texture
            | StatType::PetName
            | StatType::GraveAccountId
            | StatType::Unknown121
            | StatType::Enchantment => Ok(StatValue::StringValue(buf.read_string()?)),
            _ => Ok(StatValue::IntValue(read_varint(buf)?)),
        }
    }
}

impl StatData {
    /// Read a statistic: its kind, its value, and a variable-length integer.
    pub fn deserialize_from_buf(buf: &mut ByteBuffer) -> (r: Result<Self, ReadError>)
        ensures
            final(buf)@ == old(buf)@,
            match stat_data_layout(old(buf)@, old(buf).spec_index()) {
                Ok((value, end)) => r is Ok && r->Ok_0@ == value
                    && final(buf).spec_index() == end,
                Err(e) => r is Err && r->Err_0 == e && final(buf).spec_index() == old(
                    buf,
                ).spec_index(),
            },
    {
        let start: usize = buf.index();
        let stat_type: StatType = StatType::from_u8(buf.read_u8()?);
        let stat_value: StatValue = match StatValue::deserialize_from_buf(buf, stat_type) {
            Ok(v) => v,
            Err(e) => {
                rewind(buf, start);
                return Err(e);
            },
        };
        match read_varint(buf) {
            Ok(stat_value_two) => Ok(StatData { stat_type, stat_value, stat_value_two }),
            Err(e) => {
                rewind(buf, start);
                Err(e)
            },
        }
    }

    /// Read a variable-length count and then that many statistics.
    pub fn deserialize_arr_from_buf(buf: &mut ByteBuffer) -> (r: Result<Vec<Self>, ReadError>)
        ensures
            final(buf)@ == old(buf)@,
            match stat_data_array(old(buf)@, old(buf).spec_index()) {
                Ok((value, end)) => r is Ok && stat_views(r->Ok_0@) == value
                    && final(buf).spec_index() == end,
                Err(e) => r is Err && r->Err_0 == e && final(buf).spec_index() == old(
                    buf,
                ).spec_index(),
            },
    {
        let start: usize = buf.index();
        let len: i32 = read_varint(buf)?;
        if len < 0 {
            rewind(buf, start);
            return Err(ReadError::BadVarint);
        }
        match Self::deserialize_n_from_buf(buf, len as usize) {
            Ok(all) => Ok(all),
            Err(e) => {
                rewind(buf, start);
                Err(e)
            },
        }
    }

    /// Read `n` statistics in a row.
    pub fn deserialize_n_from_buf(buf: &mut ByteBuffer, n: usize) -> (r: Result<
        Vec<Self>,
        ReadError,
    >)
        ensures
            final(buf)@ == old(buf)@,
            match stat_data_run(old(buf)@, old(buf).spec_index(), n as int) {
                Ok((value, end)) => r is Ok && stat_views(r->Ok_0@) == value
                    && final(buf).spec_index() == end,
                Err(e) => r is Err && r->Err_0 == e && final(buf).spec_index() == old(
                    buf,
                ).spec_index(),
            },
    {
        let start: usize = buf.index();
        let ghost b = buf@;
        let mut ret: Vec<Self> = Vec::new();
        let mut k: usize = 0;
        while k < n
            invariant
                k <= n,
                buf@ == b,
                b == old(buf)@,
                start == old(buf).spec_index(),
                start <= b.len(),
                stat_data_run(b, start as int, n as int) == match stat_data_run(
                    b,
                    buf.spec_index(),
                    n - k,
                ) {
                    Ok((others, end)) => Ok::<(Seq<StatDataView>, int), ReadError>(
                        (stat_views(ret@) + others, end),
                    ),
                    Err(e) => Err(e),
                },
            decreases n - k,
        {
            let ghost taken = stat_views(ret@);
            match Self::deserialize_from_buf(buf) {
                Ok(item) => {
                    ret.push(item);
                    proof {
                        match stat_data_run(b, buf.spec_index(), n - k - 1) {
                            Ok((others, end)) => {
                                assert(taken + (seq![item@] + others) =~= stat_views(ret@)
                                    + others);
                            },
                            Err(e) => {},
                        }
                    }
                },
                Err(e) => {
                    rewind(buf, start);
                    return Err(e);
                },
            }
            k = k + 1;
        }
        proof {
            assert(stat_views(ret@) + Seq::empty() =~= stat_views(ret@));
        }
        Ok(ret)
    }
}

impl ObjectStatusData {
    /// Read the state of an object: its number, its position and its
    /// statistics.
    pub fn deserialize_from_buf(buf: &mut ByteBuffer) -> (r: Result<Self, ReadError>)
        ensures
            final(buf)@ == old(buf)@,
            match object_status_layout(old(buf)@, old(buf).spec_index()) {
                Ok((value, end)) => r is Ok && r->Ok_0@ == value
                    && final(buf).spec_index() == end,
                Err(e) => r is Err && r->Err_0 == e && final(buf).spec_index() == old(
                    buf,
                ).spec_index(),
            },
    {
        let start: usize = buf.index();
        let object_id: i32 = read_varint(buf)?;
        let position: PositionData = match PositionData::deserialize_from_buf(buf) {
            Ok(p) => p,
            Err(e) => {
                rewind(buf, start);
                return Err(e);
            },
        };
        match StatData::deserialize_arr_from_buf(buf) {
            Ok(stats) => Ok(ObjectStatusData { object_id, position, stats }),
            Err(e) => {
                rewind(buf, start);
                Err(e)
            },
        }
    }

    /// Read a variable-length count and then that many object states.
    pub fn deserialize_arr_from_buf(buf: &mut ByteBuffer) -> (r: Result<Vec<Self>, ReadError>)
        ensures
            final(buf)@ == old(buf)@,
            match object_status_array(old(buf)@, old(buf).spec_index()) {
                Ok((value, end)) => r is Ok && status_views(r->Ok_0@) == value
                    && final(buf).spec_index() == end,
                Err(e) => r is Err && r->Err_0 == e && final(buf).spec_index() == old(
                    buf,
                ).spec_index(),
            },
    {
        let start: usize = buf.index();
        let len: i32 = read_varint(buf)?;
        if len < 0 {
            rewind(buf, start);
            return Err(ReadError::BadVarint);
        }
        match Self::deserialize_n_from_buf(buf, len as usize) {
            Ok(all) => Ok(all),
            Err(e) => {
                rewind(buf, start);
                Err(e)
            },
        }
    }

    /// Read `n` object states in a row.
    pub fn deserialize_n_from_buf(buf: &mut ByteBuffer, n: usize) -> (r: Result<
        Vec<Self>,
        ReadError,
    >)
        ensures
            final(buf)@ == old(buf)@,
            match object_status_run(old(buf)@, old(buf).spec_index(), n as int) {
                Ok((value, end)) => r is Ok && status_views(r->Ok_0@) == value
                    && final(buf).spec_index() == end,
                Err(e) => r is Err && r->Err_0 == e && final(buf).spec_index() == old(
                    buf,
                ).spec_index(),
            },
    {
        let start: usize = buf.index();
        let ghost b = buf@;
        let mut ret: Vec<Self> = Vec::new();
        let mut k: usize = 0;
        while k < n
            invariant
                k <= n,
                buf@ == b,
                b == old(buf)@,
                start == old(buf).spec_index(),
                start <= b.len(),
                object_status_run(b, start as int, n as int) == match object_status_run(
                    b,
                    buf.spec_index(),
                    n - k,
                ) {
                    Ok((others, end)) => Ok::<(Seq<ObjectStatusView>, int), ReadError>(
                        (status_views(ret@) + others, end),
                    ),
                    Err(e) => Err(e),
                },
            decreases n - k,
        {
            let ghost taken = status_views(ret@);
            match Self::deserialize_from_buf(buf) {
                Ok(item) => {
                    ret.push(item);
                    proof {
                        match object_status_run(b, buf.spec_index(), n - k - 1) {
                            Ok((others, end)) => {
                                assert(taken + (seq![item@] + others) =~= status_views(ret@)
                                    + others);
                            },
                            Err(e) => {},
                        }
                    }
                },
                Err(e) => {
                    rewind(buf, start);
                    return Err(e);
                },
            }
            k = k + 1;
        }
        proof {
            assert(status_views(ret@) + Seq::empty() =~= status_views(ret@));
        }
        Ok(ret)
    }
}

impl ObjectData {
    /// Read an object: its type and its state.
    pub fn deserialize_from_buf(buf: &mut ByteBuffer) -> (r: Result<Self, ReadError>)
        ensures
            final(buf)@ == old(buf)@,
            match object_data_layout(old(buf)@, old(buf).spec_index()) {
                Ok((value, end)) => r is Ok && r->Ok_0@ == value
                    && final(buf).spec_index() == end,
                Err(e) => r is Err && r->Err_0 == e && final(buf).spec_index() == old(
                    buf,
                ).spec_index(),
            },
    {
        let start: usize = buf.index();
        let type_num: u16 = buf.read_u16()?;
        match ObjectStatusData::deserialize_from_buf(buf) {
            Ok(status_data) => Ok(ObjectData { type_num, status_data }),
            Err(e) => {
                rewind(buf, start);
                Err(e)
            },
        }
    }

    /// Read a variable-length count and then that many objects.
    pub fn deserialize_arr_from_buf(buf: &mut ByteBuffer) -> (r: Result<Vec<Self>, ReadError>)
        ensures
            final(buf)@ == old(buf)@,
            match object_data_array(old(buf)@, old(buf).spec_index()) {
                Ok((value, end)) => r is Ok && object_views(r->Ok_0@) == value
                    && final(buf).spec_index() == end,
                Err(e) => r is Err && r->Err_0 == e && final(buf).spec_index() == old(
                    buf,
                ).spec_index(),
            },
    {
        let start: usize = buf.index();
        let len: i32 = read_varint(buf)?;
        if len < 0 {
            rewind(buf, start);
            return Err(ReadError::BadVarint);
        }
        match Self::deserialize_n_from_buf(buf, len as usize) {
            Ok(all) => Ok(all),
            Err(e) => {
                rewind(buf, start);
                Err(e)
            },
        }
    }

    /// Read `n` objects in a row.
    pub fn deserialize_n_from_buf(buf: &mut ByteBuffer, n: usize) -> (r: Result<
        Vec<Self>,
        ReadError,
    >)
        ensures
            final(buf)@ == old(buf)@,
            match object_data_run(old(buf)@, old(buf).spec_index(), n as int) {
                Ok((value, end)) => r is Ok && object_views(r->Ok_0@) == value
                    && final(buf).spec_index() == end,
                Err(e) => r is Err && r->Err_0 == e && final(buf).spec_index() == old(
                    buf,
                ).spec_index(),
            },
    {
        let start: usize = buf.index();
        let ghost b = buf@;
        let mut ret: Vec<Self> = Vec::new();
        let mut k: usize = 0;
        while k < n
            invariant
                k <= n,
                buf@ == b,
                b == old(buf)@,
                start == old(buf).spec_index(),
                start <= b.len(),
                object_data_run(b, start as int, n as int) == match object_data_run(
                    b,
                    buf.spec_index(),
                    n - k,
                ) {
                    Ok((others, end)) => Ok::<(Seq<ObjectDataView>, int), ReadError>(
                        (object_views(ret@) + others, end),
                    ),
                    Err(e) => Err(e),
                },
            decreases n - k,
        {
            let ghost taken = object_views(ret@);
            match Self::deserialize_from_buf(buf) {
                Ok(item) => {
                    ret.push(item);
                    proof {
                        match object_data_run(b, buf.spec_index(), n - k - 1) {
                            Ok((others, end)) => {
                                assert(taken + (seq![item@] + others) =~= object_views(ret@)
                                    + others);
                            },
                            Err(e) => {},
                        }
                    }
                },
                Err(e) => {
                    rewind(buf, start);
                    return Err(e);
                },
            }
            k = k + 1;
        }
        proof {
            assert(object_views(ret@) + Seq::empty() =~= object_views(ret@));
        }
        Ok(ret)
    }
}

} // verus!
