//! The typed frames of the protocol and the table that decodes them.

use crate::byte_buffer::{peek_bytes, string_at, uint_at, ByteBuffer, ReadError};
use crate::rotmg_packet_stitcher::StitchedPacket;
use vstd::prelude::*;

verus! {

/// A decoded frame. Tags whose layout is not decoded carry their payload
/// unread; a tag that the table does not know, and a frame whose fields could
/// not be read, become `Other`.
#[derive(Clone, Debug, PartialEq, Eq)]
pub enum RotmgPacket {
    Failure { rem: ByteBuffer },
    Teleport { rem: ByteBuffer },
    ClaimLoginReward { rem: ByteBuffer },
    DeletePet { rem: ByteBuffer },
    RequestTrade { rem: ByteBuffer },
    QuestFetchResponse { rem: ByteBuffer },
    JoinGuild { rem: ByteBuffer },
    Ping { rem: ByteBuffer },
    PlayerText { rem: ByteBuffer },
    NewTick {
        tick_id: u32,
        tick_time: u32,
        server_current_time: u32,
        server_prev_time: u16,
        rem: ByteBuffer,
    },
    ShowEffect { rem: ByteBuffer },
    ServerPlayerShoot { rem: ByteBuffer },
    UseItem { rem: ByteBuffer },
    TradeAccepted { rem: ByteBuffer },
    GuildRemove { rem: ByteBuffer },
    PetUpgradeRequest { rem: ByteBuffer },
    EnterArena { rem: ByteBuffer },
    GoTo { rem: ByteBuffer },
    InventoryDrop { rem: ByteBuffer },
    OtherHit { rem: ByteBuffer },
    NameResult { rem: ByteBuffer },
    BuyResult { rem: ByteBuffer },
    HatchPet { rem: ByteBuffer },
    ActivePetUpdateRequest { rem: ByteBuffer },
    EnemyHit { rem: ByteBuffer },
    GuildResult { rem: ByteBuffer },
    EditAccountList { rem: ByteBuffer },
    TradeChanged { rem: ByteBuffer },
    PlayerShoot { rem: ByteBuffer },
    Pong { rem: ByteBuffer },
    PetChangeSkinMessage { rem: ByteBuffer },
    TradeDone { rem: ByteBuffer },
    EnemyShoot { rem: ByteBuffer },
    AcceptTrade { rem: ByteBuffer },
    ChangeGuildRank { rem: ByteBuffer },
    PlaySound { rem: ByteBuffer },
    VerifyEmail { rem: ByteBuffer },
    SquareHit { rem: ByteBuffer },
    NewAbility { rem: ByteBuffer },
    Update { rem: ByteBuffer },
    Text {
        name: String,
        object_id: u32,
        num_stars: u16,
        display_time: u8,
        recipient: String,
        content: String,
        clean_text: String,
        is_supporter: bool,
        star_background: u32,
        rem: ByteBuffer,
    },
    Reconnect {
        name: String,
        host: String,
        unknown: u32,
        port: u32,
        game_id: u32,
        key: Vec<u8>,
    },
    Death { rem: ByteBuffer },
    UsePortal { rem: ByteBuffer },
    QuestRoomMessage { rem: ByteBuffer },
    AllyShoot { rem: ByteBuffer },
    ImminentArenaWave { rem: ByteBuffer },
    Reskin { rem: ByteBuffer },
    ResetDailyQuests { rem: ByteBuffer },
    PetChangeFormMsg { rem: ByteBuffer },
    InvResult { rem: ByteBuffer },
    ChangeTrade { rem: ByteBuffer },
    Create { rem: ByteBuffer },
    QuestRedeem { rem: ByteBuffer },
    CreateGuild { rem: ByteBuffer },
    SetCondition { rem: ByteBuffer },
    Load { rem: ByteBuffer },
    Move {
        tick_id: u32,
        time: u32,
        rem: ByteBuffer,
    },
    KeyInfoResponse { rem: ByteBuffer },
    Aoe { rem: ByteBuffer },
    GoToAck { rem: ByteBuffer },
    GlobalNotification { rem: ByteBuffer },
    Notification { rem: ByteBuffer },
    ArenaDeath { rem: ByteBuffer },
    ClientStat { rem: ByteBuffer },
    Hello { rem: ByteBuffer },
    Damage {
        target_id: u32,
        effects: Vec<u8>,
        damage_amount: u16,
        killed: bool,
        armor_piercing: bool,
        bullet_id: u8,
        owner_id: u32,
        rem: ByteBuffer,
    },
    ActivePetUpdate { rem: ByteBuffer },
    InvitedToGuild { rem: ByteBuffer },
    PetYardUpdate { rem: ByteBuffer },
    PasswordPrompt { rem: ByteBuffer },
    AcceptArenaDeath { rem: ByteBuffer },
    UpdateAck { rem: ByteBuffer },
    QuestObjectId { rem: ByteBuffer },
    Pic { rem: ByteBuffer },
    RealmHeroLeftMsg { rem: ByteBuffer },
    Buy { rem: ByteBuffer },
    TradeStart { rem: ByteBuffer },
    EvolvePet { rem: ByteBuffer },
    TradeRequested { rem: ByteBuffer },
    AoeAck { rem: ByteBuffer },
    PlayerHit { rem: ByteBuffer },
    CancelTrade { rem: ByteBuffer },
    MapInfo {
        width: u32,
        height: u32,
        name: String,
        display_name: String,
        realm_name: String,
        difficulty: u32,
        seed: u32,
        background: u32,
        allow_teleport: bool,
        show_displays: bool,
        unknown_bool: bool,
        max_players: u16,
        game_opened_time: u32,
        build_version: String,
        unknown_int: u32,
        dungeon_mods: String,
        rem: ByteBuffer,
    },
    LoginRewardMsg { rem: ByteBuffer },
    KeyInfoRequest { rem: ByteBuffer },
    InvSwap { rem: ByteBuffer },
    QuestRedeemResponse { rem: ByteBuffer },
    ChooseName { rem: ByteBuffer },
    QuestFetchAsk { rem: ByteBuffer },
    AccountList { rem: ByteBuffer },
    ShootAck { rem: ByteBuffer },
    CreateSuccess { rem: ByteBuffer },
    CheckCredits { rem: ByteBuffer },
    GroundDamage { rem: ByteBuffer },
    GuildInvite { rem: ByteBuffer },
    Escape { rem: ByteBuffer },
    File { rem: ByteBuffer },
    ReskinUnlock { rem: ByteBuffer },
    NewCharacterInfo { rem: ByteBuffer },
    UnlockInfo { rem: ByteBuffer },
    QueueInfo { rem: ByteBuffer },
    QueueCancel { rem: ByteBuffer },
    ExaltationBonusChanged { rem: ByteBuffer },
    RedeemExaltationReward { rem: ByteBuffer },
    VaultUpdate { rem: ByteBuffer },
    ForgeRequest { rem: ByteBuffer },
    ForgeResult { rem: ByteBuffer },
    ForgeUnlockedBlueprints { rem: ByteBuffer },
    ShootAckCounter { rem: ByteBuffer },
    ChangeAllyShoot { rem: ByteBuffer },
    GetPlayersListMessage { rem: ByteBuffer },
    ModeratorActionMessage { rem: ByteBuffer },
    CreepMoveMessage { rem: ByteBuffer },
    Unknown134 { rem: ByteBuffer },
    Dash { rem: ByteBuffer },
    DashAck { rem: ByteBuffer },
    Unknown139 { rem: ByteBuffer },
    Unknown145 { rem: ByteBuffer },
    Unknown146 { rem: ByteBuffer },
    Unknown147 { rem: ByteBuffer },
    ClaimBattlePass { rem: ByteBuffer },
    ClaimBPMilestoneResult { rem: ByteBuffer },
    ConvertSeasonal { rem: ByteBuffer },
    Emote { rem: ByteBuffer },
    Unknown163 { rem: ByteBuffer },
    Unknown164 { rem: ByteBuffer },
    Unknown165 { rem: ByteBuffer },
    Stasis { rem: ByteBuffer },
    Unknown169 { rem: ByteBuffer },
    Other { type_num: u8, rem: ByteBuffer },
}

/// What a buffer holds and where its cursor stands.
pub ghost struct Remainder {
    pub bytes: Seq<u8>,
    pub cursor: int,
}

/// A decoded frame as a value. Every variant that carries its payload unread
/// is `Opaque` here, told apart by its tag.
pub ghost enum PacketView {
    NewTick {
        tick_id: u32,
        tick_time: u32,
        server_current_time: u32,
        server_prev_time: u16,
        rem: Remainder,
    },
    Text {
        name: Seq<char>,
        object_id: u32,
        num_stars: u16,
        display_time: u8,
        recipient: Seq<char>,
        content: Seq<char>,
        clean_text: Seq<char>,
        is_supporter: bool,
        star_background: u32,
        rem: Remainder,
    },
    Reconnect {
        name: Seq<char>,
        host: Seq<char>,
        unknown: u32,
        port: u32,
        game_id: u32,
        key: Seq<u8>,
    },
    Move {
        tick_id: u32,
        time: u32,
        rem: Remainder,
    },
    Damage {
        target_id: u32,
        effects: Seq<u8>,
        damage_amount: u16,
        killed: bool,
        armor_piercing: bool,
        bullet_id: u8,
        owner_id: u32,
        rem: Remainder,
    },
    MapInfo {
        width: u32,
        height: u32,
        name: Seq<char>,
        display_name: Seq<char>,
        realm_name: Seq<char>,
        difficulty: u32,
        seed: u32,
        background: u32,
        allow_teleport: bool,
        show_displays: bool,
        unknown_bool: bool,
        max_players: u16,
        game_opened_time: u32,
        build_version: Seq<char>,
        unknown_int: u32,
        dungeon_mods: Seq<char>,
        rem: Remainder,
    },
    Opaque { tag: u8, rem: Remainder },
    Other { tag: u8, rem: Remainder },
}

/// The contents and cursor of `buf`.
pub open spec fn remainder_of(buf: ByteBuffer) -> Remainder {
    Remainder { bytes: buf@, cursor: buf.spec_index() }
}

/// The frame with `tag` that carries `buf` unread.
pub open spec fn opaque(tag: u8, buf: ByteBuffer) -> PacketView {
    PacketView::Opaque { tag, rem: remainder_of(buf) }
}

impl View for RotmgPacket {
    type V = PacketView;

    open spec fn view(&self) -> PacketView {
        match *self {
            RotmgPacket::Failure { rem } => opaque(0, rem),
            RotmgPacket::Teleport { rem } => opaque(1, rem),
            RotmgPacket::ClaimLoginReward { rem } => opaque(3, rem),
            RotmgPacket::DeletePet { rem } => opaque(4, rem),
            RotmgPacket::RequestTrade { rem } => opaque(5, rem),
            RotmgPacket::QuestFetchResponse { rem } => opaque(6, rem),
            RotmgPacket::JoinGuild { rem } => opaque(7, rem),
            RotmgPacket::Ping { rem } => opaque(8, rem),
            RotmgPacket::PlayerText { rem } => opaque(9, rem),
            RotmgPacket::NewTick {
                tick_id,
                tick_time,
                server_current_time,
                server_prev_time,
                rem,
            } => PacketView::NewTick {
                tick_id,
                tick_time,
                server_current_time,
                server_prev_time,
                rem: remainder_of(rem),
            },
            RotmgPacket::ShowEffect { rem } => opaque(11, rem),
            RotmgPacket::ServerPlayerShoot { rem } => opaque(12, rem),
            RotmgPacket::UseItem { rem } => opaque(13, rem),
            RotmgPacket::TradeAccepted { rem } => opaque(14, rem),
            RotmgPacket::GuildRemove { rem } => opaque(15, rem),
            RotmgPacket::PetUpgradeRequest { rem } => opaque(16, rem),
            RotmgPacket::EnterArena { rem } => opaque(17, rem),
            RotmgPacket::GoTo { rem } => opaque(18, rem),
            RotmgPacket::InventoryDrop { rem } => opaque(19, rem),
            RotmgPacket::OtherHit { rem } => opaque(20, rem),
            RotmgPacket::NameResult { rem } => opaque(21, rem),
            RotmgPacket::BuyResult { rem } => opaque(22, rem),
            RotmgPacket::HatchPet { rem } => opaque(23, rem),
            RotmgPacket::ActivePetUpdateRequest { rem } => opaque(24, rem),
            RotmgPacket::EnemyHit { rem } => opaque(25, rem),
            RotmgPacket::GuildResult { rem } => opaque(26, rem),
            RotmgPacket::EditAccountList { rem } => opaque(27, rem),
            RotmgPacket::TradeChanged { rem } => opaque(28, rem),
            RotmgPacket::PlayerShoot { rem } => opaque(30, rem),
            RotmgPacket::Pong { rem } => opaque(31, rem),
            RotmgPacket::PetChangeSkinMessage { rem } => opaque(33, rem),
            RotmgPacket::TradeDone { rem } => opaque(34, rem),
            RotmgPacket::EnemyShoot { rem } => opaque(35, rem),
            RotmgPacket::AcceptTrade { rem } => opaque(36, rem),
            RotmgPacket::ChangeGuildRank { rem } => opaque(37, rem),
            RotmgPacket::PlaySound { rem } => opaque(38, rem),
            RotmgPacket::VerifyEmail { rem } => opaque(39, rem),
            RotmgPacket::SquareHit { rem } => opaque(40, rem),
            RotmgPacket::NewAbility { rem } => opaque(41, rem),
            RotmgPacket::Update { rem } => opaque(42, rem),
            RotmgPacket::Text {
                name,
                object_id,
                num_stars,
                display_time,
                recipient,
                content,
                clean_text,
                is_supporter,
                star_background,
                rem,
            } => PacketView::Text {
                name: name@,
                object_id,
                num_stars,
                display_time,
                recipient: recipient@,
                content: content@,
                clean_text: clean_text@,
                is_supporter,
                star_background,
                rem: remainder_of(rem),
            },
            RotmgPacket::Reconnect { name, host, unknown, port, game_id, key } => PacketView::Reconnect {
                name: name@,
                host: host@,
                unknown,
                port,
                game_id,
                key: key@,
            },
            RotmgPacket::Death { rem } => opaque(46, rem),
            RotmgPacket::UsePortal { rem } => opaque(47, rem),
            RotmgPacket::QuestRoomMessage { rem } => opaque(48, rem),
            RotmgPacket::AllyShoot { rem } => opaque(49, rem),
            RotmgPacket::ImminentArenaWave { rem } => opaque(50, rem),
            RotmgPacket::Reskin { rem } => opaque(51, rem),
            RotmgPacket::ResetDailyQuests { rem } => opaque(52, rem),
            RotmgPacket::PetChangeFormMsg { rem } => opaque(53, rem),
            RotmgPacket::InvResult { rem } => opaque(55, rem),
            RotmgPacket::ChangeTrade { rem } => opaque(56, rem),
            RotmgPacket::Create { rem } => opaque(57, rem),
            RotmgPacket::QuestRedeem { rem } => opaque(58, rem),
            RotmgPacket::CreateGuild { rem } => opaque(59, rem),
            RotmgPacket::SetCondition { rem } => opaque(60, rem),
            RotmgPacket::Load { rem } => opaque(61, rem),
            RotmgPacket::Move { tick_id, time, rem } => PacketView::Move {
                tick_id,
                time,
                rem: remainder_of(rem),
            },
            RotmgPacket::KeyInfoResponse { rem } => opaque(63, rem),
            RotmgPacket::Aoe { rem } => opaque(64, rem),
            RotmgPacket::GoToAck { rem } => opaque(65, rem),
            RotmgPacket::GlobalNotification { rem } => opaque(66, rem),
            RotmgPacket::Notification { rem } => opaque(67, rem),
            RotmgPacket::ArenaDeath { rem } => opaque(68, rem),
            RotmgPacket::ClientStat { rem } => opaque(69, rem),
            RotmgPacket::Hello { rem } => opaque(74, rem),
            RotmgPacket::Damage {
                target_id,
                effects,
                damage_amount,
                killed,
                armor_piercing,
                bullet_id,
                owner_id,
                rem,
            } => PacketView::Damage {
                target_id,
                effects: effects@,
                damage_amount,
                killed,
                armor_piercing,
                bullet_id,
                owner_id,
                rem: remainder_of(rem),
            },
            RotmgPacket::ActivePetUpdate { rem } => opaque(76, rem),
            RotmgPacket::InvitedToGuild { rem } => opaque(77, rem),
            RotmgPacket::PetYardUpdate { rem } => opaque(78, rem),
            RotmgPacket::PasswordPrompt { rem } => opaque(79, rem),
            RotmgPacket::AcceptArenaDeath { rem } => opaque(80, rem),
            RotmgPacket::UpdateAck { rem } => opaque(81, rem),
            RotmgPacket::QuestObjectId { rem } => opaque(82, rem),
            RotmgPacket::Pic { rem } => opaque(83, rem),
            RotmgPacket::RealmHeroLeftMsg { rem } => opaque(84, rem),
            RotmgPacket::Buy { rem } => opaque(85, rem),
            RotmgPacket::TradeStart { rem } => opaque(86, rem),
            RotmgPacket::EvolvePet { rem } => opaque(87, rem),
            RotmgPacket::TradeRequested { rem } => opaque(88, rem),
            RotmgPacket::AoeAck { rem } => opaque(89, rem),
            RotmgPacket::PlayerHit { rem } => opaque(90, rem),
            RotmgPacket::CancelTrade { rem } => opaque(91, rem),
            RotmgPacket::MapInfo {
                width,
                height,
                name,
                display_name,
                realm_name,
                difficulty,
                seed,
                background,
                allow_teleport,
                show_displays,
                unknown_bool,
                max_players,
                game_opened_time,
                build_version,
                unknown_int,
                dungeon_mods,
                rem,
            } => PacketView::MapInfo {
                width,
                height,
                name: name@,
                display_name: display_name@,
                realm_name: realm_name@,
                difficulty,
                seed,
                background,
                allow_teleport,
                show_displays,
                unknown_bool,
                max_players,
                game_opened_time,
                build_version: build_version@,
                unknown_int,
                dungeon_mods: dungeon_mods@,
                rem: remainder_of(rem),
            },
            RotmgPacket::LoginRewardMsg { rem } => opaque(93, rem),
            RotmgPacket::KeyInfoRequest { rem } => opaque(94, rem),
            RotmgPacket::InvSwap { rem } => opaque(95, rem),
            RotmgPacket::QuestRedeemResponse { rem } => opaque(96, rem),
            RotmgPacket::ChooseName { rem } => opaque(97, rem),
            RotmgPacket::QuestFetchAsk { rem } => opaque(98, rem),
            RotmgPacket::AccountList { rem } => opaque(99, rem),
            RotmgPacket::ShootAck { rem } => opaque(100, rem),
            RotmgPacket::CreateSuccess { rem } => opaque(101, rem),
            RotmgPacket::CheckCredits { rem } => opaque(102, rem),
            RotmgPacket::GroundDamage { rem } => opaque(103, rem),
            RotmgPacket::GuildInvite { rem } => opaque(104, rem),
            RotmgPacket::Escape { rem } => opaque(105, rem),
            RotmgPacket::File { rem } => opaque(106, rem),
            RotmgPacket::ReskinUnlock { rem } => opaque(107, rem),
            RotmgPacket::NewCharacterInfo { rem } => opaque(108, rem),
            RotmgPacket::UnlockInfo { rem } => opaque(109, rem),
            RotmgPacket::QueueInfo { rem } => opaque(112, rem),
            RotmgPacket::QueueCancel { rem } => opaque(113, rem),
            RotmgPacket::ExaltationBonusChanged { rem } => opaque(114, rem),
            RotmgPacket::RedeemExaltationReward { rem } => opaque(115, rem),
            RotmgPacket::VaultUpdate { rem } => opaque(117, rem),
            RotmgPacket::ForgeRequest { rem } => opaque(118, rem),
            RotmgPacket::ForgeResult { rem } => opaque(119, rem),
            RotmgPacket::ForgeUnlockedBlueprints { rem } => opaque(120, rem),
            RotmgPacket::ShootAckCounter { rem } => opaque(121, rem),
            RotmgPacket::ChangeAllyShoot { rem } => opaque(122, rem),
            RotmgPacket::GetPlayersListMessage { rem } => opaque(123, rem),
            RotmgPacket::ModeratorActionMessage { rem } => opaque(124, rem),
            RotmgPacket::CreepMoveMessage { rem } => opaque(126, rem),
            RotmgPacket::Unknown134 { rem } => opaque(134, rem),
            RotmgPacket::Dash { rem } => opaque(137, rem),
            RotmgPacket::DashAck { rem } => opaque(138, rem),
            RotmgPacket::Unknown139 { rem } => opaque(139, rem),
            RotmgPacket::Unknown145 { rem } => opaque(145, rem),
            RotmgPacket::Unknown146 { rem } => opaque(146, rem),
            RotmgPacket::Unknown147 { rem } => opaque(147, rem),
            RotmgPacket::ClaimBattlePass { rem } => opaque(149, rem),
            RotmgPacket::ClaimBPMilestoneResult { rem } => opaque(150, rem),
            RotmgPacket::ConvertSeasonal { rem } => opaque(154, rem),
            RotmgPacket::Emote { rem } => opaque(159, rem),
            RotmgPacket::Unknown163 { rem } => opaque(163, rem),
            RotmgPacket::Unknown164 { rem } => opaque(164, rem),
            RotmgPacket::Unknown165 { rem } => opaque(165, rem),
            RotmgPacket::Stasis { rem } => opaque(166, rem),
            RotmgPacket::Unknown169 { rem } => opaque(169, rem),
            RotmgPacket::Other { type_num, rem } => PacketView::Other {
                tag: type_num,
                rem: remainder_of(rem),
            },
        }
    }
}

/// The type tag of a decoded frame.
pub open spec fn tag_of(packet: PacketView) -> u8 {
    match packet {
        PacketView::NewTick { .. } => 10,
        PacketView::Text { .. } => 44,
        PacketView::Reconnect { .. } => 45,
        PacketView::Move { .. } => 62,
        PacketView::Damage { .. } => 75,
        PacketView::MapInfo { .. } => 92,
        PacketView::Opaque { tag, .. } => tag,
        PacketView::Other { tag, .. } => tag,
    }
}

/// Whether the table has a variant for `tag`.
pub open spec fn is_known_tag(tag: u8) -> bool {
    ||| 0 <= tag <= 1
    ||| 3 <= tag <= 28
    ||| 30 <= tag <= 31
    ||| 33 <= tag <= 42
    ||| 44 <= tag <= 53
    ||| 55 <= tag <= 69
    ||| 74 <= tag <= 109
    ||| 112 <= tag <= 115
    ||| 117 <= tag <= 124
    ||| tag == 126
    ||| tag == 134
    ||| 137 <= tag <= 139
    ||| 145 <= tag <= 147
    ||| 149 <= tag <= 150
    ||| tag == 154
    ||| tag == 159
    ||| 163 <= tag <= 166
    ||| tag == 169
}

/// Whether the fields of frames with `tag` are decoded.
pub open spec fn has_layout(tag: u8) -> bool {
    tag == 10 || tag == 44 || tag == 45 || tag == 62 || tag == 75 || tag == 92
}

/// Where the field after an unsigned integer of `width` bytes starts, given
/// where that integer starts; an earlier failure is passed on.
pub open spec fn past_uint(b: Seq<u8>, at: Result<int, ReadError>, width: int) -> Result<
    int,
    ReadError,
> {
    match at {
        Err(e) => Err(e),
        Ok(i) => if uint_at(b, i, width) is Some {
            Ok(i + width)
        } else {
            Err(ReadError::ShortRead)
        },
    }
}

/// Where the field after a length-prefixed string starts.
pub open spec fn past_string(b: Seq<u8>, at: Result<int, ReadError>) -> Result<int, ReadError> {
    match at {
        Err(e) => Err(e),
        Ok(i) => match string_at(b, i) {
            Ok((_, width)) => Ok(i + width),
            Err(e) => Err(e),
        },
    }
}

/// Where the field after a run of bytes starts whose length is given by the
/// one byte before it.
pub open spec fn past_counted_bytes(b: Seq<u8>, at: Result<int, ReadError>) -> Result<
    int,
    ReadError,
> {
    match at {
        Err(e) => Err(e),
        Ok(i) => match uint_at(b, i, 1) {
            None => Err(ReadError::ShortRead),
            Some(n) => if peek_bytes(b, i + 1, n as int) is Some {
                Ok(i + 1 + n)
            } else {
                Err(ReadError::ShortRead)
            },
        },
    }
}

/// The unsigned integer of `width` bytes that starts at `at`.
pub open spec fn uint_field(b: Seq<u8>, at: Result<int, ReadError>, width: int) -> nat {
    uint_at(b, at->Ok_0, width)->0
}

/// The truth value at `at`: any byte but zero is true.
pub open spec fn bool_field(b: Seq<u8>, at: Result<int, ReadError>) -> bool {
    b[at->Ok_0] != 0
}

/// The string that starts at `at`.
pub open spec fn string_field(b: Seq<u8>, at: Result<int, ReadError>) -> Seq<char> {
    string_at(b, at->Ok_0)->Ok_0.0
}

/// The bytes of the counted run that starts at `at`, without the count.
pub open spec fn counted_bytes_field(b: Seq<u8>, at: Result<int, ReadError>) -> Seq<u8> {
    peek_bytes(b, at->Ok_0 + 1, uint_field(b, at, 1) as int)->0
}

/// The periodic tick: its number, the time it spans and the server clock.
/// Each name below is the position at which that field starts.
pub open spec fn new_tick_layout(b: Seq<u8>, start: int) -> Result<PacketView, ReadError> {
    let tick_id = Ok::<int, ReadError>(start);
    let tick_time = past_uint(b, tick_id, 4);
    let server_current_time = past_uint(b, tick_time, 4);
    let server_prev_time = past_uint(b, server_current_time, 4);
    let end = past_uint(b, server_prev_time, 2);
    match end {
        Err(e) => Err(e),
        Ok(cursor) => Ok(
            PacketView::NewTick {
                tick_id: uint_field(b, tick_id, 4) as u32,
                tick_time: uint_field(b, tick_time, 4) as u32,
                server_current_time: uint_field(b, server_current_time, 4) as u32,
                server_prev_time: uint_field(b, server_prev_time, 2) as u16,
                rem: Remainder { bytes: b, cursor },
            },
        ),
    }
}

/// A line of chat.
/// Each name below is the position at which that field starts.
pub open spec fn text_layout(b: Seq<u8>, start: int) -> Result<PacketView, ReadError> {
    let name = Ok::<int, ReadError>(start);
    let object_id = past_string(b, name);
    let num_stars = past_uint(b, object_id, 4);
    let display_time = past_uint(b, num_stars, 2);
    let recipient = past_uint(b, display_time, 1);
    let content = past_string(b, recipient);
    let clean_text = past_string(b, content);
    let is_supporter = past_string(b, clean_text);
    let star_background = past_uint(b, is_supporter, 1);
    let end = past_uint(b, star_background, 4);
    match end {
        Err(e) => Err(e),
        Ok(cursor) => Ok(
            PacketView::Text {
                name: string_field(b, name),
                object_id: uint_field(b, object_id, 4) as u32,
                num_stars: uint_field(b, num_stars, 2) as u16,
                display_time: uint_field(b, display_time, 1) as u8,
                recipient: string_field(b, recipient),
                content: string_field(b, content),
                clean_text: string_field(b, clean_text),
                is_supporter: bool_field(b, is_supporter),
                star_background: uint_field(b, star_background, 4) as u32,
                rem: Remainder { bytes: b, cursor },
            },
        ),
    }
}

/// The announcement of a new session; `key` holds all bytes after the fixed fields.
/// Each name below is the position at which that field starts.
pub open spec fn reconnect_layout(b: Seq<u8>, start: int) -> Result<PacketView, ReadError> {
    let name = Ok::<int, ReadError>(start);
    let host = past_string(b, name);
    let unknown = past_string(b, host);
    let port = past_uint(b, unknown, 4);
    let game_id = past_uint(b, port, 4);
    let end = past_uint(b, game_id, 4);
    match end {
        Err(e) => Err(e),
        Ok(cursor) => Ok(
            PacketView::Reconnect {
                name: string_field(b, name),
                host: string_field(b, host),
                unknown: uint_field(b, unknown, 4) as u32,
                port: uint_field(b, port, 4) as u32,
                game_id: uint_field(b, game_id, 4) as u32,
                key: b.skip(cursor),
            },
        ),
    }
}

/// A movement record.
/// Each name below is the position at which that field starts.
pub open spec fn move_record_layout(b: Seq<u8>, start: int) -> Result<PacketView, ReadError> {
    let tick_id = Ok::<int, ReadError>(start);
    let time = past_uint(b, tick_id, 4);
    let end = past_uint(b, time, 4);
    match end {
        Err(e) => Err(e),
        Ok(cursor) => Ok(
            PacketView::Move {
                tick_id: uint_field(b, tick_id, 4) as u32,
                time: uint_field(b, time, 4) as u32,
                rem: Remainder { bytes: b, cursor },
            },
        ),
    }
}

/// Damage dealt to an object; `effects` is a byte count followed by that many bytes.
/// Each name below is the position at which that field starts.
pub open spec fn damage_layout(b: Seq<u8>, start: int) -> Result<PacketView, ReadError> {
    let target_id = Ok::<int, ReadError>(start);
    let effects = past_uint(b, target_id, 4);
    let damage_amount = past_counted_bytes(b, effects);
    let killed = past_uint(b, damage_amount, 2);
    let armor_piercing = past_uint(b, killed, 1);
    let bullet_id = past_uint(b, armor_piercing, 1);
    let owner_id = past_uint(b, bullet_id, 1);
    let end = past_uint(b, owner_id, 4);
    match end {
        Err(e) => Err(e),
        Ok(cursor) => Ok(
            PacketView::Damage {
                target_id: uint_field(b, target_id, 4) as u32,
                effects: counted_bytes_field(b, effects),
                damage_amount: uint_field(b, damage_amount, 2) as u16,
                killed: bool_field(b, killed),
                armor_piercing: bool_field(b, armor_piercing),
                bullet_id: uint_field(b, bullet_id, 1) as u8,
                owner_id: uint_field(b, owner_id, 4) as u32,
                rem: Remainder { bytes: b, cursor },
            },
        ),
    }
}

/// The description of a map; `difficulty` is the bit pattern of an IEEE-754 single.
/// Each name below is the position at which that field starts.
pub open spec fn map_info_layout(b: Seq<u8>, start: int) -> Result<PacketView, ReadError> {
    let width = Ok::<int, ReadError>(start);
    let height = past_uint(b, width, 4);
    let name = past_uint(b, height, 4);
    let display_name = past_string(b, name);
    let realm_name = past_string(b, display_name);
    let difficulty = past_string(b, realm_name);
    let seed = past_uint(b, difficulty, 4);
    let background = past_uint(b, seed, 4);
    let allow_teleport = past_uint(b, background, 4);
    let show_displays = past_uint(b, allow_teleport, 1);
    let unknown_bool = past_uint(b, show_displays, 1);
    let max_players = past_uint(b, unknown_bool, 1);
    let game_opened_time = past_uint(b, max_players, 2);
    let build_version = past_uint(b, game_opened_time, 4);
    let unknown_int = past_string(b, build_version);
    let dungeon_mods = past_uint(b, unknown_int, 4);
    let end = past_string(b, dungeon_mods);
    match end {
        Err(e) => Err(e),
        Ok(cursor) => Ok(
            PacketView::MapInfo {
                width: uint_field(b, width, 4) as u32,
                height: uint_field(b, height, 4) as u32,
                name: string_field(b, name),
                display_name: string_field(b, display_name),
                realm_name: string_field(b, realm_name),
                difficulty: uint_field(b, difficulty, 4) as u32,
                seed: uint_field(b, seed, 4) as u32,
                background: uint_field(b, background, 4) as u32,
                allow_teleport: bool_field(b, allow_teleport),
                show_displays: bool_field(b, show_displays),
                unknown_bool: bool_field(b, unknown_bool),
                max_players: uint_field(b, max_players, 2) as u16,
                game_opened_time: uint_field(b, game_opened_time, 4) as u32,
                build_version: string_field(b, build_version),
                unknown_int: uint_field(b, unknown_int, 4) as u32,
                dungeon_mods: string_field(b, dungeon_mods),
                rem: Remainder { bytes: b, cursor },
            },
        ),
    }
}

/// What the frame with `tag` decodes to when its payload is `b` and reading
/// begins at `start`.
pub open spec fn parse_packet(tag: u8, b: Seq<u8>, start: int) -> Result<PacketView, ReadError> {
    if tag == 10 {
        new_tick_layout(b, start)
    } else if tag == 44 {
        text_layout(b, start)
    } else if tag == 45 {
        reconnect_layout(b, start)
    } else if tag == 62 {
        move_record_layout(b, start)
    } else if tag == 75 {
        damage_layout(b, start)
    } else if tag == 92 {
        map_info_layout(b, start)
    } else if is_known_tag(tag) {
        Ok(PacketView::Opaque { tag, rem: Remainder { bytes: b, cursor: start } })
    } else {
        Ok(PacketView::Other { tag, rem: Remainder { bytes: b, cursor: start } })
    }
}

/// The typed frame for `tag` and payload `b`: what [`parse_packet`] yields,
/// or, where the fields cannot be read, the catch-all that keeps the tag and
/// the payload unread.
#[verifier::opaque]
pub open spec fn typed_frame(tag: u8, b: Seq<u8>, start: int) -> PacketView {
    match parse_packet(tag, b, start) {
        Ok(packet) => packet,
        Err(_) => PacketView::Other { tag, rem: Remainder { bytes: b, cursor: start } },
    }
}

/// Whether `r` is the outcome `expected` of decoding.
pub open spec fn decodes_to(r: Result<RotmgPacket, ReadError>, expected: Result<
    PacketView,
    ReadError,
>) -> bool {
    match expected {
        Ok(packet) => r is Ok && r->Ok_0@ == packet,
        Err(e) => r is Err && r->Err_0 == e,
    }
}

/// Read the fields of `NewTick` from the cursor of `buf` on.
fn parse_new_tick(buf: ByteBuffer) -> (r: Result<RotmgPacket, ReadError>)
    ensures
        decodes_to(r, new_tick_layout(buf@, buf.spec_index())),
{
    let mut buf = buf;
    let tick_id: u32 = buf.read_u32()?;
    let tick_time: u32 = buf.read_u32()?;
    let server_current_time: u32 = buf.read_u32()?;
    let server_prev_time: u16 = buf.read_u16()?;
    Ok(RotmgPacket::NewTick { tick_id, tick_time, server_current_time, server_prev_time, rem: buf })
}

/// Read the fields of `Text` from the cursor of `buf` on.
fn parse_text(buf: ByteBuffer) -> (r: Result<RotmgPacket, ReadError>)
    ensures
        decodes_to(r, text_layout(buf@, buf.spec_index())),
{
    let mut buf = buf;
    let name: String = buf.read_string()?;
    let object_id: u32 = buf.read_u32()?;
    let num_stars: u16 = buf.read_u16()?;
    let display_time: u8 = buf.read_u8()?;
    let recipient: String = buf.read_string()?;
    let content: String = buf.read_string()?;
    let clean_text: String = buf.read_string()?;
    let is_supporter: bool = buf.read_bool()?;
    let star_background: u32 = buf.read_u32()?;
    Ok(
        RotmgPacket::Text {
            name,
            object_id,
            num_stars,
            display_time,
            recipient,
            content,
            clean_text,
            is_supporter,
            star_background,
            rem: buf,
        },
    )
}

/// Read the fields of `Reconnect` from the cursor of `buf` on.
fn parse_reconnect(buf: ByteBuffer) -> (r: Result<RotmgPacket, ReadError>)
    ensures
        decodes_to(r, reconnect_layout(buf@, buf.spec_index())),
{
    let mut buf = buf;
    let name: String = buf.read_string()?;
    let host: String = buf.read_string()?;
    let unknown: u32 = buf.read_u32()?;
    let port: u32 = buf.read_u32()?;
    let game_id: u32 = buf.read_u32()?;
    let key: Vec<u8> = buf.rem_to_vec();
    Ok(RotmgPacket::Reconnect { name, host, unknown, port, game_id, key })
}

/// Read the fields of `Move` from the cursor of `buf` on.
fn parse_move_record(buf: ByteBuffer) -> (r: Result<RotmgPacket, ReadError>)
    ensures
        decodes_to(r, move_record_layout(buf@, buf.spec_index())),
{
    let mut buf = buf;
    let tick_id: u32 = buf.read_u32()?;
    let time: u32 = buf.read_u32()?;
    Ok(RotmgPacket::Move { tick_id, time, rem: buf })
}

/// Read the fields of `Damage` from the cursor of `buf` on.
fn parse_damage(buf: ByteBuffer) -> (r: Result<RotmgPacket, ReadError>)
    ensures
        decodes_to(r, damage_layout(buf@, buf.spec_index())),
{
    let mut buf = buf;
    let target_id: u32 = buf.read_u32()?;
    let effect_len: u8 = buf.read_u8()?;
    let effects: Vec<u8> = match buf.read_n_bytes(effect_len as usize) {
        Ok(window) => vstd::slice::slice_to_vec(window),
        Err(e) => {
            return Err(e);
        },
    };
    let damage_amount: u16 = buf.read_u16()?;
    let killed: bool = buf.read_bool()?;
    let armor_piercing: bool = buf.read_bool()?;
    let bullet_id: u8 = buf.read_u8()?;
    let owner_id: u32 = buf.read_u32()?;
    Ok(
        RotmgPacket::Damage {
            target_id,
            effects,
            damage_amount,
            killed,
            armor_piercing,
            bullet_id,
            owner_id,
            rem: buf,
        },
    )
}

/// Read the fields of `MapInfo` from the cursor of `buf` on.
fn parse_map_info(buf: ByteBuffer) -> (r: Result<RotmgPacket, ReadError>)
    ensures
        decodes_to(r, map_info_layout(buf@, buf.spec_index())),
{
    let mut buf = buf;
    let width: u32 = buf.read_u32()?;
    let height: u32 = buf.read_u32()?;
    let name: String = buf.read_string()?;
    let display_name: String = buf.read_string()?;
    let realm_name: String = buf.read_string()?;
    let difficulty: u32 = buf.read_u32()?;
    let seed: u32 = buf.read_u32()?;
    let background: u32 = buf.read_u32()?;
    let allow_teleport: bool = buf.read_bool()?;
    let show_displays: bool = buf.read_bool()?;
    let unknown_bool: bool = buf.read_bool()?;
    let max_players: u16 = buf.read_u16()?;
    let game_opened_time: u32 = buf.read_u32()?;
    let build_version: String = buf.read_string()?;
    let unknown_int: u32 = buf.read_u32()?;
    let dungeon_mods: String = buf.read_string()?;
    Ok(
        RotmgPacket::MapInfo {
            width,
            height,
            name,
            display_name,
            realm_name,
            difficulty,
            seed,
            background,
            allow_teleport,
            show_displays,
            unknown_bool,
            max_players,
            game_opened_time,
            build_version,
            unknown_int,
            dungeon_mods,
            rem: buf,
        },
    )
}

impl RotmgPacket {
    /// The frame with `tag` whose payload is carried unread: the variant
    /// that the table has for the tag, or `Other` where it has none. The
    /// tags whose fields are decoded have no such variant.
    fn unread(tag: u8, buf: ByteBuffer) -> (packet: RotmgPacket)
        requires
            !has_layout(tag),
        ensures
            packet@ == if is_known_tag(tag) {
                PacketView::Opaque { tag, rem: remainder_of(buf) }
            } else {
                PacketView::Other { tag, rem: remainder_of(buf) }
            },
    {
        match tag {
            0 => RotmgPacket::Failure { rem: buf },
            1 => RotmgPacket::Teleport { rem: buf },
            3 => RotmgPacket::ClaimLoginReward { rem: buf },
            4 => RotmgPacket::DeletePet { rem: buf },
            5 => RotmgPacket::RequestTrade { rem: buf },
            6 => RotmgPacket::QuestFetchResponse { rem: buf },
            7 => RotmgPacket::JoinGuild { rem: buf },
            8 => RotmgPacket::Ping { rem: buf },
            9 => RotmgPacket::PlayerText { rem: buf },
            11 => RotmgPacket::ShowEffect { rem: buf },
            12 => RotmgPacket::ServerPlayerShoot { rem: buf },
            13 => RotmgPacket::UseItem { rem: buf },
            14 => RotmgPacket::TradeAccepted { rem: buf },
            15 => RotmgPacket::GuildRemove { rem: buf },
            16 => RotmgPacket::PetUpgradeRequest { rem: buf },
            17 => RotmgPacket::EnterArena { rem: buf },
            18 => RotmgPacket::GoTo { rem: buf },
            19 => RotmgPacket::InventoryDrop { rem: buf },
            20 => RotmgPacket::OtherHit { rem: buf },
            21 => RotmgPacket::NameResult { rem: buf },
            22 => RotmgPacket::BuyResult { rem: buf },
            23 => RotmgPacket::HatchPet { rem: buf },
            24 => RotmgPacket::ActivePetUpdateRequest { rem: buf },
            25 => RotmgPacket::EnemyHit { rem: buf },
            26 => RotmgPacket::GuildResult { rem: buf },
            27 => RotmgPacket::EditAccountList { rem: buf },
            28 => RotmgPacket::TradeChanged { rem: buf },
            30 => RotmgPacket::PlayerShoot { rem: buf },
            31 => RotmgPacket::Pong { rem: buf },
            33 => RotmgPacket::PetChangeSkinMessage { rem: buf },
            34 => RotmgPacket::TradeDone { rem: buf },
            35 => RotmgPacket::EnemyShoot { rem: buf },
            36 => RotmgPacket::AcceptTrade { rem: buf },
            37 => RotmgPacket::ChangeGuildRank { rem: buf },
            38 => RotmgPacket::PlaySound { rem: buf },
            39 => RotmgPacket::VerifyEmail { rem: buf },
            40 => RotmgPacket::SquareHit { rem: buf },
            41 => RotmgPacket::NewAbility { rem: buf },
            42 => RotmgPacket::Update { rem: buf },
            46 => RotmgPacket::Death { rem: buf },
            47 => RotmgPacket::UsePortal { rem: buf },
            48 => RotmgPacket::QuestRoomMessage { rem: buf },
            49 => RotmgPacket::AllyShoot { rem: buf },
            50 => RotmgPacket::ImminentArenaWave { rem: buf },
            51 => RotmgPacket::Reskin { rem: buf },
            52 => RotmgPacket::ResetDailyQuests { rem: buf },
            53 => RotmgPacket::PetChangeFormMsg { rem: buf },
            55 => RotmgPacket::InvResult { rem: buf },
            56 => RotmgPacket::ChangeTrade { rem: buf },
            57 => RotmgPacket::Create { rem: buf },
            58 => RotmgPacket::QuestRedeem { rem: buf },
            59 => RotmgPacket::CreateGuild { rem: buf },
            60 => RotmgPacket::SetCondition { rem: buf },
            61 => RotmgPacket::Load { rem: buf },
            63 => RotmgPacket::KeyInfoResponse { rem: buf },
            64 => RotmgPacket::Aoe { rem: buf },
            65 => RotmgPacket::GoToAck { rem: buf },
            66 => RotmgPacket::GlobalNotification { rem: buf },
            67 => RotmgPacket::Notification { rem: buf },
            68 => RotmgPacket::ArenaDeath { rem: buf },
            69 => RotmgPacket::ClientStat { rem: buf },
            74 => RotmgPacket::Hello { rem: buf },
            76 => RotmgPacket::ActivePetUpdate { rem: buf },
            77 => RotmgPacket::InvitedToGuild { rem: buf },
            78 => RotmgPacket::PetYardUpdate { rem: buf },
            79 => RotmgPacket::PasswordPrompt { rem: buf },
            80 => RotmgPacket::AcceptArenaDeath { rem: buf },
            81 => RotmgPacket::UpdateAck { rem: buf },
            82 => RotmgPacket::QuestObjectId { rem: buf },
            83 => RotmgPacket::Pic { rem: buf },
            84 => RotmgPacket::RealmHeroLeftMsg { rem: buf },
            85 => RotmgPacket::Buy { rem: buf },
            86 => RotmgPacket::TradeStart { rem: buf },
            87 => RotmgPacket::EvolvePet { rem: buf },
            88 => RotmgPacket::TradeRequested { rem: buf },
            89 => RotmgPacket::AoeAck { rem: buf },
            90 => RotmgPacket::PlayerHit { rem: buf },
            91 => RotmgPacket::CancelTrade { rem: buf },
            93 => RotmgPacket::LoginRewardMsg { rem: buf },
            94 => RotmgPacket::KeyInfoRequest { rem: buf },
            95 => RotmgPacket::InvSwap { rem: buf },
            96 => RotmgPacket::QuestRedeemResponse { rem: buf },
            97 => RotmgPacket::ChooseName { rem: buf },
            98 => RotmgPacket::QuestFetchAsk { rem: buf },
            99 => RotmgPacket::AccountList { rem: buf },
            100 => RotmgPacket::ShootAck { rem: buf },
            101 => RotmgPacket::CreateSuccess { rem: buf },
            102 => RotmgPacket::CheckCredits { rem: buf },
            103 => RotmgPacket::GroundDamage { rem: buf },
            104 => RotmgPacket::GuildInvite { rem: buf },
            105 => RotmgPacket::Escape { rem: buf },
            106 => RotmgPacket::File { rem: buf },
            107 => RotmgPacket::ReskinUnlock { rem: buf },
            108 => RotmgPacket::NewCharacterInfo { rem: buf },
            109 => RotmgPacket::UnlockInfo { rem: buf },
            112 => RotmgPacket::QueueInfo { rem: buf },
            113 => RotmgPacket::QueueCancel { rem: buf },
            114 => RotmgPacket::ExaltationBonusChanged { rem: buf },
            115 => RotmgPacket::RedeemExaltationReward { rem: buf },
            117 => RotmgPacket::VaultUpdate { rem: buf },
            118 => RotmgPacket::ForgeRequest { rem: buf },
            119 => RotmgPacket::ForgeResult { rem: buf },
            120 => RotmgPacket::ForgeUnlockedBlueprints { rem: buf },
            121 => RotmgPacket::ShootAckCounter { rem: buf },
            122 => RotmgPacket::ChangeAllyShoot { rem: buf },
            123 => RotmgPacket::GetPlayersListMessage { rem: buf },
            124 => RotmgPacket::ModeratorActionMessage { rem: buf },
            126 => RotmgPacket::CreepMoveMessage { rem: buf },
            134 => RotmgPacket::Unknown134 { rem: buf },
            137 => RotmgPacket::Dash { rem: buf },
            138 => RotmgPacket::DashAck { rem: buf },
            139 => RotmgPacket::Unknown139 { rem: buf },
            145 => RotmgPacket::Unknown145 { rem: buf },
            146 => RotmgPacket::Unknown146 { rem: buf },
            147 => RotmgPacket::Unknown147 { rem: buf },
            149 => RotmgPacket::ClaimBattlePass { rem: buf },
            150 => RotmgPacket::ClaimBPMilestoneResult { rem: buf },
            154 => RotmgPacket::ConvertSeasonal { rem: buf },
            159 => RotmgPacket::Emote { rem: buf },
            163 => RotmgPacket::Unknown163 { rem: buf },
            164 => RotmgPacket::Unknown164 { rem: buf },
            165 => RotmgPacket::Unknown165 { rem: buf },
            166 => RotmgPacket::Stasis { rem: buf },
            169 => RotmgPacket::Unknown169 { rem: buf },
            other => RotmgPacket::Other { type_num: other, rem: buf },
        }
    }

    /// Read the frame with the tag and buffer of `sp` as the table lays it
    /// out. Fails where a frame whose fields are decoded is too short for
    /// them, or holds a string that is not UTF-8.
    fn read(sp: StitchedPacket) -> (r: Result<RotmgPacket, ReadError>)
        ensures
            decodes_to(r, parse_packet(sp@.tag, sp@.payload, sp.buffer.spec_index())),
    {
        let buf: ByteBuffer = sp.buffer;
        match sp.type_num {
            10 => parse_new_tick(buf),
            44 => parse_text(buf),
            45 => parse_reconnect(buf),
            62 => parse_move_record(buf),
            75 => parse_damage(buf),
            92 => parse_map_info(buf),
            other => Ok(Self::unread(other, buf)),
        }
    }

    /// Decode a stitched frame by its tag, reading from the cursor of its
    /// buffer. This never fails: a frame whose fields cannot be read is kept
    /// as `Other`, with its tag and its payload unread, and so is a frame
    /// whose tag the table does not know.
    pub fn try_from(sp: StitchedPacket) -> (r: Result<RotmgPacket, ReadError>)
        ensures
            r is Ok,
            r->Ok_0@ == typed_frame(sp@.tag, sp@.payload, sp.buffer.spec_index()),
    {
        Ok(Self::from_stitched(sp))
    }

    /// What [`RotmgPacket::try_from`] yields, as a plain value.
    pub fn from_stitched(sp: StitchedPacket) -> (packet: RotmgPacket)
        ensures
            packet@ == typed_frame(sp@.tag, sp@.payload, sp.buffer.spec_index()),
    {
        let tag: u8 = sp.type_num;
        proof {
            reveal(typed_frame);
        }
        if tag == 10 || tag == 44 || tag == 45 || tag == 62 || tag == 75 || tag == 92 {
            let unread: ByteBuffer = sp.buffer.clone();
            match Self::read(sp) {
                Ok(packet) => packet,
                Err(_) => RotmgPacket::Other { type_num: tag, rem: unread },
            }
        } else {
            Self::unread(tag, sp.buffer)
        }
    }
}

/// A tick on its own: the fixed fields, and the status updates as the bytes
/// that follow them.
#[derive(Clone, Debug, PartialEq, Eq)]
pub struct NewTick {
    pub tick_id: u32,
    pub tick_time: u32,
    pub server_current_time: u32,
    pub server_prev_time: u16,
    pub status: Vec<u8>,
}

impl NewTick {
    /// Read a tick from the cursor of `buf` on. Fails where fewer bytes
    /// remain than the fixed fields take.
    pub fn try_from(buf: ByteBuffer) -> (r: Result<NewTick, ReadError>)
        ensures
            match new_tick_layout(buf@, buf.spec_index()) {
                Ok(tick) => r is Ok && tick == (PacketView::NewTick {
                    tick_id: r->Ok_0.tick_id,
                    tick_time: r->Ok_0.tick_time,
                    server_current_time: r->Ok_0.server_current_time,
                    server_prev_time: r->Ok_0.server_prev_time,
                    rem: Remainder { bytes: buf@, cursor: buf.spec_index() + 14 },
                }) && r->Ok_0.status@ == buf@.skip(buf.spec_index() + 14),
                Err(e) => r is Err && r->Err_0 == e,
            },
    {
        let mut buf = buf;
        let tick_id: u32 = buf.read_u32()?;
        let tick_time: u32 = buf.read_u32()?;
        let server_current_time: u32 = buf.read_u32()?;
        let server_prev_time: u16 = buf.read_u16()?;
        Ok(
            NewTick {
                tick_id,
                tick_time,
                server_current_time,
                server_prev_time,
                status: buf.rem_to_vec(),
            },
        )
    }
}

} // verus!
