//! The player and guild modifier: its requests, the progress it reports, the
//! rules that validate a request, and the preview shown before a change.

use vstd::prelude::*;
use crate::text::{
    chars_of, decimal_text, push_char, push_decimal, push_str, signed_decimal_text, string_of,
    trim, trim_range,
};

verus! {

/// A guild member as the modifier lists it.
#[derive(Debug, Clone, PartialEq, Eq)]
pub struct ModifierGuildMember {
    pub player_uid: String,
    pub player_name: String,
    pub last_online: i64,
    pub role: Option<u8>,
}

/// A guild as the modifier lists it.
#[derive(Debug, Clone, PartialEq, Eq)]
pub struct ModifierGuild {
    pub guild_id: String,
    pub name: String,
    pub level: i32,
    pub leader_uid: String,
    pub leader_name: String,
    pub member_count: usize,
    pub base_count: usize,
    pub admin_player_uid: String,
    pub members: Vec<ModifierGuildMember>,
}

/// A player as the modifier lists it.
#[derive(Debug, Clone, PartialEq, Eq)]
pub struct ModifierPlayer {
    pub player_uid: String,
    pub guid: String,
    pub nickname: String,
    pub level: u32,
    pub pal_count: u32,
    pub guild_id: Option<String>,
    pub guild_name: Option<String>,
    pub role: String,
    pub is_leader: bool,
    pub last_online: Option<String>,
    pub technology_points: i32,
    pub ancient_technology_points: i32,
}

/// The players and guilds of one world.
#[derive(Debug, Clone, PartialEq, Eq)]
pub struct ModifierWorldState {
    pub world_name: String,
    pub players: Vec<ModifierPlayer>,
    pub guilds: Vec<ModifierGuild>,
    pub server_running: bool,
    pub game_running: bool,
}

/// The phases a modifier change goes through, in order.
#[derive(Debug, Clone, Copy, PartialEq, Eq, Structural)]
pub enum ModifierProgressPhase {
    CheckingProcesses,
    CreatingSnapshot,
    BuildingChanges,
    WritingSave,
    VerifyingSave,
    RefreshingData,
}

/// A progress report: the phase and its label.
#[derive(Debug, Clone, PartialEq, Eq)]
pub struct ModifierOperationProgress {
    pub phase: ModifierProgressPhase,
    pub label: String,
}

/// A world the modifier can open.
#[derive(Debug, Clone, PartialEq, Eq)]
pub struct ModifierWorldEntry {
    pub name: String,
    pub path: String,
}

/// What a modifier request changes.
#[derive(Debug, Clone, Copy, PartialEq, Eq, Structural)]
pub enum ModifierAction {
    RenamePlayer,
    SetPlayerLevel,
    SetTechnologyPoints,
    UnlockAllTechnologies,
    DeletePlayer,
    MakeGuildLeader,
    RenameGuild,
    DeleteGuild,
}

/// A modifier request.
#[derive(Debug, Clone, PartialEq, Eq)]
pub struct ModifierActionRequest {
    pub world_path: String,
    pub action: ModifierAction,
    pub player_uid: Option<String>,
    pub guild_id: Option<String>,
    pub value: Option<String>,
    pub level: Option<u32>,
    pub technology_points: Option<i32>,
    pub ancient_technology_points: Option<i32>,
}

/// What a request would change, shown before it is applied.
#[derive(Debug, Clone, PartialEq, Eq)]
pub struct ModifierActionPreview {
    pub confirmation_name: String,
    pub player_count: usize,
    pub pal_count: u32,
    pub base_count: usize,
    pub file_count: usize,
    pub summary: String,
}

/// The outcome of an applied request.
#[derive(Debug, Clone, PartialEq, Eq)]
pub struct ModifierActionResult {
    pub ok: bool,
    pub snapshot_id: String,
    pub roundtrip_ok: bool,
    pub message: String,
}

/// The label shown for a phase.
pub open spec fn phase_label(p: ModifierProgressPhase) -> Seq<char> {
    match p {
        ModifierProgressPhase::CheckingProcesses => "检查游戏和服务器"@,
        ModifierProgressPhase::CreatingSnapshot => "创建回滚点"@,
        ModifierProgressPhase::BuildingChanges => "生成修改"@,
        ModifierProgressPhase::WritingSave => "写入存档"@,
        ModifierProgressPhase::VerifyingSave => "重新解析验证"@,
        ModifierProgressPhase::RefreshingData => "刷新数据"@,
    }
}

impl ModifierProgressPhase {
    /// Every phase, in the order a change goes through them.
    pub fn ordered() -> (r: [Self; 6])
        ensures
            r@ == seq![
                ModifierProgressPhase::CheckingProcesses,
                ModifierProgressPhase::CreatingSnapshot,
                ModifierProgressPhase::BuildingChanges,
                ModifierProgressPhase::WritingSave,
                ModifierProgressPhase::VerifyingSave,
                ModifierProgressPhase::RefreshingData,
            ],
    {
        let r = [
            Self::CheckingProcesses,
            Self::CreatingSnapshot,
            Self::BuildingChanges,
            Self::WritingSave,
            Self::VerifyingSave,
            Self::RefreshingData,
        ];
        assert(r@ =~= seq![
            ModifierProgressPhase::CheckingProcesses,
            ModifierProgressPhase::CreatingSnapshot,
            ModifierProgressPhase::BuildingChanges,
            ModifierProgressPhase::WritingSave,
            ModifierProgressPhase::VerifyingSave,
            ModifierProgressPhase::RefreshingData,
        ]);
        r
    }

    /// The label shown to the user for this phase.
    pub fn label(self) -> (r: &'static str)
        ensures
            r@ == phase_label(self),
    {
        match self {
            Self::CheckingProcesses => "检查游戏和服务器",
            Self::CreatingSnapshot => "创建回滚点",
            Self::BuildingChanges => "生成修改",
            Self::WritingSave => "写入存档",
            Self::VerifyingSave => "重新解析验证",
            Self::RefreshingData => "刷新数据",
        }
    }
}

impl ModifierOperationProgress {
    /// The progress report of a phase, labelled.
    pub fn of_phase(phase: ModifierProgressPhase) -> (r: ModifierOperationProgress)
        ensures
            r.phase == phase,
            r.label@ == phase_label(phase),
    {
        ModifierOperationProgress { phase, label: String::from_str(phase.label()) }
    }
}

/// The tag recorded for a change made by an action.
pub open spec fn action_tag(a: ModifierAction) -> Seq<char> {
    match a {
        ModifierAction::RenamePlayer => "player-rename"@,
        ModifierAction::SetPlayerLevel => "player-level"@,
        ModifierAction::SetTechnologyPoints => "technology-points"@,
        ModifierAction::UnlockAllTechnologies => "technology-unlock-all"@,
        ModifierAction::DeletePlayer => "player-delete"@,
        ModifierAction::MakeGuildLeader => "guild-leader"@,
        ModifierAction::RenameGuild => "guild-rename"@,
        ModifierAction::DeleteGuild => "guild-delete"@,
    }
}

/// The tag recorded for a change made by `action`.
pub fn action_source(action: ModifierAction) -> (r: &'static str)
    ensures
        r@ == action_tag(action),
{
    match action {
        ModifierAction::RenamePlayer => "player-rename",
        ModifierAction::SetPlayerLevel => "player-level",
        ModifierAction::SetTechnologyPoints => "technology-points",
        ModifierAction::UnlockAllTechnologies => "technology-unlock-all",
        ModifierAction::DeletePlayer => "player-delete",
        ModifierAction::MakeGuildLeader => "guild-leader",
        ModifierAction::RenameGuild => "guild-rename",
        ModifierAction::DeleteGuild => "guild-delete",
    }
}

/// One second in world ticks.
pub const TICKS_PER_SECOND: i64 = 10_000_000;

/// `a / d` rounded toward zero, as integer division in Rust does.
pub open spec fn div_toward_zero(a: int, d: int) -> int {
    if a >= 0 {
        a / d
    } else {
        -((-a) / d)
    }
}

/// How long ago a player was last seen, from the tick of their last visit
/// and the current world tick: `None` unless both are positive; otherwise
/// "just now" under a minute, then whole minutes, hours, or days.
pub open spec fn last_seen_text(last_tick: i64, world_tick: i64) -> Option<Seq<char>> {
    if last_tick <= 0 || world_tick <= 0 {
        None
    } else {
        let e = div_toward_zero(world_tick - last_tick, TICKS_PER_SECOND as int);
        Some(
            if 0 <= e <= 59 {
                "刚刚"@
            } else if 60 <= e <= 3_599 {
                decimal_text((e / 60) as nat) + " 分钟前"@
            } else if 3_600 <= e <= 86_399 {
                decimal_text((e / 3_600) as nat) + " 小时前"@
            } else {
                signed_decimal_text(div_toward_zero(e, 86_400)) + " 天前"@
            },
        )
    }
}

/// How long ago a player was last seen, in words, from world ticks.
pub fn format_last_seen(last_tick: i64, world_tick: i64) -> (r: Option<String>)
    ensures
        match last_seen_text(last_tick, world_tick) {
            Some(t) => r matches Some(s) && s@ == t,
            None => r is None,
        },
{
    if last_tick <= 0 || world_tick <= 0 {
        return None;
    }
    let mut s = String::new();
    if world_tick >= last_tick {
        let e = ((world_tick - last_tick) / TICKS_PER_SECOND) as u64;
        if e <= 59 {
            push_str(&mut s, "刚刚");
        } else if e <= 3_599 {
            push_decimal(&mut s, e / 60);
            push_str(&mut s, " 分钟前");
        } else if e <= 86_399 {
            push_decimal(&mut s, e / 3_600);
            push_str(&mut s, " 小时前");
        } else {
            push_decimal(&mut s, e / 86_400);
            push_str(&mut s, " 天前");
        }
    } else {
        let back = ((last_tick - world_tick) / TICKS_PER_SECOND) as u64;
        if back == 0 {
            push_str(&mut s, "刚刚");
        } else {
            let days = back / 86_400;
            if days > 0 {
                push_char(&mut s, '-');
            }
            push_decimal(&mut s, days);
            push_str(&mut s, " 天前");
        }
    }
    Some(s)
}

/// The name a request carries: its value, trimmed (empty without a value).
pub open spec fn requested_name(req: ModifierActionRequest) -> Seq<char> {
    match req.value {
        Some(v) => trim(v@),
        None => Seq::empty(),
    }
}

/// A name of 1 to 50 characters.
pub open spec fn name_length_ok(n: Seq<char>) -> bool {
    1 <= n.len() <= 50
}

/// The largest technology point count a request may set.
pub const MAX_TECHNOLOGY_POINTS: i32 = 9_999_999;

/// A point count a request may set.
pub open spec fn points_ok(p: Option<i32>) -> bool {
    match p {
        Some(v) => 0 <= v <= MAX_TECHNOLOGY_POINTS,
        None => false,
    }
}

/// Why a request is refused before the world is read, if it is.
pub open spec fn request_error(req: ModifierActionRequest) -> Option<Seq<char>> {
    match req.action {
        ModifierAction::RenamePlayer | ModifierAction::RenameGuild => if name_length_ok(
            requested_name(req),
        ) {
            None
        } else {
            Some("名称必须为 1–50 个字符"@)
        },
        ModifierAction::SetPlayerLevel => match req.level {
            Some(l) => if 1 <= l <= 80 {
                None
            } else {
                Some("玩家等级必须为 1–80"@)
            },
            None => Some("玩家等级必须为 1–80"@),
        },
        ModifierAction::SetTechnologyPoints => if points_ok(req.technology_points) && points_ok(
            req.ancient_technology_points,
        ) {
            None
        } else {
            Some("科技点必须为 0–9999999"@)
        },
        _ => None,
    }
}

/// The name a request carries, trimmed; refused unless it has 1 to 50 characters.
pub fn validated_name(request: &ModifierActionRequest) -> (r: Result<String, String>)
    ensures
        name_length_ok(requested_name(*request)) ==> (r matches Ok(n) && n@ == requested_name(
            *request,
        )),
        !name_length_ok(requested_name(*request)) ==> (r matches Err(e) && e@
            == "名称必须为 1–50 个字符"@),
{
    let v = match &request.value {
        Some(v) => chars_of(v.as_str()),
        None => Vec::new(),
    };
    let (a, b) = trim_range(v.as_slice(), 0, v.len());
    assert(v@.subrange(0, v@.len() as int) =~= v@);
    if a == b || b - a > 50 {
        return Err(String::from_str("名称必须为 1–50 个字符"));
    }
    Ok(string_of(v.as_slice(), a, b))
}

/// Refuses a request whose own values are out of range: a name outside
/// 1 to 50 characters, a level outside 1 to 80, or technology points outside
/// 0 to 9 999 999.
pub fn validate_action_request(request: &ModifierActionRequest) -> (r: Result<(), String>)
    ensures
        match request_error(*request) {
            None => r is Ok,
            Some(m) => r matches Err(e) && e@ == m,
        },
{
    match request.action {
        ModifierAction::RenamePlayer | ModifierAction::RenameGuild => {
            validated_name(request)?;
        },
        ModifierAction::SetPlayerLevel => {
            let ok = match request.level {
                Some(l) => 1 <= l && l <= 80,
                None => false,
            };
            if !ok {
                return Err(String::from_str("玩家等级必须为 1–80"));
            }
        },
        ModifierAction::SetTechnologyPoints => {
            let a = match request.technology_points {
                Some(v) => 0 <= v && v <= MAX_TECHNOLOGY_POINTS,
                None => false,
            };
            let b = match request.ancient_technology_points {
                Some(v) => 0 <= v && v <= MAX_TECHNOLOGY_POINTS,
                None => false,
            };
            if !a || !b {
                return Err(String::from_str("科技点必须为 0–9999999"));
            }
        },
        _ => {},
    }
    Ok(())
}

/// `c` with an ASCII upper-case letter made lower-case.
pub open spec fn ascii_lower(c: char) -> char {
    if 'A' <= c <= 'Z' {
        ((c as u32) + 32) as char
    } else {
        c
    }
}

/// Equal but for the case of ASCII letters.
pub open spec fn eq_ignore_ascii_case(a: Seq<char>, b: Seq<char>) -> bool {
    a.len() == b.len() && forall|i: int| 0 <= i < a.len() ==> ascii_lower(#[trigger] a[i])
        == ascii_lower(b[i])
}

fn ascii_lower_exec(c: char) -> (r: char)
    ensures
        r == ascii_lower(c),
{
    if 'A' <= c && c <= 'Z' {
        ((c as u8) + 32) as char
    } else {
        c
    }
}

/// Whether two strings are equal but for the case of ASCII letters.
pub fn same_ignoring_ascii_case(a: &str, b: &str) -> (r: bool)
    ensures
        r == eq_ignore_ascii_case(a@, b@),
{
    let x = chars_of(a);
    let y = chars_of(b);
    if x.len() != y.len() {
        return false;
    }
    let mut i: usize = 0;
    while i < x.len()
        invariant
            x@ == a@,
            y@ == b@,
            x@.len() == y@.len(),
            i <= x@.len(),
            forall|j: int| 0 <= j < i ==> ascii_lower(#[trigger] x@[j]) == ascii_lower(y@[j]),
        decreases x@.len() - i,
    {
        if ascii_lower_exec(x[i]) != ascii_lower_exec(y[i]) {
            return false;
        }
        i = i + 1;
    }
    true
}

/// Whether two strings are equal.
pub fn same_text(a: &str, b: &str) -> (r: bool)
    ensures
        r == (a@ == b@),
{
    let x = chars_of(a);
    let y = chars_of(b);
    if x.len() != y.len() {
        return false;
    }
    let mut i: usize = 0;
    while i < x.len()
        invariant
            x@ == a@,
            y@ == b@,
            x@.len() == y@.len(),
            i <= x@.len(),
            forall|j: int| 0 <= j < i ==> x@[j] == y@[j],
        decreases x@.len() - i,
    {
        if x[i] != y[i] {
            return false;
        }
        i = i + 1;
    }
    assert(x@ =~= y@);
    true
}

/// The first player at or after `i` whose uid matches `uid` but for ASCII case.
pub open spec fn find_player(ps: Seq<ModifierPlayer>, uid: Seq<char>, i: int) -> Option<int>
    decreases ps.len() - i,
{
    if i < 0 || i >= ps.len() {
        None
    } else if eq_ignore_ascii_case(ps[i].player_uid@, uid) {
        Some(i)
    } else {
        find_player(ps, uid, i + 1)
    }
}

/// The first guild at or after `i` whose id matches `id` but for ASCII case.
pub open spec fn find_guild(gs: Seq<ModifierGuild>, id: Seq<char>, i: int) -> Option<int>
    decreases gs.len() - i,
{
    if i < 0 || i >= gs.len() {
        None
    } else if eq_ignore_ascii_case(gs[i].guild_id@, id) {
        Some(i)
    } else {
        find_guild(gs, id, i + 1)
    }
}

/// The first guild at or after `i` whose id is exactly `id`.
pub open spec fn find_guild_exact(gs: Seq<ModifierGuild>, id: Seq<char>, i: int) -> Option<int>
    decreases gs.len() - i,
{
    if i < 0 || i >= gs.len() {
        None
    } else if gs[i].guild_id@ == id {
        Some(i)
    } else {
        find_guild_exact(gs, id, i + 1)
    }
}

proof fn lemma_find_player(ps: Seq<ModifierPlayer>, uid: Seq<char>, i: int)
    ensures
        find_player(ps, uid, i) matches Some(k) ==> 0 <= k < ps.len(),
    decreases ps.len() - i,
{
    if 0 <= i < ps.len() && !eq_ignore_ascii_case(ps[i].player_uid@, uid) {
        lemma_find_player(ps, uid, i + 1);
    }
}

proof fn lemma_find_guild(gs: Seq<ModifierGuild>, id: Seq<char>, i: int)
    ensures
        find_guild(gs, id, i) matches Some(k) ==> 0 <= k < gs.len(),
        find_guild_exact(gs, id, i) matches Some(k) ==> 0 <= k < gs.len(),
    decreases gs.len() - i,
{
    if 0 <= i < gs.len() {
        lemma_find_guild(gs, id, i + 1);
    }
}

/// The index of the player a request names.
pub fn required_player(state: &ModifierWorldState, request: &ModifierActionRequest) -> (r: Result<
    usize,
    String,
>)
    ensures
        match request.player_uid {
            None => r matches Err(e) && e@ == "请选择玩家"@,
            Some(uid) => match find_player(state.players@, uid@, 0) {
                Some(i) => r matches Ok(j) && j == i,
                None => r matches Err(e) && e@ == "所选玩家不存在"@,
            },
        },
        r matches Ok(i) ==> i < state.players@.len(),
{
    let uid = match &request.player_uid {
        Some(u) => u,
        None => return Err(String::from_str("请选择玩家")),
    };
    let mut i: usize = 0;
    while i < state.players.len()
        invariant
            request.player_uid == Some(*uid),
            i <= state.players@.len(),
            find_player(state.players@, uid@, 0) == find_player(state.players@, uid@, i as int),
        decreases state.players@.len() - i,
    {
        proof {
            lemma_find_player(state.players@, uid@, i as int);
        }
        if same_ignoring_ascii_case(state.players[i].player_uid.as_str(), uid.as_str()) {
            return Ok(i);
        }
        i = i + 1;
    }
    Err(String::from_str("所选玩家不存在"))
}

/// The index of the guild a request names.
pub fn required_guild(state: &ModifierWorldState, request: &ModifierActionRequest) -> (r: Result<
    usize,
    String,
>)
    ensures
        match request.guild_id {
            None => r matches Err(e) && e@ == "请选择公会"@,
            Some(id) => match find_guild(state.guilds@, id@, 0) {
                Some(i) => r matches Ok(j) && j == i,
                None => r matches Err(e) && e@ == "所选公会不存在"@,
            },
        },
        r matches Ok(i) ==> i < state.guilds@.len(),
{
    let id = match &request.guild_id {
        Some(g) => g,
        None => return Err(String::from_str("请选择公会")),
    };
    let mut i: usize = 0;
    while i < state.guilds.len()
        invariant
            request.guild_id == Some(*id),
            i <= state.guilds@.len(),
            find_guild(state.guilds@, id@, 0) == find_guild(state.guilds@, id@, i as int),
        decreases state.guilds@.len() - i,
    {
        proof {
            lemma_find_guild(state.guilds@, id@, i as int);
        }
        if same_ignoring_ascii_case(state.guilds[i].guild_id.as_str(), id.as_str()) {
            return Ok(i);
        }
        i = i + 1;
    }
    Err(String::from_str("所选公会不存在"))
}

/// A world as the preview needs it: its players and guilds, and for each
/// player how many of its two files (`<guid>.sav`, `<guid>_dps.sav`) exist.
#[derive(Debug, Clone, PartialEq, Eq)]
pub struct PreviewWorld {
    pub state: ModifierWorldState,
    pub player_file_counts: Vec<usize>,
}

/// The player belongs to the guild with id `gid`.
pub open spec fn in_guild(p: ModifierPlayer, gid: Seq<char>) -> bool {
    p.guild_id matches Some(g) && g@ == gid
}

/// The pals of the members of guild `gid` among the first `k` players.
pub open spec fn guild_pal_sum(ps: Seq<ModifierPlayer>, gid: Seq<char>, k: nat) -> int
    decreases k,
{
    if k == 0 {
        0
    } else {
        guild_pal_sum(ps, gid, (k - 1) as nat) + if in_guild(ps[k - 1], gid) {
            ps[k - 1].pal_count as int
        } else {
            0
        }
    }
}

/// The files of the members of guild `gid` among the first `k` players.
pub open spec fn guild_file_sum(ps: Seq<ModifierPlayer>, counts: Seq<usize>, gid: Seq<char>, k: nat) -> int
    decreases k,
{
    if k == 0 {
        0
    } else {
        guild_file_sum(ps, counts, gid, (k - 1) as nat) + if in_guild(ps[k - 1], gid) {
            counts[k - 1] as int
        } else {
            0
        }
    }
}

/// The fields of a preview: confirmation name, players, pals, bases, files
/// and summary.
pub open spec fn preview_fields(p: ModifierActionPreview) -> (Seq<char>, int, int, int, int, Seq<char>) {
    (
        p.confirmation_name@,
        p.player_count as int,
        p.pal_count as int,
        p.base_count as int,
        p.file_count as int,
        p.summary@,
    )
}

/// The preview of a guild request on the guild at index `k`.
pub open spec fn guild_preview(
    req: ModifierActionRequest,
    st: ModifierWorldState,
    counts: Seq<usize>,
    k: int,
) -> Result<(Seq<char>, int, int, int, int, Seq<char>), Seq<char>> {
    let ps = st.players@;
    let g = st.guilds@[k];
    if req.action == ModifierAction::RenameGuild {
        Ok(
            (
                g.name@,
                g.member_count as int,
                0,
                g.base_count as int,
                1,
                "将公会 "@ + g.name@ + " 重命名为 "@ + requested_name(req) + "。"@,
            ),
        )
    } else {
        Ok(
            (
                g.name@,
                g.member_count as int,
                guild_pal_sum(ps, g.guild_id@, ps.len()),
                g.base_count as int,
                1 + guild_file_sum(ps, counts, g.guild_id@, ps.len()),
                "将删除公会 "@ + g.name@ + "、全部成员及关联数据。"@,
            ),
        )
    }
}

/// The preview of a player request on the player at index `i`.
pub open spec fn player_preview(
    req: ModifierActionRequest,
    st: ModifierWorldState,
    counts: Seq<usize>,
    i: int,
) -> Result<(Seq<char>, int, int, int, int, Seq<char>), Seq<char>> {
    let gs = st.guilds@;
    let p = st.players@[i];
    let nick = p.nickname@;
    let pals = p.pal_count as int;
    match req.action {
        ModifierAction::RenamePlayer => Ok(
            (nick, 1, pals, 0, 1, "将玩家 "@ + nick + " 重命名为 "@ + requested_name(req) + "。"@),
        ),
        ModifierAction::SetPlayerLevel => Ok(
            (
                nick,
                1,
                pals,
                0,
                1,
                "将玩家 "@ + nick + " 的等级设为 "@ + decimal_text(req.level->0 as nat) + "。"@,
            ),
        ),
        ModifierAction::SetTechnologyPoints => Ok(
            (nick, 1, pals, 0, 1, "将修改玩家 "@ + nick + " 的科技点。"@),
        ),
        ModifierAction::UnlockAllTechnologies => Ok(
            (nick, 1, pals, 0, 1, "将为玩家 "@ + nick + " 解锁全部科技。"@),
        ),
        ModifierAction::DeletePlayer => Ok(
            (nick, 1, pals, 0, 1 + counts[i] as int, "将删除玩家 "@ + nick + " 及其关联存档。"@),
        ),
        _ => match p.guild_id {
            None => Err("所选玩家不属于任何公会"@),
            Some(g) => match find_guild_exact(gs, g@, 0) {
                None => Err("所选玩家不属于任何公会"@),
                Some(k) => Ok(
                    (
                        nick,
                        1,
                        0,
                        gs[k].base_count as int,
                        1,
                        "将 "@ + nick + " 设为公会 "@ + gs[k].name@ + " 的队长。"@,
                    ),
                ),
            },
        },
    }
}

/// The preview of a valid request on a world, or why there is none.
pub open spec fn expected_preview(
    req: ModifierActionRequest,
    st: ModifierWorldState,
    counts: Seq<usize>,
) -> Result<(Seq<char>, int, int, int, int, Seq<char>), Seq<char>> {
    match req.action {
        ModifierAction::RenameGuild | ModifierAction::DeleteGuild => match req.guild_id {
            None => Err("请选择公会"@),
            Some(id) => match find_guild(st.guilds@, id@, 0) {
                None => Err("所选公会不存在"@),
                Some(k) => guild_preview(req, st, counts, k),
            },
        },
        _ => match req.player_uid {
            None => Err("请选择玩家"@),
            Some(uid) => match find_player(st.players@, uid@, 0) {
                None => Err("所选玩家不存在"@),
                Some(i) => player_preview(req, st, counts, i),
            },
        },
    }
}

/// The world data fits the preview: one file count, at most two, per player,
/// and no guild's pals overflow a `u32`.
pub open spec fn preview_world_ok(w: PreviewWorld) -> bool {
    let ps = w.state.players@;
    &&& w.player_file_counts@.len() == ps.len()
    &&& forall|i: int| 0 <= i < ps.len() ==> w.player_file_counts@[i] <= 2
    &&& 1 + 2 * ps.len() <= usize::MAX
    &&& forall|k: int|
        0 <= k < w.state.guilds@.len() ==> guild_pal_sum(
            ps,
            (#[trigger] w.state.guilds@[k]).guild_id@,
            ps.len(),
        ) <= u32::MAX
}

fn find_guild_exact_exec(gs: &Vec<ModifierGuild>, id: &String) -> (r: Option<usize>)
    ensures
        match find_guild_exact(gs@, id@, 0) {
            Some(k) => r matches Some(j) && j == k,
            None => r is None,
        },
        r matches Some(k) ==> k < gs@.len(),
{
    let mut i: usize = 0;
    while i < gs.len()
        invariant
            i <= gs@.len(),
            find_guild_exact(gs@, id@, 0) == find_guild_exact(gs@, id@, i as int),
        decreases gs@.len() - i,
    {
        proof {
            lemma_find_guild(gs@, id@, i as int);
        }
        if same_text(gs[i].guild_id.as_str(), id.as_str()) {
            return Some(i);
        }
        i = i + 1;
    }
    proof {
        lemma_find_guild(gs@, id@, i as int);
    }
    None
}

fn preview_of(
    name: &String,
    players: usize,
    pals: u32,
    bases: usize,
    files: usize,
    summary: String,
) -> (p: ModifierActionPreview)
    ensures
        preview_fields(p) == (name@, players as int, pals as int, bases as int, files as int, summary@),
{
    ModifierActionPreview {
        confirmation_name: name.clone(),
        player_count: players,
        pal_count: pals,
        base_count: bases,
        file_count: files,
        summary,
    }
}

fn guild_preview_exec(request: &ModifierActionRequest, world: &PreviewWorld, k: usize) -> (r: Result<
    ModifierActionPreview,
    String,
>)
    requires
        request_error(*request) is None,
        preview_world_ok(*world),
        request.action == ModifierAction::RenameGuild || request.action == ModifierAction::DeleteGuild,
        k < world.state.guilds@.len(),
    ensures
        match guild_preview(*request, world.state, world.player_file_counts@, k as int) {
            Ok(f) => r matches Ok(p) && preview_fields(p) == f,
            Err(m) => r matches Err(e) && e@ == m,
        },
{
    let ps = &world.state.players;
    let counts = &world.player_file_counts;
    let g = &world.state.guilds[k];
    if request.action == ModifierAction::RenameGuild {
        let name = validated_name(request)?;
        let mut summary = String::from_str("将公会 ");
        push_str(&mut summary, g.name.as_str());
        push_str(&mut summary, " 重命名为 ");
        push_str(&mut summary, name.as_str());
        push_str(&mut summary, "。");
        Ok(preview_of(&g.name, g.member_count, 0, g.base_count, 1, summary))
    } else {
        let mut pals: u32 = 0;
        let mut files: usize = 0;
        let mut i: usize = 0;
        while i < ps.len()
            invariant
                preview_world_ok(*world),
                ps == &world.state.players,
                counts == &world.player_file_counts,
                k < world.state.guilds@.len(),
                g == &world.state.guilds@[k as int],
                i <= ps@.len(),
                pals == guild_pal_sum(ps@, g.guild_id@, i as nat),
                files == guild_file_sum(ps@, counts@, g.guild_id@, i as nat),
                files <= 2 * i,
            decreases ps@.len() - i,
        {
            proof {
                lemma_guild_pal_sum_monotone(ps@, g.guild_id@, (i + 1) as nat, ps@.len());
                assert(guild_pal_sum(ps@, g.guild_id@, ps@.len()) <= u32::MAX);
            }
            let member = match &ps[i].guild_id {
                Some(id) => same_text(id.as_str(), g.guild_id.as_str()),
                None => false,
            };
            if member {
                pals = pals + ps[i].pal_count;
                files = files + counts[i];
            }
            i = i + 1;
        }
        let mut summary = String::from_str("将删除公会 ");
        push_str(&mut summary, g.name.as_str());
        push_str(&mut summary, "、全部成员及关联数据。");
        Ok(preview_of(&g.name, g.member_count, pals, g.base_count, 1 + files, summary))
    }
}

fn player_preview_exec(request: &ModifierActionRequest, world: &PreviewWorld, i: usize) -> (r: Result<
    ModifierActionPreview,
    String,
>)
    requires
        request_error(*request) is None,
        preview_world_ok(*world),
        request.action != ModifierAction::RenameGuild,
        request.action != ModifierAction::DeleteGuild,
        i < world.state.players@.len(),
    ensures
        match player_preview(*request, world.state, world.player_file_counts@, i as int) {
            Ok(f) => r matches Ok(p) && preview_fields(p) == f,
            Err(m) => r matches Err(e) && e@ == m,
        },
{
    let gs = &world.state.guilds;
    let p = &world.state.players[i];
    match request.action {
        ModifierAction::RenamePlayer => {
            let name = validated_name(request)?;
            let mut summary = String::from_str("将玩家 ");
            push_str(&mut summary, p.nickname.as_str());
            push_str(&mut summary, " 重命名为 ");
            push_str(&mut summary, name.as_str());
            push_str(&mut summary, "。");
            let res = preview_of(&p.nickname, 1, p.pal_count, 0, 1, summary);
            assert(preview_fields(res) == player_preview(*request, world.state, world.player_file_counts@, i as int)->Ok_0);
            Ok(res)
        },
        ModifierAction::SetPlayerLevel => {
            let level = match request.level {
                Some(l) => l,
                None => 0,
            };
            let mut summary = String::from_str("将玩家 ");
            push_str(&mut summary, p.nickname.as_str());
            push_str(&mut summary, " 的等级设为 ");
            push_decimal(&mut summary, level as u64);
            push_str(&mut summary, "。");
            let res = preview_of(&p.nickname, 1, p.pal_count, 0, 1, summary);
            assert(preview_fields(res) == player_preview(*request, world.state, world.player_file_counts@, i as int)->Ok_0);
            Ok(res)
        },
        ModifierAction::SetTechnologyPoints => {
            let mut summary = String::from_str("将修改玩家 ");
            push_str(&mut summary, p.nickname.as_str());
            push_str(&mut summary, " 的科技点。");
            let res = preview_of(&p.nickname, 1, p.pal_count, 0, 1, summary);
            assert(preview_fields(res) == player_preview(*request, world.state, world.player_file_counts@, i as int)->Ok_0);
            Ok(res)
        },
        ModifierAction::UnlockAllTechnologies => {
            let mut summary = String::from_str("将为玩家 ");
            push_str(&mut summary, p.nickname.as_str());
            push_str(&mut summary, " 解锁全部科技。");
            let res = preview_of(&p.nickname, 1, p.pal_count, 0, 1, summary);
            assert(preview_fields(res) == player_preview(*request, world.state, world.player_file_counts@, i as int)->Ok_0);
            Ok(res)
        },
        ModifierAction::DeletePlayer => {
            let mut summary = String::from_str("将删除玩家 ");
            push_str(&mut summary, p.nickname.as_str());
            push_str(&mut summary, " 及其关联存档。");
            let res = preview_of(&p.nickname, 1, p.pal_count, 0, 1 + world.player_file_counts[i], summary);
            assert(preview_fields(res) == player_preview(*request, world.state, world.player_file_counts@, i as int)->Ok_0);
            Ok(res)
        },
        _ => {
            let k = match &p.guild_id {
                Some(gid) => match find_guild_exact_exec(gs, gid) {
                    Some(k) => k,
                    None => return Err(String::from_str("所选玩家不属于任何公会")),
                },
                None => return Err(String::from_str("所选玩家不属于任何公会")),
            };
            let g = &gs[k];
            assert(p.guild_id matches Some(gg) && find_guild_exact(gs@, gg@, 0) == Some(k as int));
            assert(p == world.state.players@[i as int]);
            assert(g == world.state.guilds@[k as int]);
            let mut summary = String::from_str("将 ");
            push_str(&mut summary, p.nickname.as_str());
            push_str(&mut summary, " 设为公会 ");
            push_str(&mut summary, g.name.as_str());
            push_str(&mut summary, " 的队长。");
            assert(summary@ == "将 "@ + p.nickname@ + " 设为公会 "@ + g.name@ + " 的队长。"@);
            let res = preview_of(&p.nickname, 1, 0, g.base_count, 1, summary);
            assert(preview_fields(res) == player_preview(*request, world.state, world.player_file_counts@, i as int)->Ok_0);
            Ok(res)
        },
    }
}

/// The preview of a valid request on a loaded world.
pub fn preview_from_world(request: &ModifierActionRequest, world: &PreviewWorld) -> (r: Result<
    ModifierActionPreview,
    String,
>)
    requires
        request_error(*request) is None,
        preview_world_ok(*world),
    ensures
        match expected_preview(*request, world.state, world.player_file_counts@) {
            Ok(f) => r matches Ok(p) && preview_fields(p) == f,
            Err(m) => r matches Err(e) && e@ == m,
        },
{
    match request.action {
        ModifierAction::RenameGuild | ModifierAction::DeleteGuild => {
            let k = required_guild(&world.state, request)?;
            guild_preview_exec(request, world, k)
        },
        _ => {
            let i = required_player(&world.state, request)?;
            player_preview_exec(request, world, i)
        },
    }
}

proof fn lemma_guild_pal_sum_monotone(ps: Seq<ModifierPlayer>, gid: Seq<char>, i: nat, k: nat)
    requires
        i <= k,
    ensures
        guild_pal_sum(ps, gid, i) <= guild_pal_sum(ps, gid, k),
        guild_pal_sum(ps, gid, i) >= 0,
    decreases k,
{
    if k > i {
        lemma_guild_pal_sum_monotone(ps, gid, i, (k - 1) as nat);
    } else if i > 0 {
        lemma_guild_pal_sum_monotone(ps, gid, (i - 1) as nat, (i - 1) as nat);
    }
}

/// Whether the loaded world fits the preview (see `preview_world_ok`).
pub fn preview_world_fits(world: &PreviewWorld) -> (r: bool)
    ensures
        r == preview_world_ok(*world),
{
    let ps = &world.state.players;
    let gs = &world.state.guilds;
    let counts = &world.player_file_counts;
    if counts.len() != ps.len() {
        return false;
    }
    if ps.len() > (usize::MAX - 1) / 2 {
        return false;
    }
    let mut i: usize = 0;
    while i < counts.len()
        invariant
            counts == &world.player_file_counts,
            i <= counts@.len(),
            forall|j: int| 0 <= j < i ==> counts@[j] <= 2,
        decreases counts@.len() - i,
    {
        if counts[i] > 2 {
            return false;
        }
        i = i + 1;
    }
    let mut k: usize = 0;
    while k < gs.len()
        invariant
            gs == &world.state.guilds,
            ps == &world.state.players,
            counts == &world.player_file_counts,
            counts@.len() == ps@.len(),
            1 + 2 * ps@.len() <= usize::MAX,
            forall|j: int| 0 <= j < ps@.len() ==> counts@[j] <= 2,
            k <= gs@.len(),
            forall|m: int|
                0 <= m < k ==> guild_pal_sum(ps@, (#[trigger] gs@[m]).guild_id@, ps@.len())
                    <= u32::MAX,
        decreases gs@.len() - k,
    {
        let g = &gs[k];
        let mut sum: u64 = 0;
        let mut i: usize = 0;
        while i < ps.len()
            invariant
                ps == &world.state.players,
                i <= ps@.len(),
                sum == guild_pal_sum(ps@, g.guild_id@, i as nat),
                sum <= u32::MAX,
                counts@.len() == ps@.len(),
                1 + 2 * ps@.len() <= usize::MAX,
                forall|j: int| 0 <= j < ps@.len() ==> counts@[j] <= 2,
                counts == &world.player_file_counts,
                gs == &world.state.guilds,
                k < gs@.len(),
                g == &gs@[k as int],
                forall|m: int|
                    0 <= m < k ==> guild_pal_sum(ps@, (#[trigger] gs@[m]).guild_id@, ps@.len())
                        <= u32::MAX,
            decreases ps@.len() - i,
        {
            let member = match &ps[i].guild_id {
                Some(id) => same_text(id.as_str(), g.guild_id.as_str()),
                None => false,
            };
            if member {
                sum = sum + ps[i].pal_count as u64;
            }
            if sum > u32::MAX as u64 {
                proof {
                    lemma_guild_pal_sum_monotone(ps@, g.guild_id@, (i + 1) as nat, ps@.len());
                }
                return false;
            }
            i = i + 1;
        }
        k = k + 1;
    }
    true
}

/// What the preview of a valid request is, given what the world loader returned.
pub open spec fn preview_outcome(
    req: ModifierActionRequest,
    w: Result<PreviewWorld, String>,
    r: Result<ModifierActionPreview, String>,
) -> bool {
    match w {
        Err(e) => r matches Err(x) && x@ == e@,
        Ok(world) => if preview_world_ok(world) {
            match expected_preview(req, world.state, world.player_file_counts@) {
                Ok(f) => r matches Ok(p) && preview_fields(p) == f,
                Err(m) => r matches Err(x) && x@ == m,
            }
        } else {
            r is Err
        },
    }
}

/// The preview of a request: the request is validated first, and refused
/// without loading the world when its own values are out of range; then the
/// world is loaded by `load_world` and the preview computed from it.
pub fn preview_modifier_action_impl<F>(request: &ModifierActionRequest, load_world: F) -> (r: Result<
    ModifierActionPreview,
    String,
>) where F: FnOnce() -> Result<PreviewWorld, String>
    requires
        request_error(*request) is None ==> call_requires(load_world, ()),
    ensures
        request_error(*request) matches Some(m) ==> (r matches Err(e) && e@ == m),
        request_error(*request) is None ==> exists|w: Result<PreviewWorld, String>|
            call_ensures(load_world, (), w) && preview_outcome(*request, w, r),
{
    validate_action_request(request)?;
    let w = load_world();
    let world = match w {
        Ok(world) => world,
        Err(e) => {
            assert(preview_outcome(*request, Err(e), Err(e)));
            return Err(e);
        },
    };
    if !preview_world_fits(&world) {
        let r = Err(String::from_str("世界数据不完整"));
        assert(preview_outcome(*request, Ok(world), r));
        return r;
    }
    let r = preview_from_world(request, &world);
    assert(preview_outcome(*request, Ok(world), r));
    r
}

} // verus!
