//! Requests and results exchanged with the save editor.

use vstd::prelude::*;

verus! {

/// A player of a world summary.
#[derive(Debug, Clone, Default, PartialEq, Eq)]
pub struct PlayerEntry {
    pub player_uid: String,
    pub instance_id: String,
    pub guid: String,
    pub nickname: String,
    pub level: u32,
    pub guild_id: Option<String>,
    pub pal_count: u32,
    pub last_online: String,
    pub is_host: bool,
}

/// A guild of a world summary.
#[derive(Debug, Clone, Default, PartialEq, Eq)]
pub struct GuildEntry {
    pub guild_id: String,
    pub name: String,
    pub admin_player_uid: String,
    pub players: Vec<String>,
    pub handle_ids: Vec<String>,
}

/// The players and guilds of a world.
#[derive(Debug, Clone, PartialEq, Eq)]
pub struct WorldSummary {
    pub world_name: String,
    pub players: Vec<PlayerEntry>,
    pub guilds: Vec<GuildEntry>,
}

/// A request to swap the identity of the original host with a new character.
#[derive(Debug, Clone, PartialEq, Eq)]
pub struct FixHostRequest {
    pub world: String,
    pub old_host_guid: String,
    pub new_char_guid: String,
}

/// One pair of player uids whose identities are to be swapped.
#[derive(Debug, Clone, PartialEq, Eq)]
pub struct UidMapping {
    pub old_uid: String,
    pub new_uid: String,
}

/// A request to set a player's technology points.
#[derive(Debug, Clone, PartialEq, Eq)]
pub struct UpdatePlayerTechnologyPointsRequest {
    pub world_path: String,
    pub player_guid: String,
    pub technology_points: i32,
    pub ancient_technology_points: i32,
}

/// A request to read a player's technology points.
#[derive(Debug, Clone, PartialEq, Eq)]
pub struct PlayerTechnologyPointsRequest {
    pub world_path: String,
    pub player_guid: String,
}

/// A player's technology points.
#[derive(Debug, Clone, Copy, PartialEq, Eq)]
pub struct PlayerTechnologyPoints {
    pub technology_points: i32,
    pub ancient_technology_points: i32,
}

/// The outcome of an edit.
#[derive(Debug, Clone, Default, PartialEq, Eq)]
pub struct EditResult {
    pub ok: bool,
    pub backup_id: String,
    pub roundtrip_ok: bool,
    pub warnings: Vec<String>,
}

} // verus!
