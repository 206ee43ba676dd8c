//! Verified core of a Palworld save-file toolkit: the `.sav` container, the
//! GUID text forms, the guild `RawData` codec and identity patching, and the
//! small decision rules that the desktop application builds on.

pub mod le;
pub mod guild_layout;
pub mod guid_bytes;
pub mod guild_patch;
pub mod text;
pub mod guid;
pub mod sav;
pub mod vdf;
pub mod names;
pub mod server;
pub mod modifier;
pub mod fs_path;
pub mod models;
pub mod fix_host;
pub mod gvas_io;
pub mod tech_edit;
pub mod unicode;
pub mod world_copy;
pub mod guild_raw;
pub mod guild_read;
pub mod guild_write;
pub mod settings;
pub mod prop_tree;
pub mod identity;
pub mod calendar;
pub mod ownership;
pub mod deletion;
pub mod guild_members;
pub mod world_delete;
pub mod dynamic_items;
pub mod world_guilds;
pub mod tech_unlock;
pub mod tech_points;
pub mod transfer_plan;
pub mod guild_recovery;
pub mod commit;
pub mod level_walk;
pub mod modifier_run;
pub mod player_edit;
