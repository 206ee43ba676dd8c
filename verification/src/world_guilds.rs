//! Editing one guild of a world's group map: renaming it, or handing its
//! leadership to a member.

use vstd::prelude::*;
use crate::deletion::{set_raw_data, with_raw};
use crate::guid::{guid_std, guid_text};
use crate::guild_raw::{
    decode_spec, has_member, led_by, make_guild_leader_raw, rename_guild_raw, renamed, GuildModel,
};
use crate::guild_read::decode_guild_raw;
use crate::guild_write::{enc_guild, encode_guild_raw, guild_writable};
use crate::identity::{guild_group, is_guild_group, raw_data, raw_data_bytes};
use crate::modifier::{eq_ignore_ascii_case, name_length_ok, same_ignoring_ascii_case};
use crate::prop_tree::{entries_model, fields_model, tree_model, trees_model, PropModel, PropTree};
use crate::text::trim;
use crate::world_delete::{map_at, put_map, set_first, take_map};

verus! {

/// An edit of one guild.
pub enum GuildEdit {
    /// Rename the guild (the name is trimmed).
    Rename(String),
    /// Make the member with this uid the leader.
    MakeLeader([u8; 16]),
}

/// An edit, as values.
pub enum EditModel {
    Rename(Seq<char>),
    MakeLeader(Seq<u8>),
}

impl GuildEdit {
    pub open spec fn model(&self) -> EditModel {
        match self {
            GuildEdit::Rename(n) => EditModel::Rename(n@),
            GuildEdit::MakeLeader(u) => EditModel::MakeLeader(u@),
        }
    }
}

/// The guild after the edit; `None` when the edit is refused: a name that
/// is not 1 to 50 characters once trimmed, or a uid that is no member.
pub open spec fn guild_edited(g: GuildModel, edit: EditModel) -> Option<GuildModel> {
    match edit {
        EditModel::Rename(n) => if name_length_ok(trim(n)) {
            Some(renamed(g, trim(n)))
        } else {
            None
        },
        EditModel::MakeLeader(u) => if has_member(g.tail.players, u) {
            Some(led_by(g, u))
        } else {
            None
        },
    }
}

/// Why a guild edit failed.
pub enum EditFailure {
    /// A guild record has no `RawData`.
    MissingRawData,
    /// A guild blob does not decode.
    BadBlob,
    /// The edit was refused.
    Refused,
    /// The edited guild cannot be encoded.
    Unwritable,
    /// No guild has the id.
    NotFound,
}

/// `p` in front of the entries of `r`.
pub open spec fn prepend(p: Seq<(PropModel, PropModel)>, r: Result<Seq<(PropModel, PropModel)>, EditFailure>) -> Result<Seq<(PropModel, PropModel)>, EditFailure> {
    match r {
        Ok(s) => Ok(p + s),
        Err(f) => Err(f),
    }
}

/// What the edit does to one group record: `Ok(None)` when it is not the
/// guild `target` (its id, as text, up to ASCII case), `Ok(Some(v))` with the
/// edited record when it is.
pub open spec fn entry_step(v: PropModel, target: Seq<char>, edit: EditModel) -> Result<Option<PropModel>, EditFailure> {
    if !guild_group(v) {
        Ok(None)
    } else {
        match raw_data(v) {
            None => Err(EditFailure::MissingRawData),
            Some(b) => match decode_spec(b) {
                None => Err(EditFailure::BadBlob),
                Some(g) => if !eq_ignore_ascii_case(guid_text(g.group_id), target) {
                    Ok(None)
                } else {
                    match guild_edited(g, edit) {
                        None => Err(EditFailure::Refused),
                        Some(g2) => if guild_writable(g2) {
                            Ok(Some(with_raw(v, enc_guild(g2))))
                        } else {
                            Err(EditFailure::Unwritable)
                        },
                    }
                },
            },
        }
    }
}

/// The group map with the edit made to the first guild whose id, as text,
/// is `target` up to ASCII case; every guild record before it must hold a
/// blob that decodes.
pub open spec fn edit_groups(es: Seq<(PropModel, PropModel)>, target: Seq<char>, edit: EditModel) -> Result<Seq<(PropModel, PropModel)>, EditFailure>
    decreases es.len(),
{
    if es.len() == 0 {
        Err(EditFailure::NotFound)
    } else {
        let e = es[0];
        let rest = es.subrange(1, es.len() as int);
        match entry_step(e.1, target, edit) {
            Ok(None) => prepend(seq![e], edit_groups(rest, target, edit)),
            Ok(Some(v2)) => Ok(seq![(e.0, v2)] + rest),
            Err(f) => Err(f),
        }
    }
}

/// Makes the edit to the record `v` when it is the guild `target` (see
/// `entry_step`); `Ok(false)` leaves it as it was.
fn edit_entry(v: &mut PropTree, target_guild_id: &str, edit: &GuildEdit) -> (r: Result<bool, String>)
    ensures
        match entry_step(tree_model(*old(v)), target_guild_id@, edit.model()) {
            Ok(None) => r == Ok::<bool, String>(false) && *final(v) == *old(v),
            Ok(Some(v2)) => r == Ok::<bool, String>(true) && tree_model(*final(v)) == v2,
            Err(EditFailure::MissingRawData) => r matches Err(e) && e@ == "公会记录缺少 RawData"@,
            Err(_) => r is Err,
        },
{
    if !is_guild_group(v) {
        return Ok(false);
    }
    let decoded = match raw_data_bytes(v) {
        Some(b) => decode_guild_raw(b.as_slice()),
        None => {
            return Err(String::from_str("公会记录缺少 RawData"));
        },
    };
    let mut g = match decoded {
        Ok(g) => g,
        Err(e) => {
            return Err(e);
        },
    };
    let id_text = guid_std(&g.group_id);
    if !same_ignoring_ascii_case(id_text.as_str(), target_guild_id) {
        return Ok(false);
    }
    apply_edit(&mut g, edit)?;
    let bytes = encode_guild_raw(&g)?;
    set_raw_data(v, bytes);
    Ok(true)
}

fn apply_edit(guild: &mut crate::guild_raw::GuildRaw, edit: &GuildEdit) -> (r: Result<(), String>)
    ensures
        match guild_edited(old(guild)@, edit.model()) {
            Some(g2) => r is Ok && final(guild)@ == g2,
            None => r is Err,
        },
{
    match edit {
        GuildEdit::Rename(name) => rename_guild_raw(guild, name.as_str()),
        GuildEdit::MakeLeader(uid) => make_guild_leader_raw(guild, uid),
    }
}

proof fn lemma_prepend_assoc(a: Seq<(PropModel, PropModel)>, b: Seq<(PropModel, PropModel)>, r: Result<Seq<(PropModel, PropModel)>, EditFailure>)
    ensures
        prepend(a, prepend(b, r)) == prepend(a + b, r),
{
    match r {
        Ok(s) => {
            assert(a + (b + s) =~= (a + b) + s);
        },
        Err(_) => {},
    }
}

/// Makes the edit to the guild `target_guild_id` of the group map (see
/// `edit_groups`).
#[verifier::rlimit(40)]
pub fn edit_guild_in_groups(entries: &mut Vec<(PropTree, PropTree)>, target_guild_id: &str, edit: &GuildEdit) -> (r: Result<(), String>)
    ensures
        match edit_groups(entries_model(old(entries)@), target_guild_id@, edit.model()) {
            Ok(es) => r is Ok && entries_model(final(entries)@) == es,
            Err(EditFailure::NotFound) => r matches Err(e) && e@ == "所选公会不存在"@,
            Err(EditFailure::MissingRawData) => r matches Err(e) && e@ == "公会记录缺少 RawData"@,
            Err(_) => r is Err,
        },
{
    let mut rest: Vec<(PropTree, PropTree)> = Vec::new();
    std::mem::swap(&mut rest, entries);
    let ghost orig = rest@;
    let ghost m = entries_model(orig);
    let ghost t = target_guild_id@;
    let ghost ed = edit.model();
    let len = rest.len();
    let mut i: usize = 0;
    assert(m.subrange(0, len as int) =~= m);
    assert(m.take(0) =~= Seq::<(PropModel, PropModel)>::empty());
    assert(entries_model(entries@) =~= Seq::<(PropModel, PropModel)>::empty());
    assert(prepend(Seq::empty(), edit_groups(m, t, ed)) == edit_groups(m, t, ed)) by {
        match edit_groups(m, t, ed) {
            Ok(s) => {
                assert(Seq::<(PropModel, PropModel)>::empty() + s =~= s);
            },
            Err(_) => {},
        }
    }
    while i < len
        invariant
            len == orig.len(),
            m == entries_model(orig),
            m == entries_model(old(entries)@),
            t == target_guild_id@,
            ed == edit.model(),
            i <= len,
            rest@ == orig.subrange(i as int, len as int),
            entries_model(entries@) == m.take(i as int),
            edit_groups(m, t, ed) == prepend(m.take(i as int), edit_groups(m.subrange(i as int, len as int), t, ed)),
        decreases len - i,
    {
        let ghost tail = m.subrange(i as int, len as int);
        assert(tail.subrange(1, tail.len() as int) =~= m.subrange(i + 1, len as int));
        assert(tail[0] == m[i as int]);
        assert(m.take(i + 1) =~= m.take(i as int) + seq![m[i as int]]);
        let (k, mut v) = rest.remove(0);
        assert((k, v) == orig[i as int]);
        assert(m[i as int] == (tree_model(k), tree_model(v)));
        let ghost before = entries@;
        let edited = edit_entry(&mut v, target_guild_id, edit)?;
        entries.push((k, v));
        if edited {
            let ghost done = entries@;
            let mut rem = rest;
            entries.append(&mut rem);
            assert(entries@ =~= done + orig.subrange(i + 1, len as int));
            assert(entries_model(entries@) =~= m.take(i as int) + (seq![(m[i as int].0, tree_model(v))] + m.subrange(i + 1, len as int)));
            return Ok(());
        }
        assert(entries_model(entries@) =~= entries_model(before).push(m[i as int]));
        proof {
            lemma_prepend_assoc(m.take(i as int), seq![m[i as int]], edit_groups(m.subrange(i + 1, len as int), t, ed));
        }
        i = i + 1;
    }
    Err(String::from_str("所选公会不存在"))
}

/// Makes the edit to the guild `target_guild_id` of a world's
/// `worldSaveData` fields (see `edit_groups`); refused when the world has no
/// group map.
pub fn edit_guild_in_world(world: &mut Vec<(String, Vec<PropTree>)>, target_guild_id: &str, edit: &GuildEdit) -> (r: Result<(), String>)
    ensures
        match map_at(fields_model(old(world)@), "GroupSaveDataMap"@) {
            None => r matches Err(e) && e@ == "世界存档缺少 GroupSaveDataMap"@,
            Some((j, h, es)) => match edit_groups(es, target_guild_id@, edit.model()) {
                Ok(es2) => r is Ok && fields_model(final(world)@) == set_first(
                    fields_model(old(world)@),
                    j,
                    PropModel::MapProp(h, es2),
                ),
                Err(_) => r is Err,
            },
        },
{
    let ghost f0 = fields_model(world@);
    let (j, h, mut groups) = match take_map(world, "GroupSaveDataMap") {
        Some(x) => x,
        None => return Err(String::from_str("世界存档缺少 GroupSaveDataMap")),
    };
    proof {
        let t = map_at(f0, "GroupSaveDataMap"@)->0;
        assert(t.0 == j as int);
        assert(0 <= t.0 < f0.len());
    }
    edit_guild_in_groups(&mut groups, target_guild_id, edit)?;
    let ghost mid = fields_model(world@);
    assert(mid.len() == world@.len());
    assert(mid[j as int] == (world@[j as int].0@, trees_model(world@[j as int].1@)));
    assert(mid[j as int].1.len() == f0[j as int].1.len());
    put_map(world, j, h, groups);
    assert(f0[j as int].1.update(0, PropModel::MapProp(h, Seq::empty())).update(0, PropModel::MapProp(h, entries_model(groups@))) =~= f0[j as int].1.update(0, PropModel::MapProp(h, entries_model(groups@))));
    assert(fields_model(world@) =~= set_first(f0, j as int, PropModel::MapProp(h, entries_model(groups@))));
    Ok(())
}

} // verus!
