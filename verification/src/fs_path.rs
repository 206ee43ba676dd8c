//! Paths, as the library hands them between its callers and the file system.

use vstd::prelude::*;
use std::path::{Path, PathBuf};
use crate::names::{
    after_last_slash, all_name_chars, has_separator, is_plain_name, normal_segment, normalize_player_guid, player_stem,
    portable_path_text, safe_name_segment,
};
use crate::text::trim;
use crate::settings::{ascii_lower, chars_equal, lower_key};
use crate::text::chars_of;

verus! {

#[verifier::external_type_specification]
#[verifier::external_body]
pub struct ExPath(std::path::Path);

#[verifier::external_type_specification]
#[verifier::external_body]
pub struct ExPathBuf(std::path::PathBuf);

/// Whether `p` starts with `base`, component by component: calls
/// `Path::starts_with`. How a path splits into components depends on the
/// platform; nothing is stated of the result.
#[verifier::external_body]
fn path_starts_with(p: &Path, base: &Path) -> bool {
    p.starts_with(base)
}

/// Whether two paths have the same components: `==` on `Path`. Nothing is
/// stated of the result.
#[verifier::external_body]
fn path_eq(a: &Path, b: &Path) -> bool {
    a == b
}

/// The last component of `p` when it is UTF-8 text: calls `Path::file_name`
/// and `OsStr::to_str`. Nothing is stated of the result.
#[verifier::external_body]
fn path_leaf(p: &Path) -> Option<String> {
    p.file_name().and_then(|s| s.to_str()).map(|s| s.to_string())
}

/// An owned copy of `p`: calls `Path::to_path_buf`.
#[verifier::external_body]
fn path_to_buf(p: &Path) -> PathBuf {
    p.to_path_buf()
}

/// `root` with `leaf` appended: calls `Path::join`.
#[verifier::external_body]
fn join_path(root: &Path, leaf: &str) -> PathBuf {
    root.join(leaf)
}

/// Where a backup target goes.
#[derive(Debug, PartialEq, Eq)]
pub enum WithinDecision {
    /// The candidate already lies under the root.
    KeepCandidate,
    /// The candidate's last component, put under the root.
    JoinLeaf(String),
    /// Refused, with the reason.
    Refuse(String),
}

/// Decides where a backup target goes from whether the candidate lies
/// strictly under the root, from its last component, and from what
/// `safe_name_segment` keeps of that component: a candidate under the root
/// stays; otherwise the kept name goes under the root, and a missing or
/// refused last component is refused.
pub fn within_decision(inside: bool, leaf: Option<String>, segment: Option<String>) -> (d: WithinDecision)
    ensures
        inside ==> d == WithinDecision::KeepCandidate,
        !inside && leaf is None ==> (d matches WithinDecision::Refuse(e) && e@ == "备份目标路径非法"@),
        !inside && leaf is Some && segment is None ==> (d matches WithinDecision::Refuse(e) && e@ == "备份目标路径含非法字符"@),
        !inside && leaf is Some && segment is Some ==> (d matches WithinDecision::JoinLeaf(x) && x@ == segment->0@),
{
    if inside {
        return WithinDecision::KeepCandidate;
    }
    if leaf.is_none() {
        return WithinDecision::Refuse(String::from_str("备份目标路径非法"));
    }
    match segment {
        Some(s) => WithinDecision::JoinLeaf(s),
        None => WithinDecision::Refuse(String::from_str("备份目标路径含非法字符")),
    }
}

/// Keeps a backup target inside `root`: a `candidate` strictly under `root`
/// is kept; otherwise its last component is put under `root`, when it is
/// present and holds only characters allowed in a path segment.
pub fn normalize_within(root: &Path, candidate: &Path) -> (r: Result<PathBuf, String>)
    ensures
        r matches Err(e) ==> e@ == "备份目标路径非法"@ || e@ == "备份目标路径含非法字符"@,
{
    let inside = path_starts_with(candidate, root) && !path_eq(candidate, root);
    let leaf = path_leaf(candidate);
    let segment = match &leaf {
        Some(l) => safe_name_segment(l.as_str()),
        None => None,
    };
    match within_decision(inside, leaf, segment) {
        WithinDecision::KeepCandidate => Ok(path_to_buf(candidate)),
        WithinDecision::JoinLeaf(l) => Ok(join_path(root, l.as_str())),
        WithinDecision::Refuse(e) => Err(e),
    }
}

/// Whether `p` names nothing: calls `OsStr::is_empty` on `Path::as_os_str`.
#[verifier::external_body]
fn path_is_empty(p: &Path) -> bool {
    p.as_os_str().is_empty()
}

/// Whether `p` is absolute: calls `Path::is_absolute`. What is absolute
/// depends on the platform; nothing is stated of the result.
#[verifier::external_body]
fn path_is_absolute(p: &Path) -> bool {
    p.is_absolute()
}

/// For each component of `p`, in order, whether it is a normal component (a
/// name, not a root, prefix, `.` or `..`): calls `Path::components`. How a
/// path splits depends on the platform; nothing is stated of the result.
#[verifier::external_body]
fn path_component_kinds(p: &Path) -> Vec<bool> {
    p.components().map(|c| matches!(c, std::path::Component::Normal(_))).collect()
}

/// The rule for a relative file path that may be written under a world
/// directory: it is not empty, not absolute, and every component is a name.
pub open spec fn safe_relative(empty: bool, absolute: bool, normal: Seq<bool>) -> bool {
    !empty && !absolute && forall|i: int| 0 <= i < normal.len() ==> #[trigger] normal[i]
}

/// Applies `safe_relative` to what the path holds: whether it is empty,
/// whether it is absolute, and for each component whether it is a name.
pub fn check_relative_parts(empty: bool, absolute: bool, normal: &Vec<bool>) -> (r: Result<(), String>)
    ensures
        r is Ok <==> safe_relative(empty, absolute, normal@),
        r matches Err(e) ==> e@ == "写入路径必须是世界目录内的安全相对文件路径"@,
{
    let mut all_normal = true;
    let mut i: usize = 0;
    while i < normal.len()
        invariant
            i <= normal@.len(),
            all_normal == forall|j: int| 0 <= j < i ==> #[trigger] normal@[j],
        decreases normal@.len() - i,
    {
        if !normal[i] {
            all_normal = false;
        }
        i = i + 1;
    }
    if empty || absolute || !all_normal {
        return Err(String::from_str("写入路径必须是世界目录内的安全相对文件路径"));
    }
    Ok(())
}

/// Refuses a write path that is not a safe relative file path (see
/// `safe_relative`). Only the refusal's text is stated: the path's parts
/// come from the platform's path rules.
pub fn validate_relative_path(path: &Path) -> (r: Result<(), String>)
    ensures
        r matches Err(e) ==> e@ == "写入路径必须是世界目录内的安全相对文件路径"@,
{
    let kinds = path_component_kinds(path);
    check_relative_parts(path_is_empty(path), path_is_absolute(path), &kinds)
}

/// The borrowed path of `p`: calls `PathBuf::as_path`.
#[verifier::external_body]
fn buf_as_path(p: &PathBuf) -> &Path {
    p.as_path()
}

/// The text of `p` as shown to a person: calls `Path::display`. Nothing is
/// stated of the text; it depends on the platform.
#[verifier::external_body]
fn path_display(p: &Path) -> String {
    p.display().to_string()
}

/// Checks the destinations of a set of file writes before any is made:
/// each must be a safe relative file path (see `validate_relative_path`),
/// and no path may come twice (`重复的写入路径: ` and the path). The first
/// path that fails gives the error.
pub fn check_write_paths(paths: &Vec<PathBuf>) -> (r: Result<(), String>)
    ensures
        r matches Err(e) ==> e@ == "写入路径必须是世界目录内的安全相对文件路径"@ || (e@.len() >= "重复的写入路径: "@.len()
            && e@.subrange(0, "重复的写入路径: "@.len() as int) == "重复的写入路径: "@),
{
    let mut i: usize = 0;
    while i < paths.len()
        invariant
            i <= paths@.len(),
        decreases paths@.len() - i,
    {
        let p = buf_as_path(&paths[i]);
        match validate_relative_path(p) {
            Ok(()) => {},
            Err(e) => return Err(e),
        }
        let mut j: usize = 0;
        while j < i
            invariant
                j <= i,
                i < paths@.len(),
            decreases i - j,
        {
            if path_eq(buf_as_path(&paths[j]), p) {
                let mut m = String::from_str("重复的写入路径: ");
                let ghost prefix = m@;
                crate::text::push_str(&mut m, path_display(p).as_str());
                proof {
                    reveal_strlit("重复的写入路径: ");
                    assert(m@.subrange(0, prefix.len() as int) =~= prefix);
                }
                return Err(m);
            }
            j = j + 1;
        }
        i = i + 1;
    }
    Ok(())
}

/// The directory of the world named `world` under `save_root`, before the
/// caller checks that it exists: refused when the name has no safe last
/// segment (see `safe_name_segment`); otherwise `save_root` joined with that
/// segment.
pub fn world_dir_candidate(world: &str, save_root: &Path) -> (r: Result<PathBuf, String>)
    ensures
        world@.len() == 0 ==> r is Err,
        is_plain_name(world@) ==> r is Ok,
        portable_path_text(world@) && normal_segment(after_last_slash(world@)) ==> (r is Ok <==> all_name_chars(
            after_last_slash(world@),
        )),
        r matches Err(e) ==> e@ == "世界名非法（仅允许字母/数字/下划线/点/连字符）"@,
{
    match safe_name_segment(world) {
        Some(w) => Ok(join_path(save_root, w.as_str())),
        None => Err(String::from_str("世界名非法（仅允许字母/数字/下划线/点/连字符）")),
    }
}

/// The save of the player `guid` in the world data directory `data_dir`,
/// before the caller checks that it exists: refused when `guid` is no safe
/// file stem (see `normalize_player_guid`); otherwise
/// `data_dir/Players/<stem>.sav`.
pub fn player_sav_candidate(data_dir: &Path, guid: &str) -> (r: Result<PathBuf, String>)
    ensures
        has_separator(trim(guid@)) ==> (r matches Err(e) && e@ == "角色 GUID 非法（仅允许字母/数字/下划线/点/连字符）"@),
        !has_separator(trim(guid@)) && is_plain_name(player_stem(guid@)) ==> r is Ok,
        r matches Err(e) ==> e@ == "角色 GUID 非法（仅允许字母/数字/下划线/点/连字符）"@,
{
    match normalize_player_guid(guid) {
        Some(g) => {
            let players = join_path(data_dir, "Players");
            let mut file = g;
            crate::text::push_str(&mut file, ".sav");
            Ok(join_path(buf_as_path(&players), file.as_str()))
        },
        None => Err(String::from_str("角色 GUID 非法（仅允许字母/数字/下划线/点/连字符）")),
    }
}

/// A directory name that world discovery skips: a missing or non-UTF-8
/// name, a name that starts with `_`, or one of `backup`, `backups` and
/// `snapshots` in any ASCII case.
pub open spec fn reserved_world_name(name: Option<Seq<char>>) -> bool {
    match name {
        None => true,
        Some(n) => (n.len() > 0 && n[0] == '_') || ascii_lower(n) == "backup"@ || ascii_lower(n) == "backups"@
            || ascii_lower(n) == "snapshots"@,
    }
}

/// Whether world discovery skips a directory with this name (see
/// `reserved_world_name`).
pub fn is_reserved_world_name(name: Option<&str>) -> (r: bool)
    ensures
        r == reserved_world_name(
            match name {
                Some(n) => Some(n@),
                None => None,
            },
        ),
{
    let n = match name {
        Some(n) => n,
        None => return true,
    };
    let v = chars_of(n);
    if v.len() > 0 && v[0] == '_' {
        return true;
    }
    let lower = lower_key(n);
    let backup = chars_of("backup");
    let backups = chars_of("backups");
    let snapshots = chars_of("snapshots");
    chars_equal(lower.as_slice(), backup.as_slice()) || chars_equal(lower.as_slice(), backups.as_slice())
        || chars_equal(lower.as_slice(), snapshots.as_slice())
}

/// Whether world discovery skips the directory `path`, by its last
/// component (see `reserved_world_name`). The last component comes from the
/// platform's path rules, so nothing more is stated.
pub fn is_reserved_world_directory(path: &Path) -> bool {
    let leaf = path_leaf(path);
    match leaf {
        Some(l) => is_reserved_world_name(Some(l.as_str())),
        None => is_reserved_world_name(None),
    }
}

} // verus!
