//! Host fix: swapping the identities of pairs of players.
//!
//! Which pairs are swapped, and whether the request is acceptable at all, is
//! decided here before any file is touched. The swap of one pair inside a
//! world's files is the caller's work, handed in as `fix_pair`.

use vstd::prelude::*;
use crate::guid::{guid_bytes, guid_of_text};
use crate::guid_bytes::guid_eq;
use crate::models::{FixHostRequest, UidMapping};
use crate::modifier::same_text;
use crate::text::{chars_of, push_char, push_str};
use vstd::utf8::encode_utf8;
use crate::prop_tree::{PropTree, PropModel, tree_model, entries_model, capped, lemma_capped_add, props_model, owner_swap_done, stream_error_from, count_owner_props};
use crate::identity::{guild_group, raw_data, is_guild_group, raw_data_bytes};
use crate::guild_patch::{guild_swap_writes, opt_view, patch_guild_rawdata};
use crate::guid_bytes::apply_writes;
use crate::deletion::{with_raw, set_raw_data};

verus! {

/// What `str::to_lowercase` gives for `s` (full Unicode lower-casing).
pub uninterp spec fn unicode_lowercase(s: Seq<char>) -> Seq<char>;

/// Lower-cases `s`: calls `str::to_lowercase`. The result is named by
/// `unicode_lowercase`.
#[verifier::external_body]
fn to_lowercase(s: &str) -> (r: String)
    ensures
        r@ == unicode_lowercase(s@),
{
    s.to_lowercase()
}

/// `s` without `-` and spaces.
pub open spec fn strip_uid_separators(s: Seq<char>) -> Seq<char>
    decreases s.len(),
{
    if s.len() == 0 {
        s
    } else if s.last() == '-' || s.last() == ' ' {
        strip_uid_separators(s.drop_last())
    } else {
        strip_uid_separators(s.drop_last()).push(s.last())
    }
}

/// The player file stem of a uid: without `-` and spaces, lower-cased.
pub open spec fn uid_stem(s: Seq<char>) -> Seq<char> {
    unicode_lowercase(strip_uid_separators(s))
}

/// The player file stem of a uid: `-` and spaces removed, then lower-cased.
pub fn normalize_uid(s: &str) -> (r: String)
    ensures
        r@ == uid_stem(s@),
{
    let v = chars_of(s);
    let mut t = String::new();
    let mut i: usize = 0;
    while i < v.len()
        invariant
            v@ == s@,
            i <= v@.len(),
            t@ == strip_uid_separators(v@.take(i as int)),
        decreases v@.len() - i,
    {
        assert(v@.take(i + 1).drop_last() =~= v@.take(i as int));
        if v[i] != '-' && v[i] != ' ' {
            push_char(&mut t, v[i]);
        }
        i = i + 1;
    }
    assert(v@.take(v@.len() as int) =~= v@);
    to_lowercase(t.as_str())
}

/// One pair of a request as raw bytes, and the stems taken after it; or
/// why it is refused. Refused when a uid is not a uid, when the pair names one
/// player twice, or when a stem was already taken (a chain or a duplicate
/// would make two swaps overwrite each other).
pub open spec fn mapping_step(m: UidMapping, seen: Seq<Seq<char>>) -> Result<
    ((Seq<u8>, Seq<u8>), Seq<Seq<char>>),
    Seq<char>,
> {
    let old_stem = uid_stem(m.old_uid@);
    let new_stem = uid_stem(m.new_uid@);
    match guid_of_text(encode_utf8(m.old_uid@)) {
        None => Err(guid_error(m.old_uid@)),
        Some(a) => match guid_of_text(encode_utf8(m.new_uid@)) {
            None => Err(guid_error(m.new_uid@)),
            Some(b) => if a == b {
                Err("角色 UID 相同，无需交换: "@ + m.old_uid@)
            } else if seen.contains(old_stem) || seen.push(old_stem).contains(new_stem) {
                Err("角色 UID 映射存在重复或链式覆盖，无法安全交换"@)
            } else {
                Ok(((a, b), seen.push(old_stem).push(new_stem)))
            },
        },
    }
}

/// The uid pairs of a request as raw bytes, and the stems they take; or why
/// the request is refused.
pub open spec fn resolve_mappings(ms: Seq<UidMapping>) -> Result<(Seq<(Seq<u8>, Seq<u8>)>, Seq<Seq<char>>), Seq<char>>
    decreases ms.len(),
{
    if ms.len() == 0 {
        Ok((Seq::empty(), Seq::empty()))
    } else {
        match resolve_mappings(ms.drop_last()) {
            Err(m) => Err(m),
            Ok((pairs, seen)) => match mapping_step(ms.last(), seen) {
                Err(e) => Err(e),
                Ok((p, seen2)) => Ok((pairs.push(p), seen2)),
            },
        }
    }
}

/// Both uids of a pair are uids, and they differ.
pub open spec fn pair_usable(m: UidMapping) -> bool {
    guid_of_text(encode_utf8(m.old_uid@)) matches Some(a) && guid_of_text(encode_utf8(m.new_uid@)) matches Some(b) && a != b
}

/// The stems of all uids of a request, in order: each pair's old uid, then
/// its new one.
pub open spec fn all_stems(ms: Seq<UidMapping>) -> Seq<Seq<char>>
    decreases ms.len(),
{
    if ms.len() == 0 {
        Seq::empty()
    } else {
        all_stems(ms.drop_last()).push(uid_stem(ms.last().old_uid@)).push(uid_stem(ms.last().new_uid@))
    }
}

proof fn lemma_resolve_ok(ms: Seq<UidMapping>)
    ensures
        resolve_mappings(ms) matches Ok((_, seen)) ==> seen == all_stems(ms) && seen.no_duplicates() && forall|i: int|
            0 <= i < ms.len() ==> pair_usable(#[trigger] ms[i]),
    decreases ms.len(),
{
    if ms.len() > 0 {
        let d = ms.drop_last();
        lemma_resolve_ok(d);
        if let Ok((_, seen)) = resolve_mappings(ms) {
            let (_, s0) = resolve_mappings(d)->Ok_0;
            let m = ms.last();
            let o = uid_stem(m.old_uid@);
            let n = uid_stem(m.new_uid@);
            assert(!s0.contains(o) && !s0.push(o).contains(n));
            assert(seen == s0.push(o).push(n));
            assert(s0.push(o).no_duplicates()) by {
                assert forall|x: int, y: int| 0 <= x < s0.push(o).len() && 0 <= y < s0.push(o).len() && x != y implies s0.push(o)[x]
                    != s0.push(o)[y] by {
                    if x == s0.len() {
                        assert(s0.contains(s0[y]));
                    } else if y == s0.len() {
                        assert(s0.contains(s0[x]));
                    }
                }
            }
            assert(seen.no_duplicates()) by {
                let t = s0.push(o);
                assert forall|x: int, y: int| 0 <= x < seen.len() && 0 <= y < seen.len() && x != y implies seen[x] != seen[y] by {
                    if x == t.len() {
                        assert(t.contains(t[y]));
                    } else if y == t.len() {
                        assert(t.contains(t[x]));
                    } else {
                        assert(seen[x] == t[x] && seen[y] == t[y]);
                    }
                }
            }
            assert forall|i: int| 0 <= i < ms.len() implies pair_usable(#[trigger] ms[i]) by {
                if i < d.len() {
                    assert(ms[i] == d[i]);
                }
            }
        }
    }
}

/// A host-fix request is refused, before any pair is swapped, when it is
/// empty, when one of its texts is not a uid or a pair names one player
/// twice, or when the stems of all its uids (each pair's old uid, then its
/// new one) are not pairwise distinct, as with a repeated or chained
/// mapping.
pub proof fn lemma_refused_requests(ms: Seq<UidMapping>)
    ensures
        (ms.len() == 0 || (exists|i: int| 0 <= i < ms.len() && !pair_usable(#[trigger] ms[i])) || !all_stems(ms).no_duplicates())
            ==> mapping_plan(ms) is Err,
{
    lemma_resolve_ok(ms);
}

proof fn lemma_resolve_error_stays(ms: Seq<UidMapping>, k: nat)
    requires
        k <= ms.len(),
        resolve_mappings(ms.take(k as int)) is Err,
    ensures
        resolve_mappings(ms.take(ms.len() as int)) == resolve_mappings(ms.take(k as int)),
    decreases ms.len() - k,
{
    if k < ms.len() {
        assert(ms.take(k + 1 as int).drop_last() =~= ms.take(k as int));
        lemma_resolve_error_stays(ms, k + 1);
    }
}

fn resolve_step(m: &UidMapping, seen: &mut Vec<String>) -> (r: Result<([u8; 16], [u8; 16]), String>)
    ensures
        match mapping_step(*m, old(seen)@.map_values(|x: String| x@)) {
            Err(e) => r matches Err(x) && x@ == e,
            Ok((p, s2)) => r matches Ok((a, b)) && a@ == p.0 && b@ == p.1 && final(seen)@.map_values(
                |x: String| x@,
            ) == s2,
        },
{
    let ghost seen_before = seen@.map_values(|x: String| x@);
    let old_stem = normalize_uid(m.old_uid.as_str());
    let new_stem = normalize_uid(m.new_uid.as_str());
    let a = match guid_bytes(m.old_uid.as_str()) {
        Ok(a) => a,
        Err(e) => return Err(e),
    };
    let b = match guid_bytes(m.new_uid.as_str()) {
        Ok(b) => b,
        Err(e) => return Err(e),
    };
    if guid_eq(&a, &b) {
        let mut e = String::from_str("角色 UID 相同，无需交换: ");
        push_str(&mut e, m.old_uid.as_str());
        return Err(e);
    }
    if seen_contains(seen, &old_stem) {
        return Err(String::from_str("角色 UID 映射存在重复或链式覆盖，无法安全交换"));
    }
    seen.push(old_stem);
    assert(seen@.map_values(|x: String| x@) =~= seen_before.push(uid_stem(m.old_uid@)));
    if seen_contains(seen, &new_stem) {
        return Err(String::from_str("角色 UID 映射存在重复或链式覆盖，无法安全交换"));
    }
    seen.push(new_stem);
    assert(seen@.map_values(|x: String| x@) =~= seen_before.push(uid_stem(m.old_uid@)).push(
        uid_stem(m.new_uid@),
    ));
    Ok((a, b))
}

/// The message for text `t` that is not a uid.
pub open spec fn guid_error(t: Seq<char>) -> Seq<char> {
    "GUID 格式无效（需要 32 位十六进制）: "@ + t
}

/// The pairs of a request that may be swapped, or why it is refused.
pub open spec fn mapping_plan(ms: Seq<UidMapping>) -> Result<Seq<(Seq<u8>, Seq<u8>)>, Seq<char>> {
    if ms.len() == 0 {
        Err("请选择一对要交换身份的角色"@)
    } else {
        match resolve_mappings(ms) {
            Err(m) => Err(m),
            Ok((pairs, _)) => Ok(pairs),
        }
    }
}

fn seen_contains(seen: &Vec<String>, s: &String) -> (r: bool)
    ensures
        r == seen@.map_values(|x: String| x@).contains(s@),
{
    let ghost view = seen@.map_values(|x: String| x@);
    let mut i: usize = 0;
    while i < seen.len()
        invariant
            view == seen@.map_values(|x: String| x@),
            i <= seen@.len(),
            forall|j: int| 0 <= j < i ==> view[j] != s@,
        decreases seen@.len() - i,
    {
        if same_text(seen[i].as_str(), s.as_str()) {
            assert(view[i as int] == s@);
            return true;
        }
        i = i + 1;
    }
    false
}

/// The raw uid pairs of a request, in order; refused before anything is
/// changed when the request is empty, holds text that is not a uid, names one
/// player twice in a pair, or repeats a player across pairs.
pub fn resolve_uid_mappings(mappings: &[UidMapping]) -> (r: Result<Vec<([u8; 16], [u8; 16])>, String>)
    ensures
        match mapping_plan(mappings@) {
            Err(m) => r matches Err(e) && e@ == m,
            Ok(pairs) => r matches Ok(v) && v@.len() == pairs.len() && (forall|i: int|
                0 <= i < pairs.len() ==> (#[trigger] v@[i]).0@ == pairs[i].0 && v@[i].1@
                    == pairs[i].1),
        },
{
    if mappings.len() == 0 {
        return Err(String::from_str("请选择一对要交换身份的角色"));
    }
    let mut seen: Vec<String> = Vec::new();
    let mut resolved: Vec<([u8; 16], [u8; 16])> = Vec::new();
    let ghost mut pairs_g: Seq<(Seq<u8>, Seq<u8>)> = Seq::empty();
    let ghost mut seen_g: Seq<Seq<char>> = Seq::empty();
    assert(mappings@.take(0) =~= Seq::<UidMapping>::empty());
    let mut k: usize = 0;
    while k < mappings.len()
        invariant
            k <= mappings@.len(),
            resolve_mappings(mappings@.take(k as int)) == Ok::<
                (Seq<(Seq<u8>, Seq<u8>)>, Seq<Seq<char>>),
                Seq<char>,
            >((pairs_g, seen_g)),
            seen_g == seen@.map_values(|x: String| x@),
            resolved@.len() == pairs_g.len(),
            forall|i: int|
                0 <= i < pairs_g.len() ==> (#[trigger] resolved@[i]).0@ == pairs_g[i].0
                    && resolved@[i].1@ == pairs_g[i].1,
        decreases mappings@.len() - k,
    {
        let m = &mappings[k];
        assert(mappings@.take(k + 1).drop_last() =~= mappings@.take(k as int));
        assert(mappings@.take(k + 1).last() == mappings@[k as int]);
        let (a, b) = match resolve_step(m, &mut seen) {
            Ok(p) => p,
            Err(e) => {
                proof {
                    lemma_resolve_error_stays(mappings@, (k + 1) as nat);
                    assert(mappings@.take(mappings@.len() as int) =~= mappings@);
                }
                return Err(e);
            },
        };
        let ghost step = mapping_step(*m, seen_g)->Ok_0;
        resolved.push((a, b));
        proof {
            pairs_g = pairs_g.push((a@, b@));
            seen_g = step.1;
        }
        k = k + 1;
    }
    assert(mappings@.take(mappings@.len() as int) =~= mappings@);
    Ok(resolved)
}

/// Adds the files one pair rewrote to the running total: refused with
/// `改写文件计数溢出` exactly when the sum does not fit in a `usize`.
pub fn add_pair_count(total: usize, n: usize) -> (r: Result<usize, String>)
    ensures
        total + n <= usize::MAX ==> r == Ok::<usize, String>((total + n) as usize),
        total + n > usize::MAX ==> (r matches Err(e) && e@ == "改写文件计数溢出"@),
{
    match total.checked_add(n) {
        Some(c) => Ok(c),
        None => Err(String::from_str("改写文件计数溢出")),
    }
}

/// Some first pairs can each be rewritten by `fix_pair` with counts
/// whose sum does not fit in a `usize`.
pub open spec fn counts_overflow<F>(fix_pair: F, pairs: Seq<(Seq<u8>, Seq<u8>)>) -> bool where
    F: Fn(usize, [u8; 16], [u8; 16]) -> Result<usize, String>,
{
    exists|outs: Seq<usize>, args: Seq<([u8; 16], [u8; 16])>|
        #![trigger seq_sum(outs), args.len()]
        {
            &&& 0 < outs.len() <= pairs.len()
            &&& args.len() == outs.len()
            &&& forall|i: int|
                0 <= i < outs.len() ==> (#[trigger] args[i]).0@ == pairs[i].0 && args[i].1@ == pairs[i].1 && call_ensures(
                    fix_pair,
                    (i as usize, args[i].0, args[i].1),
                    Ok::<usize, String>(outs[i]),
                )
            &&& seq_sum(outs) > usize::MAX
        }
}

/// The sum of `s`.
pub open spec fn seq_sum(s: Seq<usize>) -> int
    decreases s.len(),
{
    if s.len() == 0 {
        0
    } else {
        seq_sum(s.drop_last()) + s.last()
    }
}

/// Swaps the identities of each pair of players of `mappings` with
/// `fix_pair`, which is given the pair's index and raw uids and returns how
/// many files it rewrote; the total is returned. The request is checked as a
/// whole first (see `resolve_uid_mappings`) and refused before any pair is
/// swapped; the first pair that fails stops the rest.
#[verifier::rlimit(40)]
pub fn fix_host_save_multi<F>(mappings: &[UidMapping], fix_pair: F) -> (r: Result<usize, String>) where
    F: Fn(usize, [u8; 16], [u8; 16]) -> Result<usize, String>,

    requires
        forall|i: usize, a: [u8; 16], b: [u8; 16]| call_requires(fix_pair, (i, a, b)),
    ensures
        match mapping_plan(mappings@) {
            Err(m) => r matches Err(e) && e@ == m,
            Ok(pairs) => r matches Ok(total) ==> exists|outs: Seq<usize>, args: Seq<([u8; 16], [u8; 16])>|
                {
                    &&& outs.len() == pairs.len()
                    &&& args.len() == pairs.len()
                    &&& forall|i: int|
                        0 <= i < pairs.len() ==> (#[trigger] args[i]).0@ == pairs[i].0 && args[i].1@
                            == pairs[i].1 && call_ensures(
                            fix_pair,
                            (i as usize, args[i].0, args[i].1),
                            Ok::<usize, String>(outs[i]),
                        )
                    &&& total == seq_sum(outs)
                },
        },
        r matches Err(e) ==> mapping_plan(mappings@) is Err || (e@ == "改写文件计数溢出"@ && counts_overflow(
            fix_pair,
            mapping_plan(mappings@)->Ok_0,
        )) || exists|i: usize, a: [u8; 16], b: [u8; 16]| #[trigger] call_ensures(fix_pair, (i, a, b), Err::<usize, String>(e)),
{
    let resolved = resolve_uid_mappings(mappings)?;
    let ghost pairs = mapping_plan(mappings@)->Ok_0;
    let mut changed: usize = 0;
    let ghost mut outs: Seq<usize> = Seq::empty();
    let mut i: usize = 0;
    while i < resolved.len()
        invariant
            pairs == mapping_plan(mappings@)->Ok_0,
            mapping_plan(mappings@) is Ok,
            resolved@.len() == pairs.len(),
            forall|j: int|
                0 <= j < pairs.len() ==> (#[trigger] resolved@[j]).0@ == pairs[j].0
                    && resolved@[j].1@ == pairs[j].1,
            forall|j: usize, a: [u8; 16], b: [u8; 16]| call_requires(fix_pair, (j, a, b)),
            i <= resolved@.len(),
            outs.len() == i,
            forall|j: int|
                0 <= j < i ==> call_ensures(
                    fix_pair,
                    (j as usize, resolved@[j].0, resolved@[j].1),
                    Ok::<usize, String>(#[trigger] outs[j]),
                ),
            changed == seq_sum(outs),
        decreases resolved@.len() - i,
    {
        let (a, b) = resolved[i];
        let n = match fix_pair(i, a, b) {
            Ok(n) => n,
            Err(e) => {
                proof {
                    assert(call_ensures(fix_pair, (i, a, b), Err::<usize, String>(e)));
                }
                return Err(e);
            },
        };
        proof {
            let before = outs;
            outs = outs.push(n);
            assert(outs.drop_last() =~= before);
        }
        changed = match add_pair_count(changed, n) {
            Ok(c) => c,
            Err(e) => {
                proof {
                    let args = resolved@.take(i + 1);
                    assert forall|j: int| 0 <= j < outs.len() implies (#[trigger] args[j]).0@ == pairs[j].0 && args[j].1@
                        == pairs[j].1 && call_ensures(
                        fix_pair,
                        (j as usize, args[j].0, args[j].1),
                        Ok::<usize, String>(outs[j]),
                    ) by {
                        assert(args[j] == resolved@[j]);
                    }
                    assert(seq_sum(outs) > usize::MAX);
                    assert(args.len() == outs.len());
                    assert(counts_overflow(fix_pair, pairs));
                }
                return Err(e);
            },
        };
        i = i + 1;
    }
    proof {
        let args = resolved@;
        assert(forall|j: int| 0 <= j < pairs.len() ==> (#[trigger] args[j]).0@ == pairs[j].0 && args[j].1@
            == pairs[j].1 && call_ensures(
            fix_pair,
            (j as usize, args[j].0, args[j].1),
            Ok::<usize, String>(outs[j]),
        ));
    }
    Ok(changed)
}

/// Swaps the identity of the original host (`old_host_guid`) with the new
/// character (`new_char_guid`) in one world: `world_data_dir` finds the
/// world's data directory, then both uids are read, then `fix_in_dir` swaps
/// them there. The first step that fails gives the error.
pub fn fix_host_save_impl<D, W, F>(req: &FixHostRequest, world_data_dir: W, fix_in_dir: F) -> (r: Result<usize, String>) where
    W: FnOnce() -> Result<D, String>,
    F: FnOnce(D, [u8; 16], [u8; 16]) -> Result<usize, String>,

    requires
        call_requires(world_data_dir, ()),
        forall|d: D, a: [u8; 16], b: [u8; 16]| call_requires(fix_in_dir, (d, a, b)),
    ensures
        r matches Ok(n) ==> exists|d: D, a: [u8; 16], b: [u8; 16]|
            {
                &&& call_ensures(world_data_dir, (), Ok::<D, String>(d))
                &&& guid_of_text(encode_utf8(req.old_host_guid@)) == Some(a@)
                &&& guid_of_text(encode_utf8(req.new_char_guid@)) == Some(b@)
                &&& call_ensures(fix_in_dir, (d, a, b), Ok::<usize, String>(n))
            },
        guid_of_text(encode_utf8(req.old_host_guid@)) is None ==> r is Err,
        guid_of_text(encode_utf8(req.new_char_guid@)) is None ==> r is Err,
        ({
            &&& guid_of_text(encode_utf8(req.old_host_guid@)) is Some
            &&& guid_of_text(encode_utf8(req.new_char_guid@)) is Some
            &&& forall|x: Result<D, String>| #[trigger] call_ensures(world_data_dir, (), x) ==> x is Ok
            &&& forall|d: D, a: [u8; 16], b: [u8; 16], x: Result<usize, String>| #[trigger] call_ensures(fix_in_dir, (d, a, b), x) ==> x is Ok
        }) ==> r is Ok,
        r matches Err(e) ==> {
            ||| call_ensures(world_data_dir, (), Err::<D, String>(e))
            ||| guid_of_text(encode_utf8(req.old_host_guid@)) is None
            ||| guid_of_text(encode_utf8(req.new_char_guid@)) is None
            ||| exists|d: D, a: [u8; 16], b: [u8; 16]| #[trigger] call_ensures(fix_in_dir, (d, a, b), Err::<usize, String>(e))
        },
{
    let dir = match world_data_dir() {
        Ok(d) => d,
        Err(e) => return Err(e),
    };
    let ghost dg = dir;
    let a = match guid_bytes(req.old_host_guid.as_str()) {
        Ok(a) => a,
        Err(e) => return Err(e),
    };
    let b = match guid_bytes(req.new_char_guid.as_str()) {
        Ok(b) => b,
        Err(e) => return Err(e),
    };
    let r = fix_in_dir(dir, a, b);
    proof {
        if r is Err {
            assert(call_ensures(fix_in_dir, (dg, a, b), Err::<usize, String>(r->Err_0)));
        }
        if let Ok(n) = r {
            assert(call_ensures(world_data_dir, (), Ok::<D, String>(dg)));
            assert(call_ensures(fix_in_dir, (dg, a, b), Ok::<usize, String>(n)));
        }
    }
    r
}


/// What the files of a world say before two identities are swapped there:
/// the paths, as shown in refusals, and whether each exists.
pub struct FixHostFiles {
    pub players_dir: String,
    pub players_dir_exists: bool,
    pub old_path: String,
    pub old_exists: bool,
    pub new_path: String,
    pub new_exists: bool,
    pub level_path: String,
    pub level_exists: bool,
}

/// Why an identity swap is refused before any file is read, in the order the
/// checks are made: no `Players` directory, equal uids, a missing old or new
/// player file, a missing `Level.sav`.
pub open spec fn fix_host_refusal(f: FixHostFiles, same: bool) -> Option<Seq<char>> {
    if !f.players_dir_exists {
        Some("Players 目录不存在: "@ + f.players_dir@)
    } else if same {
        Some("旧主机 GUID 与新角色 GUID 相同，无需替换"@)
    } else if !f.old_exists {
        Some("旧主机角色存档不存在: "@ + f.old_path@)
    } else if !f.new_exists {
        Some("新角色存档不存在: "@ + f.new_path@)
    } else if !f.level_exists {
        Some("Level.sav 不存在: "@ + f.level_path@)
    } else {
        None
    }
}

fn refusal_with(prefix: &str, path: &String) -> (r: String)
    ensures
        r@ == prefix@ + path@,
{
    let mut s = String::from_str(prefix);
    push_str(&mut s, path.as_str());
    s
}

/// Checks the files of a world before two identities are swapped there
/// (see `fix_host_refusal`).
pub fn check_fix_host_files(files: &FixHostFiles, old_uid: &[u8; 16], new_uid: &[u8; 16]) -> (r: Result<(), String>)
    ensures
        match fix_host_refusal(*files, old_uid@ == new_uid@) {
            Some(m) => r matches Err(e) && e@ == m,
            None => r is Ok,
        },
{
    if !files.players_dir_exists {
        return Err(refusal_with("Players 目录不存在: ", &files.players_dir));
    }
    if guid_eq(old_uid, new_uid) {
        return Err(String::from_str("旧主机 GUID 与新角色 GUID 相同，无需替换"));
    }
    if !files.old_exists {
        return Err(refusal_with("旧主机角色存档不存在: ", &files.old_path));
    }
    if !files.new_exists {
        return Err(refusal_with("新角色存档不存在: ", &files.new_path));
    }
    if !files.level_exists {
        return Err(refusal_with("Level.sav 不存在: ", &files.level_path));
    }
    Ok(())
}

/// Refuses to swap two characters that share an `InstanceId`.
pub fn check_instances(old_instance: Option<[u8; 16]>, new_instance: Option<[u8; 16]>) -> (r: Result<(), String>)
    ensures
        r is Err <==> (old_instance is Some && new_instance is Some && old_instance->0@ == new_instance->0@),
        r matches Err(e) ==> e@ == "两个角色的 InstanceId 相同，无法安全交换（R-INST-1）"@,
{
    match (old_instance, new_instance) {
        (Some(a), Some(b)) => {
            if guid_eq(&a, &b) {
                return Err(String::from_str("两个角色的 InstanceId 相同，无法安全交换（R-INST-1）"));
            }
            Ok(())
        },
        _ => Ok(()),
    }
}

/// Refuses a swap that would change nothing in one of the three files: the
/// world file first, then the old player's file, then the new player's.
pub fn check_swap_counts(level_changes: usize, old_player_changes: usize, new_player_changes: usize) -> (r: Result<(), String>)
    ensures
        r is Ok <==> (level_changes > 0 && old_player_changes > 0 && new_player_changes > 0),
        level_changes == 0 ==> (r matches Err(e) && e@ == "Level.sav 中未找到待交换的角色引用，已取消操作"@),
        level_changes > 0 && old_player_changes == 0 ==> (r matches Err(e) && e@ == "旧主机角色存档中未找到原角色 UID，已取消操作"@),
        level_changes > 0 && old_player_changes > 0 && new_player_changes == 0 ==> (r matches Err(e) && e@
            == "服务器新角色存档中未找到新角色 UID，已取消操作"@),
{
    if level_changes == 0 {
        return Err(String::from_str("Level.sav 中未找到待交换的角色引用，已取消操作"));
    }
    if old_player_changes == 0 {
        return Err(String::from_str("旧主机角色存档中未找到原角色 UID，已取消操作"));
    }
    if new_player_changes == 0 {
        return Err(String::from_str("服务器新角色存档中未找到新角色 UID，已取消操作"));
    }
    Ok(())
}


/// One group record after the host fix: a guild's `RawData` gets the writes
/// of `guild_swap_writes`, with their number as a `usize`; other groups stay
/// as they are.
/// `None` when a guild has no `RawData` or its blob cannot be read.
pub open spec fn group_value_swapped(
    v: PropModel,
    o: Seq<u8>,
    n: Seq<u8>,
    oi: Option<Seq<u8>>,
    ni: Option<Seq<u8>>,
) -> Option<(PropModel, nat)> {
    if !guild_group(v) {
        Some((v, 0))
    } else {
        match raw_data(v) {
            None => None,
            Some(b) => match guild_swap_writes(b, o, n, oi, ni) {
                None => None,
                Some(ws) => Some((with_raw(v, apply_writes(b, ws)), (ws.len() as usize) as nat)),
            },
        }
    }
}

/// The group-map entries `es` after the host fix, in order, with the number
/// of fields written; `None` when one of them fails (see
/// `group_value_swapped`).
pub open spec fn group_entries_swapped(
    es: Seq<(PropModel, PropModel)>,
    o: Seq<u8>,
    n: Seq<u8>,
    oi: Option<Seq<u8>>,
    ni: Option<Seq<u8>>,
) -> Option<(Seq<(PropModel, PropModel)>, nat)>
    decreases es.len(),
{
    if es.len() == 0 {
        Some((Seq::empty(), 0))
    } else {
        match group_entries_swapped(es.drop_last(), o, n, oi, ni) {
            None => None,
            Some((pre, k)) => match group_value_swapped(es.last().1, o, n, oi, ni) {
                None => None,
                Some((v, c)) => Some((pre.push((es.last().0, v)), k + c)),
            },
        }
    }
}

proof fn lemma_swapped_none_stays(
    m: Seq<(PropModel, PropModel)>,
    i: int,
    t: int,
    o: Seq<u8>,
    n: Seq<u8>,
    oi: Option<Seq<u8>>,
    ni: Option<Seq<u8>>,
)
    requires
        0 <= i <= t <= m.len(),
        group_entries_swapped(m.take(i), o, n, oi, ni) is None,
    ensures
        group_entries_swapped(m.take(t), o, n, oi, ni) is None,
    decreases t - i,
{
    if t > i {
        lemma_swapped_none_stays(m, i, t - 1, o, n, oi, ni);
        assert(m.take(t).drop_last() =~= m.take(t - 1));
    }
}

/// The new `RawData` of a group record after the host fix, when it is a
/// guild (see `group_value_swapped`).
fn swapped_guild_raw(
    e: &PropTree,
    old_uid: &[u8; 16],
    new_uid: &[u8; 16],
    old_instance: Option<&[u8; 16]>,
    new_instance: Option<&[u8; 16]>,
) -> (r: Result<Option<(Vec<u8>, usize)>, String>)
    ensures
        match group_value_swapped(tree_model(*e), old_uid@, new_uid@, opt_view(old_instance), opt_view(new_instance)) {
            None => r is Err,
            Some((x, c)) => if guild_group(tree_model(*e)) {
                r matches Ok(Some((b, k))) && x == with_raw(tree_model(*e), b@) && k == capped(c)
            } else {
                r == Ok::<Option<(Vec<u8>, usize)>, String>(None) && x == tree_model(*e) && c == 0
            },
        },
{
    if !is_guild_group(e) {
        return Ok(None);
    }
    let mut bytes = match raw_data_bytes(e) {
        Some(b) => {
            let mut v: Vec<u8> = Vec::new();
            v.extend_from_slice(b.as_slice());
            assert(v@ =~= b@);
            v
        },
        None => return Err(String::from_str("公会记录缺少 RawData")),
    };
    match patch_guild_rawdata(&mut bytes, old_uid, new_uid, old_instance, new_instance) {
        Ok(k) => Ok(Some((bytes, k))),
        Err(x) => Err(x),
    }
}

/// The group record `v` with `RawData` set to `raw`, if any.
pub open spec fn with_new_raw(v: PropModel, raw: Option<Vec<u8>>) -> PropModel {
    match raw {
        Some(b) => with_raw(v, b@),
        None => v,
    }
}

/// Applies the host fix to every guild of a world's group map: each guild's
/// `RawData` gets the writes of `patch_guild_rawdata` (see
/// `group_entries_swapped`). All guilds are read before any is changed, so
/// on an error the map is as it was. Returns how many fields were written.
pub fn patch_guild_groups(
    entries: &mut Vec<(PropTree, PropTree)>,
    old_uid: &[u8; 16],
    new_uid: &[u8; 16],
    old_instance: Option<&[u8; 16]>,
    new_instance: Option<&[u8; 16]>,
) -> (r: Result<usize, String>)
    ensures
        match group_entries_swapped(entries_model(old(entries)@), old_uid@, new_uid@, opt_view(old_instance), opt_view(new_instance)) {
            Some((es, c)) => r == Ok::<usize, String>(capped(c)) && entries_model(final(entries)@) == es,
            None => r is Err && final(entries)@ == old(entries)@,
        },
{
    let ghost m = entries_model(entries@);
    let ghost oi = opt_view(old_instance);
    let ghost ni = opt_view(new_instance);
    let len = entries.len();
    let mut raws: Vec<Option<Vec<u8>>> = Vec::new();
    let mut count: usize = 0;
    let mut i: usize = 0;
    assert(m.take(0) =~= Seq::<(PropModel, PropModel)>::empty());
    while i < len
        invariant
            len == entries@.len(),
            m == entries_model(entries@),
            oi == opt_view(old_instance),
            ni == opt_view(new_instance),
            i <= len,
            raws@.len() == i,
            group_entries_swapped(m.take(i as int), old_uid@, new_uid@, oi, ni) matches Some((pre, k)) && count == capped(k)
                && pre.len() == i && forall|j: int| 0 <= j < i ==> #[trigger] pre[j] == (m[j].0, with_new_raw(m[j].1, raws@[j])),
        decreases len - i,
    {
        let ghost (pre_i, k_i) = group_entries_swapped(m.take(i as int), old_uid@, new_uid@, oi, ni)->0;
        assert(m.take(i + 1).drop_last() =~= m.take(i as int));
        assert(m.take(i + 1).last() == m[i as int]);
        assert(m[i as int] == (tree_model(entries@[i as int].0), tree_model(entries@[i as int].1)));
        let res = swapped_guild_raw(&entries[i].1, old_uid, new_uid, old_instance, new_instance);
        match res {
            Err(x) => {
                proof {
                    lemma_swapped_none_stays(m, i as int + 1, len as int, old_uid@, new_uid@, oi, ni);
                    assert(m.take(len as int) =~= m);
                }
                return Err(x);
            },
            Ok(Some((b, k))) => {
                proof {
                    let (_, c) = group_value_swapped(m[i as int].1, old_uid@, new_uid@, oi, ni)->0;
                    lemma_capped_add(k_i, c);
                }
                count = if count > usize::MAX - k { usize::MAX } else { count + k };
                raws.push(Some(b));
            },
            Ok(None) => {
                raws.push(None);
            },
        }
        let ghost (pre2, _) = group_entries_swapped(m.take(i + 1), old_uid@, new_uid@, oi, ni)->0;
        assert(pre2 == pre_i.push(pre2[i as int]));
        assert forall|j: int| 0 <= j < i + 1 implies #[trigger] pre2[j] == (m[j].0, with_new_raw(m[j].1, raws@[j])) by {
            if j < i {
                assert(pre2[j] == pre_i[j]);
            }
        }
        i = i + 1;
    }
    let ghost (fin, _) = group_entries_swapped(m, old_uid@, new_uid@, oi, ni)->0;
    let ghost raws0 = raws@;
    assert(m.take(len as int) =~= m);
    let mut original: Vec<(PropTree, PropTree)> = Vec::new();
    std::mem::swap(&mut original, entries);
    let ghost orig = original@;
    let mut j: usize = 0;
    assert(entries_model(entries@) =~= fin.take(0));
    while j < len
        invariant
            len == orig.len(),
            m == entries_model(orig),
            raws0.len() == len,
            raws@ == raws0.subrange(j as int, len as int),
            j <= len,
            original@ == orig.subrange(j as int, len as int),
            fin.len() == len,
            forall|t: int| 0 <= t < len ==> #[trigger] fin[t] == (m[t].0, with_new_raw(m[t].1, raws0[t])),
            entries_model(entries@) == fin.take(j as int),
        decreases len - j,
    {
        let (key, mut value) = original.remove(0);
        let rb = raws.remove(0);
        assert((key, value) == orig[j as int]);
        assert(rb == raws0[j as int]);
        assert(m[j as int] == (tree_model(key), tree_model(value)));
        match rb {
            Some(b) => set_raw_data(&mut value, b),
            None => {},
        }
        let ghost e1 = entries_model(entries@);
        entries.push((key, value));
        assert(entries_model(entries@) =~= e1.push((tree_model(key), tree_model(value))));
        assert(fin.take(j + 1) =~= fin.take(j as int).push(fin[j as int]));
        j = j + 1;
    }
    assert(fin.take(len as int) =~= fin);
    Ok(count)
}

/// What an owner swap in the property stream `b` may give back as `(b2, c)`
/// (see `swap_owner_guids_in_character_property_stream`): the stream as it
/// was with a count of 0 (for distinct ids, only after a read that found
/// neither), or the properties that `read_stream` read, with
/// `c` owner GUIDs exchanged, written back by `write_stream`.
pub open spec fn stream_swapped<R, W>(read_stream: R, write_stream: W, b: Seq<u8>, o: Seq<u8>, n: Seq<u8>, b2: Seq<u8>, c: usize) -> bool where
    R: Fn(Vec<u8>) -> Result<(Vec<(String, PropTree)>, Vec<u8>), String>,
    W: Fn(Vec<(String, PropTree)>, Vec<u8>) -> Result<Vec<u8>, String>,
{
    &&& (o == n ==> b2 == b && c == 0)
    &&& (c == 0 ==> b2 == b)
    &&& (o != n && c == 0 ==> exists|v: Vec<u8>, ps: Vec<(String, PropTree)>, tail: Vec<u8>|
        {
            &&& v@ == b
            &&& #[trigger] call_ensures(read_stream, (v,), Ok::<(Vec<(String, PropTree)>, Vec<u8>), String>((ps, tail)))
            &&& count_owner_props(props_model(ps@), o) + count_owner_props(props_model(ps@), n) == 0
        })
    &&& (c > 0 ==> exists|v: Vec<u8>, ps: Vec<(String, PropTree)>, tail: Vec<u8>, ps2: Vec<(String, PropTree)>, out: Vec<u8>|
        {
            &&& v@ == b
            &&& #[trigger] call_ensures(read_stream, (v,), Ok::<(Vec<(String, PropTree)>, Vec<u8>), String>((ps, tail)))
            &&& owner_swap_done(props_model(ps@), props_model(ps2@), o, n, c)
            &&& #[trigger] call_ensures(write_stream, (ps2, tail), Ok::<Vec<u8>, String>(out))
            &&& out@ == b2
        })
}

/// A character record `v` after the owner swap in its `RawData` stream,
/// with `c` GUIDs exchanged: a record without `RawData`, or whose stream
/// held neither GUID, stays as it was.
pub open spec fn record_stream_swapped<R, W>(read_stream: R, write_stream: W, v: PropModel, o: Seq<u8>, n: Seq<u8>, v2: PropModel, c: usize) -> bool where
    R: Fn(Vec<u8>) -> Result<(Vec<(String, PropTree)>, Vec<u8>), String>,
    W: Fn(Vec<(String, PropTree)>, Vec<u8>) -> Result<Vec<u8>, String>,
{
    match raw_data(v) {
        None => v2 == v && c == 0,
        Some(b) => exists|b2: Seq<u8>| #[trigger] stream_swapped(read_stream, write_stream, b, o, n, b2, c) && v2 == (if c > 0 {
            with_raw(v, b2)
        } else {
            v
        }),
    }
}

/// The sum of the counts `cs`, capped to `usize`.
pub open spec fn counts_sum(cs: Seq<usize>) -> nat
    decreases cs.len(),
{
    if cs.len() == 0 {
        0
    } else {
        (counts_sum(cs.drop_last()) + cs.last()) as nat
    }
}

/// Exchanges the owner GUIDs `old_id` and `new_id` inside the `RawData`
/// stream of every character of a world's character map (see
/// `swap_owner_guids_in_character_property_stream`); `read_stream` and
/// `write_stream` read and write a stream. Keys stay as they are. All
/// streams are swapped before any record changes, so on an error the map is
/// as it was; the error is that of one record's swap. Returns how many GUIDs
/// were exchanged.
pub fn swap_owners_in_character_streams<R, W>(
    entries: &mut Vec<(PropTree, PropTree)>,
    old_id: &[u8; 16],
    new_id: &[u8; 16],
    read_stream: R,
    write_stream: W,
) -> (r: Result<usize, String>) where
    R: Fn(Vec<u8>) -> Result<(Vec<(String, PropTree)>, Vec<u8>), String> + Copy,
    W: Fn(Vec<(String, PropTree)>, Vec<u8>) -> Result<Vec<u8>, String> + Copy,

    requires
        forall|v: Vec<u8>| call_requires(read_stream, (v,)),
        forall|ps: Vec<(String, PropTree)>, t: Vec<u8>| call_requires(write_stream, (ps, t)),
    ensures
        r matches Ok(total) ==> exists|cs: Seq<usize>| {
            &&& cs.len() == old(entries)@.len()
            &&& total == capped(counts_sum(cs))
            &&& final(entries)@.len() == old(entries)@.len()
            &&& forall|i: int| 0 <= i < cs.len() ==> {
                &&& entries_model(final(entries)@)[i].0 == entries_model(old(entries)@)[i].0
                &&& #[trigger] record_stream_swapped(read_stream, write_stream, entries_model(old(entries)@)[i].1, old_id@, new_id@,
                    entries_model(final(entries)@)[i].1, cs[i])
            }
        },
        r is Err ==> final(entries)@ == old(entries)@ && exists|i: int| 0 <= i < old(entries)@.len() && #[trigger] raw_data(
            entries_model(old(entries)@)[i].1,
        ) is Some && stream_error_from(raw_data(entries_model(old(entries)@)[i].1)->0, old_id@, new_id@, read_stream, write_stream, r->Err_0),
{
    let ghost m = entries_model(entries@);
    let len = entries.len();
    let mut raws: Vec<Option<Vec<u8>>> = Vec::new();
    let ghost mut cs: Seq<usize> = Seq::empty();
    let mut count: usize = 0;
    let mut i: usize = 0;
    while i < len
        invariant
            len == entries@.len(),
            m == entries_model(entries@),
            forall|v: Vec<u8>| call_requires(read_stream, (v,)),
            forall|ps: Vec<(String, PropTree)>, t: Vec<u8>| call_requires(write_stream, (ps, t)),
            i <= len,
            raws@.len() == i,
            cs.len() == i,
            count == capped(counts_sum(cs)),
            forall|j: int| 0 <= j < i ==> #[trigger] record_stream_swapped(read_stream, write_stream, m[j].1, old_id@, new_id@,
                with_new_raw(m[j].1, raws@[j]), cs[j]),
        decreases len - i,
    {
        assert(m[i as int] == (tree_model(entries@[i as int].0), tree_model(entries@[i as int].1)));
        let ghost cs_old = cs;
        match raw_data_bytes(&entries[i].1) {
            None => {
                raws.push(None);
                proof {
                    cs = cs.push(0usize);
                }
            },
            Some(b) => {
                let ghost bm = b@;
                match crate::prop_tree::swap_owner_guids_in_character_property_stream(b.as_slice(), old_id, new_id, read_stream, write_stream) {
                    Err(e) => {
                        assert(raw_data(m[i as int].1) == Some(bm));
                        return Err(e);
                    },
                    Ok((b2, c)) => {
                        assert(stream_swapped(read_stream, write_stream, bm, old_id@, new_id@, b2@, c));
                        proof {
                            crate::prop_tree::lemma_capped_add(counts_sum(cs), c as nat);
                        }
                        count = if count > usize::MAX - c { usize::MAX } else { count + c };
                        if c > 0 {
                            raws.push(Some(b2));
                        } else {
                            raws.push(None);
                        }
                        proof {
                            cs = cs.push(c);
                        }
                    },
                }
            },
        }
        assert(cs.drop_last() =~= cs_old);
        assert(counts_sum(cs) == counts_sum(cs_old) + cs.last());
        i = i + 1;
    }
    let ghost raws0 = raws@;
    let mut original: Vec<(PropTree, PropTree)> = Vec::new();
    std::mem::swap(&mut original, entries);
    let ghost orig = original@;
    let mut j: usize = 0;
    while j < len
        invariant
            len == orig.len(),
            m == entries_model(orig),
            raws0.len() == len,
            raws@ == raws0.subrange(j as int, len as int),
            j <= len,
            original@ == orig.subrange(j as int, len as int),
            entries@.len() == j,
            forall|t: int| 0 <= t < j ==> #[trigger] entries_model(entries@)[t] == (m[t].0, with_new_raw(m[t].1, raws0[t])),
        decreases len - j,
    {
        let (key, mut value) = original.remove(0);
        let rb = raws.remove(0);
        assert((key, value) == orig[j as int]);
        assert(rb == raws0[j as int]);
        assert(m[j as int] == (tree_model(key), tree_model(value)));
        match rb {
            Some(b) => set_raw_data(&mut value, b),
            None => {},
        }
        let ghost e1 = entries_model(entries@);
        entries.push((key, value));
        assert(entries_model(entries@) =~= e1.push((tree_model(key), tree_model(value))));
        j = j + 1;
    }
    Ok(count)
}
} // verus!
