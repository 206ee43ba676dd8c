//! Moving a character from one world into another character's place: the
//! checks on the two identities and the id mappings that carry the source
//! character's references over to the target's.

use vstd::prelude::*;
use crate::dynamic_items::mappings_view;
use crate::guid_bytes::guid_eq;
use crate::text::push_str;
use vstd::string::StringSliceAdditionalSpecFns;

verus! {

/// The identity of a character as its player file holds it.
pub struct PlayerIdentitySummary {
    pub player_uid: [u8; 16],
    pub instance_id: [u8; 16],
    pub group_id: [u8; 16],
    pub pal_storage_id: [u8; 16],
    pub otomo_container_id: [u8; 16],
    /// The inventory containers, by field name, in the file's order.
    pub inventory: Vec<(String, [u8; 16])>,
}

/// The inventory containers, as values.
pub open spec fn inventory_view(v: Seq<(String, [u8; 16])>) -> Seq<(Seq<char>, Seq<u8>)> {
    v.map_values(|e: (String, [u8; 16])| (e.0@, e.1@))
}

/// Why a transfer between the selected characters is refused: the same uid
/// twice, or a player file that is not the selected character.
pub open spec fn selection_refusal(
    selected_source: Seq<u8>,
    selected_target: Seq<u8>,
    source_uid: Seq<u8>,
    target_uid: Seq<u8>,
) -> Option<Seq<char>> {
    if selected_source == selected_target {
        Some("源角色与目标角色 UID 相同，无需转移"@)
    } else if source_uid != selected_source {
        Some("源玩家文件 PlayerUId 与所选源角色不一致"@)
    } else if target_uid != selected_target {
        Some("目标玩家文件 PlayerUId 与所选目标角色不一致"@)
    } else {
        None
    }
}

/// Checks the selected characters against their player files (see
/// `selection_refusal`).
pub fn check_transfer_selection(
    selected_source: &[u8; 16],
    selected_target: &[u8; 16],
    source: &PlayerIdentitySummary,
    target: &PlayerIdentitySummary,
) -> (r: Result<(), String>)
    ensures
        match selection_refusal(selected_source@, selected_target@, source.player_uid@, target.player_uid@) {
            Some(m) => r matches Err(e) && e@ == m,
            None => r is Ok,
        },
{
    if guid_eq(selected_source, selected_target) {
        return Err(String::from_str("源角色与目标角色 UID 相同，无需转移"));
    }
    if !guid_eq(&source.player_uid, selected_source) {
        return Err(String::from_str("源玩家文件 PlayerUId 与所选源角色不一致"));
    }
    if !guid_eq(&target.player_uid, selected_target) {
        return Err(String::from_str("目标玩家文件 PlayerUId 与所选目标角色不一致"));
    }
    Ok(())
}

/// The first index from `k` on where the two inventories name different
/// fields.
pub open spec fn first_name_mismatch(a: Seq<(Seq<char>, Seq<u8>)>, b: Seq<(Seq<char>, Seq<u8>)>, k: int) -> Option<int>
    decreases a.len() - k,
{
    if k < 0 || k >= a.len() {
        None
    } else if a[k].0 != b[k].0 {
        Some(k)
    } else {
        first_name_mismatch(a, b, k + 1)
    }
}

/// Why two inventories cannot be paired: different numbers of containers,
/// or the first pair of containers whose fields differ.
pub open spec fn inventory_refusal(a: Seq<(Seq<char>, Seq<u8>)>, b: Seq<(Seq<char>, Seq<u8>)>) -> Option<Seq<char>> {
    if a.len() != b.len() {
        Some("源和目标 InventoryInfo 容器集合不一致"@)
    } else {
        match first_name_mismatch(a, b, 0) {
            Some(k) => Some("源和目标 InventoryInfo 字段顺序不一致: "@ + a[k].0 + "/"@ + b[k].0),
            None => None,
        }
    }
}

/// The mappings from the source character's ids to the target's: uid,
/// instance, pal storage, companion container, then each inventory
/// container in order.
pub open spec fn identity_pairs(
    s: (Seq<u8>, Seq<u8>, Seq<u8>, Seq<u8>),
    t: (Seq<u8>, Seq<u8>, Seq<u8>, Seq<u8>),
    a: Seq<(Seq<char>, Seq<u8>)>,
    b: Seq<(Seq<char>, Seq<u8>)>,
) -> Seq<(Seq<u8>, Seq<u8>)> {
    seq![(s.0, t.0), (s.1, t.1), (s.2, t.2), (s.3, t.3)] + Seq::new(a.len(), |k: int| (a[k].1, b[k].1))
}

/// The ids of an identity that the mappings start with.
pub open spec fn core_ids(p: PlayerIdentitySummary) -> (Seq<u8>, Seq<u8>, Seq<u8>, Seq<u8>) {
    (p.player_uid@, p.instance_id@, p.pal_storage_id@, p.otomo_container_id@)
}

fn inventory_message(a: &String, b: &String) -> (r: String)
    ensures
        r@ == "源和目标 InventoryInfo 字段顺序不一致: "@ + a@ + "/"@ + b@,
{
    let mut s = String::from_str("源和目标 InventoryInfo 字段顺序不一致: ");
    push_str(&mut s, a.as_str());
    push_str(&mut s, "/");
    push_str(&mut s, b.as_str());
    s
}

/// The id mappings of a transfer from `source` to `target` (see
/// `identity_pairs`); refused when the inventories cannot be paired (see
/// `inventory_refusal`).
pub fn transfer_identity_mappings(source: &PlayerIdentitySummary, target: &PlayerIdentitySummary) -> (r: Result<
    Vec<([u8; 16], [u8; 16])>,
    String,
>)
    ensures
        ({
            let a = inventory_view(source.inventory@);
            let b = inventory_view(target.inventory@);
            match inventory_refusal(a, b) {
                Some(m) => r matches Err(e) && e@ == m,
                None => r matches Ok(v) && mappings_view(v@) == identity_pairs(core_ids(*source), core_ids(*target), a, b),
            }
        }),
        r matches Ok(v) ==> {
            &&& v@.len() == 4 + source.inventory@.len()
            &&& v@[0] == (source.player_uid, target.player_uid)
            &&& v@[1] == (source.instance_id, target.instance_id)
            &&& v@[2] == (source.pal_storage_id, target.pal_storage_id)
            &&& v@[3] == (source.otomo_container_id, target.otomo_container_id)
            &&& forall|k: int| 0 <= k < source.inventory@.len() ==> #[trigger] v@[4 + k] == (source.inventory@[k].1, target.inventory@[k].1)
        },
{
    let ghost a = inventory_view(source.inventory@);
    let ghost b = inventory_view(target.inventory@);
    if source.inventory.len() != target.inventory.len() {
        return Err(String::from_str("源和目标 InventoryInfo 容器集合不一致"));
    }
    let mut out: Vec<([u8; 16], [u8; 16])> = Vec::new();
    out.push((source.player_uid, target.player_uid));
    out.push((source.instance_id, target.instance_id));
    out.push((source.pal_storage_id, target.pal_storage_id));
    out.push((source.otomo_container_id, target.otomo_container_id));
    let ghost head = seq![
        (source.player_uid@, target.player_uid@),
        (source.instance_id@, target.instance_id@),
        (source.pal_storage_id@, target.pal_storage_id@),
        (source.otomo_container_id@, target.otomo_container_id@),
    ];
    assert(mappings_view(out@) =~= head);
    let n = source.inventory.len();
    let mut i: usize = 0;
    while i < n
        invariant
            n == source.inventory@.len(),
            n == target.inventory@.len(),
            a == inventory_view(source.inventory@),
            b == inventory_view(target.inventory@),
            i <= n,
            first_name_mismatch(a, b, 0) == first_name_mismatch(a, b, i as int),
            mappings_view(out@) == head + Seq::new(i as nat, |k: int| (a[k].1, b[k].1)),
        decreases n - i,
    {
        let (sn, sid) = (&source.inventory[i].0, source.inventory[i].1);
        let (tn, tid) = (&target.inventory[i].0, target.inventory[i].1);
        assert(a[i as int] == (sn@, sid@));
        assert(b[i as int] == (tn@, tid@));
        if *sn != *tn {
            assert(first_name_mismatch(a, b, i as int) == Some(i as int));
            return Err(inventory_message(sn, tn));
        }
        let ghost before = mappings_view(out@);
        out.push((sid, tid));
        assert(mappings_view(out@) =~= before.push((sid@, tid@)));
        assert(head + Seq::new((i + 1) as nat, |k: int| (a[k].1, b[k].1)) =~= (head + Seq::new(i as nat, |k: int| (a[k].1, b[k].1))).push((a[i as int].1, b[i as int].1)));
        i = i + 1;
    }
    assert(first_name_mismatch(a, b, n as int) is None);
    assert(mappings_view(out@) =~= identity_pairs(core_ids(*source), core_ids(*target), a, b));
    proof {
        lemma_identity_pairs(*source, *target);
        lemma_pairs_from_view(out@, *source, *target);
    }
    Ok(out)
}


/// A player file stem of a character transfer: exactly 32 ASCII
/// hexadecimal digits.
pub open spec fn is_file_stem(b: Seq<u8>) -> bool {
    b.len() == 32 && forall|i: int| 0 <= i < 32 ==> crate::guid::is_hex_digit(#[trigger] b[i])
}

fn check_file_stem(value: &str) -> (r: Result<(), String>)
    ensures
        is_file_stem(value.spec_bytes()) ==> r is Ok,
        !is_file_stem(value.spec_bytes()) ==> (r matches Err(e) && e@ == "角色文件标识必须是 32 位十六进制字符串"@),
{
    let b = value.as_bytes();
    if b.len() != 32 {
        return Err(String::from_str("角色文件标识必须是 32 位十六进制字符串"));
    }
    let mut i: usize = 0;
    while i < 32
        invariant
            b@ == value.spec_bytes(),
            b@.len() == 32,
            i <= 32,
            forall|j: int| 0 <= j < i ==> crate::guid::is_hex_digit(#[trigger] b@[j]),
        decreases 32 - i,
    {
        let c = b[i];
        if !((48 <= c && c <= 57) || (65 <= c && c <= 70) || (97 <= c && c <= 102)) {
            return Err(String::from_str("角色文件标识必须是 32 位十六进制字符串"));
        }
        i = i + 1;
    }
    Ok(())
}

/// The checks a character transfer makes before it touches any file: both
/// player file stems are 32 hexadecimal digits, they are not the same file
/// (ignoring ASCII case), and the workflow waits for the server character.
/// The first that fails gives the error.
pub fn check_character_transfer(source_file: &str, target_file: &str, awaiting_server_character: bool) -> (r: Result<(), String>)
    ensures
        !is_file_stem(source_file.spec_bytes()) ==> (r matches Err(e) && e@ == "角色文件标识必须是 32 位十六进制字符串"@),
        is_file_stem(source_file.spec_bytes()) && !is_file_stem(target_file.spec_bytes()) ==> (r matches Err(e) && e@
            == "角色文件标识必须是 32 位十六进制字符串"@),
        is_file_stem(source_file.spec_bytes()) && is_file_stem(target_file.spec_bytes()) ==> if crate::modifier::eq_ignore_ascii_case(
            source_file@,
            target_file@,
        ) {
            r matches Err(e) && e@ == "源角色与目标服务器角色不能是同一个文件"@
        } else if !awaiting_server_character {
            r matches Err(e) && e@ == "当前工作流阶段不允许转移角色，请先完成世界迁移并创建服务器角色"@
        } else {
            r is Ok
        },
{
    check_file_stem(source_file)?;
    check_file_stem(target_file)?;
    if crate::modifier::same_ignoring_ascii_case(source_file, target_file) {
        return Err(String::from_str("源角色与目标服务器角色不能是同一个文件"));
    }
    if !awaiting_server_character {
        return Err(String::from_str("当前工作流阶段不允许转移角色，请先完成世界迁移并创建服务器角色"));
    }
    Ok(())
}

/// The mappings of a transfer take each id of the source character to the
/// target's id of the same kind: the player uid to the player uid, the
/// instance to the instance, the pal storage to the pal storage, the
/// companion container to the companion container, and each inventory
/// container to the target's container in the same place.
pub proof fn lemma_identity_pairs(source: PlayerIdentitySummary, target: PlayerIdentitySummary)
    requires
        source.inventory@.len() == target.inventory@.len(),
    ensures
        ({
            let m = identity_pairs(core_ids(source), core_ids(target), inventory_view(source.inventory@), inventory_view(target.inventory@));
            &&& m.len() == 4 + source.inventory@.len()
            &&& m[0] == (source.player_uid@, target.player_uid@)
            &&& m[1] == (source.instance_id@, target.instance_id@)
            &&& m[2] == (source.pal_storage_id@, target.pal_storage_id@)
            &&& m[3] == (source.otomo_container_id@, target.otomo_container_id@)
            &&& forall|k: int| 0 <= k < source.inventory@.len() ==> #[trigger] m[4 + k] == (source.inventory@[k].1@, target.inventory@[k].1@)
        }),
{
    let a = inventory_view(source.inventory@);
    let b = inventory_view(target.inventory@);
    let m = identity_pairs(core_ids(source), core_ids(target), a, b);
    assert forall|k: int| 0 <= k < source.inventory@.len() implies #[trigger] m[4 + k] == (source.inventory@[k].1@, target.inventory@[k].1@) by {
        assert(a[k] == (source.inventory@[k].0@, source.inventory@[k].1@));
        assert(b[k] == (target.inventory@[k].0@, target.inventory@[k].1@));
    }
}

proof fn lemma_pairs_from_view(v: Seq<([u8; 16], [u8; 16])>, source: PlayerIdentitySummary, target: PlayerIdentitySummary)
    requires
        source.inventory@.len() == target.inventory@.len(),
        mappings_view(v) == identity_pairs(core_ids(source), core_ids(target), inventory_view(source.inventory@), inventory_view(target.inventory@)),
    ensures
        v.len() == 4 + source.inventory@.len(),
        v[0] == (source.player_uid, target.player_uid),
        v[1] == (source.instance_id, target.instance_id),
        v[2] == (source.pal_storage_id, target.pal_storage_id),
        v[3] == (source.otomo_container_id, target.otomo_container_id),
        forall|k: int| 0 <= k < source.inventory@.len() ==> #[trigger] v[4 + k] == (source.inventory@[k].1, target.inventory@[k].1),
{
    lemma_identity_pairs(source, target);
    let m = mappings_view(v);
    assert(m.len() == v.len());
    assert forall|j: int| 0 <= j < v.len() implies v[j].0@ == m[j].0 && v[j].1@ == m[j].1 by {}
    assert(v[0].0@ == source.player_uid@ && v[0].1@ == target.player_uid@);
    assert(v[0].0 =~= source.player_uid);
    assert forall|k: int| 0 <= k < source.inventory@.len() implies #[trigger] v[4 + k] == (source.inventory@[k].1, target.inventory@[k].1) by {
        assert(m[4 + k] == (source.inventory@[k].1@, target.inventory@[k].1@));
        assert(v[4 + k].0@ == source.inventory@[k].1@);
        assert(v[4 + k].1@ == target.inventory@[k].1@);
        assert(v[4 + k].0 =~= source.inventory@[k].1);
        assert(v[4 + k].1 =~= target.inventory@[k].1);
    }
}
} // verus!
