//! The GVAS property tree inside a save, as far as the library handles it:
//! the type hints Palworld's save is read with, and the check that a save
//! survives reading, writing and reading again. The reading and writing are
//! the caller's, handed in as closures.

use std::collections::HashMap;
use vstd::prelude::*;
use crate::sav::SavFile;
use crate::modifier::same_text;
use vstd::std_specs::hash::obeys_key_model;

verus! {

/// The texts of a list of hint pairs.
pub open spec fn pairs_view(h: Seq<(&str, &str)>) -> Seq<(Seq<char>, Seq<char>)> {
    Seq::new(h.len(), |i: int| (h[i].0@, h[i].1@))
}

/// The type hints Palworld's save needs to be read, as (path, type) pairs:
/// the struct type of the keys and values of each map, and of the GUID
/// arrays, that carry no type information of their own. `Guid` marks a bare
/// 16-byte GUID; any other name reads a self-describing struct.
pub open spec fn hint_table() -> Seq<(Seq<char>, Seq<char>)> {
    seq![
        ("worldSaveData.StructProperty.CharacterContainerSaveData.MapProperty.Key.StructProperty"@, "StructProperty"@),
        ("worldSaveData.StructProperty.CharacterContainerSaveData.MapProperty.Value.StructProperty"@, "StructProperty"@),
        ("worldSaveData.StructProperty.CharacterSaveParameterMap.MapProperty.Key.StructProperty"@, "StructProperty"@),
        ("worldSaveData.StructProperty.CharacterSaveParameterMap.MapProperty.Value.StructProperty"@, "StructProperty"@),
        ("worldSaveData.StructProperty.FoliageGridSaveDataMap.MapProperty.Key.StructProperty"@, "StructProperty"@),
        ("worldSaveData.StructProperty.FoliageGridSaveDataMap.MapProperty.Value.StructProperty"@, "StructProperty"@),
        ("worldSaveData.StructProperty.FoliageGridSaveDataMap.MapProperty.Value.StructProperty.ModelMap.MapProperty.Value.StructProperty"@, "StructProperty"@),
        ("worldSaveData.StructProperty.FoliageGridSaveDataMap.MapProperty.Value.StructProperty.ModelMap.MapProperty.Value.StructProperty.InstanceDataMap.MapProperty.Key.StructProperty"@, "StructProperty"@),
        ("worldSaveData.StructProperty.FoliageGridSaveDataMap.MapProperty.Value.StructProperty.ModelMap.MapProperty.Value.StructProperty.InstanceDataMap.MapProperty.Value.StructProperty"@, "StructProperty"@),
        ("worldSaveData.StructProperty.ItemContainerSaveData.MapProperty.Key.StructProperty"@, "StructProperty"@),
        ("worldSaveData.StructProperty.ItemContainerSaveData.MapProperty.Value.StructProperty"@, "StructProperty"@),
        ("worldSaveData.StructProperty.MapObjectSaveData.MapProperty.Value.StructProperty.ConcreteModel.StructProperty.ModuleMap.MapProperty.Value.StructProperty"@, "StructProperty"@),
        ("worldSaveData.StructProperty.MapObjectSaveData.MapProperty.Value.StructProperty.Model.StructProperty.EffectMap.MapProperty.Value.StructProperty"@, "StructProperty"@),
        ("worldSaveData.StructProperty.MapObjectSaveData.ArrayProperty.ConcreteModel.StructProperty.ModuleMap.MapProperty.Value.StructProperty"@, "StructProperty"@),
        ("worldSaveData.StructProperty.MapObjectSaveData.ArrayProperty.Model.StructProperty.EffectMap.MapProperty.Value.StructProperty"@, "StructProperty"@),
        ("worldSaveData.StructProperty.MapObjectSpawnerInStageSaveData.MapProperty.Key.StructProperty"@, "StructProperty"@),
        ("worldSaveData.StructProperty.MapObjectSpawnerInStageSaveData.MapProperty.Value.StructProperty"@, "StructProperty"@),
        ("worldSaveData.StructProperty.MapObjectSpawnerInStageSaveData.MapProperty.Value.StructProperty.SpawnerDataMapByLevelObjectInstanceId.MapProperty.Key.StructProperty"@, "Guid"@),
        ("worldSaveData.StructProperty.MapObjectSpawnerInStageSaveData.MapProperty.Value.StructProperty.SpawnerDataMapByLevelObjectInstanceId.MapProperty.Value.StructProperty"@, "StructProperty"@),
        ("worldSaveData.StructProperty.MapObjectSpawnerInStageSaveData.MapProperty.Value.StructProperty.SpawnerDataMapByLevelObjectInstanceId.MapProperty.Value.StructProperty.ItemMap.MapProperty.Value.StructProperty"@, "StructProperty"@),
        ("worldSaveData.StructProperty.WorkSaveData.MapProperty.Value.StructProperty.WorkAssignMap.MapProperty.Value.StructProperty"@, "StructProperty"@),
        ("worldSaveData.StructProperty.WorkSaveData.ArrayProperty.WorkAssignMap.MapProperty.Value.StructProperty"@, "StructProperty"@),
        ("worldSaveData.StructProperty.BaseCampSaveData.MapProperty.Key.StructProperty"@, "Guid"@),
        ("worldSaveData.StructProperty.BaseCampSaveData.MapProperty.Value.StructProperty"@, "StructProperty"@),
        ("worldSaveData.StructProperty.BaseCampSaveData.MapProperty.Value.StructProperty.ModuleMap.MapProperty.Value.StructProperty"@, "StructProperty"@),
        ("worldSaveData.StructProperty.GroupSaveDataMap.MapProperty.Key.StructProperty"@, "Guid"@),
        ("worldSaveData.StructProperty.GroupSaveDataMap.MapProperty.Value.StructProperty"@, "StructProperty"@),
        ("worldSaveData.StructProperty.EnemyCampSaveData.MapProperty.Value.StructProperty.EnemyCampStatusMap.MapProperty.Value.StructProperty"@, "StructProperty"@),
        ("worldSaveData.StructProperty.EnemyCampSaveData.MapProperty.Value.StructProperty.EnemyCampStatusMap.MapProperty.Value.StructProperty.TreasureBoxInfoMapBySpawnerName.MapProperty.Value.StructProperty"@, "StructProperty"@),
        ("worldSaveData.StructProperty.EnemyCampSaveData.StructProperty.EnemyCampStatusMap.MapProperty.Value.StructProperty"@, "StructProperty"@),
        ("worldSaveData.StructProperty.DungeonSaveData.MapProperty.Value.StructProperty.MapObjectSaveData.MapProperty.Value.StructProperty.Model.StructProperty.EffectMap.MapProperty.Value.StructProperty"@, "StructProperty"@),
        ("worldSaveData.StructProperty.DungeonSaveData.MapProperty.Value.StructProperty.MapObjectSaveData.MapProperty.Value.StructProperty.ConcreteModel.StructProperty.ModuleMap.MapProperty.Value.StructProperty"@, "StructProperty"@),
        ("worldSaveData.StructProperty.DungeonSaveData.MapProperty.Value.StructProperty.RewardSaveDataMap.MapProperty.Key.StructProperty"@, "Guid"@),
        ("worldSaveData.StructProperty.DungeonSaveData.MapProperty.Value.StructProperty.RewardSaveDataMap.MapProperty.Value.StructProperty"@, "StructProperty"@),
        ("worldSaveData.StructProperty.InvaderSaveData.MapProperty.Key.StructProperty"@, "Guid"@),
        ("worldSaveData.StructProperty.InvaderSaveData.MapProperty.Value.StructProperty"@, "StructProperty"@),
        ("worldSaveData.StructProperty.OilrigSaveData.MapProperty.Value.StructProperty.OilrigMap.MapProperty.Value.StructProperty"@, "StructProperty"@),
        ("worldSaveData.StructProperty.OilrigSaveData.StructProperty.OilrigMap.MapProperty.Value.StructProperty"@, "StructProperty"@),
        ("worldSaveData.StructProperty.SupplySaveData.MapProperty.Value.StructProperty.SupplyInfos.MapProperty.Key.StructProperty"@, "Guid"@),
        ("worldSaveData.StructProperty.SupplySaveData.MapProperty.Value.StructProperty.SupplyInfos.MapProperty.Value.StructProperty"@, "StructProperty"@),
        ("worldSaveData.StructProperty.GuildExtraSaveDataMap.MapProperty.Key.StructProperty"@, "Guid"@),
        ("worldSaveData.StructProperty.GuildExtraSaveDataMap.MapProperty.Value.StructProperty"@, "StructProperty"@),
        ("worldSaveData.StructProperty.InvaderDeclarationSaveData.StructProperty.ValidatedStartPointIds.StructProperty"@, "Guid"@),
        ("worldSaveData.StructProperty.InvaderDeclarationSaveData.StructProperty.ValidatedStartPointIds.SetProperty.StructProperty"@, "Guid"@),
        ("SaveData.StructProperty.Local_MaxFriendshipPalIds.MapProperty.Key.StructProperty"@, "StructProperty"@),
        ("SaveData.StructProperty.Local_MaxFriendshipPalIds.MapProperty.Value.StructProperty"@, "StructProperty"@)
    ]
}

/// Whether `(path, t)` is one of the hints.
pub open spec fn is_hint(path: Seq<char>, t: Seq<char>) -> bool {
    exists|j: int| 0 <= j < hint_table().len() && hint_table()[j] == (path, t)
}

/// Whether the map has a key with the text `path`.
pub open spec fn has_path(m: Map<String, String>, path: Seq<char>) -> bool {
    exists|k: String| #[trigger] m.contains_key(k) && k@ == path
}

/// The hints as text pairs, in the order of `hint_table`.
pub fn hint_pairs() -> (r: Vec<(&'static str, &'static str)>)
    ensures
        pairs_view(r@) == hint_table(),
        r@.len() == hint_table().len(),
        forall|j: int| 0 <= j < r@.len() ==> (#[trigger] r@[j].0@, r@[j].1@) == hint_table()[j],
{
    let mut r: Vec<(&'static str, &'static str)> = Vec::new();
    r.push(("worldSaveData.StructProperty.CharacterContainerSaveData.MapProperty.Key.StructProperty", "StructProperty"));
    r.push(("worldSaveData.StructProperty.CharacterContainerSaveData.MapProperty.Value.StructProperty", "StructProperty"));
    r.push(("worldSaveData.StructProperty.CharacterSaveParameterMap.MapProperty.Key.StructProperty", "StructProperty"));
    r.push(("worldSaveData.StructProperty.CharacterSaveParameterMap.MapProperty.Value.StructProperty", "StructProperty"));
    r.push(("worldSaveData.StructProperty.FoliageGridSaveDataMap.MapProperty.Key.StructProperty", "StructProperty"));
    r.push(("worldSaveData.StructProperty.FoliageGridSaveDataMap.MapProperty.Value.StructProperty", "StructProperty"));
    r.push(("worldSaveData.StructProperty.FoliageGridSaveDataMap.MapProperty.Value.StructProperty.ModelMap.MapProperty.Value.StructProperty", "StructProperty"));
    r.push(("worldSaveData.StructProperty.FoliageGridSaveDataMap.MapProperty.Value.StructProperty.ModelMap.MapProperty.Value.StructProperty.InstanceDataMap.MapProperty.Key.StructProperty", "StructProperty"));
    r.push(("worldSaveData.StructProperty.FoliageGridSaveDataMap.MapProperty.Value.StructProperty.ModelMap.MapProperty.Value.StructProperty.InstanceDataMap.MapProperty.Value.StructProperty", "StructProperty"));
    r.push(("worldSaveData.StructProperty.ItemContainerSaveData.MapProperty.Key.StructProperty", "StructProperty"));
    r.push(("worldSaveData.StructProperty.ItemContainerSaveData.MapProperty.Value.StructProperty", "StructProperty"));
    r.push(("worldSaveData.StructProperty.MapObjectSaveData.MapProperty.Value.StructProperty.ConcreteModel.StructProperty.ModuleMap.MapProperty.Value.StructProperty", "StructProperty"));
    r.push(("worldSaveData.StructProperty.MapObjectSaveData.MapProperty.Value.StructProperty.Model.StructProperty.EffectMap.MapProperty.Value.StructProperty", "StructProperty"));
    r.push(("worldSaveData.StructProperty.MapObjectSaveData.ArrayProperty.ConcreteModel.StructProperty.ModuleMap.MapProperty.Value.StructProperty", "StructProperty"));
    r.push(("worldSaveData.StructProperty.MapObjectSaveData.ArrayProperty.Model.StructProperty.EffectMap.MapProperty.Value.StructProperty", "StructProperty"));
    r.push(("worldSaveData.StructProperty.MapObjectSpawnerInStageSaveData.MapProperty.Key.StructProperty", "StructProperty"));
    r.push(("worldSaveData.StructProperty.MapObjectSpawnerInStageSaveData.MapProperty.Value.StructProperty", "StructProperty"));
    r.push(("worldSaveData.StructProperty.MapObjectSpawnerInStageSaveData.MapProperty.Value.StructProperty.SpawnerDataMapByLevelObjectInstanceId.MapProperty.Key.StructProperty", "Guid"));
    r.push(("worldSaveData.StructProperty.MapObjectSpawnerInStageSaveData.MapProperty.Value.StructProperty.SpawnerDataMapByLevelObjectInstanceId.MapProperty.Value.StructProperty", "StructProperty"));
    r.push(("worldSaveData.StructProperty.MapObjectSpawnerInStageSaveData.MapProperty.Value.StructProperty.SpawnerDataMapByLevelObjectInstanceId.MapProperty.Value.StructProperty.ItemMap.MapProperty.Value.StructProperty", "StructProperty"));
    r.push(("worldSaveData.StructProperty.WorkSaveData.MapProperty.Value.StructProperty.WorkAssignMap.MapProperty.Value.StructProperty", "StructProperty"));
    r.push(("worldSaveData.StructProperty.WorkSaveData.ArrayProperty.WorkAssignMap.MapProperty.Value.StructProperty", "StructProperty"));
    r.push(("worldSaveData.StructProperty.BaseCampSaveData.MapProperty.Key.StructProperty", "Guid"));
    r.push(("worldSaveData.StructProperty.BaseCampSaveData.MapProperty.Value.StructProperty", "StructProperty"));
    r.push(("worldSaveData.StructProperty.BaseCampSaveData.MapProperty.Value.StructProperty.ModuleMap.MapProperty.Value.StructProperty", "StructProperty"));
    r.push(("worldSaveData.StructProperty.GroupSaveDataMap.MapProperty.Key.StructProperty", "Guid"));
    r.push(("worldSaveData.StructProperty.GroupSaveDataMap.MapProperty.Value.StructProperty", "StructProperty"));
    r.push(("worldSaveData.StructProperty.EnemyCampSaveData.MapProperty.Value.StructProperty.EnemyCampStatusMap.MapProperty.Value.StructProperty", "StructProperty"));
    r.push(("worldSaveData.StructProperty.EnemyCampSaveData.MapProperty.Value.StructProperty.EnemyCampStatusMap.MapProperty.Value.StructProperty.TreasureBoxInfoMapBySpawnerName.MapProperty.Value.StructProperty", "StructProperty"));
    r.push(("worldSaveData.StructProperty.EnemyCampSaveData.StructProperty.EnemyCampStatusMap.MapProperty.Value.StructProperty", "StructProperty"));
    r.push(("worldSaveData.StructProperty.DungeonSaveData.MapProperty.Value.StructProperty.MapObjectSaveData.MapProperty.Value.StructProperty.Model.StructProperty.EffectMap.MapProperty.Value.StructProperty", "StructProperty"));
    r.push(("worldSaveData.StructProperty.DungeonSaveData.MapProperty.Value.StructProperty.MapObjectSaveData.MapProperty.Value.StructProperty.ConcreteModel.StructProperty.ModuleMap.MapProperty.Value.StructProperty", "StructProperty"));
    r.push(("worldSaveData.StructProperty.DungeonSaveData.MapProperty.Value.StructProperty.RewardSaveDataMap.MapProperty.Key.StructProperty", "Guid"));
    r.push(("worldSaveData.StructProperty.DungeonSaveData.MapProperty.Value.StructProperty.RewardSaveDataMap.MapProperty.Value.StructProperty", "StructProperty"));
    r.push(("worldSaveData.StructProperty.InvaderSaveData.MapProperty.Key.StructProperty", "Guid"));
    r.push(("worldSaveData.StructProperty.InvaderSaveData.MapProperty.Value.StructProperty", "StructProperty"));
    r.push(("worldSaveData.StructProperty.OilrigSaveData.MapProperty.Value.StructProperty.OilrigMap.MapProperty.Value.StructProperty", "StructProperty"));
    r.push(("worldSaveData.StructProperty.OilrigSaveData.StructProperty.OilrigMap.MapProperty.Value.StructProperty", "StructProperty"));
    r.push(("worldSaveData.StructProperty.SupplySaveData.MapProperty.Value.StructProperty.SupplyInfos.MapProperty.Key.StructProperty", "Guid"));
    r.push(("worldSaveData.StructProperty.SupplySaveData.MapProperty.Value.StructProperty.SupplyInfos.MapProperty.Value.StructProperty", "StructProperty"));
    r.push(("worldSaveData.StructProperty.GuildExtraSaveDataMap.MapProperty.Key.StructProperty", "Guid"));
    r.push(("worldSaveData.StructProperty.GuildExtraSaveDataMap.MapProperty.Value.StructProperty", "StructProperty"));
    r.push(("worldSaveData.StructProperty.InvaderDeclarationSaveData.StructProperty.ValidatedStartPointIds.StructProperty", "Guid"));
    r.push(("worldSaveData.StructProperty.InvaderDeclarationSaveData.StructProperty.ValidatedStartPointIds.SetProperty.StructProperty", "Guid"));
    r.push(("SaveData.StructProperty.Local_MaxFriendshipPalIds.MapProperty.Key.StructProperty", "StructProperty"));
    r.push(("SaveData.StructProperty.Local_MaxFriendshipPalIds.MapProperty.Value.StructProperty", "StructProperty"));
    assert(r@.map_values(|p: (&'static str, &'static str)| (p.0@, p.1@)) =~= hint_table());
    assert(pairs_view(r@) =~= hint_table());
    assert forall|j: int| 0 <= j < r@.len() implies (#[trigger] r@[j].0@, r@[j].1@) == hint_table()[j] by {
        assert(r@.map_values(|p: (&'static str, &'static str)| (p.0@, p.1@))[j] == (r@[j].0@, r@[j].1@));
    }
    r
}

/// Adds one hint: calls `HashMap::insert` with owned copies of the texts.
/// The map's contents are known only where vstd's model of hash-map keys
/// holds for `String`.
fn insert_hint(hints: &mut HashMap<String, String>, path: &str, hinted_type: &str)
    ensures
        obeys_key_model::<String>() ==> exists|k: String, v: String|
            k@ == path@ && v@ == hinted_type@ && #[trigger] final(hints)@ == old(hints)@.insert(k, v),
{
    let k = String::from_str(path);
    let v = String::from_str(hinted_type);
    proof {
        broadcast use vstd::std_specs::hash::axiom_random_state_builds_valid_hashers;
    }
    hints.insert(k, v);
}

/// The type hints Palworld's save needs to be read (see `hint_table`): as
/// far as vstd's model of hash-map keys holds for `String`, each key of the
/// map is a listed path with its listed type, and each listed path is a key.
pub fn palworld_hints() -> (r: HashMap<String, String>)
    ensures
        obeys_key_model::<String>() ==> forall|k: String| #[trigger] r@.contains_key(k) ==> is_hint(k@, r@[k]@),
        obeys_key_model::<String>() ==> forall|j: int| 0 <= j < hint_table().len() ==> has_path(r@, #[trigger] hint_table()[j].0),
{
    let table = hint_pairs();
    let mut hints: HashMap<String, String> = HashMap::new();
    let mut i: usize = 0;
    while i < table.len()
        invariant
            table@.len() == hint_table().len(),
            forall|j: int| 0 <= j < table@.len() ==> (#[trigger] table@[j].0@, table@[j].1@) == hint_table()[j],
            i <= table@.len(),
            obeys_key_model::<String>() ==> forall|k: String| #[trigger] hints@.contains_key(k) ==> exists|j: int|
                0 <= j < i && hint_table()[j] == (k@, hints@[k]@),
            obeys_key_model::<String>() ==> forall|j: int| 0 <= j < i ==> has_path(hints@, #[trigger] hint_table()[j].0),
        decreases table@.len() - i,
    {
        let (path, t) = table[i];
        assert((table@[i as int].0@, table@[i as int].1@) == hint_table()[i as int]);
        let ghost before = hints@;
        insert_hint(&mut hints, path, t);
        proof {
            if obeys_key_model::<String>() {
                let (k, v) = choose|k: String, v: String| k@ == path@ && v@ == t@ && #[trigger] hints@ == before.insert(k, v);
                assert forall|k2: String| #[trigger] hints@.contains_key(k2) implies exists|j: int|
                    0 <= j < i + 1 && hint_table()[j] == (k2@, hints@[k2]@) by {
                    if k2 == k {
                        assert(hint_table()[i as int] == (k2@, hints@[k2]@));
                    } else {
                        assert(before.contains_key(k2));
                    }
                }
                assert forall|j: int| 0 <= j < i + 1 implies has_path(hints@, #[trigger] hint_table()[j].0) by {
                    if j == i {
                        assert(hints@.contains_key(k));
                    } else {
                        assert(has_path(before, hint_table()[j].0));
                        let k3 = choose|k3: String| #[trigger] before.contains_key(k3) && k3@ == hint_table()[j].0;
                        assert(hints@.contains_key(k3));
                    }
                }
            }
        }
        i = i + 1;
    }
    proof {
        if obeys_key_model::<String>() {
            assert forall|k: String| #[trigger] hints@.contains_key(k) implies is_hint(k@, hints@[k]@) by {
                let j = choose|j: int| 0 <= j < i && hint_table()[j] == (k@, hints@[k]@);
            }
        }
    }
    hints
}

/// Whether two lists of names are equal, element by element.
pub fn same_names(a: &[String], b: &[String]) -> (r: bool)
    ensures
        r == (a@.map_values(|s: String| s@) == b@.map_values(|s: String| s@)),
{
    let ghost va = a@.map_values(|s: String| s@);
    let ghost vb = b@.map_values(|s: String| s@);
    if a.len() != b.len() {
        assert(va.len() != vb.len());
        return false;
    }
    let mut i: usize = 0;
    while i < a.len()
        invariant
            va == a@.map_values(|s: String| s@),
            vb == b@.map_values(|s: String| s@),
            a@.len() == b@.len(),
            i <= a@.len(),
            forall|j: int| 0 <= j < i ==> va[j] == vb[j],
        decreases a@.len() - i,
    {
        if !same_text(a[i].as_str(), b[i].as_str()) {
            assert(va[i as int] != vb[i as int]);
            return false;
        }
        i = i + 1;
    }
    assert(va =~= vb);
    true
}

/// Some run of the round trip on `raw` fails: the first read gives
/// nothing, the rewrite gives nothing, the second read of a rewritten
/// stream gives nothing, or the two reads give different names.
pub open spec fn roundtrip_failed<P, W>(raw: Seq<u8>, read_keys: P, rewrite: W) -> bool where
    P: Fn(Vec<u8>) -> Option<Vec<String>>,
    W: FnOnce(Vec<u8>) -> Option<Vec<u8>>,
{
    ||| exists|a1: Vec<u8>| a1@ == raw && #[trigger] call_ensures(read_keys, (a1,), None::<Vec<String>>)
    ||| exists|a2: Vec<u8>| a2@ == raw && #[trigger] call_ensures(rewrite, (a2,), None::<Vec<u8>>)
    ||| exists|a2: Vec<u8>, b: Vec<u8>|
        #![trigger call_ensures(rewrite, (a2,), Some(b)), call_ensures(read_keys, (b,), None::<Vec<String>>)]
        a2@ == raw && call_ensures(rewrite, (a2,), Some(b)) && call_ensures(read_keys, (b,), None::<Vec<String>>)
    ||| exists|a1: Vec<u8>, k1: Vec<String>, a2: Vec<u8>, b: Vec<u8>, k2: Vec<String>|
        #![trigger call_ensures(read_keys, (a1,), Some(k1)), call_ensures(rewrite, (a2,), Some(b)), call_ensures(read_keys, (b,), Some(k2))]
        {
            &&& a1@ == raw
            &&& a2@ == raw
            &&& call_ensures(read_keys, (a1,), Some(k1))
            &&& call_ensures(rewrite, (a2,), Some(b))
            &&& call_ensures(read_keys, (b,), Some(k2))
            &&& k1@.map_values(|s: String| s@) != k2@.map_values(|s: String| s@)
        }
}

impl SavFile {
    /// Whether the save survives reading, writing and reading again with the
    /// same top-level property names in the same order. `read_keys` reads a
    /// GVAS stream with Palworld's hints (see `hint_pairs`) and gives its
    /// top-level names; `rewrite` reads a stream and writes it back. Either
    /// gives `None` when the stream does not read or write. The result is
    /// `true` only when a run of the three steps succeeds with equal names,
    /// and `false` only when some run of them fails (see `roundtrip_failed`).
    pub fn roundtrip_ok<P, W>(&self, read_keys: P, rewrite: W) -> (r: bool) where
        P: Fn(Vec<u8>) -> Option<Vec<String>>,
        W: FnOnce(Vec<u8>) -> Option<Vec<u8>>,

        requires
            forall|v: Vec<u8>| call_requires(read_keys, (v,)),
            forall|v: Vec<u8>| call_requires(rewrite, (v,)),
        ensures
            r ==> exists|a1: Vec<u8>, k1: Vec<String>, a2: Vec<u8>, b: Vec<u8>, k2: Vec<String>|
                #![trigger call_ensures(read_keys, (a1,), Some(k1)), call_ensures(rewrite, (a2,), Some(b)), call_ensures(read_keys, (b,), Some(k2))]
                {
                    &&& a1@ == self.raw@
                    &&& a2@ == self.raw@
                    &&& call_ensures(read_keys, (a1,), Some(k1))
                    &&& call_ensures(rewrite, (a2,), Some(b))
                    &&& call_ensures(read_keys, (b,), Some(k2))
                    &&& k1@.map_values(|s: String| s@) == k2@.map_values(|s: String| s@)
                },
            !r ==> roundtrip_failed(self.raw@, read_keys, rewrite),
            (forall|a: Vec<u8>, x: Option<Vec<String>>| #[trigger] call_ensures(read_keys, (a,), x) ==> x is None) ==> !r,
            (forall|a: Vec<u8>, x: Option<Vec<u8>>| #[trigger] call_ensures(rewrite, (a,), x) ==> x is None) ==> !r,
    {
        let a = copy_raw(&self.raw);
        let ghost ag = a;
        let a1 = copy_raw(&self.raw);
        let ghost a1g = a1;
        let first = match read_keys(a1) {
            Some(k) => k,
            None => {
                assert(call_ensures(read_keys, (a1g,), None::<Vec<String>>));
                return false;
            },
        };
        let ghost k1 = first;
        let again = match rewrite(a) {
            Some(b) => b,
            None => {
                assert(call_ensures(rewrite, (ag,), None::<Vec<u8>>));
                return false;
            },
        };
        let ghost bg = again;
        let second = match read_keys(again) {
            Some(k) => k,
            None => {
                assert(call_ensures(read_keys, (bg,), None::<Vec<String>>));
                return false;
            },
        };
        let same = same_names(first.as_slice(), second.as_slice());
        proof {
            assert(call_ensures(read_keys, (a1g,), Some(k1)));
            assert(call_ensures(rewrite, (ag,), Some(bg)));
            assert(call_ensures(read_keys, (bg,), Some(second)));
            if same {
                assert(call_ensures(read_keys, (a1g,), Some(k1)));
                assert(call_ensures(rewrite, (ag,), Some(bg)));
                assert(call_ensures(read_keys, (bg,), Some(second)));
            }
        }
        same
    }
}

/// A copy of the bytes.
fn copy_raw(v: &Vec<u8>) -> (r: Vec<u8>)
    ensures
        r@ == v@,
{
    let mut out: Vec<u8> = Vec::new();
    out.extend_from_slice(v.as_slice());
    assert(out@ =~= v@);
    out
}

} // verus!
