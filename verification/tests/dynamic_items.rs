use palsave::dynamic_items::{derive_unused_guid, item_slot_dynamic_id, plan_dynamic_mappings, remap_item_slot_bytes};
use sha2::{Digest, Sha256};

fn slot_blob(name: &str, id: [u8; 16]) -> Vec<u8> {
    let mut b = vec![7u8; 8];
    b.extend_from_slice(&(name.len() as i32).to_le_bytes());
    b.extend_from_slice(name.as_bytes());
    b.extend_from_slice(&[0xEE; 16]);
    b.extend_from_slice(&id);
    b.extend_from_slice(&[1, 2, 3]);
    b
}

#[test]
fn item_slots_name_their_dynamic_id() {
    let b = slot_blob("Sword\0", [0x42; 16]);
    assert_eq!(item_slot_dynamic_id(&b), Some((12 + 6 + 16, [0x42; 16])));
    // A UTF-16 name takes two bytes per unit.
    let mut w = vec![0u8; 8];
    w.extend_from_slice(&(-2i32).to_le_bytes());
    w.extend_from_slice(&[0x41, 0, 0, 0]);
    w.extend_from_slice(&[0xEE; 16]);
    w.extend_from_slice(&[0x43; 16]);
    assert_eq!(item_slot_dynamic_id(&w), Some((12 + 4 + 16, [0x43; 16])));
    assert_eq!(item_slot_dynamic_id(&b[..20]), None);
    assert_eq!(item_slot_dynamic_id(&[0u8; 4]), None);
}

#[test]
fn item_slot_ids_are_remapped() {
    let mut b = slot_blob("Sword\0", [0x42; 16]);
    let mappings = vec![([0x41; 16], [0x51; 16]), ([0x42; 16], [0x52; 16]), ([0x42; 16], [0x53; 16])];
    remap_item_slot_bytes(&mut b, &mappings);
    assert_eq!(b, slot_blob("Sword\0", [0x52; 16]));
    let mut unmapped = slot_blob("Sword\0", [0x44; 16]);
    remap_item_slot_bytes(&mut unmapped, &mappings);
    assert_eq!(unmapped, slot_blob("Sword\0", [0x44; 16]));
}

fn candidate(domain: &str, source: &[u8; 16], target: &[u8; 16], counter: u32) -> [u8; 16] {
    let mut hasher = Sha256::new();
    hasher.update(b"PalworldServerManager/V4/");
    hasher.update(domain.as_bytes());
    hasher.update(source);
    hasher.update(target);
    hasher.update(counter.to_le_bytes());
    let digest = hasher.finalize();
    let mut out = [0u8; 16];
    out.copy_from_slice(&digest[..16]);
    out
}

#[test]
fn derived_ids_skip_used_candidates() {
    let (source, target) = ([1u8; 16], [2u8; 16]);
    let first = candidate("dynamic", &source, &target, 0);
    assert_eq!(derive_unused_guid("dynamic", &source, &target, &vec![]), Ok(first));
    let second = candidate("dynamic", &source, &target, 1);
    assert_eq!(derive_unused_guid("dynamic", &source, &target, &vec![first]), Ok(second));
    assert_ne!(derive_unused_guid("pal", &source, &target, &vec![]), Ok(first));
}

#[test]
fn dynamic_ids_keep_free_ones_and_derive_taken_ones() {
    let target = [9u8; 16];
    let (a, b) = ([0xA; 16], [0xB; 16]);
    let plan = plan_dynamic_mappings(&vec![a, b], vec![b], &target).unwrap();
    assert_eq!(plan, vec![(b, candidate("dynamic", &b, &target, 0))]);
    assert_eq!(plan_dynamic_mappings(&vec![a, b], vec![], &target).unwrap(), vec![]);
    // The same id twice: the second is taken by the first.
    let twice = plan_dynamic_mappings(&vec![a, a], vec![], &target).unwrap();
    assert_eq!(twice, vec![(a, candidate("dynamic", &a, &target, 0))]);
}
