//! Dynamic items moved with a character: the local dynamic id that an item
//! slot blob names, and fresh ids derived by hashing when an id is taken.

use vstd::prelude::*;
use crate::deletion::id_listed;
use crate::guid_bytes::{guid_at, guid_eq, write16, write_guid};
use crate::le::{i32_at, read_i32_at};
use crate::ownership::ids;
use crate::text::push_str;
use vstd::string::StringSliceAdditionalSpecFns;

verus! {

/// Where an item slot blob holds its local dynamic id, and the id: after a
/// 12-byte head ending in an FString length (bytes for a non-negative
/// length, two bytes per unit for a negative one), the string, and the
/// 16-byte created-world id. `None` when the blob is too short for it.
pub open spec fn item_slot_id(b: Seq<u8>) -> Option<(int, Seq<u8>)> {
    if b.len() < 12 {
        None
    } else {
        let l = i32_at(b, 8) as int;
        let string_bytes = if l >= 0 {
            l
        } else {
            -2 * l
        };
        let off = 12 + string_bytes + 16;
        if off + 16 > b.len() {
            None
        } else {
            Some((off, b.subrange(off, off + 16)))
        }
    }
}

/// The local dynamic id of an item slot blob, with its offset (see
/// `item_slot_id`).
pub fn item_slot_dynamic_id(bytes: &[u8]) -> (r: Option<(usize, [u8; 16])>)
    ensures
        match item_slot_id(bytes@) {
            Some((o, g)) => r matches Some((ro, rg)) && ro == o && rg@ == g,
            None => r is None,
        },
{
    if bytes.len() < 12 {
        return None;
    }
    let l = read_i32_at(bytes, 8);
    let string_bytes: u64 = if l >= 0 {
        l as u64
    } else {
        let n: i64 = -(l as i64);
        (n as u64) * 2
    };
    let len = bytes.len() as u64;
    if string_bytes > len || 12 + string_bytes + 32 > len {
        return None;
    }
    let off = (12 + string_bytes + 16) as usize;
    let mut id: [u8; 16] = [0u8; 16];
    let mut k: usize = 0;
    while k < 16
        invariant
            off + 16 <= bytes@.len(),
            bytes@.len() == bytes.len(),
            k <= 16,
            forall|q: int| 0 <= q < k ==> id@[q] == bytes@[off + q],
        decreases 16 - k,
    {
        id[k] = bytes[off + k];
        k = k + 1;
    }
    assert(id@ =~= bytes@.subrange(off as int, off + 16));
    Some((off, id))
}

/// The target of the first mapping whose source is `id`.
pub open spec fn mapped(ms: Seq<(Seq<u8>, Seq<u8>)>, id: Seq<u8>) -> Option<Seq<u8>>
    decreases ms.len(),
{
    if ms.len() == 0 {
        None
    } else if ms[0].0 == id {
        Some(ms[0].1)
    } else {
        mapped(ms.subrange(1, ms.len() as int), id)
    }
}

/// Mappings, as values.
pub open spec fn mappings_view(v: Seq<([u8; 16], [u8; 16])>) -> Seq<(Seq<u8>, Seq<u8>)> {
    v.map_values(|m: ([u8; 16], [u8; 16])| (m.0@, m.1@))
}

fn find_mapping(ms: &Vec<([u8; 16], [u8; 16])>, id: &[u8; 16]) -> (r: Option<[u8; 16]>)
    ensures
        match mapped(mappings_view(ms@), id@) {
            Some(t) => r matches Some(x) && x@ == t,
            None => r is None,
        },
{
    let ghost m = mappings_view(ms@);
    let mut i: usize = 0;
    assert(m.subrange(0, m.len() as int) =~= m);
    while i < ms.len()
        invariant
            m == mappings_view(ms@),
            i <= ms@.len(),
            mapped(m, id@) == mapped(m.subrange(i as int, m.len() as int), id@),
        decreases ms@.len() - i,
    {
        let ghost rest = m.subrange(i as int, m.len() as int);
        assert(rest.subrange(1, rest.len() as int) =~= m.subrange(i + 1, m.len() as int));
        assert(rest[0] == (ms@[i as int].0@, ms@[i as int].1@));
        if guid_eq(&ms[i].0, id) {
            return Some(ms[i].1);
        }
        i = i + 1;
    }
    None
}

/// Rewrites the local dynamic id of an item slot blob to its mapped target,
/// when it has one and a mapping names it.
pub fn remap_item_slot_bytes(bytes: &mut [u8], mappings: &Vec<([u8; 16], [u8; 16])>)
    ensures
        final(bytes)@ == match item_slot_id(old(bytes)@) {
            Some((o, g)) => match mapped(mappings_view(mappings@), g) {
                Some(t) => write16(old(bytes)@, o, t),
                None => old(bytes)@,
            },
            None => old(bytes)@,
        },
{
    let (off, id) = match item_slot_dynamic_id(bytes) {
        Some(x) => x,
        None => return,
    };
    match find_mapping(mappings, &id) {
        Some(t) => write_guid(bytes, off, &t),
        None => {},
    }
}

/// The SHA-256 digest of `data`.
pub uninterp spec fn sha256_of(data: Seq<u8>) -> Seq<u8>;

/// The SHA-256 digest of `data`: calls `sha2::Sha256::digest`. The digest
/// depends on the bytes alone; it is named (`sha256_of`), not written out.
#[verifier::external_body]
fn sha256(data: &[u8]) -> (r: [u8; 32])
    ensures
        r@ == sha256_of(data@),
{
    <sha2::Sha256 as sha2::Digest>::digest(data).into()
}

/// The bytes that every derived id hashes first.
pub const DERIVE_PREFIX: [u8; 25] = [
    80, 97, 108, 119, 111, 114, 108, 100, 83, 101, 114, 118, 101, 114, 77, 97, 110, 97, 103, 101, 114, 47, 86, 52, 47,
];

/// The little-endian bytes of `c`.
pub open spec fn le_u32(c: u32) -> Seq<u8> {
    seq![(c % 256) as u8, ((c / 256) % 256) as u8, ((c / 65536) % 256) as u8, (c / 16777216) as u8]
}

/// The id derived for the counter `c`: the first 16 bytes of the digest of
/// the prefix, the domain, the source id, the target player and `c`.
pub open spec fn derived(domain: Seq<u8>, source: Seq<u8>, target: Seq<u8>, c: u32) -> Seq<u8> {
    sha256_of(DERIVE_PREFIX@ + domain + source + target + le_u32(c)).subrange(0, 16)
}

/// An id that may be given: not zero, and not among `used`.
pub open spec fn usable(g: Seq<u8>, used: Seq<Seq<u8>>) -> bool {
    g != Seq::new(16, |i: int| 0u8) && !used.contains(g)
}

/// The derived id of the first counter from `c` up to 65535 whose id is
/// usable.
pub open spec fn first_usable(domain: Seq<u8>, source: Seq<u8>, target: Seq<u8>, used: Seq<Seq<u8>>, c: int) -> Option<Seq<u8>>
    decreases 65536 - c,
{
    if c < 0 || c > 65535 {
        None
    } else if usable(derived(domain, source, target, c as u32), used) {
        Some(derived(domain, source, target, c as u32))
    } else {
        first_usable(domain, source, target, used, c + 1)
    }
}

fn le_bytes(c: u32) -> (r: [u8; 4])
    ensures
        r@ == le_u32(c),
{
    let r: [u8; 4] = [(c % 256) as u8, ((c / 256) % 256) as u8, ((c / 65536) % 256) as u8, (c / 16777216) as u8];
    assert(r@ =~= le_u32(c));
    r
}

fn push_all(out: &mut Vec<u8>, more: &[u8])
    ensures
        final(out)@ == old(out)@ + more@,
{
    let mut i: usize = 0;
    while i < more.len()
        invariant
            i <= more@.len(),
            out@ == old(out)@ + more@.take(i as int),
        decreases more@.len() - i,
    {
        out.push(more[i]);
        assert(more@.take(i + 1) =~= more@.take(i as int).push(more@[i as int]));
        i = i + 1;
    }
    assert(more@.take(more@.len() as int) =~= more@);
}

fn is_zero_id(g: &[u8; 16]) -> (r: bool)
    ensures
        r == (g@ == Seq::new(16, |i: int| 0u8)),
{
    let zero: [u8; 16] = [0u8; 16];
    assert(zero@ =~= Seq::new(16, |i: int| 0u8));
    guid_eq(g, &zero)
}

/// An id for `source` that none of `used` holds (see `first_usable`): the
/// first of up to 65536 hashed candidates that is neither zero nor used.
pub fn derive_unused_guid(domain: &str, source: &[u8; 16], target_uid: &[u8; 16], used: &Vec<[u8; 16]>) -> (r: Result<[u8; 16], String>)
    ensures
        match first_usable(domain.spec_bytes(), source@, target_uid@, ids(used@), 0) {
            Some(g) => r matches Ok(x) && x@ == g,
            None => r matches Err(e) && e@ == "无法为 "@ + domain@ + " 生成无冲突 GUID"@,
        },
{
    let ghost d = domain.spec_bytes();
    let mut c: u32 = 0;
    loop
        invariant
            d == domain.spec_bytes(),
            c <= 65536,
            first_usable(d, source@, target_uid@, ids(used@), 0) == first_usable(d, source@, target_uid@, ids(used@), c as int),
        ensures
            first_usable(d, source@, target_uid@, ids(used@), 0) is None,
        decreases 65536 - c,
    {
        if c > 65535 {
            break;
        }
        let mut data: Vec<u8> = Vec::new();
        push_all(&mut data, DERIVE_PREFIX.as_slice());
        push_all(&mut data, domain.as_bytes());
        push_all(&mut data, source.as_slice());
        push_all(&mut data, target_uid.as_slice());
        let lb = le_bytes(c);
        push_all(&mut data, lb.as_slice());
        let digest = sha256(data.as_slice());
        let mut candidate: [u8; 16] = [0u8; 16];
        let mut k: usize = 0;
        while k < 16
            invariant
                k <= 16,
                forall|q: int| 0 <= q < k ==> candidate@[q] == digest@[q],
            decreases 16 - k,
        {
            candidate[k] = digest[k];
            k = k + 1;
        }
        assert(candidate@ =~= digest@.subrange(0, 16));
        assert(data@ =~= DERIVE_PREFIX@ + d + source@ + target_uid@ + le_u32(c));
        if !is_zero_id(&candidate) && !id_listed(used, &candidate) {
            return Ok(candidate);
        }
        c = c + 1;
    }
    let mut msg = String::from_str("无法为 ");
    push_str(&mut msg, domain);
    push_str(&mut msg, " 生成无冲突 GUID");
    Err(msg)
}

/// Planning new ids for the dynamic items `ids` moved into a world whose
/// items already hold `used`: an id that is free stays, a taken one gets a
/// derived id (see `first_usable`); each new id is taken from then on. The
/// ids in use afterwards and the mappings of the ids that changed; `None`
/// when no id can be derived.
pub open spec fn plan_state(ids: Seq<Seq<u8>>, used: Seq<Seq<u8>>, target: Seq<u8>, domain: Seq<u8>) -> Option<(Seq<Seq<u8>>, Seq<(Seq<u8>, Seq<u8>)>)>
    decreases ids.len(),
{
    if ids.len() == 0 {
        Some((used, Seq::empty()))
    } else {
        match plan_state(ids.drop_last(), used, target, domain) {
            None => None,
            Some((u, m)) => {
                let s = ids.last();
                let t = if u.contains(s) {
                    first_usable(domain, s, target, u, 0)
                } else {
                    Some(s)
                };
                match t {
                    None => None,
                    Some(t) => Some((u.push(t), if s != t { m.push((s, t)) } else { m })),
                }
            },
        }
    }
}

proof fn lemma_plan_stuck(ids: Seq<Seq<u8>>, n: int, used: Seq<Seq<u8>>, target: Seq<u8>, domain: Seq<u8>)
    requires
        0 <= n <= ids.len(),
        plan_state(ids.take(n), used, target, domain) is None,
    ensures
        plan_state(ids, used, target, domain) is None,
    decreases ids.len() - n,
{
    if n < ids.len() {
        assert(ids.take(n + 1).drop_last() =~= ids.take(n));
        lemma_plan_stuck(ids, n + 1, used, target, domain);
    } else {
        assert(ids.take(n) =~= ids);
    }
}

/// The bytes of `dynamic`, the domain of dynamic item ids.
pub open spec fn dynamic_domain() -> Seq<u8> {
    seq![100u8, 121u8, 110u8, 97u8, 109u8, 105u8, 99u8]
}

/// The id mappings for the ids `source_ids` moved into a world that holds
/// `used`, new ids derived in the domain `domain` (see `plan_state`).
fn plan_mappings(domain: &str, source_ids: &Vec<[u8; 16]>, in_use: Vec<[u8; 16]>, target_uid: &[u8; 16]) -> (r: Result<Vec<([u8; 16], [u8; 16])>, String>)
    ensures
        match plan_state(ids(source_ids@), ids(in_use@), target_uid@, domain.spec_bytes()) {
            Some((_, m)) => r matches Ok(v) && mappings_view(v@) == m,
            None => r matches Err(e) && e@ == "无法为 "@ + domain@ + " 生成无冲突 GUID"@,
        },
{
    let ghost all = ids(source_ids@);
    let ghost dom = domain.spec_bytes();
    let ghost u0 = ids(in_use@);
    let mut used = in_use;
    let mut out: Vec<([u8; 16], [u8; 16])> = Vec::new();
    let mut i: usize = 0;
    assert(all.take(0) =~= Seq::<Seq<u8>>::empty());
    assert(mappings_view(out@) =~= Seq::<(Seq<u8>, Seq<u8>)>::empty());
    while i < source_ids.len()
        invariant
            all == ids(source_ids@),
            dom == domain.spec_bytes(),
            u0 == ids(in_use@),
            i <= source_ids@.len(),
            plan_state(all.take(i as int), u0, target_uid@, dom) == Some((ids(used@), mappings_view(out@))),
        decreases source_ids@.len() - i,
    {
        assert(all.take(i + 1).drop_last() =~= all.take(i as int));
        assert(all.take(i + 1).last() == source_ids@[i as int]@);
        let s = source_ids[i];
        let taken = id_listed(&used, &s);
        let mut t = s;
        if taken {
            let derived = derive_unused_guid(domain, &s, target_uid, &used);
            match derived {
                Ok(x) => {
                    t = x;
                },
                Err(e) => {
                    proof {
                        assert(first_usable(dom, s@, target_uid@, ids(used@), 0) is None);
                        assert(plan_state(all.take(i + 1), u0, target_uid@, dom) is None);
                        lemma_plan_stuck(all, i + 1, u0, target_uid@, dom);
                        assert(plan_state(all, u0, target_uid@, dom) is None);
                    }
                    return Err(e);
                },
            }
        }
        let ghost before_used = ids(used@);
        let ghost before_out = mappings_view(out@);
        used.push(t);
        assert(ids(used@) =~= before_used.push(t@));
        if !guid_eq(&s, &t) {
            out.push((s, t));
            assert(mappings_view(out@) =~= before_out.push((s@, t@)));
        }
        i = i + 1;
    }
    assert(all.take(source_ids@.len() as int) =~= all);
    assert(plan_state(all, u0, target_uid@, dom) == Some((ids(used@), mappings_view(out@))));
    Ok(out)
}


/// The id mappings for the dynamic items `source_ids` moved into a world
/// whose items hold `used` (see `plan_state`, with the domain `dynamic`).
pub fn plan_dynamic_mappings(source_ids: &Vec<[u8; 16]>, in_use: Vec<[u8; 16]>, target_uid: &[u8; 16]) -> (r: Result<Vec<([u8; 16], [u8; 16])>, String>)
    ensures
        match plan_state(ids(source_ids@), ids(in_use@), target_uid@, dynamic_domain()) {
            Some((_, m)) => r matches Ok(v) && mappings_view(v@) == m,
            None => r is Err,
        },
{
    let domain = "dynamic";
    proof {
        reveal_strlit("dynamic");
        vstd::string::is_ascii_spec_bytes(domain);
        assert(domain.spec_bytes() =~= dynamic_domain());
    }
    plan_mappings(domain, source_ids, in_use, target_uid)
}

/// The bytes of `pal`, the domain of pal instance ids.
pub open spec fn pal_domain() -> Seq<u8> {
    seq![112u8, 97u8, 108u8]
}

/// The instance mappings for the pals `source_instances` moved into a world
/// whose characters hold the instances `in_use` (see `plan_state`, with the
/// domain `pal`): a free instance stays, a taken one gets a derived id.
pub fn plan_pal_mappings(source_instances: &Vec<[u8; 16]>, in_use: Vec<[u8; 16]>, target_uid: &[u8; 16]) -> (r: Result<Vec<([u8; 16], [u8; 16])>, String>)
    ensures
        match plan_state(ids(source_instances@), ids(in_use@), target_uid@, pal_domain()) {
            Some((_, m)) => r matches Ok(v) && mappings_view(v@) == m,
            None => r matches Err(e) && e@ == "无法为 pal 生成无冲突 GUID"@,
        },
{
    let domain = "pal";
    proof {
        reveal_strlit("pal");
        vstd::string::is_ascii_spec_bytes(domain);
        assert(domain.spec_bytes() =~= pal_domain());
        reveal_strlit("无法为 ");
        reveal_strlit(" 生成无冲突 GUID");
        reveal_strlit("无法为 pal 生成无冲突 GUID");
        assert("无法为 "@ + "pal"@ + " 生成无冲突 GUID"@ =~= "无法为 pal 生成无冲突 GUID"@);
    }
    plan_mappings(domain, source_instances, in_use, target_uid)
}
} // verus!
