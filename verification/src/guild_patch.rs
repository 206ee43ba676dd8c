//! Rewriting player identities inside a guild group's `RawData`.
//!
//! Two rewrites exist. The host fix swaps two player uids everywhere the blob
//! names a player, and rebinds character handles by their instance ids. The
//! guild recovery moves one player (the original host) onto another player's
//! identity, and refuses when the blob does not hold exactly the shape it
//! expects. Both read the whole layout first and write nothing on error.

use vstd::prelude::*;
use crate::guid_bytes::{
    apply_guid_writes, apply_writes, lemma_apply_writes_outside, outside_writes, guid_at, guid_eq, guid_from, guid_matches,
    lemma_apply_writes_len, lemma_writes_view_push, writes_view, writes_within,
};
use crate::guild_layout::{
    count, fstring, guild_layout, head_layout, lemma_members_end_bounds, member_at,
    members_end, parse_guild_head, parse_guild_tail, parse_guild_tail_any, tail_layout,
    count_at, fstring_end, fstring_size, take, take_end, GuildHead, GuildTail,
};

verus! {

/// Outcome of moving the original host onto the target identity.
#[derive(Clone, Copy, PartialEq, Eq, Debug)]
pub struct GuildPatchResult {
    /// Number of GUID fields written.
    pub changed: usize,
    /// Whether the original host was the guild admin.
    pub source_was_admin: bool,
}

/// The write that swaps `x` and `y` in the field at `o`, if it holds either.
pub open spec fn swap_write(b: Seq<u8>, o: int, x: Seq<u8>, y: Seq<u8>) -> Seq<(int, Seq<u8>)> {
    if guid_at(b, o) == x {
        seq![(o, y)]
    } else if guid_at(b, o) == y {
        seq![(o, x)]
    } else {
        Seq::empty()
    }
}

/// Every write of `ws` writes `x` or `y`.
pub open spec fn writes_only(ws: Seq<(int, Seq<u8>)>, x: Seq<u8>, y: Seq<u8>) -> bool {
    forall|j: int| 0 <= j < ws.len() ==> #[trigger] ws[j].1 == x || ws[j].1 == y
}

proof fn lemma_writes_only_add(a: Seq<(int, Seq<u8>)>, c: Seq<(int, Seq<u8>)>, x: Seq<u8>, y: Seq<u8>)
    requires
        writes_only(a, x, y),
        writes_only(c, x, y),
    ensures
        writes_only(a + c, x, y),
{
    assert forall|j: int| 0 <= j < (a + c).len() implies #[trigger] (a + c)[j].1 == x || (a + c)[j].1 == y by {
        if j < a.len() {
            assert((a + c)[j] == a[j]);
        } else {
            assert((a + c)[j] == c[j - a.len()]);
        }
    }
}

/// Handle rebinding of the host fix: a handle whose instance id is `xi` gets
/// uid `y`, one whose instance id is `yi` gets uid `x`.
pub open spec fn handle_swap_writes(
    b: Seq<u8>,
    hs: int,
    k: nat,
    x: Seq<u8>,
    y: Seq<u8>,
    xi: Option<Seq<u8>>,
    yi: Option<Seq<u8>>,
) -> Seq<(int, Seq<u8>)>
    decreases k,
{
    if k == 0 {
        Seq::empty()
    } else {
        let h = hs + 32 * (k - 1);
        let inst = guid_at(b, h + 16);
        handle_swap_writes(b, hs, (k - 1) as nat, x, y, xi, yi) + if xi == Some(inst) {
            seq![(h, y)]
        } else if yi == Some(inst) {
            seq![(h, x)]
        } else {
            Seq::empty()
        }
    }
}

/// Swaps of the owner uid of each of the `k` map markers.
pub open spec fn marker_swap_writes(b: Seq<u8>, ms: int, k: nat, x: Seq<u8>, y: Seq<u8>) -> Seq<
    (int, Seq<u8>),
>
    decreases k,
{
    if k == 0 {
        Seq::empty()
    } else {
        marker_swap_writes(b, ms, (k - 1) as nat, x, y) + swap_write(
            b,
            ms + 60 * (k - 1) + 44,
            x,
            y,
        )
    }
}

/// Swaps of the uid of each of the `k` members.
pub open spec fn member_swap_writes(
    b: Seq<u8>,
    s: int,
    k: nat,
    w: bool,
    x: Seq<u8>,
    y: Seq<u8>,
) -> Seq<(int, Seq<u8>)>
    decreases k,
{
    if k == 0 {
        Seq::empty()
    } else {
        member_swap_writes(b, s, (k - 1) as nat, w, x, y) + swap_write(
            b,
            member_at(b, s, (k - 1) as nat, w),
            x,
            y,
        )
    }
}

proof fn lemma_handle_writes_only(b: Seq<u8>, hs: int, k: nat, x: Seq<u8>, y: Seq<u8>, xi: Option<Seq<u8>>, yi: Option<Seq<u8>>)
    ensures
        writes_only(handle_swap_writes(b, hs, k, x, y, xi, yi), x, y),
    decreases k,
{
    if k > 0 {
        lemma_handle_writes_only(b, hs, (k - 1) as nat, x, y, xi, yi);
        let h = hs + 32 * (k - 1);
        let inst = guid_at(b, h + 16);
        let step: Seq<(int, Seq<u8>)> = if xi == Some(inst) {
            seq![(h, y)]
        } else if yi == Some(inst) {
            seq![(h, x)]
        } else {
            Seq::empty()
        };
        assert(writes_only(step, x, y));
        lemma_writes_only_add(handle_swap_writes(b, hs, (k - 1) as nat, x, y, xi, yi), step, x, y);
    }
}

proof fn lemma_marker_writes_only(b: Seq<u8>, ms: int, k: nat, x: Seq<u8>, y: Seq<u8>)
    ensures
        writes_only(marker_swap_writes(b, ms, k, x, y), x, y),
    decreases k,
{
    if k > 0 {
        lemma_marker_writes_only(b, ms, (k - 1) as nat, x, y);
        let o = ms + 60 * (k - 1) + 44;
        assert(writes_only(swap_write(b, o, x, y), x, y));
        lemma_writes_only_add(marker_swap_writes(b, ms, (k - 1) as nat, x, y), swap_write(b, o, x, y), x, y);
    }
}

proof fn lemma_member_writes_only(b: Seq<u8>, st: int, k: nat, w: bool, x: Seq<u8>, y: Seq<u8>)
    ensures
        writes_only(member_swap_writes(b, st, k, w, x, y), x, y),
    decreases k,
{
    if k > 0 {
        lemma_member_writes_only(b, st, (k - 1) as nat, w, x, y);
        let o = member_at(b, st, (k - 1) as nat, w);
        assert(writes_only(swap_write(b, o, x, y), x, y));
        lemma_writes_only_add(member_swap_writes(b, st, (k - 1) as nat, w, x, y), swap_write(b, o, x, y), x, y);
    }
}

proof fn lemma_guild_writes_only(b: Seq<u8>, x: Seq<u8>, y: Seq<u8>, xi: Option<Seq<u8>>, yi: Option<Seq<u8>>)
    ensures
        guild_swap_writes(b, x, y, xi, yi) matches Some(ws) ==> writes_only(ws, x, y),
{
    if let Some((h, t)) = guild_layout(b) {
        let a = handle_swap_writes(b, h.handles_start as int, h.handles as nat, x, y, xi, yi);
        let l = swap_write(b, h.last_modifier as int, x, y);
        let m = marker_swap_writes(b, h.markers_start as int, h.markers as nat, x, y);
        let d = swap_write(b, t.admin as int, x, y);
        let e = member_swap_writes(b, t.members_start as int, t.members as nat, t.with_roles, x, y);
        lemma_handle_writes_only(b, h.handles_start as int, h.handles as nat, x, y, xi, yi);
        lemma_marker_writes_only(b, h.markers_start as int, h.markers as nat, x, y);
        lemma_member_writes_only(b, t.members_start as int, t.members as nat, t.with_roles, x, y);
        assert(writes_only(l, x, y));
        assert(writes_only(d, x, y));
        lemma_writes_only_add(a, l, x, y);
        lemma_writes_only_add(a + l, m, x, y);
        lemma_writes_only_add(a + l + m, d, x, y);
        lemma_writes_only_add(a + l + m + d, e, x, y);
    }
}

/// All writes of the host fix, in the order the blob holds the fields.
pub open spec fn guild_swap_writes(
    b: Seq<u8>,
    x: Seq<u8>,
    y: Seq<u8>,
    xi: Option<Seq<u8>>,
    yi: Option<Seq<u8>>,
) -> Option<Seq<(int, Seq<u8>)>> {
    match guild_layout(b) {
        None => None,
        Some((h, t)) => Some(
            handle_swap_writes(b, h.handles_start as int, h.handles as nat, x, y, xi, yi)
                + swap_write(b, h.last_modifier as int, x, y) + marker_swap_writes(
                b,
                h.markers_start as int,
                h.markers as nat,
                x,
                y,
            ) + swap_write(b, t.admin as int, x, y) + member_swap_writes(
                b,
                t.members_start as int,
                t.members as nat,
                t.with_roles,
                x,
                y,
            ),
        ),
    }
}

/// Appends the swap of the field at `o`.
fn push_swap(
    b: &[u8],
    o: usize,
    x: &[u8; 16],
    y: &[u8; 16],
    ws: &mut Vec<(usize, [u8; 16])>,
)
    requires
        o + 16 <= b@.len(),
        writes_within(writes_view(old(ws)@), b@.len() as int),
    ensures
        writes_view(final(ws)@) == writes_view(old(ws)@) + swap_write(b@, o as int, x@, y@),
        writes_within(writes_view(final(ws)@), b@.len() as int),
{
    let ghost before = ws@;
    if guid_matches(b, o, x) {
        ws.push((o, *y));
        proof {
            lemma_writes_view_push(before, (o, *y));
        }
    } else if guid_matches(b, o, y) {
        ws.push((o, *x));
        proof {
            lemma_writes_view_push(before, (o, *x));
        }
    }
    assert(writes_view(ws@) =~= writes_view(before) + swap_write(b@, o as int, x@, y@));
}

/// Whether an optional GUID is present and equal to the field at `o`.
fn opt_matches(b: &[u8], o: usize, g: Option<&[u8; 16]>) -> (r: bool)
    requires
        o + 16 <= b@.len(),
    ensures
        r == (opt_view(g) == Some(guid_at(b@, o as int))),
{
    match g {
        Some(g) => guid_matches(b, o, g),
        None => false,
    }
}

/// The bytes of an optional GUID.
pub open spec fn opt_view(g: Option<&[u8; 16]>) -> Option<Seq<u8>> {
    match g {
        Some(g) => Some(g@),
        None => None,
    }
}

/// Swaps the player uids `old_uid` and `new_uid` everywhere the guild blob names a
/// player (admin, members, last modifier, marker owners), and rebinds each
/// character handle whose instance id is `old_instance` to `new_uid` and
/// each whose instance id is `new_instance` to `old_uid`. On error the blob is
/// unchanged. Returns the number of fields written.
pub fn patch_guild_rawdata(
    bytes: &mut Vec<u8>,
    old_uid: &[u8; 16],
    new_uid: &[u8; 16],
    old_instance: Option<&[u8; 16]>,
    new_instance: Option<&[u8; 16]>,
) -> (r: Result<usize, String>)
    ensures
        match guild_swap_writes(old(bytes)@, old_uid@, new_uid@, opt_view(old_instance), opt_view(new_instance)) {
            Some(ws) => r == Ok::<usize, String>(ws.len() as usize) && final(bytes)@ == apply_writes(old(bytes)@, ws),
            None => r is Err && final(bytes)@ == old(bytes)@,
        },
        final(bytes)@.len() == old(bytes)@.len(),
        guild_swap_writes(old(bytes)@, old_uid@, new_uid@, opt_view(old_instance), opt_view(new_instance)) matches Some(ws)
            ==> writes_only(ws, old_uid@, new_uid@) && writes_within(ws, old(bytes)@.len() as int) && forall|p: int|
            0 <= p < old(bytes)@.len() && outside_writes(ws, p) ==> #[trigger] final(bytes)@[p] == old(bytes)@[p],
{
    let ghost orig = bytes@;
    proof {
        lemma_guild_writes_only(orig, old_uid@, new_uid@, opt_view(old_instance), opt_view(new_instance));
    }
    let head = match parse_guild_head(bytes.as_slice()) {
        Ok(h) => h,
        Err(e) => return Err(e),
    };
    let (tail, members) = match parse_guild_tail_any(bytes.as_slice(), head.tail_start) {
        Ok(t) => t,
        Err(e) => return Err(e),
    };
    let b = bytes.as_slice();
    let n = b.len();
    let ghost xi = opt_view(old_instance);
    let ghost yi = opt_view(new_instance);
    let mut ws: Vec<(usize, [u8; 16])> = Vec::new();
    let mut i: usize = 0;
    while i < head.handles
        invariant
            b@ == orig,
            n == orig.len(),
            head_layout(orig) == Some(head),
            xi == opt_view(old_instance),
            yi == opt_view(new_instance),
            i <= head.handles,
            writes_within(writes_view(ws@), n as int),
            writes_view(ws@) == handle_swap_writes(
                orig,
                head.handles_start as int,
                i as nat,
                old_uid@,
                new_uid@,
                xi,
                yi,
            ),
        decreases head.handles - i,
    {
        let h = head.handles_start + 32 * i;
        let ghost before = ws@;
        let ghost step: Seq<(int, Seq<u8>)> = if xi == Some(guid_at(orig, h + 16)) {
            seq![(h as int, new_uid@)]
        } else if yi == Some(guid_at(orig, h + 16)) {
            seq![(h as int, old_uid@)]
        } else {
            Seq::empty()
        };
        assert(handle_swap_writes(orig, head.handles_start as int, (i + 1) as nat, old_uid@, new_uid@, xi, yi)
            == handle_swap_writes(orig, head.handles_start as int, i as nat, old_uid@, new_uid@, xi, yi) + step);
        if opt_matches(b, h + 16, old_instance) {
            ws.push((h, *new_uid));
            proof {
                lemma_writes_view_push(before, (h, *new_uid));
                assert(step =~= seq![(h as int, new_uid@)]);
            }
        } else if opt_matches(b, h + 16, new_instance) {
            ws.push((h, *old_uid));
            proof {
                lemma_writes_view_push(before, (h, *old_uid));
                assert(step =~= seq![(h as int, old_uid@)]);
            }
        } else {
            assert(step =~= Seq::<(int, Seq<u8>)>::empty());
        }
        assert(writes_view(ws@) =~= writes_view(before) + step);
        assert(writes_view(ws@) =~= handle_swap_writes(
            orig,
            head.handles_start as int,
            (i + 1) as nat,
            old_uid@,
            new_uid@,
            xi,
            yi,
        ));
        i = i + 1;
    }
    let ghost w1 = writes_view(ws@);
    push_swap(b, head.last_modifier, old_uid, new_uid, &mut ws);
    let ghost w2 = writes_view(ws@);
    let mut j: usize = 0;
    while j < head.markers
        invariant
            b@ == orig,
            n == orig.len(),
            head_layout(orig) == Some(head),
            j <= head.markers,
            writes_within(writes_view(ws@), n as int),
            writes_view(ws@) == w2 + marker_swap_writes(
                orig,
                head.markers_start as int,
                j as nat,
                old_uid@,
                new_uid@,
            ),
        decreases head.markers - j,
    {
        let ghost before = writes_view(ws@);
        push_swap(b, head.markers_start + 60 * j + 44, old_uid, new_uid, &mut ws);
        assert(writes_view(ws@) =~= w2 + marker_swap_writes(
            orig,
            head.markers_start as int,
            (j + 1) as nat,
            old_uid@,
            new_uid@,
        ));
        j = j + 1;
    }
    let ghost w3 = writes_view(ws@);
    push_swap(b, tail.admin, old_uid, new_uid, &mut ws);
    let ghost w4 = writes_view(ws@);
    let mut k: usize = 0;
    while k < members.len()
        invariant
            b@ == orig,
            n == orig.len(),
            tail_layout(orig, head.tail_start as int, tail.with_roles) == Some(tail),
            members@.len() == tail.members,
            forall|m: int|
                0 <= m < members@.len() ==> members@[m] == member_at(
                    orig,
                    tail.members_start as int,
                    m as nat,
                    tail.with_roles,
                ),
            k <= members@.len(),
            writes_within(writes_view(ws@), n as int),
            writes_view(ws@) == w4 + member_swap_writes(
                orig,
                tail.members_start as int,
                k as nat,
                tail.with_roles,
                old_uid@,
                new_uid@,
            ),
        decreases members@.len() - k,
    {
        let o = members[k];
        proof {
            lemma_members_end_bounds(
                orig,
                tail.members_start as int,
                k as nat,
                tail.members as nat,
                tail.with_roles,
            );
        }
        push_swap(b, o, old_uid, new_uid, &mut ws);
        assert(writes_view(ws@) =~= w4 + member_swap_writes(
            orig,
            tail.members_start as int,
            (k + 1) as nat,
            tail.with_roles,
            old_uid@,
            new_uid@,
        ));
        k = k + 1;
    }
    assert(writes_view(ws@) =~= guild_swap_writes(orig, old_uid@, new_uid@, xi, yi)->0);
    apply_guid_writes(bytes, &ws);
    proof {
        let wv = writes_view(ws@);
        assert forall|p: int| 0 <= p < orig.len() && outside_writes(wv, p) implies #[trigger] bytes@[p] == orig[p] by {
            lemma_apply_writes_outside(orig, wv, p);
        }
    }
    Ok(ws.len())
}

/// Whether the handle at `h` names the player `u` or the instance `i`.
pub open spec fn handle_names(b: Seq<u8>, h: int, u: Seq<u8>, i: Seq<u8>) -> bool {
    guid_at(b, h) == u || guid_at(b, h + 16) == i
}

/// Handle rebinding of the recovery: a handle that names the source player or
/// instance gets the target uid and instance id.
pub open spec fn handle_restore_writes(
    b: Seq<u8>,
    hs: int,
    k: nat,
    su: Seq<u8>,
    tu: Seq<u8>,
    si: Seq<u8>,
    ti: Seq<u8>,
) -> Seq<(int, Seq<u8>)>
    decreases k,
{
    if k == 0 {
        Seq::empty()
    } else {
        let h = hs + 32 * (k - 1);
        handle_restore_writes(b, hs, (k - 1) as nat, su, tu, si, ti) + if handle_names(
            b,
            h,
            su,
            si,
        ) {
            seq![(h, tu), (h + 16, ti)]
        } else {
            Seq::empty()
        }
    }
}

/// Whether one of the first `k` handles names the source.
pub open spec fn handles_name_source(b: Seq<u8>, hs: int, k: nat, su: Seq<u8>, si: Seq<u8>) -> bool
    decreases k,
{
    k > 0 && (handles_name_source(b, hs, (k - 1) as nat, su, si) || handle_names(
        b,
        hs + 32 * (k - 1),
        su,
        si,
    ))
}

/// Whether one of the first `k` handles names the target without naming the source.
pub open spec fn handles_name_target(
    b: Seq<u8>,
    hs: int,
    k: nat,
    su: Seq<u8>,
    tu: Seq<u8>,
    si: Seq<u8>,
    ti: Seq<u8>,
) -> bool
    decreases k,
{
    k > 0 && (handles_name_target(b, hs, (k - 1) as nat, su, tu, si, ti) || (!handle_names(
        b,
        hs + 32 * (k - 1),
        su,
        si,
    ) && handle_names(b, hs + 32 * (k - 1), tu, ti)))
}

/// The write that moves the field at `o` from `su` to `tu`, if it holds `su`.
pub open spec fn replace_write(b: Seq<u8>, o: int, su: Seq<u8>, tu: Seq<u8>) -> Seq<
    (int, Seq<u8>),
> {
    if guid_at(b, o) == su {
        seq![(o, tu)]
    } else {
        Seq::empty()
    }
}

/// Moves of the owner uid of each of the `k` map markers.
pub open spec fn marker_replace_writes(b: Seq<u8>, ms: int, k: nat, su: Seq<u8>, tu: Seq<u8>) -> Seq<
    (int, Seq<u8>),
>
    decreases k,
{
    if k == 0 {
        Seq::empty()
    } else {
        marker_replace_writes(b, ms, (k - 1) as nat, su, tu) + replace_write(
            b,
            ms + 60 * (k - 1) + 44,
            su,
            tu,
        )
    }
}

/// Moves of the uid of each of the `k` members.
pub open spec fn member_replace_writes(
    b: Seq<u8>,
    s: int,
    k: nat,
    w: bool,
    su: Seq<u8>,
    tu: Seq<u8>,
) -> Seq<(int, Seq<u8>)>
    decreases k,
{
    if k == 0 {
        Seq::empty()
    } else {
        member_replace_writes(b, s, (k - 1) as nat, w, su, tu) + replace_write(
            b,
            member_at(b, s, (k - 1) as nat, w),
            su,
            tu,
        )
    }
}

/// Whether one of the first `k` members has uid `g`.
pub open spec fn members_contain(b: Seq<u8>, s: int, k: nat, w: bool, g: Seq<u8>) -> bool
    decreases k,
{
    k > 0 && (members_contain(b, s, (k - 1) as nat, w, g) || guid_at(
        b,
        member_at(b, s, (k - 1) as nat, w),
    ) == g)
}

/// The recovery writes of the tail of one revision, and whether the source
/// was the admin; `None` when the tail does not parse, the source is not a
/// member, or the target already is one.
pub open spec fn tail_restore(
    b: Seq<u8>,
    start: int,
    su: Seq<u8>,
    tu: Seq<u8>,
    restore_admin: bool,
    w: bool,
) -> Option<(Seq<(int, Seq<u8>)>, bool)> {
    match tail_layout(b, start, w) {
        None => None,
        Some(t) => {
            let was_admin = guid_at(b, t.admin as int) == su;
            let s = t.members_start as int;
            let k = t.members as nat;
            if members_contain(b, s, k, w, su) && !members_contain(b, s, k, w, tu) {
                Some(
                    (
                        (if restore_admin && was_admin {
                            seq![(t.admin as int, tu)]
                        } else {
                            Seq::empty()
                        }) + member_replace_writes(b, s, k, w, su, tu),
                        was_admin,
                    ),
                )
            } else {
                None
            }
        },
    }
}

/// The recovery of the tail as the revision with roles, or else as the older one.
pub open spec fn tail_restore_any(
    b: Seq<u8>,
    start: int,
    su: Seq<u8>,
    tu: Seq<u8>,
    restore_admin: bool,
) -> Option<(Seq<(int, Seq<u8>)>, bool)> {
    match tail_restore(b, start, su, tu, restore_admin, true) {
        Some(x) => Some(x),
        None => tail_restore(b, start, su, tu, restore_admin, false),
    }
}

/// The guild recovery is refused when the two uids or the two instance ids
/// coincide, when no handle names the source, when another handle names the
/// target, when the source is not a member, or when the target already is
/// one; and without `restore_admin` the tail gets no write of its admin
/// field, only the member writes.
pub proof fn lemma_guild_restore_refusals(
    b: Seq<u8>,
    su: Seq<u8>,
    tu: Seq<u8>,
    si: Seq<u8>,
    ti: Seq<u8>,
    restore_admin: bool,
    start: int,
    w: bool,
)
    ensures
        su == tu || si == ti ==> guild_restore(b, su, tu, si, ti, restore_admin) is None,
        (head_layout(b) matches Some(h) && (!handles_name_source(b, h.handles_start as int, h.handles as nat, su, si)
            || handles_name_target(b, h.handles_start as int, h.handles as nat, su, tu, si, ti)))
            ==> guild_restore(b, su, tu, si, ti, restore_admin) is None,
        (tail_layout(b, start, w) matches Some(t) && (!members_contain(b, t.members_start as int, t.members as nat, w, su)
            || members_contain(b, t.members_start as int, t.members as nat, w, tu)))
            ==> tail_restore(b, start, su, tu, restore_admin, w) is None,
        !restore_admin ==> (tail_restore(b, start, su, tu, restore_admin, w) matches Some((tw, _)) ==> (tail_layout(b, start, w) matches Some(t)
            && tw == member_replace_writes(b, t.members_start as int, t.members as nat, w, su, tu))),
{
    if !restore_admin {
        if let Some(t) = tail_layout(b, start, w) {
            let k = t.members as nat;
            let s = t.members_start as int;
            assert(Seq::<(int, Seq<u8>)>::empty() + member_replace_writes(b, s, k, w, su, tu) =~= member_replace_writes(b, s, k, w, su, tu));
        }
    }
}

/// Every write of `ws` lies in `[lo, hi)`.
pub open spec fn writes_between(ws: Seq<(int, Seq<u8>)>, lo: int, hi: int) -> bool {
    forall|j: int| 0 <= j < ws.len() ==> lo <= #[trigger] ws[j].0 && ws[j].0 + 16 <= hi && ws[j].1.len() == 16
}

proof fn lemma_between_add(a: Seq<(int, Seq<u8>)>, c: Seq<(int, Seq<u8>)>, lo: int, hi: int)
    requires
        writes_between(a, lo, hi),
        writes_between(c, lo, hi),
    ensures
        writes_between(a + c, lo, hi),
{
    assert forall|j: int| 0 <= j < (a + c).len() implies lo <= #[trigger] (a + c)[j].0 && (a + c)[j].0 + 16 <= hi && (a
        + c)[j].1.len() == 16 by {
        if j < a.len() {
            assert((a + c)[j] == a[j]);
        } else {
            assert((a + c)[j] == c[j - a.len()]);
        }
    }
}

proof fn lemma_between_widen(a: Seq<(int, Seq<u8>)>, lo: int, hi: int, lo2: int, hi2: int)
    requires
        writes_between(a, lo, hi),
        lo2 <= lo,
        hi <= hi2,
    ensures
        writes_between(a, lo2, hi2),
{
}

proof fn lemma_handle_restore_between(b: Seq<u8>, hs: int, k: nat, su: Seq<u8>, tu: Seq<u8>, si: Seq<u8>, ti: Seq<u8>)
    requires
        su.len() == 16,
        tu.len() == 16,
        ti.len() == 16,
    ensures
        writes_between(handle_restore_writes(b, hs, k, su, tu, si, ti), hs, hs + 32 * k),
    decreases k,
{
    if k > 0 {
        lemma_handle_restore_between(b, hs, (k - 1) as nat, su, tu, si, ti);
        let h = hs + 32 * (k - 1);
        let step: Seq<(int, Seq<u8>)> = if handle_names(b, h, su, si) {
            seq![(h, tu), (h + 16, ti)]
        } else {
            Seq::empty()
        };
        assert(writes_between(step, hs, hs + 32 * k));
        lemma_between_widen(handle_restore_writes(b, hs, (k - 1) as nat, su, tu, si, ti), hs, hs + 32 * (k - 1), hs, hs + 32 * k);
        lemma_between_add(handle_restore_writes(b, hs, (k - 1) as nat, su, tu, si, ti), step, hs, hs + 32 * k);
    }
}

proof fn lemma_marker_replace_between(b: Seq<u8>, ms: int, k: nat, su: Seq<u8>, tu: Seq<u8>)
    requires
        tu.len() == 16,
    ensures
        writes_between(marker_replace_writes(b, ms, k, su, tu), ms, ms + 60 * k),
    decreases k,
{
    if k > 0 {
        lemma_marker_replace_between(b, ms, (k - 1) as nat, su, tu);
        let o = ms + 60 * (k - 1) + 44;
        assert(writes_between(replace_write(b, o, su, tu), ms, ms + 60 * k));
        lemma_between_widen(marker_replace_writes(b, ms, (k - 1) as nat, su, tu), ms, ms + 60 * (k - 1), ms, ms + 60 * k);
        lemma_between_add(marker_replace_writes(b, ms, (k - 1) as nat, su, tu), replace_write(b, o, su, tu), ms, ms + 60 * k);
    }
}

proof fn lemma_member_replace_between(b: Seq<u8>, st: int, k: nat, kk: nat, w: bool, su: Seq<u8>, tu: Seq<u8>)
    requires
        tu.len() == 16,
        k <= kk,
        members_end(b, st, kk, w) is Some,
    ensures
        writes_between(member_replace_writes(b, st, k, w, su, tu), st, b.len() as int),
    decreases k,
{
    if k > 0 {
        lemma_member_replace_between(b, st, (k - 1) as nat, kk, w, su, tu);
        lemma_members_end_bounds(b, st, (k - 1) as nat, kk, w);
        let o = member_at(b, st, (k - 1) as nat, w);
        assert(writes_between(replace_write(b, o, su, tu), st, b.len() as int));
        lemma_between_add(member_replace_writes(b, st, (k - 1) as nat, w, su, tu), replace_write(b, o, su, tu), st, b.len() as int);
    }
}

/// The admin field of a tail layout.
pub open spec fn admin_of(t: Option<GuildTail>) -> int {
    match t {
        Some(x) => x.admin as int,
        None => 0,
    }
}

/// The admin field of the tail the recovery reads: the tail with roles
/// when the recovery accepts it, else the older one.
pub open spec fn restore_admin_at(b: Seq<u8>, start: int, su: Seq<u8>, tu: Seq<u8>) -> int {
    if tail_restore(b, start, su, tu, false, true) is Some {
        admin_of(tail_layout(b, start, true))
    } else {
        admin_of(tail_layout(b, start, false))
    }
}

/// A guild recovery without `restore_admin` writes only inside the blob,
/// and no write touches the admin field: the admin stays who it was.
pub proof fn lemma_restore_keeps_admin(b: Seq<u8>, su: Seq<u8>, tu: Seq<u8>, si: Seq<u8>, ti: Seq<u8>)
    requires
        b.len() <= usize::MAX,
        su.len() == 16,
        tu.len() == 16,
        ti.len() == 16,
    ensures
        guild_restore(b, su, tu, si, ti, false) matches Some((ws, _)) ==> ({
            let a = restore_admin_at(b, head_layout(b)->0.tail_start as int, su, tu);
            &&& crate::guid_bytes::writes_within(ws, b.len() as int)
            &&& a + 16 <= b.len()
            &&& forall|p: int| a <= p < a + 16 ==> crate::guid_bytes::outside_writes(ws, p)
        }),
{
    if let Some((ws, _)) = guild_restore(b, su, tu, si, ti, false) {
        let h = head_layout(b)->0;
        let hs = h.handles_start as int;
        let st = h.tail_start as int;
        lemma_handle_restore_between(b, hs, h.handles as nat, su, tu, si, ti);
        lemma_marker_replace_between(b, h.markers_start as int, h.markers as nat, su, tu);
        let w0 = handle_restore_writes(b, hs, h.handles as nat, su, tu, si, ti);
        let w1 = replace_write(b, h.last_modifier as int, su, tu);
        let w2 = marker_replace_writes(b, h.markers_start as int, h.markers as nat, su, tu);
        let p = fstring_end(b, 16)->0;
        let hc = count_at(b, p)->0;
        let p2 = p + 4 + 32 * hc;
        let g = count_at(b, p2 + 5)->0;
        let p3 = p2 + 9 + 16 * g;
        let o = count_at(b, p3 + 8)->0;
        let p4 = p3 + 12 + 16 * o;
        let p5 = fstring_end(b, p4)->0;
        assert(fstring_end(b, p4) == take_end(b, p4 + 4, fstring_size(crate::le::i32_at(b, p4))));
        assert(p5 >= p4);
        let m = count_at(b, p5 + 16)->0;
        assert(p5 + 20 + 60 * m <= b.len());
        assert(hs == p + 4 && h.handles == hc && h.last_modifier == p5 && h.markers_start == p5 + 20 && h.markers == m);
        assert(hs + 32 * h.handles <= h.last_modifier);
        assert(h.last_modifier + 20 == h.markers_start);
        assert(h.markers_start + 60 * h.markers == st);
        lemma_between_widen(w0, hs, hs + 32 * h.handles, 0, st);
        assert(writes_between(w1, 0, st));
        lemma_between_widen(w2, h.markers_start as int, st, 0, st);
        lemma_between_add(w0, w1, 0, st);
        lemma_between_add(w0 + w1, w2, 0, st);
        let wt = if tail_restore(b, st, su, tu, false, true) is Some { true } else { false };
        let t = tail_layout(b, st, wt)->0;
        let a = restore_admin_at(b, st, su, tu);
        assert(a == t.admin);
        let (tw, _) = tail_restore(b, st, su, tu, false, wt)->0;
        let (tw2, _) = tail_restore_any(b, st, su, tu, false)->0;
        assert(tw2 == tw);
        lemma_guild_restore_refusals(b, su, tu, si, ti, false, st, wt);
        assert(tw == member_replace_writes(b, t.members_start as int, t.members as nat, wt, su, tu));
        let k = t.members as nat;
        assert(members_end(b, a + 20, k, wt) is Some);
        lemma_member_replace_between(b, a + 20, k, k, wt, su, tu);
        lemma_members_end_bounds(b, a + 20, 0, k, wt);
        assert(st <= a) by {
            if wt {
                assert(crate::guild_layout::tail_admin(b, st, true) == Some(a));
            }
        }
        assert(ws == w0 + w1 + w2 + tw);
        assert forall|j: int| 0 <= j < ws.len() implies 0 <= #[trigger] ws[j].0 && ws[j].0 + 16 <= b.len() && ws[j].1.len() == 16
            && (ws[j].0 + 16 <= a || ws[j].0 >= a + 20) by {
            let pre = w0 + w1 + w2;
            if j < pre.len() {
                assert(ws[j] == pre[j]);
            } else {
                assert(ws[j] == tw[j - pre.len()]);
            }
        }
    }
}

proof fn lemma_restore_admin_bytes(b0: Seq<u8>, su: Seq<u8>, tu: Seq<u8>, si: Seq<u8>, ti: Seq<u8>)
    requires
        b0.len() <= usize::MAX,
        su.len() == 16,
        tu.len() == 16,
        ti.len() == 16,
    ensures
        guild_restore(b0, su, tu, si, ti, false) matches Some((ws, _)) ==> ({
            let a = restore_admin_at(b0, head_layout(b0)->0.tail_start as int, su, tu);
            apply_writes(b0, ws).subrange(a, a + 16) == b0.subrange(a, a + 16)
        }),
{
    lemma_restore_keeps_admin(b0, su, tu, si, ti);
    if let Some((ws, _)) = guild_restore(b0, su, tu, si, ti, false) {
        let a = restore_admin_at(b0, head_layout(b0)->0.tail_start as int, su, tu);
        crate::guid_bytes::lemma_apply_writes_len(b0, ws);
        assert forall|p: int| a <= p < a + 16 implies apply_writes(b0, ws)[p] == b0[p] by {
            lemma_apply_writes_outside(b0, ws, p);
        }
        assert(apply_writes(b0, ws).subrange(a, a + 16) =~= b0.subrange(a, a + 16));
    }
}

/// All writes of the recovery and whether the source was the admin; `None`
/// when the recovery is refused.
pub open spec fn guild_restore(
    b: Seq<u8>,
    su: Seq<u8>,
    tu: Seq<u8>,
    si: Seq<u8>,
    ti: Seq<u8>,
    restore_admin: bool,
) -> Option<(Seq<(int, Seq<u8>)>, bool)> {
    if su == tu || si == ti {
        None
    } else {
        match head_layout(b) {
            None => None,
            Some(h) => {
                let hs = h.handles_start as int;
                let k = h.handles as nat;
                if !handles_name_source(b, hs, k, su, si) || handles_name_target(
                    b,
                    hs,
                    k,
                    su,
                    tu,
                    si,
                    ti,
                ) {
                    None
                } else {
                    match tail_restore_any(b, h.tail_start as int, su, tu, restore_admin) {
                        None => None,
                        Some((tw, was_admin)) => Some(
                            (
                                handle_restore_writes(b, hs, k, su, tu, si, ti) + replace_write(
                                    b,
                                    h.last_modifier as int,
                                    su,
                                    tu,
                                ) + marker_replace_writes(
                                    b,
                                    h.markers_start as int,
                                    h.markers as nat,
                                    su,
                                    tu,
                                ) + tw,
                                was_admin,
                            ),
                        ),
                    }
                }
            },
        }
    }
}

/// Appends the move of the field at `o` from `su` to `tu`.
fn push_replace(
    b: &[u8],
    o: usize,
    su: &[u8; 16],
    tu: &[u8; 16],
    ws: &mut Vec<(usize, [u8; 16])>,
)
    requires
        o + 16 <= b@.len(),
        writes_within(writes_view(old(ws)@), b@.len() as int),
    ensures
        writes_view(final(ws)@) == writes_view(old(ws)@) + replace_write(b@, o as int, su@, tu@),
        writes_within(writes_view(final(ws)@), b@.len() as int),
{
    let ghost before = ws@;
    if guid_matches(b, o, su) {
        ws.push((o, *tu));
        proof {
            lemma_writes_view_push(before, (o, *tu));
        }
    }
    assert(writes_view(ws@) =~= writes_view(before) + replace_write(b@, o as int, su@, tu@));
}

/// The recovery writes of the tail of one revision.
#[verifier::loop_isolation(false)]
fn restore_tail(
    b: &[u8],
    start: usize,
    su: &[u8; 16],
    tu: &[u8; 16],
    restore_admin: bool,
    w: bool,
) -> (r: Result<(Vec<(usize, [u8; 16])>, bool), String>)
    requires
        su@ != tu@,
    ensures
        match tail_restore(b@, start as int, su@, tu@, restore_admin, w) {
            Some((ws, was_admin)) => r matches Ok((v, a)) && writes_view(v@) == ws && a == was_admin
                && writes_within(ws, b@.len() as int),
            None => r is Err,
        },
{
    let n = b.len();
    let (tail, members) = match parse_guild_tail(b, start, w) {
        Ok(t) => t,
        Err(e) => return Err(e),
    };
    let mut ws: Vec<(usize, [u8; 16])> = Vec::new();
    let was_admin = guid_matches(b, tail.admin, su);
    if restore_admin && was_admin {
        ws.push((tail.admin, *tu));
        proof {
            lemma_writes_view_push(Seq::empty(), (tail.admin, *tu));
        }
    }
    let ghost w0 = writes_view(ws@);
    assert(w0 =~= (if restore_admin && was_admin {
        seq![(tail.admin as int, tu@)]
    } else {
        Seq::empty()
    }));
    let ghost s = tail.members_start as int;
    let mut found_source = false;
    let mut found_target = false;
    let mut k: usize = 0;
    while k < members.len()
        invariant
            k <= members@.len(),
            writes_within(writes_view(ws@), n as int),
            writes_view(ws@) == w0 + member_replace_writes(b@, s, k as nat, w, su@, tu@),
            found_source == members_contain(b@, s, k as nat, w, su@),
            found_target == members_contain(b@, s, k as nat, w, tu@),
        decreases members@.len() - k,
    {
        let o = members[k];
        proof {
            lemma_members_end_bounds(b@, s, k as nat, tail.members as nat, w);
        }
        if guid_matches(b, o, su) {
            found_source = true;
        } else if guid_matches(b, o, tu) {
            found_target = true;
        }
        push_replace(b, o, su, tu, &mut ws);
        assert(writes_view(ws@) =~= w0 + member_replace_writes(b@, s, (k + 1) as nat, w, su@, tu@));
        k = k + 1;
    }
    if !found_source {
        return Err(String::from_str("原公会成员列表中找不到单机主角色"));
    }
    if found_target {
        return Err(String::from_str("目标角色已在原公会成员列表中，拒绝生成重复成员"));
    }
    Ok((ws, was_admin))
}

/// Moves the original host (uid `source_uid`, instance `source_instance`)
/// onto the target identity inside its original guild's blob: the handle that
/// names the source is rebound to the target uid and instance, the member
/// record, the last modifier and the marker owners that hold the source uid
/// get the target uid, and the admin does too when `restore_admin` is set and
/// the source was the admin. Refused, with the blob unchanged, when the two
/// identities share a uid or an instance, when no handle or member names the
/// source, or when a handle or member already names the target.
pub fn patch_original_guild_rawdata(
    bytes: &mut Vec<u8>,
    source_uid: &[u8; 16],
    target_uid: &[u8; 16],
    source_instance: &[u8; 16],
    target_instance: &[u8; 16],
    restore_admin: bool,
) -> (r: Result<GuildPatchResult, String>)
    ensures
        match guild_restore(
            old(bytes)@,
            source_uid@,
            target_uid@,
            source_instance@,
            target_instance@,
            restore_admin,
        ) {
            Some((ws, was_admin)) => r == Ok::<GuildPatchResult, String>(
                GuildPatchResult { changed: ws.len() as usize, source_was_admin: was_admin },
            ) && final(bytes)@ == apply_writes(old(bytes)@, ws),
            None => r is Err && final(bytes)@ == old(bytes)@,
        },
        final(bytes)@.len() == old(bytes)@.len(),
        !restore_admin && r is Ok ==> ({
            let a = restore_admin_at(old(bytes)@, head_layout(old(bytes)@)->0.tail_start as int, source_uid@, target_uid@);
            final(bytes)@.subrange(a, a + 16) == old(bytes)@.subrange(a, a + 16)
        }),
{
    let _n = bytes.len();
    proof {
        lemma_restore_admin_bytes(bytes@, source_uid@, target_uid@, source_instance@, target_instance@);
    }
    if guid_eq(source_uid, target_uid) || guid_eq(source_instance, target_instance) {
        return Err(String::from_str("原角色与目标角色身份相同，无需恢复公会"));
    }
    let ghost orig = bytes@;
    let head = match parse_guild_head(bytes.as_slice()) {
        Ok(h) => h,
        Err(e) => return Err(e),
    };
    let b = bytes.as_slice();
    let n = b.len();
    let ghost hs = head.handles_start as int;
    let mut ws: Vec<(usize, [u8; 16])> = Vec::new();
    let mut found_source = false;
    let mut found_target = false;
    let mut i: usize = 0;
    while i < head.handles
        invariant
            b@ == orig,
            n == orig.len(),
            head_layout(orig) == Some(head),
            hs == head.handles_start as int,
            i <= head.handles,
            writes_within(writes_view(ws@), n as int),
            writes_view(ws@) == handle_restore_writes(
                orig,
                hs,
                i as nat,
                source_uid@,
                target_uid@,
                source_instance@,
                target_instance@,
            ),
            found_source == handles_name_source(orig, hs, i as nat, source_uid@, source_instance@),
            found_target == handles_name_target(
                orig,
                hs,
                i as nat,
                source_uid@,
                target_uid@,
                source_instance@,
                target_instance@,
            ),
        decreases head.handles - i,
    {
        let h = head.handles_start + 32 * i;
        let ghost before = ws@;
        if guid_matches(b, h, source_uid) || guid_matches(b, h + 16, source_instance) {
            found_source = true;
            ws.push((h, *target_uid));
            ws.push((h + 16, *target_instance));
            proof {
                lemma_writes_view_push(before, (h, *target_uid));
                lemma_writes_view_push(before.push((h, *target_uid)), ((h + 16) as usize, *target_instance));
            }
        } else if guid_matches(b, h, target_uid) || guid_matches(b, h + 16, target_instance) {
            found_target = true;
        }
        assert(writes_view(ws@) =~= handle_restore_writes(
            orig,
            hs,
            (i + 1) as nat,
            source_uid@,
            target_uid@,
            source_instance@,
            target_instance@,
        ));
        i = i + 1;
    }
    if !found_source {
        return Err(String::from_str("原公会中找不到单机主角色句柄"));
    }
    if found_target {
        return Err(String::from_str("目标角色已存在于原公会句柄中，拒绝生成重复成员"));
    }
    push_replace(b, head.last_modifier, source_uid, target_uid, &mut ws);
    let ghost w2 = writes_view(ws@);
    let mut j: usize = 0;
    while j < head.markers
        invariant
            b@ == orig,
            n == orig.len(),
            head_layout(orig) == Some(head),
            j <= head.markers,
            writes_within(writes_view(ws@), n as int),
            writes_view(ws@) == w2 + marker_replace_writes(
                orig,
                head.markers_start as int,
                j as nat,
                source_uid@,
                target_uid@,
            ),
        decreases head.markers - j,
    {
        push_replace(b, head.markers_start + 60 * j + 44, source_uid, target_uid, &mut ws);
        assert(writes_view(ws@) =~= w2 + marker_replace_writes(
            orig,
            head.markers_start as int,
            (j + 1) as nat,
            source_uid@,
            target_uid@,
        ));
        j = j + 1;
    }
    let (tail_ws, was_admin) = match restore_tail(
        b,
        head.tail_start,
        source_uid,
        target_uid,
        restore_admin,
        true,
    ) {
        Ok(x) => x,
        Err(_) => match restore_tail(
            b,
            head.tail_start,
            source_uid,
            target_uid,
            restore_admin,
            false,
        ) {
            Ok(x) => x,
            Err(e) => return Err(e),
        },
    };
    let ghost w3 = writes_view(ws@);
    let mut m: usize = 0;
    while m < tail_ws.len()
        invariant
            m <= tail_ws@.len(),
            writes_within(writes_view(tail_ws@), n as int),
            writes_within(writes_view(ws@), n as int),
            writes_view(ws@) == w3 + writes_view(tail_ws@).take(m as int),
        decreases tail_ws@.len() - m,
    {
        let ghost before = ws@;
        let wr = tail_ws[m];
        ws.push(wr);
        proof {
            lemma_writes_view_push(before, wr);
            assert(writes_view(tail_ws@)[m as int] == (wr.0 as int, wr.1@));
            assert(writes_view(tail_ws@).take(m + 1) =~= writes_view(tail_ws@).take(
                m as int,
            ).push((wr.0 as int, wr.1@)));
        }
        m = m + 1;
    }
    assert(writes_view(tail_ws@).take(tail_ws@.len() as int) =~= writes_view(tail_ws@));
    let changed = ws.len();
    apply_guid_writes(bytes, &ws);
    Ok(GuildPatchResult { changed, source_was_admin: was_admin })
}

/// The handle scan of the recovery check: whether a handle at or after index
/// `i` (of `k`) names both `su` and `si`, reading handles only as far as needed.
pub open spec fn handle_scan(b: Seq<u8>, hs: int, i: int, k: int, su: Seq<u8>, si: Seq<u8>) -> Option<
    bool,
>
    decreases k - i,
{
    if i >= k {
        Some(false)
    } else if hs + 32 * (i + 1) > b.len() {
        None
    } else if guid_at(b, hs + 32 * i) == su && guid_at(b, hs + 32 * i + 16) == si {
        Some(true)
    } else {
        handle_scan(b, hs, i + 1, k, su, si)
    }
}

/// Whether the guild blob holds a character handle for exactly this player
/// uid and instance id; `None` when the blob ends before that is known.
pub open spec fn guild_has_handle(b: Seq<u8>, su: Seq<u8>, si: Seq<u8>) -> Option<bool> {
    match fstring_end(b, 16) {
        None => None,
        Some(p) => match count_at(b, p) {
            None => None,
            Some(k) => handle_scan(b, p + 4, 0, k as int, su, si),
        },
    }
}

/// Whether the guild blob holds a character handle for exactly this player
/// uid and instance id. Only the group id, the FString and the handles are
/// read, and only up to the first match.
pub fn guild_contains_handle(
    bytes: &[u8],
    source_uid: &[u8; 16],
    source_instance: &[u8; 16],
) -> (r: Result<bool, String>)
    ensures
        match guild_has_handle(bytes@, source_uid@, source_instance@) {
            Some(x) => r == Ok::<bool, String>(x),
            None => r is Err,
        },
{
    let n = bytes.len();
    let p = fstring(bytes, 16)?;
    let (k, hs) = count(bytes, p)?;
    let mut i: usize = 0;
    while i < k
        invariant
            n == bytes@.len(),
            i <= k,
            hs + 32 * i <= n,
            guild_has_handle(bytes@, source_uid@, source_instance@) == handle_scan(
                bytes@,
                hs as int,
                i as int,
                k as int,
                source_uid@,
                source_instance@,
            ),
        decreases k - i,
    {
        let h = hs + 32 * i;
        if 32 > n - h {
            return Err(String::from_str("公会数据截断"));
        }
        if guid_matches(bytes, h, source_uid) && guid_matches(bytes, h + 16, source_instance) {
            return Ok(true);
        }
        i = i + 1;
    }
    Ok(false)
}

/// A target player may join the original guild only when it has no guild or
/// already belongs to that very guild.
pub fn validate_target_group(target_group: &[u8; 16], source_group: &[u8; 16]) -> (r: Result<
    (),
    String,
>)
    ensures
        r is Ok <==> (target_group@ == seq![0u8; 16] || target_group@ == source_group@),
        r matches Err(e) ==> e@ == "目标角色已属于其他公会，无法恢复原公会"@,
{
    let zero = [0u8; 16];
    assert(zero@ =~= seq![0u8; 16]);
    if !guid_eq(target_group, &zero) && !guid_eq(target_group, source_group) {
        return Err(String::from_str("目标角色已属于其他公会，无法恢复原公会"));
    }
    Ok(())
}

} // verus!
