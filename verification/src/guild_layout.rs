//! Layout of a guild group's `RawData` byte blob.
//!
//! The blob is a fixed sequence of fields: the group id, an FString, the
//! character handles (player uid + instance id), base and base-object id
//! arrays, the guild name, the last modifier uid, the map markers, and a tail
//! that comes in two revisions (with or without chest roles, member roles and
//! role permissions). Counts are `i32` little-endian; an FString is an `i32`
//! length `l` followed by `l` bytes, or by `-2l` bytes when `l` is negative.

use vstd::prelude::*;
use crate::le::{i32_at, read_i32_at};

verus! {

/// Position after `len` more bytes from `p`, when they are present.
pub open spec fn take_end(b: Seq<u8>, p: int, len: int) -> Option<int> {
    if 0 <= p && 0 <= len && p + len <= b.len() {
        Some(p + len)
    } else {
        None
    }
}

/// Number of payload bytes that follow an FString length field.
pub open spec fn fstring_size(l: i32) -> int {
    if l >= 0 {
        l as int
    } else {
        -2 * (l as int)
    }
}

/// Position after the FString that starts at `p`.
pub open spec fn fstring_end(b: Seq<u8>, p: int) -> Option<int> {
    if 0 <= p && p + 4 <= b.len() {
        take_end(b, p + 4, fstring_size(i32_at(b, p)))
    } else {
        None
    }
}

/// The element count stored at `p`: non-negative and no larger than the
/// number of bytes that follow it.
pub open spec fn count_at(b: Seq<u8>, p: int) -> Option<nat> {
    if 0 <= p && p + 4 <= b.len() {
        let c = i32_at(b, p);
        if 0 <= c && c <= b.len() - (p + 4) {
            Some(c as nat)
        } else {
            None
        }
    } else {
        None
    }
}

/// Offsets of the fixed head of a guild blob.
#[derive(Clone, Copy, PartialEq, Eq, Structural)]
pub struct GuildHead {
    /// Offset of the first character handle (32 bytes each).
    pub handles_start: usize,
    /// Number of character handles.
    pub handles: usize,
    /// Offset of the last-modifier player uid.
    pub last_modifier: usize,
    /// Offset of the first map marker (60 bytes each, owner uid at +44).
    pub markers_start: usize,
    /// Number of map markers.
    pub markers: usize,
    /// Offset where the revision-dependent tail starts.
    pub tail_start: usize,
}

/// Offsets of the tail of a guild blob.
#[derive(Clone, Copy, PartialEq, Eq, Structural)]
pub struct GuildTail {
    /// Offset of the admin player uid.
    pub admin: usize,
    /// Offset of the first member record.
    pub members_start: usize,
    /// Number of member records.
    pub members: usize,
    /// Whether this is the revision with chest roles, member roles and permissions.
    pub with_roles: bool,
}

/// Layout of the head, when the blob holds one.
pub open spec fn head_layout(b: Seq<u8>) -> Option<GuildHead> {
    match fstring_end(b, 16) {
        None => None,
        Some(p) => match count_at(b, p) {
            None => None,
            Some(h) => {
                let hs = p + 4;
                let p2 = hs + 32 * h;
                match count_at(b, p2 + 5) {
                    None => None,
                    Some(g) => {
                        let p3 = p2 + 9 + 16 * g;
                        match count_at(b, p3 + 8) {
                            None => None,
                            Some(o) => {
                                let p4 = p3 + 12 + 16 * o;
                                match fstring_end(b, p4) {
                                    None => None,
                                    Some(p5) => match count_at(b, p5 + 16) {
                                        None => None,
                                        Some(m) => {
                                            let ms = p5 + 20;
                                            if ms + 60 * m <= b.len() {
                                                Some(
                                                    GuildHead {
                                                        handles_start: hs as usize,
                                                        handles: h as usize,
                                                        last_modifier: p5 as usize,
                                                        markers_start: ms as usize,
                                                        markers: m as usize,
                                                        tail_start: (ms + 60 * m) as usize,
                                                    },
                                                )
                                            } else {
                                                None
                                            }
                                        },
                                    },
                                }
                            },
                        }
                    },
                }
            },
        },
    }
}

/// Position after one member record at `q`: uid, 8 bytes, name, and a role
/// byte in the revision with roles.
pub open spec fn member_end(b: Seq<u8>, q: int, with_roles: bool) -> Option<int> {
    if 0 <= q && q + 24 <= b.len() {
        match fstring_end(b, q + 24) {
            None => None,
            Some(r) => if with_roles {
                take_end(b, r, 1)
            } else {
                Some(r)
            },
        }
    } else {
        None
    }
}

/// Position after `k` member records starting at `p`.
pub open spec fn members_end(b: Seq<u8>, p: int, k: nat, with_roles: bool) -> Option<int>
    decreases k,
{
    if k == 0 {
        if 0 <= p && p <= b.len() {
            Some(p)
        } else {
            None
        }
    } else {
        match members_end(b, p, (k - 1) as nat, with_roles) {
            None => None,
            Some(q) => member_end(b, q, with_roles),
        }
    }
}

/// Offset of the uid of member `i`.
pub open spec fn member_at(b: Seq<u8>, p: int, i: nat, with_roles: bool) -> int {
    members_end(b, p, i, with_roles)->0
}

/// Position after one role-permission record at `q`: a role byte and a
/// counted byte array.
pub open spec fn perm_end(b: Seq<u8>, q: int) -> Option<int> {
    match count_at(b, q + 1) {
        None => None,
        Some(c) => Some(q + 5 + c),
    }
}

/// Position after `k` role-permission records starting at `p`.
pub open spec fn perms_end(b: Seq<u8>, p: int, k: nat) -> Option<int>
    decreases k,
{
    if k == 0 {
        if 0 <= p && p <= b.len() {
            Some(p)
        } else {
            None
        }
    } else {
        match perms_end(b, p, (k - 1) as nat) {
            None => None,
            Some(q) => perm_end(b, q),
        }
    }
}

/// Offset of the admin uid in the tail that starts at `start`.
pub open spec fn tail_admin(b: Seq<u8>, start: int, with_roles: bool) -> Option<int> {
    if with_roles {
        match count_at(b, start) {
            None => None,
            Some(c) => take_end(b, start + 4 + c, 4),
        }
    } else {
        if 0 <= start && start <= b.len() {
            Some(start)
        } else {
            None
        }
    }
}

/// Position where the tail's own fields end, just before its final 4 bytes.
pub open spec fn tail_fields_end(b: Seq<u8>, members_end_pos: int, with_roles: bool) -> Option<
    int,
> {
    if with_roles {
        match count_at(b, members_end_pos) {
            None => None,
            Some(r) => perms_end(b, members_end_pos + 4, r),
        }
    } else {
        Some(members_end_pos)
    }
}

/// Layout of the tail of one revision; the tail must end exactly 4 bytes
/// after its last field, at the end of the blob.
pub open spec fn tail_layout(b: Seq<u8>, start: int, with_roles: bool) -> Option<GuildTail> {
    match tail_admin(b, start, with_roles) {
        None => None,
        Some(a) => match count_at(b, a + 16) {
            None => None,
            Some(k) => match members_end(b, a + 20, k, with_roles) {
                None => None,
                Some(pe) => match tail_fields_end(b, pe, with_roles) {
                    None => None,
                    Some(f) => if f + 4 == b.len() {
                        Some(
                            GuildTail {
                                admin: a as usize,
                                members_start: (a + 20) as usize,
                                members: k as usize,
                                with_roles,
                            },
                        )
                    } else {
                        None
                    },
                },
            },
        },
    }
}

/// The tail read as the revision with roles, or else as the older revision.
pub open spec fn tail_any(b: Seq<u8>, start: int) -> Option<GuildTail> {
    match tail_layout(b, start, true) {
        Some(t) => Some(t),
        None => tail_layout(b, start, false),
    }
}

/// The full layout: head and tail.
pub open spec fn guild_layout(b: Seq<u8>) -> Option<(GuildHead, GuildTail)> {
    match head_layout(b) {
        None => None,
        Some(h) => match tail_any(b, h.tail_start as int) {
            None => None,
            Some(t) => Some((h, t)),
        },
    }
}

pub proof fn lemma_members_end_bounds(b: Seq<u8>, p: int, i: nat, k: nat, w: bool)
    requires
        i <= k,
        members_end(b, p, k, w) is Some,
    ensures
        members_end(b, p, i, w) is Some,
        p <= members_end(b, p, i, w)->0 <= members_end(b, p, k, w)->0 <= b.len(),
        i < k ==> members_end(b, p, i, w)->0 + 24 <= members_end(b, p, k, w)->0,
    decreases k,
{
    if k > 0 {
        let j: nat = if i < k {
            i
        } else {
            (k - 1) as nat
        };
        lemma_members_end_bounds(b, p, j, (k - 1) as nat, w);
    }
}

pub proof fn lemma_members_end_none(b: Seq<u8>, p: int, i: nat, k: nat, w: bool)
    requires
        i <= k,
        members_end(b, p, i, w) is None,
    ensures
        members_end(b, p, k, w) is None,
    decreases k,
{
    if k > i {
        lemma_members_end_none(b, p, i, (k - 1) as nat, w);
    }
}

pub proof fn lemma_perms_end_none(b: Seq<u8>, p: int, i: nat, k: nat)
    requires
        i <= k,
        perms_end(b, p, i) is None,
    ensures
        perms_end(b, p, k) is None,
    decreases k,
{
    if k > i {
        lemma_perms_end_none(b, p, i, (k - 1) as nat);
    }
}

/// Advances `len` bytes from `pos`.
pub fn take(b: &[u8], pos: usize, len: usize) -> (r: Result<usize, String>)
    ensures
        match r {
            Ok(q) => take_end(b@, pos as int, len as int) == Some(q as int),
            Err(_) => take_end(b@, pos as int, len as int) is None,
        },
{
    let n = b.len();
    if pos <= n && len <= n - pos {
        Ok(pos + len)
    } else {
        Err(String::from_str("guild RawData is truncated"))
    }
}

/// Advances over `c` GUIDs (16 bytes each) from `pos`.
pub fn take_guids(b: &[u8], pos: usize, c: usize) -> (r: Result<usize, String>)
    ensures
        match r {
            Ok(q) => take_end(b@, pos as int, 16 * c) == Some(q as int),
            Err(_) => take_end(b@, pos as int, 16 * c) is None,
        },
{
    let n = b.len();
    if pos > n {
        return Err(String::from_str("guild RawData is truncated"));
    }
    let rest = n - pos;
    if c <= rest / 16 {
        assert(16 * c <= rest) by (nonlinear_arith)
            requires
                c <= rest / 16,
        ;
        Ok(pos + 16 * c)
    } else {
        assert(16 * c > rest) by (nonlinear_arith)
            requires
                c > rest / 16,
        ;
        Err(String::from_str("guild RawData is truncated"))
    }
}

/// Reads the element count at `pos`.
pub fn count(b: &[u8], pos: usize) -> (r: Result<(usize, usize), String>)
    ensures
        match r {
            Ok((c, q)) => count_at(b@, pos as int) == Some(c as nat) && q == pos + 4,
            Err(_) => count_at(b@, pos as int) is None,
        },
{
    let n = b.len();
    if pos > n || 4 > n - pos {
        return Err(String::from_str("guild RawData is truncated"));
    }
    let c = read_i32_at(b, pos);
    if c < 0 {
        return Err(String::from_str("guild RawData holds a negative count"));
    }
    if c as usize > n - (pos + 4) {
        return Err(String::from_str("guild RawData holds a count larger than the data"));
    }
    Ok((c as usize, pos + 4))
}

/// Skips the FString at `pos`.
pub fn fstring(b: &[u8], pos: usize) -> (r: Result<usize, String>)
    ensures
        match r {
            Ok(q) => fstring_end(b@, pos as int) == Some(q as int),
            Err(_) => fstring_end(b@, pos as int) is None,
        },
{
    let n = b.len();
    if pos > n || 4 > n - pos {
        return Err(String::from_str("guild RawData is truncated"));
    }
    let l = read_i32_at(b, pos);
    let size: u64 = if l >= 0 {
        l as u64
    } else {
        let neg: i64 = -(l as i64);
        (neg as u64) * 2
    };
    let rest = (n - (pos + 4)) as u64;
    if size > rest {
        return Err(String::from_str("guild RawData is truncated"));
    }
    Ok(pos + 4 + size as usize)
}

/// Reads the head layout.
#[verifier::loop_isolation(false)]
pub fn parse_guild_head(b: &[u8]) -> (r: Result<GuildHead, String>)
    ensures
        match r {
            Ok(h) => head_layout(b@) == Some(h),
            Err(_) => head_layout(b@) is None,
        },
{
    let n = b.len();
    let p = fstring(b, 16)?;
    let (h, hs) = count(b, p)?;
    let mut pos = hs;
    let mut i: usize = 0;
    while i < h
        invariant
            n == b@.len(),
            i <= h,
            count_at(b@, p as int) == Some(h as nat),
            hs == p + 4,
            pos == hs + 32 * i,
            pos <= n,
        decreases h - i,
    {
        let q = take(b, pos, 16)?;
        let q2 = take(b, q, 16)?;
        pos = q2;
        i = i + 1;
    }
    let q = take(b, pos, 5)?;
    let (g, q) = count(b, q)?;
    let q = take_guids(b, q, g)?;
    let q = take(b, q, 8)?;
    let (o, q) = count(b, q)?;
    let q = take_guids(b, q, o)?;
    let p5 = fstring(b, q)?;
    let q = take(b, p5, 16)?;
    let (m, ms) = count(b, q)?;
    let mut pos = ms;
    let mut j: usize = 0;
    while j < m
        invariant
            n == b@.len(),
            j <= m,
            pos == ms + 60 * j,
            pos <= n,
        decreases m - j,
    {
        let q = take(b, pos, 60)?;
        pos = q;
        j = j + 1;
    }
    Ok(GuildHead {
        handles_start: hs,
        handles: h,
        last_modifier: p5,
        markers_start: ms,
        markers: m,
        tail_start: pos,
    })
}

/// Skips one member record.
pub fn member(b: &[u8], q: usize, with_roles: bool) -> (r: Result<usize, String>)
    ensures
        match r {
            Ok(e) => member_end(b@, q as int, with_roles) == Some(e as int),
            Err(_) => member_end(b@, q as int, with_roles) is None,
        },
{
    let p = take(b, q, 24)?;
    let p = fstring(b, p)?;
    if with_roles {
        take(b, p, 1)
    } else {
        Ok(p)
    }
}

/// Skips one role-permission record.
pub fn perm(b: &[u8], q: usize) -> (r: Result<usize, String>)
    ensures
        match r {
            Ok(e) => perm_end(b@, q as int) == Some(e as int),
            Err(_) => perm_end(b@, q as int) is None,
        },
{
    let p = take(b, q, 1)?;
    let (c, p2) = count(b, p)?;
    take(b, p2, c)
}

/// Reads the tail layout of one revision, with the offset of every member uid.
#[verifier::loop_isolation(false)]
pub fn parse_guild_tail(b: &[u8], start: usize, with_roles: bool) -> (r: Result<
    (GuildTail, Vec<usize>),
    String,
>)
    ensures
        match r {
            Ok((t, ms)) => {
                &&& tail_layout(b@, start as int, with_roles) == Some(t)
                &&& ms@.len() == t.members
                &&& forall|i: int|
                    0 <= i < ms@.len() ==> ms@[i] == member_at(
                        b@,
                        t.members_start as int,
                        i as nat,
                        with_roles,
                    )
            },
            Err(_) => tail_layout(b@, start as int, with_roles) is None,
        },
{
    let n = b.len();
    let a = if with_roles {
        let (c, q) = count(b, start)?;
        let q = take(b, q, c)?;
        take(b, q, 4)?
    } else {
        take(b, start, 0)?
    };
    let q = take(b, a, 16)?;
    let (k, s) = count(b, q)?;
    let mut offsets: Vec<usize> = Vec::new();
    let mut pos = s;
    let mut i: usize = 0;
    while i < k
        invariant
            n == b@.len(),
            i <= k,
            tail_admin(b@, start as int, with_roles) == Some(a as int),
            count_at(b@, a + 16) == Some(k as nat),
            s == a + 20,
            members_end(b@, s as int, i as nat, with_roles) == Some(pos as int),
            offsets@.len() == i,
            forall|j: int|
                0 <= j < i ==> offsets@[j] == member_at(b@, s as int, j as nat, with_roles),
        decreases k - i,
    {
        offsets.push(pos);
        match member(b, pos, with_roles) {
            Ok(e) => {
                pos = e;
            },
            Err(err) => {
                proof {
                    lemma_members_end_none(b@, s as int, (i + 1) as nat, k as nat, with_roles);
                }
                return Err(err);
            },
        }
        i = i + 1;
    }
    let f = if with_roles {
        let (r, q) = count(b, pos)?;
        let mut p = q;
        let mut j: usize = 0;
        while j < r
            invariant
                n == b@.len(),
                j <= r,
                count_at(b@, pos as int) == Some(r as nat),
                q == pos + 4,
                perms_end(b@, q as int, j as nat) == Some(p as int),
            decreases r - j,
        {
            match perm(b, p) {
                Ok(e) => {
                    p = e;
                },
                Err(err) => {
                    proof {
                        lemma_perms_end_none(b@, q as int, (j + 1) as nat, r as nat);
                    }
                    return Err(err);
                },
            }
            j = j + 1;
        }
        p
    } else {
        pos
    };
    let e = take(b, f, 4)?;
    if e != n {
        return Err(String::from_str("guild RawData has bytes after its last field"));
    }
    Ok((GuildTail { admin: a, members_start: s, members: k, with_roles }, offsets))
}

/// Reads the tail as the revision with roles, or else as the older revision.
pub fn parse_guild_tail_any(b: &[u8], start: usize) -> (r: Result<(GuildTail, Vec<usize>), String>)
    ensures
        match r {
            Ok((t, ms)) => {
                &&& tail_any(b@, start as int) == Some(t)
                &&& ms@.len() == t.members
                &&& forall|i: int|
                    0 <= i < ms@.len() ==> ms@[i] == member_at(
                        b@,
                        t.members_start as int,
                        i as nat,
                        t.with_roles,
                    )
            },
            Err(_) => tail_any(b@, start as int) is None,
        },
{
    match parse_guild_tail(b, start, true) {
        Ok(x) => Ok(x),
        Err(_) => parse_guild_tail(b, start, false),
    }
}

} // verus!
