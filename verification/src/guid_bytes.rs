//! 16-byte GUID fields inside byte buffers: reading, comparing, and
//! rewriting them at known offsets.

use vstd::prelude::*;

verus! {

/// The 16 bytes of the GUID field at offset `o`.
pub open spec fn guid_at(b: Seq<u8>, o: int) -> Seq<u8> {
    b.subrange(o, o + 16)
}

/// `b` with the 16 bytes at `o` replaced by `g`.
pub open spec fn write16(b: Seq<u8>, o: int, g: Seq<u8>) -> Seq<u8> {
    b.subrange(0, o) + g + b.subrange(o + 16, b.len() as int)
}

/// `b` after the GUID writes `ws`, applied in order.
pub open spec fn apply_writes(b: Seq<u8>, ws: Seq<(int, Seq<u8>)>) -> Seq<u8>
    decreases ws.len(),
{
    if ws.len() == 0 {
        b
    } else {
        write16(apply_writes(b, ws.drop_last()), ws.last().0, ws.last().1)
    }
}

/// The writes held in an executable list, as offsets and byte sequences.
pub open spec fn writes_view(ws: Seq<(usize, [u8; 16])>) -> Seq<(int, Seq<u8>)> {
    ws.map_values(|w: (usize, [u8; 16])| (w.0 as int, w.1@))
}

/// Every write lies inside a buffer of `n` bytes.
pub open spec fn writes_within(ws: Seq<(int, Seq<u8>)>, n: int) -> bool {
    forall|j: int|
        0 <= j < ws.len() ==> 0 <= #[trigger] ws[j].0 && ws[j].0 + 16 <= n && ws[j].1.len() == 16
}

pub proof fn lemma_apply_writes_len(b: Seq<u8>, ws: Seq<(int, Seq<u8>)>)
    requires
        writes_within(ws, b.len() as int),
    ensures
        apply_writes(b, ws).len() == b.len(),
    decreases ws.len(),
{
    if ws.len() > 0 {
        assert(writes_within(ws.drop_last(), b.len() as int)) by {
            assert forall|j: int| 0 <= j < ws.drop_last().len() implies {
                &&& 0 <= #[trigger] ws.drop_last()[j].0
                &&& ws.drop_last()[j].0 + 16 <= b.len()
                &&& ws.drop_last()[j].1.len() == 16
            } by {
                assert(ws.drop_last()[j] == ws[j]);
            }
        }
        lemma_apply_writes_len(b, ws.drop_last());
        assert(ws.last() == ws[ws.len() - 1]);
    }
}

/// No write of `ws` covers the byte at `p`.
pub open spec fn outside_writes(ws: Seq<(int, Seq<u8>)>, p: int) -> bool {
    forall|j: int| 0 <= j < ws.len() ==> !(#[trigger] ws[j].0 <= p < ws[j].0 + 16)
}

/// Writes inside the buffer leave every byte that none of them covers as it
/// was.
pub proof fn lemma_apply_writes_outside(b: Seq<u8>, ws: Seq<(int, Seq<u8>)>, p: int)
    requires
        writes_within(ws, b.len() as int),
        0 <= p < b.len(),
        outside_writes(ws, p),
    ensures
        apply_writes(b, ws)[p] == b[p],
    decreases ws.len(),
{
    if ws.len() > 0 {
        let d = ws.drop_last();
        assert(writes_within(d, b.len() as int)) by {
            assert forall|j: int| 0 <= j < d.len() implies {
                &&& 0 <= #[trigger] d[j].0
                &&& d[j].0 + 16 <= b.len()
                &&& d[j].1.len() == 16
            } by {
                assert(d[j] == ws[j]);
            }
        }
        assert(outside_writes(d, p)) by {
            assert forall|j: int| 0 <= j < d.len() implies !(#[trigger] d[j].0 <= p < d[j].0 + 16) by {
                assert(d[j] == ws[j]);
            }
        }
        lemma_apply_writes_outside(b, d, p);
        lemma_apply_writes_len(b, d);
        let w = ws.last();
        assert(w == ws[ws.len() - 1]);
        assert(!(w.0 <= p < w.0 + 16));
        let c = apply_writes(b, d);
        if p < w.0 {
            assert(write16(c, w.0, w.1)[p] == c[p]);
        } else {
            assert(write16(c, w.0, w.1)[p] == c[p]);
        }
    }
}

pub proof fn lemma_writes_view_push(ws: Seq<(usize, [u8; 16])>, w: (usize, [u8; 16]))
    ensures
        writes_view(ws.push(w)) == writes_view(ws).push((w.0 as int, w.1@)),
{
    assert(writes_view(ws.push(w)) =~= writes_view(ws).push((w.0 as int, w.1@)));
}

/// Whether the 16 bytes at `o` equal `g`.
pub fn guid_matches(b: &[u8], o: usize, g: &[u8; 16]) -> (r: bool)
    requires
        o + 16 <= b@.len(),
    ensures
        r == (guid_at(b@, o as int) == g@),
{
    let n = b.len();
    let mut k: usize = 0;
    while k < 16
        invariant
            n == b@.len(),
            o + 16 <= b@.len(),
            k <= 16,
            forall|j: int| 0 <= j < k ==> b@[o + j] == g@[j],
        decreases 16 - k,
    {
        if b[o + k] != g[k] {
            assert(guid_at(b@, o as int)[k as int] != g@[k as int]);
            return false;
        }
        k = k + 1;
    }
    assert(guid_at(b@, o as int) =~= g@);
    true
}

/// Whether two GUIDs are equal.
pub fn guid_eq(a: &[u8; 16], b: &[u8; 16]) -> (r: bool)
    ensures
        r == (a@ == b@),
{
    let s = a.as_slice();
    assert(guid_at(s@, 0) =~= a@);
    guid_matches(s, 0, b)
}

/// Copies the GUID field at `o`.
pub fn guid_from(b: &[u8], o: usize) -> (g: [u8; 16])
    requires
        o + 16 <= b@.len(),
    ensures
        g@ == guid_at(b@, o as int),
{
    let g = [
        b[o],
        b[o + 1],
        b[o + 2],
        b[o + 3],
        b[o + 4],
        b[o + 5],
        b[o + 6],
        b[o + 7],
        b[o + 8],
        b[o + 9],
        b[o + 10],
        b[o + 11],
        b[o + 12],
        b[o + 13],
        b[o + 14],
        b[o + 15],
    ];
    assert(g@ =~= guid_at(b@, o as int));
    g
}

/// Overwrites the 16 bytes at `o` with `g`.
pub fn write_guid(bytes: &mut [u8], o: usize, g: &[u8; 16])
    requires
        o + 16 <= old(bytes)@.len(),
    ensures
        final(bytes)@ == write16(old(bytes)@, o as int, g@),
{
    let ghost orig = bytes@;
    let n = bytes.len();
    let mut k: usize = 0;
    while k < 16
        invariant
            o + 16 <= orig.len(),
            k <= 16,
            bytes@.len() == orig.len(),
            n == orig.len(),
            forall|j: int| 0 <= j < bytes@.len() && !(o <= j < o + k) ==> bytes@[j] == orig[j],
            forall|j: int| o <= j < o + k ==> bytes@[j] == g@[j - o],
        decreases 16 - k,
    {
        bytes[o + k] = g[k];
        k = k + 1;
    }
    assert(bytes@ =~= write16(orig, o as int, g@));
}

/// Applies the GUID writes `ws` in order.
pub fn apply_guid_writes(bytes: &mut Vec<u8>, ws: &Vec<(usize, [u8; 16])>)
    requires
        writes_within(writes_view(ws@), old(bytes)@.len() as int),
    ensures
        final(bytes)@ == apply_writes(old(bytes)@, writes_view(ws@)),
        final(bytes)@.len() == old(bytes)@.len(),
{
    let ghost orig = bytes@;
    let ghost wv = writes_view(ws@);
    let mut i: usize = 0;
    while i < ws.len()
        invariant
            wv == writes_view(ws@),
            writes_within(wv, orig.len() as int),
            i <= ws@.len(),
            bytes@ == apply_writes(orig, wv.take(i as int)),
            bytes@.len() == orig.len(),
        decreases ws@.len() - i,
    {
        let (o, g) = ws[i];
        assert(wv[i as int] == (o as int, g@));
        assert(0 <= wv[i as int].0 && wv[i as int].0 + 16 <= orig.len());
        write_guid(bytes.as_mut_slice(), o, &g);
        assert(wv.take(i + 1).drop_last() =~= wv.take(i as int));
        assert(wv.take(i + 1).last() == wv[i as int]);
        i = i + 1;
    }
    assert(wv.take(ws@.len() as int) =~= wv);
}

} // verus!
