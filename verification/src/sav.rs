//! The `.sav` container of a Palworld save.
//!
//! A `.sav` file is a 12-byte header followed by compressed data:
//! bytes `0..4` the uncompressed length (little-endian `u32`), `4..8` the
//! compressed length, `8..11` the magic (`CNK`, `PlZ` or `PlM`), `11` the save
//! type, then the payload. `CNK` is one zlib layer, `PlZ` two nested zlib
//! layers, and `PlM` an Oodle Kraken stream of exactly the compressed length.
//! Writing always produces `CNK` or `PlZ`: a `PlM` save is written as `PlZ`,
//! since only a Kraken decoder is available.

use std::io::{Cursor, Read};
use vstd::prelude::*;
use vstd::bytes::{spec_u32_from_le_bytes, spec_u32_to_le_bytes, u32_from_le_bytes, u32_to_le_bytes, lemma_auto_spec_u32_to_from_le_bytes};
use flate2::read::{ZlibDecoder, ZlibEncoder};
use flate2::Compression;

verus! {

/// What zlib decompression of `data` gives, if `data` starts with a valid
/// zlib stream.
pub uninterp spec fn zlib_inflate(data: Seq<u8>) -> Option<Seq<u8>>;

/// What zlib compression of `data` at the default level gives.
pub uninterp spec fn zlib_deflate(data: Seq<u8>) -> Option<Seq<u8>>;

/// Decompresses one zlib stream: reads a `flate2::read::ZlibDecoder` over
/// `data` to its end. The result is named by `zlib_inflate`.
#[verifier::external_body]
fn zlib_decompress(data: &[u8]) -> (r: Result<Vec<u8>, String>)
    ensures
        match r {
            Ok(v) => zlib_inflate(data@) == Some(v@),
            Err(_) => zlib_inflate(data@) is None,
        },
{
    let mut decoder = ZlibDecoder::new(Cursor::new(data));
    let mut out = Vec::new();
    match decoder.read_to_end(&mut out) {
        Ok(_) => Ok(out),
        Err(e) => Err(format!("zlib 解压失败: {}", e)),
    }
}

/// Compresses `data` into one zlib stream: reads a `flate2::read::ZlibEncoder`
/// at `Compression::default()` over `data` to its end. The result is named by
/// `zlib_deflate`; zlib being lossless, decompressing it gives `data` back.
/// Compressing from memory into memory does not fail: the reader never
/// errs, and the encoder reports no error on well-formed calls.
#[verifier::external_body]
fn zlib_compress(data: &[u8]) -> (r: Result<Vec<u8>, String>)
    ensures
        r is Ok,
        match r {
            Ok(c) => zlib_deflate(data@) == Some(c@),
            Err(_) => zlib_deflate(data@) is None,
        },
        r matches Ok(c) ==> zlib_inflate(c@) == Some(data@),
{
    let mut encoder = ZlibEncoder::new(Cursor::new(data), Compression::default());
    let mut out = Vec::new();
    match encoder.read_to_end(&mut out) {
        Ok(_) => Ok(out),
        Err(e) => Err(format!("zlib 压缩失败: {}", e)),
    }
}

/// How the payload of a `.sav` is compressed.
#[derive(Clone, Copy, PartialEq, Eq, Debug, Structural)]
pub enum SavCompression {
    /// One zlib layer (`CNK`).
    Cnk,
    /// Two nested zlib layers (`PlZ`).
    Plz,
    /// Oodle Kraken (`PlM`); read only, written as `PlZ`.
    Plm,
}

/// The magic bytes of a compression.
pub open spec fn magic_of(c: SavCompression) -> Seq<u8> {
    match c {
        SavCompression::Cnk => seq![67u8, 78u8, 75u8],
        SavCompression::Plz => seq![80u8, 108u8, 90u8],
        SavCompression::Plm => seq![80u8, 108u8, 77u8],
    }
}

/// The save-type byte of a compression.
pub open spec fn save_type_of(c: SavCompression) -> u8 {
    match c {
        SavCompression::Cnk => 48,
        SavCompression::Plz => 50,
        SavCompression::Plm => 49,
    }
}

/// The compression named by three magic bytes.
pub open spec fn compression_of_magic(m: Seq<u8>) -> Option<SavCompression> {
    if m == magic_of(SavCompression::Cnk) {
        Some(SavCompression::Cnk)
    } else if m == magic_of(SavCompression::Plz) {
        Some(SavCompression::Plz)
    } else if m == magic_of(SavCompression::Plm) {
        Some(SavCompression::Plm)
    } else {
        None
    }
}

/// The compression a save is written with.
pub open spec fn written_compression(c: SavCompression) -> SavCompression {
    match c {
        SavCompression::Plm => SavCompression::Plz,
        other => other,
    }
}

/// The little-endian `u32` at offset `p`.
pub open spec fn u32_at(b: Seq<u8>, p: int) -> u32 {
    spec_u32_from_le_bytes(b.subrange(p, p + 4))
}

/// The Kraken payload of a `PlM` save and the length it decodes to, when
/// the header's compressed length fits the file.
pub open spec fn plm_payload(b: Seq<u8>) -> Option<(Seq<u8>, u32)> {
    if b.len() >= 12 && compression_of_magic(b.subrange(8, 11)) == Some(SavCompression::Plm) && 12 + u32_at(b, 4)
        <= b.len() {
        Some((b.subrange(12, 12 + u32_at(b, 4)), u32_at(b, 0)))
    } else {
        None
    }
}

/// Whether `b` is a `PlM` save by its header.
pub open spec fn is_plm(b: Seq<u8>) -> bool {
    b.len() >= 12 && compression_of_magic(b.subrange(8, 11)) == Some(SavCompression::Plm)
}

/// The decompressed save and its compression, when `b` is a readable zlib
/// `.sav` (`CNK` or `PlZ`); a `PlM` save needs a Kraken decoder (see
/// `plm_payload`).
pub open spec fn decode_spec(b: Seq<u8>) -> Option<(Seq<u8>, SavCompression)> {
    if b.len() < 12 {
        None
    } else {
        let data = b.subrange(12, b.len() as int);
        match compression_of_magic(b.subrange(8, 11)) {
            None => None,
            Some(SavCompression::Cnk) => match zlib_inflate(data) {
                Some(p) => Some((p, SavCompression::Cnk)),
                None => None,
            },
            Some(SavCompression::Plz) => match zlib_inflate(data) {
                Some(inner) => match zlib_inflate(inner) {
                    Some(p) => Some((p, SavCompression::Plz)),
                    None => None,
                },
                None => None,
            },
            Some(SavCompression::Plm) => None,
        }
    }
}

/// The compressed payload and the header's compressed length of a save
/// written with compression `c`: for `PlZ` the payload is zlib of zlib and the
/// header holds the inner stream's length.
pub open spec fn encoded_payload(raw: Seq<u8>, c: SavCompression) -> Option<(Seq<u8>, u32)> {
    match zlib_deflate(raw) {
        None => None,
        Some(inner) => match written_compression(c) {
            SavCompression::Cnk => Some((inner, inner.len() as u32)),
            _ => match zlib_deflate(inner) {
                None => None,
                Some(outer) => Some((outer, inner.len() as u32)),
            },
        },
    }
}

/// The bytes of the `.sav` file that holds `raw` with compression `c`.
pub open spec fn sav_image(raw: Seq<u8>, c: SavCompression) -> Option<Seq<u8>> {
    match encoded_payload(raw, c) {
        None => None,
        Some((payload, cl)) => {
            let w = written_compression(c);
            Some(
                spec_u32_to_le_bytes(raw.len() as u32) + spec_u32_to_le_bytes(cl) + magic_of(w)
                    + seq![save_type_of(w)] + payload,
            )
        },
    }
}

/// A written `.sav` file records in its header the length of the GVAS
/// bytes and the length of the inner zlib stream (for `PlZ`, the stream that
/// the outer one wraps), and holds after byte 12 that stream itself, or for
/// `PlZ` its zlib compression.
pub proof fn lemma_sav_image_header(raw: Seq<u8>, c: SavCompression)
    ensures
        sav_image(raw, c) matches Some(img) ==> zlib_deflate(raw) matches Some(inner) && img.len() >= 12 && u32_at(img, 0)
            == raw.len() as u32 && u32_at(img, 4) == inner.len() as u32 && img.subrange(12, img.len() as int) == if written_compression(c)
            == SavCompression::Cnk {
            inner
        } else {
            zlib_deflate(inner)->0
        },
{
    if let Some(img) = sav_image(raw, c) {
        let inner = zlib_deflate(raw)->0;
        let (payload, cl) = encoded_payload(raw, c)->0;
        let w = written_compression(c);
        lemma_auto_spec_u32_to_from_le_bytes();
        let h0 = spec_u32_to_le_bytes(raw.len() as u32);
        let h1 = spec_u32_to_le_bytes(cl);
        assert(img == h0 + h1 + magic_of(w) + seq![save_type_of(w)] + payload);
        assert(magic_of(w).len() == 3);
        assert(img.subrange(0, 4) =~= h0);
        assert(img.subrange(4, 8) =~= h1);
        assert(img.subrange(12, img.len() as int) =~= payload);
    }
}

/// A decompressed save and how it was compressed.
pub struct SavFile {
    /// The GVAS bytes, without the `.sav` header.
    pub raw: Vec<u8>,
    /// The compression the save was read with.
    pub compression: SavCompression,
}

impl SavCompression {
    /// The magic bytes.
    pub fn magic(self) -> (m: [u8; 3])
        ensures
            m@ == magic_of(self),
    {
        let m = match self {
            SavCompression::Cnk => [67u8, 78u8, 75u8],
            SavCompression::Plz => [80u8, 108u8, 90u8],
            SavCompression::Plm => [80u8, 108u8, 77u8],
        };
        assert(m@ =~= magic_of(self));
        m
    }

    /// The save-type byte.
    pub fn save_type(self) -> (t: u8)
        ensures
            t == save_type_of(self),
    {
        match self {
            SavCompression::Cnk => 48,
            SavCompression::Plz => 50,
            SavCompression::Plm => 49,
        }
    }
}

fn magic_is(b: &[u8], c: SavCompression) -> (r: bool)
    requires
        b@.len() >= 11,
    ensures
        r == (b@.subrange(8, 11) == magic_of(c)),
{
    let m = c.magic();
    let r = b[8] == m[0] && b[9] == m[1] && b[10] == m[2];
    proof {
        if r {
            assert(b@.subrange(8, 11) =~= magic_of(c));
        } else if b@.subrange(8, 11) == magic_of(c) {
            assert(b@.subrange(8, 11)[0] == b@[8]);
            assert(b@.subrange(8, 11)[1] == b@[9]);
            assert(b@.subrange(8, 11)[2] == b@[10]);
        }
    }
    r
}

/// Accepts a Kraken decoder's output only when it wrote exactly the expected
/// number of bytes.
pub fn accept_kraken_output(output: Vec<u8>, written: usize, expected: usize) -> (r: Result<
    Vec<u8>,
    String,
>)
    ensures
        written == expected ==> r == Ok::<Vec<u8>, String>(output),
        written != expected ==> (r matches Err(e) && e@ == kraken_length_message()),
{
    if written != expected {
        return Err(String::from_str("Oodle(Kraken) 解码长度不符（压缩数据切片不精确或文件损坏？）"));
    }
    Ok(output)
}

/// The refusal when a Kraken decoder wrote another number of bytes.
pub open spec fn kraken_length_message() -> Seq<char> {
    "Oodle(Kraken) 解码长度不符（压缩数据切片不精确或文件损坏？）"@
}

/// Reads the header and decompresses the payload of a `.sav` file. A `PlM`
/// payload goes to `kraken`, which decodes a payload into a buffer of the
/// given length and reports how many bytes it wrote; the result is kept only
/// when it wrote exactly that many.
pub fn decode_sav<K>(bytes: &[u8], kraken: K) -> (r: Result<(Vec<u8>, SavCompression), String>) where
    K: FnOnce(Vec<u8>, usize) -> Result<(Vec<u8>, usize), String>,

    requires
        forall|p: Vec<u8>, n: usize| call_requires(kraken, (p, n)),
    ensures
        !is_plm(bytes@) ==> match decode_spec(bytes@) {
            Some((p, c)) => r matches Ok((v, d)) && v@ == p && d == c,
            None => r is Err,
        },
        bytes@.len() < 12 ==> (r matches Err(e) && e@ == "文件过短，不是合法的 Palworld .sav"@),
        bytes@.len() >= 12 && compression_of_magic(bytes@.subrange(8, 11)) is None ==> (r matches Err(e) && e@
            == "未知压缩魔法字节"@),
        is_plm(bytes@) && plm_payload(bytes@) is None ==> (r matches Err(e) && e@ == "PlM 压缩长度越界"@),
        plm_payload(bytes@) matches Some((pl, ul)) ==> (r matches Ok((v, d)) ==> (d == SavCompression::Plm && (exists|q: Vec<u8>, w: usize|
            q@ == pl && w == ul && #[trigger] call_ensures(kraken, (q, ul as usize), Ok::<(Vec<u8>, usize), String>((v, w)))))),
        plm_payload(bytes@) matches Some((pl, ul)) ==> (r matches Err(e) ==> e@ == kraken_length_message() || exists|q: Vec<u8>|
            q@ == pl && #[trigger] call_ensures(kraken, (q, ul as usize), Err::<(Vec<u8>, usize), String>(e))),
        plm_payload(bytes@) matches Some((pl, ul)) ==> ((forall|q: Vec<u8>, x: Result<(Vec<u8>, usize), String>| #[trigger] call_ensures(kraken, (q, ul as usize), x)
            ==> (x matches Ok((_, w)) && w == ul)) ==> r is Ok),
{
    let n = bytes.len();
    if n < 12 {
        return Err(String::from_str("文件过短，不是合法的 Palworld .sav"));
    }
    let data = &bytes[12..n];
    assert(data@ =~= bytes@.subrange(12, n as int));
    if magic_is(bytes, SavCompression::Cnk) {
        let p = zlib_decompress(data)?;
        Ok((p, SavCompression::Cnk))
    } else if magic_is(bytes, SavCompression::Plz) {
        let inner = zlib_decompress(data)?;
        let p = zlib_decompress(inner.as_slice())?;
        Ok((p, SavCompression::Plz))
    } else if magic_is(bytes, SavCompression::Plm) {
        let h0 = &bytes[0..4];
        let h1 = &bytes[4..8];
        assert(bytes@.subrange(0, 4) =~= h0@);
        assert(bytes@.subrange(4, 8) =~= h1@);
        let ul = u32_from_le_bytes(h0);
        let cl = u32_from_le_bytes(h1);
        let cl = cl as usize;
        if cl > n - 12 {
            return Err(String::from_str("PlM 压缩长度越界"));
        }
        let mut payload: Vec<u8> = Vec::new();
        payload.extend_from_slice(&bytes[12..12 + cl]);
        assert(payload@ =~= bytes@.subrange(12, 12 + cl as int));
        let ghost pg = payload;
        proof {
            assert(ul == u32_at(bytes@, 0));
            assert(cl == u32_at(bytes@, 4));
            assert(plm_payload(bytes@) == Some((pg@, ul)));
        }
        let decoded = kraken(payload, ul as usize);
        match decoded {
            Ok((output, written)) => {
                let ghost og = output;
                proof {
                    assert(call_ensures(kraken, (pg, ul as usize), Ok::<(Vec<u8>, usize), String>((og, written))));
                }
                if written != ul as usize {
                    proof {
                        let (pl2, ul2) = plm_payload(bytes@)->0;
                        assert(pl2 == pg@ && ul2 == ul);
                        assert(!(Ok::<(Vec<u8>, usize), String>((og, written)) matches Ok((_, w)) && w == ul2));
                        assert(!(forall|q: Vec<u8>, x: Result<(Vec<u8>, usize), String>| #[trigger] call_ensures(kraken, (q, ul2 as usize), x)
                            ==> (x matches Ok((_, w)) && w == ul2)));
                    }
                    return accept_kraken_output(output, written, ul as usize).map(|v: Vec<u8>| (v, SavCompression::Plm));
                }
                let p = accept_kraken_output(output, written, ul as usize)?;
                proof {
                    assert(p@ == og@);
                    assert(exists|q: Vec<u8>, w: usize| q@ == pg@ && w == ul && #[trigger] call_ensures(kraken, (q, ul as usize), Ok::<(Vec<u8>, usize), String>((p, w))));
                    let (pl2, ul2) = plm_payload(bytes@)->0;
                    assert(pl2 == pg@);
                    assert(ul2 == ul);
                    assert(exists|q: Vec<u8>, w: usize| q@ == pl2 && w == ul2 && #[trigger] call_ensures(kraken, (q, ul2 as usize), Ok::<(Vec<u8>, usize), String>((p, w))));
                }
                let res: Result<(Vec<u8>, SavCompression), String> = Ok((p, SavCompression::Plm));
                proof {
                    let (pl2, ul2) = plm_payload(bytes@)->0;
                    assert(res is Ok);
                    assert(res->Ok_0.1 == SavCompression::Plm);
                    assert(res->Ok_0.0 == p);
                    assert(res matches Ok((v, d)) ==> (d == SavCompression::Plm && (exists|q: Vec<u8>, w: usize|
                        q@ == pl2 && w == ul2 && #[trigger] call_ensures(kraken, (q, ul2 as usize), Ok::<(Vec<u8>, usize), String>((v, w))))));
                }
                res
            },
            Err(e) => {
                proof {
                    assert(call_ensures(kraken, (pg, ul as usize), Err::<(Vec<u8>, usize), String>(e)));
                    let (pl2, ul2) = plm_payload(bytes@)->0;
                    assert(pl2 == pg@ && ul2 == ul);
                    assert(exists|q: Vec<u8>| q@ == pl2 && #[trigger] call_ensures(kraken, (q, ul2 as usize), Err::<(Vec<u8>, usize), String>(e)));
                }
                Err(e)
            },
        }
    } else {
        Err(String::from_str("未知压缩魔法字节"))
    }
}

impl SavFile {
    /// Reads a complete `.sav` file held in memory; a `PlM` payload goes to
    /// `kraken` (see `decode_sav`).
    pub fn from_bytes<K>(bytes: &[u8], kraken: K) -> (r: Result<SavFile, String>) where
        K: FnOnce(Vec<u8>, usize) -> Result<(Vec<u8>, usize), String>,

        requires
            forall|p: Vec<u8>, n: usize| call_requires(kraken, (p, n)),
        ensures
            !is_plm(bytes@) ==> match decode_spec(bytes@) {
                Some((p, c)) => r matches Ok(s) && s.raw@ == p && s.compression == c,
                None => r is Err,
            },
            bytes@.len() < 12 ==> (r matches Err(e) && e@ == "文件过短，不是合法的 Palworld .sav"@),
            bytes@.len() >= 12 && compression_of_magic(bytes@.subrange(8, 11)) is None ==> (r matches Err(e) && e@
                == "未知压缩魔法字节"@),
            is_plm(bytes@) && plm_payload(bytes@) is None ==> (r matches Err(e) && e@ == "PlM 压缩长度越界"@),
            plm_payload(bytes@) matches Some((pl, ul)) ==> {
                &&& r matches Ok(s) ==> s.compression == SavCompression::Plm && exists|q: Vec<u8>, w: usize, v: Vec<u8>|
                    q@ == pl && w == ul && v@ == s.raw@ && #[trigger] call_ensures(kraken, (q, ul as usize), Ok::<(Vec<u8>, usize), String>((v, w)))
                &&& r matches Err(e) ==> e@ == kraken_length_message() || exists|q: Vec<u8>|
                    q@ == pl && #[trigger] call_ensures(kraken, (q, ul as usize), Err::<(Vec<u8>, usize), String>(e))
                &&& (forall|q: Vec<u8>, x: Result<(Vec<u8>, usize), String>| #[trigger] call_ensures(kraken, (q, ul as usize), x)
                    ==> (x matches Ok((_, w)) && w == ul)) ==> r is Ok
            },
    {
        let (raw, compression) = decode_sav(bytes, kraken)?;
        Ok(SavFile { raw, compression })
    }

    /// The complete `.sav` file bytes: a `PlM` save is written as `PlZ`.
    /// Reading the result back gives the same GVAS bytes.
    pub fn to_bytes(&self) -> (r: Result<Vec<u8>, String>)
        ensures
            r is Ok,
            match sav_image(self.raw@, self.compression) {
                Some(img) => r matches Ok(out) && out@ == img,
                None => r is Err,
            },
            r matches Ok(out) ==> decode_spec(out@) == Some(
                (self.raw@, written_compression(self.compression)),
            ),
            r matches Ok(out) ==> zlib_deflate(self.raw@) matches Some(inner) && out@.len() >= 12 && u32_at(out@, 0)
                == self.raw@.len() as u32 && u32_at(out@, 4) == inner.len() as u32 && out@.subrange(12, out@.len() as int)
                == if written_compression(self.compression) == SavCompression::Cnk {
                inner
            } else {
                zlib_deflate(inner)->0
            },
    {
        let w = match self.compression {
            SavCompression::Plm => SavCompression::Plz,
            other => other,
        };
        let inner = zlib_compress(self.raw.as_slice())?;
        #[verifier::truncate]
        let inner_len = inner.len() as u32;
        let payload = match w {
            SavCompression::Cnk => inner,
            _ => zlib_compress(inner.as_slice())?,
        };
        #[verifier::truncate]
        let raw_len = self.raw.len() as u32;
        let mut out: Vec<u8> = Vec::new();
        let a = u32_to_le_bytes(raw_len);
        out.extend_from_slice(a.as_slice());
        let b = u32_to_le_bytes(inner_len);
        out.extend_from_slice(b.as_slice());
        let m = w.magic();
        out.extend_from_slice(m.as_slice());
        out.push(w.save_type());
        out.extend_from_slice(payload.as_slice());
        proof {
            let img = spec_u32_to_le_bytes(raw_len) + spec_u32_to_le_bytes(inner_len) + magic_of(w)
                + seq![save_type_of(w)] + payload@;
            assert(out@ =~= img);
            lemma_auto_spec_u32_to_from_le_bytes();
            assert(out@.subrange(8, 11) =~= magic_of(w));
            assert(out@.subrange(12, out@.len() as int) =~= payload@);
            lemma_sav_image_header(self.raw@, self.compression);
        }
        Ok(out)
    }

    /// Replaces, scanning left to right, every non-overlapping occurrence of
    /// the 16 bytes `old_uid` in the GVAS bytes by `new_uid`; a no-op when the
    /// two are equal.
    pub fn replace_guid_bytes(&mut self, old_uid: &[u8; 16], new_uid: &[u8; 16])
        ensures
            final(self).compression == old(self).compression,
            old_uid@ == new_uid@ ==> final(self).raw@ == old(self).raw@,
            old_uid@ != new_uid@ ==> final(self).raw@ == crate::guid::replace_all_spec(
                old(self).raw@,
                old_uid@,
                new_uid@,
            ),
    {
        if crate::guid_bytes::guid_eq(old_uid, new_uid) {
            return;
        }
        crate::guid::replace_all(self.raw.as_mut_slice(), old_uid, new_uid);
    }
}

} // verus!
