//! Byte ranges of the archive, zlib decoding, and the textual patch applied to
//! the manifest before it is parsed.
use flate2::read::ZlibDecoder;
use std::io::Read;
use vstd::prelude::*;

verus! {

/// What zlib decoding makes of `data`: the decoded bytes, or on a malformed
/// stream those decoded before the fault.
pub uninterp spec fn zlib_inflated(data: Seq<u8>) -> Seq<u8>;

/// Relies on `flate2::read::ZlibDecoder` read to its end.
#[verifier::external_body]
pub(crate) fn decompress_zlib(data: &[u8]) -> (r: Vec<u8>)
    ensures
        r@ == zlib_inflated(data@),
{
    let mut buf = Vec::new();
    let _ = ZlibDecoder::new(data).read_to_end(&mut buf);
    buf
}

/// The `len` bytes of `bytes` from `start`, where they all lie within it.
pub open spec fn byte_range(bytes: Seq<u8>, start: int, len: int) -> Option<Seq<u8>> {
    if start + len <= bytes.len() {
        Some(bytes.subrange(start, start + len))
    } else {
        None
    }
}

/// Copies the `len` bytes from `start`; `None` where they run past the end.
pub(crate) fn read_range(bytes: &[u8], start: u128, len: u64) -> (r: Option<Vec<u8>>)
    requires
        start <= u128::MAX / 2,
    ensures
        match r {
            Some(v) => byte_range(bytes@, start as int, len as int) == Some(v@),
            None => byte_range(bytes@, start as int, len as int) is None,
        },
{
    if start + (len as u128) > bytes.len() as u128 {
        return None;
    }
    let lo = start as usize;
    let hi = (start + len as u128) as usize;
    Some(vstd::slice::slice_to_vec(vstd::slice::slice_subrange(bytes, lo, hi)))
}

/// The declaration `encoding="UTF-8"`, as bytes.
pub open spec fn encoding_decl() -> Seq<u8> {
    seq![101u8, 110, 99, 111, 100, 105, 110, 103, 61, 34, 85, 84, 70, 45, 56, 34]
}

/// `text` with every `encoding="UTF-8"` taken out, left to right.
pub open spec fn strip_decl(text: Seq<u8>) -> Seq<u8>
    decreases text.len(),
{
    if text.len() == 0 {
        Seq::empty()
    } else if text.len() >= 16 && text.subrange(0, 16) == encoding_decl() {
        strip_decl(text.subrange(16, text.len() as int))
    } else {
        seq![text[0]] + strip_decl(text.subrange(1, text.len() as int))
    }
}

/// Takes every `encoding="UTF-8"` out of the manifest text, which the XML
/// parser would otherwise refuse.
pub fn strip_encoding_decl(text: &[u8]) -> (r: Vec<u8>)
    ensures
        r@ == strip_decl(text@),
{
    let decl: [u8; 16] = [101u8, 110, 99, 111, 100, 105, 110, 103, 61, 34, 85, 84, 70, 45, 56, 34];
    assert(decl@ =~= encoding_decl());
    let n = text.len();
    let mut out: Vec<u8> = Vec::new();
    let mut i: usize = 0;
    assert(text@.subrange(0, n as int) =~= text@);
    while i < n
        invariant
            n == text@.len(),
            i <= n,
            decl@ == encoding_decl(),
            strip_decl(text@) == out@ + strip_decl(text@.subrange(i as int, n as int)),
        decreases n - i,
    {
        let ghost rest = text@.subrange(i as int, n as int);
        let mut hit = n - i >= 16;
        let mut j: usize = 0;
        while hit && j < 16
            invariant
                i + 16 <= n ==> j <= 16,
                n == text@.len(),
                i < n,
                decl@ == encoding_decl(),
                hit ==> i + 16 <= n && forall|k: int| 0 <= k < j ==> text@[i + k] == decl@[k],
                !hit ==> !(i + 16 <= n && text@.subrange(i as int, i + 16) == encoding_decl()),
            decreases 16 - j,
        {
            if text[i + j] != decl[j] {
                assert(text@.subrange(i as int, i + 16)[j as int] != encoding_decl()[j as int]);
                hit = false;
            }
            j = j + 1;
        }
        if hit {
            assert(rest.subrange(0, 16) =~= encoding_decl());
            assert(rest.subrange(16, rest.len() as int) =~= text@.subrange(i + 16, n as int));
            i = i + 16;
        } else {
            assert(!(rest.len() >= 16 && rest.subrange(0, 16) == encoding_decl())) by {
                if rest.len() >= 16 {
                    assert(rest.subrange(0, 16) =~= text@.subrange(i as int, i + 16));
                }
            }
            assert(rest.subrange(1, rest.len() as int) =~= text@.subrange(i + 1, n as int));
            let ghost before = out@;
            out.push(text[i]);
            assert(out@ + strip_decl(text@.subrange(i + 1, n as int)) =~= before + (seq![text@[i as int]]
                + strip_decl(text@.subrange(i + 1, n as int))));
            i = i + 1;
        }
    }
    assert(text@.subrange(n as int, n as int) =~= Seq::<u8>::empty());
    assert(out@ + Seq::<u8>::empty() =~= out@);
    out
}

} // verus!
