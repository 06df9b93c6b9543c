//! The fixed binary preamble of an archive and the layout it implies.
use byteorder::{BigEndian, ByteOrder};
use vstd::prelude::*;
use vstd::slice::slice_subrange;

verus! {

/// The signature value that opens every archive (`xar!`).
pub const XAR_MAGIC: u32 = 0x78617221;

/// The only checksum algorithm id this library recognizes (SHA-1).
pub const XAR_CHECKSUM_SHA1: u32 = 1;

/// The only format version this library recognizes.
pub const XAR_VERSION: u16 = 1;

/// The number of bytes the preamble occupies.
pub const HEADER_LEN: usize = 28;

/// The decoded preamble.
#[derive(Debug)]
pub struct Header {
    pub magic: u32,
    /// Offset at which the compressed manifest begins.
    pub size: u16,
    pub version: u16,
    pub toc_length_compressed: u64,
    pub toc_length_uncompressed: u64,
    pub checksum_algorithm: u32,
}

/// The unsigned integer that the bytes `b` spell in big-endian order.
pub open spec fn be_value(b: Seq<u8>) -> nat
    decreases b.len(),
{
    if b.len() == 0 {
        0
    } else {
        be_value(b.drop_last()) * 256 + b.last() as nat
    }
}

/// Relies on `byteorder::BigEndian::read_u16`: the big-endian value of two bytes.
#[verifier::external_body]
fn be_u16(b: &[u8]) -> (r: u16)
    requires
        b@.len() == 2,
    ensures
        r as nat == be_value(b@),
{
    BigEndian::read_u16(b)
}

/// Relies on `byteorder::BigEndian::read_u32`: the big-endian value of four bytes.
#[verifier::external_body]
fn be_u32(b: &[u8]) -> (r: u32)
    requires
        b@.len() == 4,
    ensures
        r as nat == be_value(b@),
{
    BigEndian::read_u32(b)
}

/// Relies on `byteorder::BigEndian::read_u64`: the big-endian value of eight bytes.
#[verifier::external_body]
fn be_u64(b: &[u8]) -> (r: u64)
    requires
        b@.len() == 8,
    ensures
        r as nat == be_value(b@),
{
    BigEndian::read_u64(b)
}

/// The header that the first `HEADER_LEN` bytes of `b` spell.
pub open spec fn header_fields_of(h: Header, b: Seq<u8>) -> bool {
    &&& h.magic as nat == be_value(b.subrange(0, 4))
    &&& h.size as nat == be_value(b.subrange(4, 6))
    &&& h.version as nat == be_value(b.subrange(6, 8))
    &&& h.toc_length_compressed as nat == be_value(b.subrange(8, 16))
    &&& h.toc_length_uncompressed as nat == be_value(b.subrange(16, 24))
    &&& h.checksum_algorithm as nat == be_value(b.subrange(24, 28))
}

/// The header that the first `HEADER_LEN` bytes of `b` spell.
pub open spec fn decoded_header(b: Seq<u8>) -> Header {
    Header {
        magic: be_value(b.subrange(0, 4)) as u32,
        size: be_value(b.subrange(4, 6)) as u16,
        version: be_value(b.subrange(6, 8)) as u16,
        toc_length_compressed: be_value(b.subrange(8, 16)) as u64,
        toc_length_uncompressed: be_value(b.subrange(16, 24)) as u64,
        checksum_algorithm: be_value(b.subrange(24, 28)) as u32,
    }
}

impl Header {
    /// Decodes the preamble from the start of `bytes`; `None` where fewer than
    /// `HEADER_LEN` bytes are there. The values are not judged here.
    pub fn decode(bytes: &[u8]) -> (r: Option<Header>)
        ensures
            r is None <==> bytes@.len() < HEADER_LEN,
            r matches Some(h) ==> header_fields_of(h, bytes@) && h == decoded_header(bytes@),
    {
        if bytes.len() < HEADER_LEN {
            return None;
        }
        Some(
            Header {
                magic: be_u32(slice_subrange(bytes, 0, 4)),
                size: be_u16(slice_subrange(bytes, 4, 6)),
                version: be_u16(slice_subrange(bytes, 6, 8)),
                toc_length_compressed: be_u64(slice_subrange(bytes, 8, 16)),
                toc_length_uncompressed: be_u64(slice_subrange(bytes, 16, 24)),
                checksum_algorithm: be_u32(slice_subrange(bytes, 24, 28)),
            },
        )
    }

    /// Where the heap starts, as an unbounded number.
    pub open spec fn heap_base(&self) -> nat {
        self.size as nat + self.toc_length_compressed as nat
    }
}

/// A remark on a header or manifest that does not stop an archive from opening.
#[derive(Debug)]
pub enum Diagnostic {
    /// The magic number is not `XAR_MAGIC`.
    NotXar(u32),
    /// The format version is not `XAR_VERSION`.
    UnsupportedVersion(u16),
    /// The checksum algorithm id is not `XAR_CHECKSUM_SHA1`.
    UnsupportedChecksum(u32),
}

/// The remarks that the header `h` calls for, in this order.
pub open spec fn header_diagnostics(h: Header) -> Seq<Diagnostic> {
    (if h.magic != XAR_MAGIC { seq![Diagnostic::NotXar(h.magic)] } else { Seq::empty() }) + (
    if h.version != XAR_VERSION {
        seq![Diagnostic::UnsupportedVersion(h.version)]
    } else {
        Seq::empty()
    }) + (if h.checksum_algorithm != XAR_CHECKSUM_SHA1 {
        seq![Diagnostic::UnsupportedChecksum(h.checksum_algorithm)]
    } else {
        Seq::empty()
    })
}

/// Judges a decoded header against the known constants. Nothing here is fatal.
pub fn check_header(h: &Header) -> (r: Vec<Diagnostic>)
    ensures
        r@ == header_diagnostics(*h),
{
    let mut r: Vec<Diagnostic> = Vec::new();
    if h.magic != XAR_MAGIC {
        r.push(Diagnostic::NotXar(h.magic));
    }
    if h.version != XAR_VERSION {
        r.push(Diagnostic::UnsupportedVersion(h.version));
    }
    if h.checksum_algorithm != XAR_CHECKSUM_SHA1 {
        r.push(Diagnostic::UnsupportedChecksum(h.checksum_algorithm));
    }
    proof {
        assert(r@ =~= header_diagnostics(*h));
    }
    r
}

} // verus!
