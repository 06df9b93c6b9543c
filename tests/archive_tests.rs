use std::io::Write;

use xartool::archive::{Archive, ArchiveError, SignatureStatus};
use xartool::digest::{digest_matches, to_hex};
use xartool::payload::strip_encoding_decl;
use xartool::format::{Diagnostic, Header};
use xartool::manifest::{parse_u64, FileType};

fn zlib(data: &[u8]) -> Vec<u8> {
    let mut enc = flate2::write::ZlibEncoder::new(Vec::new(), flate2::Compression::default());
    enc.write_all(data).unwrap();
    enc.finish().unwrap()
}

fn sha1_hex(data: &[u8]) -> String {
    sha1::Sha1::from(data).hexdigest()
}

fn sha1_raw(data: &[u8]) -> Vec<u8> {
    sha1::Sha1::from(data).digest().bytes().to_vec()
}

struct Payload {
    name: String,
    stored: Vec<u8>,
    archived: String,
    extracted: String,
}

fn payload(name: &str, content: &[u8]) -> Payload {
    let stored = zlib(content);
    Payload {
        name: name.to_string(),
        archived: sha1_hex(&stored),
        extracted: sha1_hex(content),
        stored,
    }
}

fn header_bytes(size: u16, version: u16, toc_c: u64, toc_u: u64, alg: u32, magic: u32) -> Vec<u8> {
    let mut h = Vec::new();
    h.extend_from_slice(&magic.to_be_bytes());
    h.extend_from_slice(&size.to_be_bytes());
    h.extend_from_slice(&version.to_be_bytes());
    h.extend_from_slice(&toc_c.to_be_bytes());
    h.extend_from_slice(&toc_u.to_be_bytes());
    h.extend_from_slice(&alg.to_be_bytes());
    h
}

/// Lays out an archive: the checksum bytes (20) first in the heap, then the
/// payloads in order. `dir` puts the files inside one directory entry.
/// `extra_toc` is placed inside `toc` before the files.
fn build(files: &[Payload], dir: Option<&str>, extra_toc: &str, with_checksum: bool) -> (Vec<u8>, Vec<u64>) {
    let mut offsets = Vec::new();
    let mut off: u64 = if with_checksum { 20 } else { 0 };
    let mut file_xml = String::new();
    for f in files {
        offsets.push(off);
        file_xml.push_str(&format!(
            "<file id=\"x\"><name>{}</name><type>file</type><data><offset>{}</offset><size>{}</size><length>{}</length>\
             <encoding style=\"application/x-gzip\"/><archived-checksum style=\"sha1\">{}</archived-checksum>\
             <extracted-checksum style=\"sha1\">{}</extracted-checksum></data></file>",
            f.name, off, f.stored.len(), f.stored.len(), f.archived, f.extracted
        ));
        off += f.stored.len() as u64;
    }
    if let Some(d) = dir {
        file_xml = format!("<file><name>{}</name><type>directory</type>{}</file>", d, file_xml);
    }
    let checksum_xml = if with_checksum {
        "<checksum style=\"sha1\"><offset>0</offset><size>20</size></checksum>"
    } else {
        ""
    };
    let xml = format!(
        "<?xml version=\"1.0\" encoding=\"UTF-8\"?><xar><toc>{}{}{}</toc></xar>",
        checksum_xml, extra_toc, file_xml
    );
    let toc = zlib(xml.as_bytes());
    let mut out = header_bytes(28, 1, toc.len() as u64, xml.len() as u64, 1, 0x78617221);
    out.extend_from_slice(&toc);
    if with_checksum {
        out.extend_from_slice(&sha1_raw(&toc));
    }
    for f in files {
        out.extend_from_slice(&f.stored);
    }
    (out, offsets)
}

fn heap_base(bytes: &[u8]) -> usize {
    let size = u16::from_be_bytes([bytes[4], bytes[5]]) as usize;
    let toc = u64::from_be_bytes(bytes[8..16].try_into().unwrap()) as usize;
    size + toc
}

#[test]
fn header_round_trip() {
    let bytes = header_bytes(28, 1, 100, 400, 1, 0x78617221);
    let h = Header::decode(&bytes).unwrap();
    assert_eq!(h.magic, 0x78617221);
    assert_eq!(h.size, 28);
    assert_eq!(h.version, 1);
    assert_eq!(h.toc_length_compressed, 100);
    assert_eq!(h.toc_length_uncompressed, 400);
    assert_eq!(h.checksum_algorithm, 1);
}

#[test]
fn header_heap_base_is_size_plus_manifest() {
    // A manifest padded to exactly 100 bytes after its zlib stream.
    let xml = "<xar><toc></toc></xar>";
    let mut toc = zlib(xml.as_bytes());
    assert!(toc.len() <= 100);
    toc.resize(100, 0);
    let mut bytes = header_bytes(28, 1, 100, 400, 1, 0x78617221);
    bytes.extend_from_slice(&toc);
    let a = Archive::open(bytes).unwrap();
    assert_eq!(a.heap_offset(), 128);
    assert_eq!(a.header.toc_length_uncompressed, 400);
    assert!(a.diagnostics.is_empty());
}

#[test]
fn truncated_header_is_an_error() {
    let bytes = header_bytes(28, 1, 100, 400, 1, 0x78617221);
    assert!(Header::decode(&bytes[..27]).is_none());
    assert!(matches!(Archive::open(bytes[..27].to_vec()), Err(ArchiveError::TruncatedHeader)));
}

#[test]
fn manifest_past_the_end_is_an_error() {
    let bytes = header_bytes(28, 1, 100, 400, 1, 0x78617221);
    assert!(matches!(Archive::open(bytes), Err(ArchiveError::ManifestOutOfBounds)));
}

#[test]
fn unparsable_manifest_reports_missing_xar() {
    let toc = zlib(b"this is <not xml");
    let mut bytes = header_bytes(28, 1, toc.len() as u64, 16, 1, 0x78617221);
    bytes.extend_from_slice(&toc);
    assert!(matches!(Archive::open(bytes), Err(ArchiveError::MissingXarElement)));
}

#[test]
fn missing_toc_is_an_error() {
    let toc = zlib(b"<xar><other/></xar>");
    let mut bytes = header_bytes(28, 1, toc.len() as u64, 19, 1, 0x78617221);
    bytes.extend_from_slice(&toc);
    assert!(matches!(Archive::open(bytes), Err(ArchiveError::MissingTocElement)));
}

#[test]
fn checksum_past_the_end_is_an_error() {
    let (mut bytes, _) = build(&[], None, "", true);
    let n = bytes.len();
    bytes.truncate(n - 5);
    assert!(matches!(Archive::open(bytes), Err(ArchiveError::HeapOutOfBounds)));
}

#[test]
fn unrecognized_header_values_are_diagnostics() {
    let (mut bytes, _) = build(&[payload("a.txt", b"hello")], None, "", true);
    bytes[0] = b'y';
    bytes[7] = 2;
    bytes[27] = 2;
    let a = Archive::open(bytes).unwrap();
    assert_eq!(a.diagnostics.len(), 3);
    assert!(matches!(a.diagnostics[0], Diagnostic::NotXar(0x79617221)));
    assert!(matches!(a.diagnostics[1], Diagnostic::UnsupportedVersion(2)));
    assert!(matches!(a.diagnostics[2], Diagnostic::UnsupportedChecksum(2)));
    assert!(a.verify().is_ok());
}

#[test]
fn well_formed_archive_verifies() {
    let files = [payload("a.txt", b"hello world"), payload("b.txt", b"second file")];
    let (bytes, offsets) = build(&files, None, "", true);
    let a = Archive::open(bytes).unwrap();
    assert_eq!(a.files.len(), 2);
    assert_eq!(a.files[0].name, "a.txt");
    assert!(matches!(a.files[0].file_type, FileType::File));
    let d = a.files[1].data.as_ref().unwrap();
    assert_eq!(d.location.offset, offsets[1]);
    assert_eq!(d.length, files[1].stored.len() as u64);
    assert_eq!(d.archived_checksum, files[1].archived);
    let c = a.checksum.as_ref().unwrap();
    assert_eq!(c.style, "sha1");
    assert_eq!(c.data.len(), 20);
    assert!(matches!(a.verify(), Ok(SignatureStatus::Absent)));
}

#[test]
fn archive_without_checksum_verifies_files() {
    let (bytes, _) = build(&[payload("a.txt", b"abc")], None, "", false);
    let a = Archive::open(bytes).unwrap();
    assert!(a.checksum.is_none());
    assert!(matches!(a.verify(), Ok(SignatureStatus::Absent)));
}

#[test]
fn corrupted_manifest_checksum_short_circuits() {
    let mut files = [payload("a.txt", b"hello"), payload("b.txt", b"world")];
    files[0].archived = "0".repeat(40);
    let (mut bytes, _) = build(&files, None, "", true);
    let base = heap_base(&bytes);
    bytes[base] ^= 0xff;
    let a = Archive::open(bytes).unwrap();
    let err = a.verify().unwrap_err();
    assert!(err.starts_with("Checksum mismatch. Expected "));
    assert!(!err.contains("Digest mismatch"));
    assert!(!err.contains("a.txt"));
}

#[test]
fn checksum_message_names_both_digests() {
    let (mut bytes, _) = build(&[], None, "", true);
    let base = heap_base(&bytes);
    let toc = bytes[28..base].to_vec();
    for b in &mut bytes[base..base + 20] {
        *b = 0xab;
    }
    let a = Archive::open(bytes).unwrap();
    let expected = format!("Checksum mismatch. Expected {}, actual {}", "ab".repeat(20), sha1_hex(&toc));
    assert_eq!(a.verify().unwrap_err(), expected);
}

#[test]
fn corrupted_file_bytes_give_one_archived_mismatch() {
    let files = [payload("good.txt", b"fine content"), payload("bad.txt", b"content to damage")];
    let (mut bytes, offsets) = build(&files, None, "", true);
    let base = heap_base(&bytes);
    // The last byte of the stored stream is part of its adler32 trailer: the
    // content still decompresses, the stored digest changes.
    let last = base + offsets[1] as usize + files[1].stored.len() - 1;
    bytes[last] ^= 0x01;
    let a = Archive::open(bytes).unwrap();
    let err = a.verify().unwrap_err();
    assert_eq!(err.matches("Digest mismatch for bad.txt.").count(), 1);
    assert!(err.contains(&format!("Digest mismatch for bad.txt. Expected {}, actual ", files[1].archived)));
    assert!(!err.contains("good.txt"));
    assert!(err.starts_with("Digest mismatch for bad.txt."));
}

#[test]
fn wrong_extracted_checksums_are_all_reported() {
    let mut files = [payload("f1", b"one"), payload("f2", b"two"), payload("f3", b"three")];
    for f in files.iter_mut() {
        f.extracted = "1".repeat(40);
    }
    let (bytes, _) = build(&files, Some("dir"), "", true);
    let a = Archive::open(bytes).unwrap();
    assert_eq!(a.files.len(), 1);
    assert!(matches!(a.files[0].file_type, FileType::Directory));
    assert_eq!(a.files[0].children.len(), 3);
    let err = a.verify().unwrap_err();
    assert_eq!(err.matches("Extracted digest mismatch for ").count(), 3);
    let mut names: Vec<&str> = Vec::new();
    for n in ["f1", "f2", "f3"] {
        let entry = format!(
            "Extracted digest mismatch for {}. Expected {}, actual {}",
            n,
            "1".repeat(40),
            sha1_hex(match n {
                "f1" => b"one".as_slice(),
                "f2" => b"two".as_slice(),
                _ => b"three".as_slice(),
            })
        );
        assert!(err.contains(&entry));
        names.push(n);
    }
    names.sort();
    names.dedup();
    assert_eq!(names.len(), 3);
    assert!(!err.contains("Digest mismatch for f"));
}

#[test]
fn unknown_toc_elements_are_ignored() {
    let files = [payload("a.txt", b"alpha")];
    let (plain, _) = build(&files, None, "", true);
    let (extra, _) = build(&files, None, "<creation-time>2020</creation-time><misc a=\"1\"><file><name>no</name></file></misc>", true);
    let a = Archive::open(plain).unwrap();
    let b = Archive::open(extra).unwrap();
    assert_eq!(a.files.len(), b.files.len());
    assert_eq!(b.files[0].name, "a.txt");
    assert!(b.checksum.is_some());
    assert!(matches!(a.verify(), Ok(SignatureStatus::Absent)));
    assert!(matches!(b.verify(), Ok(SignatureStatus::Absent)));
}

#[test]
fn heap_reads_repeat() {
    let (bytes, offsets) = build(&[payload("a.txt", b"some bytes")], None, "", true);
    let a = Archive::open(bytes.clone()).unwrap();
    let start = a.heap_offset() + offsets[0];
    let first = a.read_heap(start, 5).unwrap();
    let second = a.read_heap(start, 5).unwrap();
    assert_eq!(first, second);
    assert_eq!(first, bytes[start as usize..start as usize + 5].to_vec());
    assert!(a.read_heap(bytes.len() as u64 - 2, 5).is_none());
    assert_eq!(a.verify().is_ok(), a.verify().is_ok());
}

#[test]
fn signature_is_reported_unverified() {
    let sig = "<signature style=\"RSA\"><offset>0</offset><size>4</size><KeyInfo><X509Data>\
               <X509Certificate>CERTA</X509Certificate><X509Certificate>CERTB</X509Certificate>\
               </X509Data></KeyInfo></signature>";
    let (bytes, _) = build(&[payload("a.txt", b"x")], None, sig, true);
    let base = heap_base(&bytes);
    let a = Archive::open(bytes.clone()).unwrap();
    let s = a.signature.as_ref().unwrap();
    assert_eq!(s.style, "RSA");
    assert_eq!(s.x509_certs, vec!["CERTA".to_string(), "CERTB".to_string()]);
    assert_eq!(s.data, bytes[base..base + 4].to_vec());
    assert!(matches!(a.verify(), Ok(SignatureStatus::PresentNotVerified)));
}

#[test]
fn unreadable_file_data_fails_verification() {
    let files = [payload("a.txt", b"data that will be cut")];
    let (mut bytes, _) = build(&files, None, "", true);
    let n = bytes.len();
    bytes.truncate(n - 3);
    let a = Archive::open(bytes).unwrap();
    assert_eq!(a.verify().unwrap_err(), "Cannot read the data of a.txt");
}

#[test]
fn uppercase_recorded_digest_matches() {
    let mut files = [payload("a.txt", b"case")];
    files[0].archived = files[0].archived.to_uppercase();
    let (bytes, _) = build(&files, None, "", true);
    let a = Archive::open(bytes).unwrap();
    assert!(a.verify().is_ok());
}

#[test]
fn malformed_numbers_read_as_zero() {
    let extra = "<file><name>odd</name><type>symlink</type><data><offset>abc</offset><size>-1</size>\
                 <length>+7</length><encoding style=\"other\"/></data></file>";
    let (bytes, _) = build(&[], None, extra, false);
    let a = Archive::open(bytes).unwrap();
    let f = &a.files[0];
    assert!(matches!(f.file_type, FileType::Other));
    let d = f.data.as_ref().unwrap();
    assert_eq!(d.location.offset, 0);
    assert_eq!(d.location.size, 0);
    assert_eq!(d.length, 7);
    assert!(matches!(d.encoding, xartool::manifest::Encoding::Other));
    assert_eq!(d.archived_checksum, "");
    assert!(a.verify().is_ok());
}

#[test]
fn gzip_encoding_is_recognized() {
    let (bytes, _) = build(&[payload("a.txt", b"z")], None, "", false);
    let a = Archive::open(bytes).unwrap();
    let d = a.files[0].data.as_ref().unwrap();
    assert!(matches!(d.encoding, xartool::manifest::Encoding::Gzip));
}

#[test]
fn last_name_and_type_win() {
    let extra = "<file><name>first</name><type>directory</type><name>second</name><type>file</type></file>";
    let (bytes, _) = build(&[], None, extra, false);
    let a = Archive::open(bytes).unwrap();
    assert_eq!(a.files[0].name, "second");
    assert!(matches!(a.files[0].file_type, FileType::File));
    assert!(a.files[0].data.is_none());
}

#[test]
fn hex_encoding() {
    assert_eq!(to_hex(&[0x00, 0x0f, 0xa5, 0xff]), "000fa5ff");
    assert_eq!(to_hex(&[]), "");
}

#[test]
fn digest_comparison_ignores_ascii_case() {
    assert!(digest_matches("ABCdef", "abcdef"));
    assert!(!digest_matches("abcde", "abcdef"));
    assert!(!digest_matches("abcdeg", "abcdef"));
}

#[test]
fn decimal_numbers() {
    assert_eq!(parse_u64(b"42"), Some(42));
    assert_eq!(parse_u64(b"+42"), Some(42));
    assert_eq!(parse_u64(b"0007"), Some(7));
    assert_eq!(parse_u64(b"18446744073709551615"), Some(u64::MAX));
    assert_eq!(parse_u64(b"18446744073709551616"), None);
    assert_eq!(parse_u64(b""), None);
    assert_eq!(parse_u64(b"+"), None);
    assert_eq!(parse_u64(b"-1"), None);
    assert_eq!(parse_u64(b" 1"), None);
}

#[test]
fn encoding_declaration_is_stripped() {
    let text = b"<?xml version=\"1.0\" encoding=\"UTF-8\"?><a encoding=\"UTF-8\"/>";
    let out = strip_encoding_decl(text);
    assert_eq!(out, b"<?xml version=\"1.0\" ?><a />".to_vec());
    assert_eq!(strip_encoding_decl(b"encoding=\"UTF-8"), b"encoding=\"UTF-8".to_vec());
}
