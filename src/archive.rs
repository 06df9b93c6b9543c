//! An archive held in memory: opening it decodes the header, decompresses and
//! parses the manifest, and reads the entities it describes.
use crate::format::{
    check_header, decoded_header, header_diagnostics, Diagnostic, Header, HEADER_LEN,
};
use crate::manifest::{
    certificates_of, file_of, file_view, heap_ref_of, lemma_views_upto_push, parse_checksum,
    parse_file, parse_signature, views_of, Checksum, File, FileView, Signature,
};
use crate::payload::{
    byte_range, decompress_zlib, read_range, strip_decl, strip_encoding_decl, zlib_inflated,
};
use crate::verify::texts_of;
use crate::xml::{
    attribute_text, find_child, find_named, first_named, parse_document, parsed_document,
    XmlElement, XmlNode,
};
use vstd::prelude::*;

verus! {

/// The last element among the first `k` of `nodes` named `name`.
pub open spec fn last_named(nodes: Seq<XmlNode>, k: int, name: Seq<char>) -> Option<XmlElement>
    decreases k,
{
    if k <= 0 || k > nodes.len() {
        None
    } else if nodes[k - 1] is Element && nodes[k - 1]->Element_0.name@ == name {
        Some(nodes[k - 1]->Element_0)
    } else {
        last_named(nodes, k - 1, name)
    }
}

/// The entries that the `file` elements among the first `k` of `nodes` describe.
pub open spec fn toc_files(nodes: Seq<XmlNode>, k: int) -> Seq<FileView>
    decreases k,
{
    if k <= 0 || k > nodes.len() {
        Seq::empty()
    } else if nodes[k - 1] is Element && nodes[k - 1]->Element_0.name@ == "file"@ {
        toc_files(nodes, k - 1).push(file_of(nodes[k - 1]->Element_0))
    } else {
        toc_files(nodes, k - 1)
    }
}

/// The heap bytes that the element `e` locates, if they lie within `bytes`.
pub open spec fn payload_of(e: XmlElement, bytes: Seq<u8>, base: nat) -> Option<Seq<u8>> {
    byte_range(bytes, base + heap_ref_of(e).offset, heap_ref_of(e).size as int)
}

/// Every `checksum` and `signature` element among the first `k` of `nodes`
/// locates bytes within `bytes`.
pub open spec fn payloads_readable(nodes: Seq<XmlNode>, k: int, bytes: Seq<u8>, base: nat) -> bool {
    forall|j: int|
        0 <= j < k && #[trigger] nodes[j] is Element && (nodes[j]->Element_0.name@ == "checksum"@
            || nodes[j]->Element_0.name@ == "signature"@) ==> payload_of(
            nodes[j]->Element_0,
            bytes,
            base,
        ) is Some
}

proof fn lemma_insert_ignored_upto(nodes: Seq<XmlNode>, k: int, e: XmlElement, m: int)
    requires
        0 <= k <= nodes.len(),
        0 <= m <= nodes.len(),
        e.name@ != "file"@,
        e.name@ != "checksum"@,
        e.name@ != "signature"@,
    ensures
        ({
            let with = nodes.insert(k, XmlNode::Element(e));
            let m2 = if m <= k { m } else { m + 1 };
            &&& toc_files(with, m2) == toc_files(nodes, m)
            &&& last_named(with, m2, "checksum"@) == last_named(nodes, m, "checksum"@)
            &&& last_named(with, m2, "signature"@) == last_named(nodes, m, "signature"@)
            &&& (m == k ==> toc_files(with, m + 1) == toc_files(nodes, m) && last_named(
                with,
                m + 1,
                "checksum"@,
            ) == last_named(nodes, m, "checksum"@) && last_named(with, m + 1, "signature"@)
                == last_named(nodes, m, "signature"@))
        }),
    decreases m,
{
    let with = nodes.insert(k, XmlNode::Element(e));
    if m > 0 {
        lemma_insert_ignored_upto(nodes, k, e, m - 1);
        if m <= k {
            assert(with[m - 1] == nodes[m - 1]);
        } else {
            assert(with[m] == nodes[m - 1]);
        }
    }
    if m == k {
        assert(with[m] == XmlNode::Element(e));
        assert(toc_files(with, m + 1) == toc_files(with, m));
        assert(last_named(with, m + 1, "checksum"@) == last_named(with, m, "checksum"@));
        assert(last_named(with, m + 1, "signature"@) == last_named(with, m, "signature"@));
    }
}

/// An element under `toc` that is not a `checksum`, `signature` or `file` is
/// ignored: inserting one anywhere leaves the files, the checksum and the
/// signature that the manifest describes, and whether their bytes can be
/// read, as they were.
pub proof fn lemma_unknown_toc_child_ignored(
    nodes: Seq<XmlNode>,
    k: int,
    e: XmlElement,
    bytes: Seq<u8>,
    base: nat,
)
    requires
        0 <= k <= nodes.len(),
        e.name@ != "file"@,
        e.name@ != "checksum"@,
        e.name@ != "signature"@,
    ensures
        ({
            let with = nodes.insert(k, XmlNode::Element(e));
            let n = nodes.len() as int;
            &&& toc_files(with, n + 1) == toc_files(nodes, n)
            &&& last_named(with, n + 1, "checksum"@) == last_named(nodes, n, "checksum"@)
            &&& last_named(with, n + 1, "signature"@) == last_named(nodes, n, "signature"@)
            &&& payloads_readable(with, n + 1, bytes, base) == payloads_readable(
                nodes,
                n,
                bytes,
                base,
            )
        }),
{
    let with = nodes.insert(k, XmlNode::Element(e));
    let n = nodes.len() as int;
    lemma_insert_ignored_upto(nodes, k, e, n);
    if payloads_readable(nodes, n, bytes, base) {
        assert forall|j: int|
            0 <= j < n + 1 && #[trigger] with[j] is Element && (with[j]->Element_0.name@
                == "checksum"@ || with[j]->Element_0.name@ == "signature"@) implies payload_of(
            with[j]->Element_0,
            bytes,
            base,
        ) is Some by {
            if j < k {
                assert(with[j] == nodes[j]);
            } else if j > k {
                assert(with[j] == nodes[j - 1]);
            }
        }
    }
    if payloads_readable(with, n + 1, bytes, base) {
        assert forall|j: int|
            0 <= j < n && #[trigger] nodes[j] is Element && (nodes[j]->Element_0.name@
                == "checksum"@ || nodes[j]->Element_0.name@ == "signature"@) implies payload_of(
            nodes[j]->Element_0,
            bytes,
            base,
        ) is Some by {
            if j < k {
                assert(with[j] == nodes[j]);
            } else {
                assert(with[j + 1] == nodes[j]);
            }
        }
    }
}

/// What opening an archive can fail on.
#[derive(Debug, Clone, Copy)]
pub enum ArchiveError {
    /// Fewer bytes than the fixed header needs.
    TruncatedHeader,
    /// The compressed manifest runs past the end of the archive.
    ManifestOutOfBounds,
    /// The manifest has no `xar` root element (also where it is not
    /// well-formed XML, which reads as an empty document).
    MissingXarElement,
    /// The `xar` element has no `toc` child.
    MissingTocElement,
    /// A checksum or signature payload runs past the end of the archive.
    HeapOutOfBounds,
}

/// Whether a signature was found; it is never checked cryptographically.
#[derive(Debug, Clone, Copy)]
pub enum SignatureStatus {
    Absent,
    PresentNotVerified,
}

/// The root children of the manifest of `b`, whose header is `h`; none where
/// it does not parse.
pub open spec fn manifest_nodes(b: Seq<u8>, h: Header) -> Seq<XmlNode> {
    match parsed_document(
        strip_decl(zlib_inflated(b.subrange(h.size as int, h.heap_base() as int))),
    ) {
        Some(ns) => ns,
        None => Seq::empty(),
    }
}

/// The `toc` element of the archive `b`, if the manifest has one.
pub open spec fn toc_element(b: Seq<u8>) -> Option<XmlElement> {
    match first_named(manifest_nodes(b, decoded_header(b)), "xar"@) {
        Some(x) => first_named(x.children@, "toc"@),
        None => None,
    }
}

/// The error that opening the archive `b` meets, if any.
pub open spec fn open_error(b: Seq<u8>) -> Option<ArchiveError> {
    let h = decoded_header(b);
    if b.len() < HEADER_LEN {
        Some(ArchiveError::TruncatedHeader)
    } else if h.heap_base() > b.len() {
        Some(ArchiveError::ManifestOutOfBounds)
    } else {
        match first_named(manifest_nodes(b, h), "xar"@) {
            None => Some(ArchiveError::MissingXarElement),
            Some(x) => match first_named(x.children@, "toc"@) {
                None => Some(ArchiveError::MissingTocElement),
                Some(t) => if payloads_readable(t.children@, t.children@.len() as int, b, h.heap_base()) {
                    None
                } else {
                    Some(ArchiveError::HeapOutOfBounds)
                },
            },
        }
    }
}

/// `c` is the checksum record that the element `e` describes, with its bytes.
pub open spec fn checksum_from(c: Checksum, e: XmlElement, b: Seq<u8>, base: nat) -> bool {
    &&& c.location == heap_ref_of(e)
    &&& c.style@ == attribute_text(e.attributes@, "style"@)
    &&& payload_of(e, b, base) == Some(c.data@)
}

/// `s` is the signature record that the element `e` describes, with its bytes.
pub open spec fn signature_from(s: Signature, e: XmlElement, b: Seq<u8>, base: nat) -> bool {
    &&& s.location == heap_ref_of(e)
    &&& s.style@ == attribute_text(e.attributes@, "style"@)
    &&& texts_of(s.x509_certs@) == certificates_of(e)
    &&& payload_of(e, b, base) == Some(s.data@)
}

/// An archive held in memory, with the entities its manifest describes.
#[derive(Debug)]
pub struct Archive {
    /// The bytes of the whole archive, read again for every check.
    pub source: Vec<u8>,
    pub header: Header,
    pub checksum: Option<Checksum>,
    pub signature: Option<Signature>,
    pub files: Vec<File>,
    /// Remarks on the header that did not stop it from opening.
    pub diagnostics: Vec<Diagnostic>,
}

impl Archive {
    /// The bytes of the whole archive.
    pub open spec fn bytes(&self) -> Seq<u8> {
        self.source@
    }

    /// The manifest lies within the archive.
    pub open spec fn wf(&self) -> bool {
        self.header.heap_base() <= self.bytes().len()
    }

    /// `self` is what opening the bytes `b` gives.
    pub open spec fn opened_from(&self, b: Seq<u8>) -> bool {
        let h = decoded_header(b);
        let t = toc_element(b)->0;
        let n = t.children@.len() as int;
        &&& self.bytes() == b
        &&& self.header == h
        &&& self.wf()
        &&& self.diagnostics@ == header_diagnostics(h)
        &&& views_of(self.files@) == toc_files(t.children@, n)
        &&& match last_named(t.children@, n, "checksum"@) {
            Some(e) => self.checksum is Some && checksum_from(
                self.checksum->0,
                e,
                b,
                h.heap_base(),
            ),
            None => self.checksum is None,
        }
        &&& match last_named(t.children@, n, "signature"@) {
            Some(e) => self.signature is Some && signature_from(
                self.signature->0,
                e,
                b,
                h.heap_base(),
            ),
            None => self.signature is None,
        }
    }

    /// Opens an archive held in `bytes`: decodes the header, decompresses and
    /// parses the manifest, reads its entities and loads the checksum and
    /// signature bytes from the heap. Header values that are not recognized
    /// are reported in `diagnostics` and do not stop it.
    #[verifier::rlimit(40)]
    pub fn open(bytes: Vec<u8>) -> (r: Result<Archive, ArchiveError>)
        ensures
            match r {
                Ok(a) => open_error(bytes@) is None && a.opened_from(bytes@),
                Err(e) => open_error(bytes@) == Some(e),
            },
    {
        let header = match Header::decode(bytes.as_slice()) {
            None => return Err(ArchiveError::TruncatedHeader),
            Some(h) => h,
        };
        let diagnostics = check_header(&header);
        let toc_data = match read_range(
            bytes.as_slice(),
            header.size as u128,
            header.toc_length_compressed,
        ) {
            None => return Err(ArchiveError::ManifestOutOfBounds),
            Some(d) => d,
        };
        assert(toc_data@ =~= bytes@.subrange(header.size as int, header.heap_base() as int));
        let inflated = decompress_zlib(toc_data.as_slice());
        let toc_xml = strip_encoding_decl(inflated.as_slice());
        let nodes = match parse_document(toc_xml.as_slice()) {
            Some(ns) => ns,
            None => Vec::new(),
        };
        assert(nodes@ == manifest_nodes(bytes@, header));
        let xar = match find_named(&nodes, "xar") {
            None => return Err(ArchiveError::MissingXarElement),
            Some(x) => x,
        };
        let toc = match find_child(xar, "toc") {
            None => return Err(ArchiveError::MissingTocElement),
            Some(t) => t,
        };
        let ghost b = bytes@;
        let ghost base = header.heap_base();
        let ghost kids = toc.children@;
        assert(toc_element(b) == Some(*toc));
        let n = bytes.len();
        let heap_base = header.size as u64 + header.toc_length_compressed;
        let checksum_tag = "checksum".to_owned();
        let signature_tag = "signature".to_owned();
        let file_tag = "file".to_owned();
        let mut checksum: Option<Checksum> = None;
        let mut signature: Option<Signature> = None;
        let mut files: Vec<File> = Vec::new();
        let mut i: usize = 0;
        while i < toc.children.len()
            invariant
                b == bytes@,
                header == decoded_header(b),
                b.len() >= HEADER_LEN,
                base == header.heap_base(),
                diagnostics@ == header_diagnostics(header),
                toc_element(b) == Some(*toc),
                open_error(b) == (if payloads_readable(kids, kids.len() as int, b, base) {
                    None
                } else {
                    Some(ArchiveError::HeapOutOfBounds)
                }),
                kids == toc.children@,
                heap_base == base,
                base <= b.len(),
                i <= kids.len(),
                checksum_tag@ == "checksum"@,
                signature_tag@ == "signature"@,
                file_tag@ == "file"@,
                views_of(files@) == toc_files(kids, i as int),
                payloads_readable(kids, i as int, b, base),
                match last_named(kids, i as int, "checksum"@) {
                    Some(e) => checksum is Some && checksum_from(checksum->0, e, b, base),
                    None => checksum is None,
                },
                match last_named(kids, i as int, "signature"@) {
                    Some(e) => signature is Some && signature_from(signature->0, e, b, base),
                    None => signature is None,
                },
            decreases kids.len() - i,
        {
            proof {
                reveal_strlit("checksum");
                reveal_strlit("signature");
                reveal_strlit("file");
                assert("checksum"@.len() == 8);
                assert("signature"@.len() == 9);
                assert("file"@.len() == 4);
            }
            match &toc.children[i] {
                XmlNode::Element(c) => {
                    assert(kids[i as int] == XmlNode::Element(*c));
                    if c.name == checksum_tag {
                        let mut ck = parse_checksum(c);
                        match read_range(
                            bytes.as_slice(),
                            heap_base as u128 + ck.location.offset as u128,
                            ck.location.size,
                        ) {
                            None => {
                                assert(!payloads_readable(kids, kids.len() as int, b, base)) by {
                                    assert(kids[i as int] is Element);
                                }
                                return Err(ArchiveError::HeapOutOfBounds);
                            },
                            Some(d) => {
                                ck.data = d;
                            },
                        }
                        assert(last_named(kids, i + 1, "signature"@) == last_named(
                            kids,
                            i as int,
                            "signature"@,
                        ));
                        assert(toc_files(kids, i + 1) == toc_files(kids, i as int));
                        checksum = Some(ck);
                    } else if c.name == signature_tag {
                        let mut sig = parse_signature(c);
                        match read_range(
                            bytes.as_slice(),
                            heap_base as u128 + sig.location.offset as u128,
                            sig.location.size,
                        ) {
                            None => {
                                assert(!payloads_readable(kids, kids.len() as int, b, base)) by {
                                    assert(kids[i as int] is Element);
                                }
                                return Err(ArchiveError::HeapOutOfBounds);
                            },
                            Some(d) => {
                                sig.data = d;
                            },
                        }
                        assert(texts_of(sig.x509_certs@) =~= certificates_of(*c));
                        assert(last_named(kids, i + 1, "checksum"@) == last_named(
                            kids,
                            i as int,
                            "checksum"@,
                        ));
                        assert(toc_files(kids, i + 1) == toc_files(kids, i as int));
                        signature = Some(sig);
                    } else if c.name == file_tag {
                        let f = parse_file(c);
                        let ghost before = files@;
                        files.push(f);
                        proof {
                            lemma_views_upto_push(before, f, before.len() as int);
                            assert(files@ == before.push(f));
                            assert(views_of(files@) == views_of(before).push(file_view(f)));
                            assert(toc_files(kids, i + 1) == toc_files(kids, i as int).push(
                                file_of(*c),
                            ));
                            assert(last_named(kids, i + 1, "signature"@) == last_named(
                                kids,
                                i as int,
                                "signature"@,
                            ));
                            assert(last_named(kids, i + 1, "checksum"@) == last_named(
                                kids,
                                i as int,
                                "checksum"@,
                            ));
                        }
                    }
                },
                _ => {},
            }
            i = i + 1;
        }
        Ok(Archive { source: bytes, header, checksum, signature, files, diagnostics })
    }

    /// Where the heap starts: just past the compressed manifest.
    pub fn heap_offset(&self) -> (r: u64)
        requires
            self.wf(),
        ensures
            r == self.header.heap_base(),
    {
        let n = self.source.len();
        assert(n as nat == self.bytes().len());
        self.header.size as u64 + self.header.toc_length_compressed
    }

    /// Reads `len` bytes of the archive from the absolute offset `offset`;
    /// `None` where they run past its end. Nothing about the archive changes,
    /// so the same range always reads the same bytes.
    pub fn read_heap(&self, offset: u64, len: u64) -> (r: Option<Vec<u8>>)
        ensures
            match r {
                Some(v) => byte_range(self.bytes(), offset as int, len as int) == Some(v@),
                None => byte_range(self.bytes(), offset as int, len as int) is None,
            },
    {
        read_range(self.source.as_slice(), offset as u128, len)
    }
}
} // verus!
