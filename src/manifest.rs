//! The entities that the manifest (table of contents) describes, and how each
//! is read from its XML element.
use crate::xml::{
    attribute_or_empty, attribute_text, child_elements, child_text, elements_of, find_child,
    first_named, first_text, read_child_elt_str, read_elt_text, XmlElement, XmlNode,
};
use vstd::prelude::*;
use vstd::utf8::encode_utf8;

verus! {

/// A reference to a location within the data section of the archive (the heap).
#[derive(Debug, Clone, Copy)]
pub struct HeapRef {
    pub offset: u64,
    /// The size of the data _after_ decompression (if any)
    pub size: u64,
}

/// How the payload of a file is encoded.
#[derive(Debug, Clone, Copy)]
pub enum Encoding {
    Gzip,
    Other,
}

/// Metadata about a block of compressed data within the archive's heap.
#[derive(Debug)]
pub struct HeapData {
    pub location: HeapRef,
    /// The length of the file's compressed content
    pub length: u64,
    pub archived_checksum: String,
    pub extracted_checksum: String,
    pub encoding: Encoding,
}

/// The digest of the manifest, as the archive records it.
#[derive(Debug)]
pub struct Checksum {
    pub location: HeapRef,
    pub style: String,
    pub data: Vec<u8>,
}

/// A signature record; it is carried, never checked.
#[derive(Debug)]
pub struct Signature {
    pub location: HeapRef,
    pub style: String,
    pub x509_certs: Vec<String>,
    pub data: Vec<u8>,
}

/// The kind of a manifest entry.
#[derive(Debug, Clone, Copy)]
pub enum FileType {
    File,
    Directory,
    Other,
}

/// One entry of the file tree, as the manifest lays it out.
#[derive(Debug)]
pub struct File {
    pub name: String,
    pub file_type: FileType,
    pub children: Vec<File>,
    pub data: Option<HeapData>,
}

// ---------------------------------------------------------------------------
// Unsigned decimal numbers, read as `u64::from_str` reads them.

pub open spec fn is_digit(b: u8) -> bool {
    48 <= b <= 57
}

/// The value of a string of decimal digits.
pub open spec fn digits_value(d: Seq<u8>) -> nat
    decreases d.len(),
{
    if d.len() == 0 {
        0
    } else {
        digits_value(d.drop_last()) * 10 + (d.last() - 48) as nat
    }
}

/// The digits of a number: the text without one leading `+`.
pub open spec fn unsigned_digits(b: Seq<u8>) -> Seq<u8> {
    if b.len() > 0 && b[0] == 43 {
        b.drop_first()
    } else {
        b
    }
}

/// The `u64` that the UTF-8 text `b` spells, if any: an optional `+`, then
/// one or more decimal digits, with a value that fits.
pub open spec fn parsed_u64(b: Seq<u8>) -> Option<u64> {
    let d = unsigned_digits(b);
    if d.len() > 0 && (forall|i: int| 0 <= i < d.len() ==> is_digit(d[i])) && digits_value(d)
        <= u64::MAX {
        Some(digits_value(d) as u64)
    } else {
        None
    }
}

/// The number that `text` spells, or zero where it spells none.
pub open spec fn u64_or_zero(text: Seq<char>) -> u64 {
    match parsed_u64(encode_utf8(text)) {
        Some(v) => v,
        None => 0,
    }
}

/// Reads an unsigned decimal number.
pub fn parse_u64(b: &[u8]) -> (r: Option<u64>)
    ensures
        r == parsed_u64(b@),
{
    let start: usize = if b.len() > 0 && b[0] == 43 {
        1
    } else {
        0
    };
    let ghost d = unsigned_digits(b@);
    assert(d =~= b@.subrange(start as int, b@.len() as int));
    if start == b.len() {
        return None;
    }
    let mut acc: u64 = 0;
    let mut overflow = false;
    let mut i: usize = start;
    while i < b.len()
        invariant
            start <= i <= b@.len(),
            d == b@.subrange(start as int, b@.len() as int),
            d == unsigned_digits(b@),
            forall|j: int| start <= j < i ==> is_digit(b@[j]),
            !overflow ==> acc as nat == digits_value(b@.subrange(start as int, i as int)),
            overflow ==> digits_value(b@.subrange(start as int, i as int)) > u64::MAX,
        decreases b.len() - i,
    {
        let c = b[i];
        if c < 48 || c > 57 {
            assert(d[i - start] == b@[i as int]);
            assert(!is_digit(d[i - start]));
            return None;
        }
        let digit = (c - 48) as u64;
        let ghost before = digits_value(b@.subrange(start as int, i as int));
        assert(b@.subrange(start as int, i + 1).drop_last() =~= b@.subrange(start as int, i as int));
        assert(digits_value(b@.subrange(start as int, i + 1)) == before * 10 + digit);
        if !overflow {
            if acc > (u64::MAX - digit) / 10 {
                assert(acc * 10 + digit > u64::MAX) by (nonlinear_arith)
                    requires
                        acc > (u64::MAX - digit) / 10,
                        digit <= 9,
                ;
                overflow = true;
            } else {
                assert(acc * 10 + digit <= u64::MAX) by (nonlinear_arith)
                    requires
                        acc <= (u64::MAX - digit) / 10,
                        digit <= 9,
                ;
                acc = acc * 10 + digit;
            }
        } else {
            assert(before * 10 + digit > u64::MAX) by (nonlinear_arith)
                requires
                    before > u64::MAX,
            ;
        }
        i = i + 1;
    }
    assert(b@.subrange(start as int, b@.len() as int) == d);
    assert forall|j: int| 0 <= j < d.len() implies is_digit(d[j]) by {
        assert(d[j] == b@[j + start]);
    }
    if overflow {
        None
    } else {
        Some(acc)
    }
}

// ---------------------------------------------------------------------------
// Reading entities from their elements.

/// The number held by the child element `name` of `elt`, zero where absent or
/// not a number.
pub open spec fn child_u64(elt: XmlElement, name: Seq<char>) -> u64 {
    u64_or_zero(child_text(elt, name))
}

/// Reads the number held by the child element `name` of `elt`. A missing
/// element or text that is not a number reads as zero.
pub fn read_child_elt_value(elt: &XmlElement, name: &str) -> (r: u64)
    ensures
        r == child_u64(*elt, name@),
{
    let text = read_child_elt_str(elt, name);
    match parse_u64(text.as_str().as_bytes()) {
        Some(v) => v,
        None => 0,
    }
}

/// The heap location that the `offset` and `size` children of `elt` give.
pub open spec fn heap_ref_of(elt: XmlElement) -> HeapRef {
    HeapRef { offset: child_u64(elt, "offset"@), size: child_u64(elt, "size"@) }
}

pub fn parse_heap_ref(elt: &XmlElement) -> (r: HeapRef)
    ensures
        r == heap_ref_of(*elt),
{
    let offset = read_child_elt_value(elt, "offset");
    let size = read_child_elt_value(elt, "size");
    HeapRef { offset, size }
}

/// Reads a checksum record; its `data` is left empty, to be loaded from the heap.
pub fn parse_checksum(elt: &XmlElement) -> (r: Checksum)
    ensures
        r.location == heap_ref_of(*elt),
        r.style@ == attribute_text(elt.attributes@, "style"@),
        r.data@.len() == 0,
{
    Checksum {
        location: parse_heap_ref(elt),
        style: attribute_or_empty(elt, "style"),
        data: Vec::new(),
    }
}

/// The certificates of a signature element: the text of each element under
/// `KeyInfo/X509Data`, in document order.
pub open spec fn certificates_of(elt: XmlElement) -> Seq<Seq<char>> {
    match first_named(elt.children@, "KeyInfo"@) {
        Some(k) => match first_named(k.children@, "X509Data"@) {
            Some(x) => elements_of(x.children@).map_values(|c: XmlElement| first_text(c.children@)),
            None => Seq::empty(),
        },
        None => Seq::empty(),
    }
}

/// Reads a signature record; its `data` is left empty, to be loaded from the heap.
pub fn parse_signature(elt: &XmlElement) -> (r: Signature)
    ensures
        r.location == heap_ref_of(*elt),
        r.style@ == attribute_text(elt.attributes@, "style"@),
        r.x509_certs@.len() == certificates_of(*elt).len(),
        forall|i: int| 0 <= i < r.x509_certs@.len() ==> r.x509_certs@[i]@ == certificates_of(*elt)[i],
        r.data@.len() == 0,
{
    let mut certs: Vec<String> = Vec::new();
    if let Some(key_info) = find_child(elt, "KeyInfo") {
        if let Some(x509_data) = find_child(key_info, "X509Data") {
            let certs_elts = child_elements(x509_data);
            let ghost want = elements_of(x509_data.children@).map_values(
                |c: XmlElement| first_text(c.children@),
            );
            let mut i: usize = 0;
            while i < certs_elts.len()
                invariant
                    i <= certs_elts@.len(),
                    certs_elts@.len() == want.len(),
                    certs_elts@.len() == elements_of(x509_data.children@).len(),
                    want == elements_of(x509_data.children@).map_values(
                        |c: XmlElement| first_text(c.children@),
                    ),
                    forall|j: int|
                        0 <= j < certs_elts@.len() ==> *certs_elts@[j] == elements_of(
                            x509_data.children@,
                        )[j],
                    certs@.len() == i,
                    forall|j: int| 0 <= j < i ==> certs@[j]@ == want[j],
                decreases certs_elts.len() - i,
            {
                let text = read_elt_text(certs_elts[i]);
                assert(text@ == want[i as int]);
                certs.push(text);
                i = i + 1;
            }
        }
    }
    Signature {
        location: parse_heap_ref(elt),
        style: attribute_or_empty(elt, "style"),
        x509_certs: certs,
        data: Vec::new(),
    }
}

/// A file payload's metadata, over plain values.
pub struct HeapDataView {
    pub location: HeapRef,
    pub length: u64,
    pub archived_checksum: Seq<char>,
    pub extracted_checksum: Seq<char>,
    pub encoding: Encoding,
}

pub open spec fn heap_data_view(d: HeapData) -> HeapDataView {
    HeapDataView {
        location: d.location,
        length: d.length,
        archived_checksum: d.archived_checksum@,
        extracted_checksum: d.extracted_checksum@,
        encoding: d.encoding,
    }
}

/// The encoding that the `encoding` child of `elt` names through its `style`.
pub open spec fn encoding_of(elt: XmlElement) -> Encoding {
    match first_named(elt.children@, "encoding"@) {
        Some(e) => if attribute_text(e.attributes@, "style"@) == "application/x-gzip"@ {
            Encoding::Gzip
        } else {
            Encoding::Other
        },
        None => Encoding::Other,
    }
}

/// What a `data` element describes.
pub open spec fn heap_data_of(elt: XmlElement) -> HeapDataView {
    HeapDataView {
        location: heap_ref_of(elt),
        length: child_u64(elt, "length"@),
        archived_checksum: child_text(elt, "archived-checksum"@),
        extracted_checksum: child_text(elt, "extracted-checksum"@),
        encoding: encoding_of(elt),
    }
}

pub fn parse_heap_data(elt: &XmlElement) -> (r: HeapData)
    ensures
        heap_data_view(r) == heap_data_of(*elt),
{
    let encoding = match find_child(elt, "encoding") {
        Some(encoding_elt) => {
            let style = attribute_or_empty(encoding_elt, "style");
            if style == "application/x-gzip".to_owned() {
                Encoding::Gzip
            } else {
                Encoding::Other
            }
        },
        None => Encoding::Other,
    };
    HeapData {
        location: parse_heap_ref(elt),
        length: read_child_elt_value(elt, "length"),
        archived_checksum: read_child_elt_str(elt, "archived-checksum"),
        extracted_checksum: read_child_elt_str(elt, "extracted-checksum"),
        encoding,
    }
}

// ---------------------------------------------------------------------------
// The file tree.

/// A manifest entry over plain values.
pub struct FileView {
    pub name: Seq<char>,
    pub file_type: FileType,
    pub children: Seq<FileView>,
    pub data: Option<HeapDataView>,
}

/// The plain value of an entry and its whole subtree.
pub open spec fn file_view(f: File) -> FileView
    decreases f, 0int,
{
    FileView {
        name: f.name@,
        file_type: f.file_type,
        children: views_upto(f.children@, f.children@.len() as int),
        data: match f.data {
            Some(d) => Some(heap_data_view(d)),
            None => None,
        },
    }
}

/// The plain values of the first `k` entries of `s`.
pub open spec fn views_upto(s: Seq<File>, k: int) -> Seq<FileView>
    decreases s, k,
{
    if k <= 0 || k > s.len() {
        Seq::empty()
    } else {
        views_upto(s, k - 1).push(file_view(s[k - 1]))
    }
}

/// The plain values of the entries of `s`.
pub open spec fn views_of(s: Seq<File>) -> Seq<FileView> {
    views_upto(s, s.len() as int)
}

/// The kind that the text of a `type` element names.
pub open spec fn file_type_of(text: Seq<char>) -> FileType {
    if text == "file"@ {
        FileType::File
    } else if text == "directory"@ {
        FileType::Directory
    } else {
        FileType::Other
    }
}

/// The entry that the first `k` children of a `file` element describe: a
/// nested `file` adds a child, and a `name`, `type` or `data` element sets
/// its field (the last one wins).
pub open spec fn file_fold(nodes: Seq<XmlNode>, k: int) -> FileView
    decreases nodes, k,
{
    if k <= 0 || k > nodes.len() {
        FileView { name: Seq::empty(), file_type: FileType::Other, children: Seq::empty(), data: None }
    } else {
        let prev = file_fold(nodes, k - 1);
        match nodes[k - 1] {
            XmlNode::Element(c) => if c.name@ == "file"@ {
                FileView { children: prev.children.push(file_of(c)), ..prev }
            } else if c.name@ == "name"@ {
                FileView { name: first_text(c.children@), ..prev }
            } else if c.name@ == "type"@ {
                FileView { file_type: file_type_of(first_text(c.children@)), ..prev }
            } else if c.name@ == "data"@ {
                FileView { data: Some(heap_data_of(c)), ..prev }
            } else {
                prev
            },
            _ => prev,
        }
    }
}

/// The entry that a `file` element describes, with its subtree.
pub open spec fn file_of(elt: XmlElement) -> FileView
    decreases elt, 0int,
{
    file_fold(elt.children@, elt.children@.len() as int)
}

/// Adding an entry at the end leaves the views of the earlier ones as they were.
pub proof fn lemma_views_upto_push(s: Seq<File>, x: File, k: int)
    requires
        0 <= k <= s.len(),
    ensures
        views_upto(s.push(x), k) == views_upto(s, k),
    decreases k,
{
    if k > 0 {
        lemma_views_upto_push(s, x, k - 1);
        assert(s.push(x)[k - 1] == s[k - 1]);
    }
}

/// The view of the `j`th of the first `k` entries is the view of that entry.
pub proof fn lemma_views_upto_index(s: Seq<File>, k: int)
    requires
        0 <= k <= s.len(),
    ensures
        views_upto(s, k).len() == k,
        forall|j: int| 0 <= j < k ==> #[trigger] views_upto(s, k)[j] == file_view(s[j]),
    decreases k,
{
    if k > 0 {
        lemma_views_upto_index(s, k - 1);
    }
}

/// Reads a `file` element and, recursively, the entries nested in it.
pub fn parse_file(elt: &XmlElement) -> (r: File)
    ensures
        file_view(r) == file_of(*elt),
    decreases elt,
{
    let mut file = File {
        name: String::new(),
        file_type: FileType::Other,
        data: None,
        children: Vec::new(),
    };
    let file_tag = "file".to_owned();
    let name_tag = "name".to_owned();
    let type_tag = "type".to_owned();
    let data_tag = "data".to_owned();
    let mut i: usize = 0;
    assert(file_view(file) == file_fold(elt.children@, 0));
    while i < elt.children.len()
        invariant
            i <= elt.children@.len(),
            file_tag@ == "file"@,
            name_tag@ == "name"@,
            type_tag@ == "type"@,
            data_tag@ == "data"@,
            file_view(file) == file_fold(elt.children@, i as int),
        decreases elt.children.len() - i,
    {
        match &elt.children[i] {
            XmlNode::Element(c) => {
                if c.name == file_tag {
                    let sub = parse_file(c);
                    let ghost before = file.children@;
                    file.children.push(sub);
                    proof {
                        lemma_views_upto_push(before, sub, before.len() as int);
                    }
                } else if c.name == name_tag {
                    file.name = read_elt_text(c);
                } else if c.name == type_tag {
                    let text = read_elt_text(c);
                    file.file_type = if text == "file".to_owned() {
                        FileType::File
                    } else if text == "directory".to_owned() {
                        FileType::Directory
                    } else {
                        FileType::Other
                    };
                } else if c.name == data_tag {
                    file.data = Some(parse_heap_data(c));
                }
            },
            _ => {},
        }
        i = i + 1;
    }
    file
}

} // verus!
