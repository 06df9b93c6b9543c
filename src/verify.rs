//! Verification of an opened archive: the manifest digest first, then every
//! file payload of the tree, with all mismatches collected.
use crate::archive::{Archive, SignatureStatus};
use crate::digest::{digest_matches, digests_match, hex_of, sha1_digest, sha1_hex, to_hex};
use crate::manifest::{
    file_view, heap_data_view, lemma_views_upto_index, views_of, File, FileType, FileView, HeapData,
    HeapDataView,
};
use crate::payload::{byte_range, decompress_zlib, read_range, zlib_inflated};
use vstd::prelude::*;

verus! {

pub open spec fn checksum_message(expected: Seq<char>, actual: Seq<char>) -> Seq<char> {
    "Checksum mismatch. Expected "@ + expected + ", actual "@ + actual
}

pub open spec fn digest_message(name: Seq<char>, expected: Seq<char>, actual: Seq<char>) -> Seq<
    char,
> {
    "Digest mismatch for "@ + name + ". Expected "@ + expected + ", actual "@ + actual
}

pub open spec fn extracted_message(name: Seq<char>, expected: Seq<char>, actual: Seq<char>) -> Seq<
    char,
> {
    "Extracted digest mismatch for "@ + name + ". Expected "@ + expected + ", actual "@ + actual
}

pub open spec fn unreadable_message(name: Seq<char>) -> Seq<char> {
    "Cannot read the data of "@ + name
}

/// The messages joined by `", "`.
pub open spec fn joined(msgs: Seq<Seq<char>>) -> Seq<char>
    decreases msgs.len(),
{
    if msgs.len() == 0 {
        Seq::empty()
    } else if msgs.len() == 1 {
        msgs[0]
    } else {
        joined(msgs.drop_last()) + ", "@ + msgs.last()
    }
}

fn join_messages(msgs: &Vec<String>) -> (r: String)
    ensures
        r@ == joined(msgs@.map_values(|m: String| m@)),
{
    let ghost views = msgs@.map_values(|m: String| m@);
    let mut r = String::new();
    let mut i: usize = 0;
    while i < msgs.len()
        invariant
            i <= msgs@.len(),
            views == msgs@.map_values(|m: String| m@),
            r@ == joined(views.subrange(0, i as int)),
        decreases msgs.len() - i,
    {
        assert(views.subrange(0, i as int + 1).drop_last() =~= views.subrange(0, i as int));
        if i > 0 {
            r.append(", ");
        }
        r.append(msgs[i].as_str());
        i = i + 1;
    }
    assert(views.subrange(0, msgs@.len() as int) =~= views);
    r
}

fn message(prefix: &str, name: &str, expected: &str, actual: &str) -> (r: String)
    ensures
        r@ == prefix@ + name@ + ". Expected "@ + expected@ + ", actual "@ + actual@,
{
    let mut m = String::from_str(prefix);
    m.append(name);
    m.append(". Expected ");
    m.append(expected);
    m.append(", actual ");
    m.append(actual);
    m
}

/// The mismatches that one file payload shows, or the message of a failed
/// read where its bytes run past the end of the archive.
pub open spec fn data_check(name: Seq<char>, d: HeapDataView, bytes: Seq<u8>, base: nat) -> Result<
    Seq<Seq<char>>,
    Seq<char>,
> {
    match byte_range(bytes, base + d.location.offset, d.length as int) {
        None => Err(unreadable_message(name)),
        Some(raw) => {
            let archived = sha1_hex(raw);
            let extracted = sha1_hex(zlib_inflated(raw));
            Ok(
                (if digests_match(d.archived_checksum, archived) {
                    Seq::empty()
                } else {
                    seq![digest_message(name, d.archived_checksum, archived)]
                }) + (if digests_match(d.extracted_checksum, extracted) {
                    Seq::empty()
                } else {
                    seq![extracted_message(name, d.extracted_checksum, extracted)]
                }),
            )
        },
    }
}

/// The mismatches found in an entry and its subtree, depth first in
/// document order; a failed read ends the walk.
pub open spec fn file_check(f: FileView, bytes: Seq<u8>, base: nat) -> Result<
    Seq<Seq<char>>,
    Seq<char>,
>
    decreases f, 0int,
{
    match f.file_type {
        FileType::Directory => children_check(f.children, f.children.len() as int, bytes, base),
        FileType::File => match f.data {
            Some(d) => data_check(f.name, d, bytes, base),
            None => Ok(Seq::empty()),
        },
        FileType::Other => Ok(Seq::empty()),
    }
}

/// The mismatches found in the first `k` entries of `s`, in order.
pub open spec fn children_check(s: Seq<FileView>, k: int, bytes: Seq<u8>, base: nat) -> Result<
    Seq<Seq<char>>,
    Seq<char>,
>
    decreases s, k,
{
    if k <= 0 || k > s.len() {
        Ok(Seq::empty())
    } else {
        match children_check(s, k - 1, bytes, base) {
            Err(e) => Err(e),
            Ok(prev) => match file_check(s[k - 1], bytes, base) {
                Err(e) => Err(e),
                Ok(m) => Ok(prev + m),
            },
        }
    }
}

/// A failed read among the first `k` entries ends the walk: later entries
/// change nothing.
pub proof fn lemma_children_check_err(s: Seq<FileView>, k: int, m: int, bytes: Seq<u8>, base: nat)
    requires
        0 <= k <= m <= s.len(),
        children_check(s, k, bytes, base) is Err,
    ensures
        children_check(s, m, bytes, base) == children_check(s, k, bytes, base),
    decreases m - k,
{
    if m > k {
        lemma_children_check_err(s, k, m - 1, bytes, base);
    }
}

pub open spec fn texts_of(v: Seq<String>) -> Seq<Seq<char>> {
    v.map_values(|m: String| m@)
}

/// What verifying the archive `a` reports: the manifest digest is checked
/// first and a mismatch ends there; then every entry is checked and all
/// mismatches are joined into one message.
pub open spec fn verify_outcome(a: Archive) -> Result<SignatureStatus, Seq<char>> {
    let base = a.header.heap_base();
    let manifest = a.bytes().subrange(a.header.size as int, base as int);
    if a.checksum is Some && sha1_hex(manifest) != hex_of(a.checksum->0.data@) {
        Err(checksum_message(hex_of(a.checksum->0.data@), sha1_hex(manifest)))
    } else {
        match children_check(views_of(a.files@), a.files@.len() as int, a.bytes(), base) {
            Err(e) => Err(e),
            Ok(msgs) => if msgs.len() > 0 {
                Err(joined(msgs))
            } else if a.signature is Some {
                Ok(SignatureStatus::PresentNotVerified)
            } else {
                Ok(SignatureStatus::Absent)
            },
        }
    }
}

/// A manifest that does not match its recorded digest fails verification with
/// that mismatch alone: the file tree is not looked at.
pub proof fn lemma_checksum_mismatch_short_circuits(a: Archive)
    requires
        a.checksum is Some,
        sha1_hex(a.bytes().subrange(a.header.size as int, a.header.heap_base() as int)) != hex_of(
            a.checksum->0.data@,
        ),
    ensures
        verify_outcome(a) == Err::<SignatureStatus, Seq<char>>(
            checksum_message(
                hex_of(a.checksum->0.data@),
                sha1_hex(a.bytes().subrange(a.header.size as int, a.header.heap_base() as int)),
            ),
        ),
{
}

impl Archive {
    /// Verifies the archive: the manifest against its recorded checksum (a
    /// mismatch fails at once), then every file payload of the tree. On
    /// success, says whether a signature is present; it is not checked.
    pub fn verify(&self) -> (r: Result<SignatureStatus, String>)
        requires
            self.wf(),
        ensures
            match r {
                Ok(st) => verify_outcome(*self) == Ok::<SignatureStatus, Seq<char>>(st),
                Err(e) => verify_outcome(*self) == Err::<SignatureStatus, Seq<char>>(e@),
            },
    {
        if let Some(checksum) = &self.checksum {
            match read_range(
                self.source.as_slice(),
                self.header.size as u128,
                self.header.toc_length_compressed,
            ) {
                None => {
                    assert(false);
                    return Err(String::new());
                },
                Some(toc_data) => {
                    assert(toc_data@ =~= self.bytes().subrange(
                        self.header.size as int,
                        self.header.heap_base() as int,
                    ));
                    let actual = sha1_digest(toc_data.as_slice());
                    let expected = to_hex(checksum.data.as_slice());
                    if !(actual == expected) {
                        let mut m = String::from_str("Checksum mismatch. Expected ");
                        m.append(expected.as_str());
                        m.append(", actual ");
                        m.append(actual.as_str());
                        return Err(m);
                    }
                },
            }
        }
        let ghost views = views_of(self.files@);
        proof {
            lemma_views_upto_index(self.files@, self.files@.len() as int);
        }
        let mut errs: Vec<String> = Vec::new();
        assert(texts_of(errs@) =~= Seq::empty());
        let mut i: usize = 0;
        while i < self.files.len()
            invariant
                self.wf(),
                !(self.checksum is Some && sha1_hex(
                    self.bytes().subrange(self.header.size as int, self.header.heap_base() as int),
                ) != hex_of(self.checksum->0.data@)),
                i <= self.files@.len(),
                views == views_of(self.files@),
                views.len() == self.files@.len(),
                forall|j: int| 0 <= j < views.len() ==> views[j] == file_view(self.files@[j]),
                children_check(views, i as int, self.bytes(), self.header.heap_base()) == Ok::<
                    Seq<Seq<char>>,
                    Seq<char>,
                >(texts_of(errs@)),
            decreases self.files.len() - i,
        {
            match self.verify_file_tree(&self.files[i]) {
                Ok(sub) => {
                    let ghost before = errs@;
                    let mut sub = sub;
                    let ghost added = sub@;
                    errs.append(&mut sub);
                    assert(texts_of(errs@) =~= texts_of(before) + texts_of(added));
                },
                Err(e) => {
                    proof {
                        assert(views[i as int] == file_view(self.files@[i as int]));
                        assert(children_check(views, i + 1, self.bytes(), self.header.heap_base())
                            == Err::<Seq<Seq<char>>, Seq<char>>(e@));
                        lemma_children_check_err(
                            views,
                            i + 1,
                            views.len() as int,
                            self.bytes(),
                            self.header.heap_base(),
                        );
                    }
                    return Err(e);
                },
            }
            i = i + 1;
        }
        if errs.len() > 0 {
            return Err(join_messages(&errs));
        }
        match &self.signature {
            Some(_) => Ok(SignatureStatus::PresentNotVerified),
            None => Ok(SignatureStatus::Absent),
        }
    }

    /// Checks one file payload: the digest of its stored bytes against the
    /// archived checksum, and the digest of their decompression against the
    /// extracted checksum. Both checks always run.
    fn verify_data(&self, name: &String, d: &HeapData) -> (r: Result<
        Vec<String>,
        String,
    >)
        requires
            self.wf(),
        ensures
            match r {
                Ok(v) => data_check(
                    name@,
                    heap_data_view(*d),
                    self.bytes(),
                    self.header.heap_base(),
                ) == Ok::<Seq<Seq<char>>, Seq<char>>(texts_of(v@)),
                Err(e) => data_check(
                    name@,
                    heap_data_view(*d),
                    self.bytes(),
                    self.header.heap_base(),
                ) == Err::<Seq<Seq<char>>, Seq<char>>(e@),
            },
    {
        let start = self.heap_offset() as u128 + d.location.offset as u128;
        match read_range(self.source.as_slice(), start, d.length) {
            None => {
                let mut m = String::from_str("Cannot read the data of ");
                m.append(name.as_str());
                Err(m)
            },
            Some(raw) => {
                let mut errs: Vec<String> = Vec::new();
                let archived = sha1_digest(raw.as_slice());
                if !digest_matches(d.archived_checksum.as_str(), archived.as_str()) {
                    errs.push(
                        message(
                            "Digest mismatch for ",
                            name.as_str(),
                            d.archived_checksum.as_str(),
                            archived.as_str(),
                        ),
                    );
                }
                let decompressed = decompress_zlib(raw.as_slice());
                let extracted = sha1_digest(decompressed.as_slice());
                if !digest_matches(d.extracted_checksum.as_str(), extracted.as_str()) {
                    errs.push(
                        message(
                            "Extracted digest mismatch for ",
                            name.as_str(),
                            d.extracted_checksum.as_str(),
                            extracted.as_str(),
                        ),
                    );
                }
                assert(texts_of(errs@) =~= data_check(
                    name@,
                    heap_data_view(*d),
                    self.bytes(),
                    self.header.heap_base(),
                )->Ok_0);
                Ok(errs)
            },
        }
    }

    /// Checks an entry and its subtree, depth first in document order: the
    /// mismatch messages found (none where all is well), or the message of a
    /// failed read, which ends the walk.
    pub fn verify_file_tree(&self, file: &File) -> (r: Result<Vec<String>, String>)
        requires
            self.wf(),
        ensures
            match r {
                Ok(v) => file_check(file_view(*file), self.bytes(), self.header.heap_base()) == Ok::<Seq<Seq<char>>, Seq<char>>(texts_of(v@),
                ),
                Err(e) => file_check(file_view(*file), self.bytes(), self.header.heap_base())
                    == Err::<Seq<Seq<char>>, Seq<char>>(e@),
            },
        decreases file,
    {
        match file.file_type {
            FileType::Directory => {
                let ghost kids = file_view(*file).children;
                proof {
                    lemma_views_upto_index(
                        file.children@,
                        file.children@.len() as int,
                    );
                }
                let mut errs: Vec<String> = Vec::new();
                assert(texts_of(errs@) =~= Seq::empty());
                let mut i: usize = 0;
                while i < file.children.len()
                    invariant
                        self.wf(),
                        file.file_type is Directory,
                        i <= file.children@.len(),
                        kids == file_view(*file).children,
                        kids.len() == file.children@.len(),
                        forall|j: int|
                            0 <= j < kids.len() ==> kids[j] == file_view(file.children@[j]),
                        children_check(kids, i as int, self.bytes(), self.header.heap_base())
                            == Ok::<Seq<Seq<char>>, Seq<char>>(texts_of(errs@)),
                    decreases file.children.len() - i,
                {
                    match self.verify_file_tree(&file.children[i]) {
                        Ok(sub) => {
                            let ghost before = errs@;
                            let mut sub = sub;
                            let ghost added = sub@;
                            errs.append(&mut sub);
                            assert(texts_of(errs@) =~= texts_of(before) + texts_of(added));
                        },
                        Err(e) => {
                            proof {
                                assert(kids[i as int] == file_view(file.children@[i as int]));
                                assert(children_check(
                                    kids,
                                    i + 1,
                                    self.bytes(),
                                    self.header.heap_base(),
                                ) == Err::<Seq<Seq<char>>, Seq<char>>(e@));
                                lemma_children_check_err(
                                    kids,
                                    i + 1,
                                    kids.len() as int,
                                    self.bytes(),
                                    self.header.heap_base(),
                                );
                                assert(file_check(
                                    file_view(*file),
                                    self.bytes(),
                                    self.header.heap_base(),
                                ) == children_check(
                                    kids,
                                    kids.len() as int,
                                    self.bytes(),
                                    self.header.heap_base(),
                                ));
                            }
                            return Err(e);
                        },
                    }
                    i = i + 1;
                }
                Ok(errs)
            },
            FileType::File => {
                match &file.data {
                    Some(d) => self.verify_data(&file.name, d),
                    None => {
                        let v: Vec<String> = Vec::new();
                        assert(texts_of(v@) =~= Seq::empty());
                        Ok(v)
                    },
                }
            },
            FileType::Other => {
                let v: Vec<String> = Vec::new();
                assert(texts_of(v@) =~= Seq::empty());
                Ok(v)
            },
        }
    }
}

} // verus!
