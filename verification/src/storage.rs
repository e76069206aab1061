//! Crash-safe persistence of an opaque byte buffer.
//!
//! [`Storage`] names the target file and draws high-entropy temporary names
//! beside it. The atomic-replace protocol itself — write the whole buffer to a
//! fresh temporary file, then replace the target in one step — is verified
//! over [`MemFs`], an in-memory file map; the part that touches the real file
//! system follows the same steps outside the library.

use crate::codec::string_from_utf8;
use crate::error::KeystoreError;
use vstd::string::StringExecFns;
use vstd::prelude::*;
use vstd::utf8::{
    encode_utf8, encode_utf8_decode_utf8, encode_utf8_valid_utf8, is_ascii_chars,
    is_ascii_chars_encode_utf8,
};

verus! {

/// Relies on std::path::Path::exists: asks the file system whether the path
/// names an existing entity. The answer depends on the environment, so
/// nothing is promised of it.
#[verifier::external_body]
fn path_exists(path: &str) -> bool {
    std::path::Path::new(path).exists()
}

/// The lower-case hexadecimal digit for a value below 16.
pub open spec fn spec_hex_digit(n: u8) -> char {
    if n < 10 {
        (0x30 + n) as char
    } else {
        (0x57 + n) as char
    }
}

/// The lower-case hexadecimal spelling of a byte sequence, two digits per
/// byte, high nibble first.
pub open spec fn spec_hex_chars(bytes: Seq<u8>) -> Seq<char> {
    Seq::new(
        2 * bytes.len(),
        |i: int|
            if i % 2 == 0 {
                spec_hex_digit(bytes[i / 2] / 16)
            } else {
                spec_hex_digit(bytes[i / 2] % 16)
            },
    )
}

/// True of the sixteen characters the hexadecimal speller can produce.
pub open spec fn is_hex_char(c: char) -> bool {
    ('0' <= c && c <= '9') || ('a' <= c && c <= 'f')
}

/// Every character the speller produces is a hexadecimal digit.
pub proof fn lemma_hex_chars_are_hex(bytes: Seq<u8>)
    ensures
        forall|i: int|
            0 <= i < spec_hex_chars(bytes).len() ==> is_hex_char(
                #[trigger] spec_hex_chars(bytes)[i],
            ),
{
    assert forall|i: int| 0 <= i < spec_hex_chars(bytes).len() implies is_hex_char(
        spec_hex_chars(bytes)[i],
    ) by {
        let n = if i % 2 == 0 {
            bytes[i / 2] / 16
        } else {
            bytes[i / 2] % 16
        };
        assert(n < 16);
        assert(is_hex_char(spec_hex_digit(n)));
    }
}

/// The lower-case hexadecimal digit byte for a value below 16.
fn hex_digit(n: u8) -> (r: u8)
    requires
        n < 16,
    ensures
        r == spec_hex_digit(n) as u8,
        r < 128,
{
    if n < 10 {
        0x30 + n
    } else {
        0x57 + n
    }
}

/// Spells `bytes` in lower-case hexadecimal.
pub fn hex_string(bytes: &Vec<u8>) -> (r: String)
    ensures
        r@ == spec_hex_chars(bytes@),
        r@.len() == 2 * bytes@.len(),
{
    let ghost hc = spec_hex_chars(bytes@);
    let n = bytes.len();
    let mut hb: Vec<u8> = Vec::new();
    let mut i: usize = 0;
    while i < n
        invariant
            i <= n,
            n == bytes@.len(),
            hb@.len() == 2 * i,
            forall|k: int| 0 <= k < 2 * i ==> hb@[k] == spec_hex_chars(bytes@)[k] as u8,
        decreases n - i,
    {
        let b = bytes[i];
        hb.push(hex_digit(b / 16));
        hb.push(hex_digit(b % 16));
        i = i + 1;
    }
    proof {
        assert(is_ascii_chars(hc)) by {
            assert(forall|k: int|
                0 <= k < hc.len() ==> '\0' <= #[trigger] hc[k] <= '\u{7f}');
        }
        is_ascii_chars_encode_utf8(hc);
        assert(hb@ =~= encode_utf8(hc));
        encode_utf8_valid_utf8(hc);
        encode_utf8_decode_utf8(hc);
    }
    match string_from_utf8(hb) {
        Option::Some(s) => s,
        Option::None => {
            proof {
                assert(false);
            }
            String::new()
        },
    }
}

/// Names the target file of a keystore and draws temporary names beside it.
///
/// This component has no cryptographic awareness: it treats its input and
/// output as opaque bytes, so crash-safety concerns stay apart from format
/// and crypto concerns.
#[derive(Debug)]
pub struct Storage {
    /// Path of the target file.
    pub path: String,
}

impl Clone for Storage {
    /// An exact copy.
    fn clone(&self) -> (r: Self)
        ensures
            r == *self,
    {
        Storage { path: self.path.clone() }
    }
}

impl Storage {
    /// A storage handle for the given path.
    pub fn new(path: String) -> (r: Storage)
        ensures
            r.path == path,
    {
        Storage { path }
    }

    /// Whether the target file exists right now; the answer depends on the
    /// environment.
    pub fn file_exists(&self) -> bool {
        path_exists(self.path.as_str())
    }

    /// Path of the target file.
    pub fn path(&self) -> (r: &String)
        ensures
            r == self.path,
    {
        &self.path
    }

    /// Draws a temporary file name beside the target: the target path, the
    /// marker `.tmp.` and sixteen hexadecimal digits of fresh entropy. The
    /// result never equals the target path, and two draws collide only if the
    /// 64 random bits collide.
    pub fn random_tmp_path(&self) -> (r: Result<String, KeystoreError>)
        ensures
            r matches Ok(p) ==> p@.len() == self.path@.len() + 21 && p@.subrange(
                0,
                self.path@.len() as int,
            ) == self.path@ && p@.subrange(
                self.path@.len() as int,
                self.path@.len() + 5 as int,
            ) == ".tmp."@ && (forall|i: int|
                self.path@.len() + 5 <= i < p@.len() ==> is_hex_char(#[trigger] p@[i]))
                && p@ != self.path@,
            r matches Err(e) ==> e == KeystoreError::RandomUnavailable,
    {
        let rb = crate::crypto::aead::random_bytes(8)?;
        let hs = hex_string(&rb);
        let mut p = self.path.clone();
        p.append(".tmp.");
        p.append(hs.as_str());
        proof {
            reveal_strlit(".tmp.");
            assert(p@.len() == self.path@.len() + 21);
            assert(p@.subrange(0, self.path@.len() as int) =~= self.path@);
            assert(p@.subrange(self.path@.len() as int, self.path@.len() + 5 as int)
                =~= ".tmp."@);
            lemma_hex_chars_are_hex(rb@);
            assert forall|i: int|
                self.path@.len() + 5 <= i < p@.len() implies is_hex_char(#[trigger] p@[i]) by {
                assert(p@[i] == hs@[i - (self.path@.len() + 5)]);
            }
        }
        Ok(p)
    }
}

/// One file of the in-memory file system: a path and its bytes.
#[derive(Debug)]
pub struct MemFile {
    /// The file's path.
    pub path: String,
    /// The file's content.
    pub data: Vec<u8>,
}

/// True when no two files of `s` share a path.
pub open spec fn mem_unique_paths(s: Seq<MemFile>) -> bool {
    forall|i: int, j: int| 0 <= i < j < s.len() ==> s[i].path@ != s[j].path@
}

/// True when some file of `s` has path `p`.
pub open spec fn mem_has_path(s: Seq<MemFile>, p: Seq<char>) -> bool {
    exists|i: int| 0 <= i < s.len() && s[i].path@ == p
}

/// The map from paths to contents that a sequence of files denotes.
pub open spec fn files_map(s: Seq<MemFile>) -> Map<Seq<char>, Seq<u8>>
    decreases s.len(),
{
    if s.len() == 0 {
        Map::empty()
    } else {
        files_map(s.drop_last()).insert(s.last().path@, s.last().data@)
    }
}

/// Under unique paths, `files_map` contains exactly the paths of the sequence
/// and maps each to its file's bytes.
proof fn lemma_files_map_characterize(s: Seq<MemFile>)
    requires
        mem_unique_paths(s),
    ensures
        forall|p: Seq<char>| #[trigger] files_map(s).contains_key(p) <==> mem_has_path(s, p),
        forall|i: int|
            0 <= i < s.len() ==> files_map(s).contains_key(#[trigger] s[i].path@) && files_map(
                s,
            )[s[i].path@] == s[i].data@,
    decreases s.len(),
{
    if s.len() > 0 {
        let q = s.drop_last();
        let last = s.last();
        assert(mem_unique_paths(q)) by {
            assert(forall|i: int| 0 <= i < q.len() ==> q[i] == s[i]);
        }
        lemma_files_map_characterize(q);
        assert forall|p: Seq<char>| #[trigger] files_map(s).contains_key(p) <==> mem_has_path(
            s,
            p,
        ) by {
            if files_map(s).contains_key(p) {
                if p == last.path@ {
                    assert(s[s.len() - 1].path@ == p);
                } else {
                    assert(files_map(q).contains_key(p));
                    let i = choose|i: int| 0 <= i < q.len() && q[i].path@ == p;
                    assert(s[i].path@ == p);
                }
            }
            if mem_has_path(s, p) {
                let i = choose|i: int| 0 <= i < s.len() && s[i].path@ == p;
                if i == s.len() - 1 {
                    assert(files_map(s).contains_key(p));
                } else {
                    assert(q[i].path@ == p);
                    assert(mem_has_path(q, p));
                }
            }
        }
        assert forall|i: int| 0 <= i < s.len() implies files_map(s).contains_key(
            #[trigger] s[i].path@,
        ) && files_map(s)[s[i].path@] == s[i].data@ by {
            if i < s.len() - 1 {
                assert(q[i] == s[i]);
                assert(s[i].path@ != last.path@);
                assert(files_map(q)[s[i].path@] == s[i].data@);
            }
        }
    }
}

/// An in-memory file system: the durable state that the atomic-replace
/// protocol manipulates, one whole file per path.
#[derive(Debug)]
pub struct MemFs {
    /// The files, unique by path.
    pub files: Vec<MemFile>,
}

impl MemFs {
    /// The well-formedness invariant: no two files share a path.
    pub open spec fn wf(self) -> bool {
        mem_unique_paths(self.files@)
    }

    /// The map this file system denotes.
    pub open spec fn files_map(self) -> Map<Seq<char>, Seq<u8>> {
        files_map(self.files@)
    }

    /// An empty file system.
    pub fn new() -> (r: MemFs)
        ensures
            r.wf(),
            r.files_map() == Map::<Seq<char>, Seq<u8>>::empty(),
    {
        MemFs { files: Vec::new() }
    }

    /// Index of the file at `path`, if any.
    fn find(&self, path: &str) -> (r: Option<usize>)
        ensures
            r matches Some(i) ==> i < self.files@.len() && self.files@[i as int].path@ == path@,
            r is None <==> !mem_has_path(self.files@, path@),
    {
        let n = self.files.len();
        let mut i: usize = 0;
        while i < n
            invariant
                i <= n,
                n == self.files@.len(),
                forall|k: int| 0 <= k < i ==> self.files@[k].path@ != path@,
            decreases n - i,
        {
            if crate::store::str_eq(self.files[i].path.as_str(), path) {
                return Some(i);
            }
            i = i + 1;
        }
        None
    }

    /// Whether a file exists at `path`.
    pub fn contains(&self, path: &str) -> (r: bool)
        requires
            self.wf(),
        ensures
            r == self.files_map().contains_key(path@),
    {
        proof {
            lemma_files_map_characterize(self.files@);
        }
        self.find(path).is_some()
    }

    /// The bytes at `path`, whole, or nothing: a plain whole-file read.
    pub fn read(&self, path: &str) -> (r: Option<Vec<u8>>)
        requires
            self.wf(),
        ensures
            r matches Some(v) ==> self.files_map().contains_key(path@) && self.files_map()[path@]
                == v@,
            r is None <==> !self.files_map().contains_key(path@),
    {
        proof {
            lemma_files_map_characterize(self.files@);
        }
        match self.find(path) {
            Some(i) => Some(vstd::slice::slice_to_vec(self.files[i].data.as_slice())),
            None => None,
        }
    }

    /// Creates the file at `path` with `data`, exclusively: a file already
    /// there, for instance a stray temporary, is never silently overwritten.
    pub fn create_exclusive(&mut self, path: &str, data: Vec<u8>) -> (r: Result<
        (),
        KeystoreError,
    >)
        requires
            old(self).wf(),
        ensures
            final(self).wf(),
            r is Ok <==> !old(self).files_map().contains_key(path@),
            r is Ok ==> final(self).files_map() == old(self).files_map().insert(path@, data@),
            r matches Err(e) ==> *final(self) == *old(self) && e
                == KeystoreError::TempNameCollision,
    {
        proof {
            lemma_files_map_characterize(self.files@);
        }
        match self.find(path) {
            Some(_) => Err(KeystoreError::TempNameCollision),
            None => {
                let f = MemFile { path: path.to_owned(), data };
                proof {
                    lemma_mem_push(self.files@, f);
                }
                self.files.push(f);
                Ok(())
            },
        }
    }

    /// Moves the file at `from` onto `to` in one step, replacing whatever was
    /// there; fails without any change when `from` does not exist.
    pub fn replace(&mut self, from: &str, to: &str) -> (r: Result<(), KeystoreError>)
        requires
            old(self).wf(),
            from@ != to@,
        ensures
            final(self).wf(),
            r is Ok <==> old(self).files_map().contains_key(from@),
            r is Ok ==> final(self).files_map() == old(self).files_map().remove(from@).insert(
                to@,
                old(self).files_map()[from@],
            ),
            r matches Err(e) ==> *final(self) == *old(self) && e == KeystoreError::IoError,
    {
        proof {
            lemma_files_map_characterize(self.files@);
        }
        let i = match self.find(from) {
            Some(i) => i,
            None => {
                return Err(KeystoreError::IoError);
            },
        };
        proof {
            lemma_mem_remove(self.files@, i as int);
        }
        let f = self.files.remove(i);
        let ghost mid = self.files@;
        proof {
            lemma_files_map_characterize(mid);
        }
        match self.find(to) {
            Some(j) => {
                let g = MemFile { path: self.files[j].path.clone(), data: f.data };
                proof {
                    lemma_mem_update(mid, j as int, g);
                }
                self.files[j] = g;
                proof {
                    assert(final(self).files_map() =~= old(self).files_map().remove(from@).insert(
                        to@,
                        old(self).files_map()[from@],
                    ));
                }
                Ok(())
            },
            None => {
                let g = MemFile { path: to.to_owned(), data: f.data };
                proof {
                    lemma_mem_push(mid, g);
                }
                self.files.push(g);
                proof {
                    assert(final(self).files_map() =~= old(self).files_map().remove(from@).insert(
                        to@,
                        old(self).files_map()[from@],
                    ));
                }
                Ok(())
            },
        }
    }

    /// Deletes the file at `path`; fails without any change when it does not
    /// exist.
    pub fn remove_file(&mut self, path: &str) -> (r: Result<(), KeystoreError>)
        requires
            old(self).wf(),
        ensures
            final(self).wf(),
            r is Ok <==> old(self).files_map().contains_key(path@),
            r is Ok ==> final(self).files_map() == old(self).files_map().remove(path@),
            r matches Err(e) ==> *final(self) == *old(self) && e == KeystoreError::IoError,
    {
        proof {
            lemma_files_map_characterize(self.files@);
        }
        match self.find(path) {
            Some(i) => {
                proof {
                    lemma_mem_remove(self.files@, i as int);
                }
                self.files.remove(i);
                Ok(())
            },
            None => Err(KeystoreError::IoError),
        }
    }
}

/// Appending a file with a fresh path inserts it into the denoted map.
proof fn lemma_mem_push(s: Seq<MemFile>, f: MemFile)
    requires
        mem_unique_paths(s),
        !mem_has_path(s, f.path@),
    ensures
        mem_unique_paths(s.push(f)),
        files_map(s.push(f)) == files_map(s).insert(f.path@, f.data@),
{
    let t = s.push(f);
    assert(t.drop_last() =~= s);
    assert(t.last() == f);
    assert forall|i: int, j: int| 0 <= i < j < t.len() implies t[i].path@ != t[j].path@ by {
        if j == t.len() - 1 {
            assert(t[i] == s[i]);
            assert(!(s[i].path@ == f.path@));
        } else {
            assert(t[i] == s[i] && t[j] == s[j]);
        }
    }
}

/// Removing the file at `i` removes its path from the denoted map.
proof fn lemma_mem_remove(s: Seq<MemFile>, i: int)
    requires
        mem_unique_paths(s),
        0 <= i < s.len(),
    ensures
        mem_unique_paths(s.remove(i)),
        files_map(s.remove(i)) == files_map(s).remove(s[i].path@),
{
    let t = s.remove(i);
    let p = s[i].path@;
    assert forall|a: int, b: int| 0 <= a < b < t.len() implies t[a].path@ != t[b].path@ by {
        let oa = if a < i {
            a
        } else {
            a + 1
        };
        let ob = if b < i {
            b
        } else {
            b + 1
        };
        assert(t[a] == s[oa] && t[b] == s[ob]);
    }
    lemma_files_map_characterize(s);
    lemma_files_map_characterize(t);
    assert forall|p2: Seq<char>|
        files_map(t).contains_key(p2) <==> files_map(s).remove(p).contains_key(p2) by {
        if files_map(t).contains_key(p2) {
            let a = choose|a: int| 0 <= a < t.len() && t[a].path@ == p2;
            let oa = if a < i {
                a
            } else {
                a + 1
            };
            assert(t[a] == s[oa]);
            assert(s[oa].path@ == p2);
            assert(oa != i ==> p2 != p) by {
                if oa < i {
                    assert(s[oa].path@ != s[i].path@);
                } else if oa > i {
                    assert(s[i].path@ != s[oa].path@);
                }
            }
            assert(mem_has_path(s, p2));
        }
        if files_map(s).remove(p).contains_key(p2) {
            assert(p2 != p);
            let a = choose|a: int| 0 <= a < s.len() && s[a].path@ == p2;
            assert(a != i);
            let na = if a < i {
                a
            } else {
                a - 1
            };
            assert(t[na] == s[a]);
            assert(mem_has_path(t, p2));
        }
    }
    assert forall|p2: Seq<char>| #[trigger] files_map(t).contains_key(p2) implies files_map(
        t,
    )[p2] == files_map(s).remove(p)[p2] by {
        let a = choose|a: int| 0 <= a < t.len() && t[a].path@ == p2;
        let oa = if a < i {
            a
        } else {
            a + 1
        };
        assert(t[a] == s[oa]);
        assert(files_map(t)[p2] == t[a].data@);
        assert(files_map(s)[p2] == s[oa].data@);
        assert(p2 != p);
    }
    assert(files_map(t) =~= files_map(s).remove(p));
}

/// Replacing the file at `i` by one with the same path updates that path's
/// image in the denoted map.
proof fn lemma_mem_update(s: Seq<MemFile>, i: int, f: MemFile)
    requires
        mem_unique_paths(s),
        0 <= i < s.len(),
        f.path@ == s[i].path@,
    ensures
        mem_unique_paths(s.update(i, f)),
        files_map(s.update(i, f)) == files_map(s).insert(f.path@, f.data@),
{
    let t = s.update(i, f);
    let p = f.path@;
    assert forall|a: int, b: int| 0 <= a < b < t.len() implies t[a].path@ != t[b].path@ by {
        assert(t[a] == if a == i {
            f
        } else {
            s[a]
        });
        assert(t[b] == if b == i {
            f
        } else {
            s[b]
        });
        assert(s[a].path@ != s[b].path@);
    }
    lemma_files_map_characterize(s);
    lemma_files_map_characterize(t);
    assert forall|p2: Seq<char>|
        files_map(t).contains_key(p2) <==> files_map(s).insert(p, f.data@).contains_key(p2) by {
        if files_map(t).contains_key(p2) {
            let a = choose|a: int| 0 <= a < t.len() && t[a].path@ == p2;
            if a != i {
                assert(t[a] == s[a]);
                assert(mem_has_path(s, p2));
            }
        }
        if p2 == p {
            assert(t[i].path@ == p2);
            assert(mem_has_path(t, p2));
        } else if files_map(s).contains_key(p2) {
            let a = choose|a: int| 0 <= a < s.len() && s[a].path@ == p2;
            assert(a != i);
            assert(t[a] == s[a]);
            assert(mem_has_path(t, p2));
        }
    }
    assert forall|p2: Seq<char>| #[trigger] files_map(t).contains_key(p2) implies files_map(
        t,
    )[p2] == files_map(s).insert(p, f.data@)[p2] by {
        if p2 == p {
            assert(t[i].path@ == p);
            assert(files_map(t)[p] == t[i].data@);
        } else {
            let a = choose|a: int| 0 <= a < t.len() && t[a].path@ == p2;
            assert(a != i);
            assert(t[a] == s[a]);
            assert(files_map(t)[p2] == t[a].data@);
            assert(files_map(s)[p2] == s[a].data@);
        }
    }
    assert(files_map(t) =~= files_map(s).insert(p, f.data@));
}

/// Saves `data` to `target` on the in-memory file system with the
/// atomic-replace protocol: write the whole buffer to the fresh temporary
/// name, then replace the target in one step, then drop nothing else.
///
/// On success the target holds exactly the new bytes and the temporary name
/// is gone; on failure the target still holds exactly what it held before,
/// and no temporary file is left behind.
pub fn atomic_save(fs: &mut MemFs, target: &str, tmp: &str, data: Vec<u8>) -> (r: Result<
    (),
    KeystoreError,
>)
    requires
        old(fs).wf(),
        tmp@ != target@,
    ensures
        final(fs).wf(),
        r is Ok <==> !old(fs).files_map().contains_key(tmp@),
        r is Ok ==> final(fs).files_map() == old(fs).files_map().insert(target@, data@),
        r is Err ==> *final(fs) == *old(fs),
        r matches Err(e) ==> e == KeystoreError::TempNameCollision,
        final(fs).files_map().contains_key(tmp@) == old(fs).files_map().contains_key(tmp@)
            && (old(fs).files_map().contains_key(tmp@) ==> final(fs).files_map()[tmp@] == old(
            fs,
        ).files_map()[tmp@]),
{
    let ghost data_view = data@;
    fs.create_exclusive(tmp, data)?;
    let ghost mid = *fs;
    match fs.replace(tmp, target) {
        Ok(()) => {
            proof {
                assert(fs.files_map() =~= old(fs).files_map().insert(target@, data_view));
                assert(!fs.files_map().contains_key(tmp@));
            }
            Ok(())
        },
        Err(e) => {
            proof {
                assert(mid.files_map().contains_key(tmp@));
                assert(false);
            }
            Err(e)
        },
    }
}

/// A crash between making the temporary file durable and replacing the target
/// leaves the target exactly as it was: writing the temporary name touches no
/// other key of the durable state.
pub proof fn lemma_crash_before_replace(
    files: Map<Seq<char>, Seq<u8>>,
    target: Seq<char>,
    tmp: Seq<char>,
    data: Seq<u8>,
)
    requires
        tmp != target,
    ensures
        files.insert(tmp, data).contains_key(target) == files.contains_key(target),
        files.contains_key(target) ==> files.insert(tmp, data)[target] == files[target],
{
}

} // verus!
