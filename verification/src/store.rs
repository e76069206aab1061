//! The in-memory secret map: create, read, update and delete over named
//! secrets, each carrying the timestamp of its last change.

use crate::error::StoreError;
use vstd::prelude::*;
use vstd::utf8::{encode_utf8, encode_utf8_decode_utf8};

verus! {

/// Relies on chrono: formats `Local::now()`, the current local date and time.
/// The value depends on the clock, so only what holds of every rendering is
/// promised: a formatted date and time is never the empty string.
#[verifier::external_body]
fn now_string() -> (r: String)
    ensures
        r@.len() > 0,
{
    chrono::Local::now().to_string()
}

/// Compares two string slices by their UTF-8 bytes; equal bytes decode to
/// equal character sequences.
pub fn str_eq(a: &str, b: &str) -> (r: bool)
    ensures
        r == (a@ == b@),
{
    let ab = a.as_bytes();
    let bb = b.as_bytes();
    if ab.len() != bb.len() {
        return false;
    }
    let n = ab.len();
    let mut i: usize = 0;
    while i < n
        invariant
            i <= n,
            n == ab@.len() && n == bb@.len(),
            ab@ == encode_utf8(a@),
            bb@ == encode_utf8(b@),
            forall|k: int| 0 <= k < i ==> ab@[k] == bb@[k],
        decreases n - i,
    {
        let x = *vstd::slice::slice_index_get(ab, i);
        let y = *vstd::slice::slice_index_get(bb, i);
        if x != y {
            return false;
        }
        i = i + 1;
    }
    proof {
        assert(encode_utf8(a@) =~= encode_utf8(b@));
        encode_utf8_decode_utf8(a@);
        encode_utf8_decode_utf8(b@);
    }
    true
}

/// The mathematical content of a secret entry: its key, value and timestamp as
/// character sequences.
pub struct SecretEntryView {
    /// The entry's key.
    pub key: Seq<char>,
    /// The entry's value.
    pub value: Seq<char>,
    /// When the value was last set.
    pub updated: Seq<char>,
}

/// One named secret with the timestamp of its last change.
#[derive(Debug)]
pub struct SecretEntry {
    /// Unique identifier of the secret.
    pub key: String,
    /// The secret payload.
    pub value: String,
    /// Set at creation and refreshed on every value change.
    pub updated: String,
}

impl View for SecretEntry {
    type V = SecretEntryView;

    open spec fn view(&self) -> SecretEntryView {
        SecretEntryView { key: self.key@, value: self.value@, updated: self.updated@ }
    }
}

impl Clone for SecretEntry {
    /// An exact copy, field by field.
    fn clone(&self) -> (r: Self)
        ensures
            r == *self,
    {
        SecretEntry { key: self.key.clone(), value: self.value.clone(), updated: self.updated.clone() }
    }
}

impl SecretEntry {
    /// Builds an entry stamped with the current time.
    pub(crate) fn new(key: String, value: String) -> (r: Self)
        ensures
            r.key == key,
            r.value == value,
            r.updated@.len() > 0,
    {
        SecretEntry { key, value, updated: now_string() }
    }

    /// The entry's key.
    pub fn key(&self) -> (r: &str)
        ensures
            r@ == self.key@,
    {
        self.key.as_str()
    }

    /// The entry's value.
    pub fn value(&self) -> (r: &str)
        ensures
            r@ == self.value@,
    {
        self.value.as_str()
    }

    /// When the entry's value was last set.
    pub fn updated(&self) -> (r: &str)
        ensures
            r@ == self.updated@,
    {
        self.updated.as_str()
    }

    /// Replaces the value and refreshes the timestamp.
    pub(crate) fn update_value(&mut self, new_value: String)
        ensures
            final(self).key == old(self).key,
            final(self).value == new_value,
            final(self).updated@.len() > 0,
    {
        self.value = new_value;
        self.updated = now_string();
    }
}

/// True when no two entries of `s` share a key.
pub open spec fn unique_keys(s: Seq<SecretEntry>) -> bool {
    forall|i: int, j: int| 0 <= i < j < s.len() ==> s[i].key@ != s[j].key@
}

/// True when some entry of `s` has key `k`.
pub open spec fn has_key(s: Seq<SecretEntry>, k: Seq<char>) -> bool {
    exists|i: int| 0 <= i < s.len() && s[i].key@ == k
}

/// The map from keys to entries that a sequence of entries denotes; a later
/// duplicate would win, but well-formed stores have none.
pub open spec fn entries_map(s: Seq<SecretEntry>) -> Map<Seq<char>, SecretEntryView>
    decreases s.len(),
{
    if s.len() == 0 {
        Map::empty()
    } else {
        entries_map(s.drop_last()).insert(s.last().key@, s.last()@)
    }
}

/// Under unique keys, `entries_map` contains exactly the keys of the sequence
/// and maps each to its entry.
pub proof fn lemma_entries_map_characterize(s: Seq<SecretEntry>)
    requires
        unique_keys(s),
    ensures
        forall|k: Seq<char>| #[trigger] entries_map(s).contains_key(k) <==> has_key(s, k),
        forall|i: int|
            0 <= i < s.len() ==> entries_map(s).contains_key(#[trigger] s[i].key@) && entries_map(
                s,
            )[s[i].key@] == s[i]@,
    decreases s.len(),
{
    if s.len() > 0 {
        let p = s.drop_last();
        let last = s.last();
        assert(unique_keys(p)) by {
            assert(forall|i: int, j: int|
                0 <= i < j < p.len() ==> p[i].key@ != p[j].key@) by {
                assert(forall|i: int| 0 <= i < p.len() ==> p[i] == s[i]);
            }
        }
        lemma_entries_map_characterize(p);
        assert forall|k: Seq<char>| #[trigger] entries_map(s).contains_key(k) <==> has_key(
            s,
            k,
        ) by {
            if entries_map(s).contains_key(k) {
                if k == last.key@ {
                    assert(s[s.len() - 1].key@ == k);
                } else {
                    assert(entries_map(p).contains_key(k));
                    let i = choose|i: int| 0 <= i < p.len() && p[i].key@ == k;
                    assert(s[i].key@ == k);
                }
            }
            if has_key(s, k) {
                let i = choose|i: int| 0 <= i < s.len() && s[i].key@ == k;
                if i == s.len() - 1 {
                    assert(entries_map(s).contains_key(k));
                } else {
                    assert(p[i].key@ == k);
                    assert(has_key(p, k));
                }
            }
        }
        assert forall|i: int| 0 <= i < s.len() implies entries_map(s).contains_key(
            #[trigger] s[i].key@,
        ) && entries_map(s)[s[i].key@] == s[i]@ by {
            if i == s.len() - 1 {
            } else {
                assert(p[i] == s[i]);
                assert(s[i].key@ != last.key@);
                assert(entries_map(p)[s[i].key@] == s[i]@);
            }
        }
    }
}

/// Appending an entry with a fresh key inserts it into the denoted map.
pub proof fn lemma_entries_map_push(s: Seq<SecretEntry>, e: SecretEntry)
    requires
        unique_keys(s),
        !has_key(s, e.key@),
    ensures
        unique_keys(s.push(e)),
        entries_map(s.push(e)) == entries_map(s).insert(e.key@, e@),
{
    let t = s.push(e);
    assert(t.drop_last() =~= s);
    assert(t.last() == e);
    assert forall|i: int, j: int| 0 <= i < j < t.len() implies t[i].key@ != t[j].key@ by {
        if j == t.len() - 1 {
            assert(t[i] == s[i]);
            assert(!(s[i].key@ == e.key@));
        } else {
            assert(t[i] == s[i] && t[j] == s[j]);
        }
    }
}

/// Removing the entry at `i` removes its key from the denoted map.
pub proof fn lemma_entries_map_remove(s: Seq<SecretEntry>, i: int)
    requires
        unique_keys(s),
        0 <= i < s.len(),
    ensures
        unique_keys(s.remove(i)),
        entries_map(s.remove(i)) == entries_map(s).remove(s[i].key@),
{
    let t = s.remove(i);
    let k = s[i].key@;
    assert forall|a: int, b: int| 0 <= a < b < t.len() implies t[a].key@ != t[b].key@ by {
        let oa = if a < i { a } else { a + 1 };
        let ob = if b < i { b } else { b + 1 };
        assert(t[a] == s[oa] && t[b] == s[ob]);
    }
    lemma_entries_map_characterize(s);
    lemma_entries_map_characterize(t);
    assert forall|k2: Seq<char>|
        entries_map(t).contains_key(k2) <==> entries_map(s).remove(k).contains_key(k2) by {
        if entries_map(t).contains_key(k2) {
            let a = choose|a: int| 0 <= a < t.len() && t[a].key@ == k2;
            let oa = if a < i { a } else { a + 1 };
            assert(t[a] == s[oa]);
            assert(s[oa].key@ == k2);
            assert(oa != i ==> k2 != k) by {
                if oa < i {
                    assert(s[oa].key@ != s[i].key@);
                } else if oa > i {
                    assert(s[i].key@ != s[oa].key@);
                }
            }
            assert(has_key(s, k2));
        }
        if entries_map(s).remove(k).contains_key(k2) {
            assert(k2 != k);
            assert(has_key(s, k2));
            let a = choose|a: int| 0 <= a < s.len() && s[a].key@ == k2;
            assert(a != i);
            let na = if a < i { a } else { a - 1 };
            assert(t[na] == s[a]);
            assert(has_key(t, k2));
        }
    }
    assert forall|k2: Seq<char>|
        #[trigger] entries_map(t).contains_key(k2) implies entries_map(t)[k2] == entries_map(
        s,
    ).remove(k)[k2] by {
        let a = choose|a: int| 0 <= a < t.len() && t[a].key@ == k2;
        let oa = if a < i { a } else { a + 1 };
        assert(t[a] == s[oa]);
        assert(entries_map(t)[k2] == t[a]@);
        assert(entries_map(s)[k2] == s[oa]@);
        assert(k2 != k);
    }
    assert(entries_map(t) =~= entries_map(s).remove(k));
}

/// Replacing the entry at `i` by one with the same key updates that key's
/// image in the denoted map.
pub proof fn lemma_entries_map_update(s: Seq<SecretEntry>, i: int, e: SecretEntry)
    requires
        unique_keys(s),
        0 <= i < s.len(),
        e.key@ == s[i].key@,
    ensures
        unique_keys(s.update(i, e)),
        entries_map(s.update(i, e)) == entries_map(s).insert(e.key@, e@),
    decreases s.len(),
{
    let t = s.update(i, e);
    let k = e.key@;
    assert forall|a: int, b: int| 0 <= a < b < t.len() implies t[a].key@ != t[b].key@ by {
        assert(t[a] == if a == i {
            e
        } else {
            s[a]
        });
        assert(t[b] == if b == i {
            e
        } else {
            s[b]
        });
        assert(s[a].key@ != s[b].key@);
    }
    lemma_entries_map_characterize(s);
    lemma_entries_map_characterize(t);
    assert forall|k2: Seq<char>|
        entries_map(t).contains_key(k2) <==> entries_map(s).insert(k, e@).contains_key(k2) by {
        if entries_map(t).contains_key(k2) {
            let a = choose|a: int| 0 <= a < t.len() && t[a].key@ == k2;
            if a == i {
                assert(k2 == k);
            } else {
                assert(t[a] == s[a]);
                assert(has_key(s, k2));
            }
        }
        if k2 == k {
            assert(t[i].key@ == k2);
            assert(has_key(t, k2));
        } else if entries_map(s).contains_key(k2) {
            let a = choose|a: int| 0 <= a < s.len() && s[a].key@ == k2;
            assert(a != i);
            assert(t[a] == s[a]);
            assert(has_key(t, k2));
        }
    }
    assert forall|k2: Seq<char>|
        #[trigger] entries_map(t).contains_key(k2) implies entries_map(t)[k2] == entries_map(
        s,
    ).insert(k, e@)[k2] by {
        if k2 == k {
            assert(t[i].key@ == k);
            assert(entries_map(t)[k] == t[i]@);
        } else {
            let a = choose|a: int| 0 <= a < t.len() && t[a].key@ == k2;
            assert(a != i);
            assert(t[a] == s[a]);
            assert(entries_map(t)[k2] == t[a]@);
            assert(entries_map(s)[k2] == s[a]@);
        }
    }
    assert(entries_map(t) =~= entries_map(s).insert(k, e@));
}

/// The in-memory store: a map of secret entries with unique keys, plus the
/// fixed date of its creation. It is the exact plaintext that is encrypted and
/// decrypted as one unit; every mutation re-encrypts the whole map on the next
/// save.
#[derive(Debug)]
pub struct Store {
    /// The secret entries; well-formed stores keep their keys unique.
    pub secrets: Vec<SecretEntry>,
    /// Fixed at construction, never changed afterwards.
    pub creation_date: String,
}

impl Store {
    /// The well-formedness invariant: no two entries share a key.
    pub open spec fn wf(self) -> bool {
        unique_keys(self.secrets@)
    }

    /// The map this store denotes.
    pub open spec fn secrets_map(self) -> Map<Seq<char>, SecretEntryView> {
        entries_map(self.secrets@)
    }

    /// Builds an empty store stamped with the current time.
    pub fn new() -> (r: Store)
        ensures
            r.wf(),
            r.secrets_map() == Map::<Seq<char>, SecretEntryView>::empty(),
            r.secrets@.len() == 0,
            r.creation_date@.len() > 0,
    {
        Store { secrets: Vec::new(), creation_date: now_string() }
    }

    /// Index of the entry holding `key`, if any.
    fn find(&self, key: &str) -> (r: Option<usize>)
        ensures
            r matches Some(i) ==> i < self.secrets@.len() && self.secrets@[i as int].key@ == key@,
            r is None <==> !has_key(self.secrets@, key@),
    {
        let n = self.secrets.len();
        let mut i: usize = 0;
        while i < n
            invariant
                i <= n,
                n == self.secrets@.len(),
                forall|k: int| 0 <= k < i ==> self.secrets@[k].key@ != key@,
            decreases n - i,
        {
            if str_eq(self.secrets[i].key.as_str(), key) {
                return Some(i);
            }
            i = i + 1;
        }
        None
    }

    /// Inserts a new secret under `key`, stamped with the current time.
    ///
    /// Fails with `KeyAlreadyExists` when the key is taken; `update` is the
    /// operation for changing an existing secret.
    pub fn set(&mut self, key: &str, value: &str) -> (r: Result<(), StoreError>)
        requires
            old(self).wf(),
        ensures
            final(self).wf(),
            final(self).creation_date == old(self).creation_date,
            r is Ok <==> !old(self).secrets_map().contains_key(key@),
            r is Ok ==> exists|u: Seq<char>|
                u.len() > 0 && final(self).secrets_map() == old(self).secrets_map().insert(
                    key@,
                    SecretEntryView { key: key@, value: value@, updated: u },
                ),
            r matches Err(e) ==> *final(self) == *old(self) && (e matches StoreError::KeyAlreadyExists(
                k,
            ) && k@ == key@),
    {
        proof {
            lemma_entries_map_characterize(self.secrets@);
        }
        match self.find(key) {
            Some(_) => Err(StoreError::KeyAlreadyExists(key.to_owned())),
            None => {
                let entry = SecretEntry::new(key.to_owned(), value.to_owned());
                proof {
                    lemma_entries_map_push(self.secrets@, entry);
                }
                let ghost u = entry.updated@;
                self.secrets.push(entry);
                assert(self.secrets_map() == old(self).secrets_map().insert(
                    key@,
                    SecretEntryView { key: key@, value: value@, updated: u },
                ));
                Ok(())
            },
        }
    }

    /// The value stored under `key`, or nothing.
    pub fn get(&self, key: &str) -> (r: Option<&str>)
        requires
            self.wf(),
        ensures
            r matches Some(v) ==> self.secrets_map().contains_key(key@)
                && self.secrets_map()[key@].value == v@,
            r is None <==> !self.secrets_map().contains_key(key@),
    {
        proof {
            lemma_entries_map_characterize(self.secrets@);
        }
        match self.find(key) {
            Some(i) => Some(self.secrets[i].value.as_str()),
            None => None,
        }
    }

    /// Deletes the secret under `key`, or fails with `KeyNotFound`.
    pub fn remove(&mut self, key: &str) -> (r: Result<(), StoreError>)
        requires
            old(self).wf(),
        ensures
            final(self).wf(),
            final(self).creation_date == old(self).creation_date,
            r is Ok <==> old(self).secrets_map().contains_key(key@),
            r is Ok ==> final(self).secrets_map() == old(self).secrets_map().remove(key@),
            r matches Err(e) ==> *final(self) == *old(self) && (e matches StoreError::KeyNotFound(k)
                && k@ == key@),
    {
        proof {
            lemma_entries_map_characterize(self.secrets@);
        }
        match self.find(key) {
            Some(i) => {
                proof {
                    lemma_entries_map_remove(self.secrets@, i as int);
                }
                self.secrets.remove(i);
                Ok(())
            },
            None => Err(StoreError::KeyNotFound(key.to_owned())),
        }
    }

    /// Replaces the value under `key` and refreshes its timestamp, or fails
    /// with `KeyNotFound`. `set` is the operation for creating a secret.
    pub fn update(&mut self, key: &str, value: &str) -> (r: Result<(), StoreError>)
        requires
            old(self).wf(),
        ensures
            final(self).wf(),
            final(self).creation_date == old(self).creation_date,
            r is Ok <==> old(self).secrets_map().contains_key(key@),
            r is Ok ==> exists|u: Seq<char>|
                u.len() > 0 && final(self).secrets_map() == old(self).secrets_map().insert(
                    key@,
                    SecretEntryView { key: key@, value: value@, updated: u },
                ),
            r matches Err(e) ==> *final(self) == *old(self) && (e matches StoreError::KeyNotFound(k)
                && k@ == key@),
    {
        proof {
            lemma_entries_map_characterize(self.secrets@);
        }
        match self.find(key) {
            Some(i) => {
                let mut entry = self.secrets[i].clone();
                entry.update_value(value.to_owned());
                proof {
                    lemma_entries_map_update(self.secrets@, i as int, entry);
                }
                let ghost u = entry.updated@;
                self.secrets[i] = entry;
                assert(self.secrets_map() == old(self).secrets_map().insert(
                    key@,
                    SecretEntryView { key: key@, value: value@, updated: u },
                ));
                Ok(())
            },
            None => Err(StoreError::KeyNotFound(key.to_owned())),
        }
    }

    /// All keys, exactly one per entry, in the store's internal order.
    pub fn keys(&self) -> (r: Vec<String>)
        requires
            self.wf(),
        ensures
            r@.len() == self.secrets@.len(),
            forall|i: int| 0 <= i < r@.len() ==> r@[i]@ == self.secrets@[i].key@,
            forall|i: int, j: int| 0 <= i < j < r@.len() ==> r@[i]@ != r@[j]@,
            forall|i: int|
                0 <= i < r@.len() ==> self.secrets_map().contains_key(#[trigger] r@[i]@),
            forall|k: Seq<char>|
                self.secrets_map().contains_key(k) ==> exists|i: int|
                    0 <= i < r@.len() && r@[i]@ == k,
    {
        proof {
            lemma_entries_map_characterize(self.secrets@);
        }
        let n = self.secrets.len();
        let mut r: Vec<String> = Vec::new();
        let mut i: usize = 0;
        while i < n
            invariant
                i <= n,
                n == self.secrets@.len(),
                r@.len() == i,
                forall|k: int| 0 <= k < i ==> r@[k]@ == self.secrets@[k].key@,
            decreases n - i,
        {
            r.push(self.secrets[i].key.clone());
            i = i + 1;
        }
        proof {
            assert forall|k: Seq<char>| self.secrets_map().contains_key(k) implies exists|j: int|
                0 <= j < r@.len() && r@[j]@ == k by {
                let j = choose|j: int|
                    0 <= j < self.secrets@.len() && self.secrets@[j].key@ == k;
                assert(r@[j]@ == k);
            }
        }
        r
    }

    /// All entries, copied, in the store's internal order.
    pub fn entries(&self) -> (r: Vec<SecretEntry>)
        requires
            self.wf(),
        ensures
            r@ == self.secrets@,
            forall|i: int|
                0 <= i < r@.len() ==> self.secrets_map().contains_key(#[trigger] r@[i].key@)
                    && self.secrets_map()[r@[i].key@] == r@[i]@,
    {
        proof {
            lemma_entries_map_characterize(self.secrets@);
        }
        let n = self.secrets.len();
        let mut r: Vec<SecretEntry> = Vec::new();
        let mut i: usize = 0;
        while i < n
            invariant
                i <= n,
                n == self.secrets@.len(),
                r@ == self.secrets@.subrange(0, i as int),
            decreases n - i,
        {
            r.push(self.secrets[i].clone());
            proof {
                assert(r@ =~= self.secrets@.subrange(0, i + 1 as int));
            }
            i = i + 1;
        }
        proof {
            assert(r@ =~= self.secrets@);
        }
        r
    }

    /// The fixed creation date of this store.
    pub fn creation_date(&self) -> (r: &str)
        ensures
            r@ == self.creation_date@,
    {
        self.creation_date.as_str()
    }

    /// How many secrets the store holds.
    pub fn len(&self) -> (r: usize)
        ensures
            r == self.secrets@.len(),
    {
        self.secrets.len()
    }
}

} // verus!
