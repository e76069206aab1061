//! Byte codec for the store payload: the exact plaintext that is encrypted
//! into the keystore file.
//!
//! Strings travel as a little-endian 64-bit byte count followed by their UTF-8
//! bytes; the payload is the creation date, an entry count, and each entry's
//! key, value and timestamp in order. Decoding inverts encoding exactly and
//! rejects everything else.

use crate::error::KeystoreError;
use crate::store::{unique_keys, SecretEntry, SecretEntryView, Store};
use vstd::bytes::{
    lemma_auto_spec_u64_to_from_le_bytes, spec_u64_from_le_bytes, spec_u64_to_le_bytes,
    u64_from_le_bytes, u64_to_le_bytes,
};
use vstd::prelude::*;
use vstd::slice::{slice_subrange, slice_to_vec};
use vstd::utf8::{decode_utf8, encode_utf8, encode_utf8_decode_utf8, encode_utf8_valid_utf8, valid_utf8};

verus! {

/// The entry views of a sequence of entries, in order.
pub open spec fn views_of(s: Seq<SecretEntry>) -> Seq<SecretEntryView> {
    s.map_values(|e: SecretEntry| e@)
}

/// True when no two entry views share a key.
pub open spec fn views_unique(es: Seq<SecretEntryView>) -> bool {
    forall|i: int, j: int| 0 <= i < j < es.len() ==> es[i].key != es[j].key
}

/// True when the string's UTF-8 form fits the 64-bit length field.
pub open spec fn spec_str_ok(s: Seq<char>) -> bool {
    encode_utf8(s).len() < 0x10000000000000000
}

/// True when every string of every entry fits its length field.
pub open spec fn spec_entries_ok(es: Seq<SecretEntryView>) -> bool {
    forall|i: int|
        0 <= i < es.len() ==> spec_str_ok(#[trigger] es[i].key) && spec_str_ok(es[i].value)
            && spec_str_ok(es[i].updated)
}

/// A string on the wire: its UTF-8 byte count, then its UTF-8 bytes.
pub open spec fn spec_str_block(s: Seq<char>) -> Seq<u8> {
    spec_u64_to_le_bytes(encode_utf8(s).len() as u64) + encode_utf8(s)
}

/// An entry on the wire: key, value, timestamp.
pub open spec fn spec_entry_block(e: SecretEntryView) -> Seq<u8> {
    spec_str_block(e.key) + spec_str_block(e.value) + spec_str_block(e.updated)
}

/// A sequence of entries on the wire, in order.
pub open spec fn spec_entries_bytes(es: Seq<SecretEntryView>) -> Seq<u8>
    decreases es.len(),
{
    if es.len() == 0 {
        Seq::empty()
    } else {
        spec_entry_block(es.first()) + spec_entries_bytes(es.drop_first())
    }
}

/// The whole payload: creation date, entry count, entries.
pub open spec fn spec_store_bytes(cd: Seq<char>, es: Seq<SecretEntryView>) -> Seq<u8> {
    spec_str_block(cd) + spec_u64_to_le_bytes(es.len() as u64) + spec_entries_bytes(es)
}

/// What decoding one string from the front of `data` yields: the characters
/// and the remaining bytes, or nothing when the bytes do not carry a string.
pub open spec fn spec_dec_str(data: Seq<u8>) -> Option<(Seq<char>, Seq<u8>)> {
    if data.len() < 8 {
        None
    } else {
        let n = spec_u64_from_le_bytes(data.subrange(0, 8)) as int;
        if data.len() - 8 < n {
            None
        } else {
            let sb = data.subrange(8, 8 + n);
            if valid_utf8(sb) {
                Some((decode_utf8(sb), data.subrange(8 + n, data.len() as int)))
            } else {
                None
            }
        }
    }
}

/// What decoding `n` entries from the front of `data` yields.
pub open spec fn spec_dec_entries(data: Seq<u8>, n: nat) -> Option<
    (Seq<SecretEntryView>, Seq<u8>),
>
    decreases n,
{
    if n == 0 {
        Some((Seq::empty(), data))
    } else {
        match spec_dec_str(data) {
            Option::None => None,
            Option::Some((key, r1)) => match spec_dec_str(r1) {
                Option::None => None,
                Option::Some((value, r2)) => match spec_dec_str(r2) {
                    Option::None => None,
                    Option::Some((updated, r3)) => match spec_dec_entries(r3, (n - 1) as nat) {
                        Option::None => None,
                        Option::Some((rest, r4)) => Some(
                            (seq![SecretEntryView { key, value, updated }] + rest, r4),
                        ),
                    },
                },
            },
        }
    }
}

/// What decoding a whole payload yields: the creation date and the entries,
/// or nothing when any part is malformed or bytes are left over.
pub open spec fn spec_decode_store(data: Seq<u8>) -> Option<(Seq<char>, Seq<SecretEntryView>)> {
    match spec_dec_str(data) {
        Option::None => None,
        Option::Some((cd, r1)) => {
            if r1.len() < 8 {
                None
            } else {
                let n = spec_u64_from_le_bytes(r1.subrange(0, 8));
                match spec_dec_entries(r1.subrange(8, r1.len() as int), n as nat) {
                    Option::None => None,
                    Option::Some((es, rest)) => if rest.len() == 0 {
                        Some((cd, es))
                    } else {
                        None
                    },
                }
            }
        },
    }
}

/// Decoding inverts encoding for one string, whatever follows it.
pub proof fn lemma_dec_str_roundtrip(s: Seq<char>, tail: Seq<u8>)
    requires
        spec_str_ok(s),
    ensures
        spec_dec_str(spec_str_block(s) + tail) == Some((s, tail)),
{
    lemma_auto_spec_u64_to_from_le_bytes();
    let eb = encode_utf8(s);
    let n = eb.len() as int;
    let d = spec_str_block(s) + tail;
    assert(d.len() == 8 + n + tail.len());
    assert(d.subrange(0, 8) =~= spec_u64_to_le_bytes(eb.len() as u64));
    assert(spec_u64_from_le_bytes(d.subrange(0, 8)) as int == n);
    assert(d.subrange(8, 8 + n) =~= eb);
    encode_utf8_valid_utf8(s);
    encode_utf8_decode_utf8(s);
    assert(d.subrange(8 + n, d.len() as int) =~= tail);
}

/// Decoding inverts encoding for a sequence of entries, whatever follows it.
pub proof fn lemma_dec_entries_roundtrip(es: Seq<SecretEntryView>, tail: Seq<u8>)
    requires
        spec_entries_ok(es),
    ensures
        spec_dec_entries(spec_entries_bytes(es) + tail, es.len() as nat) == Some((es, tail)),
    decreases es.len(),
{
    if es.len() == 0 {
        assert(spec_entries_bytes(es) + tail =~= tail);
        assert(spec_dec_entries(tail, 0) == Some((Seq::<SecretEntryView>::empty(), tail)));
        assert(es =~= Seq::<SecretEntryView>::empty());
    } else {
        let e = es.first();
        let rest = es.drop_first();
        let d = spec_entries_bytes(es) + tail;
        let t1 = spec_str_block(e.value) + spec_str_block(e.updated) + spec_entries_bytes(rest)
            + tail;
        assert(d =~= spec_str_block(e.key) + t1);
        lemma_dec_str_roundtrip(e.key, t1);
        let t2 = spec_str_block(e.updated) + spec_entries_bytes(rest) + tail;
        assert(t1 =~= spec_str_block(e.value) + t2);
        lemma_dec_str_roundtrip(e.value, t2);
        let t3 = spec_entries_bytes(rest) + tail;
        assert(t2 =~= spec_str_block(e.updated) + t3);
        lemma_dec_str_roundtrip(e.updated, t3);
        assert(spec_entries_ok(rest)) by {
            assert(forall|i: int| 0 <= i < rest.len() ==> rest[i] == es[i + 1]);
        }
        lemma_dec_entries_roundtrip(rest, tail);
        assert(SecretEntryView { key: e.key, value: e.value, updated: e.updated } == e);
        assert(seq![e] + rest =~= es);
    }
}

/// Decoding inverts encoding for a whole payload: the payload laid down for a
/// creation date and a sequence of entries decodes back to exactly them.
pub proof fn lemma_store_roundtrip(cd: Seq<char>, es: Seq<SecretEntryView>)
    requires
        spec_str_ok(cd),
        spec_entries_ok(es),
        es.len() < 0x10000000000000000,
    ensures
        spec_decode_store(spec_store_bytes(cd, es)) == Some((cd, es)),
{
    lemma_auto_spec_u64_to_from_le_bytes();
    let d = spec_store_bytes(cd, es);
    let t1 = spec_u64_to_le_bytes(es.len() as u64) + spec_entries_bytes(es);
    assert(d =~= spec_str_block(cd) + t1);
    lemma_dec_str_roundtrip(cd, t1);
    assert(t1.subrange(0, 8) =~= spec_u64_to_le_bytes(es.len() as u64));
    assert(spec_u64_from_le_bytes(t1.subrange(0, 8)) as nat == es.len());
    assert(t1.subrange(8, t1.len() as int) =~= spec_entries_bytes(es) + Seq::<u8>::empty());
    lemma_dec_entries_roundtrip(es, Seq::<u8>::empty());
}

/// Appending one entry extends the wire form by that entry's block.
proof fn lemma_entries_bytes_push(es: Seq<SecretEntryView>, e: SecretEntryView)
    ensures
        spec_entries_bytes(es.push(e)) == spec_entries_bytes(es) + spec_entry_block(e),
    decreases es.len(),
{
    let t = es.push(e);
    if es.len() == 0 {
        assert(t.first() == e);
        assert(t.drop_first() =~= Seq::<SecretEntryView>::empty());
        assert(spec_entries_bytes(t.drop_first()) == Seq::<u8>::empty());
        assert(spec_entries_bytes(t) == spec_entry_block(e) + Seq::<u8>::empty());
        assert(spec_entries_bytes(es) == Seq::<u8>::empty());
        assert(spec_entries_bytes(t) =~= spec_entries_bytes(es) + spec_entry_block(e));
    } else {
        assert(t.first() == es.first());
        assert(t.drop_first() =~= es.drop_first().push(e));
        lemma_entries_bytes_push(es.drop_first(), e);
        assert(spec_entries_bytes(t) == spec_entry_block(es.first()) + spec_entries_bytes(
            t.drop_first(),
        ));
        assert(spec_entries_bytes(es) == spec_entry_block(es.first()) + spec_entries_bytes(
            es.drop_first(),
        ));
        assert(spec_entries_bytes(t) =~= spec_entries_bytes(es) + spec_entry_block(e));
    }
}

/// Appends one string block to `buf`.
fn push_str_block(buf: &mut Vec<u8>, s: &str)
    ensures
        final(buf)@ == old(buf)@ + spec_str_block(s@),
{
    let bytes = s.as_bytes();
    let n = bytes.len();
    let mut lenb = u64_to_le_bytes(n as u64);
    buf.append(&mut lenb);
    let mut bv = slice_to_vec(bytes);
    buf.append(&mut bv);
    proof {
        assert(buf@ =~= old(buf)@ + spec_str_block(s@));
    }
}

/// Encodes a store into the exact payload bytes.
pub fn encode_store(store: &Store) -> (r: Vec<u8>)
    ensures
        r@ == spec_store_bytes(store.creation_date@, views_of(store.secrets@)),
{
    let ghost views = views_of(store.secrets@);
    let mut buf: Vec<u8> = Vec::new();
    push_str_block(&mut buf, store.creation_date.as_str());
    let count = store.secrets.len();
    let mut lenb = u64_to_le_bytes(count as u64);
    buf.append(&mut lenb);
    let ghost prefix = buf@;
    proof {
        assert(buf@ =~= prefix + spec_entries_bytes(views.take(0)));
    }
    let mut i: usize = 0;
    while i < count
        invariant
            i <= count,
            count == store.secrets@.len(),
            views == views_of(store.secrets@),
            buf@ == prefix + spec_entries_bytes(views.take(i as int)),
        decreases count - i,
    {
        let entry = &store.secrets[i];
        push_str_block(&mut buf, entry.key.as_str());
        push_str_block(&mut buf, entry.value.as_str());
        push_str_block(&mut buf, entry.updated.as_str());
        proof {
            lemma_entries_bytes_push(views.take(i as int), views[i as int]);
            assert(views.take(i + 1 as int) =~= views.take(i as int).push(views[i as int]));
            assert(buf@ =~= prefix + spec_entries_bytes(views.take(i + 1 as int)));
        }
        i = i + 1;
    }
    proof {
        assert(views.take(count as int) =~= views);
        assert(buf@ =~= spec_store_bytes(store.creation_date@, views));
    }
    buf
}

/// Relies on String::from_utf8: succeeds exactly on valid UTF-8 input and
/// returns the characters that the bytes encode.
#[verifier::external_body]
pub(crate) fn string_from_utf8(bytes: Vec<u8>) -> (r: Option<String>)
    ensures
        r matches Some(s) ==> valid_utf8(bytes@) && s@ == decode_utf8(bytes@),
        r is None <==> !valid_utf8(bytes@),
{
    String::from_utf8(bytes).ok()
}

/// Decodes one string at `pos`, returning it and the position after it.
fn read_str(data: &[u8], pos: usize) -> (r: Result<(String, usize), KeystoreError>)
    requires
        pos <= data@.len(),
    ensures
        r matches Ok((s, end)) ==> pos < end <= data@.len() && spec_dec_str(
            data@.subrange(pos as int, data@.len() as int),
        ) == Some((s@, data@.subrange(end as int, data@.len() as int))),
        r is Err <==> spec_dec_str(data@.subrange(pos as int, data@.len() as int)) is None,
        r matches Err(e) ==> e == KeystoreError::CorruptedOrWrongPassword,
{
    let len = data.len();
    let ghost d = data@.subrange(pos as int, len as int);
    if len - pos < 8 {
        return Err(KeystoreError::CorruptedOrWrongPassword);
    }
    let n64 = u64_from_le_bytes(slice_subrange(data, pos, pos + 8));
    proof {
        assert(d.subrange(0, 8) =~= data@.subrange(pos as int, pos + 8 as int));
    }
    let rem = len - (pos + 8);
    if (rem as u64) < n64 {
        return Err(KeystoreError::CorruptedOrWrongPassword);
    }
    let n = n64 as usize;
    let sb = slice_subrange(data, pos + 8, pos + 8 + n);
    let ghost sbs = d.subrange(8, 8 + n as int);
    proof {
        assert(sb@ =~= sbs);
    }
    match string_from_utf8(slice_to_vec(sb)) {
        Option::Some(s) => {
            let end = pos + 8 + n;
            proof {
                assert(d.subrange(8 + n as int, d.len() as int) =~= data@.subrange(
                    end as int,
                    len as int,
                ));
            }
            Ok((s, end))
        },
        Option::None => Err(KeystoreError::CorruptedOrWrongPassword),
    }
}

/// Decodes a payload back into a store.
///
/// Succeeds exactly on the image of the encoder over stores with unique keys:
/// a malformed length, invalid UTF-8, trailing bytes or a duplicate key each
/// reject the payload with the single undifferentiated error.
#[verifier::loop_isolation(false)]
#[verifier::rlimit(60)]
pub fn decode_store(data: &[u8]) -> (r: Result<Store, KeystoreError>)
    ensures
        r matches Ok(st) ==> st.wf() && spec_decode_store(data@) == Some(
            (st.creation_date@, views_of(st.secrets@)),
        ),
        r is Ok <==> (spec_decode_store(data@) matches Some((cd, es)) && views_unique(es)),
        r matches Err(e) ==> e == KeystoreError::CorruptedOrWrongPassword,
{
    let len = data.len();
    proof {
        assert(data@.subrange(0, len as int) =~= data@);
    }
    let (cd, pos1) = match read_str(data, 0) {
        Ok(x) => x,
        Err(e) => {
            return Err(e);
        },
    };
    let ghost r1 = data@.subrange(pos1 as int, len as int);
    if len - pos1 < 8 {
        return Err(KeystoreError::CorruptedOrWrongPassword);
    }
    let count = u64_from_le_bytes(slice_subrange(data, pos1, pos1 + 8));
    proof {
        assert(r1.subrange(0, 8) =~= data@.subrange(pos1 as int, pos1 + 8 as int));
    }
    let pos2 = pos1 + 8;
    let ghost d0 = data@.subrange(pos2 as int, len as int);
    proof {
        assert(r1.subrange(8, r1.len() as int) =~= d0);
        assert(spec_decode_store(data@) == (match spec_dec_entries(d0, count as nat) {
            Option::Some((es, rest)) => if rest.len() == 0 {
                Option::Some((cd@, es))
            } else {
                Option::<(Seq<char>, Seq<SecretEntryView>)>::None
            },
            Option::None => Option::<(Seq<char>, Seq<SecretEntryView>)>::None,
        }));
    }
    let mut secrets: Vec<SecretEntry> = Vec::new();
    let mut pos: usize = pos2;
    let mut i: u64 = 0;
    proof {
        assert(views_of(secrets@) =~= Seq::<SecretEntryView>::empty());
        assert(spec_dec_entries(d0, count as nat) == (match spec_dec_entries(
            data@.subrange(pos as int, len as int),
            (count - i) as nat,
        ) {
            Option::Some((rest_es, rest)) => Some((views_of(secrets@) + rest_es, rest)),
            Option::None => Option::<(Seq<SecretEntryView>, Seq<u8>)>::None,
        })) by {
            match spec_dec_entries(d0, count as nat) {
                Option::Some((es0, rest0)) => {
                    assert(views_of(secrets@) + es0 =~= es0);
                },
                Option::None => {},
            }
        }
    }
    while i < count
        invariant
            i <= count,
            pos <= len,
            len == data@.len(),
            views_of(secrets@).len() == secrets@.len(),
            spec_dec_entries(d0, count as nat) == (match spec_dec_entries(
                data@.subrange(pos as int, len as int),
                (count - i) as nat,
            ) {
                Option::Some((rest_es, rest)) => Some((views_of(secrets@) + rest_es, rest)),
                Option::None => Option::<(Seq<SecretEntryView>, Seq<u8>)>::None,
            }),
        decreases count - i,
    {
        let ghost pos_at_entry = pos;
        let ghost n_here = (count - i) as nat;
        let ghost dcur = data@.subrange(pos as int, len as int);
        let (key, p1) = match read_str(data, pos) {
            Ok(x) => x,
            Err(e) => {
                proof {
                    assert(spec_dec_entries(dcur, n_here) is None);
                }
                return Err(e);
            },
        };
        let (value, p2) = match read_str(data, p1) {
            Ok(x) => x,
            Err(e) => {
                proof {
                    assert(spec_dec_entries(dcur, n_here) is None);
                }
                return Err(e);
            },
        };
        let (updated, p3) = match read_str(data, p2) {
            Ok(x) => x,
            Err(e) => {
                proof {
                    assert(spec_dec_entries(dcur, n_here) is None);
                }
                return Err(e);
            },
        };
        let entry = SecretEntry { key, value, updated };
        let ghost old_views = views_of(secrets@);
        secrets.push(entry);
        pos = p3;
        i = i + 1;
        proof {
            assert(views_of(secrets@) =~= old_views.push(entry@));
            assert(entry@ == (SecretEntryView { key: key@, value: value@, updated: updated@ }));
            assert(spec_dec_entries(dcur, n_here) == (match spec_dec_entries(
                data@.subrange(pos as int, len as int),
                (count - i) as nat,
            ) {
                Option::Some((rest, r4)) => Some((seq![entry@] + rest, r4)),
                Option::None => Option::<(Seq<SecretEntryView>, Seq<u8>)>::None,
            }));
            match spec_dec_entries(data@.subrange(pos as int, len as int), (count - i) as nat) {
                Option::Some((rest_es, rest)) => {
                    assert(old_views.push(entry@) + rest_es =~= old_views + (seq![entry@]
                        + rest_es));
                },
                Option::None => {},
            }
        }
    }
    proof {
        assert(spec_dec_entries(data@.subrange(pos as int, len as int), 0) == Some(
            (Seq::<SecretEntryView>::empty(), data@.subrange(pos as int, len as int)),
        ));
        match spec_dec_entries(d0, count as nat) {
            Option::Some((es0, rest0)) => {
                assert(views_of(secrets@) + Seq::<SecretEntryView>::empty() =~= views_of(
                    secrets@,
                ));
            },
            Option::None => {},
        }
    }
    if pos != len {
        return Err(KeystoreError::CorruptedOrWrongPassword);
    }
    proof {
        assert(data@.subrange(pos as int, len as int).len() == 0);
        assert(spec_decode_store(data@) == Some((cd@, views_of(secrets@))));
    }
    let n = secrets.len();
    let mut a: usize = 0;
    while a < n
        invariant
            a <= n,
            n == secrets@.len(),
            forall|x: int, y: int| 0 <= x < y < n && x < a ==> secrets@[x].key@ != secrets@[y].key@,
        decreases n - a,
    {
        let mut b: usize = a + 1;
        while b < n
            invariant
                a < b && b <= n,
                a < n,
                n == secrets@.len(),
                forall|y: int| a < y < b ==> secrets@[a as int].key@ != secrets@[y].key@,
            decreases n - b,
        {
            if crate::store::str_eq(secrets[a].key.as_str(), secrets[b].key.as_str()) {
                proof {
                    let es = views_of(secrets@);
                    assert(es[a as int].key == es[b as int].key);
                    assert(!views_unique(es));
                }
                return Err(KeystoreError::CorruptedOrWrongPassword);
            }
            b = b + 1;
        }
        a = a + 1;
    }
    proof {
        assert(unique_keys(secrets@));
        assert(views_unique(views_of(secrets@))) by {
            assert(forall|x: int|
                0 <= x < secrets@.len() ==> views_of(secrets@)[x].key == secrets@[x].key@);
        }
    }
    Ok(Store { secrets, creation_date: cd })
}

} // verus!
