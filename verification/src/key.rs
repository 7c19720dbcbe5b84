//! The addressing key of the global state store: four variants under one
//! closed type, with accessors, text parsing and canonical formatting.

use vstd::prelude::*;
use vstd::slice::slice_index_get;
use vstd::slice::slice_subrange;
use vstd::string::StringExecFns;

use crate::bytesrepr::Error;
use crate::hex::addr_to_hex;
use crate::hex::decoded_addr;
use crate::hex::hex_chars;
use crate::hex::parse_addr;
use crate::hex::valid_hex_addr;
use crate::pointers::ContractPointer;
use crate::pointers::UPointer;
use crate::uref::rights_byte;
use crate::uref::rights_text;
use crate::uref::uref_bytes;
use crate::uref::AccessRights;
use crate::uref::URef;

verus! {

broadcast use vstd::array::group_array_axioms;

/// A key into the global state store.  Exactly one variant is active:
/// a plain account address, a content-hash address, a mutable reference
/// carrying its permission set, or a contract-local address made of a
/// 32-byte seed and a 32-byte derived hash.
#[derive(PartialEq, Eq, PartialOrd, Ord, Clone, Copy, Hash, Debug)]
pub enum Key {
    Account([u8; 32]),
    Hash([u8; 32]),
    URef(URef),
    Local { seed: [u8; 32], key_hash: [u8; 32] },
}

/// The key with the permission set of a reference discarded; keys of the
/// other variants are unchanged.
pub open spec fn spec_normalize(k: Key) -> Key {
    match k {
        Key::URef(u) => Key::URef(URef { addr: u.addr, access_rights: None }),
        other => other,
    }
}

/// The canonical display text of a key: the kind label around the
/// zero-padded 64-character hexadecimal address fields, a reference's
/// permission set rendered after its address, the literal `None` when the
/// reference carries none.
pub open spec fn key_display(k: Key) -> Seq<char> {
    match k {
        Key::Account(addr) => "Account("@ + hex_chars(addr@) + ")"@,
        Key::Hash(addr) => "Hash("@ + hex_chars(addr@) + ")"@,
        Key::URef(u) => match u.access_rights {
            Some(r) => "Reference("@ + hex_chars(u.addr@) + ", "@ + rights_text(r) + ")"@,
            None => "Reference("@ + hex_chars(u.addr@) + ", None)"@,
        },
        Key::Local { seed, key_hash } => "Local("@ + hex_chars(seed@) + ", "@ + hex_chars(
            key_hash@,
        ) + ")"@,
    }
}

impl Key {
    /// Down-casts to a validated reference pointer; succeeds exactly when
    /// this key is a reference that carries a permission set.
    pub fn to_u_ptr<T>(self) -> (r: Option<UPointer<T>>)
        ensures
            r is Some <==> (self matches Key::URef(u) && u.access_rights is Some),
            r matches Some(p) ==> (self matches Key::URef(u) && p.addr == u.addr
                && u.access_rights == Some(p.access_rights)),
    {
        if let Key::URef(uref) = self {
            UPointer::from_uref(uref)
        } else {
            None
        }
    }

    /// Down-casts to a contract pointer: a validated reference pointer for a
    /// reference key carrying a permission set, or a hash pointer for a
    /// content-hash key.
    pub fn to_c_ptr(self) -> (r: Option<ContractPointer>)
        ensures
            r is Some <==> ((self matches Key::URef(u) && u.access_rights is Some)
                || self is Hash),
            self matches Key::Hash(id) ==> r == Some(ContractPointer::Hash(id)),
            self matches Key::URef(URef { addr: ua, access_rights: Some(ar) }) ==> r matches Some(
                p,
            ) && p matches ContractPointer::URef(up) && up.addr == ua && up.access_rights == ar,
    {
        match self {
            Key::URef(uref) => match UPointer::from_uref(uref) {
                Some(p) => Some(ContractPointer::URef(p)),
                None => None,
            },
            Key::Hash(id) => Some(ContractPointer::Hash(id)),
            _ => None,
        }
    }

    /// The address of an account key; absent for every other variant.
    pub fn as_account(&self) -> (r: Option<[u8; 32]>)
        ensures
            r is Some <==> self is Account,
            self matches Key::Account(bytes) ==> r == Some(*bytes),
    {
        match self {
            Key::Account(bytes) => Some(*bytes),
            _ => None,
        }
    }

    /// Discards the permission set of a reference key, making it comparable
    /// for identity regardless of how it was obtained; every other variant
    /// is returned unchanged.
    pub fn normalize(self) -> (r: Key)
        ensures
            r == spec_normalize(self),
    {
        match self {
            Key::URef(uref) => Key::URef(uref.remove_access_rights()),
            other => other,
        }
    }

    /// Parses a content-hash key from hexadecimal text, `0x`-prefixed or
    /// not.  Absent whenever the text is not exactly an address field.
    pub fn parse_hash(addr: String) -> (r: Option<Key>)
        ensures
            r is Some <==> valid_hex_addr(addr@),
            r matches Some(k) ==> (k matches Key::Hash(a) && a@ == decoded_addr(addr@)),
    {
        match parse_addr(addr.as_str()) {
            Some(buff) => Some(Key::Hash(buff)),
            None => None,
        }
    }

    /// Parses a reference key from hexadecimal text, attaching the given
    /// permission set.  Absent whenever the text is not exactly an address
    /// field.
    pub fn parse_uref(addr: String, access_rights: AccessRights) -> (r: Option<Key>)
        ensures
            r is Some <==> valid_hex_addr(addr@),
            r matches Some(k) ==> (k matches Key::URef(u) && u.addr@ == decoded_addr(addr@)
                && u.access_rights == Some(access_rights)),
    {
        match parse_addr(addr.as_str()) {
            Some(buff) => Some(Key::URef(URef::new(buff, access_rights))),
            None => None,
        }
    }

    /// Parses a contract-local key from the hexadecimal text of its seed and
    /// of its derived hash.  Both fields must parse; otherwise no key is
    /// produced at all.
    pub fn parse_local(seed: String, key_hash: String) -> (r: Option<Key>)
        ensures
            r is Some <==> valid_hex_addr(seed@) && valid_hex_addr(key_hash@),
            r matches Some(k) ==> (k matches Key::Local { seed: s, key_hash: h } && s@
                == decoded_addr(seed@) && h@ == decoded_addr(key_hash@)),
    {
        let seed_buff = parse_addr(seed.as_str());
        let key_buff = parse_addr(key_hash.as_str());
        match (seed_buff, key_buff) {
            (Some(s), Some(h)) => Some(Key::Local { seed: s, key_hash: h }),
            _ => None,
        }
    }

    /// Renders this key in its canonical (and only) textual form.
    pub fn to_display_string(&self) -> (s: String)
        ensures
            s@ == key_display(*self),
    {
        let mut s = String::new();
        match self {
            Key::Account(addr) => {
                s.append("Account(");
                let h = addr_to_hex(addr);
                s.append(h.as_str());
                s.append(")");
            },
            Key::Hash(addr) => {
                s.append("Hash(");
                let h = addr_to_hex(addr);
                s.append(h.as_str());
                s.append(")");
            },
            Key::URef(uref) => {
                s.append("Reference(");
                let h = addr_to_hex(&uref.addr);
                s.append(h.as_str());
                match uref.access_rights {
                    Some(rights) => {
                        s.append(", ");
                        s.append(rights.as_text());
                        s.append(")");
                    },
                    None => {
                        s.append(", None)");
                    },
                }
            },
            Key::Local { seed, key_hash } => {
                s.append("Local(");
                let h = addr_to_hex(seed);
                s.append(h.as_str());
                s.append(", ");
                let h2 = addr_to_hex(key_hash);
                s.append(h2.as_str());
                s.append(")");
            },
        }
        proof {
            assert(s@ =~= key_display(*self));
        }
        s
    }
}

/// The fixed tag byte that opens the canonical encoding of each variant.
/// These values are a persisted format contract and must never be
/// renumbered or reused.
pub open spec fn tag_of(k: Key) -> u8 {
    match k {
        Key::Account(_) => 0,
        Key::Hash(_) => 1,
        Key::URef(_) => 2,
        Key::Local { .. } => 3,
    }
}

/// The canonical byte encoding of a key: its tag byte, then the variant
/// payload with no padding and no length prefix.
pub open spec fn key_bytes(k: Key) -> Seq<u8> {
    match k {
        Key::Account(addr) => seq![0u8] + addr@,
        Key::Hash(addr) => seq![1u8] + addr@,
        Key::URef(u) => seq![2u8] + uref_bytes(u),
        Key::Local { seed, key_hash } => seq![3u8] + seed@ + key_hash@,
    }
}

/// Whether a byte string begins with the canonical encoding of some key:
/// a recognized tag byte followed by a complete, well-formed payload.
pub open spec fn decodable(b: Seq<u8>) -> bool {
    &&& b.len() >= 1
    &&& ((b[0] == 0 && b.len() >= 33) || (b[0] == 1 && b.len() >= 33) || (b[0] == 2 && b.len() >= 34
        && (b[33] == 0 || (b[33] == 1 && b.len() >= 35 && 1 <= b[34] && b[34] <= 7))) || (b[0] == 3
        && b.len() >= 65))
}

/// How many bytes the key encoding at the front of a decodable byte string
/// occupies.
pub open spec fn decoded_len(b: Seq<u8>) -> int
    recommends
        decodable(b),
{
    if b[0] == 0 || b[0] == 1 {
        33
    } else if b[0] == 2 {
        if b[33] == 0 {
            34
        } else {
            35
        }
    } else {
        65
    }
}

/// Appends the 32 bytes of an address to the output.
fn push_addr(out: &mut Vec<u8>, a: &[u8; 32])
    ensures
        final(out)@ == old(out)@ + a@,
{
    let mut i: usize = 0;
    assert(out@ =~= old(out)@ + a@.take(0));
    while i < 32
        invariant
            i <= 32,
            out@ == old(out)@ + a@.take(i as int),
        decreases 32 - i,
    {
        out.push(a[i]);
        proof {
            assert(old(out)@ + a@.take(i as int) + seq![a@[i as int]] =~= old(out)@ + a@.take(
                i + 1,
            ));
        }
        i += 1;
    }
    proof {
        assert(old(out)@ + a@.take(32) =~= old(out)@ + a@);
    }
}

/// Copies 32 bytes starting at `off` out of the input into an address.
fn read_addr(bytes: &[u8], off: usize) -> (a: [u8; 32])
    requires
        off + 32 <= bytes@.len(),
    ensures
        a@ == bytes@.subrange(off as int, off as int + 32),
{
    let mut a = [0u8; 32];
    let n = bytes.len();
    let mut i: usize = 0;
    while i < 32
        invariant
            i <= 32,
            n == bytes@.len(),
            off + 32 <= bytes@.len(),
            forall|j: int| 0 <= j < i ==> a@[j] == bytes@[off + j],
        decreases 32 - i,
    {
        a[i] = *slice_index_get(bytes, off + i);
        i += 1;
    }
    proof {
        assert(a@ =~= bytes@.subrange(off as int, off as int + 32));
    }
    a
}

impl Key {
    /// Serializes this key into its canonical byte encoding.
    pub fn to_bytes(&self) -> (r: Vec<u8>)
        ensures
            r@ == key_bytes(*self),
    {
        let mut result: Vec<u8> = Vec::new();
        match self {
            Key::Account(addr) => {
                result.push(0);
                push_addr(&mut result, addr);
            },
            Key::Hash(addr) => {
                result.push(1);
                push_addr(&mut result, addr);
            },
            Key::URef(uref) => {
                result.push(2);
                push_addr(&mut result, &uref.addr);
                match uref.access_rights {
                    None => result.push(0),
                    Some(rights) => {
                        result.push(1);
                        result.push(rights.tag_byte());
                    },
                }
            },
            Key::Local { seed, key_hash } => {
                result.push(3);
                push_addr(&mut result, seed);
                push_addr(&mut result, key_hash);
            },
        }
        proof {
            assert(result@ =~= key_bytes(*self));
        }
        result
    }

    /// Decodes the canonical encoding at the front of the input, returning
    /// the key and how many bytes it consumed.  Fails, consuming nothing,
    /// on an unrecognized tag byte, a payload cut short, or a malformed
    /// reference payload; the whole input must then be treated as unusable.
    pub fn from_bytes(bytes: &[u8]) -> (r: Result<(Key, usize), Error>)
        ensures
            r is Ok <==> decodable(bytes@),
            r matches Ok((k, used)) ==> used == decoded_len(bytes@) && used <= bytes@.len()
                && key_bytes(k) == bytes@.take(used as int),
    {
        if bytes.len() < 1 {
            return Err(Error::FormattingError);
        }
        let tag = *slice_index_get(bytes, 0);
        match tag {
            0 => {
                if bytes.len() < 33 {
                    return Err(Error::FormattingError);
                }
                let addr = read_addr(bytes, 1);
                proof {
                    assert(key_bytes(Key::Account(addr)) =~= bytes@.take(33));
                }
                Ok((Key::Account(addr), 33))
            },
            1 => {
                if bytes.len() < 33 {
                    return Err(Error::FormattingError);
                }
                let addr = read_addr(bytes, 1);
                proof {
                    assert(key_bytes(Key::Hash(addr)) =~= bytes@.take(33));
                }
                Ok((Key::Hash(addr), 33))
            },
            2 => {
                if bytes.len() < 34 {
                    return Err(Error::FormattingError);
                }
                let addr = read_addr(bytes, 1);
                let opt_tag = *slice_index_get(bytes, 33);
                if opt_tag == 0 {
                    let u = URef { addr, access_rights: None };
                    proof {
                        assert(key_bytes(Key::URef(u)) =~= bytes@.take(34));
                    }
                    Ok((Key::URef(u), 34))
                } else if opt_tag == 1 {
                    if bytes.len() < 35 {
                        return Err(Error::FormattingError);
                    }
                    let rights_b = *slice_index_get(bytes, 34);
                    match AccessRights::from_tag_byte(rights_b) {
                        Some(rights) => {
                            let u = URef { addr, access_rights: Some(rights) };
                            proof {
                                assert(key_bytes(Key::URef(u)) =~= bytes@.take(35));
                            }
                            Ok((Key::URef(u), 35))
                        },
                        None => Err(Error::FormattingError),
                    }
                } else {
                    Err(Error::FormattingError)
                }
            },
            3 => {
                if bytes.len() < 65 {
                    return Err(Error::FormattingError);
                }
                let seed = read_addr(bytes, 1);
                let key_hash = read_addr(bytes, 33);
                proof {
                    assert(key_bytes(Key::Local { seed, key_hash }) =~= bytes@.take(65));
                }
                Ok((Key::Local { seed, key_hash }, 65))
            },
            _ => Err(Error::FormattingError),
        }
    }
}

/// The back-to-back canonical encodings of a sequence of keys.
pub open spec fn keys_bytes_concat(ks: Seq<Key>) -> Seq<u8>
    decreases ks.len(),
{
    if ks.len() == 0 {
        Seq::empty()
    } else {
        key_bytes(ks[0]) + keys_bytes_concat(ks.skip(1))
    }
}

/// The canonical encoding of a sequence of keys: a 4-byte little-endian
/// count, then each key's canonical encoding back-to-back.
pub open spec fn keys_bytes(ks: Seq<Key>) -> Seq<u8>
    recommends
        ks.len() <= u32::MAX,
{
    vstd::bytes::spec_u32_to_le_bytes(ks.len() as u32) + keys_bytes_concat(ks)
}

/// Whether `n` canonical key encodings sit back-to-back at the front of `b`.
pub open spec fn keys_decodable(b: Seq<u8>, n: int) -> bool
    decreases n,
{
    n <= 0 || (decodable(b) && keys_decodable(b.skip(decoded_len(b)), n - 1))
}

/// Appending one key to a sequence appends its encoding to the sequence's.
proof fn lemma_keys_bytes_concat_push(ks: Seq<Key>, k: Key)
    ensures
        keys_bytes_concat(ks.push(k)) == keys_bytes_concat(ks) + key_bytes(k),
    decreases ks.len(),
{
    if ks.len() == 0 {
        assert(ks.push(k).skip(1) =~= Seq::<Key>::empty());
        assert(ks.push(k)[0] == k);
        assert(keys_bytes_concat(ks) + key_bytes(k) =~= key_bytes(k) + keys_bytes_concat(
            Seq::<Key>::empty(),
        ));
    } else {
        lemma_keys_bytes_concat_push(ks.skip(1), k);
        assert(ks.push(k).skip(1) =~= ks.skip(1).push(k));
        assert((key_bytes(ks[0]) + keys_bytes_concat(ks.skip(1))) + key_bytes(k) =~= key_bytes(
            ks[0],
        ) + (keys_bytes_concat(ks.skip(1)) + key_bytes(k)));
    }
}

/// Serializes a sequence of keys into its canonical encoding: the 4-byte
/// little-endian count, then each key's encoding back-to-back.
pub fn keys_to_bytes(keys: &Vec<Key>) -> (r: Vec<u8>)
    requires
        keys@.len() <= u32::MAX,
    ensures
        r@ == keys_bytes(keys@),
{
    let count: u32 = keys.len() as u32;
    let mut result = vstd::bytes::u32_to_le_bytes(count);
    let n = keys.len();
    let mut i: usize = 0;
    proof {
        assert(keys@.take(0) =~= Seq::<Key>::empty());
        assert(result@ =~= vstd::bytes::spec_u32_to_le_bytes(count) + keys_bytes_concat(
            keys@.take(0),
        ));
    }
    while i < n
        invariant
            i <= n,
            n == keys@.len(),
            keys@.len() <= u32::MAX,
            count == keys@.len() as u32,
            result@ == vstd::bytes::spec_u32_to_le_bytes(count) + keys_bytes_concat(
                keys@.take(i as int),
            ),
        decreases n - i,
    {
        let k = keys[i];
        let mut kb = k.to_bytes();
        result.append(&mut kb);
        proof {
            lemma_keys_bytes_concat_push(keys@.take(i as int), keys@[i as int]);
            assert(keys@.take(i + 1) =~= keys@.take(i as int).push(keys@[i as int]));
            assert(result@ =~= vstd::bytes::spec_u32_to_le_bytes(count) + keys_bytes_concat(
                keys@.take(i + 1),
            ));
        }
        i += 1;
    }
    proof {
        assert(keys@.take(n as int) =~= keys@);
    }
    result
}

/// Decodes a length-prefixed sequence of keys: reads the 4-byte
/// little-endian count, then exactly that many canonical key encodings.
/// Fails on a missing prefix or on the first malformed key, with no
/// partial result: the whole input must then be treated as unusable.
pub fn keys_from_bytes(bytes: &[u8]) -> (r: Result<(Vec<Key>, usize), Error>)
    ensures
        r is Ok <==> (bytes@.len() >= 4 && keys_decodable(
            bytes@.skip(4),
            vstd::bytes::spec_u32_from_le_bytes(bytes@.take(4)) as int,
        )),
        r matches Ok((ks, used)) ==> ks@.len() == vstd::bytes::spec_u32_from_le_bytes(
            bytes@.take(4),
        ) && used <= bytes@.len() && keys_bytes(ks@) == bytes@.take(used as int),
{
    let n_total = bytes.len();
    if n_total < 4 {
        return Err(Error::FormattingError);
    }
    let prefix = slice_subrange(bytes, 0, 4);
    let count = vstd::bytes::u32_from_le_bytes(prefix);
    let mut result: Vec<Key> = Vec::new();
    let mut pos: usize = 4;
    let mut j: u32 = 0;
    proof {
        assert(bytes@.subrange(4, 4) =~= keys_bytes_concat(result@));
    }
    while j < count
        invariant
            j <= count,
            4 <= pos <= bytes@.len(),
            n_total == bytes@.len(),
            result@.len() == j,
            count == vstd::bytes::spec_u32_from_le_bytes(bytes@.take(4)),
            bytes@.subrange(4, pos as int) == keys_bytes_concat(result@),
            keys_decodable(bytes@.skip(4), count as int) <==> keys_decodable(
                bytes@.skip(pos as int),
                count - j,
            ),
        decreases count - j,
    {
        let rest = slice_subrange(bytes, pos, n_total);
        match Key::from_bytes(rest) {
            Ok((k, used)) => {
                proof {
                    lemma_keys_bytes_concat_push(result@, k);
                    assert(bytes@.skip(pos as int).skip(used as int) =~= bytes@.skip(
                        pos + used,
                    ));
                    assert(bytes@.subrange(4, pos + used) =~= keys_bytes_concat(result@) + key_bytes(
                        k,
                    ));
                }
                result.push(k);
                pos = pos + used;
            },
            Err(_) => {
                return Err(Error::FormattingError);
            },
        }
        j = j + 1;
    }
    proof {
        vstd::bytes::lemma_auto_spec_u32_to_from_le_bytes();
        assert(bytes@.take(4).len() == 4);
        assert(vstd::bytes::spec_u32_to_le_bytes(count) == bytes@.take(4));
        assert(result@.len() as u32 == count);
        assert(keys_bytes(result@) =~= bytes@.take(pos as int));
    }
    Ok((result, pos))
}

/// The canonical encoding of every key is between 33 and 65 bytes long.
pub proof fn lemma_key_bytes_len(k: Key)
    ensures
        33 <= key_bytes(k).len() <= 65,
{
    match k {
        Key::Account(_) => {
        },
        Key::Hash(_) => {
        },
        Key::URef(u) => {
            match u.access_rights {
                None => {
                },
                Some(_) => {
                },
            }
        },
        Key::Local { .. } => {
        },
    }
}

/// Tag stability: the canonical encoding of a key always begins with the
/// fixed tag byte of its variant, whatever the payload holds.
pub proof fn lemma_tag_stable(k: Key)
    ensures
        key_bytes(k).len() >= 1,
        key_bytes(k)[0] == tag_of(k),
{
    lemma_key_bytes_len(k);
}

/// Discarding the permission set is idempotent, and the identity on every
/// key that is not a reference.
pub proof fn lemma_normalize_idempotent(k: Key)
    ensures
        spec_normalize(spec_normalize(k)) == spec_normalize(k),
        !(k is URef) ==> spec_normalize(k) == k,
{
}

/// Every byte string that begins with the canonical encoding of a key is
/// decodable, and exactly that encoding is consumed.
pub proof fn lemma_encode_decodable(k: Key, tail: Seq<u8>)
    ensures
        decodable(key_bytes(k) + tail),
        decoded_len(key_bytes(k) + tail) == key_bytes(k).len(),
{
    let b = key_bytes(k) + tail;
    match k {
        Key::Account(_) => {
        },
        Key::Hash(_) => {
        },
        Key::URef(u) => {
            match u.access_rights {
                None => {
                    assert(b[33] == 0);
                },
                Some(r) => {
                    assert(b[33] == 1);
                    assert(b[34] == rights_byte(r));
                    assert(1 <= rights_byte(r) <= 7);
                },
            }
        },
        Key::Local { .. } => {
        },
    }
}

/// Back-to-back key encodings followed by anything decode as that many keys.
proof fn lemma_concat_decodable(ks: Seq<Key>, tail: Seq<u8>)
    ensures
        keys_decodable(keys_bytes_concat(ks) + tail, ks.len() as int),
    decreases ks.len(),
{
    if ks.len() > 0 {
        let rest = keys_bytes_concat(ks.skip(1)) + tail;
        lemma_encode_decodable(ks[0], rest);
        let b = keys_bytes_concat(ks) + tail;
        assert(b =~= key_bytes(ks[0]) + rest);
        assert(b.skip(decoded_len(b)) =~= rest);
        lemma_concat_decodable(ks.skip(1), tail);
    }
}

/// The canonical encoding of a sequence of keys, followed by anything,
/// carries its count in the 4-byte prefix and decodes as that many keys.
pub proof fn lemma_keys_encode_decodable(ks: Seq<Key>, tail: Seq<u8>)
    requires
        ks.len() <= u32::MAX,
    ensures
        (keys_bytes(ks) + tail).len() >= 4,
        vstd::bytes::spec_u32_from_le_bytes((keys_bytes(ks) + tail).take(4)) == ks.len(),
        keys_decodable((keys_bytes(ks) + tail).skip(4), ks.len() as int),
{
    vstd::bytes::lemma_auto_spec_u32_to_from_le_bytes();
    let all = keys_bytes(ks) + tail;
    assert(all.take(4) =~= vstd::bytes::spec_u32_to_le_bytes(ks.len() as u32));
    assert(all.skip(4) =~= keys_bytes_concat(ks) + tail);
    lemma_concat_decodable(ks, tail);
}

/// The one-byte permission set encoding determines the permission set.
proof fn lemma_rights_byte_injective(r1: AccessRights, r2: AccessRights)
    requires
        rights_byte(r1) == rights_byte(r2),
    ensures
        r1 == r2,
{
}

/// Round trip: whenever the canonical encoding of one key is a prefix of
/// the canonical encoding of another key followed by arbitrary bytes, the
/// two keys are the same key and the prefix is that whole encoding.  With
/// the decoder's contract this says that decoding `encode(k)` followed by
/// anything yields `k` back and consumes exactly `encode(k)`.
pub proof fn lemma_round_trip(k1: Key, k2: Key, used: int, tail: Seq<u8>)
    requires
        0 <= used <= key_bytes(k1).len() + tail.len(),
        key_bytes(k2) == (key_bytes(k1) + tail).take(used),
    ensures
        k2 == k1,
        used == key_bytes(k1).len(),
{
    let b1 = key_bytes(k1);
    let b2 = key_bytes(k2);
    let all = b1 + tail;
    lemma_key_bytes_len(k1);
    lemma_key_bytes_len(k2);
    assert(b2.len() == used);
    assert(b2[0] == all[0]);
    assert(b2[0] == b1[0]);
    match (k1, k2) {
        (Key::Account(a1), Key::Account(a2)) => {
            assert forall|i: int| 0 <= i < 32 implies a1@[i] == a2@[i] by {
                assert(b2[i + 1] == all[i + 1]);
            }
            assert(a1 =~= a2);
        },
        (Key::Hash(a1), Key::Hash(a2)) => {
            assert forall|i: int| 0 <= i < 32 implies a1@[i] == a2@[i] by {
                assert(b2[i + 1] == all[i + 1]);
            }
            assert(a1 =~= a2);
        },
        (Key::URef(u1), Key::URef(u2)) => {
            assert forall|i: int| 0 <= i < 32 implies u1.addr@[i] == u2.addr@[i] by {
                assert(b2[i + 1] == all[i + 1]);
            }
            assert(u1.addr =~= u2.addr);
            assert(b2[33] == all[33]);
            match (u1.access_rights, u2.access_rights) {
                (None, None) => {
                    assert(u1 == u2);
                },
                (Some(r1), Some(r2)) => {
                    assert(b2[34] == all[34]);
                    assert(rights_byte(r1) == rights_byte(r2));
                    lemma_rights_byte_injective(r1, r2);
                    assert(u1 == u2);
                },
                (None, Some(_)) => {
                    assert(b1[33] == 0 && b2[33] == 1);
                },
                (Some(_), None) => {
                    assert(b1[33] == 1 && b2[33] == 0);
                },
            }
        },
        (Key::Local { seed: s1, key_hash: h1 }, Key::Local { seed: s2, key_hash: h2 }) => {
            assert forall|i: int| 0 <= i < 32 implies s1@[i] == s2@[i] && h1@[i] == h2@[i] by {
                assert(b2[i + 1] == all[i + 1]);
                assert(b2[i + 33] == all[i + 33]);
            }
            assert(s1 =~= s2);
            assert(h1 =~= h2);
        },
        _ => {
            assert(tag_of(k1) != tag_of(k2));
            assert(b1[0] != b2[0]);
        },
    }
}

/// Round trip of back-to-back encodings: two equally long key sequences
/// whose concatenated encodings agree on a prefix are the same sequence,
/// and the prefix is the whole concatenation.
proof fn lemma_concat_round_trip(ks1: Seq<Key>, ks2: Seq<Key>, used: int, tail: Seq<u8>)
    requires
        ks2.len() == ks1.len(),
        0 <= used <= keys_bytes_concat(ks1).len() + tail.len(),
        keys_bytes_concat(ks2) == (keys_bytes_concat(ks1) + tail).take(used),
    ensures
        ks2 == ks1,
        used == keys_bytes_concat(ks1).len(),
    decreases ks1.len(),
{
    if ks1.len() == 0 {
        assert(ks2 =~= ks1);
    } else {
        let b1h = key_bytes(ks1[0]);
        let c1 = keys_bytes_concat(ks1.skip(1));
        let b2h = key_bytes(ks2[0]);
        let c2 = keys_bytes_concat(ks2.skip(1));
        lemma_key_bytes_len(ks1[0]);
        lemma_key_bytes_len(ks2[0]);
        assert(keys_bytes_concat(ks2) == b2h + c2);
        assert(keys_bytes_concat(ks1) == b1h + c1);
        assert(keys_bytes_concat(ks2).len() == used);
        assert(used == b2h.len() + c2.len());
        assert(b2h =~= (b1h + (c1 + tail)).take(b2h.len() as int)) by {
            assert forall|i: int| 0 <= i < b2h.len() implies b2h[i] == (b1h + (c1 + tail))[i] by {
                assert(b2h[i] == keys_bytes_concat(ks2)[i]);
                assert(keys_bytes_concat(ks2)[i] == (keys_bytes_concat(ks1) + tail)[i]);
            }
        }
        lemma_round_trip(ks1[0], ks2[0], b2h.len() as int, c1 + tail);
        assert(c2 =~= (c1 + tail).take(used - b1h.len())) by {
            assert forall|i: int| 0 <= i < c2.len() implies c2[i] == (c1 + tail)[i] by {
                assert(c2[i] == keys_bytes_concat(ks2)[i + b2h.len()]);
                assert(keys_bytes_concat(ks2)[i + b2h.len()] == (keys_bytes_concat(ks1) + tail)[i
                    + b1h.len()]);
            }
        }
        lemma_concat_round_trip(ks1.skip(1), ks2.skip(1), used - b1h.len(), tail);
        assert forall|i: int| 0 <= i < ks1.len() implies ks2[i] == ks1[i] by {
            if i > 0 {
                assert(ks2[i] == ks2.skip(1)[i - 1]);
                assert(ks1[i] == ks1.skip(1)[i - 1]);
            }
        }
        assert(ks2 =~= ks1);
    }
}

/// Round trip for the sequence codec: whenever the canonical encoding of
/// one key sequence is a prefix of the canonical encoding of another
/// followed by arbitrary bytes, the two sequences are the same sequence
/// and the prefix is that whole encoding.  With the decoder's contract this
/// says that decoding the encoding of a sequence, followed by anything,
/// yields the sequence back and consumes exactly its encoding.
pub proof fn lemma_keys_round_trip(ks1: Seq<Key>, ks2: Seq<Key>, used: int, tail: Seq<u8>)
    requires
        ks1.len() <= u32::MAX,
        ks2.len() <= u32::MAX,
        0 <= used <= keys_bytes(ks1).len() + tail.len(),
        keys_bytes(ks2) == (keys_bytes(ks1) + tail).take(used),
    ensures
        ks2 == ks1,
        used == keys_bytes(ks1).len(),
{
    vstd::bytes::lemma_auto_spec_u32_to_from_le_bytes();
    let p1 = vstd::bytes::spec_u32_to_le_bytes(ks1.len() as u32);
    let p2 = vstd::bytes::spec_u32_to_le_bytes(ks2.len() as u32);
    assert(p1.len() == 4 && p2.len() == 4);
    assert(keys_bytes(ks2) == p2 + keys_bytes_concat(ks2));
    assert(keys_bytes(ks1) == p1 + keys_bytes_concat(ks1));
    assert(keys_bytes(ks2).len() == used);
    assert(used == p2.len() + keys_bytes_concat(ks2).len());
    assert(p2 =~= p1) by {
        assert forall|i: int| 0 <= i < 4 implies p2[i] == p1[i] by {
            assert(keys_bytes(ks2)[i] == (keys_bytes(ks1) + tail)[i]);
        }
    }
    assert(ks2.len() as u32 == ks1.len() as u32);
    assert(ks2.len() == ks1.len());
    assert(keys_bytes_concat(ks2) =~= (keys_bytes_concat(ks1) + tail).take(used - 4)) by {
        assert forall|i: int| 0 <= i < keys_bytes_concat(ks2).len() implies keys_bytes_concat(
            ks2,
        )[i] == (keys_bytes_concat(ks1) + tail)[i] by {
            assert(keys_bytes_concat(ks2)[i] == keys_bytes(ks2)[i + 4]);
            assert(keys_bytes(ks2)[i + 4] == (keys_bytes(ks1) + tail)[i + 4]);
        }
    }
    lemma_concat_round_trip(ks1, ks2, used - 4, tail);
}

} // verus!
