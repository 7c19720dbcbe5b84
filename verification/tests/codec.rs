use state_key::key::keys_from_bytes;
use state_key::key::keys_to_bytes;
use state_key::AccessRights;
use state_key::Error;
use state_key::Key;
use state_key::URef;

fn sample_keys() -> Vec<Key> {
    vec![
        Key::Account([1u8; 32]),
        Key::Hash([2u8; 32]),
        Key::URef(URef::new([3u8; 32], AccessRights::READ_ADD_WRITE)),
        Key::URef(URef::new([4u8; 32], AccessRights::WRITE)).normalize(),
        Key::Local { seed: [5u8; 32], key_hash: [6u8; 32] },
    ]
}

#[test]
fn round_trip_every_variant() {
    for key in sample_keys() {
        let bytes = key.to_bytes();
        let (decoded, used) = Key::from_bytes(&bytes).expect("canonical bytes decode");
        assert_eq!(decoded, key);
        assert_eq!(used, bytes.len());
    }
}

#[test]
fn round_trip_ignores_trailing_bytes() {
    for key in sample_keys() {
        let mut bytes = key.to_bytes();
        let encoded_len = bytes.len();
        bytes.extend_from_slice(&[0xde, 0xad, 0xbe, 0xef]);
        let (decoded, used) = Key::from_bytes(&bytes).expect("prefix decodes");
        assert_eq!(decoded, key);
        assert_eq!(used, encoded_len);
    }
}

#[test]
fn encoding_starts_with_fixed_tag() {
    assert_eq!(Key::Account([9u8; 32]).to_bytes()[0], 0);
    assert_eq!(Key::Hash([9u8; 32]).to_bytes()[0], 1);
    assert_eq!(Key::URef(URef::new([9u8; 32], AccessRights::ADD)).to_bytes()[0], 2);
    assert_eq!(
        Key::Local { seed: [9u8; 32], key_hash: [8u8; 32] }.to_bytes()[0],
        3
    );
}

#[test]
fn account_encoding_is_tag_then_raw_address() {
    let mut addr = [0u8; 32];
    addr[0] = 0x10;
    addr[31] = 0x20;
    let bytes = Key::Account(addr).to_bytes();
    assert_eq!(bytes.len(), 33);
    assert_eq!(bytes[0], 0);
    assert_eq!(&bytes[1..], &addr[..]);
}

#[test]
fn uref_encoding_carries_option_and_rights_byte() {
    let with_rights = Key::URef(URef::new([7u8; 32], AccessRights::READ_WRITE)).to_bytes();
    assert_eq!(with_rights.len(), 35);
    assert_eq!(with_rights[0], 2);
    assert_eq!(&with_rights[1..33], &[7u8; 32][..]);
    assert_eq!(with_rights[33], 1);
    assert_eq!(with_rights[34], 3);
    let without = Key::URef(URef::new([7u8; 32], AccessRights::READ)).normalize().to_bytes();
    assert_eq!(without.len(), 34);
    assert_eq!(without[33], 0);
}

#[test]
fn local_encoding_is_seed_then_hash() {
    let bytes = Key::Local { seed: [0xaau8; 32], key_hash: [0xbbu8; 32] }.to_bytes();
    assert_eq!(bytes.len(), 65);
    assert_eq!(bytes[0], 3);
    assert_eq!(&bytes[1..33], &[0xaau8; 32][..]);
    assert_eq!(&bytes[33..65], &[0xbbu8; 32][..]);
}

#[test]
fn unknown_tag_is_a_formatting_error() {
    let mut bytes = vec![4u8];
    bytes.extend_from_slice(&[0u8; 64]);
    assert_eq!(Key::from_bytes(&bytes), Err(Error::FormattingError));
}

#[test]
fn truncated_payload_is_a_formatting_error() {
    assert_eq!(Key::from_bytes(&[]), Err(Error::FormattingError));
    assert_eq!(Key::from_bytes(&[0u8; 20]), Err(Error::FormattingError));
    assert_eq!(Key::from_bytes(&[1u8; 32]), Err(Error::FormattingError));
    let mut local = vec![3u8];
    local.extend_from_slice(&[0u8; 63]);
    assert_eq!(Key::from_bytes(&local), Err(Error::FormattingError));
}

#[test]
fn malformed_uref_payload_is_a_formatting_error() {
    let mut bad_option_tag = vec![2u8];
    bad_option_tag.extend_from_slice(&[0u8; 32]);
    bad_option_tag.push(7);
    assert_eq!(Key::from_bytes(&bad_option_tag), Err(Error::FormattingError));
    let mut bad_rights = vec![2u8];
    bad_rights.extend_from_slice(&[0u8; 32]);
    bad_rights.push(1);
    bad_rights.push(9);
    assert_eq!(Key::from_bytes(&bad_rights), Err(Error::FormattingError));
    let mut cut_rights = vec![2u8];
    cut_rights.extend_from_slice(&[0u8; 32]);
    cut_rights.push(1);
    assert_eq!(Key::from_bytes(&cut_rights), Err(Error::FormattingError));
}

#[test]
fn sequence_round_trip() {
    let keys = sample_keys();
    let bytes = keys_to_bytes(&keys);
    assert_eq!(&bytes[0..4], &(keys.len() as u32).to_le_bytes()[..]);
    let (decoded, used) = keys_from_bytes(&bytes).expect("canonical sequence decodes");
    assert_eq!(decoded, keys);
    assert_eq!(used, bytes.len());
}

#[test]
fn empty_sequence_round_trip() {
    let keys: Vec<Key> = Vec::new();
    let bytes = keys_to_bytes(&keys);
    assert_eq!(bytes, vec![0u8, 0, 0, 0]);
    let (decoded, used) = keys_from_bytes(&bytes).expect("empty sequence decodes");
    assert!(decoded.is_empty());
    assert_eq!(used, 4);
}

#[test]
fn sequence_decode_fails_whole_on_first_bad_key() {
    let keys = vec![Key::Account([1u8; 32]), Key::Hash([2u8; 32])];
    let mut bytes = keys_to_bytes(&keys);
    bytes.truncate(bytes.len() - 1);
    assert_eq!(keys_from_bytes(&bytes), Err(Error::FormattingError));
    assert_eq!(keys_from_bytes(&[0u8, 0, 0]), Err(Error::FormattingError));
    let short_count = 3u32.to_le_bytes().to_vec();
    assert_eq!(keys_from_bytes(&short_count), Err(Error::FormattingError));
}

#[test]
fn normalize_discards_rights_and_is_idempotent() {
    let uref_key = Key::URef(URef::new([1u8; 32], AccessRights::READ_ADD));
    let normalized = uref_key.normalize();
    assert_ne!(uref_key, normalized);
    assert_eq!(normalized, normalized.normalize());
    let account = Key::Account([1u8; 32]);
    assert_eq!(account.normalize(), account);
    let hash = Key::Hash([1u8; 32]);
    assert_eq!(hash.normalize(), hash);
    let local = Key::Local { seed: [1u8; 32], key_hash: [2u8; 32] };
    assert_eq!(local.normalize(), local);
}

#[test]
fn two_urefs_differing_only_in_rights_are_distinct() {
    let a = Key::URef(URef::new([1u8; 32], AccessRights::READ));
    let b = Key::URef(URef::new([1u8; 32], AccessRights::WRITE));
    assert_ne!(a, b);
    assert_eq!(a.normalize(), b.normalize());
}
