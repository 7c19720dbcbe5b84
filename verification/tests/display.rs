use state_key::hex::addr_to_hex;
use state_key::hex::drop_hex_prefix;
use state_key::AccessRights;
use state_key::Key;
use state_key::URef;

#[test]
fn should_display_key() {
    let expected_hash = core::iter::repeat("0").take(64).collect::<String>();
    let addr_array = [0u8; 32];
    let account_key = Key::Account(addr_array);
    assert_eq!(
        account_key.to_display_string(),
        format!("Account({})", expected_hash)
    );
    let uref_key = Key::URef(URef::new(addr_array, AccessRights::READ));
    assert_eq!(
        uref_key.to_display_string(),
        format!("Reference({}, READ)", expected_hash)
    );
    let hash_key = Key::Hash(addr_array);
    assert_eq!(hash_key.to_display_string(), format!("Hash({})", expected_hash));
    let local_key = Key::Local {
        seed: addr_array,
        key_hash: addr_array,
    };
    assert_eq!(
        local_key.to_display_string(),
        format!("Local({}, {})", expected_hash, expected_hash)
    );
}

#[test]
fn should_display_uref_without_rights_as_none() {
    let key = Key::URef(URef::new([0u8; 32], AccessRights::READ)).normalize();
    let expected_hash = "0".repeat(64);
    assert_eq!(key.to_display_string(), format!("Reference({}, None)", expected_hash));
}

#[test]
fn addr_to_hex_is_lowercase_and_zero_padded() {
    assert_eq!(addr_to_hex(&[0u8; 32]), "0".repeat(64));
    assert_eq!(addr_to_hex(&[0xffu8; 32]), "f".repeat(64));
    let mut addr = [0u8; 32];
    addr[0] = 0x01;
    addr[31] = 0xab;
    let expected = format!("01{}ab", "0".repeat(60));
    assert_eq!(addr_to_hex(&addr), expected);
}

#[test]
fn drop_hex_prefix_strips_exactly_once() {
    assert_eq!(drop_hex_prefix("0xab"), b"ab");
    assert_eq!(drop_hex_prefix("ab"), b"ab");
    assert_eq!(drop_hex_prefix("0x0xab"), b"0xab");
    assert_eq!(drop_hex_prefix("0X"), b"0X");
}
