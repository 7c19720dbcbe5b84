use state_key::AccessRights;
use state_key::ContractPointer;
use state_key::Key;
use state_key::UPointer;
use state_key::URef;

#[test]
fn as_account_only_for_account_keys() {
    let addr = [5u8; 32];
    assert_eq!(Key::Account(addr).as_account(), Some(addr));
    assert_eq!(Key::Hash(addr).as_account(), None);
    assert_eq!(Key::URef(URef::new(addr, AccessRights::READ)).as_account(), None);
    assert_eq!(
        Key::Local { seed: addr, key_hash: addr }.as_account(),
        None
    );
}

#[test]
fn to_u_ptr_needs_a_uref_with_rights() {
    let addr = [6u8; 32];
    let with_rights = Key::URef(URef::new(addr, AccessRights::READ_WRITE));
    let ptr: UPointer<u64> = with_rights.to_u_ptr().expect("rights present");
    assert_eq!(ptr.addr, addr);
    assert_eq!(ptr.access_rights, AccessRights::READ_WRITE);
    let stripped = with_rights.normalize();
    assert!(stripped.to_u_ptr::<u64>().is_none());
    assert!(Key::Account(addr).to_u_ptr::<u64>().is_none());
    assert!(Key::Hash(addr).to_u_ptr::<u64>().is_none());
}

#[test]
fn to_c_ptr_accepts_hash_and_valid_uref() {
    let addr = [7u8; 32];
    assert_eq!(
        Key::Hash(addr).to_c_ptr(),
        Some(ContractPointer::Hash(addr))
    );
    match Key::URef(URef::new(addr, AccessRights::READ)).to_c_ptr() {
        Some(ContractPointer::URef(ptr)) => {
            assert_eq!(ptr.addr, addr);
            assert_eq!(ptr.access_rights, AccessRights::READ);
        }
        other => panic!("expected a reference pointer, got {:?}", other),
    }
    assert!(Key::Account(addr).to_c_ptr().is_none());
    let stripped = Key::URef(URef::new(addr, AccessRights::READ)).normalize();
    assert!(stripped.to_c_ptr().is_none());
}

#[test]
fn uref_accessors_expose_state() {
    let uref = URef::new([8u8; 32], AccessRights::ADD);
    assert_eq!(uref.addr(), [8u8; 32]);
    assert_eq!(uref.access_rights(), Some(AccessRights::ADD));
    let stripped = uref.remove_access_rights();
    assert_eq!(stripped.addr(), [8u8; 32]);
    assert_eq!(stripped.access_rights(), None);
    assert_ne!(uref, stripped);
}
