use state_key::AccessRights;

fn test_readable(right: AccessRights, is_true: bool) {
    assert_eq!(right.is_readable(), is_true)
}

#[test]
fn test_is_readable() {
    test_readable(AccessRights::READ, true);
    test_readable(AccessRights::READ_ADD, true);
    test_readable(AccessRights::READ_WRITE, true);
    test_readable(AccessRights::READ_ADD_WRITE, true);
    test_readable(AccessRights::ADD, false);
    test_readable(AccessRights::ADD_WRITE, false);
    test_readable(AccessRights::WRITE, false);
}

fn test_writable(right: AccessRights, is_true: bool) {
    assert_eq!(right.is_writeable(), is_true)
}

#[test]
fn test_is_writable() {
    test_writable(AccessRights::WRITE, true);
    test_writable(AccessRights::READ_WRITE, true);
    test_writable(AccessRights::ADD_WRITE, true);
    test_writable(AccessRights::READ, false);
    test_writable(AccessRights::ADD, false);
    test_writable(AccessRights::READ_ADD, false);
    test_writable(AccessRights::READ_ADD_WRITE, true);
}

fn test_addable(right: AccessRights, is_true: bool) {
    assert_eq!(right.is_addable(), is_true)
}

#[test]
fn test_is_addable() {
    test_addable(AccessRights::ADD, true);
    test_addable(AccessRights::READ_ADD, true);
    test_addable(AccessRights::READ_WRITE, false);
    test_addable(AccessRights::ADD_WRITE, true);
    test_addable(AccessRights::READ, false);
    test_addable(AccessRights::WRITE, false);
    test_addable(AccessRights::READ_ADD_WRITE, true);
}

#[test]
fn rights_render_as_their_names() {
    assert_eq!(AccessRights::READ.as_text(), "READ");
    assert_eq!(AccessRights::WRITE.as_text(), "WRITE");
    assert_eq!(AccessRights::ADD.as_text(), "ADD");
    assert_eq!(AccessRights::READ_ADD.as_text(), "READ_ADD");
    assert_eq!(AccessRights::READ_WRITE.as_text(), "READ_WRITE");
    assert_eq!(AccessRights::ADD_WRITE.as_text(), "ADD_WRITE");
    assert_eq!(AccessRights::READ_ADD_WRITE.as_text(), "READ_ADD_WRITE");
}
