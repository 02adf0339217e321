use imap::response::AclRight;
use imap::types::{AclRightError, AclRights};
use std::convert::TryInto;

#[test]
fn test_acl_rights_to_string() {
    let rights: AclRights = vec![
        AclRight::Lookup,
        AclRight::Read,
        AclRight::Seen,
        AclRight::Custom('0'),
    ]
    .into();
    let expected = "0lrs";

    assert_eq!(rights.to_string(), expected);
}

#[test]
fn test_str_to_acl_rights() {
    let right_string = "lrskx0";

    let rights: Result<AclRights, _> = right_string.try_into();

    assert_eq!(
        rights,
        Ok(vec![
            AclRight::Lookup,
            AclRight::Read,
            AclRight::Seen,
            AclRight::CreateMailbox,
            AclRight::DeleteMailbox,
            AclRight::Custom('0'),
        ]
        .into())
    );
}

#[test]
fn test_str_to_acl_rights_invalid_right_character() {
    let right_string = "l_";

    let rights: Result<AclRights, _> = right_string.try_into();

    assert_eq!(rights, Err(AclRightError::InvalidRight));

    assert_eq!(
        rights.unwrap_err().to_string(),
        "Rights may only be lowercase alpha numeric characters"
    );
}

#[test]
fn test_acl_rights_contains() {
    let rights: AclRights = "lrskx".try_into().unwrap();

    assert!(rights.contains('l'));
    assert!(rights.contains(AclRight::Lookup));
    assert!(!rights.contains('0'));
    assert!(!rights.contains(AclRight::Custom('0')));
}

#[test]
fn acl_rights_order_and_duplicates() {
    // The same rights in another order, one of them twice, make the same set.
    let a: AclRights = vec![AclRight::Seen, AclRight::Lookup, AclRight::Seen].into();
    let b: AclRights = "ls".try_into().unwrap();
    assert_eq!(a, b);
    assert_eq!(a.to_string(), "ls");
    // An uppercase letter is refused.
    let r: Result<AclRights, _> = "lR".try_into();
    assert_eq!(r, Err(AclRightError::InvalidRight));
    // The empty string is the empty set.
    let e: AclRights = "".try_into().unwrap();
    assert_eq!(e.to_string(), "");
}

#[test]
fn acl_rights_round_trip() {
    let rights: AclRights = "xlr0a".try_into().unwrap();
    let text = rights.to_string();
    assert_eq!(text, "0alrx");
    let again: AclRights = text.as_str().try_into().unwrap();
    assert_eq!(again, rights);
}
