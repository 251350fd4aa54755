//! Access checks of single rules.

use ad_access::rights::{
    FILE_READ_DATA, FILE_WRITE_DATA, GENERIC_ALL, GENERIC_MASK, READ_CONTROL, WRITE_DAC,
};
use ad_access::{
    access_check, AccessToken, Ace, AceKind, Acl, ClaimValue, Condition, GenericMapping,
    IntegrityLevel, Privilege, SecurityDescriptor,
};

const U: &str = "S-1-5-21-X-1001";

#[test]
fn allow_ace_grants() {
    let s = SecurityDescriptor::new(
        "S-1-5-21-X-500",
        Acl::Entries(vec![Ace::allow(U, FILE_READ_DATA)]),
    );
    let d = access_check(
        &s,
        &AccessToken::new(U, &[]),
        FILE_READ_DATA,
        &GenericMapping::file(),
    );
    assert!(d.allowed);
    assert_eq!(d.granted, FILE_READ_DATA);
}

#[test]
fn deny_before_allow_wins() {
    let s = SecurityDescriptor::new(
        "S-1-5-21-X-500",
        Acl::Entries(vec![
            Ace::deny(U, FILE_WRITE_DATA),
            Ace::allow(U, FILE_WRITE_DATA),
        ]),
    );
    let d = access_check(
        &s,
        &AccessToken::new(U, &[]),
        FILE_WRITE_DATA,
        &GenericMapping::file(),
    );
    assert!(!d.allowed);
    assert_eq!(d.still_denied, FILE_WRITE_DATA);
}

#[test]
fn group_sid_matches() {
    let s = SecurityDescriptor::new(
        "S-1-5-21-X-500",
        Acl::Entries(vec![Ace::allow("S-1-5-32-544", FILE_READ_DATA)]),
    );
    let t = AccessToken::new(U, &["S-1-5-32-544"]);
    assert!(access_check(&s, &t, FILE_READ_DATA, &GenericMapping::file()).allowed);
}

#[test]
fn null_dacl_grants_all() {
    let s = SecurityDescriptor::new("S-1-5-21-X-500", Acl::Null);
    assert!(
        access_check(
            &s,
            &AccessToken::new(U, &[]),
            GENERIC_ALL,
            &GenericMapping::file()
        )
        .allowed
    );
}

#[test]
fn empty_dacl_denies() {
    let s = SecurityDescriptor::new("S-1-5-21-X-500", Acl::Entries(vec![]));
    let d = access_check(
        &s,
        &AccessToken::new(U, &[]),
        FILE_READ_DATA,
        &GenericMapping::file(),
    );
    assert!(!d.allowed && d.granted == 0);
}

#[test]
fn owner_gets_read_control_and_write_dac() {
    let s = SecurityDescriptor::new(U, Acl::Entries(vec![])); // token IS the owner
    let d = access_check(
        &s,
        &AccessToken::new(U, &[]),
        READ_CONTROL | WRITE_DAC,
        &GenericMapping::file(),
    );
    assert!(d.allowed);
}

#[test]
fn generic_all_is_mapped() {
    let mapped = GenericMapping::file().map(GENERIC_ALL);
    assert!(mapped & FILE_READ_DATA != 0 && mapped & FILE_WRITE_DATA != 0);
    assert_eq!(mapped & GENERIC_MASK, 0);
}

#[test]
fn se_backup_grants_read() {
    let s = SecurityDescriptor::new("S-1-5-21-X-500", Acl::Entries(vec![]));
    let t = AccessToken::new(U, &[]).with_privileges(&[Privilege::SeBackup]);
    assert!(access_check(&s, &t, FILE_READ_DATA, &GenericMapping::file()).allowed);
}

// ---- conditional ACEs ----

#[test]
fn member_of_condition_gates_the_ace() {
    // Allow READ only if the token is a member of the "Tier0" group.
    let ace = Ace::new(
        AceKind::Allowed,
        U,
        FILE_READ_DATA,
        Condition::MemberOfAll(vec!["S-1-5-21-X-Tier0".into()]),
    );
    let s = SecurityDescriptor::new("S-1-5-21-X-500", Acl::Entries(vec![ace]));
    // Without the group → denied.
    assert!(
        !access_check(
            &s,
            &AccessToken::new(U, &[]),
            FILE_READ_DATA,
            &GenericMapping::file()
        )
        .allowed
    );
    // With the group → allowed.
    let t = AccessToken::new(U, &["S-1-5-21-X-Tier0"]);
    assert!(access_check(&s, &t, FILE_READ_DATA, &GenericMapping::file()).allowed);
}

#[test]
fn claim_and_boolean_conditions() {
    // Allow if department == "IT" AND NOT member of "Contractors".
    let cond = Condition::And(vec![
        Condition::ClaimEq("department".into(), ClaimValue::Str("IT".into())),
        Condition::Not(Box::new(Condition::MemberOfAny(vec![
            "S-1-5-21-X-Contractors".into(),
        ]))),
    ]);
    let s = SecurityDescriptor::new(
        "S-1-5-21-X-500",
        Acl::Entries(vec![Ace::new(AceKind::Allowed, U, FILE_WRITE_DATA, cond)]),
    );
    let ok = AccessToken::new(U, &[]).with_claim("department", ClaimValue::Str("IT".into()));
    assert!(access_check(&s, &ok, FILE_WRITE_DATA, &GenericMapping::file()).allowed);
    let contractor = AccessToken::new(U, &["S-1-5-21-X-Contractors"])
        .with_claim("department", ClaimValue::Str("IT".into()));
    assert!(!access_check(&s, &contractor, FILE_WRITE_DATA, &GenericMapping::file()).allowed);
}

// ---- mandatory integrity ----

#[test]
fn no_write_up_blocks_write_but_not_read() {
    // High-integrity object, Medium-integrity subject with a full-control ACE.
    let s = SecurityDescriptor::new(
        "S-1-5-21-X-500",
        Acl::Entries(vec![Ace::allow(U, FILE_READ_DATA | FILE_WRITE_DATA)]),
    )
    .with_label(IntegrityLevel::High);
    let t = AccessToken::new(U, &[]).with_integrity(IntegrityLevel::Medium);
    // Read is granted; write is blocked by the label regardless of the ACE.
    let d = access_check(
        &s,
        &t,
        FILE_READ_DATA | FILE_WRITE_DATA,
        &GenericMapping::file(),
    );
    assert!(!d.allowed);
    assert_eq!(d.granted, FILE_READ_DATA);
    assert_eq!(d.still_denied, FILE_WRITE_DATA);
    // A High-integrity subject writes fine.
    let hi = AccessToken::new(U, &[]).with_integrity(IntegrityLevel::High);
    assert!(access_check(&s, &hi, FILE_WRITE_DATA, &GenericMapping::file()).allowed);
}
