//! The laws of the check on concrete values.

use ad_access::rights::{
    DELETE, FILE_APPEND_DATA, FILE_EXECUTE, FILE_READ_DATA, FILE_WRITE_DATA, GENERIC_ALL,
    GENERIC_EXECUTE, GENERIC_MASK, GENERIC_READ, GENERIC_WRITE, READ_CONTROL, SYNCHRONIZE,
    WRITE_CLASS, WRITE_DAC, WRITE_OWNER,
};
use ad_access::{
    access_check, access_check_object, ace_flags, AccessToken, Ace, AceKind, Acl, ClaimValue,
    Condition, Decision, GenericMapping, Guid, IntegrityLevel, Privilege, SecurityDescriptor,
};

const OWNER: &str = "S-1-5-21-X-500";
const U: &str = "S-1-5-21-X-1001";
const G: &str = "S-1-5-21-X-Grp";
const X: &str = "S-1-5-21-X-Absent";

fn sd(aces: Vec<Ace>) -> SecurityDescriptor {
    SecurityDescriptor::new(OWNER, Acl::Entries(aces))
}

fn plain(sd: &SecurityDescriptor, token: &AccessToken, desired: u32) -> Decision {
    access_check(sd, token, desired, &GenericMapping::file())
}

fn holds(condition: Condition, token: &AccessToken) -> bool {
    condition.eval(token)
}

// ---- accounting ----

#[test]
fn denied_request_reports_every_ungranted_bit() {
    // READ is granted before the denying entry; WRITE is denied by it; DELETE
    // is never reached.
    let s = sd(vec![
        Ace::allow(U, FILE_READ_DATA),
        Ace::deny(U, FILE_WRITE_DATA),
        Ace::allow(U, FILE_WRITE_DATA | DELETE),
    ]);
    let d = plain(
        &s,
        &AccessToken::new(U, &[]),
        FILE_READ_DATA | FILE_WRITE_DATA | DELETE,
    );
    assert_eq!(
        d,
        Decision {
            allowed: false,
            granted: FILE_READ_DATA,
            still_denied: FILE_WRITE_DATA | DELETE,
        }
    );
}

#[test]
fn blocked_bits_are_reported_with_denied_ones() {
    let s = sd(vec![Ace::deny(U, FILE_READ_DATA)]).with_label(IntegrityLevel::High);
    let d = plain(
        &s,
        &AccessToken::new(U, &[]),
        FILE_READ_DATA | FILE_WRITE_DATA | FILE_EXECUTE,
    );
    assert!(!d.allowed);
    assert_eq!(d.granted, 0);
    assert_eq!(d.still_denied, FILE_READ_DATA | FILE_WRITE_DATA | FILE_EXECUTE);
}

#[test]
fn granted_and_denied_make_up_the_request() {
    let t = AccessToken::new(U, &[G]);
    let s = sd(vec![Ace::allow(G, 0x5), Ace::deny(U, 0x8), Ace::allow(U, 0xFF)]);
    let mut desired = 0u32;
    while desired < 0x20 {
        let d = plain(&s, &t, desired);
        assert_eq!(d.granted | d.still_denied, desired);
        assert_eq!(d.granted & d.still_denied, 0);
        assert_eq!(d.allowed, desired != 0 && d.still_denied == 0);
        desired += 1;
    }
}

#[test]
fn empty_request_is_refused() {
    let nothing = Decision {
        allowed: false,
        granted: 0,
        still_denied: 0,
    };
    let null = SecurityDescriptor::new(U, Acl::Null);
    assert_eq!(plain(&null, &AccessToken::new(U, &[]), 0), nothing);
    // A generic bit that maps to nothing asks for nothing.
    let empty = GenericMapping {
        read: 0,
        write: 0,
        execute: 0,
        all: 0,
    };
    let d = access_check(&null, &AccessToken::new(U, &[]), GENERIC_READ, &empty);
    assert_eq!(d, nothing);
}

// ---- label, owner, privileges ----

#[test]
fn no_write_up_holds_for_owner_privileges_and_null_dacl() {
    let t = AccessToken::new(U, &[])
        .with_privileges(&[
            Privilege::SeBackup,
            Privilege::SeRestore,
            Privilege::SeTakeOwnership,
        ])
        .with_integrity(IntegrityLevel::Low);
    let s = SecurityDescriptor::new(U, Acl::Null).with_label(IntegrityLevel::Medium);
    let d = plain(&s, &t, GENERIC_ALL);
    assert!(!d.allowed);
    assert_eq!(d.granted & WRITE_CLASS, 0);
    assert_eq!(
        d.granted,
        FILE_READ_DATA | FILE_EXECUTE | READ_CONTROL | SYNCHRONIZE
    );
    assert_eq!(d.still_denied, WRITE_CLASS);
}

#[test]
fn label_at_or_below_the_subject_does_not_matter() {
    let levels = [
        IntegrityLevel::Untrusted,
        IntegrityLevel::Low,
        IntegrityLevel::Medium,
        IntegrityLevel::High,
        IntegrityLevel::System,
    ];
    for (i, subject) in levels.iter().enumerate() {
        for (j, label) in levels.iter().enumerate() {
            assert_eq!(subject < label, i < j);
            assert_eq!(subject.cmp(label), i.cmp(&j));
            let s = sd(vec![Ace::allow(U, FILE_WRITE_DATA)]).with_label(*label);
            let t = AccessToken::new(U, &[]).with_integrity(*subject);
            assert_eq!(plain(&s, &t, FILE_WRITE_DATA).allowed, j <= i);
        }
    }
}

#[test]
fn empty_dacl_leaves_the_owner_its_rights() {
    let s = SecurityDescriptor::new(G, Acl::Entries(vec![]));
    // The token owns the object through a group.
    let d = plain(&s, &AccessToken::new(U, &[G]), READ_CONTROL | WRITE_DAC | DELETE);
    assert!(!d.allowed);
    assert_eq!(d.granted, READ_CONTROL | WRITE_DAC);
    assert_eq!(d.still_denied, DELETE);
}

#[test]
fn owner_rights_come_before_a_denying_entry() {
    let s = SecurityDescriptor::new(U, Acl::Entries(vec![Ace::deny(U, WRITE_DAC)]));
    assert!(plain(&s, &AccessToken::new(U, &[]), WRITE_DAC).allowed);
}

#[test]
fn each_privilege_has_its_rights() {
    let s = sd(vec![]);
    let granted = |p: Privilege| {
        plain(
            &s,
            &AccessToken::new(U, &[]).with_privileges(&[p]),
            GENERIC_ALL,
        )
        .granted
    };
    assert_eq!(
        granted(Privilege::SeBackup),
        FILE_READ_DATA | READ_CONTROL | SYNCHRONIZE
    );
    assert_eq!(
        granted(Privilege::SeRestore),
        FILE_WRITE_DATA | FILE_APPEND_DATA | READ_CONTROL | WRITE_DAC | WRITE_OWNER
    );
    assert_eq!(granted(Privilege::SeTakeOwnership), WRITE_OWNER);
}

#[test]
fn privileges_only_add() {
    let s = sd(vec![
        Ace::allow(U, FILE_READ_DATA),
        Ace::deny(U, WRITE_OWNER),
    ]);
    let weak = AccessToken::new(U, &[]);
    let strong = AccessToken::new(U, &[]).with_privileges(&[Privilege::SeTakeOwnership]);
    assert!(plain(&s, &weak, FILE_READ_DATA).allowed);
    assert!(plain(&s, &strong, FILE_READ_DATA).allowed);
    assert!(!plain(&s, &weak, WRITE_OWNER).allowed);
    assert!(plain(&s, &strong, WRITE_OWNER).allowed);
    let all = FILE_READ_DATA | WRITE_OWNER | DELETE;
    assert_eq!(plain(&s, &weak, all).granted, FILE_READ_DATA);
    assert_eq!(plain(&s, &strong, all).granted, FILE_READ_DATA | WRITE_OWNER);
}

#[test]
fn with_privileges_replaces_the_earlier_ones() {
    let t = AccessToken::new(U, &[])
        .with_privileges(&[Privilege::SeBackup])
        .with_privileges(&[Privilege::SeTakeOwnership]);
    assert_eq!(t.privileges, vec![Privilege::SeTakeOwnership]);
    assert!(!plain(&sd(vec![]), &t, FILE_READ_DATA).allowed);
}

// ---- entries ----

#[test]
fn idle_entries_make_no_difference() {
    let g1 = Guid::from_bytes([1; 16]);
    let t = AccessToken::new(U, &[]);
    let idle = vec![
        Ace::deny(U, 0xFF).with_flags(ace_flags::INHERIT_ONLY | ace_flags::OBJECT_INHERIT),
        Ace::deny(X, 0xFF),
        Ace::deny(U, 0xFF).with_object_type(g1),
        Ace::new(AceKind::Denied, U, 0xFF, Condition::Or(vec![])),
    ];
    for ace in idle {
        let with = sd(vec![ace, Ace::allow(U, 0x3)]);
        let without = sd(vec![Ace::allow(U, 0x3)]);
        assert_eq!(plain(&with, &t, 0x7), plain(&without, &t, 0x7));
    }
}

#[test]
fn other_inheritance_flags_do_not_matter() {
    let t = AccessToken::new(U, &[]);
    let flags = ace_flags::OBJECT_INHERIT
        | ace_flags::CONTAINER_INHERIT
        | ace_flags::NO_PROPAGATE_INHERIT
        | ace_flags::INHERITED;
    assert!(plain(&sd(vec![Ace::allow(U, 0x1).with_flags(flags)]), &t, 0x1).allowed);
    let all = flags | ace_flags::INHERIT_ONLY;
    assert!(!plain(&sd(vec![Ace::allow(U, 0x1).with_flags(all)]), &t, 0x1).allowed);
}

#[test]
fn group_of_a_descriptor_does_not_matter() {
    let s = SecurityDescriptor::new(OWNER, Acl::Entries(vec![Ace::allow(U, 0x1)]));
    let mut other = s.clone();
    other.group = U.to_string();
    assert_ne!(s, other);
    let t = AccessToken::new(U, &[]);
    let desired = 0x1 | READ_CONTROL | WRITE_DAC;
    assert_eq!(plain(&s, &t, desired), plain(&other, &t, desired));
    assert_eq!(plain(&other, &t, desired).granted, 0x1);
}

#[test]
fn user_and_groups_count_alike() {
    let s = sd(vec![Ace::allow(G, 0x1), Ace::deny(U, 0x2), Ace::allow(U, 0x3)]);
    let one = AccessToken::new(U, &[G, X]);
    let other = AccessToken::new(X, &[G, U, G]);
    let mut desired = 0u32;
    while desired < 4 {
        assert_eq!(plain(&s, &one, desired), plain(&s, &other, desired));
        desired += 1;
    }
}

#[test]
fn object_type_matters_only_to_object_entries() {
    let g1 = Guid::from_bytes([1; 16]);
    let s = sd(vec![
        Ace::deny(U, 0x1).with_object_type(Guid::from_bytes([2; 16])),
        Ace::deny(U, 0x2),
        Ace::allow(U, 0x3),
    ]);
    let t = AccessToken::new(U, &[]);
    let m = GenericMapping::file();
    let mut desired = 0u32;
    while desired < 4 {
        assert_eq!(
            access_check_object(&s, &t, desired, &g1, &m),
            access_check(&s, &t, desired, &m)
        );
        desired += 1;
    }
}

#[test]
fn first_entry_for_a_right_decides() {
    let t = AccessToken::new(U, &[G]);
    let s = sd(vec![
        Ace::deny(X, 0x1),
        Ace::allow(G, 0x2),
        Ace::allow(U, 0x1),
        Ace::deny(U, 0x3),
    ]);
    assert!(plain(&s, &t, 0x1).allowed);
    assert!(plain(&s, &t, 0x2).allowed);
    assert!(!plain(&s, &t, 0x4).allowed);
}

#[test]
fn allow_behind_an_idle_deny_grants() {
    // The denying entry has desired bits in its mask, but READ_CONTROL is
    // implicit, WRITE_OWNER is withheld and 0x1 is granted ahead of it.
    let s = SecurityDescriptor::new(
        U,
        Acl::Entries(vec![
            Ace::allow(U, 0x1),
            Ace::deny(U, 0x1 | READ_CONTROL | WRITE_OWNER),
            Ace::allow(U, 0x20),
        ]),
    )
    .with_label(IntegrityLevel::High);
    let t = AccessToken::new(U, &[]);
    let d = plain(&s, &t, 0x21 | READ_CONTROL | WRITE_OWNER);
    assert_eq!(d.granted, 0x21 | READ_CONTROL);
    assert_eq!(d.still_denied, WRITE_OWNER);
    // A denying entry ends the reading while its bit is still pending.
    let mut refused = s.clone();
    refused.dacl = Acl::Entries(vec![Ace::deny(U, 0x1), Ace::allow(U, 0x20)]);
    assert_eq!(plain(&refused, &t, 0x21).granted, 0);
}

#[test]
fn joined_requests() {
    let t = AccessToken::new(U, &[]);
    let s = sd(vec![Ace::allow(U, 0x3)]);
    assert!(plain(&s, &t, 0x1).allowed && plain(&s, &t, 0x2).allowed);
    assert!(plain(&s, &t, 0x1 | 0x2).allowed);
    assert!(!plain(&s, &t, 0x1 | 0x4).allowed);
    // A request for nothing adds nothing to the other.
    assert!(!plain(&s, &t, 0).allowed);
    assert!(plain(&s, &t, 0x1 | 0).allowed);
}

#[test]
fn request_is_allowed_right_by_right() {
    let t = AccessToken::new(U, &[]);
    let s = sd(vec![Ace::allow(U, 0x3), Ace::deny(U, 0x4), Ace::allow(U, 0xC)]);
    let mut desired = 1u32;
    while desired < 16 {
        let each = [1u32, 2, 4, 8]
            .iter()
            .all(|bit| desired & bit == 0 || plain(&s, &t, *bit).allowed);
        assert_eq!(plain(&s, &t, desired).allowed, each);
        desired += 1;
    }
    // 0x8 is granted by itself, although together with 0x4 nothing of it is.
    assert!(plain(&s, &t, 0x8).allowed);
    assert_eq!(plain(&s, &t, 0xC).granted, 0);
}

#[test]
fn later_entries_take_nothing_away() {
    let t = AccessToken::new(U, &[]);
    let s = sd(vec![Ace::allow(U, 0x1)]);
    let longer = sd(vec![Ace::allow(U, 0x1), Ace::deny(U, 0x3)]);
    assert!(plain(&s, &t, 0x1).allowed && plain(&longer, &t, 0x1).allowed);
    assert_eq!(plain(&s, &t, 0x3).granted, 0x1);
    assert_eq!(plain(&longer, &t, 0x3).granted, 0x1);
}

// ---- generic rights ----

#[test]
fn generic_rights_map_to_their_sets() {
    let m = GenericMapping::file();
    assert_eq!(m.map(GENERIC_READ), 0x0012_0001);
    assert_eq!(m.map(GENERIC_WRITE), 0x0002_0006);
    assert_eq!(m.map(GENERIC_EXECUTE), 0x0012_0020);
    assert_eq!(m.map(GENERIC_ALL), 0x001F_0027);
    assert_eq!(m.map(GENERIC_READ | GENERIC_WRITE | 0x100), 0x0012_0107);
    assert_eq!(m.map(0x0FFF_FFFF), 0x0FFF_FFFF);
    assert_eq!(m.map(0xFFFF_FFFF), 0x0FFF_FFFF);
    assert_eq!(m.map(m.map(0xFFFF_FFFF)), m.map(0xFFFF_FFFF));
    assert_eq!(GENERIC_MASK, 0xF000_0000);
    assert_eq!(WRITE_CLASS, 0x000D_0006);
}

#[test]
fn generic_bits_in_a_mapping() {
    // GENERIC_READ maps to a generic bit here, GENERIC_WRITE does not.
    let m = GenericMapping {
        read: GENERIC_WRITE | 0x1,
        write: 0x2,
        execute: 0,
        all: 0,
    };
    assert_eq!(m.map(GENERIC_READ), GENERIC_WRITE | 0x1);
    assert_ne!(m.map(m.map(GENERIC_READ)), m.map(GENERIC_READ));
    assert_eq!(m.map(m.map(GENERIC_WRITE | 0x8)), m.map(GENERIC_WRITE | 0x8));
}

#[test]
fn generic_request_is_its_mapping() {
    let m = GenericMapping::file();
    let t = AccessToken::new(U, &[]);
    let s = sd(vec![Ace::allow(U, FILE_READ_DATA | SYNCHRONIZE)]);
    assert_eq!(
        access_check(&s, &t, GENERIC_READ, &m),
        access_check(&s, &t, m.map(GENERIC_READ), &m)
    );
    assert_eq!(access_check(&s, &t, GENERIC_READ, &m).still_denied, READ_CONTROL);
}

// ---- conditions ----

#[test]
fn member_conditions() {
    let t = AccessToken::new(U, &[G]);
    let sids = |s: &[&str]| -> Vec<String> { s.iter().map(|x| x.to_string()).collect() };
    assert!(holds(Condition::Always, &t));
    assert!(holds(Condition::MemberOfAll(sids(&[U, G])), &t));
    assert!(!holds(Condition::MemberOfAll(sids(&[U, X])), &t));
    assert!(holds(Condition::MemberOfAny(sids(&[X, G])), &t));
    assert!(!holds(Condition::MemberOfAny(sids(&[X])), &t));
    assert!(holds(Condition::MemberOfAll(vec![]), &t));
    assert!(!holds(Condition::MemberOfAny(vec![]), &t));
}

#[test]
fn claim_conditions() {
    let t = AccessToken::new(U, &[])
        .with_claim("level", ClaimValue::Int(3))
        .with_claim("level", ClaimValue::Int(4))
        .with_claim("dept", ClaimValue::Str("IT".to_string()));
    let eq = |name: &str, value: ClaimValue| Condition::ClaimEq(name.to_string(), value);
    // The first claim of a name counts.
    assert!(holds(eq("level", ClaimValue::Int(3)), &t));
    assert!(!holds(eq("level", ClaimValue::Int(4)), &t));
    assert!(!holds(eq("level", ClaimValue::Str("3".to_string())), &t));
    assert!(holds(eq("dept", ClaimValue::Str("IT".to_string())), &t));
    assert!(!holds(eq("dept", ClaimValue::Str("it".to_string())), &t));
    assert!(holds(Condition::ClaimPresent("dept".to_string()), &t));
    // A missing claim satisfies nothing.
    assert!(!holds(eq("site", ClaimValue::Int(0)), &t));
    assert!(!holds(Condition::ClaimPresent("site".to_string()), &t));
}

#[test]
fn boolean_conditions() {
    let t = AccessToken::new(U, &[G]);
    let yes = || Condition::MemberOfAll(vec![G.to_string()]);
    let no = || Condition::MemberOfAll(vec![X.to_string()]);
    let not = |c: Condition| Condition::Not(Box::new(c));
    assert!(holds(Condition::And(vec![yes(), yes()]), &t));
    assert!(!holds(Condition::And(vec![yes(), no()]), &t));
    assert!(holds(Condition::Or(vec![no(), yes()]), &t));
    assert!(!holds(Condition::Or(vec![no(), no()]), &t));
    assert!(holds(Condition::And(vec![]), &t));
    assert!(!holds(Condition::Or(vec![]), &t));
    assert_eq!(holds(not(not(yes())), &t), holds(yes(), &t));
    assert_eq!(
        holds(not(Condition::And(vec![yes(), no()])), &t),
        holds(Condition::Or(vec![not(yes()), not(no())]), &t)
    );
    assert_eq!(
        holds(not(Condition::Or(vec![yes(), no()])), &t),
        holds(Condition::And(vec![not(yes()), not(no())]), &t)
    );
}

#[test]
fn cloned_condition_is_the_same_condition() {
    let c = Condition::And(vec![
        Condition::Or(vec![
            Condition::ClaimEq("a".to_string(), ClaimValue::Str("b".to_string())),
            Condition::ClaimPresent("n".to_string()),
        ]),
        Condition::Not(Box::new(Condition::MemberOfAny(vec![X.to_string()]))),
        Condition::MemberOfAll(vec![U.to_string(), G.to_string()]),
        Condition::Always,
    ]);
    assert_eq!(c.clone(), c);
    assert_ne!(c.clone(), Condition::Always);
    let t = AccessToken::new(U, &[G]).with_claim("n", ClaimValue::Int(-1));
    assert!(c.eval(&t) && c.clone().eval(&t));
}

// ---- GUIDs ----

#[test]
fn guid_text_with_and_without_dashes_in_either_case() {
    let bytes = [
        0x11, 0x31, 0xf6, 0xaa, 0x9c, 0x07, 0x11, 0xd1, 0xf7, 0x9f, 0x00, 0xc0, 0x4f, 0xc2, 0xdc,
        0xd2,
    ];
    let g = Guid::parse("1131f6aa-9c07-11d1-f79f-00c04fc2dcd2").unwrap();
    assert_eq!(g.bytes(), bytes);
    assert_eq!(g, Guid::from_bytes(bytes));
    assert_eq!(Guid::parse("1131f6aa9c0711d1f79f00c04fc2dcd2"), Some(g));
    assert_eq!(Guid::parse("1131F6AA-9C07-11D1-F79F-00C04FC2DCD2"), Some(g));
    assert_eq!(Guid::parse("--1131f6aa9c0711d1-f79f00c04fc2dcd2-"), Some(g));
    // Another digit is another GUID, in either half of a byte.
    assert_ne!(Guid::parse("1131f6aa-9c07-11d1-f79f-00c04fc2dcd3"), Some(g));
    assert_ne!(Guid::parse("0131f6aa-9c07-11d1-f79f-00c04fc2dcd2"), Some(g));
}

#[test]
fn guid_text_that_is_not_32_hex_digits() {
    assert!(Guid::parse("").is_none());
    assert!(Guid::parse("----").is_none());
    assert!(Guid::parse("1131f6aa-9c07-11d1-f79f-00c04fc2dcd").is_none());
    assert!(Guid::parse("1131f6aa-9c07-11d1-f79f-00c04fc2dcd20").is_none());
    assert!(Guid::parse("1131f6ag-9c07-11d1-f79f-00c04fc2dcd2").is_none());
    assert!(Guid::parse("{1131f6aa-9c07-11d1-f79f-00c04fc2dcd2}").is_none());
    assert!(Guid::parse("1131f6aa 9c07 11d1 f79f 00c04fc2dcd2").is_none());
    // 32 bytes, but not 32 characters; 32 characters, one of them no digit.
    assert!(Guid::parse("1131f6aa9c0711d1f79f00c04fc2dc\u{e9}").is_none());
    assert!(Guid::parse("1131f6aa9c0711d1f79f00c04fc2dcd\u{ff12}").is_none());
}

// ---- builders ----

#[test]
fn builders_set_their_fields() {
    let g1 = Guid::from_bytes([7; 16]);
    let ace = Ace::deny(U, 0x42).with_flags(0x11).with_object_type(g1);
    assert_eq!(ace.kind, AceKind::Denied);
    assert_eq!(ace.sid, U);
    assert_eq!(ace.mask, 0x42);
    assert_eq!(ace.condition, Condition::Always);
    assert_eq!(ace.flags, 0x11);
    assert_eq!(ace.object_type, Some(g1));
    let s = SecurityDescriptor::new(OWNER, Acl::Null).with_label(IntegrityLevel::System);
    assert_eq!(s.owner, OWNER);
    assert_eq!(s.group, "S-1-5-21-X-513");
    assert_eq!(s.dacl, Acl::Null);
    assert_eq!(s.mandatory_label, Some(IntegrityLevel::System));
    let t = AccessToken::new(U, &[G, X]);
    assert_eq!(t.user, U);
    assert_eq!(t.groups, vec![G.to_string(), X.to_string()]);
    assert!(t.privileges.is_empty() && t.claims.is_empty());
    assert_eq!(t.integrity, IntegrityLevel::Medium);
}
