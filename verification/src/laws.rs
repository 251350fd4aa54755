//! Laws of the access check.
//!
//! Each public proof function here states something that holds of every
//! decision, over the specification that [`crate::access_check`] and
//! [`crate::access_check_object`] are proved to compute.

use crate::ace::{Ace, AceKind, Acl};
use crate::check::Decision;
use crate::condition::Condition;
use crate::descriptor::SecurityDescriptor;
use crate::guid::Guid;
use crate::integrity::IntegrityLevel;
use crate::mapping::GenericMapping;
use crate::rights;
use crate::token::{AccessToken, Privilege};
use crate::Sid;
use vstd::prelude::*;

verus! {

/// All bits of `part` are in `whole`.
pub open spec fn within(part: u32, whole: u32) -> bool {
    part & whole == part
}

/// `mask` is a single bit.
pub open spec fn is_one_right(mask: u32) -> bool {
    mask != 0 && mask & ((mask - 1) as u32) == 0
}

/// The list grants all of `pending`.
spec fn grants_all(
    entries: Seq<Ace>,
    token: AccessToken,
    requested: Option<&Guid>,
    pending: u32,
) -> bool {
    Acl::entries_grant(entries, token, requested, pending) == pending
}

proof fn lemma_grants_within(dacl: Acl, token: AccessToken, requested: Option<&Guid>, pending: u32)
    ensures
        within(dacl.grants(token, requested, pending), pending),
{
    match dacl {
        Acl::Null => {
            crate::masks::lemma_mask_units();
        },
        Acl::Entries(entries) => {
            crate::check::lemma_entries_grant_within(entries@, token, requested, pending);
        },
    }
}

/// Everything is obtained exactly if nothing of it is withheld and the DACL
/// grants all that is not implicit.
proof fn lemma_obtained(
    sd: SecurityDescriptor,
    token: AccessToken,
    wanted: u32,
    requested: Option<&Guid>,
    mapping: GenericMapping,
)
    ensures
        within(sd.obtained(token, wanted, requested, mapping), wanted & !sd.withheld(token)),
        sd.obtained(token, wanted, requested, mapping) == wanted <==> {
            let asked = wanted & !sd.implicit_rights(token, mapping);
            &&& wanted & sd.withheld(token) == 0
            &&& sd.dacl.grants(token, requested, asked) == asked
        },
{
    let withheld = sd.withheld(token);
    let implicit = sd.implicit_rights(token, mapping);
    let open = wanted & !withheld;
    let pending = open & !implicit;
    let by_dacl = sd.dacl.grants(token, requested, pending);
    let obtained = (open & implicit) | by_dacl;
    lemma_grants_within(sd.dacl, token, requested, pending);
    assert(obtained & open == obtained && ((obtained == wanted) == (wanted & withheld == 0
        && by_dacl == pending)) && (wanted & withheld == 0 ==> pending == wanted & !implicit))
        by (bit_vector)
        requires
            open == wanted & !withheld,
            pending == open & !implicit,
            obtained == (open & implicit) | by_dacl,
            by_dacl & pending == by_dacl,
    ;
}

/// Every desired bit is either granted or reported as still denied, and none
/// is both; access is allowed exactly if something was asked for and nothing
/// of it is still denied.
pub proof fn every_desired_bit_is_accounted_for(
    sd: SecurityDescriptor,
    token: AccessToken,
    desired: u32,
    requested: Option<&Guid>,
    mapping: GenericMapping,
)
    ensures
        ({
            let wanted = mapping.mapped(desired);
            let d = sd.decision(token, desired, requested, mapping);
            &&& d.granted | d.still_denied == wanted
            &&& d.granted & d.still_denied == 0
            &&& d.allowed <==> wanted != 0 && d.still_denied == 0
        }),
{
    let wanted = mapping.mapped(desired);
    let d = sd.decision(token, desired, requested, mapping);
    lemma_obtained(sd, token, wanted, requested, mapping);
    let (granted, denied, open, withheld) = (
        d.granted,
        d.still_denied,
        wanted & !sd.withheld(token),
        sd.withheld(token),
    );
    assert(granted | denied == wanted && granted & denied == 0 && ((granted == wanted) == (denied
        == 0))) by (bit_vector)
        requires
            denied == wanted & !granted,
            open == wanted & !withheld,
            granted & open == granted,
    ;
}

/// A request for nothing is refused, whoever makes it.
pub proof fn empty_request_is_refused(
    sd: SecurityDescriptor,
    token: AccessToken,
    desired: u32,
    requested: Option<&Guid>,
    mapping: GenericMapping,
)
    requires
        mapping.mapped(desired) == 0,
    ensures
        sd.decision(token, desired, requested, mapping) == (Decision {
            allowed: false,
            granted: 0,
            still_denied: 0,
        }),
{
    every_desired_bit_is_accounted_for(sd, token, desired, requested, mapping);
    let d = sd.decision(token, desired, requested, mapping);
    crate::masks::lemma_join_empty(d.granted, d.still_denied);
}

/// A subject below the object's label obtains no write-class right, whatever
/// it owns, whatever its privileges are and whatever the DACL says.
pub proof fn no_write_up(
    sd: SecurityDescriptor,
    token: AccessToken,
    desired: u32,
    requested: Option<&Guid>,
    mapping: GenericMapping,
)
    requires
        sd.is_above(token),
    ensures
        sd.decision(token, desired, requested, mapping).granted & rights::WRITE_CLASS == 0,
        mapping.mapped(desired) & rights::WRITE_CLASS != 0 ==> !sd.decision(
            token,
            desired,
            requested,
            mapping,
        ).allowed,
{
    let wanted = mapping.mapped(desired);
    lemma_obtained(sd, token, wanted, requested, mapping);
    let granted = sd.obtained(token, wanted, requested, mapping);
    assert(granted & rights::WRITE_CLASS == 0) by (bit_vector)
        requires
            granted & (wanted & !rights::WRITE_CLASS) == granted,
    ;
}

/// The label makes no difference to a subject that is not below it, nor to a
/// request without write-class rights.
pub proof fn label_matters_only_for_writing_up(
    sd: SecurityDescriptor,
    unlabelled: SecurityDescriptor,
    token: AccessToken,
    desired: u32,
    requested: Option<&Guid>,
    mapping: GenericMapping,
)
    requires
        unlabelled == (SecurityDescriptor { mandatory_label: None, ..sd }),
        !sd.is_above(token) || mapping.mapped(desired) & rights::WRITE_CLASS == 0,
    ensures
        sd.decision(token, desired, requested, mapping) == unlabelled.decision(
            token,
            desired,
            requested,
            mapping,
        ),
{
    let wanted = mapping.mapped(desired);
    if sd.is_above(token) {
        assert(wanted & !rights::WRITE_CLASS == wanted & !0u32) by (bit_vector)
            requires
                wanted & rights::WRITE_CLASS == 0,
        ;
    }
}

/// Without a DACL everything is granted that the label does not withhold.
pub proof fn null_dacl_grants_everything(
    sd: SecurityDescriptor,
    token: AccessToken,
    desired: u32,
    requested: Option<&Guid>,
    mapping: GenericMapping,
)
    requires
        sd.dacl is Null,
    ensures
        ({
            let wanted = mapping.mapped(desired);
            let d = sd.decision(token, desired, requested, mapping);
            &&& d.granted == wanted & !sd.withheld(token)
            &&& d.allowed <==> wanted != 0 && wanted & sd.withheld(token) == 0
        }),
{
    let wanted = mapping.mapped(desired);
    let (withheld, implicit) = (sd.withheld(token), sd.implicit_rights(token, mapping));
    let open = wanted & !withheld;
    assert((open & implicit) | (open & !implicit) == open && ((open == wanted) == (wanted & withheld
        == 0))) by (bit_vector)
        requires
            open == wanted & !withheld,
    ;
}

/// An empty DACL grants nothing: only the implicit rights are left.
pub proof fn empty_dacl_leaves_implicit_rights(
    sd: SecurityDescriptor,
    token: AccessToken,
    desired: u32,
    requested: Option<&Guid>,
    mapping: GenericMapping,
)
    requires
        sd.dacl matches Acl::Entries(entries) && entries@.len() == 0,
    ensures
        sd.decision(token, desired, requested, mapping).granted == mapping.mapped(desired)
            & !sd.withheld(token) & sd.implicit_rights(token, mapping),
{
    crate::masks::lemma_mask_units();
}

/// Implicit rights are granted whatever the DACL says, unless the label
/// withholds them.
pub proof fn implicit_rights_override_the_dacl(
    sd: SecurityDescriptor,
    token: AccessToken,
    desired: u32,
    requested: Option<&Guid>,
    mapping: GenericMapping,
)
    ensures
        ({
            let wanted = mapping.mapped(desired);
            let implicit = sd.implicit_rights(token, mapping);
            let d = sd.decision(token, desired, requested, mapping);
            &&& within(wanted & !sd.withheld(token) & implicit, d.granted)
            &&& wanted != 0 && within(wanted, implicit & !sd.withheld(token)) ==> d.allowed
        }),
{
    let wanted = mapping.mapped(desired);
    let (withheld, implicit) = (sd.withheld(token), sd.implicit_rights(token, mapping));
    let open = wanted & !withheld;
    let by_dacl = sd.dacl.grants(token, requested, open & !implicit);
    let granted = (open & implicit) | by_dacl;
    lemma_obtained(sd, token, wanted, requested, mapping);
    assert((open & implicit) & granted == open & implicit && (wanted & (implicit & !withheld)
        == wanted ==> granted == wanted)) by (bit_vector)
        requires
            open == wanted & !withheld,
            granted == (open & implicit) | by_dacl,
            granted & open == granted,
    ;
}

/// The owner, and each privilege, has its implicit rights.
pub proof fn implicit_rights_of_owner_and_privileges(
    sd: SecurityDescriptor,
    token: AccessToken,
    mapping: GenericMapping,
)
    ensures
        token.holds_sid(sd.owner@) ==> within(
            rights::READ_CONTROL | rights::WRITE_DAC,
            sd.implicit_rights(token, mapping),
        ),
        token.holds_privilege(Privilege::SeTakeOwnership) ==> within(
            rights::WRITE_OWNER,
            sd.implicit_rights(token, mapping),
        ),
        token.holds_privilege(Privilege::SeBackup) ==> within(
            mapping.read | rights::READ_CONTROL,
            sd.implicit_rights(token, mapping),
        ),
        token.holds_privilege(Privilege::SeRestore) ==> within(
            mapping.write | rights::WRITE_DAC | rights::WRITE_OWNER,
            sd.implicit_rights(token, mapping),
        ),
        !token.holds_sid(sd.owner@) && (forall|p: Privilege| !token.holds_privilege(p))
            ==> sd.implicit_rights(token, mapping) == 0,
{
    assert(forall|a: u32, b: u32, c: u32, d: u32|
        #![trigger a | b | c | d]
        a & (a | b | c | d) == a && b & (a | b | c | d) == b && c & (a | b | c | d) == c && d & (a
            | b | c | d) == d) by (bit_vector);
    crate::masks::lemma_mask_units();
}

/// An entry takes no part in a check if it is for children only, if the token
/// does not hold its trustee, if its condition fails, or if it is for an
/// object type that was not asked for; an object entry takes no part in any
/// plain check.
pub proof fn entries_that_take_no_part(ace: Ace, token: AccessToken, requested: Option<&Guid>)
    ensures
        ace.inherit_only() ==> !ace.takes_part(token, requested),
        !token.holds_sid(ace.sid@) ==> !ace.takes_part(token, requested),
        !ace.condition.holds(token) ==> !ace.takes_part(token, requested),
        ace.object_type is Some ==> !ace.takes_part(token, None),
        ace.object_type matches Some(own) ==> requested matches Some(wanted) ==> wanted@ != own@
            ==> !ace.takes_part(token, requested),
{
}

/// A plain entry takes part in an object-typed check exactly if it does in a
/// plain one. An object entry whose type is the requested one takes part
/// exactly if it would as a plain entry.
pub proof fn plain_entries_apply_to_any_type(ace: Ace, token: AccessToken, wanted: &Guid)
    ensures
        ace.object_type is None ==> ace.takes_part(token, Some(wanted)) == ace.takes_part(
            token,
            None,
        ),
        ace.object_type matches Some(own) ==> own@ == wanted@ ==> ace.takes_part(
            token,
            Some(wanted),
        ) == (Ace { object_type: None, ..ace }).takes_part(token, None),
{
}

/// Of an entry's flags only `INHERIT_ONLY` counts, and a descriptor's group
/// does not count at all.
pub proof fn informational_fields_do_not_matter(
    sd: SecurityDescriptor,
    group: Sid,
    ace: Ace,
    flags: u8,
    token: AccessToken,
    desired: u32,
    requested: Option<&Guid>,
    mapping: GenericMapping,
)
    requires
        (Ace { flags, ..ace }).inherit_only() == ace.inherit_only(),
    ensures
        (Ace { flags, ..ace }).takes_part(token, requested) == ace.takes_part(token, requested),
        (SecurityDescriptor { group, ..sd }).decision(token, desired, requested, mapping)
            == sd.decision(token, desired, requested, mapping),
{
}

proof fn lemma_drop_idle_entry(
    entries: Seq<Ace>,
    at: int,
    token: AccessToken,
    requested: Option<&Guid>,
    pending: u32,
)
    requires
        0 <= at < entries.len(),
        !entries[at].takes_part(token, requested),
    ensures
        Acl::entries_grant(entries.remove(at), token, requested, pending) == Acl::entries_grant(
            entries,
            token,
            requested,
            pending,
        ),
    decreases entries.len(),
{
    let rest = entries.drop_first();
    if at == 0 {
        assert(entries.remove(0) =~= rest);
    } else {
        assert(entries.remove(at).drop_first() =~= rest.remove(at - 1));
        lemma_drop_idle_entry(rest, at - 1, token, requested, pending);
        lemma_drop_idle_entry(rest, at - 1, token, requested, pending & !entries[0].mask);
    }
}

/// An entry that takes no part might as well not be there.
pub proof fn idle_entry_makes_no_difference(
    sd: SecurityDescriptor,
    shorter: SecurityDescriptor,
    at: int,
    token: AccessToken,
    desired: u32,
    requested: Option<&Guid>,
    mapping: GenericMapping,
)
    requires
        shorter.owner@ == sd.owner@,
        shorter.mandatory_label == sd.mandatory_label,
        sd.dacl is Entries,
        shorter.dacl is Entries,
        0 <= at < sd.dacl->Entries_0@.len(),
        shorter.dacl->Entries_0@ == sd.dacl->Entries_0@.remove(at),
        !sd.dacl->Entries_0@[at].takes_part(token, requested),
    ensures
        shorter.decision(token, desired, requested, mapping) == sd.decision(
            token,
            desired,
            requested,
            mapping,
        ),
{
    let pending = mapping.mapped(desired) & !sd.withheld(token) & !sd.implicit_rights(
        token,
        mapping,
    );
    lemma_drop_idle_entry(sd.dacl->Entries_0@, at, token, requested, pending);
}

proof fn lemma_same_entries(
    first: Seq<Ace>,
    second: Seq<Ace>,
    one: AccessToken,
    other: AccessToken,
    requested: Option<&Guid>,
    asked: Option<&Guid>,
    pending: u32,
)
    requires
        first.len() == second.len(),
        forall|i: int|
            0 <= i < first.len() ==> {
                &&& (#[trigger] first[i]).kind == second[i].kind
                &&& first[i].mask == second[i].mask
                &&& first[i].takes_part(one, requested) == second[i].takes_part(other, asked)
            },
    ensures
        Acl::entries_grant(first, one, requested, pending) == Acl::entries_grant(
            second,
            other,
            asked,
            pending,
        ),
    decreases first.len(),
{
    if first.len() > 0 {
        let (a, b) = (first.drop_first(), second.drop_first());
        assert forall|i: int| 0 <= i < a.len() implies {
            &&& (#[trigger] a[i]).kind == b[i].kind
            &&& a[i].mask == b[i].mask
            &&& a[i].takes_part(one, requested) == b[i].takes_part(other, asked)
        } by {
            assert(a[i] == first[i + 1] && b[i] == second[i + 1]);
        }
        lemma_same_entries(a, b, one, other, requested, asked, pending);
        lemma_same_entries(a, b, one, other, requested, asked, pending & !first[0].mask);
        assert(first[0].kind == second[0].kind);
    }
}

/// The decision depends only on the structure of the case: whether the token
/// owns the object and stands below its label, which privileges it has, and
/// which entries, of what kind and with what mask, take part. The SIDs, GUIDs
/// and conditions that make it so do not matter.
pub proof fn only_structure_matters(
    sd: SecurityDescriptor,
    token: AccessToken,
    requested: Option<&Guid>,
    other_sd: SecurityDescriptor,
    other_token: AccessToken,
    other_requested: Option<&Guid>,
    desired: u32,
    mapping: GenericMapping,
)
    requires
        token.holds_sid(sd.owner@) == other_token.holds_sid(other_sd.owner@),
        token.same_privileges(other_token),
        sd.is_above(token) == other_sd.is_above(other_token),
        sd.dacl is Null == other_sd.dacl is Null,
        sd.dacl is Entries ==> sd.dacl->Entries_0@.len() == other_sd.dacl->Entries_0@.len(),
        sd.dacl is Entries ==> forall|i: int|
            0 <= i < sd.dacl->Entries_0@.len() ==> {
                let (a, b) = (#[trigger] sd.dacl->Entries_0@[i], other_sd.dacl->Entries_0@[i]);
                &&& a.kind == b.kind
                &&& a.mask == b.mask
                &&& a.takes_part(token, requested) == b.takes_part(other_token, other_requested)
            },
    ensures
        sd.decision(token, desired, requested, mapping) == other_sd.decision(
            other_token,
            desired,
            other_requested,
            mapping,
        ),
{
    assert(token.holds_privilege(Privilege::SeTakeOwnership) == other_token.holds_privilege(
        Privilege::SeTakeOwnership,
    ));
    assert(token.holds_privilege(Privilege::SeBackup) == other_token.holds_privilege(
        Privilege::SeBackup,
    ));
    assert(token.holds_privilege(Privilege::SeRestore) == other_token.holds_privilege(
        Privilege::SeRestore,
    ));
    if sd.dacl is Entries {
        let pending = mapping.mapped(desired) & !sd.withheld(token) & !sd.implicit_rights(
            token,
            mapping,
        );
        lemma_same_entries(
            sd.dacl->Entries_0@,
            other_sd.dacl->Entries_0@,
            token,
            other_token,
            requested,
            other_requested,
            pending,
        );
    }
}

/// A SID counts the same as user and as group: tokens that hold the same SIDs,
/// privileges and claims, and of which both or neither stand below the label,
/// get the same decisions.
pub proof fn user_and_groups_count_alike(
    sd: SecurityDescriptor,
    token: AccessToken,
    other: AccessToken,
    desired: u32,
    requested: Option<&Guid>,
    mapping: GenericMapping,
)
    requires
        token.same_sids(other),
        token.same_claims(other),
        token.same_privileges(other),
        sd.is_above(token) == sd.is_above(other),
    ensures
        sd.decision(token, desired, requested, mapping) == sd.decision(
            other,
            desired,
            requested,
            mapping,
        ),
{
    assert(token.holds_sid(sd.owner@) == other.holds_sid(sd.owner@));
    if sd.dacl is Entries {
        assert forall|i: int| 0 <= i < sd.dacl->Entries_0@.len() implies {
            let a = #[trigger] sd.dacl->Entries_0@[i];
            a.takes_part(token, requested) == a.takes_part(other, requested)
        } by {
            let a = sd.dacl->Entries_0@[i];
            assert(token.holds_sid(a.sid@) == other.holds_sid(a.sid@));
            a.condition.only_sids_and_claims_matter(token, other);
        }
    }
    only_structure_matters(sd, token, requested, sd, other, requested, desired, mapping);
}

/// Where no entry carries the requested object type, an object-typed check
/// decides as the plain check does.
pub proof fn object_type_matters_only_to_object_entries(
    sd: SecurityDescriptor,
    token: AccessToken,
    desired: u32,
    wanted: &Guid,
    mapping: GenericMapping,
)
    requires
        sd.dacl is Entries ==> forall|i: int|
            0 <= i < sd.dacl->Entries_0@.len() ==> ((
            #[trigger] sd.dacl->Entries_0@[i]).object_type matches Some(own) ==> own@ != wanted@),
    ensures
        sd.decision(token, desired, Some(wanted), mapping) == sd.decision(
            token,
            desired,
            None,
            mapping,
        ),
{
    only_structure_matters(sd, token, Some(wanted), sd, token, None, desired, mapping);
}

/// Generic rights are asked for by their mapping: where the mapping gives
/// specific rights only to the generic bits of a mask, asking for the mask is
/// asking for what it maps to.
pub proof fn generic_request_is_its_mapping(
    sd: SecurityDescriptor,
    token: AccessToken,
    desired: u32,
    requested: Option<&Guid>,
    mapping: GenericMapping,
)
    requires
        mapping.is_specific_for(desired),
    ensures
        sd.decision(token, mapping.mapped(desired), requested, mapping) == sd.decision(
            token,
            desired,
            requested,
            mapping,
        ),
{
    mapping.mapping_leaves_no_generic_bit(desired);
}

proof fn lemma_denied_bits(
    entries: Seq<Ace>,
    at: int,
    token: AccessToken,
    requested: Option<&Guid>,
    pending: u32,
    bits: u32,
)
    requires
        0 <= at < entries.len(),
        entries[at].takes_part(token, requested),
        entries[at].kind == AceKind::Denied,
        bits != 0,
        within(bits, entries[at].mask),
        within(bits, pending),
        forall|j: int|
            0 <= j < at && (#[trigger] entries[j]).takes_part(token, requested) && entries[j].kind
                == AceKind::Allowed ==> bits & entries[j].mask == 0,
    ensures
        Acl::entries_grant(entries, token, requested, pending) & bits == 0,
    decreases at,
{
    let mask = entries[0].mask;
    crate::masks::lemma_mask_units();
    if at == 0 {
        assert(pending & mask != 0) by (bit_vector)
            requires
                bits != 0,
                bits & mask == bits,
                bits & pending == bits,
        ;
    } else {
        let rest = entries.drop_first();
        assert forall|j: int|
            0 <= j < at - 1 && (#[trigger] rest[j]).takes_part(token, requested) && rest[j].kind
                == AceKind::Allowed implies bits & rest[j].mask == 0 by {
            assert(rest[j] == entries[j + 1]);
        }
        lemma_denied_bits(rest, at - 1, token, requested, pending, bits);
        if entries[0].takes_part(token, requested) && entries[0].kind == AceKind::Allowed {
            assert(bits & (pending & !mask) == bits) by (bit_vector)
                requires
                    bits & mask == 0,
                    bits & pending == bits,
            ;
            lemma_denied_bits(rest, at - 1, token, requested, pending & !mask, bits);
            let more = Acl::entries_grant(rest, token, requested, pending & !mask);
            assert(((pending & mask) | more) & bits == 0) by (bit_vector)
                requires
                    bits & mask == 0,
                    more & bits == 0,
            ;
        }
    }
}

/// A denying entry wins over the allowing ones behind it: the desired bits in
/// its mask that are not implicit and that no allowing entry ahead of it covers
/// are not granted, and access is not allowed.
pub proof fn deny_before_allow_wins(
    sd: SecurityDescriptor,
    at: int,
    bits: u32,
    token: AccessToken,
    desired: u32,
    requested: Option<&Guid>,
    mapping: GenericMapping,
)
    requires
        sd.dacl is Entries,
        0 <= at < sd.dacl->Entries_0@.len(),
        sd.dacl->Entries_0@[at].takes_part(token, requested),
        sd.dacl->Entries_0@[at].kind == AceKind::Denied,
        bits != 0,
        within(bits, sd.dacl->Entries_0@[at].mask),
        within(bits, mapping.mapped(desired)),
        bits & sd.implicit_rights(token, mapping) == 0,
        forall|j: int|
            0 <= j < at && (#[trigger] sd.dacl->Entries_0@[j]).takes_part(token, requested)
                && sd.dacl->Entries_0@[j].kind == AceKind::Allowed ==> bits
                & sd.dacl->Entries_0@[j].mask == 0,
    ensures
        sd.decision(token, desired, requested, mapping).granted & bits == 0,
        !sd.decision(token, desired, requested, mapping).allowed,
{
    let entries = sd.dacl->Entries_0@;
    let wanted = mapping.mapped(desired);
    let (withheld, implicit) = (sd.withheld(token), sd.implicit_rights(token, mapping));
    let pending = wanted & !withheld & !implicit;
    let hit = bits & pending;
    let by_dacl = Acl::entries_grant(entries, token, requested, pending);
    crate::check::lemma_entries_grant_within(entries, token, requested, pending);
    if hit != 0 {
        let mask = entries[at].mask;
        assert(hit & mask == hit && hit & pending == hit) by (bit_vector)
            requires
                hit == bits & pending,
                bits & mask == bits,
        ;
        assert forall|j: int|
            0 <= j < at && (#[trigger] entries[j]).takes_part(token, requested) && entries[j].kind
                == AceKind::Allowed implies hit & entries[j].mask == 0 by {
            let earlier = entries[j].mask;
            crate::masks::lemma_part_of_disjoint(bits, pending, earlier);
        }
        lemma_denied_bits(entries, at, token, requested, pending, hit);
    } else {
        crate::masks::lemma_mask_units();
    }
    let granted = (wanted & !withheld & implicit) | by_dacl;
    assert(granted & bits == 0 && granted != wanted) by (bit_vector)
        requires
            granted == (wanted & !withheld & implicit) | by_dacl,
            by_dacl & pending == by_dacl,
            by_dacl & hit == 0,
            hit == bits & pending,
            bits & implicit == 0,
            bits & wanted == bits,
            bits != 0,
    ;
}

/// The bits of `pending` that no allowing entry in the list covers.
pub open spec fn uncovered(
    entries: Seq<Ace>,
    token: AccessToken,
    requested: Option<&Guid>,
    pending: u32,
) -> u32
    decreases entries.len(),
{
    if entries.len() == 0 {
        pending
    } else {
        let first = entries[0];
        let covered = crate::masks::bits_if(
            first.takes_part(token, requested) && first.kind == AceKind::Allowed,
            first.mask,
        );
        uncovered(entries.drop_first(), token, requested, pending & !covered)
    }
}

/// The entry is a denying one that takes part, and a bit of `pending` in its
/// mask is covered by no allowing entry ahead of it.
pub open spec fn denies_at(
    entries: Seq<Ace>,
    at: int,
    token: AccessToken,
    requested: Option<&Guid>,
    pending: u32,
) -> bool {
    &&& entries[at].takes_part(token, requested)
    &&& entries[at].kind == AceKind::Denied
    &&& uncovered(entries.take(at), token, requested, pending) & entries[at].mask != 0
}

/// An entry behind the first denies in the list exactly if it does in the rest
/// of it, on what the first leaves uncovered.
proof fn lemma_denies_at_rest(
    entries: Seq<Ace>,
    at: int,
    token: AccessToken,
    requested: Option<&Guid>,
    pending: u32,
)
    requires
        0 < at < entries.len(),
    ensures
        denies_at(entries, at, token, requested, pending) == denies_at(
            entries.drop_first(),
            at - 1,
            token,
            requested,
            uncovered(entries.take(1), token, requested, pending),
        ),
{
    reveal_with_fuel(uncovered, 2);
    assert(entries.take(at).drop_first() =~= entries.drop_first().take(at - 1));
    assert(entries.take(1).drop_first().len() == 0);
}

proof fn lemma_allowed_bits(
    entries: Seq<Ace>,
    at: int,
    token: AccessToken,
    requested: Option<&Guid>,
    pending: u32,
)
    requires
        0 <= at < entries.len(),
        entries[at].takes_part(token, requested),
        entries[at].kind == AceKind::Allowed,
        forall|j: int| 0 <= j < at ==> !#[trigger] denies_at(entries, j, token, requested, pending),
    ensures
        within(
            pending & entries[at].mask,
            Acl::entries_grant(entries, token, requested, pending),
        ),
    decreases at,
{
    let mask = entries[0].mask;
    let wish = entries[at].mask;
    let rest = entries.drop_first();
    let more = Acl::entries_grant(rest, token, requested, pending & !mask);
    if at == 0 {
        crate::masks::lemma_mask_units();
    } else {
        let left = uncovered(entries.take(1), token, requested, pending);
        reveal_with_fuel(uncovered, 2);
        assert(entries.take(1).drop_first().len() == 0);
        crate::masks::lemma_mask_units();
        assert forall|j: int| 0 <= j < at - 1 implies !#[trigger] denies_at(
            rest,
            j,
            token,
            requested,
            left,
        ) by {
            lemma_denies_at_rest(entries, j + 1, token, requested, pending);
            assert(!denies_at(entries, j + 1, token, requested, pending));
        }
        lemma_allowed_bits(rest, at - 1, token, requested, left);
        assert(!denies_at(entries, 0, token, requested, pending));
        assert(entries.take(0).len() == 0);
        if entries[0].takes_part(token, requested) && entries[0].kind == AceKind::Allowed {
            assert((pending & wish) & ((pending & mask) | more) == pending & wish) by (bit_vector)
                requires
                    ((pending & !mask) & wish) & more == (pending & !mask) & wish,
            ;
        }
    }
}

/// An allowing entry grants the desired bits in its mask that the label does
/// not withhold, if no denying entry ahead of it refuses the request. One
/// refuses it if it has a bit in its mask that is desired, neither withheld nor
/// implicit, and not covered by an allowing entry ahead of that one.
pub proof fn undenied_allow_grants(
    sd: SecurityDescriptor,
    at: int,
    token: AccessToken,
    desired: u32,
    requested: Option<&Guid>,
    mapping: GenericMapping,
)
    requires
        sd.dacl is Entries,
        0 <= at < sd.dacl->Entries_0@.len(),
        sd.dacl->Entries_0@[at].takes_part(token, requested),
        sd.dacl->Entries_0@[at].kind == AceKind::Allowed,
        forall|j: int|
            0 <= j < at ==> !#[trigger] denies_at(
                sd.dacl->Entries_0@,
                j,
                token,
                requested,
                mapping.mapped(desired) & !sd.withheld(token) & !sd.implicit_rights(token, mapping),
            ),
    ensures
        within(
            mapping.mapped(desired) & !sd.withheld(token) & sd.dacl->Entries_0@[at].mask,
            sd.decision(token, desired, requested, mapping).granted,
        ),
{
    let entries = sd.dacl->Entries_0@;
    let wanted = mapping.mapped(desired);
    let (withheld, implicit) = (sd.withheld(token), sd.implicit_rights(token, mapping));
    let pending = wanted & !withheld & !implicit;
    lemma_allowed_bits(entries, at, token, requested, pending);
    let wish = entries[at].mask;
    let by_dacl = Acl::entries_grant(entries, token, requested, pending);
    let granted = (wanted & !withheld & implicit) | by_dacl;
    assert((wanted & !withheld & wish) & granted == wanted & !withheld & wish) by (bit_vector)
        requires
            pending == wanted & !withheld & !implicit,
            granted == (wanted & !withheld & implicit) | by_dacl,
            (pending & wish) & by_dacl == pending & wish,
    ;
}

proof fn lemma_grants_all_join(
    entries: Seq<Ace>,
    token: AccessToken,
    requested: Option<&Guid>,
    a: u32,
    b: u32,
)
    ensures
        grants_all(entries, token, requested, a | b) <==> grants_all(entries, token, requested, a)
            && grants_all(entries, token, requested, b),
    decreases entries.len(),
{
    crate::masks::lemma_mask_units();
    if entries.len() == 0 {
        crate::masks::lemma_join_empty(a, b);
    } else {
        let mask = entries[0].mask;
        let rest = entries.drop_first();
        assert((a | b) & !mask == (a & !mask) | (b & !mask) && ((a | b) & mask != 0) == (a & mask
            != 0 || b & mask != 0)) by (bit_vector);
        lemma_grants_all_join(rest, token, requested, a, b);
        lemma_grants_all_join(rest, token, requested, a & !mask, b & !mask);
        lemma_first_allow_grants_all(entries, token, requested, a);
        lemma_first_allow_grants_all(entries, token, requested, b);
        lemma_first_allow_grants_all(entries, token, requested, a | b);
    }
}

proof fn lemma_first_allow_grants_all(
    entries: Seq<Ace>,
    token: AccessToken,
    requested: Option<&Guid>,
    pending: u32,
)
    requires
        entries.len() > 0,
    ensures
        entries[0].takes_part(token, requested) && entries[0].kind == AceKind::Allowed ==> (
        grants_all(entries, token, requested, pending) <==> grants_all(
            entries.drop_first(),
            token,
            requested,
            pending & !entries[0].mask,
        )),
{
    let mask = entries[0].mask;
    let more = Acl::entries_grant(entries.drop_first(), token, requested, pending & !mask);
    crate::check::lemma_entries_grant_within(
        entries.drop_first(),
        token,
        requested,
        pending & !mask,
    );
    assert(((pending & mask) | more == pending) == (more == pending & !mask)) by (bit_vector)
        requires
            more & (pending & !mask) == more,
    ;
}

proof fn lemma_obtained_join(
    sd: SecurityDescriptor,
    token: AccessToken,
    a: u32,
    b: u32,
    requested: Option<&Guid>,
    mapping: GenericMapping,
)
    ensures
        sd.obtained(token, a | b, requested, mapping) == a | b <==> sd.obtained(
            token,
            a,
            requested,
            mapping,
        ) == a && sd.obtained(token, b, requested, mapping) == b,
{
    let (withheld, implicit) = (sd.withheld(token), sd.implicit_rights(token, mapping));
    lemma_obtained(sd, token, a, requested, mapping);
    lemma_obtained(sd, token, b, requested, mapping);
    lemma_obtained(sd, token, a | b, requested, mapping);
    assert((a | b) & !implicit == (a & !implicit) | (b & !implicit) && ((a | b) & withheld == 0)
        == (a & withheld == 0 && b & withheld == 0)) by (bit_vector);
    if let Acl::Entries(entries) = sd.dacl {
        lemma_grants_all_join(entries@, token, requested, a & !implicit, b & !implicit);
    }
}

/// Two requests are allowed together exactly if together they ask for something
/// and each of them that asks for something is allowed by itself.
pub proof fn requests_join(
    sd: SecurityDescriptor,
    token: AccessToken,
    first: u32,
    second: u32,
    requested: Option<&Guid>,
    mapping: GenericMapping,
)
    ensures
        sd.decision(token, first | second, requested, mapping).allowed <==> {
            &&& mapping.mapped(first) != 0 || mapping.mapped(second) != 0
            &&& mapping.mapped(first) != 0 ==> sd.decision(token, first, requested, mapping).allowed
            &&& mapping.mapped(second) != 0 ==> sd.decision(
                token,
                second,
                requested,
                mapping,
            ).allowed
        },
{
    let (a, b) = (mapping.mapped(first), mapping.mapped(second));
    mapping.mapping_joins(first, second);
    lemma_obtained_join(sd, token, a, b, requested, mapping);
    crate::masks::lemma_join_empty(a, b);
    lemma_obtained(sd, token, 0, requested, mapping);
    crate::masks::lemma_mask_units();
}

/// Whoever is allowed a request is allowed any part of it.
pub proof fn part_of_allowed_request_is_allowed(
    sd: SecurityDescriptor,
    token: AccessToken,
    part: u32,
    desired: u32,
    requested: Option<&Guid>,
    mapping: GenericMapping,
)
    requires
        sd.decision(token, desired, requested, mapping).allowed,
        mapping.mapped(part) != 0,
        within(mapping.mapped(part), mapping.mapped(desired)),
    ensures
        sd.decision(token, part, requested, mapping).allowed,
{
    let (a, b) = (mapping.mapped(part), mapping.mapped(desired));
    assert(a | b == b) by (bit_vector)
        requires
            a & b == a,
    ;
    lemma_obtained_join(sd, token, a, b, requested, mapping);
}

/// A mask that is not empty is a single right joined with a smaller mask.
proof fn lemma_lowest_right(mask: u32) -> (split: (u32, u32))
    requires
        mask != 0,
    ensures
        is_one_right(split.0),
        split.0 | split.1 == mask,
        split.0 & mask == split.0,
        mask & split.0 != 0,
        split.1 & mask == split.1,
        split.1 < mask,
{
    let below = (mask - 1) as u32;
    let right = mask & !below;
    let rest = mask & below;
    let under = (right - 1) as u32;
    assert(rest < mask && right != 0 && right & under == 0 && right & mask == right && mask & right
        != 0 && right | rest == mask && rest & mask == rest) by (bit_vector)
        requires
            mask != 0,
            below == (mask - 1) as u32,
            right == mask & !below,
            rest == mask & below,
            under == (right - 1) as u32,
    ;
    (right, rest)
}

proof fn lemma_obtained_right_by_right(
    sd: SecurityDescriptor,
    token: AccessToken,
    wanted: u32,
    requested: Option<&Guid>,
    mapping: GenericMapping,
)
    requires
        forall|right: u32|
            #![trigger is_one_right(right)]
            is_one_right(right) && within(right, wanted) ==> sd.obtained(
                token,
                right,
                requested,
                mapping,
            ) == right,
    ensures
        sd.obtained(token, wanted, requested, mapping) == wanted,
    decreases wanted,
{
    if wanted == 0 {
        lemma_obtained(sd, token, 0, requested, mapping);
        crate::masks::lemma_mask_units();
    } else {
        let (right, rest) = lemma_lowest_right(wanted);
        assert forall|r: u32| #![trigger is_one_right(r)]
            is_one_right(r) && within(r, rest) implies sd.obtained(token, r, requested, mapping)
            == r by {
            assert(r & wanted == r) by (bit_vector)
                requires
                    r & rest == r,
                    rest & wanted == rest,
            ;
        }
        lemma_obtained_right_by_right(sd, token, rest, requested, mapping);
        lemma_obtained_join(sd, token, right, rest, requested, mapping);
    }
}

/// A request is allowed exactly if it asks for something and each single
/// right in it is allowed by itself.
pub proof fn allowed_right_by_right(
    sd: SecurityDescriptor,
    token: AccessToken,
    desired: u32,
    requested: Option<&Guid>,
    mapping: GenericMapping,
)
    requires
        mapping.is_specific_for(desired),
    ensures
        sd.decision(token, desired, requested, mapping).allowed <==> {
            &&& mapping.mapped(desired) != 0
            &&& forall|right: u32|
                #![trigger is_one_right(right)]
                is_one_right(right) && within(right, mapping.mapped(desired)) ==> sd.decision(
                    token,
                    right,
                    requested,
                    mapping,
                ).allowed
        },
{
    let wanted = mapping.mapped(desired);
    mapping.mapping_leaves_no_generic_bit(desired);
    assert forall|right: u32|
        #![trigger is_one_right(right)]
        is_one_right(right) && within(right, wanted) implies mapping.mapped(right) == right by {
        crate::masks::lemma_part_of_disjoint(wanted, right, rights::GENERIC_MASK);
        mapping.specific_mask_is_unchanged(right);
    }
    if sd.decision(token, desired, requested, mapping).allowed {
        assert forall|right: u32|
            #![trigger is_one_right(right)]
            is_one_right(right) && within(right, wanted) implies sd.decision(
            token,
            right,
            requested,
            mapping,
        ).allowed by {
            assert(mapping.mapped(right) == right);
            part_of_allowed_request_is_allowed(sd, token, right, desired, requested, mapping);
        }
    }
    if wanted != 0 && forall|right: u32|
        #![trigger is_one_right(right)]
        is_one_right(right) && within(right, wanted) ==> sd.decision(
            token,
            right,
            requested,
            mapping,
        ).allowed {
        assert forall|right: u32|
            #![trigger is_one_right(right)]
            is_one_right(right) && within(right, wanted) implies sd.obtained(
            token,
            right,
            requested,
            mapping,
        ) == right by {
            assert(mapping.mapped(right) == right);
            assert(sd.decision(token, right, requested, mapping).allowed);
        }
        lemma_obtained_right_by_right(sd, token, wanted, requested, mapping);
    }
}

/// The entry at `at` is the first that takes part and has `right` in its mask.
pub open spec fn is_first_for(
    entries: Seq<Ace>,
    at: int,
    right: u32,
    token: AccessToken,
    requested: Option<&Guid>,
) -> bool {
    &&& 0 <= at < entries.len()
    &&& entries[at].takes_part(token, requested)
    &&& right & entries[at].mask != 0
    &&& forall|j: int|
        0 <= j < at && (#[trigger] entries[j]).takes_part(token, requested) ==> right
            & entries[j].mask == 0
}

/// A single right is in a mask or it is not.
proof fn lemma_one_right(right: u32, mask: u32)
    requires
        is_one_right(right),
    ensures
        right & mask != 0 ==> right & mask == right && right & !mask == 0,
        right & mask == 0 ==> right & !mask == right,
{
    let under = (right - 1) as u32;
    assert((right & mask != 0 ==> right & mask == right && right & !mask == 0) && (right & mask == 0
        ==> right & !mask == right)) by (bit_vector)
        requires
            right != 0,
            under == (right - 1) as u32,
            right & under == 0,
    ;
}

proof fn lemma_first_for(
    entries: Seq<Ace>,
    at: int,
    right: u32,
    token: AccessToken,
    requested: Option<&Guid>,
)
    requires
        is_one_right(right),
        is_first_for(entries, at, right, token, requested),
    ensures
        Acl::entries_grant(entries, token, requested, right) == (if entries[at].kind
            == AceKind::Allowed {
            right
        } else {
            0
        }),
    decreases at,
{
    let mask = entries[0].mask;
    let rest = entries.drop_first();
    lemma_one_right(right, mask);
    crate::masks::lemma_mask_units();
    if at == 0 {
        crate::check::lemma_entries_grant_within(rest, token, requested, 0);
    } else {
        assert forall|j: int|
            0 <= j < at - 1 && (#[trigger] rest[j]).takes_part(token, requested) implies right
            & rest[j].mask == 0 by {
            assert(rest[j] == entries[j + 1]);
        }
        lemma_first_for(rest, at - 1, right, token, requested);
    }
}

proof fn lemma_none_for(
    entries: Seq<Ace>,
    right: u32,
    token: AccessToken,
    requested: Option<&Guid>,
)
    requires
        forall|j: int|
            0 <= j < entries.len() && (#[trigger] entries[j]).takes_part(token, requested)
                ==> right & entries[j].mask == 0,
    ensures
        Acl::entries_grant(entries, token, requested, right) == 0,
    decreases entries.len(),
{
    crate::masks::lemma_mask_units();
    if entries.len() > 0 {
        let mask = entries[0].mask;
        let rest = entries.drop_first();
        assert forall|j: int|
            0 <= j < rest.len() && (#[trigger] rest[j]).takes_part(token, requested) implies right
            & rest[j].mask == 0 by {
            assert(rest[j] == entries[j + 1]);
        }
        lemma_none_for(rest, right, token, requested);
        if entries[0].takes_part(token, requested) {
            crate::masks::lemma_disjoint(right, mask);
        }
    }
}

/// A request for one right is allowed exactly if the label does not withhold it
/// and it is implicit, or the first entry that takes part and has it in its mask
/// is an allowing one.
pub proof fn first_entry_for_a_right_decides(
    sd: SecurityDescriptor,
    right: u32,
    token: AccessToken,
    desired: u32,
    requested: Option<&Guid>,
    mapping: GenericMapping,
)
    requires
        sd.dacl is Entries,
        is_one_right(right),
        mapping.mapped(desired) == right,
    ensures
        sd.decision(token, desired, requested, mapping).allowed <==> {
            &&& right & sd.withheld(token) == 0
            &&& right & sd.implicit_rights(token, mapping) != 0 || exists|at: int|
                #[trigger]
                is_first_for(sd.dacl->Entries_0@, at, right, token, requested)
                    && sd.dacl->Entries_0@[at].kind == AceKind::Allowed
        },
{
    let entries = sd.dacl->Entries_0@;
    let implicit = sd.implicit_rights(token, mapping);
    lemma_obtained(sd, token, right, requested, mapping);
    lemma_one_right(right, implicit);
    if right & implicit != 0 {
        crate::check::lemma_entries_grant_within(entries, token, requested, 0);
        crate::masks::lemma_mask_units();
    } else if exists|at: int| is_first_for(entries, at, right, token, requested) {
        let at = choose|at: int| is_first_for(entries, at, right, token, requested);
        lemma_first_for(entries, at, right, token, requested);
        assert forall|other: int| #[trigger]
            is_first_for(entries, other, right, token, requested) implies other == at by {
            if other < at {
                assert(entries[other].takes_part(token, requested));
            } else if at < other {
                assert(entries[at].takes_part(token, requested));
            }
        }
    } else {
        lemma_first_for_exists(entries, right, token, requested, entries.len() as int);
        lemma_none_for(entries, right, token, requested);
    }
}

/// Where no entry is the first for a right, none ahead of `end` covers it.
proof fn lemma_first_for_exists(
    entries: Seq<Ace>,
    right: u32,
    token: AccessToken,
    requested: Option<&Guid>,
    end: int,
)
    requires
        0 <= end <= entries.len(),
        forall|at: int| !#[trigger] is_first_for(entries, at, right, token, requested),
    ensures
        forall|j: int|
            0 <= j < end && (#[trigger] entries[j]).takes_part(token, requested) ==> right
                & entries[j].mask == 0,
    decreases end,
{
    if end > 0 {
        lemma_first_for_exists(entries, right, token, requested, end - 1);
        assert(!is_first_for(entries, end - 1, right, token, requested));
    }
}

proof fn lemma_append(
    entries: Seq<Ace>,
    more: Seq<Ace>,
    token: AccessToken,
    requested: Option<&Guid>,
    pending: u32,
)
    ensures
        within(
            Acl::entries_grant(entries, token, requested, pending),
            Acl::entries_grant(entries + more, token, requested, pending),
        ),
    decreases entries.len(),
{
    crate::masks::lemma_mask_units();
    if entries.len() > 0 {
        let mask = entries[0].mask;
        let rest = entries.drop_first();
        assert((entries + more).drop_first() =~= rest + more);
        lemma_append(rest, more, token, requested, pending);
        lemma_append(rest, more, token, requested, pending & !mask);
        let (a, b) = (
            Acl::entries_grant(rest, token, requested, pending & !mask),
            Acl::entries_grant(rest + more, token, requested, pending & !mask),
        );
        let hit = pending & mask;
        assert((hit | a) & (hit | b) == hit | a) by (bit_vector)
            requires
                a & b == a,
        ;
    }
}

/// Entries added at the end take nothing away: what was granted stays granted,
/// and who was allowed stays allowed.
pub proof fn later_entries_take_nothing_away(
    sd: SecurityDescriptor,
    longer: SecurityDescriptor,
    more: Seq<Ace>,
    token: AccessToken,
    desired: u32,
    requested: Option<&Guid>,
    mapping: GenericMapping,
)
    requires
        longer.owner@ == sd.owner@,
        longer.mandatory_label == sd.mandatory_label,
        sd.dacl is Entries,
        longer.dacl is Entries,
        longer.dacl->Entries_0@ == sd.dacl->Entries_0@ + more,
    ensures
        within(
            sd.decision(token, desired, requested, mapping).granted,
            longer.decision(token, desired, requested, mapping).granted,
        ),
        sd.decision(token, desired, requested, mapping).allowed ==> longer.decision(
            token,
            desired,
            requested,
            mapping,
        ).allowed,
{
    let wanted = mapping.mapped(desired);
    let withheld = sd.withheld(token);
    let implicit = sd.implicit_rights(token, mapping);
    let pending = wanted & !withheld & !implicit;
    lemma_append(sd.dacl->Entries_0@, more, token, requested, pending);
    lemma_obtained(longer, token, wanted, requested, mapping);
    let hit = wanted & !withheld & implicit;
    let (a, b) = (
        Acl::entries_grant(sd.dacl->Entries_0@, token, requested, pending),
        Acl::entries_grant(longer.dacl->Entries_0@, token, requested, pending),
    );
    assert((hit | a) & (hit | b) == hit | a && (hit | a == wanted ==> hit | b == wanted))
        by (bit_vector)
        requires
            a & b == a,
            (hit | b) & (wanted & !withheld) == hit | b,
    ;
}

/// What a list grants of a request, it grants of each part of the request that
/// asks for it.
proof fn lemma_grants_of_part(
    entries: Seq<Ace>,
    token: AccessToken,
    requested: Option<&Guid>,
    pending: u32,
    part: u32,
)
    requires
        within(part, pending),
    ensures
        within(
            Acl::entries_grant(entries, token, requested, pending) & part,
            Acl::entries_grant(entries, token, requested, part),
        ),
    decreases entries.len(),
{
    crate::masks::lemma_mask_units();
    if entries.len() > 0 {
        let mask = entries[0].mask;
        let rest = entries.drop_first();
        assert((part & !mask) & (pending & !mask) == part & !mask && (pending & mask == 0 ==> part
            & mask == 0)) by (bit_vector)
            requires
                part & pending == part,
        ;
        lemma_grants_of_part(rest, token, requested, pending, part);
        lemma_grants_of_part(rest, token, requested, pending & !mask, part & !mask);
        let (a, b) = (
            Acl::entries_grant(rest, token, requested, pending & !mask),
            Acl::entries_grant(rest, token, requested, part & !mask),
        );
        assert((((pending & mask) | a) & part) & ((part & mask) | b) == ((pending & mask) | a)
            & part) by (bit_vector)
            requires
                (a & (part & !mask)) & b == a & (part & !mask),
        ;
    }
}

/// More privileges take nothing away: what was granted stays granted, and who
/// was allowed stays allowed.
pub proof fn privileges_only_add(
    sd: SecurityDescriptor,
    token: AccessToken,
    stronger: AccessToken,
    desired: u32,
    requested: Option<&Guid>,
    mapping: GenericMapping,
)
    requires
        token.same_sids(stronger),
        token.same_claims(stronger),
        sd.is_above(token) == sd.is_above(stronger),
        forall|p: Privilege| #[trigger]
            token.holds_privilege(p) ==> stronger.holds_privilege(p),
    ensures
        within(
            sd.decision(token, desired, requested, mapping).granted,
            sd.decision(stronger, desired, requested, mapping).granted,
        ),
        sd.decision(token, desired, requested, mapping).allowed ==> sd.decision(
            stronger,
            desired,
            requested,
            mapping,
        ).allowed,
{
    let wanted = mapping.mapped(desired);
    let (before, after) = (
        sd.implicit_rights(token, mapping),
        sd.implicit_rights(stronger, mapping),
    );
    assert(token.holds_sid(sd.owner@) == stronger.holds_sid(sd.owner@));
    assert(token.holds_privilege(Privilege::SeTakeOwnership) ==> stronger.holds_privilege(
        Privilege::SeTakeOwnership,
    ));
    assert(token.holds_privilege(Privilege::SeBackup) ==> stronger.holds_privilege(
        Privilege::SeBackup,
    ));
    assert(token.holds_privilege(Privilege::SeRestore) ==> stronger.holds_privilege(
        Privilege::SeRestore,
    ));
    let open = wanted & !sd.withheld(token);
    let (pending, part) = (open & !before, open & !after);
    assert(within(part, pending)) by {
        lemma_more_joined(
            crate::masks::bits_if(
                token.holds_sid(sd.owner@),
                rights::READ_CONTROL | rights::WRITE_DAC,
            ),
            (
                token.holds_privilege(Privilege::SeTakeOwnership),
                stronger.holds_privilege(Privilege::SeTakeOwnership),
            ),
            rights::WRITE_OWNER,
            (
                token.holds_privilege(Privilege::SeBackup),
                stronger.holds_privilege(Privilege::SeBackup),
            ),
            mapping.read | rights::READ_CONTROL,
            (
                token.holds_privilege(Privilege::SeRestore),
                stronger.holds_privilege(Privilege::SeRestore),
            ),
            mapping.write | rights::WRITE_DAC | rights::WRITE_OWNER,
            open,
        );
    }
    let (a, b) = (
        sd.dacl.grants(token, requested, pending),
        sd.dacl.grants(stronger, requested, part),
    );
    match sd.dacl {
        Acl::Null => {
            crate::masks::lemma_mask_units();
        },
        Acl::Entries(entries) => {
            assert forall|i: int| 0 <= i < entries@.len() implies (
            #[trigger] entries@[i]).takes_part(token, requested) == entries@[i].takes_part(
                stronger,
                requested,
            ) by {
                let ace = entries@[i];
                assert(token.holds_sid(ace.sid@) == stronger.holds_sid(ace.sid@));
                ace.condition.only_sids_and_claims_matter(token, stronger);
            }
            lemma_same_entries(entries@, entries@, token, stronger, requested, requested, part);
            lemma_grants_of_part(entries@, token, requested, pending, part);
        },
    }
    lemma_obtained(sd, token, wanted, requested, mapping);
    lemma_obtained(sd, stronger, wanted, requested, mapping);
    lemma_grants_within(sd.dacl, token, requested, pending);
    let withheld = sd.withheld(token);
    let (less, more) = ((open & before) | a, (open & after) | b);
    assert(less & more == less && (less == wanted ==> more == wanted)) by (bit_vector)
        requires
            open == wanted & !withheld,
            pending == open & !before,
            part == open & !after,
            part & pending == part,
            a & pending == a,
            (a & part) & b == a & part,
            less == (open & before) | a,
            more == (open & after) | b,
            more & open == more,
    ;
}

/// Joining more masks leaves less of `wanted` to ask for. Each pair says
/// whether the mask after it is joined before and after.
proof fn lemma_more_joined(
    base: u32,
    first: (bool, bool),
    a: u32,
    second: (bool, bool),
    b: u32,
    third: (bool, bool),
    c: u32,
    wanted: u32,
)
    requires
        first.0 ==> first.1,
        second.0 ==> second.1,
        third.0 ==> third.1,
    ensures
        ({
            let before = base | crate::masks::bits_if(first.0, a) | crate::masks::bits_if(
                second.0,
                b,
            ) | crate::masks::bits_if(third.0, c);
            let after = base | crate::masks::bits_if(first.1, a) | crate::masks::bits_if(
                second.1,
                b,
            ) | crate::masks::bits_if(third.1, c);
            within(wanted & !after, wanted & !before)
        }),
{
    let (a0, b0, c0) = (
        crate::masks::bits_if(first.0, a),
        crate::masks::bits_if(second.0, b),
        crate::masks::bits_if(third.0, c),
    );
    let (a1, b1, c1) = (
        crate::masks::bits_if(first.1, a),
        crate::masks::bits_if(second.1, b),
        crate::masks::bits_if(third.1, c),
    );
    crate::masks::lemma_mask_units();
    assert((wanted & !(base | a1 | b1 | c1)) & (wanted & !(base | a0 | b0 | c0)) == wanted & !(base
        | a1 | b1 | c1)) by (bit_vector)
        requires
            a0 & a1 == a0,
            b0 & b1 == b0,
            c0 & c1 == c0,
    ;
}

/// An entry takes part if it has not the flag for children only, if its trustee
/// is the user of the token or one of its groups, if its condition holds, and if
/// it has no object type or one with the same bytes as the requested one:
/// whether it allows or denies, and what its mask is, does not matter.
pub proof fn entry_for_the_token_takes_part(ace: Ace, token: AccessToken, requested: Option<&Guid>)
    requires
        ace.flags & 0x08 == 0,
        token.user@ == ace.sid@ || exists|g: int|
            0 <= g < token.groups@.len() && #[trigger] token.groups@[g]@ == ace.sid@,
        ace.condition.holds(token),
        ace.object_type matches Some(own) ==> requested is Some && forall|i: int|
            0 <= i < 16 ==> #[trigger] own@[i] == requested->0@[i],
    ensures
        ace.takes_part(token, requested),
{
    if let Some(own) = ace.object_type {
        own.equal_guids_have_equal_bytes(*requested->0);
        assert(own@ =~= requested->0@) by {
            requested->0.equal_guids_have_equal_bytes(own);
        }
    }
}

/// An entry takes no part if any one thing is missing: it has the flag for
/// children only, its trustee is neither the user nor a group of the token, its
/// condition fails, or it has an object type and none was requested or one that
/// differs in a byte.
pub proof fn entry_for_another_case_takes_no_part(
    ace: Ace,
    token: AccessToken,
    requested: Option<&Guid>,
)
    requires
        ({
            ||| ace.flags & 0x08 != 0
            ||| token.user@ != ace.sid@ && forall|g: int|
                0 <= g < token.groups@.len() ==> #[trigger] token.groups@[g]@ != ace.sid@
            ||| !ace.condition.holds(token)
            ||| ace.object_type is Some && requested is None
            ||| ace.object_type is Some && requested is Some && exists|i: int|
                0 <= i < 16 && #[trigger] ace.object_type->0@[i] != requested->0@[i]
        }),
    ensures
        !ace.takes_part(token, requested),
{
}

/// Entries with the same trustee, condition and object type, both or neither
/// for children only, take part alike, be they allowing or denying and whatever
/// their masks are.
pub proof fn kind_and_mask_do_not_matter_to_taking_part(
    ace: Ace,
    other: Ace,
    token: AccessToken,
    requested: Option<&Guid>,
)
    requires
        ace.flags & 0x08 == other.flags & 0x08,
        ace.sid@ == other.sid@,
        ace.condition@ == other.condition@,
        ace.object_type is None <==> other.object_type is None,
        ace.object_type is Some ==> ace.object_type->0@ == other.object_type->0@,
    ensures
        ace.takes_part(token, requested) == other.takes_part(token, requested),
{
    ace.condition.equal_expressions_hold_alike(other.condition, token);
}

/// A plain, unconditional denying entry at the head of the list, for the user
/// of the token or one of its groups, refuses every request with a right in its
/// mask that is not implicit, and grants nothing of these rights.
pub proof fn plain_deny_at_the_head_refuses(
    sd: SecurityDescriptor,
    token: AccessToken,
    desired: u32,
    requested: Option<&Guid>,
    mapping: GenericMapping,
)
    requires
        sd.dacl is Entries,
        sd.dacl->Entries_0@.len() > 0,
        ({
            let head = sd.dacl->Entries_0@[0];
            &&& head.kind == AceKind::Denied
            &&& head.flags & 0x08 == 0
            &&& token.user@ == head.sid@ || exists|g: int|
                0 <= g < token.groups@.len() && #[trigger] token.groups@[g]@ == head.sid@
            &&& head.condition is Always
            &&& head.object_type is None
            &&& mapping.mapped(desired) & head.mask & !sd.implicit_rights(token, mapping) != 0
        }),
    ensures
        !sd.decision(token, desired, requested, mapping).allowed,
        sd.decision(token, desired, requested, mapping).granted & (mapping.mapped(desired)
            & sd.dacl->Entries_0@[0].mask & !sd.implicit_rights(token, mapping)) == 0,
{
    let head = sd.dacl->Entries_0@[0];
    let (wanted, mask, implicit) = (
        mapping.mapped(desired),
        head.mask,
        sd.implicit_rights(token, mapping),
    );
    let bits = wanted & mask & !implicit;
    Condition::always_holds(token);
    entry_for_the_token_takes_part(head, token, requested);
    assert(bits & mask == bits && bits & wanted == bits && bits & implicit == 0) by (bit_vector)
        requires
            bits == wanted & mask & !implicit,
    ;
    deny_before_allow_wins(sd, 0, bits, token, desired, requested, mapping);
}

/// A plain, unconditional allowing entry at the head of the list, for the user
/// of the token or one of its groups, grants the desired rights in its mask that
/// the label does not withhold.
pub proof fn plain_allow_at_the_head_grants(
    sd: SecurityDescriptor,
    token: AccessToken,
    desired: u32,
    requested: Option<&Guid>,
    mapping: GenericMapping,
)
    requires
        sd.dacl is Entries,
        sd.dacl->Entries_0@.len() > 0,
        ({
            let head = sd.dacl->Entries_0@[0];
            &&& head.kind == AceKind::Allowed
            &&& head.flags & 0x08 == 0
            &&& token.user@ == head.sid@ || exists|g: int|
                0 <= g < token.groups@.len() && #[trigger] token.groups@[g]@ == head.sid@
            &&& head.condition is Always
            &&& head.object_type is None
        }),
    ensures
        within(
            mapping.mapped(desired) & !sd.withheld(token) & sd.dacl->Entries_0@[0].mask,
            sd.decision(token, desired, requested, mapping).granted,
        ),
{
    Condition::always_holds(token);
    entry_for_the_token_takes_part(sd.dacl->Entries_0@[0], token, requested);
    undenied_allow_grants(sd, 0, token, desired, requested, mapping);
}

/// Whether a label stands above a token is a matter of the label and of the
/// token's integrity alone: it does exactly if it comes later in the row
/// `Untrusted`, `Low`, `Medium`, `High`, `System`. A label that does withholds
/// `FILE_WRITE_DATA`, `FILE_APPEND_DATA`, `DELETE`, `WRITE_DAC` and
/// `WRITE_OWNER`; one that does not withholds nothing.
pub proof fn label_is_compared_with_integrity_alone(sd: SecurityDescriptor, token: AccessToken)
    ensures
        sd.is_above(token) <==> match (token.integrity, sd.mandatory_label) {
            (_, None) => false,
            (_, Some(IntegrityLevel::Untrusted)) => false,
            (IntegrityLevel::Untrusted, Some(_)) => true,
            (_, Some(IntegrityLevel::Low)) => false,
            (IntegrityLevel::Low, Some(_)) => true,
            (_, Some(IntegrityLevel::Medium)) => false,
            (IntegrityLevel::Medium, Some(_)) => true,
            (_, Some(IntegrityLevel::High)) => false,
            (IntegrityLevel::High, Some(_)) => true,
            (IntegrityLevel::System, Some(_)) => false,
        },
        sd.is_above(token) ==> sd.withheld(token) == 0x000D_0006,
        !sd.is_above(token) ==> sd.withheld(token) == 0,
{
    rights::rights_are_windows_bits();
}

/// Whatever its SIDs, privileges and claims are, whatever the object's owner,
/// group and DACL are: a token of a lower integrity level than the label is
/// granted no write-class right, and each one that it asks for is reported as
/// still denied.
pub proof fn lower_level_writes_nothing(
    sd: SecurityDescriptor,
    label: IntegrityLevel,
    token: AccessToken,
    desired: u32,
    requested: Option<&Guid>,
    mapping: GenericMapping,
)
    requires
        sd.mandatory_label == Some(label),
        match (token.integrity, label) {
            (IntegrityLevel::Untrusted, l) => l != IntegrityLevel::Untrusted,
            (IntegrityLevel::Low, l) => l == IntegrityLevel::Medium || l == IntegrityLevel::High || l
                == IntegrityLevel::System,
            (IntegrityLevel::Medium, l) => l == IntegrityLevel::High || l == IntegrityLevel::System,
            (IntegrityLevel::High, l) => l == IntegrityLevel::System,
            (IntegrityLevel::System, _) => false,
        },
    ensures
        sd.decision(token, desired, requested, mapping).granted & 0x000D_0006 == 0,
        within(
            mapping.mapped(desired) & 0x000D_0006,
            sd.decision(token, desired, requested, mapping).still_denied,
        ),
        mapping.mapped(desired) & 0x000D_0006 != 0 ==> !sd.decision(
            token,
            desired,
            requested,
            mapping,
        ).allowed,
{
    rights::rights_are_windows_bits();
    label_is_compared_with_integrity_alone(sd, token);
    no_write_up(sd, token, desired, requested, mapping);
    every_desired_bit_is_accounted_for(sd, token, desired, requested, mapping);
    let d = sd.decision(token, desired, requested, mapping);
    let (granted, denied, wanted) = (d.granted, d.still_denied, mapping.mapped(desired));
    assert((wanted & 0x000D_0006u32) & denied == wanted & 0x000D_0006u32) by (bit_vector)
        requires
            granted | denied == wanted,
            granted & 0x000D_0006u32 == 0,
    ;
}

/// Each implicit right has a source: a mask `some` meets the implicit rights
/// exactly if it meets `READ_CONTROL` or `WRITE_DAC` and the user of the token
/// or one of its groups is the owner, or if it meets the rights of a privilege
/// in the token's list: `WRITE_OWNER` for `SeTakeOwnership`, the mapping's read
/// rights and `READ_CONTROL` for `SeBackup`, the mapping's write rights,
/// `WRITE_DAC` and `WRITE_OWNER` for `SeRestore`.
pub proof fn implicit_rights_have_a_source(
    sd: SecurityDescriptor,
    token: AccessToken,
    mapping: GenericMapping,
    some: u32,
)
    ensures
        sd.implicit_rights(token, mapping) & some != 0 <==> {
            ||| some & 0x0006_0000 != 0 && (token.user@ == sd.owner@ || exists|g: int|
                0 <= g < token.groups@.len() && #[trigger] token.groups@[g]@ == sd.owner@)
            ||| some & 0x0008_0000 != 0 && token.privileges@.contains(Privilege::SeTakeOwnership)
            ||| some & (mapping.read | 0x0002_0000) != 0 && token.privileges@.contains(
                Privilege::SeBackup,
            )
            ||| some & (mapping.write | 0x000C_0000) != 0 && token.privileges@.contains(
                Privilege::SeRestore,
            )
        },
{
    let (owner, take, backup, restore) = (
        token.holds_sid(sd.owner@),
        token.holds_privilege(Privilege::SeTakeOwnership),
        token.holds_privilege(Privilege::SeBackup),
        token.holds_privilege(Privilege::SeRestore),
    );
    let (read, write) = (mapping.read, mapping.write);
    assert(((crate::masks::bits_if(owner, rights::READ_CONTROL | rights::WRITE_DAC)
        | crate::masks::bits_if(take, rights::WRITE_OWNER) | crate::masks::bits_if(
        backup,
        read | rights::READ_CONTROL,
    ) | crate::masks::bits_if(restore, write | rights::WRITE_DAC | rights::WRITE_OWNER)) & some != 0)
        == ((some & 0x0006_0000u32 != 0 && owner) || (some & 0x0008_0000u32 != 0 && take) || (some
        & (read | 0x0002_0000u32) != 0 && backup) || (some & (write | 0x000C_0000u32) != 0
        && restore))) by (bit_vector);
}

/// An owner without privileges has `READ_CONTROL` and `WRITE_DAC` implicitly and
/// nothing else; who does not own the object and has one privilege has the
/// rights of that privilege and nothing else.
pub proof fn one_source_gives_its_rights_only(
    sd: SecurityDescriptor,
    token: AccessToken,
    mapping: GenericMapping,
)
    ensures
        ({
            let owns = token.user@ == sd.owner@ || exists|g: int|
                0 <= g < token.groups@.len() && #[trigger] token.groups@[g]@ == sd.owner@;
            let implicit = sd.implicit_rights(token, mapping);
            let has = |p: Privilege| token.privileges@.contains(p);
            let (take, backup, restore) = (
                has(Privilege::SeTakeOwnership),
                has(Privilege::SeBackup),
                has(Privilege::SeRestore),
            );
            &&& owns && !take && !backup && !restore ==> implicit == rights::READ_CONTROL
                | rights::WRITE_DAC
            &&& !owns && take && !backup && !restore ==> implicit == rights::WRITE_OWNER
            &&& !owns && !take && backup && !restore ==> implicit == mapping.read
                | rights::READ_CONTROL
            &&& !owns && !take && !backup && restore ==> implicit == mapping.write
                | rights::WRITE_DAC | rights::WRITE_OWNER
            &&& !owns && !take && !backup && !restore ==> implicit == 0
        }),
{
    crate::masks::lemma_mask_units();
}

proof fn lemma_uncovered_bit(
    entries: Seq<Ace>,
    token: AccessToken,
    requested: Option<&Guid>,
    pending: u32,
    bit: u32,
)
    requires
        is_one_right(bit),
    ensures
        uncovered(entries, token, requested, pending) & bit != 0 <==> {
            &&& pending & bit != 0
            &&& forall|k: int|
                0 <= k < entries.len() && (#[trigger] entries[k]).takes_part(token, requested)
                    && entries[k].kind == AceKind::Allowed ==> entries[k].mask & bit == 0
        },
    decreases entries.len(),
{
    if entries.len() > 0 {
        let first = entries[0];
        let rest = entries.drop_first();
        let counts = first.takes_part(token, requested) && first.kind == AceKind::Allowed;
        let covered = crate::masks::bits_if(counts, first.mask);
        crate::masks::lemma_one_bit(bit, pending, covered);
        crate::masks::lemma_mask_units();
        lemma_uncovered_bit(rest, token, requested, pending & !covered, bit);
        if forall|k: int|
            0 <= k < rest.len() && (#[trigger] rest[k]).takes_part(token, requested)
                && rest[k].kind == AceKind::Allowed ==> rest[k].mask & bit == 0 {
            assert forall|k: int|
                0 < k < entries.len() && (#[trigger] entries[k]).takes_part(token, requested)
                    && entries[k].kind == AceKind::Allowed implies entries[k].mask & bit == 0 by {
                assert(rest[k - 1] == entries[k]);
            }
        }
        if forall|k: int|
            0 <= k < entries.len() && (#[trigger] entries[k]).takes_part(token, requested)
                && entries[k].kind == AceKind::Allowed ==> entries[k].mask & bit == 0 {
            assert forall|k: int|
                0 <= k < rest.len() && (#[trigger] rest[k]).takes_part(token, requested)
                    && rest[k].kind == AceKind::Allowed implies rest[k].mask & bit == 0 by {
                assert(rest[k] == entries[k + 1]);
            }
            assert(counts ==> first.mask & bit == 0);
        }
    }
}

/// An entry refuses a request exactly if it is a denying one, takes part, and
/// has a single right in its mask that is pending and that no allowing entry
/// ahead of it, of those that take part, has in its own.
pub proof fn refusal_comes_from_one_right(
    entries: Seq<Ace>,
    at: int,
    token: AccessToken,
    requested: Option<&Guid>,
    pending: u32,
)
    requires
        0 <= at < entries.len(),
    ensures
        denies_at(entries, at, token, requested, pending) <==> {
            &&& entries[at].takes_part(token, requested)
            &&& entries[at].kind == AceKind::Denied
            &&& exists|bit: u32|
                {
                    &&& #[trigger] is_one_right(bit)
                    &&& pending & bit != 0
                    &&& entries[at].mask & bit != 0
                    &&& forall|k: int|
                        0 <= k < at && (#[trigger] entries[k]).takes_part(token, requested)
                            && entries[k].kind == AceKind::Allowed ==> entries[k].mask & bit == 0
                }
        },
{
    let ahead = entries.take(at);
    let left = uncovered(ahead, token, requested, pending);
    let mask = entries[at].mask;
    if left & mask != 0 {
        let (bit, _) = lemma_lowest_right(left & mask);
        crate::masks::lemma_one_bit(bit, left, mask);
        lemma_uncovered_bit(ahead, token, requested, pending, bit);
        assert forall|k: int|
            0 <= k < at && (#[trigger] entries[k]).takes_part(token, requested) && entries[k].kind
                == AceKind::Allowed implies entries[k].mask & bit == 0 by {
            assert(ahead[k] == entries[k]);
        }
        assert(is_one_right(bit));
    } else {
        assert forall|bit: u32|
            {
                &&& #[trigger] is_one_right(bit)
                &&& pending & bit != 0
                &&& mask & bit != 0
                &&& forall|k: int|
                    0 <= k < at && (#[trigger] entries[k]).takes_part(token, requested)
                        && entries[k].kind == AceKind::Allowed ==> entries[k].mask & bit == 0
            } implies false by {
            assert forall|k: int|
                0 <= k < ahead.len() && (#[trigger] ahead[k]).takes_part(token, requested)
                    && ahead[k].kind == AceKind::Allowed implies ahead[k].mask & bit == 0 by {
                assert(ahead[k] == entries[k]);
            }
            lemma_uncovered_bit(ahead, token, requested, pending, bit);
            crate::masks::lemma_one_bit(bit, left, mask);
            crate::masks::lemma_mask_units();
        }
    }
}

/// The entry at `at` is an allowing one that takes part and has `right` in its
/// mask, and no entry ahead of it refuses the request.
pub open spec fn gives_at(
    entries: Seq<Ace>,
    at: int,
    right: u32,
    token: AccessToken,
    requested: Option<&Guid>,
    pending: u32,
) -> bool {
    &&& 0 <= at < entries.len()
    &&& entries[at].takes_part(token, requested)
    &&& entries[at].kind == AceKind::Allowed
    &&& entries[at].mask & right != 0
    &&& forall|j: int| 0 <= j < at ==> !#[trigger] denies_at(entries, j, token, requested, pending)
}

proof fn lemma_granted_right_is_given(
    entries: Seq<Ace>,
    token: AccessToken,
    requested: Option<&Guid>,
    pending: u32,
    right: u32,
)
    requires
        is_one_right(right),
        Acl::entries_grant(entries, token, requested, pending) & right != 0,
    ensures
        exists|at: int| #[trigger] gives_at(entries, at, right, token, requested, pending),
    decreases entries.len(),
{
    crate::masks::lemma_mask_units();
    if entries.len() > 0 {
        let first = entries[0];
        let rest = entries.drop_first();
        let left = uncovered(entries.take(1), token, requested, pending);
        reveal_with_fuel(uncovered, 2);
        assert(entries.take(1).drop_first().len() == 0);
        assert(entries.take(0).len() == 0);
        let more = Acl::entries_grant(rest, token, requested, left);
        let counts = first.takes_part(token, requested) && first.kind == AceKind::Allowed;
        if counts {
            crate::masks::lemma_one_bit(right, pending & first.mask, more);
            crate::masks::lemma_one_bit(right, pending, first.mask);
        }
        if counts && first.mask & right != 0 {
            assert(gives_at(entries, 0, right, token, requested, pending));
        } else {
            lemma_granted_right_is_given(rest, token, requested, left, right);
            let behind = choose|at: int| #[trigger]
                gives_at(rest, at, right, token, requested, left);
            assert forall|j: int| 0 <= j < behind + 1 implies !#[trigger] denies_at(
                entries,
                j,
                token,
                requested,
                pending,
            ) by {
                if j > 0 {
                    lemma_denies_at_rest(entries, j, token, requested, pending);
                    assert(!denies_at(rest, j - 1, token, requested, left));
                }
            }
            assert(gives_at(entries, behind + 1, right, token, requested, pending));
        }
    }
}

/// What the list grants, right by right: a pending right is granted exactly if
/// an allowing entry that takes part has it in its mask and no denying entry
/// ahead of that one refuses the request.
pub proof fn list_grants_what_is_given(
    entries: Seq<Ace>,
    token: AccessToken,
    requested: Option<&Guid>,
    pending: u32,
    right: u32,
)
    requires
        is_one_right(right),
    ensures
        Acl::entries_grant(entries, token, requested, pending) & right != 0 <==> pending & right
            != 0 && exists|at: int| #[trigger]
            gives_at(entries, at, right, token, requested, pending),
{
    let granted = Acl::entries_grant(entries, token, requested, pending);
    crate::check::lemma_entries_grant_within(entries, token, requested, pending);
    crate::masks::lemma_one_bit(right, granted, pending);
    if granted & right != 0 {
        lemma_granted_right_is_given(entries, token, requested, pending, right);
    }
    if pending & right != 0 && exists|at: int| #[trigger]
        gives_at(entries, at, right, token, requested, pending) {
        let at = choose|at: int| #[trigger]
            gives_at(entries, at, right, token, requested, pending);
        lemma_allowed_bits(entries, at, token, requested, pending);
        crate::masks::lemma_one_bit(right, pending, entries[at].mask);
        crate::masks::lemma_one_bit(right, pending & entries[at].mask, granted);
    }
}

/// What a check grants, right by right: a right is granted exactly if it is
/// asked for, the label does not withhold it, and it is implicit, or there is no
/// DACL, or the DACL gives it in view of all that is asked for and neither
/// withheld nor implicit.
pub proof fn granted_right_by_right(
    sd: SecurityDescriptor,
    token: AccessToken,
    desired: u32,
    requested: Option<&Guid>,
    mapping: GenericMapping,
    right: u32,
)
    requires
        is_one_right(right),
    ensures
        sd.decision(token, desired, requested, mapping).granted & right != 0 <==> {
            &&& mapping.mapped(desired) & right != 0
            &&& sd.withheld(token) & right == 0
            &&& {
                ||| sd.implicit_rights(token, mapping) & right != 0
                ||| sd.dacl is Null
                ||| sd.dacl is Entries && exists|at: int| #[trigger]
                    gives_at(
                        sd.dacl->Entries_0@,
                        at,
                        right,
                        token,
                        requested,
                        mapping.mapped(desired) & !sd.withheld(token) & !sd.implicit_rights(
                            token,
                            mapping,
                        ),
                    )
            }
        },
{
    let wanted = mapping.mapped(desired);
    let (withheld, implicit) = (sd.withheld(token), sd.implicit_rights(token, mapping));
    let open = wanted & !withheld;
    let pending = open & !implicit;
    let by_dacl = sd.dacl.grants(token, requested, pending);
    crate::masks::lemma_one_bit(right, wanted, withheld);
    crate::masks::lemma_one_bit(right, open, implicit);
    crate::masks::lemma_one_bit(right, open & implicit, by_dacl);
    if let Acl::Entries(entries) = sd.dacl {
        list_grants_what_is_given(entries@, token, requested, pending, right);
    }
}

proof fn lemma_refusal_ends_reading(
    entries: Seq<Ace>,
    at: int,
    token: AccessToken,
    requested: Option<&Guid>,
    pending: u32,
)
    requires
        0 <= at < entries.len(),
        denies_at(entries, at, token, requested, pending),
    ensures
        Acl::entries_grant(entries, token, requested, pending) == Acl::entries_grant(
            entries.take(at),
            token,
            requested,
            pending,
        ),
    decreases at,
{
    if at > 0 {
        let rest = entries.drop_first();
        reveal_with_fuel(uncovered, 2);
        assert(entries.take(1).drop_first().len() == 0);
        crate::masks::lemma_mask_units();
        lemma_denies_at_rest(entries, at, token, requested, pending);
        assert(entries.take(at).drop_first() =~= rest.take(at - 1));
        lemma_refusal_ends_reading(
            rest,
            at - 1,
            token,
            requested,
            uncovered(entries.take(1), token, requested, pending),
        );
    }
}

/// A denying entry that refuses the request ends the reading of the list: the
/// decision is a refusal, and the same as if the list ended ahead of that entry.
pub proof fn nothing_behind_a_refusal_counts(
    sd: SecurityDescriptor,
    shorter: SecurityDescriptor,
    at: int,
    token: AccessToken,
    desired: u32,
    requested: Option<&Guid>,
    mapping: GenericMapping,
)
    requires
        shorter.owner@ == sd.owner@,
        shorter.mandatory_label == sd.mandatory_label,
        sd.dacl is Entries,
        shorter.dacl is Entries,
        0 <= at < sd.dacl->Entries_0@.len(),
        shorter.dacl->Entries_0@ == sd.dacl->Entries_0@.take(at),
        denies_at(
            sd.dacl->Entries_0@,
            at,
            token,
            requested,
            mapping.mapped(desired) & !sd.withheld(token) & !sd.implicit_rights(token, mapping),
        ),
    ensures
        shorter.decision(token, desired, requested, mapping) == sd.decision(
            token,
            desired,
            requested,
            mapping,
        ),
        !sd.decision(token, desired, requested, mapping).allowed,
{
    let entries = sd.dacl->Entries_0@;
    let wanted = mapping.mapped(desired);
    let (withheld, implicit) = (sd.withheld(token), sd.implicit_rights(token, mapping));
    let pending = wanted & !withheld & !implicit;
    lemma_refusal_ends_reading(entries, at, token, requested, pending);
    refusal_comes_from_one_right(entries, at, token, requested, pending);
    let bit = choose|bit: u32|
        {
            &&& #[trigger] is_one_right(bit)
            &&& pending & bit != 0
            &&& entries[at].mask & bit != 0
            &&& forall|k: int|
                0 <= k < at && (#[trigger] entries[k]).takes_part(token, requested)
                    && entries[k].kind == AceKind::Allowed ==> entries[k].mask & bit == 0
        };
    granted_right_by_right(sd, token, desired, requested, mapping, bit);
    crate::masks::lemma_one_bit(bit, wanted, withheld);
    crate::masks::lemma_one_bit(bit, wanted & !withheld, implicit);
    assert forall|k: int| !#[trigger] gives_at(entries, k, bit, token, requested, pending) by {
        if gives_at(entries, k, bit, token, requested, pending) && at < k {
            assert(!denies_at(entries, at, token, requested, pending));
        }
    }
}

} // verus!
