//! The access check.

use crate::ace::{Ace, AceKind, Acl};
use crate::descriptor::SecurityDescriptor;
use crate::guid::Guid;
use crate::mapping::GenericMapping;
use crate::rights;
use crate::token::{AccessToken, Privilege};
use vstd::prelude::*;

verus! {

/// The result of an access check.
#[derive(Clone, Copy, Debug, PartialEq, Eq, Structural)]
pub struct Decision {
    /// Every desired bit was granted. (A request for nothing is not granted.)
    pub allowed: bool,
    /// The bits actually granted.
    pub granted: u32,
    /// Desired bits that were denied or never granted (including bits blocked
    /// by the mandatory-integrity rule).
    pub still_denied: u32,
}

impl Acl {
    /// The bits of `pending` that a list of entries grants to `token`.
    ///
    /// The entries are read in order. One that does not take part is skipped. An
    /// allowing one grants the pending bits in its mask, which are then no longer
    /// pending. A denying one that has a pending bit in its mask ends the reading.
    pub open spec fn entries_grant(
        entries: Seq<Ace>,
        token: AccessToken,
        requested: Option<&Guid>,
        pending: u32,
    ) -> u32
        decreases entries.len(),
    {
        if entries.len() == 0 {
            0
        } else {
            let first = entries[0];
            let rest = entries.drop_first();
            if !first.takes_part(token, requested) {
                Acl::entries_grant(rest, token, requested, pending)
            } else if first.kind == AceKind::Allowed {
                (pending & first.mask) | Acl::entries_grant(
                    rest,
                    token,
                    requested,
                    pending & !first.mask,
                )
            } else if pending & first.mask != 0 {
                0
            } else {
                Acl::entries_grant(rest, token, requested, pending)
            }
        }
    }

    /// The bits of `pending` that the list grants to `token`: all of them
    /// where there is no list.
    pub open spec fn grants(
        self,
        token: AccessToken,
        requested: Option<&Guid>,
        pending: u32,
    ) -> u32 {
        match self {
            Acl::Null => pending,
            Acl::Entries(entries) => Acl::entries_grant(entries@, token, requested, pending),
        }
    }
}

impl SecurityDescriptor {
    /// The integrity of `token` is below the object's mandatory label.
    pub open spec fn is_above(self, token: AccessToken) -> bool {
        self.mandatory_label matches Some(label) && token.integrity.rank() < label.rank()
    }

    /// The rights that the mandatory label withholds from `token`.
    pub open spec fn withheld(self, token: AccessToken) -> u32 {
        crate::masks::bits_if(self.is_above(token), rights::WRITE_CLASS)
    }

    /// The rights that `token` has whatever the DACL says: as the owner, and
    /// through its privileges.
    pub open spec fn implicit_rights(self, token: AccessToken, mapping: GenericMapping) -> u32 {
        crate::masks::bits_if(
            token.holds_sid(self.owner@),
            rights::READ_CONTROL | rights::WRITE_DAC,
        ) | crate::masks::bits_if(
            token.holds_privilege(Privilege::SeTakeOwnership),
            rights::WRITE_OWNER,
        ) | crate::masks::bits_if(
            token.holds_privilege(Privilege::SeBackup),
            mapping.read | rights::READ_CONTROL,
        ) | crate::masks::bits_if(
            token.holds_privilege(Privilege::SeRestore),
            mapping.write | rights::WRITE_DAC | rights::WRITE_OWNER,
        )
    }

    /// The bits of `wanted` (no generic ones) that `token` obtains: those that
    /// the label does not withhold and that are implicit or that the DACL
    /// grants.
    pub open spec fn obtained(
        self,
        token: AccessToken,
        wanted: u32,
        requested: Option<&Guid>,
        mapping: GenericMapping,
    ) -> u32 {
        let open = wanted & !self.withheld(token);
        let implicit = self.implicit_rights(token, mapping);
        (open & implicit) | self.dacl.grants(token, requested, open & !implicit)
    }

    /// The decision on a request of `token` for the rights `desired`, where
    /// `requested` is the object type of the request, if it has one.
    pub open spec fn decision(
        self,
        token: AccessToken,
        desired: u32,
        requested: Option<&Guid>,
        mapping: GenericMapping,
    ) -> Decision {
        let wanted = mapping.mapped(desired);
        let granted = self.obtained(token, wanted, requested, mapping);
        Decision {
            allowed: wanted != 0 && granted == wanted,
            granted,
            still_denied: wanted & !granted,
        }
    }
}

/// What a list grants was pending.
pub proof fn lemma_entries_grant_within(
    entries: Seq<Ace>,
    token: AccessToken,
    requested: Option<&Guid>,
    pending: u32,
)
    ensures
        Acl::entries_grant(entries, token, requested, pending) & pending == Acl::entries_grant(
            entries,
            token,
            requested,
            pending,
        ),
    decreases entries.len(),
{
    crate::masks::lemma_mask_units();
    if entries.len() > 0 {
        let mask = entries[0].mask;
        let rest = entries.drop_first();
        lemma_entries_grant_within(rest, token, requested, pending);
        lemma_entries_grant_within(rest, token, requested, pending & !mask);
        let more = Acl::entries_grant(rest, token, requested, pending & !mask);
        assert(((pending & mask) | more) & pending == (pending & mask) | more) by (bit_vector)
            requires
                more & (pending & !mask) == more,
        ;
    }
}

/// Granting `bits` on top of `given` is granting both.
proof fn lemma_grant_more(open: u32, given: u32, bits: u32)
    ensures
        (open & given) | ((open & !given) & bits) == open & (given | bits),
        (open & !given) & !bits == open & !(given | bits),
{
    assert((open & given) | ((open & !given) & bits) == open & (given | bits)
        && (open & !given) & !bits == open & !(given | bits)) by (bit_vector);
}

/// What is neither obtained nor withheld is left over.
proof fn lemma_account(wanted: u32, withheld: u32, implicit: u32, by_dacl: u32)
    requires
        by_dacl & ((wanted & !withheld) & !implicit) == by_dacl,
    ensures
        ({
            let open = wanted & !withheld;
            let obtained = (open & implicit) | by_dacl;
            let left = (open & !implicit) & !by_dacl;
            &&& left | (wanted & withheld) == wanted & !obtained
            &&& obtained == wanted <==> left == 0 && wanted & withheld == 0
        }),
{
    let open = wanted & !withheld;
    let obtained = (open & implicit) | by_dacl;
    let left = (open & !implicit) & !by_dacl;
    assert(left | (wanted & withheld) == wanted & !obtained && (obtained == wanted) == (left == 0
        && wanted & withheld == 0)) by (bit_vector)
        requires
            open == wanted & !withheld,
            obtained == (open & implicit) | by_dacl,
            left == (open & !implicit) & !by_dacl,
            by_dacl & ((wanted & !withheld) & !implicit) == by_dacl,
    ;
}

/// Moves the bits of `remaining` that are in `bits` to `granted`.
fn grant(bits: u32, remaining: &mut u32, granted: &mut u32)
    ensures
        *final(granted) == *old(granted) | (*old(remaining) & bits),
        *final(remaining) == *old(remaining) & !bits,
{
    let hit: u32 = bits & *remaining;
    proof {
        let r = *remaining;
        assert(hit == r & bits && r & !hit == r & !bits) by (bit_vector)
            requires
                hit == bits & r,
        ;
    }
    *granted |= hit;
    *remaining &= !hit;
}

/// Moves the bits of `remaining` that the entries grant to `granted`. What is
/// then left in `remaining` was denied or never granted.
fn grant_by_entries(
    aces: &Vec<Ace>,
    token: &AccessToken,
    requested: Option<&Guid>,
    remaining: &mut u32,
    granted: &mut u32,
)
    ensures
        *final(granted) == *old(granted) | Acl::entries_grant(
            aces@,
            *token,
            requested,
            *old(remaining),
        ),
        *final(remaining) == *old(remaining) & !Acl::entries_grant(
            aces@,
            *token,
            requested,
            *old(remaining),
        ),
{
    proof {
        crate::masks::lemma_mask_units();
    }
    let ghost total = Acl::entries_grant(aces@, *token, requested, *remaining);
    let mut i: usize = 0;
    assert(aces@.skip(0) =~= aces@);
    while i < aces.len()
        invariant
            i <= aces@.len(),
            total == Acl::entries_grant(aces@, *token, requested, *old(remaining)),
            *granted | Acl::entries_grant(aces@.skip(i as int), *token, requested, *remaining)
                == *old(granted) | total,
            *remaining & !Acl::entries_grant(aces@.skip(i as int), *token, requested, *remaining)
                == *old(remaining) & !total,
        decreases aces@.len() - i,
    {
        let ghost (left, done) = (*remaining, *granted);
        let ghost rest = aces@.skip(i + 1);
        assert(aces@.skip(i as int).drop_first() =~= rest);
        proof {
            crate::masks::lemma_mask_units();
        }
        if *remaining == 0 {
            proof {
                lemma_entries_grant_within(aces@.skip(i as int), *token, requested, 0);
            }
            return ;
        }
        let ace: &Ace = &aces[i];
        let ghost mask = ace.mask;
        if ace.applies(token, requested) {
            match ace.kind {
                AceKind::Denied => {
                    let hit: u32 = ace.mask & *remaining;
                    assert(mask & left == left & mask) by (bit_vector);
                    // A denied bit refuses the request as a whole: all that
                    // still remains is either denied here or never granted.
                    if hit != 0 {
                        return ;
                    }
                },
                AceKind::Allowed => {
                    proof {
                        let more = Acl::entries_grant(rest, *token, requested, left & !mask);
                        assert((done | (left & mask)) | more == done | ((left & mask) | more) && (
                        left & !mask) & !more == left & !((left & mask) | more)) by (bit_vector);
                    }
                    grant(ace.mask, remaining, granted);
                },
            }
        }
        i += 1;
    }
}

/// Compute resultant access for `desired` rights with no object-type context:
/// an entry that carries an object type does not take part. `desired` may
/// contain generic bits; they are mapped through `mapping` first.
pub fn access_check(
    sd: &SecurityDescriptor,
    token: &AccessToken,
    desired: u32,
    mapping: &GenericMapping,
) -> (decision: Decision)
    ensures
        decision == sd.decision(*token, desired, None, *mapping),
{
    check(sd, token, desired, None, mapping)
}

/// Compute resultant access for `desired` rights **against a specific object
/// type** — the AD query for property-set / extended-right / control-access
/// rights, as in Windows `AccessCheckByType`. An object ACE applies only
/// when its `ObjectType` equals `object_type` (or it has none); a plain ACE
/// always applies.
pub fn access_check_object(
    sd: &SecurityDescriptor,
    token: &AccessToken,
    desired: u32,
    object_type: &Guid,
    mapping: &GenericMapping,
) -> (decision: Decision)
    ensures
        decision == sd.decision(*token, desired, Some(object_type), *mapping),
{
    check(sd, token, desired, Some(object_type), mapping)
}

fn check(
    sd: &SecurityDescriptor,
    token: &AccessToken,
    desired: u32,
    requested: Option<&Guid>,
    mapping: &GenericMapping,
) -> (decision: Decision)
    ensures
        decision == sd.decision(*token, desired, requested, *mapping),
{
    let desired: u32 = mapping.map(desired);
    let ghost withheld = sd.withheld(*token);
    let ghost open = desired & !withheld;
    let ghost implicit = sd.implicit_rights(*token, *mapping);
    let ghost by_dacl = sd.dacl.grants(*token, requested, open & !implicit);
    proof {
        if let Acl::Entries(aces) = &sd.dacl {
            lemma_entries_grant_within(aces@, *token, requested, open & !implicit);
        }
        crate::masks::lemma_mask_units();
    }
    // A zero mask is not a valid request: Windows `AccessCheck` answers it with
    // `ERROR_ACCESS_DENIED`.
    if desired == 0 {
        return Decision { allowed: false, granted: 0, still_denied: 0 };
    }
    let mut remaining: u32 = desired;
    let mut granted: u32 = 0;

    // Mandatory integrity (no-write-up): a subject below the object's label
    // cannot obtain write-class rights. Set those aside up front.
    let mut blocked: u32 = 0;
    if let Some(label) = sd.mandatory_label {
        if token.integrity < label {
            blocked = remaining & rights::WRITE_CLASS;
            remaining &= !blocked;
        }
    }
    assert(blocked == desired & withheld && remaining == open) by {
        assert(desired & !(desired & withheld) == desired & !withheld) by (bit_vector);
    }
    let ghost mut given: u32 = 0;

    // Owner gets READ_CONTROL + WRITE_DAC implicitly.
    if token.owns(&sd.owner) {
        grant(rights::READ_CONTROL | rights::WRITE_DAC, &mut remaining, &mut granted);
        proof {
            lemma_grant_more(open, given, rights::READ_CONTROL | rights::WRITE_DAC);
            given = given | (rights::READ_CONTROL | rights::WRITE_DAC);
        }
    }
    // Minimal privilege model (simplified vs. the real open-intent semantics).
    if token.has(Privilege::SeTakeOwnership) {
        grant(rights::WRITE_OWNER, &mut remaining, &mut granted);
        proof {
            lemma_grant_more(open, given, rights::WRITE_OWNER);
            given = given | rights::WRITE_OWNER;
        }
    }
    if token.has(Privilege::SeBackup) {
        grant(mapping.read | rights::READ_CONTROL, &mut remaining, &mut granted);
        proof {
            lemma_grant_more(open, given, mapping.read | rights::READ_CONTROL);
            given = given | (mapping.read | rights::READ_CONTROL);
        }
    }
    if token.has(Privilege::SeRestore) {
        grant(
            mapping.write | rights::WRITE_DAC | rights::WRITE_OWNER,
            &mut remaining,
            &mut granted,
        );
        proof {
            lemma_grant_more(open, given, mapping.write | rights::WRITE_DAC | rights::WRITE_OWNER);
            given = given | (mapping.write | rights::WRITE_DAC | rights::WRITE_OWNER);
        }
    }
    assert(given == implicit);

    match &sd.dacl {
        Acl::Null => {
            let all: u32 = remaining;
            grant(all, &mut remaining, &mut granted);
        },
        Acl::Entries(aces) => {
            grant_by_entries(aces, token, requested, &mut remaining, &mut granted);
        },
    }
    proof {
        lemma_account(desired, withheld, implicit, by_dacl);
    }

    Decision {
        allowed: remaining == 0 && blocked == 0,
        granted,
        still_denied: remaining | blocked,
    }
}

} // verus!
