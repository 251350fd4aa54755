//! Subject access tokens.

use crate::integrity::IntegrityLevel;
use crate::Sid;
use vstd::prelude::*;

verus! {

/// Token privileges that override or short-circuit the DACL.
#[derive(Clone, Copy, Debug, PartialEq, Eq, Structural)]
pub enum Privilege {
    /// `SeBackupPrivilege` — grants the mapping's read rights + READ_CONTROL
    /// regardless of DACL.
    SeBackup,
    /// `SeRestorePrivilege` — grants the mapping's write rights + WRITE_DAC +
    /// WRITE_OWNER regardless of DACL.
    SeRestore,
    /// `SeTakeOwnershipPrivilege` — grants WRITE_OWNER regardless of DACL.
    SeTakeOwnership,
}

/// A claim value carried by a token (simplified: string or integer).
#[derive(Debug, Eq)]
pub enum ClaimValue {
    /// String-valued claim.
    Str(String),
    /// Integer-valued claim.
    Int(i64),
}

/// What a [`ClaimValue`] stands for.
pub enum ClaimView {
    /// The characters of a string-valued claim.
    Str(Seq<char>),
    /// The number of an integer-valued claim.
    Int(int),
}

impl View for ClaimValue {
    type V = ClaimView;

    open spec fn view(&self) -> ClaimView {
        match self {
            ClaimValue::Str(s) => ClaimView::Str(s@),
            ClaimValue::Int(n) => ClaimView::Int(*n as int),
        }
    }
}

impl Clone for ClaimValue {
    fn clone(&self) -> (copy: Self)
        ensures
            copy == *self,
    {
        match self {
            ClaimValue::Str(s) => ClaimValue::Str(s.clone()),
            ClaimValue::Int(n) => ClaimValue::Int(*n),
        }
    }
}

impl PartialEq for ClaimValue {
    fn eq(&self, other: &Self) -> (same: bool) {
        match (self, other) {
            (ClaimValue::Str(a), ClaimValue::Str(b)) => *a == *b,
            (ClaimValue::Int(a), ClaimValue::Int(b)) => *a == *b,
            _ => false,
        }
    }
}

impl vstd::std_specs::cmp::PartialEqSpecImpl for ClaimValue {
    open spec fn obeys_eq_spec() -> bool {
        true
    }

    open spec fn eq_spec(&self, other: &Self) -> bool {
        self@ == other@
    }
}

/// A subject access token: user SID, group memberships, privileges,
/// integrity level, and named claims.
#[derive(Clone, Debug)]
pub struct AccessToken {
    /// User SID.
    pub user: Sid,
    /// Group SIDs the token holds (including built-ins like Authenticated Users).
    pub groups: Vec<Sid>,
    /// Enabled privileges.
    pub privileges: Vec<Privilege>,
    /// Token's mandatory integrity level.
    pub integrity: IntegrityLevel,
    /// Named claims (for conditional-ACE evaluation).
    pub claims: Vec<(String, ClaimValue)>,
}

/// The value of the first claim called `name`, if there is one.
pub open spec fn first_claim(claims: Seq<(String, ClaimValue)>, name: Seq<char>) -> Option<
    ClaimView,
>
    decreases claims.len(),
{
    if claims.len() == 0 {
        None
    } else if claims[0].0@ == name {
        Some(claims[0].1@)
    } else {
        first_claim(claims.drop_first(), name)
    }
}

/// A claim at the end counts only where no claim before it has its name.
proof fn lemma_first_claim_push(
    claims: Seq<(String, ClaimValue)>,
    claim: (String, ClaimValue),
    name: Seq<char>,
)
    ensures
        first_claim(claims.push(claim), name) == (if first_claim(claims, name) is Some || claim.0@
            != name {
            first_claim(claims, name)
        } else {
            Some(claim.1@)
        }),
    decreases claims.len(),
{
    reveal_with_fuel(first_claim, 2);
    if claims.len() > 0 {
        assert(claims.push(claim).drop_first() =~= claims.drop_first().push(claim));
        lemma_first_claim_push(claims.drop_first(), claim, name);
    }
}

impl AccessToken {
    /// `sid` is the user of the token or one of its groups.
    pub open spec fn holds_sid(self, sid: Seq<char>) -> bool {
        ||| self.user@ == sid
        ||| exists|i: int| 0 <= i < self.groups@.len() && #[trigger] self.groups@[i]@ == sid
    }

    /// The token has `privilege` enabled.
    pub open spec fn holds_privilege(self, privilege: Privilege) -> bool {
        self.privileges@.contains(privilege)
    }

    /// The value of the claim called `name`; the first one counts where a name
    /// was attached more than once.
    pub open spec fn claim_value(self, name: Seq<char>) -> Option<ClaimView> {
        first_claim(self.claims@, name)
    }

    /// The two tokens hold the same SIDs, be it as user or as group.
    pub open spec fn same_sids(self, other: AccessToken) -> bool {
        forall|sid: Seq<char>| #[trigger] self.holds_sid(sid) == other.holds_sid(sid)
    }

    /// Every claim has the same value in the two tokens.
    pub open spec fn same_claims(self, other: AccessToken) -> bool {
        forall|name: Seq<char>| #[trigger] self.claim_value(name) == other.claim_value(name)
    }

    /// The two tokens have the same privileges enabled.
    pub open spec fn same_privileges(self, other: AccessToken) -> bool {
        forall|p: Privilege| #[trigger] self.holds_privilege(p) == other.holds_privilege(p)
    }

    /// A Medium-integrity token with no privileges or claims.
    pub fn new(user: &str, groups: &[&str]) -> (token: AccessToken)
        ensures
            token.user@ == user@,
            token.groups@.len() == groups@.len(),
            forall|i: int| 0 <= i < groups@.len() ==> #[trigger] token.groups@[i]@ == groups@[i]@,
            token.privileges@ == Seq::<Privilege>::empty(),
            token.integrity == IntegrityLevel::Medium,
            token.claims@ == Seq::<(String, ClaimValue)>::empty(),
    {
        let mut sids: Vec<Sid> = Vec::new();
        let mut i: usize = 0;
        while i < groups.len()
            invariant
                i <= groups@.len(),
                sids@.len() == i,
                forall|j: int| 0 <= j < i ==> #[trigger] sids@[j]@ == groups@[j]@,
            decreases groups@.len() - i,
        {
            sids.push(groups[i].to_owned());
            i += 1;
        }
        AccessToken {
            user: user.to_owned(),
            groups: sids,
            privileges: Vec::new(),
            integrity: IntegrityLevel::Medium,
            claims: Vec::new(),
        }
    }

    /// Grant the token a set of privileges, in place of those it had.
    pub fn with_privileges(self, privs: &[Privilege]) -> (token: AccessToken)
        ensures
            token.privileges@ == privs@,
            token.user == self.user,
            token.groups == self.groups,
            token.integrity == self.integrity,
            token.claims == self.claims,
    {
        AccessToken { privileges: vstd::slice::slice_to_vec(privs), ..self }
    }

    /// Set the token's mandatory integrity level.
    pub fn with_integrity(self, level: IntegrityLevel) -> (token: AccessToken)
        ensures
            token == (AccessToken { integrity: level, ..self }),
    {
        AccessToken { integrity: level, ..self }
    }

    /// Attach a named claim to the token (for conditional-ACE evaluation).
    pub fn with_claim(self, name: &str, value: ClaimValue) -> (token: AccessToken)
        ensures
            token.claims@.len() == self.claims@.len() + 1,
            token.claims@.drop_last() == self.claims@,
            token.claims@.last().0@ == name@,
            token.claims@.last().1 == value,
            forall|n: Seq<char>| #[trigger]
                token.claim_value(n) == (if self.claim_value(n) is Some || n != name@ {
                    self.claim_value(n)
                } else {
                    Some(value@)
                }),
            token.user == self.user,
            token.groups == self.groups,
            token.privileges == self.privileges,
            token.integrity == self.integrity,
    {
        let mut claims: Vec<(String, ClaimValue)> = self.claims;
        let ghost before = claims@;
        claims.push((name.to_owned(), value));
        proof {
            assert forall|n: Seq<char>| #[trigger]
                first_claim(claims@, n) == (if first_claim(before, n) is Some || n != name@ {
                    first_claim(before, n)
                } else {
                    Some(value@)
                }) by {
                lemma_first_claim_push(before, claims@.last(), n);
            }
        }
        AccessToken { claims, ..self }
    }

    pub(crate) fn contains_sid(&self, sid: &Sid) -> (held: bool)
        ensures
            held == self.holds_sid(sid@),
    {
        if self.user == *sid {
            return true;
        }
        let mut i: usize = 0;
        while i < self.groups.len()
            invariant
                i <= self.groups@.len(),
                self.user@ != sid@,
                forall|j: int| 0 <= j < i ==> #[trigger] self.groups@[j]@ != sid@,
            decreases self.groups@.len() - i,
        {
            if self.groups[i] == *sid {
                return true;
            }
            i += 1;
        }
        false
    }

    pub(crate) fn contains_all(&self, sids: &Vec<Sid>) -> (held: bool)
        ensures
            held == forall|i: int| 0 <= i < sids@.len() ==> self.holds_sid(#[trigger] sids@[i]@),
    {
        let mut i: usize = 0;
        while i < sids.len()
            invariant
                i <= sids@.len(),
                forall|j: int| 0 <= j < i ==> self.holds_sid(#[trigger] sids@[j]@),
            decreases sids@.len() - i,
        {
            if !self.contains_sid(&sids[i]) {
                return false;
            }
            i += 1;
        }
        true
    }

    pub(crate) fn contains_any(&self, sids: &Vec<Sid>) -> (held: bool)
        ensures
            held == exists|i: int| 0 <= i < sids@.len() && self.holds_sid(#[trigger] sids@[i]@),
    {
        let mut i: usize = 0;
        while i < sids.len()
            invariant
                i <= sids@.len(),
                forall|j: int| 0 <= j < i ==> !self.holds_sid(#[trigger] sids@[j]@),
            decreases sids@.len() - i,
        {
            if self.contains_sid(&sids[i]) {
                return true;
            }
            i += 1;
        }
        false
    }

    pub(crate) fn owns(&self, owner: &Sid) -> (held: bool)
        ensures
            held == self.holds_sid(owner@),
    {
        self.contains_sid(owner)
    }

    pub(crate) fn has(&self, p: Privilege) -> (held: bool)
        ensures
            held == self.holds_privilege(p),
    {
        let mut i: usize = 0;
        while i < self.privileges.len()
            invariant
                i <= self.privileges@.len(),
                forall|j: int| 0 <= j < i ==> #[trigger] self.privileges@[j] != p,
            decreases self.privileges@.len() - i,
        {
            if self.privileges[i] == p {
                return true;
            }
            i += 1;
        }
        false
    }

    pub(crate) fn claim(&self, name: &String) -> (value: Option<&ClaimValue>)
        ensures
            match value {
                Some(v) => self.claim_value(name@) == Some(v@),
                None => self.claim_value(name@) is None,
            },
    {
        let mut i: usize = 0;
        assert(self.claims@.skip(0) =~= self.claims@);
        while i < self.claims.len()
            invariant
                i <= self.claims@.len(),
                self.claim_value(name@) == first_claim(self.claims@.skip(i as int), name@),
            decreases self.claims@.len() - i,
        {
            if self.claims[i].0 == *name {
                return Some(&self.claims[i].1);
            }
            assert(self.claims@.skip(i as int).drop_first() =~= self.claims@.skip(i + 1));
            i += 1;
        }
        None
    }
}

impl AccessToken {
    /// A token holds its user and each of its groups, wherever in the list it
    /// stands, and no other SID.
    pub proof fn holds_user_and_groups_only(self, sid: Seq<char>)
        ensures
            self.holds_sid(self.user@),
            forall|i: int| 0 <= i < self.groups@.len() ==> self.holds_sid(#[trigger] self.groups@[i]@),
            self.user@ != sid && (forall|i: int|
                0 <= i < self.groups@.len() ==> #[trigger] self.groups@[i]@ != sid)
                ==> !self.holds_sid(sid),
    {
    }

    /// A token holds each privilege in its list, wherever it stands, and no
    /// other one.
    pub proof fn holds_listed_privileges_only(self, privilege: Privilege)
        ensures
            forall|i: int|
                0 <= i < self.privileges@.len() ==> self.holds_privilege(
                    #[trigger] self.privileges@[i],
                ),
            (forall|i: int|
                0 <= i < self.privileges@.len() ==> #[trigger] self.privileges@[i] != privilege)
                ==> !self.holds_privilege(privilege),
    {
    }

    /// The value of a claim is that of the first claim that bears the name.
    pub proof fn first_claim_of_a_name_counts(self, at: int)
        requires
            0 <= at < self.claims@.len(),
            forall|j: int| 0 <= j < at ==> (#[trigger] self.claims@[j]).0@ != self.claims@[at].0@,
        ensures
            self.claim_value(self.claims@[at].0@) == Some(self.claims@[at].1@),
    {
        lemma_first_claim_at(self.claims@, at);
    }

    /// A name that no claim bears has no value.
    pub proof fn unnamed_claim_has_no_value(self, name: Seq<char>)
        requires
            forall|j: int| 0 <= j < self.claims@.len() ==> (#[trigger] self.claims@[j]).0@ != name,
        ensures
            self.claim_value(name) is None,
    {
        lemma_no_first_claim(self.claims@, name);
    }
}

proof fn lemma_first_claim_at(claims: Seq<(String, ClaimValue)>, at: int)
    requires
        0 <= at < claims.len(),
        forall|j: int| 0 <= j < at ==> (#[trigger] claims[j]).0@ != claims[at].0@,
    ensures
        first_claim(claims, claims[at].0@) == Some(claims[at].1@),
    decreases at,
{
    if at > 0 {
        let rest = claims.drop_first();
        assert forall|j: int| 0 <= j < at - 1 implies (#[trigger] rest[j]).0@ != rest[at - 1].0@ by {
            assert(rest[j] == claims[j + 1]);
        }
        lemma_first_claim_at(rest, at - 1);
        assert(claims[0].0@ != claims[at].0@);
    }
}

proof fn lemma_no_first_claim(claims: Seq<(String, ClaimValue)>, name: Seq<char>)
    requires
        forall|j: int| 0 <= j < claims.len() ==> (#[trigger] claims[j]).0@ != name,
    ensures
        first_claim(claims, name) is None,
    decreases claims.len(),
{
    if claims.len() > 0 {
        let rest = claims.drop_first();
        assert forall|j: int| 0 <= j < rest.len() implies (#[trigger] rest[j]).0@ != name by {
            assert(rest[j] == claims[j + 1]);
        }
        lemma_no_first_claim(rest, name);
    }
}

impl ClaimValue {
    /// Claim values are equal exactly if both are strings with the same
    /// characters or both are the same integer; a string equals no integer.
    pub proof fn equal_claims_have_equal_contents(self, other: ClaimValue)
        ensures
            self@ == other@ <==> match (self, other) {
                (ClaimValue::Str(a), ClaimValue::Str(b)) => a@ == b@,
                (ClaimValue::Int(a), ClaimValue::Int(b)) => a == b,
                _ => false,
            },
            vstd::std_specs::cmp::PartialEqSpec::eq_spec(&self, &other) <==> self@ == other@,
    {
    }
}

} // verus!
