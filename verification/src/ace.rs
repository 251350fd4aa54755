//! Access-control entries and lists.

use crate::ace_flags;
use crate::condition::Condition;
use crate::guid::Guid;
use crate::token::AccessToken;
use crate::Sid;
use vstd::prelude::*;

verus! {

/// Whether an ACE grants access (ALLOW) or denies it (DENY).
#[derive(Clone, Copy, Debug, PartialEq, Eq, Structural)]
pub enum AceKind {
    /// `ACCESS_ALLOWED` — grants the mask bits.
    Allowed,
    /// `ACCESS_DENIED` — denies the mask bits (checked before Allowed in canonical order).
    Denied,
}

/// One access-control entry.
#[derive(Clone, Debug, PartialEq, Eq)]
pub struct Ace {
    /// ALLOW or DENY.
    pub kind: AceKind,
    /// Trustee SID.
    pub sid: Sid,
    /// Access-rights mask this ACE grants or denies.
    pub mask: u32,
    /// Conditional guard (`Condition::Always` for a plain ACE).
    pub condition: Condition,
    /// Inheritance flags (see [`ace_flags`]). `0` for a plain, non-inherited ACE.
    pub flags: u8,
    /// Object-type GUID for `ACCESS_ALLOWED_OBJECT` / `_DENIED_OBJECT` ACEs.
    /// `None` = a plain ACE that grants/denies on the object as a whole.
    pub object_type: Option<Guid>,
}

impl Ace {
    /// The entry is for children of the object only.
    pub open spec fn inherit_only(self) -> bool {
        self.flags & ace_flags::INHERIT_ONLY != 0
    }

    /// The entry concerns a request for the object type `requested` (`None` in
    /// a plain check): it has no object type of its own, or the requested one.
    pub open spec fn concerns(self, requested: Option<&Guid>) -> bool {
        match self.object_type {
            None => true,
            Some(own) => requested matches Some(wanted) && wanted@ == own@,
        }
    }

    /// The entry takes part in a check of `token` for `requested`.
    pub open spec fn takes_part(self, token: AccessToken, requested: Option<&Guid>) -> bool {
        &&& !self.inherit_only()
        &&& token.holds_sid(self.sid@)
        &&& self.condition.holds(token)
        &&& self.concerns(requested)
    }

    /// Shorthand for a plain `ACCESS_ALLOWED` ACE with no condition.
    pub fn allow(sid: &str, mask: u32) -> (ace: Ace)
        ensures
            ace.kind == AceKind::Allowed,
            ace.sid@ == sid@,
            ace.mask == mask,
            ace.condition == Condition::Always,
            ace.flags == 0,
            ace.object_type is None,
    {
        Ace::new(AceKind::Allowed, sid, mask, Condition::Always)
    }

    /// Shorthand for a plain `ACCESS_DENIED` ACE with no condition.
    pub fn deny(sid: &str, mask: u32) -> (ace: Ace)
        ensures
            ace.kind == AceKind::Denied,
            ace.sid@ == sid@,
            ace.mask == mask,
            ace.condition == Condition::Always,
            ace.flags == 0,
            ace.object_type is None,
    {
        Ace::new(AceKind::Denied, sid, mask, Condition::Always)
    }

    /// Build an ACE from the four core fields (flags `0`, no object type).
    pub fn new(kind: AceKind, sid: &str, mask: u32, condition: Condition) -> (ace: Ace)
        ensures
            ace.kind == kind,
            ace.sid@ == sid@,
            ace.mask == mask,
            ace.condition == condition,
            ace.flags == 0,
            ace.object_type is None,
    {
        Ace { kind, sid: sid.to_owned(), mask, condition, flags: 0, object_type: None }
    }

    /// Set inheritance flags (see [`ace_flags`]).
    pub fn with_flags(self, flags: u8) -> (ace: Ace)
        ensures
            ace == (Ace { flags, ..self }),
    {
        Ace { flags, ..self }
    }

    /// Turn this into an object ACE bound to `guid` (a property-set /
    /// extended-right / object-class GUID).
    pub fn with_object_type(self, guid: Guid) -> (ace: Ace)
        ensures
            ace == (Ace { object_type: Some(guid), ..self }),
    {
        Ace { object_type: Some(guid), ..self }
    }

    /// Does this ACE apply, given the requesting `token` and the requested
    /// object type (`None` for a plain access check)?
    ///
    /// - `INHERIT_ONLY` ACEs never apply to the object itself.
    /// - The trustee SID must be in the token and any condition must hold.
    /// - Object matching (as in Windows `AuthzAccessCheck`):
    ///   - a **plain** ACE (no `ObjectType`) always applies — it grants/denies
    ///     on the object as a whole, for any request;
    ///   - an **object** ACE applies only in an object-typed check whose
    ///     requested type equals the ACE's `ObjectType`. It does **not** fire
    ///     in a plain check — an object ACE grants a *specific* right, not the
    ///     right generally.
    pub(crate) fn applies(&self, token: &AccessToken, requested: Option<&Guid>) -> (applies: bool)
        ensures
            applies == self.takes_part(*token, requested),
    {
        if self.flags & ace_flags::INHERIT_ONLY != 0 {
            return false;
        }
        if !token.contains_sid(&self.sid) || !self.condition.eval(token) {
            return false;
        }
        match (requested, &self.object_type) {
            (_, None) => true,  // plain ACE — applies to the whole object
            (Some(want), Some(have)) => *want == *have,  // object check — GUID must match
            (None, Some(_)) => false,  // plain check — object ACE does not fire
        }
    }
}

/// A discretionary ACL.
#[derive(Clone, Debug, PartialEq, Eq)]
pub enum Acl {
    /// No DACL present — grants everyone full access (Windows semantics).
    Null,
    /// A concrete list of ACEs (assumed already merged from inheritance).
    Entries(Vec<Ace>),
}

} // verus!
