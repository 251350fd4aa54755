//! Security descriptors.

use crate::ace::Acl;
use crate::integrity::IntegrityLevel;
use crate::Sid;
use vstd::prelude::*;

verus! {

/// A security descriptor: owner + group + DACL + optional mandatory-integrity label.
#[derive(Clone, Debug, PartialEq, Eq)]
pub struct SecurityDescriptor {
    /// Owner SID — gets `READ_CONTROL` + `WRITE_DAC` implicitly.
    pub owner: Sid,
    /// Group SID (informational; not used by the current evaluator).
    pub group: Sid,
    /// Discretionary access-control list.
    pub dacl: Acl,
    /// The object's mandatory integrity label, if any (from the SACL).
    pub mandatory_label: Option<IntegrityLevel>,
}

impl SecurityDescriptor {
    /// A descriptor with the given owner and DACL, a default group, and no
    /// mandatory label.
    pub fn new(owner: &str, dacl: Acl) -> (sd: SecurityDescriptor)
        ensures
            sd.owner@ == owner@,
            sd.group@ == "S-1-5-21-X-513"@,
            sd.dacl == dacl,
            sd.mandatory_label is None,
    {
        SecurityDescriptor {
            owner: owner.to_owned(),
            group: "S-1-5-21-X-513".to_owned(),
            dacl,
            mandatory_label: None,
        }
    }

    /// Attach a mandatory-integrity label to the descriptor.
    pub fn with_label(self, label: IntegrityLevel) -> (sd: SecurityDescriptor)
        ensures
            sd == (SecurityDescriptor { mandatory_label: Some(label), ..self }),
    {
        SecurityDescriptor { mandatory_label: Some(label), ..self }
    }
}

} // verus!
