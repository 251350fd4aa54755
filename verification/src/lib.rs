//! Windows effective-access evaluation.
//!
//! Given a [`SecurityDescriptor`] and an [`AccessToken`], [`access_check`] and
//! [`access_check_object`] compute the access a principal actually has: who can
//! write an object, not who has an entry that mentions it.
//!
//! - The entries of a DACL are read in order, and a denying entry wins over the
//!   allowing ones behind it.
//! - A NULL DACL grants full access; an empty DACL grants none.
//! - The owner has `READ_CONTROL` and `WRITE_DAC` implicitly, and the privileges
//!   `SeBackup`, `SeRestore` and `SeTakeOwnership` have rights of their own.
//! - Generic rights are resolved through a [`GenericMapping`].
//! - The group SIDs of a token count as its user SID does.
//! - A conditional entry applies where its [`Condition`] holds of the token.
//! - A subject whose integrity is below the object's mandatory label obtains no
//!   write-class right.
//! - `INHERIT_ONLY` entries do not apply to the object itself (see
//!   [`ace_flags`]).
//! - An entry that carries an object type applies only to a request for that
//!   type.
//!
//! What a check decides is [`SecurityDescriptor::decision`], a specification
//! that both functions are proved to compute on every input. What follows from
//! it is stated and proved in [`laws`].
//!
//! Parsing an SDDL string, restricted tokens (the second pass over restricting
//! SIDs) and hierarchies of object types are out of scope.

use vstd::prelude::*;

pub mod ace;
pub mod ace_flags;
pub mod check;
pub mod condition;
pub mod descriptor;
pub mod guid;
pub mod integrity;
pub mod laws;
pub mod mapping;
pub mod masks;
pub mod rights;
pub mod token;

pub use ace::{Ace, AceKind, Acl};
pub use check::{access_check, access_check_object, Decision};
pub use condition::Condition;
pub use descriptor::SecurityDescriptor;
pub use guid::Guid;
pub use integrity::IntegrityLevel;
pub use mapping::GenericMapping;
pub use token::{AccessToken, ClaimValue, Privilege};

verus! {

/// A security identifier, in SDDL string form (`S-1-5-...`).
pub type Sid = String;

} // verus!
