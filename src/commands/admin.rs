//! Toggling the roles that may be assigned by name.
use vstd::prelude::*;

use crate::config::{assignable_loose, holds_role, Config, RoleId};

verus! {

/// Whether to give or take an assignable role, and its name.
pub enum Scheme {
    Assign(String),
    Unassign(String),
}

impl Scheme {
    /// The name the request is for.
    pub fn as_str(&self) -> (r: &str)
        ensures
            r@ == match self {
                Scheme::Assign(s) => s@,
                Scheme::Unassign(s) => s@,
            },
    {
        match self {
            Scheme::Assign(s) => s.as_str(),
            Scheme::Unassign(s) => s.as_str(),
        }
    }
}

/// Why an assignable toggle was declined.
#[derive(Debug, Clone, Copy, PartialEq, Eq, Structural)]
pub enum AssignError {
    /// No assignable role has that name.
    NoSuchAssignable,
    /// The member already holds the role.
    AlreadyAssigned,
    /// The member does not hold the role.
    NotAssigned,
}

/// The name a request is for.
pub open spec fn scheme_name(scheme: Scheme) -> Seq<char> {
    match scheme {
        Scheme::Assign(s) => s@,
        Scheme::Unassign(s) => s@,
    }
}

/// The outcome of a toggle: the role to add or to take away.
pub open spec fn assignable_change(c: Config, roles: Seq<RoleId>, scheme: Scheme) -> Result<
    RoleId,
    AssignError,
> {
    match assignable_loose(c.assignable@, scheme_name(scheme)) {
        None => Err(AssignError::NoSuchAssignable),
        Some(role) => match scheme {
            Scheme::Assign(_) => if roles.contains(role) {
                Err(AssignError::AlreadyAssigned)
            } else {
                Ok(role)
            },
            Scheme::Unassign(_) => if !roles.contains(role) {
                Err(AssignError::NotAssigned)
            } else {
                Ok(role)
            },
        },
    }
}

/// The single role to add (for `Assign`) or remove (for `Unassign`).
pub fn change_assignable(config: &Config, roles: &Vec<RoleId>, scheme: &Scheme) -> (r: Result<
    RoleId,
    AssignError,
>)
    ensures
        r == assignable_change(*config, roles@, *scheme),
{
    let role = match config.get_assignable_loose(scheme.as_str()) {
        Some(role) => role,
        None => {
            return Err(AssignError::NoSuchAssignable);
        },
    };
    let held = holds_role(roles, role);
    match scheme {
        Scheme::Assign(_) => if held {
            Err(AssignError::AlreadyAssigned)
        } else {
            Ok(role)
        },
        Scheme::Unassign(_) => if !held {
            Err(AssignError::NotAssigned)
        } else {
            Ok(role)
        },
    }
}

} // verus!
