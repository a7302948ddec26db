//! The not-found responder: the Kubernetes-shaped `Status` envelope that a
//! missing resource of any served kind is answered with. One function serves
//! every kind through its plain-data identity: adding a served kind needs a
//! new identity, never a new responder.

use vstd::prelude::*;

use crate::discovery::{IdentityModel, ResourceIdentity};

verus! {

/// The `details` block of a status: the missing object's name and kind.
#[derive(Debug)]
pub struct StatusDetails {
    pub name: Option<String>,
    pub kind: Option<String>,
}

pub ghost struct StatusDetailsModel {
    pub name: Option<Seq<char>>,
    pub kind: Option<Seq<char>>,
}

impl View for StatusDetails {
    type V = StatusDetailsModel;

    open spec fn view(&self) -> StatusDetailsModel {
        StatusDetailsModel {
            name: match self.name {
                Some(ref n) => Some(n@),
                None => None,
            },
            kind: match self.kind {
                Some(ref k) => Some(k@),
                None => None,
            },
        }
    }
}

/// A Kubernetes-shaped status envelope.
#[derive(Debug)]
pub struct Status {
    pub code: Option<i32>,
    pub status: Option<String>,
    pub message: Option<String>,
    pub reason: Option<String>,
    pub details: Option<StatusDetails>,
}

pub ghost struct StatusModel {
    pub code: Option<i32>,
    pub status: Option<Seq<char>>,
    pub message: Option<Seq<char>>,
    pub reason: Option<Seq<char>>,
    pub details: Option<StatusDetailsModel>,
}

impl View for Status {
    type V = StatusModel;

    open spec fn view(&self) -> StatusModel {
        StatusModel {
            code: self.code,
            status: match self.status {
                Some(ref s) => Some(s@),
                None => None,
            },
            message: match self.message {
                Some(ref s) => Some(s@),
                None => None,
            },
            reason: match self.reason {
                Some(ref s) => Some(s@),
                None => None,
            },
            details: match self.details {
                Some(ref d) => Some(d@),
                None => None,
            },
        }
    }
}

/// The kind as the message writes it: `kind.group`, or the kind alone for a
/// group-less core kind.
pub open spec fn qualified_kind_spec(id: IdentityModel) -> Seq<char> {
    if id.group.len() == 0 {
        id.kind
    } else {
        id.kind + seq!['.'] + id.group
    }
}

/// The message of a not-found status: `kind "name" not found`.
pub open spec fn not_found_message_spec(id: IdentityModel, name: Seq<char>) -> Seq<char> {
    qualified_kind_spec(id) + " \""@ + name + "\" not found"@
}

/// The whole not-found status: code 404, failure, reason `NotFound`, the
/// message above, and details naming the missing object and its kind.
pub open spec fn not_found_spec(id: IdentityModel, name: Seq<char>) -> StatusModel {
    StatusModel {
        code: Some(404),
        status: Some("Failure"@),
        message: Some(not_found_message_spec(id, name)),
        reason: Some("NotFound"@),
        details: Some(StatusDetailsModel { name: Some(name), kind: Some(id.kind) }),
    }
}

/// Builds the 404 `Status` for a missing resource of the identified kind,
/// whatever that kind is.
pub fn not_found(identity: &ResourceIdentity, name: &str) -> (st: Status)
    ensures
        st@ == not_found_spec(identity@, name@),
{
    let mut message = identity.kind.clone();
    if identity.group.as_str().unicode_len() > 0 {
        message.append(".");
        message.append(identity.group.as_str());
        proof {
            reveal_strlit(".");
            assert((identity.kind@ + "."@) + identity.group@ =~= qualified_kind_spec(identity@));
        }
    } else {
        proof {
            assert(identity.group@.len() == 0);
        }
    }
    message.append(" \"");
    message.append(name);
    message.append("\" not found");
    proof {
        assert(((qualified_kind_spec(identity@) + " \""@) + name@) + "\" not found"@
            =~= not_found_message_spec(identity@, name@));
    }
    Status {
        code: Some(404),
        status: Some(String::from_str("Failure")),
        message: Some(message),
        reason: Some(String::from_str("NotFound")),
        details: Some(
            StatusDetails {
                name: Some(String::from_str(name)),
                kind: Some(identity.kind.clone()),
            },
        ),
    }
}

/// A pending not-found answer: the missing object's name, with the identity
/// of the kind it was asked for under.
#[derive(Debug)]
pub struct NotFound {
    pub identity: ResourceIdentity,
    pub name: String,
}

impl NotFound {
    /// Records that no object of the identified kind has `name`.
    pub fn new(identity: ResourceIdentity, name: String) -> (r: Self)
        ensures
            r.identity@ == identity@,
            r.name@ == name@,
    {
        NotFound { identity, name }
    }

    /// The status envelope this answer renders to.
    pub fn to_status(&self) -> (st: Status)
        ensures
            st@ == not_found_spec(self.identity@, self.name@),
    {
        not_found(&self.identity, self.name.as_str())
    }
}

} // verus!
