//! The access policy and the admission decision for a connecting peer.

use std::collections::HashSet;
use vstd::prelude::*;
use vstd::std_specs::hash::*;

verus! {

broadcast use group_hash_axioms;

/// Who may connect to the server.
pub enum AccessPermission {
    /// Everyone can connect.
    Public,
    /// No one can connect.
    Private,
    /// Only immediate friends of the host can connect.
    FriendsOnly,
    /// Only the users in this list can connect.
    InList(HashSet<u64>),
    /// Only the users that are in this lobby right now can connect.
    InLobby(u64),
}

/// The mathematical value of an [`AccessPermission`].
pub ghost enum AccessPolicy {
    Public,
    Private,
    FriendsOnly,
    InList(Set<u64>),
    InLobby(u64),
}

impl View for AccessPermission {
    type V = AccessPolicy;

    open spec fn view(&self) -> AccessPolicy {
        match self {
            AccessPermission::Public => AccessPolicy::Public,
            AccessPermission::Private => AccessPolicy::Private,
            AccessPermission::FriendsOnly => AccessPolicy::FriendsOnly,
            AccessPermission::InList(list) => AccessPolicy::InList(list@),
            AccessPermission::InLobby(lobby) => AccessPolicy::InLobby(*lobby),
        }
    }
}

/// The reason code handed to the SDK when a connection is ended by the
/// transport. The transport only ever ends a connection for a generic,
/// application-level reason.
#[derive(Clone, Copy, Debug, PartialEq, Eq, Structural)]
pub enum NetConnectionEnd {
    AppGeneric,
}

/// Why a connecting peer is turned away.
#[derive(Clone, Copy, Debug, PartialEq, Eq, Structural)]
pub enum RejectReason {
    /// The upstream server already has as many connected clients as allowed.
    TooManyClients,
    /// The peer asserts no identity.
    InvalidSteamId,
    /// The access policy turns the peer away.
    NotAllowed,
}

impl RejectReason {
    /// The reason code sent with the rejection.
    pub fn end_reason(&self) -> (reason: NetConnectionEnd)
        ensures
            reason == NetConnectionEnd::AppGeneric,
    {
        NetConnectionEnd::AppGeneric
    }

    pub open spec fn spec_message(self) -> Seq<char> {
        match self {
            RejectReason::TooManyClients => "Too many clients"@,
            RejectReason::InvalidSteamId => "Invalid steam id"@,
            RejectReason::NotAllowed => "Not allowed"@,
        }
    }

    /// The text sent to the peer with the rejection.
    pub fn message(&self) -> (text: &'static str)
        ensures
            text@ == self.spec_message(),
    {
        match self {
            RejectReason::TooManyClients => "Too many clients",
            RejectReason::InvalidSteamId => "Invalid steam id",
            RejectReason::NotAllowed => "Not allowed",
        }
    }
}

/// What the transport answers to a connection request. The two `Query`
/// shapes are not answers yet: the policy depends on something only the SDK
/// knows, and the request is settled once that is supplied.
#[derive(Clone, Copy, Debug, PartialEq, Eq, Structural)]
pub enum Admission {
    /// Accept the connection.
    Accept,
    /// Reject the connection.
    Reject(RejectReason),
    /// Accept iff the host has the candidate as an immediate friend.
    QueryFriend { candidate: u64 },
    /// Accept iff the candidate is a member of the lobby at this moment.
    QueryLobby { lobby: u64, candidate: u64 },
}

/// `Accept` if `permitted`, else the rejection for a peer the policy turns
/// away.
pub open spec fn verdict(permitted: bool) -> Admission {
    if permitted {
        Admission::Accept
    } else {
        Admission::Reject(RejectReason::NotAllowed)
    }
}

impl AccessPolicy {
    /// What the policy alone says of a candidate.
    pub open spec fn check(self, candidate: u64) -> Admission {
        match self {
            AccessPolicy::Public => Admission::Accept,
            AccessPolicy::Private => Admission::Reject(RejectReason::NotAllowed),
            AccessPolicy::FriendsOnly => Admission::QueryFriend { candidate },
            AccessPolicy::InList(list) => verdict(list.contains(candidate)),
            AccessPolicy::InLobby(lobby) => Admission::QueryLobby { lobby, candidate },
        }
    }

    /// Whether the policy lets the candidate in, given what the SDK knows:
    /// whether the host has the candidate as an immediate friend, and who is
    /// in the lobby.
    pub open spec fn permits(self, candidate: u64, is_friend: bool, lobby_members: Seq<u64>) -> bool {
        match self {
            AccessPolicy::Public => true,
            AccessPolicy::Private => false,
            AccessPolicy::FriendsOnly => is_friend,
            AccessPolicy::InList(list) => list.contains(candidate),
            AccessPolicy::InLobby(_) => lobby_members.contains(candidate),
        }
    }
}

/// The answer to a connection request from `candidate`, when the upstream
/// server counts `connected` clients and at most `max_clients` are allowed.
/// Capacity is tested first, then the identity, then the policy.
pub open spec fn admission(
    policy: AccessPolicy,
    connected: nat,
    max_clients: nat,
    candidate: Option<u64>,
) -> Admission {
    if connected >= max_clients {
        Admission::Reject(RejectReason::TooManyClients)
    } else {
        match candidate {
            None => Admission::Reject(RejectReason::InvalidSteamId),
            Some(id) => policy.check(id),
        }
    }
}

impl Admission {
    pub open spec fn is_pending(self) -> bool {
        self is QueryFriend || self is QueryLobby
    }

    /// This admission once the SDK's knowledge is supplied.
    pub open spec fn settle(self, is_friend: bool, lobby_members: Seq<u64>) -> Admission {
        match self {
            Admission::QueryFriend { .. } => verdict(is_friend),
            Admission::QueryLobby { candidate, .. } => verdict(lobby_members.contains(candidate)),
            _ => self,
        }
    }

    /// Whether the request still waits for the SDK.
    pub fn pending(&self) -> (pending: bool)
        ensures
            pending == self.is_pending(),
    {
        match self {
            Admission::QueryFriend { .. } => true,
            Admission::QueryLobby { .. } => true,
            _ => false,
        }
    }

    /// Settles a friendship query with the SDK's answer; any other admission
    /// is handed back as it is.
    pub fn with_friend(self, is_immediate_friend: bool) -> (settled: Admission)
        ensures
            settled == if self is QueryFriend {
                verdict(is_immediate_friend)
            } else {
                self
            },
    {
        match self {
            Admission::QueryFriend { .. } => {
                if is_immediate_friend {
                    Admission::Accept
                } else {
                    Admission::Reject(RejectReason::NotAllowed)
                }
            },
            other => other,
        }
    }

    /// Settles a lobby query with the members the SDK reports; any other
    /// admission is handed back as it is.
    pub fn with_lobby_members(self, members: &Vec<u64>) -> (settled: Admission)
        ensures
            settled == if self is QueryLobby {
                verdict(members@.contains(self->QueryLobby_candidate))
            } else {
                self
            },
    {
        match self {
            Admission::QueryLobby { candidate, .. } => {
                if contains_id(members, candidate) {
                    Admission::Accept
                } else {
                    Admission::Reject(RejectReason::NotAllowed)
                }
            },
            other => other,
        }
    }
}

/// Whether `id` occurs in `ids`.
pub fn contains_id(ids: &Vec<u64>, id: u64) -> (found: bool)
    ensures
        found == ids@.contains(id),
{
    let mut i: usize = 0;
    while i < ids.len()
        invariant
            i <= ids.len(),
            forall|j: int| 0 <= j < i ==> ids@[j] != id,
        decreases ids.len() - i,
    {
        if ids[i] == id {
            return true;
        }
        i += 1;
    }
    false
}

impl AccessPermission {
    /// What the policy alone says of a candidate: a verdict, or the question
    /// to put to the SDK.
    pub fn check(&self, candidate: u64) -> (admission: Admission)
        ensures
            admission == self@.check(candidate),
    {
        match self {
            AccessPermission::Public => Admission::Accept,
            AccessPermission::Private => Admission::Reject(RejectReason::NotAllowed),
            AccessPermission::FriendsOnly => Admission::QueryFriend { candidate },
            AccessPermission::InList(list) => {
                if list.contains(&candidate) {
                    Admission::Accept
                } else {
                    Admission::Reject(RejectReason::NotAllowed)
                }
            },
            AccessPermission::InLobby(lobby) => Admission::QueryLobby { lobby: *lobby, candidate },
        }
    }
}

} // verus!
