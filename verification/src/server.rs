//! The server-side coordinator: the three-phase protocol state machine over
//! the credential store and the challenge registry.
//!
//! Per user the states run `Unregistered -> Registered -> ChallengeIssued ->
//! accepted or rejected`, and a new challenge may be issued again at any
//! registered state; the newest challenge always wins.
//!
//! Each operation is one atomic read-modify-write against both stores
//! through `&mut self`. A deployment that serves concurrent requests
//! serializes them behind a single guard around the coordinator, so no
//! two-lock ordering hazard can arise between the stores.

use vstd::prelude::*;
use crate::math::{be_val, decode_be_mod, verify, verify_spec};
use crate::params::GroupParameters;
use crate::rng::{is_id_char, random_identifier, sample_below};
use crate::store::StrKeyMap;

verus! {

/// The typed failures of the three operations. An internal-invariant
/// violation (a registered challenge whose user record is gone) is not here:
/// it is proved unreachable while the coordinator is well formed.
#[derive(Clone, Copy, PartialEq, Eq, Structural, Debug)]
pub enum AuthError {
    /// A request field was empty or otherwise malformed.
    InvalidArgument,
    /// The username or the authentication id is unknown.
    NotFound,
    /// The response did not satisfy the verification equations.
    PermissionDenied,
}

/// A user's registered commitments and most recent challenge state.
pub struct UserInfo {
    pub user_name: String,
    pub y1: u64,
    pub y2: u64,
    pub r1: u64,
    pub r2: u64,
    pub c: u64,
    pub s: u64,
    pub session_id: String,
}

/// The mathematical content of a `UserInfo` record.
pub struct UserInfoV {
    pub user_name: Seq<char>,
    pub y1: nat,
    pub y2: nat,
    pub r1: nat,
    pub r2: nat,
    pub c: nat,
    pub s: nat,
    pub session_id: Seq<char>,
}

impl View for UserInfo {
    type V = UserInfoV;

    open spec fn view(&self) -> UserInfoV {
        UserInfoV {
            user_name: self.user_name@,
            y1: self.y1 as nat,
            y2: self.y2 as nat,
            r1: self.r1 as nat,
            r2: self.r2 as nat,
            c: self.c as nat,
            s: self.s as nat,
            session_id: self.session_id@,
        }
    }
}

/// The coordinator: user records keyed by username, challenge sessions
/// keyed by authentication id, and the group everything is computed in.
pub struct AuthImpl {
    pub user_info: StrKeyMap<UserInfo>,
    pub auth_id_to_user: StrKeyMap<String>,
    pub params: GroupParameters,
}

impl AuthImpl {
    /// Well-formedness: the group is sound, both stores keep their keys
    /// unique, and every issued authentication id points at an existing
    /// user record.
    pub open spec fn wf(self) -> bool {
        &&& self.params.wf()
        &&& self.user_info.wf()
        &&& self.auth_id_to_user.wf()
        &&& forall|a: Seq<char>| #[trigger]
            self.auth_id_to_user@.contains_key(a) ==> self.user_info@.contains_key(
                self.auth_id_to_user@[a],
            )
    }

    /// A fresh coordinator over the given group, with empty stores.
    pub fn new(params: GroupParameters) -> (r: AuthImpl)
        requires
            params.wf(),
        ensures
            r.wf(),
            r.params == params,
            r.user_info@ == Map::<Seq<char>, UserInfoV>::empty(),
            r.auth_id_to_user@ == Map::<Seq<char>, Seq<char>>::empty(),
    {
        AuthImpl { user_info: StrKeyMap::new(), auth_id_to_user: StrKeyMap::new(), params }
    }

    /// The record registration writes: the decoded commitments under the
    /// user's name, with every challenge field reset.
    pub open spec fn registered_record(self, user: Seq<char>, y1: Seq<u8>, y2: Seq<u8>) -> UserInfoV {
        UserInfoV {
            user_name: user,
            y1: be_val(y1) % (self.params.p as nat),
            y2: be_val(y2) % (self.params.p as nat),
            r1: 0,
            r2: 0,
            c: 0,
            s: 0,
            session_id: Seq::<char>::empty(),
        }
    }

    /// Registers a user: stores the commitment pair under the username,
    /// silently overwriting any existing record.
    pub fn register(&mut self, user: &String, y1: &[u8], y2: &[u8]) -> (r: Result<(), AuthError>)
        requires
            old(self).wf(),
        ensures
            final(self).wf(),
            final(self).params == old(self).params,
            ({
                if user@.len() == 0 || y1@.len() == 0 || y2@.len() == 0 {
                    &&& r == Err::<(), AuthError>(AuthError::InvalidArgument)
                    &&& *final(self) == *old(self)
                } else {
                    &&& r == Ok::<(), AuthError>(())
                    &&& final(self).user_info@ == old(self).user_info@.insert(
                        user@,
                        old(self).registered_record(user@, y1@, y2@),
                    )
                    &&& final(self).auth_id_to_user@ == old(self).auth_id_to_user@
                }
            }),
    {
        if user.as_str().is_empty() || y1.len() == 0 || y2.len() == 0 {
            return Err(AuthError::InvalidArgument);
        }
        let yv1 = decode_be_mod(y1, self.params.p);
        let yv2 = decode_be_mod(y2, self.params.p);
        let info = UserInfo {
            user_name: user.clone(),
            y1: yv1,
            y2: yv2,
            r1: 0,
            r2: 0,
            c: 0,
            s: 0,
            session_id: String::new(),
        };
        self.user_info.upsert(user.clone(), info);
        Ok(())
    }

    /// Issues a challenge: stores the decoded ephemeral commitments and a
    /// freshly sampled `c` in the user's record (overwriting any in-flight
    /// challenge), registers a fresh authentication id for the user, and
    /// returns both.
    pub fn create_authentication_challenge(
        &mut self,
        user: &String,
        r1: &[u8],
        r2: &[u8],
    ) -> (res: Result<(String, u64), AuthError>)
        requires
            old(self).wf(),
        ensures
            final(self).wf(),
            final(self).params == old(self).params,
            ({
                if user@.len() == 0 || r1@.len() == 0 || r2@.len() == 0 {
                    &&& res == Err::<(String, u64), AuthError>(AuthError::InvalidArgument)
                    &&& *final(self) == *old(self)
                } else if !old(self).user_info@.contains_key(user@) {
                    &&& res == Err::<(String, u64), AuthError>(AuthError::NotFound)
                    &&& *final(self) == *old(self)
                } else {
                    res matches Ok(out) && {
                        let prev = old(self).user_info@[user@];
                        &&& out.1 < old(self).params.q
                        &&& out.0@.len() == 12
                        &&& (forall|i: int| 0 <= i < out.0@.len() ==> is_id_char(#[trigger] out.0@[i]))
                        &&& final(self).user_info@ == old(self).user_info@.insert(
                            user@,
                            UserInfoV {
                                r1: be_val(r1@) % (old(self).params.p as nat),
                                r2: be_val(r2@) % (old(self).params.p as nat),
                                c: out.1 as nat,
                                ..prev
                            },
                        )
                        &&& final(self).auth_id_to_user@ == old(self).auth_id_to_user@.insert(
                            out.0@,
                            user@,
                        )
                    }
                }
            }),
    {
        if user.as_str().is_empty() || r1.len() == 0 || r2.len() == 0 {
            return Err(AuthError::InvalidArgument);
        }
        let (uname, y1, y2, s_old, sid) = match self.user_info.get(user) {
            None => {
                return Err(AuthError::NotFound);
            },
            Some(info) => (
                info.user_name.clone(),
                info.y1,
                info.y2,
                info.s,
                info.session_id.clone(),
            ),
        };
        let c = sample_below(self.params.q);
        let r1v = decode_be_mod(r1, self.params.p);
        let r2v = decode_be_mod(r2, self.params.p);
        let auth_id = random_identifier(12);
        let rec = UserInfo {
            user_name: uname,
            y1,
            y2,
            r1: r1v,
            r2: r2v,
            c,
            s: s_old,
            session_id: sid,
        };
        self.user_info.upsert(user.clone(), rec);
        self.auth_id_to_user.upsert(auth_id.clone(), user.clone());
        Ok((auth_id, c))
    }

    /// Checks a challenge response: stores the decoded `s` in the record of
    /// the user the authentication id belongs to, then verifies it against
    /// the record's commitments and challenge. A correct response earns a
    /// fresh session token; a wrong one is refused.
    pub fn verify_authentication(&mut self, auth_id: &String, s: &[u8]) -> (res: Result<
        String,
        AuthError,
    >)
        requires
            old(self).wf(),
        ensures
            final(self).wf(),
            final(self).params == old(self).params,
            ({
                if !old(self).auth_id_to_user@.contains_key(auth_id@) {
                    &&& res == Err::<String, AuthError>(AuthError::NotFound)
                    &&& *final(self) == *old(self)
                } else {
                    let user = old(self).auth_id_to_user@[auth_id@];
                    let rec = old(self).user_info@[user];
                    let sv = be_val(s@) % (old(self).params.q as nat);
                    let good = verify_spec(
                        rec.r1 as int,
                        rec.r2 as int,
                        rec.y1 as int,
                        rec.y2 as int,
                        rec.c,
                        sv,
                        old(self).params,
                    );
                    &&& final(self).user_info@ == old(self).user_info@.insert(
                        user,
                        UserInfoV { s: sv, ..rec },
                    )
                    &&& final(self).auth_id_to_user@ == old(self).auth_id_to_user@
                    &&& if good {
                        res matches Ok(sid) && sid@.len() == 12 && (forall|i: int|
                            0 <= i < sid@.len() ==> is_id_char(#[trigger] sid@[i]))
                    } else {
                        res == Err::<String, AuthError>(AuthError::PermissionDenied)
                    }
                }
            }),
    {
        let user = match self.auth_id_to_user.get(auth_id) {
            None => {
                return Err(AuthError::NotFound);
            },
            Some(u) => u.clone(),
        };
        let (uname, y1, y2, r1, r2, c, sid) = match self.user_info.get(&user) {
            None => {
                // unreachable: every issued auth id points at a record
                proof {
                    assert(false);
                }
                return Err(AuthError::NotFound);
            },
            Some(info) => (
                info.user_name.clone(),
                info.y1,
                info.y2,
                info.r1,
                info.r2,
                info.c,
                info.session_id.clone(),
            ),
        };
        let sv = decode_be_mod(s, self.params.q);
        let rec = UserInfo { user_name: uname, y1, y2, r1, r2, c, s: sv, session_id: sid };
        let good = verify(r1, r2, y1, y2, c, sv, &self.params);
        self.user_info.upsert(user, rec);
        if good {
            Ok(random_identifier(12))
        } else {
            Err(AuthError::PermissionDenied)
        }
    }
}

} // verus!
