//! End-to-end runs of the three-phase protocol against the coordinator:
//! registration, challenge, verification, and every failure path.

use zkp_auth::math::{commit, respond};
use zkp_auth::params::GroupParameters;
use zkp_auth::server::{AuthError, AuthImpl};

fn toy_server() -> AuthImpl {
    AuthImpl::new(GroupParameters::get_constants())
}

fn byte(v: u64) -> Vec<u8> {
    assert!(v < 256);
    vec![v as u8]
}

#[test]
fn round_trip_succeeds() {
    let g = GroupParameters::get_constants();
    let mut server = toy_server();
    let alice = String::from("alice");

    let x = 7;
    let (y1, y2) = commit(x, &g);
    server.register(&alice, &byte(y1), &byte(y2)).expect("registration succeeds");

    let k = 3;
    let (r1, r2) = commit(k, &g);
    let (auth_id, c) = server
        .create_authentication_challenge(&alice, &byte(r1), &byte(r2))
        .expect("challenge for a registered user succeeds");
    assert_eq!(auth_id.len(), 12);
    assert!(c < g.q);

    let s = respond(k, c, x, g.q);
    let session = server
        .verify_authentication(&auth_id, &byte(s))
        .expect("honest response is accepted");
    assert_eq!(session.len(), 12);
    assert!(!session.is_empty());
}

#[test]
fn tampered_response_is_denied_and_retry_succeeds() {
    let g = GroupParameters::get_constants();
    let mut server = toy_server();
    let alice = String::from("alice");

    let x = 7;
    let (y1, y2) = commit(x, &g);
    server.register(&alice, &byte(y1), &byte(y2)).unwrap();

    let k = 3;
    let (r1, r2) = commit(k, &g);
    let (auth_id, c) = server
        .create_authentication_challenge(&alice, &byte(r1), &byte(r2))
        .unwrap();

    let s = respond(k, c, x, g.q);
    let wrong = (s + 1) % g.q;
    assert_eq!(
        server.verify_authentication(&auth_id, &byte(wrong)),
        Err(AuthError::PermissionDenied)
    );

    // a failed attempt does not invalidate the challenge
    assert!(server.verify_authentication(&auth_id, &byte(s)).is_ok());
}

#[test]
fn unknown_username_is_not_found() {
    let mut server = toy_server();
    let bob = String::from("bob");
    assert_eq!(
        server.create_authentication_challenge(&bob, &[18], &[16]),
        Err(AuthError::NotFound)
    );
}

#[test]
fn unknown_auth_id_is_not_found() {
    let mut server = toy_server();
    let fabricated = String::from("nosuchid0000");
    assert_eq!(
        server.verify_authentication(&fabricated, &[1]),
        Err(AuthError::NotFound)
    );
}

#[test]
fn empty_register_fields_are_invalid() {
    let mut server = toy_server();
    let empty = String::new();
    let alice = String::from("alice");
    assert_eq!(server.register(&empty, &[8], &[4]), Err(AuthError::InvalidArgument));
    assert_eq!(server.register(&alice, &[], &[4]), Err(AuthError::InvalidArgument));
    assert_eq!(server.register(&alice, &[8], &[]), Err(AuthError::InvalidArgument));
}

#[test]
fn empty_challenge_fields_are_invalid() {
    let g = GroupParameters::get_constants();
    let mut server = toy_server();
    let alice = String::from("alice");
    let empty = String::new();
    let (y1, y2) = commit(7, &g);
    server.register(&alice, &byte(y1), &byte(y2)).unwrap();
    assert_eq!(
        server.create_authentication_challenge(&empty, &[18], &[16]),
        Err(AuthError::InvalidArgument)
    );
    assert_eq!(
        server.create_authentication_challenge(&alice, &[], &[16]),
        Err(AuthError::InvalidArgument)
    );
    assert_eq!(
        server.create_authentication_challenge(&alice, &[18], &[]),
        Err(AuthError::InvalidArgument)
    );
}

#[test]
fn re_registration_overwrites() {
    let g = GroupParameters::get_constants();
    let mut server = toy_server();
    let alice = String::from("alice");

    let (y1, y2) = commit(7, &g);
    server.register(&alice, &byte(y1), &byte(y2)).unwrap();

    // rotate to a new secret; the old record is silently replaced
    let x = 5;
    let (y1, y2) = commit(x, &g);
    server.register(&alice, &byte(y1), &byte(y2)).unwrap();

    let k = 2;
    let (r1, r2) = commit(k, &g);
    let (auth_id, c) = server
        .create_authentication_challenge(&alice, &byte(r1), &byte(r2))
        .unwrap();
    let s = respond(k, c, x, g.q);
    assert!(server.verify_authentication(&auth_id, &byte(s)).is_ok());
}

#[test]
fn re_registration_invalidates_old_challenge() {
    let g = GroupParameters::get_constants();
    let mut server = toy_server();
    let alice = String::from("alice");

    let x = 7;
    let (y1, y2) = commit(x, &g);
    server.register(&alice, &byte(y1), &byte(y2)).unwrap();

    let k = 3;
    let (r1, r2) = commit(k, &g);
    let (auth_id, c) = server
        .create_authentication_challenge(&alice, &byte(r1), &byte(r2))
        .unwrap();
    let s = respond(k, c, x, g.q);

    // re-registration resets the challenge fields; the auth id survives but
    // the old response can no longer pass
    server.register(&alice, &byte(y1), &byte(y2)).unwrap();
    assert_eq!(
        server.verify_authentication(&auth_id, &byte(s)),
        Err(AuthError::PermissionDenied)
    );
}

#[test]
fn stale_response_fails_after_new_challenge() {
    let g = GroupParameters::get_constants();
    let mut server = toy_server();
    let alice = String::from("alice");

    let x = 7;
    let (y1, y2) = commit(x, &g);
    server.register(&alice, &byte(y1), &byte(y2)).unwrap();

    let k = 3;
    let (r1, r2) = commit(k, &g);
    let (auth_id1, c1) = server
        .create_authentication_challenge(&alice, &byte(r1), &byte(r2))
        .unwrap();
    let s1 = respond(k, c1, x, g.q);

    // issue new challenges until one differs from the first
    let mut second = None;
    for _ in 0..100 {
        let (auth_id2, c2) = server
            .create_authentication_challenge(&alice, &byte(r1), &byte(r2))
            .unwrap();
        if c2 != c1 {
            second = Some((auth_id2, c2));
            break;
        }
    }
    let (auth_id2, c2) = second.expect("two challenges differ with overwhelming probability");

    // the response for the overwritten challenge no longer verifies
    assert_eq!(
        server.verify_authentication(&auth_id1, &byte(s1)),
        Err(AuthError::PermissionDenied)
    );

    // only a response to the live challenge does
    let s2 = respond(k, c2, x, g.q);
    assert!(server.verify_authentication(&auth_id2, &byte(s2)).is_ok());
}

#[test]
fn last_of_many_challenges_wins() {
    let g = GroupParameters::get_constants();
    let mut server = toy_server();
    let alice = String::from("alice");

    let x = 7;
    let (y1, y2) = commit(x, &g);
    server.register(&alice, &byte(y1), &byte(y2)).unwrap();

    let k = 3;
    let (r1, r2) = commit(k, &g);
    let mut issued = Vec::new();
    for _ in 0..8 {
        let out = server
            .create_authentication_challenge(&alice, &byte(r1), &byte(r2))
            .unwrap();
        issued.push(out);
    }
    let (last_id, last_c) = issued.last().cloned().unwrap();

    // any earlier challenge that differs from the final one is dead
    for (id, c) in issued.iter().take(7) {
        if *c != last_c {
            let stale = respond(k, *c, x, g.q);
            assert_eq!(
                server.verify_authentication(id, &byte(stale)),
                Err(AuthError::PermissionDenied)
            );
        }
    }

    // the final challenge is the live one
    let s = respond(k, last_c, x, g.q);
    assert!(server.verify_authentication(&last_id, &byte(s)).is_ok());
}
