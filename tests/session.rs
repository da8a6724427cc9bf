use authd::session::{registration_envelope, registration_reply};
use authd::{AuthdSession, DefaultCipherSuite, FileSnapshot, FileTime, Files, RpcError};
use opaque_ke::rand::rngs::OsRng;
use opaque_ke::{
    ClientLogin, ClientLoginFinishParameters, ClientRegistration,
    ClientRegistrationFinishParameters, CredentialResponse, RegistrationResponse, ServerSetup,
};

fn new_setup() -> Vec<u8> {
    ServerSetup::<DefaultCipherSuite>::new(&mut OsRng).serialize().to_vec()
}

fn snap(secs: u64, text: &str) -> FileSnapshot {
    FileSnapshot { modified: FileTime { secs, nanos: 0 }, contents: text.to_string() }
}

const PASSWD: &str = "root:x:0:0:root:/root:/bin/sh\nbob:x:1002:1002:Bob:/home/bob:/bin/sh\n";

fn store(groups: &str) -> Files {
    let mut f = Files::new("p".to_string(), "g".to_string(), "s".to_string());
    f.refresh(&snap(1, PASSWD), &snap(1, groups), &snap(1, "")).unwrap();
    f
}

/// Runs the client's side of a registration against the standalone server
/// steps and returns the envelope.
fn enroll(setup: &[u8], name: &str, password: &str) -> Vec<u8> {
    let start =
        ClientRegistration::<DefaultCipherSuite>::start(&mut OsRng, password.as_bytes()).unwrap();
    let reply = registration_reply(setup, &start.message.serialize(), name).unwrap();
    let finish = start
        .state
        .finish(
            &mut OsRng,
            password.as_bytes(),
            RegistrationResponse::deserialize(&reply).unwrap(),
            ClientRegistrationFinishParameters::default(),
        )
        .unwrap();
    registration_envelope(&finish.message.serialize()).unwrap()
}

/// Runs a whole login on `session`. When the client cannot finish (wrong
/// password) it sends a finalization of zeros.
fn login(
    session: &mut AuthdSession,
    setup: &[u8],
    name: &str,
    envelope: Option<Vec<u8>>,
    password: &str,
) -> (Result<(), RpcError>, Option<Vec<u8>>) {
    let start = ClientLogin::<DefaultCipherSuite>::start(&mut OsRng, password.as_bytes()).unwrap();
    let response = session
        .start_login(setup, name.to_string(), envelope, &start.message.serialize())
        .expect("start_login answers");
    let response = CredentialResponse::<DefaultCipherSuite>::deserialize(&response).unwrap();
    match start.state.finish(password.as_bytes(), response, ClientLoginFinishParameters::default()) {
        Ok(done) => {
            (session.finish_login(&done.message.serialize()), Some(done.session_key.to_vec()))
        },
        Err(_) => (session.finish_login(&[0u8; 64]), None),
    }
}

#[test]
fn login_happy_path() {
    let setup = new_setup();
    let envelope = enroll(&setup, "ember", "hunter2");
    let mut s = AuthdSession::new();
    let (r, client_key) = login(&mut s, &setup, "ember", Some(envelope), "hunter2");
    assert_eq!(r, Ok(()));
    let key = s.session_key().expect("authenticated").clone();
    assert_eq!(key.len(), 64);
    assert_eq!(Some(key), client_key);
    assert_eq!(s.authenticated_name().map(|n| n.as_str()), Some("ember"));
    let files = store("");
    assert_eq!(files.get_all_passwd().len(), 2);
    s.wipe();
    assert!(s.session_key().is_none());
    assert!(s.authenticated_name().is_none());
}

#[test]
fn wrong_password_fails() {
    let setup = new_setup();
    let envelope = enroll(&setup, "ember", "hunter2");
    let mut s = AuthdSession::new();
    let (r, _) = login(&mut s, &setup, "ember", Some(envelope), "wrong");
    assert_eq!(r, Err(RpcError::AuthenticationFailure));
    assert!(s.session_key().is_none());
    assert!(s.login_in_progress().is_none());
    assert!(s.authenticated_name().is_none());
    let start = ClientLogin::<DefaultCipherSuite>::start(&mut OsRng, b"pw").unwrap();
    let r = s.start_login(&setup, "someone-else".to_string(), None, &start.message.serialize());
    assert!(r.is_ok());
    assert_eq!(s.login_in_progress().map(|n| n.as_str()), Some("someone-else"));
}

#[test]
fn unknown_user_gets_same_shaped_answer() {
    let setup = new_setup();
    let envelope = enroll(&setup, "ember", "hunter2");
    let start = ClientLogin::<DefaultCipherSuite>::start(&mut OsRng, b"hunter2").unwrap();
    let mut known = AuthdSession::new();
    let a = known
        .start_login(&setup, "ember".to_string(), Some(envelope), &start.message.serialize())
        .unwrap();
    let mut unknown = AuthdSession::new();
    let b = unknown
        .start_login(&setup, "ghost".to_string(), None, &start.message.serialize())
        .unwrap();
    assert_eq!(a.len(), b.len());
    assert!(CredentialResponse::<DefaultCipherSuite>::deserialize(&b).is_ok());
}

#[test]
fn finish_login_out_of_order_fails() {
    let mut s = AuthdSession::new();
    assert_eq!(s.finish_login(&[0u8; 64]), Err(RpcError::AuthenticationFailure));
    assert!(s.session_key().is_none());
}

#[test]
fn malformed_login_request_fails() {
    let setup = new_setup();
    let mut s = AuthdSession::new();
    let r = s.start_login(&setup, "ember".to_string(), None, b"junk");
    assert_eq!(r, Err(RpcError::AuthenticationFailure));
    assert!(s.login_in_progress().is_none());
}

fn admin_session(setup: &[u8], name: &str) -> AuthdSession {
    let envelope = enroll(setup, name, "adminpw");
    let mut s = AuthdSession::new();
    let (r, _) = login(&mut s, setup, name, Some(envelope), "adminpw");
    assert_eq!(r, Ok(()));
    s
}

#[test]
fn admin_gate_refuses_non_admin() {
    let setup = new_setup();
    let mut bob = admin_session(&setup, "bob");
    let files = store("auth-admins:x:900:root\n");
    assert!(!bob.auth_admin(&files));
    let start = ClientRegistration::<DefaultCipherSuite>::start(&mut OsRng, b"carolpw").unwrap();
    let r = bob.register_new_user(
        &files,
        &setup,
        "carol".to_string(),
        Some(1100),
        &start.message.serialize(),
    );
    assert_eq!(r, Err(RpcError::NotAuthorized));
    assert!(bob.pending_registration().is_none());
    assert_eq!(bob.finish_registration(&files, b"upload").err(), Some(RpcError::NotAuthorized));
    assert_eq!(bob.authenticated_name().map(|n| n.as_str()), Some("bob"));
}

#[test]
fn admin_registers_new_user() {
    let setup = new_setup();
    let mut root = admin_session(&setup, "root");
    let files = store("wheel:x:10:\nauth-admins:x:900:bob,root\n");
    assert!(root.auth_admin(&files));
    let start = ClientRegistration::<DefaultCipherSuite>::start(&mut OsRng, b"carolpw").unwrap();
    let reply = root
        .register_new_user(&files, &setup, "carol".to_string(), Some(1100), &start.message.serialize())
        .unwrap();
    assert_eq!(root.pending_registration().map(|n| n.as_str()), Some("carol"));
    assert_eq!(root.authenticated_name().map(|n| n.as_str()), Some("root"));
    let finish = start
        .state
        .finish(
            &mut OsRng,
            b"carolpw",
            RegistrationResponse::deserialize(&reply).unwrap(),
            ClientRegistrationFinishParameters::default(),
        )
        .unwrap();
    let stored = root.finish_registration(&files, &finish.message.serialize()).unwrap();
    assert_eq!(stored.username, "carol");
    assert_eq!(stored.uid, 1100);
    assert!(root.pending_registration().is_none());
    assert_eq!(root.authenticated_name().map(|n| n.as_str()), Some("root"));

    let mut carol = AuthdSession::new();
    let (r, _) = login(&mut carol, &setup, "carol", Some(stored.envelope.clone()), "carolpw");
    assert_eq!(r, Ok(()));
    let mut other = AuthdSession::new();
    let (r, _) = login(&mut other, &setup, "carol", Some(stored.envelope), "nope");
    assert_eq!(r, Err(RpcError::AuthenticationFailure));
}

#[test]
fn demotion_takes_effect_on_next_call() {
    let setup = new_setup();
    let mut root = admin_session(&setup, "root");
    let mut files = store("auth-admins:x:900:root\n");
    let start = ClientRegistration::<DefaultCipherSuite>::start(&mut OsRng, b"pw").unwrap();
    let msg = start.message.serialize();
    assert!(root.register_new_user(&files, &setup, "dave".to_string(), Some(1200), &msg).is_ok());
    files
        .refresh(&snap(1, PASSWD), &snap(2, "auth-admins:x:900:bob\n"), &snap(1, ""))
        .unwrap();
    let r = root.register_new_user(&files, &setup, "erin".to_string(), Some(1201), &msg);
    assert_eq!(r, Err(RpcError::NotAuthorized));
    assert_eq!(root.finish_registration(&files, b"x").err(), Some(RpcError::NotAuthorized));
}

#[test]
fn registration_needs_uid_and_storable_name() {
    let setup = new_setup();
    let mut root = admin_session(&setup, "root");
    let files = store("auth-admins:x:900:root\n");
    let start = ClientRegistration::<DefaultCipherSuite>::start(&mut OsRng, b"pw").unwrap();
    let msg = start.message.serialize();
    let r = root.register_new_user(&files, &setup, "carol".to_string(), None, &msg);
    assert_eq!(r, Err(RpcError::InvalidRequest));
    for bad in ["", ".", "..", "../etc", "a/b", "a:b", "a\nb"] {
        let r = root.register_new_user(&files, &setup, bad.to_string(), Some(5), &msg);
        assert_eq!(r, Err(RpcError::InvalidRequest));
    }
    assert_eq!(root.authenticated_name().map(|n| n.as_str()), Some("root"));
    assert_eq!(registration_reply(&setup, &msg, "a/b"), Err(RpcError::InvalidRequest));
}

#[test]
fn finish_registration_without_start_resets() {
    let setup = new_setup();
    let mut root = admin_session(&setup, "root");
    let files = store("auth-admins:x:900:root\n");
    let r = root.finish_registration(&files, b"upload");
    assert_eq!(r.err(), Some(RpcError::AuthenticationFailure));
    assert!(root.authenticated_name().is_none());
}

#[test]
fn bad_registration_messages_fail() {
    let setup = new_setup();
    assert_eq!(registration_reply(&setup, b"junk", "carol"), Err(RpcError::AuthenticationFailure));
    assert_eq!(registration_envelope(b"junk"), Err(RpcError::AuthenticationFailure));
    let start = ClientRegistration::<DefaultCipherSuite>::start(&mut OsRng, b"pw").unwrap();
    let msg = start.message.serialize().to_vec();
    let reply = registration_reply(&setup, &msg, "carol").unwrap();
    assert_ne!(reply, msg);
    assert!(RegistrationResponse::<DefaultCipherSuite>::deserialize(&reply).is_ok());
}

#[test]
fn bootstrap_twice_keeps_second_password() {
    let setup = new_setup();
    let _first = enroll(&setup, "root", "p1");
    let second = enroll(&setup, "root", "p2");
    let mut a = AuthdSession::new();
    assert_eq!(login(&mut a, &setup, "root", Some(second.clone()), "p2").0, Ok(()));
    let mut b = AuthdSession::new();
    assert_eq!(
        login(&mut b, &setup, "root", Some(second), "p1").0,
        Err(RpcError::AuthenticationFailure)
    );
}

#[test]
fn decision_steps_on_given_outcomes() {
    let mut s = AuthdSession::new();
    let r = s.begin_login("ann".to_string(), Some((vec![1, 2], vec![3, 4])));
    assert_eq!(r, Ok(vec![3, 4]));
    assert_eq!(s.login_in_progress().map(|n| n.as_str()), Some("ann"));
    assert_eq!(s.complete_login(Some(vec![9, 9])), Ok(()));
    assert_eq!(s.session_key(), Some(&vec![9, 9]));
    assert_eq!(s.authenticated_name().map(|n| n.as_str()), Some("ann"));
    assert_eq!(s.accept_registration("zed".to_string(), 7, Some(vec![5])), Ok(vec![5]));
    let e = s.commit_registration(Some(vec![6, 6])).unwrap();
    assert_eq!(e.username, "zed");
    assert_eq!(e.uid, 7);
    assert_eq!(e.envelope, vec![6, 6]);
    assert_eq!(s.authenticated_name().map(|n| n.as_str()), Some("ann"));
    assert_eq!(s.commit_registration(Some(vec![1])).err(), Some(RpcError::AuthenticationFailure));
    assert!(s.session_key().is_none());

    let mut t = AuthdSession::new();
    assert_eq!(t.begin_login("ann".to_string(), None), Err(RpcError::AuthenticationFailure));
    t.begin_login("ann".to_string(), Some((vec![1], vec![2]))).unwrap();
    assert_eq!(t.complete_login(None), Err(RpcError::AuthenticationFailure));
    assert!(t.login_in_progress().is_none());
    assert_eq!(t.accept_registration("x".to_string(), 1, None), Err(RpcError::AuthenticationFailure));
}

#[test]
fn dot_prefixed_names_register() {
    let setup = new_setup();
    let mut root = admin_session(&setup, "root");
    let files = store("auth-admins:x:900:root\n");
    let start = ClientRegistration::<DefaultCipherSuite>::start(&mut OsRng, b"pw").unwrap();
    let msg = start.message.serialize();
    for name in [".profile", "..x", "a.b"] {
        let r = root.register_new_user(&files, &setup, name.to_string(), Some(1300), &msg);
        assert!(r.is_ok(), "{} should register", name);
        assert_eq!(root.pending_registration().map(|n| n.as_str()), Some(name));
    }
    assert!(registration_reply(&setup, &msg, ".profile").is_ok());
}
