//! The per-connection session: login progress, the authenticated identity,
//! admin authorization and user registration.
use vstd::prelude::*;
use crate::apake::{
    envelope_from_upload, envelope_of, login_key, opt_bytes, login_key_of, login_response,
    registration_response, registration_response_of,
};
use crate::files::{group_named, Files};
use crate::text::{chars_of, free_of, string_from, string_views};
use crate::types::{name_ok, GroupView};

verus! {

/// An error answered to a request.
#[derive(Clone, Copy, Debug, PartialEq, Eq, Structural)]
pub enum RpcError {
    /// The session is not authenticated as a member of the admin group.
    NotAuthorized,
    /// A protocol step was rejected or came out of order.
    AuthenticationFailure,
    /// The request names no user id, or a user name that cannot be stored.
    InvalidRequest,
}

/// How far the session's login has come.
pub enum LoginState {
    Anonymous,
    /// The server has answered the first login message for `purported`.
    LoginInProgress { server_state: Vec<u8>, purported: String },
    /// `name` has proved knowledge of its password.
    Authenticated { name: String, session_key: Vec<u8> },
}

pub enum LoginView {
    Anonymous,
    LoginInProgress { server_state: Seq<u8>, purported: Seq<char> },
    Authenticated { name: Seq<char>, session_key: Seq<u8> },
}

impl View for LoginState {
    type V = LoginView;

    open spec fn view(&self) -> LoginView {
        match self {
            LoginState::Anonymous => LoginView::Anonymous,
            LoginState::LoginInProgress { server_state, purported } => LoginView::LoginInProgress {
                server_state: server_state@,
                purported: purported@,
            },
            LoginState::Authenticated { name, session_key } => LoginView::Authenticated {
                name: name@,
                session_key: session_key@,
            },
        }
    }
}

/// A registration that an admin has started: the user name and user id.
pub struct Registration {
    pub username: String,
    pub uid: u32,
}

/// An envelope to be stored under a user name.
pub struct Envelope {
    pub username: String,
    pub bytes: Vec<u8>,
}

/// A finished registration: the new user's name and user id, and the
/// envelope to store under that name.
pub struct NewUser {
    pub username: String,
    pub uid: u32,
    pub envelope: Vec<u8>,
}

/// One connection's session.
pub struct AuthdSession {
    login: LoginState,
    registering: Option<Registration>,
}

pub struct SessionView {
    pub login: LoginView,
    pub registering: Option<(Seq<char>, u32)>,
}

impl View for AuthdSession {
    type V = SessionView;

    closed spec fn view(&self) -> SessionView {
        SessionView {
            login: self.login@,
            registering: match self.registering {
                Some(r) => Some((r.username@, r.uid)),
                None => None,
            },
        }
    }
}

/// The name of the group whose members are admins.
pub open spec fn admin_group() -> Seq<char> {
    seq!['a', 'u', 't', 'h', '-', 'a', 'd', 'm', 'i', 'n', 's']
}

/// The session is authenticated as a member of the first group named
/// `auth-admins` in `groups`.
pub open spec fn is_admin(groups: Seq<GroupView>, login: LoginView) -> bool {
    match login {
        LoginView::Authenticated { name, .. } => match group_named(groups, admin_group()) {
            Some(g) => g.members.contains(name),
            None => false,
        },
        _ => false,
    }
}

/// A name made of dots only, one or two: it names a directory, not a file.
pub open spec fn is_dot_dir(s: Seq<char>) -> bool {
    s == seq!['.'] || s == seq!['.', '.']
}

/// A user name that can also name an envelope file: a valid record name with
/// no `/`, other than `.` and `..`.
pub open spec fn envelope_name_ok(s: Seq<char>) -> bool {
    name_ok(s) && free_of(s, '/') && !is_dot_dir(s)
}

/// The session that a failed protocol step leaves: anonymous, nothing pending.
pub open spec fn reset() -> SessionView {
    SessionView { login: LoginView::Anonymous, registering: None }
}

pub open spec fn bytes_result(r: Result<Vec<u8>, RpcError>) -> Result<Seq<u8>, RpcError> {
    match r {
        Ok(v) => Ok(v@),
        Err(e) => Err(e),
    }
}

pub open spec fn new_user_result(r: Result<NewUser, RpcError>) -> Result<(Seq<char>, u32, Seq<u8>), RpcError> {
    match r {
        Ok(u) => Ok((u.username@, u.uid, u.envelope@)),
        Err(e) => Err(e),
    }
}

/// The first login step for `username`, given what the server's protocol
/// step returned (its state and its response): the session waits for the
/// client's finalization, or is reset when the step failed.
pub open spec fn begin_login_spec(
    username: Seq<char>,
    outcome: Option<(Seq<u8>, Seq<u8>)>,
) -> (SessionView, Result<Seq<u8>, RpcError>) {
    match outcome {
        Some((state, response)) => (
            SessionView {
                login: LoginView::LoginInProgress { server_state: state, purported: username },
                registering: None,
            },
            Ok(response),
        ),
        None => (reset(), Err(RpcError::AuthenticationFailure)),
    }
}

/// The second login step, given the session key that the server's protocol
/// step returned: a login in progress becomes authenticated under the
/// purported name; anything else resets the session.
pub open spec fn complete_login_spec(s: SessionView, key: Option<Seq<u8>>) -> (
    SessionView,
    Result<(), RpcError>,
) {
    match (s.login, key) {
        (LoginView::LoginInProgress { purported, .. }, Some(k)) => (
            SessionView {
                login: LoginView::Authenticated { name: purported, session_key: k },
                registering: None,
            },
            Ok(()),
        ),
        _ => (reset(), Err(RpcError::AuthenticationFailure)),
    }
}

/// An admitted registration of `username` with `uid`, given the response
/// that the server's protocol step returned: the session remembers the
/// registration and keeps its login, or is reset when the step failed.
pub open spec fn accept_registration_spec(
    s: SessionView,
    username: Seq<char>,
    uid: u32,
    response: Option<Seq<u8>>,
) -> (SessionView, Result<Seq<u8>, RpcError>) {
    match response {
        Some(m) => (SessionView { login: s.login, registering: Some((username, uid)) }, Ok(m)),
        None => (reset(), Err(RpcError::AuthenticationFailure)),
    }
}

/// The end of a registration, given the envelope that the server's protocol
/// step returned: the envelope is handed out with the pending user name and
/// user id, and the session keeps its login; with nothing pending or no envelope, the
/// session is reset.
pub open spec fn commit_registration_spec(s: SessionView, envelope: Option<Seq<u8>>) -> (
    SessionView,
    Result<(Seq<char>, u32, Seq<u8>), RpcError>,
) {
    match (s.registering, envelope) {
        (Some((name, uid)), Some(e)) => (
            SessionView { login: s.login, registering: None },
            Ok((name, uid, e)),
        ),
        _ => (reset(), Err(RpcError::AuthenticationFailure)),
    }
}

/// Admin rights come from the group table read at each call: once a name is
/// not among the members of the first `auth-admins` group, a session
/// authenticated under that name has none, however long it has been
/// authenticated.
pub proof fn lemma_admin_needs_membership(groups: Seq<GroupView>, name: Seq<char>, key: Seq<u8>)
    requires
        group_named(groups, admin_group()) is None || !group_named(
            groups,
            admin_group(),
        )->0.members.contains(name),
    ensures
        !is_admin(groups, LoginView::Authenticated { name, session_key: key }),
{
}

/// A login that starts for a name ends authenticated under that name with the
/// key the protocol step agreed on; when the finalization is rejected it ends
/// in a reset session with no key. How the session stood before the login
/// started does not matter.
pub proof fn lemma_login_flow(
    username: Seq<char>,
    state: Seq<u8>,
    response: Seq<u8>,
    key: Option<Seq<u8>>,
)
    ensures
        ({
            let (s1, r1) = begin_login_spec(username, Some((state, response)));
            let (s2, r2) = complete_login_spec(s1, key);
            &&& r1 == Ok::<Seq<u8>, RpcError>(response)
            &&& match key {
                Some(k) => r2 == Ok::<(), RpcError>(()) && s2.login == LoginView::Authenticated {
                    name: username,
                    session_key: k,
                },
                None => r2 == Err::<(), RpcError>(RpcError::AuthenticationFailure) && s2 == reset(),
            }
        }),
{
}

/// A registration that an authenticated session starts ends by handing out
/// the envelope with the name and user id given at its start, and the session's own
/// login is the same at every step.
pub proof fn lemma_registration_flow(
    s: SessionView,
    username: Seq<char>,
    uid: u32,
    response: Seq<u8>,
    envelope: Seq<u8>,
)
    ensures
        ({
            let (s1, r1) = accept_registration_spec(s, username, uid, Some(response));
            let (s2, r2) = commit_registration_spec(s1, Some(envelope));
            &&& r1 == Ok::<Seq<u8>, RpcError>(response)
            &&& s1.login == s.login
            &&& r2 == Ok::<(Seq<char>, u32, Seq<u8>), RpcError>((username, uid, envelope))
            &&& s2.login == s.login
            &&& s2.registering is None
        }),
{
}

fn admin_group_name() -> (r: String)
    ensures
        r@ == admin_group(),
{
    proof {
        reveal_strlit("auth-admins");
    }
    let r = string_from("auth-admins");
    assert(r@ =~= admin_group());
    r
}

fn contains_name(v: &Vec<String>, name: &String) -> (r: bool)
    ensures
        r == string_views(v@).contains(name@),
{
    for i in 0..v.len()
        invariant
            forall|j: int| 0 <= j < i ==> v@[j]@ != name@,
    {
        if v[i] == *name {
            assert(string_views(v@)[i as int] == name@);
            return true;
        }
    }
    assert forall|j: int| 0 <= j < string_views(v@).len() implies string_views(v@)[j] != name@ by {
        assert(string_views(v@)[j] == v@[j]@);
    }
    false
}

/// Relies on `zeroize::Zeroize` for `Vec<u8>`: overwrites the bytes in
/// place, then leaves the vector empty.
#[verifier::external_body]
fn wipe_bytes(v: &mut Vec<u8>)
    ensures
        final(v)@ == Seq::<u8>::empty(),
{
    zeroize::Zeroize::zeroize(v);
}

/// Whether `s` can name an envelope file.
pub fn is_envelope_name(s: &str) -> (r: bool)
    ensures
        r == envelope_name_ok(s@),
{
    let cs = chars_of(s);
    if cs.len() == 0 {
        return false;
    }
    if cs[0] == '.' && (cs.len() == 1 || (cs.len() == 2 && cs[1] == '.')) {
        assert(cs@ =~= seq!['.'] || cs@ =~= seq!['.', '.']);
        return false;
    }
    assert(!is_dot_dir(cs@)) by {
        if cs@ == seq!['.'] || cs@ == seq!['.', '.'] {
            assert(cs@[0] == '.');
        }
    }
    for i in 0..cs.len()
        invariant
            cs@ == s@,
            forall|j: int| 0 <= j < i ==> cs@[j] != ':' && cs@[j] != '\n' && cs@[j] != '/',
    {
        if cs[i] == ':' || cs[i] == '\n' || cs[i] == '/' {
            return false;
        }
    }
    true
}

/// The server's registration step outside a session, as an operator's
/// local tool runs it: answers `request` for `username` under `setup`.
pub fn registration_reply(setup: &[u8], request: &[u8], username: &str) -> (r: Result<
    Vec<u8>,
    RpcError,
>)
    ensures
        !envelope_name_ok(username@) ==> r == Err::<Vec<u8>, RpcError>(RpcError::InvalidRequest),
        envelope_name_ok(username@) ==> bytes_result(r) == match registration_response_of(
            setup@,
            request@,
            username@,
        ) {
            Some(m) => Ok::<Seq<u8>, RpcError>(m),
            None => Err(RpcError::AuthenticationFailure),
        },
{
    if !is_envelope_name(username) {
        return Err(RpcError::InvalidRequest);
    }
    match registration_response(setup, request, username) {
        Some(m) => Ok(m),
        None => Err(RpcError::AuthenticationFailure),
    }
}

/// The server's final registration step outside a session: the envelope to
/// store for the client's `upload`.
pub fn registration_envelope(upload: &[u8]) -> (r: Result<Vec<u8>, RpcError>)
    ensures
        bytes_result(r) == match envelope_of(upload@) {
            Some(e) => Ok::<Seq<u8>, RpcError>(e),
            None => Err(RpcError::AuthenticationFailure),
        },
{
    match envelope_from_upload(upload) {
        Some(e) => Ok(e),
        None => Err(RpcError::AuthenticationFailure),
    }
}

impl AuthdSession {
    /// A fresh, anonymous session.
    pub fn new() -> (r: AuthdSession)
        ensures
            r@ == reset(),
    {
        AuthdSession { login: LoginState::Anonymous, registering: None }
    }

    /// The name the session is authenticated as.
    pub fn authenticated_name(&self) -> (r: Option<&String>)
        ensures
            match self@.login {
                LoginView::Authenticated { name, .. } => r is Some && r->0@ == name,
                _ => r is None,
            },
    {
        match &self.login {
            LoginState::Authenticated { name, .. } => Some(name),
            _ => None,
        }
    }

    /// The key of an authenticated session.
    pub fn session_key(&self) -> (r: Option<&Vec<u8>>)
        ensures
            match self@.login {
                LoginView::Authenticated { session_key, .. } => r is Some && r->0@ == session_key,
                _ => r is None,
            },
    {
        match &self.login {
            LoginState::Authenticated { session_key, .. } => Some(session_key),
            _ => None,
        }
    }

    /// The name a login in progress claims.
    pub fn login_in_progress(&self) -> (r: Option<&String>)
        ensures
            match self@.login {
                LoginView::LoginInProgress { purported, .. } => r is Some && r->0@ == purported,
                _ => r is None,
            },
    {
        match &self.login {
            LoginState::LoginInProgress { purported, .. } => Some(purported),
            _ => None,
        }
    }

    /// The user name of a registration in progress.
    pub fn pending_registration(&self) -> (r: Option<&String>)
        ensures
            match self@.registering {
                Some((name, _)) => r is Some && r->0@ == name,
                None => r is None,
            },
    {
        match &self.registering {
            Some(reg) => Some(&reg.username),
            None => None,
        }
    }

    /// Overwrites the secret bytes of the login state: the server's login
    /// state or the session key.
    fn discard_secrets(&mut self)
        ensures
            final(self)@.registering == old(self)@.registering,
    {
        match &mut self.login {
            LoginState::LoginInProgress { server_state, .. } => wipe_bytes(server_state),
            LoginState::Authenticated { session_key, .. } => wipe_bytes(session_key),
            LoginState::Anonymous => {},
        }
    }

    /// Makes the session anonymous with nothing pending, overwriting its
    /// secret bytes first. Called by every failed step, and when the
    /// connection closes.
    pub fn wipe(&mut self)
        ensures
            final(self)@ == reset(),
    {
        self.discard_secrets();
        self.login = LoginState::Anonymous;
        self.registering = None;
    }

    /// Whether the session is authenticated as an admin according to the
    /// group table of `files`, read at this call.
    pub fn auth_admin(&self, files: &Files) -> (r: bool)
        ensures
            r == is_admin(files@.group.data, self@.login),
    {
        match &self.login {
            LoginState::Authenticated { name, .. } => {
                let admins = admin_group_name();
                match files.group_by_name(&admins) {
                    Some(g) => contains_name(&g.members, name),
                    None => false,
                }
            },
            _ => false,
        }
    }

    /// Takes the outcome of the server's first login step for `username`.
    pub fn begin_login(&mut self, username: String, outcome: Option<(Vec<u8>, Vec<u8>)>) -> (r:
        Result<Vec<u8>, RpcError>)
        ensures
            ({
                let o = match outcome {
                    Some((st, m)) => Some((st@, m@)),
                    None => None,
                };
                (final(self)@, bytes_result(r)) == begin_login_spec(username@, o)
            }),
    {
        match outcome {
            Some((server_state, response)) => {
                self.discard_secrets();
                self.login = LoginState::LoginInProgress { server_state, purported: username };
                self.registering = None;
                Ok(response)
            },
            None => {
                self.wipe();
                Err(RpcError::AuthenticationFailure)
            },
        }
    }

    /// The first login step: answers the client's credential request for
    /// `username`, with the user's envelope when one is stored. A missing
    /// envelope does not end the step early: the protocol step runs on a
    /// stand-in, so that the answer looks alike either way. The envelope's
    /// bytes are overwritten once used.
    pub fn start_login(
        &mut self,
        setup: &[u8],
        username: String,
        envelope: Option<Vec<u8>>,
        request: &[u8],
    ) -> (r: Result<Vec<u8>, RpcError>)
        ensures
            match r {
                Ok(_) => final(self)@.registering is None && (match final(self)@.login {
                    LoginView::LoginInProgress { purported, .. } => purported == username@,
                    _ => false,
                }),
                Err(e) => e == RpcError::AuthenticationFailure && final(self)@ == reset(),
            },
    {
        let outcome = match &envelope {
            Some(e) => login_response(setup, Some(e), request, username.as_str()),
            None => login_response(setup, None, request, username.as_str()),
        };
        if let Some(mut e) = envelope {
            wipe_bytes(&mut e);
        }
        self.begin_login(username, outcome)
    }

    /// Takes the session key that the server's second login step returned.
    pub fn complete_login(&mut self, key: Option<Vec<u8>>) -> (r: Result<(), RpcError>)
        ensures
            (final(self)@, r) == complete_login_spec(old(self)@, opt_bytes(key)),
    {
        let purported = match &self.login {
            LoginState::LoginInProgress { purported, .. } => purported.clone(),
            _ => {
                self.wipe();
                return Err(RpcError::AuthenticationFailure);
            },
        };
        match key {
            Some(session_key) => {
                self.discard_secrets();
                self.login = LoginState::Authenticated { name: purported, session_key };
                self.registering = None;
                Ok(())
            },
            None => {
                self.wipe();
                Err(RpcError::AuthenticationFailure)
            },
        }
    }

    /// The second login step: checks the client's finalization against the
    /// login in progress. Out of order, or with a wrong password, the session
    /// is reset.
    pub fn finish_login(&mut self, finalization: &[u8]) -> (r: Result<(), RpcError>)
        ensures
            ({
                let k = match old(self)@.login {
                    LoginView::LoginInProgress { server_state, .. } => login_key_of(
                        server_state,
                        finalization@,
                    ),
                    _ => None,
                };
                (final(self)@, r) == complete_login_spec(old(self)@, k)
            }),
            r is Ok ==> match final(self)@.login {
                LoginView::Authenticated { session_key, .. } => session_key.len() == 64,
                _ => false,
            },
    {
        let key = match &self.login {
            LoginState::LoginInProgress { server_state, .. } => login_key(
                server_state.as_slice(),
                finalization,
            ),
            _ => None,
        };
        self.complete_login(key)
    }

    /// Takes the response that the server's registration step returned for
    /// an admitted registration.
    pub fn accept_registration(&mut self, username: String, uid: u32, response: Option<Vec<u8>>) -> (r:
        Result<Vec<u8>, RpcError>)
        ensures
            ({
                (final(self)@, bytes_result(r)) == accept_registration_spec(
                    old(self)@,
                    username@,
                    uid,
                    opt_bytes(response),
                )
            }),
    {
        match response {
            Some(m) => {
                self.registering = Some(Registration { username, uid });
                Ok(m)
            },
            None => {
                self.wipe();
                Err(RpcError::AuthenticationFailure)
            },
        }
    }

    /// Starts registering `username` with `selected_uid`, answering the new
    /// user's registration request. Only an admin may, per the group table
    /// of `files` at this call; a user id must be given and the name must be
    /// able to name an envelope.
    pub fn register_new_user(
        &mut self,
        files: &Files,
        setup: &[u8],
        username: String,
        selected_uid: Option<u32>,
        request: &[u8],
    ) -> (r: Result<Vec<u8>, RpcError>)
        ensures
            !is_admin(files@.group.data, old(self)@.login) ==> r == Err::<Vec<u8>, RpcError>(
                RpcError::NotAuthorized,
            ) && final(self)@ == old(self)@,
            is_admin(files@.group.data, old(self)@.login) && (selected_uid is None
                || !envelope_name_ok(username@)) ==> r == Err::<Vec<u8>, RpcError>(
                RpcError::InvalidRequest,
            ) && final(self)@ == old(self)@,
            is_admin(files@.group.data, old(self)@.login) && selected_uid is Some
                && envelope_name_ok(username@) ==> (final(self)@, bytes_result(r))
                == accept_registration_spec(
                old(self)@,
                username@,
                selected_uid->0,
                registration_response_of(setup@, request@, username@),
            ),
    {
        if !self.auth_admin(files) {
            return Err(RpcError::NotAuthorized);
        }
        let uid = match selected_uid {
            Some(u) => u,
            None => {
                return Err(RpcError::InvalidRequest);
            },
        };
        if !is_envelope_name(username.as_str()) {
            return Err(RpcError::InvalidRequest);
        }
        let response = registration_response(setup, request, username.as_str());
        self.accept_registration(username, uid, response)
    }

    /// Takes the envelope that the server's final registration step
    /// returned.
    pub fn commit_registration(&mut self, envelope: Option<Vec<u8>>) -> (r: Result<
        NewUser,
        RpcError,
    >)
        ensures
            ({
                (final(self)@, new_user_result(r)) == commit_registration_spec(
                    old(self)@,
                    opt_bytes(envelope),
                )
            }),
    {
        let reg = match self.registering.take() {
            Some(reg) => reg,
            None => {
                self.wipe();
                return Err(RpcError::AuthenticationFailure);
            },
        };
        match envelope {
            Some(envelope) => Ok(NewUser { username: reg.username, uid: reg.uid, envelope }),
            None => {
                self.wipe();
                Err(RpcError::AuthenticationFailure)
            },
        }
    }

    /// Finishes the registration in progress with the new user's upload,
    /// handing out the registered name and user id and the envelope to store
    /// under that name. Only an
    /// admin may, per the group table of `files` at this call.
    pub fn finish_registration(&mut self, files: &Files, upload: &[u8]) -> (r: Result<
        NewUser,
        RpcError,
    >)
        ensures
            !is_admin(files@.group.data, old(self)@.login) ==> r is Err && r->Err_0
                == RpcError::NotAuthorized && final(self)@ == old(self)@,
            is_admin(files@.group.data, old(self)@.login) ==> (final(self)@, new_user_result(r))
                == commit_registration_spec(
                old(self)@,
                match old(self)@.registering {
                    Some(_) => envelope_of(upload@),
                    None => None,
                },
            ),
    {
        if !self.auth_admin(files) {
            return Err(RpcError::NotAuthorized);
        }
        let envelope = match &self.registering {
            Some(_) => envelope_from_upload(upload),
            None => None,
        };
        self.commit_registration(envelope)
    }
}

} // verus!
