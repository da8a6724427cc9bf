//! The aPAKE cipher suite and the server's four protocol steps. Messages,
//! setups, login states and envelopes cross this boundary as their byte
//! encodings.
use vstd::prelude::*;
use opaque_ke::rand::rngs::OsRng;
use opaque_ke::{
    CredentialFinalization, CredentialRequest, RegistrationRequest, RegistrationUpload,
    ServerLogin, ServerLoginStartParameters, ServerRegistration, ServerSetup,
};

verus! {

#[verifier::external_type_specification]
#[verifier::external_body]
pub struct ExRistretto255(opaque_ke::Ristretto255);

#[verifier::external_type_specification]
#[verifier::external_body]
pub struct ExTripleDh(opaque_ke::key_exchange::tripledh::TripleDh);

#[verifier::external_type_specification]
#[verifier::external_body]
pub struct ExIdentity(opaque_ke::ksf::Identity);

/// The one cipher suite of the system: Ristretto255 for the OPRF and the key
/// exchange, triple Diffie-Hellman, no key stretching.
pub struct DefaultCipherSuite;

impl opaque_ke::CipherSuite for DefaultCipherSuite {
    type OprfCs = opaque_ke::Ristretto255;
    type KeGroup = opaque_ke::Ristretto255;
    type KeyExchange = opaque_ke::key_exchange::tripledh::TripleDh;
    type Ksf = opaque_ke::ksf::Identity;
}

/// The registration response that the server computes for a request, given
/// its setup and the user name; `None` when the setup or request is not
/// well formed.
pub uninterp spec fn registration_response_of(
    setup: Seq<u8>,
    request: Seq<u8>,
    name: Seq<char>,
) -> Option<Seq<u8>>;

/// The envelope that the server stores for a client's registration upload;
/// `None` when the upload is not well formed.
pub uninterp spec fn envelope_of(upload: Seq<u8>) -> Option<Seq<u8>>;

/// The session key that a server login state and a client's finalization
/// agree on; `None` when the finalization does not prove knowledge of the
/// password, or either input is not well formed.
pub uninterp spec fn login_key_of(state: Seq<u8>, finalization: Seq<u8>) -> Option<Seq<u8>>;

/// The bytes of an optional byte vector.
pub open spec fn opt_bytes(r: Option<Vec<u8>>) -> Option<Seq<u8>> {
    match r {
        Some(v) => Some(v@),
        None => None,
    }
}

/// Relies on `opaque_ke::ServerRegistration::start`: the response depends on
/// the setup, the request and the user name alone.
#[verifier::external_body]
pub(crate) fn registration_response(setup: &[u8], request: &[u8], name: &str) -> (r: Option<
    Vec<u8>,
>)
    ensures
        opt_bytes(r) == registration_response_of(setup@, request@, name@),
{
    let setup = ServerSetup::<DefaultCipherSuite>::deserialize(setup).ok()?;
    let request = RegistrationRequest::<DefaultCipherSuite>::deserialize(request).ok()?;
    let started = ServerRegistration::start(&setup, request, name.as_bytes()).ok()?;
    Some(started.message.serialize().to_vec())
}

/// Relies on `opaque_ke::ServerRegistration::finish`: the envelope depends on
/// the client's upload alone.
#[verifier::external_body]
pub(crate) fn envelope_from_upload(upload: &[u8]) -> (r: Option<Vec<u8>>)
    ensures
        opt_bytes(r) == envelope_of(upload@),
{
    let upload = RegistrationUpload::<DefaultCipherSuite>::deserialize(upload).ok()?;
    Some(ServerRegistration::<DefaultCipherSuite>::finish(upload).serialize().to_vec())
}

/// Relies on `opaque_ke::ServerLogin::start`, drawing randomness from the
/// operating system. An absent or unreadable envelope is replaced inside the
/// call by a dummy one, so that the response looks the same whether or not
/// the user is registered. Returns the server's login state and the response.
#[verifier::external_body]
pub(crate) fn login_response(
    setup: &[u8],
    envelope: Option<&Vec<u8>>,
    request: &[u8],
    name: &str,
) -> Option<(Vec<u8>, Vec<u8>)> {
    let setup = ServerSetup::<DefaultCipherSuite>::deserialize(setup).ok()?;
    let envelope = match envelope {
        Some(e) => ServerRegistration::<DefaultCipherSuite>::deserialize(e).ok(),
        None => None,
    };
    let request = CredentialRequest::<DefaultCipherSuite>::deserialize(request).ok()?;
    let params = ServerLoginStartParameters::default();
    let started = ServerLogin::start(&mut OsRng, &setup, envelope, request, name.as_bytes(), params)
        .ok()?;
    Some((started.state.serialize().to_vec(), started.message.serialize().to_vec()))
}

/// Relies on `opaque_ke::ServerLogin::finish`: the session key depends on the
/// login state and the client's finalization alone, and is one output of the
/// suite's hash, SHA-512: 64 bytes.
#[verifier::external_body]
pub(crate) fn login_key(state: &[u8], finalization: &[u8]) -> (r: Option<Vec<u8>>)
    ensures
        opt_bytes(r) == login_key_of(state@, finalization@),
        r is Some ==> r->0@.len() == 64,
{
    let state = ServerLogin::<DefaultCipherSuite>::deserialize(state).ok()?;
    let finalization = CredentialFinalization::<DefaultCipherSuite>::deserialize(finalization).ok()?;
    Some(state.finish(finalization).ok()?.session_key.to_vec())
}

} // verus!
