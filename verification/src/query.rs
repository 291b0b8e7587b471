//! Queries: which connection a request needs, how it is opened, and how rows
//! become JSON.
use crate::json;
use crate::text;
use openssl::error::ErrorStack;
use openssl::pkey::{PKey, Private};
use openssl::x509::X509;
use serde_json::{Map as JsonMap, Value};
use vstd::prelude::*;

verus! {

/// The port of a request that names none.
pub const DEFAULT_PORT: u16 = 5432;

/// The SSL mode of a request that names none.
pub const DEFAULT_SSLMODE: &'static str = "prefer";

/// The number of live connections that are kept.
pub const MAX_CONNECTIONS: u64 = 100;

/// A query, with all that is needed to reach its database.
pub struct QueryRequest {
    pub host: String,
    pub port: Option<u16>,
    pub dbname: String,
    pub user: String,
    pub password: Option<String>,
    pub sslmode: Option<String>,
    pub sslcert: Option<String>,
    pub sslkey: Option<String>,
    pub sslrootcert: Option<String>,
    pub query: String,
    /// The parameters, each as JSON text.
    pub params: Option<Vec<String>>,
}

/// The text of an optional field, `default` where it is missing.
pub open spec fn text_or(t: Option<String>, default: Seq<char>) -> Seq<char> {
    match t {
        Some(s) => s@,
        None => default,
    }
}

fn copy_or(t: &Option<String>, default: &str) -> (r: String)
    ensures
        r@ == text_or(*t, default@),
{
    match t {
        Some(s) => s.clone(),
        None => default.to_owned(),
    }
}

/// The port of a request.
pub open spec fn port_of(req: QueryRequest) -> u16 {
    match req.port {
        Some(p) => p,
        None => DEFAULT_PORT,
    }
}

fn request_port(req: &QueryRequest) -> (r: u16)
    ensures
        r == port_of(*req),
{
    match req.port {
        Some(p) => p,
        None => DEFAULT_PORT,
    }
}

/// The SSL mode of a request.
pub open spec fn sslmode_of(req: QueryRequest) -> Seq<char> {
    text_or(req.sslmode, DEFAULT_SSLMODE@)
}

// ---------------------------------------------------------------------------
// Connection keys
// ---------------------------------------------------------------------------

/// What a live connection is found by: all that a request says about it.
#[derive(Clone, PartialEq, Eq, Hash)]
pub struct ConnectionKey {
    pub host: String,
    pub port: u16,
    pub dbname: String,
    pub user: String,
    pub password: String,
    pub sslmode: String,
    pub sslcert: String,
    pub sslkey: String,
    pub sslrootcert: String,
}

/// A connection key as text.
pub struct KeyView {
    pub host: Seq<char>,
    pub port: u16,
    pub dbname: Seq<char>,
    pub user: Seq<char>,
    pub password: Seq<char>,
    pub sslmode: Seq<char>,
    pub sslcert: Seq<char>,
    pub sslkey: Seq<char>,
    pub sslrootcert: Seq<char>,
}

impl View for ConnectionKey {
    type V = KeyView;

    open spec fn view(&self) -> KeyView {
        KeyView {
            host: self.host@,
            port: self.port,
            dbname: self.dbname@,
            user: self.user@,
            password: self.password@,
            sslmode: self.sslmode@,
            sslcert: self.sslcert@,
            sslkey: self.sslkey@,
            sslrootcert: self.sslrootcert@,
        }
    }
}

/// The key of the connection that a request needs. A field that is missing
/// counts as its default.
pub open spec fn key_of(req: QueryRequest) -> KeyView {
    KeyView {
        host: req.host@,
        port: port_of(req),
        dbname: req.dbname@,
        user: req.user@,
        password: text_or(req.password, Seq::empty()),
        sslmode: sslmode_of(req),
        sslcert: text_or(req.sslcert, Seq::empty()),
        sslkey: text_or(req.sslkey, Seq::empty()),
        sslrootcert: text_or(req.sslrootcert, Seq::empty()),
    }
}

impl ConnectionKey {
    /// The key of the connection that a request needs.
    pub fn from_request(req: &QueryRequest) -> (r: ConnectionKey)
        ensures
            r@ == key_of(*req),
    {
        proof {
            reveal_strlit("");
            assert(""@ =~= Seq::empty());
        }
        ConnectionKey {
            host: req.host.clone(),
            port: request_port(req),
            dbname: req.dbname.clone(),
            user: req.user.clone(),
            password: copy_or(&req.password, ""),
            sslmode: copy_or(&req.sslmode, DEFAULT_SSLMODE),
            sslcert: copy_or(&req.sslcert, ""),
            sslkey: copy_or(&req.sslkey, ""),
            sslrootcert: copy_or(&req.sslrootcert, ""),
        }
    }
}

// ---------------------------------------------------------------------------
// SSL modes
// ---------------------------------------------------------------------------

/// How TLS is negotiated and what of the server is verified.
pub struct SslPolicy {
    pub pg_sslmode: &'static str,
    pub verify_peer: bool,
    pub verify_hostname: bool,
}

/// The wire mode of an SSL mode: `allow` and unknown modes count as `prefer`.
pub open spec fn wire_mode(sslmode: Seq<char>) -> Seq<char> {
    if sslmode == "disable"@ {
        "disable"@
    } else if sslmode == "require"@ || sslmode == "verify-ca"@ || sslmode == "verify-full"@ {
        "require"@
    } else {
        "prefer"@
    }
}

/// Whether an SSL mode asks for the server's certificate chain to be verified.
pub open spec fn verifies_peer(sslmode: Seq<char>) -> bool {
    sslmode == "verify-ca"@ || sslmode == "verify-full"@
}

/// Whether an SSL mode asks for the server's name to be verified.
pub open spec fn verifies_hostname(sslmode: Seq<char>) -> bool {
    sslmode == "verify-full"@
}

/// Whether a policy is the one for an SSL mode.
pub open spec fn is_policy_of(policy: SslPolicy, sslmode: Seq<char>) -> bool {
    &&& policy.pg_sslmode@ == wire_mode(sslmode)
    &&& policy.verify_peer == verifies_peer(sslmode)
    &&& policy.verify_hostname == verifies_hostname(sslmode)
}

/// The policy for an SSL mode.
pub fn ssl_policy(sslmode: &str) -> (r: SslPolicy)
    ensures
        is_policy_of(r, sslmode@),
{
    proof {
        lemma_modes_differ();
    }
    if text::same(sslmode, "disable") {
        SslPolicy { pg_sslmode: "disable", verify_peer: false, verify_hostname: false }
    } else if text::same(sslmode, "require") {
        SslPolicy { pg_sslmode: "require", verify_peer: false, verify_hostname: false }
    } else if text::same(sslmode, "verify-ca") {
        SslPolicy { pg_sslmode: "require", verify_peer: true, verify_hostname: false }
    } else if text::same(sslmode, "verify-full") {
        SslPolicy { pg_sslmode: "require", verify_peer: true, verify_hostname: true }
    } else {
        SslPolicy { pg_sslmode: "prefer", verify_peer: false, verify_hostname: false }
    }
}

proof fn lemma_modes_differ()
    ensures
        "disable"@ != "require"@,
        "disable"@ != "prefer"@,
        "require"@ != "prefer"@,
        "disable"@ != "verify-ca"@,
        "disable"@ != "verify-full"@,
        "require"@ != "verify-ca"@,
        "require"@ != "verify-full"@,
        "verify-ca"@ != "verify-full"@,
{
    reveal_strlit("disable");
    reveal_strlit("require");
    reveal_strlit("prefer");
    reveal_strlit("verify-ca");
    reveal_strlit("verify-full");
    assert("disable"@[0] == 'd');
    assert("require"@[0] == 'r');
    assert("prefer"@[0] == 'p');
    assert("verify-ca"@[0] == 'v');
    assert("verify-full"@[0] == 'v');
    assert("verify-ca"@.len() != "verify-full"@.len());
}

/// A server's name is only verified together with its certificate chain, and
/// both only over a connection that cannot fall back to plain text.
pub proof fn verification_needs_tls(sslmode: Seq<char>)
    ensures
        verifies_hostname(sslmode) ==> verifies_peer(sslmode),
        verifies_peer(sslmode) ==> wire_mode(sslmode) == "require"@,
{
    lemma_modes_differ();
}

/// A mode that is not known counts as the default mode.
pub proof fn unknown_modes_are_the_default(sslmode: Seq<char>)
    requires
        sslmode != "disable"@,
        sslmode != "require"@,
        sslmode != "verify-ca"@,
        sslmode != "verify-full"@,
    ensures
        wire_mode(sslmode) == wire_mode(DEFAULT_SSLMODE@),
        verifies_peer(sslmode) == verifies_peer(DEFAULT_SSLMODE@),
        verifies_hostname(sslmode) == verifies_hostname(DEFAULT_SSLMODE@),
{
    reveal_strlit("prefer");
    reveal_strlit("verify-ca");
    reveal_strlit("verify-full");
    lemma_modes_differ();
    assert("prefer"@[0] != "verify-ca"@[0]);
    assert("prefer"@[0] != "verify-full"@[0]);
}

// ---------------------------------------------------------------------------
// Opening a connection
// ---------------------------------------------------------------------------

/// How TLS is negotiated on the wire.
pub enum WireMode {
    Disable,
    Prefer,
    Require,
}

/// The wire mode with a name.
pub open spec fn mode_named(name: Seq<char>) -> WireMode {
    if name == "disable"@ {
        WireMode::Disable
    } else if name == "require"@ {
        WireMode::Require
    } else {
        WireMode::Prefer
    }
}

/// What a connection is opened with.
pub struct ConnectionSettings {
    pub host: String,
    pub port: u16,
    pub dbname: String,
    pub user: String,
    pub password: Option<String>,
    pub mode: WireMode,
}

/// What a connection is opened with, as text.
pub struct SettingsView {
    pub host: Seq<char>,
    pub port: u16,
    pub dbname: Seq<char>,
    pub user: Seq<char>,
    pub password: Option<Seq<char>>,
    pub mode: WireMode,
}

impl View for ConnectionSettings {
    type V = SettingsView;

    open spec fn view(&self) -> SettingsView {
        SettingsView {
            host: self.host@,
            port: self.port,
            dbname: self.dbname@,
            user: self.user@,
            password: match self.password {
                Some(p) => Some(p@),
                None => None,
            },
            mode: self.mode,
        }
    }
}

/// What a request's connection is opened with: host, database and user without
/// white space around them, and the password without the line end of the file
/// that it may come from.
pub open spec fn settings_of(req: QueryRequest) -> SettingsView {
    SettingsView {
        host: text::trimmed(req.host@),
        port: port_of(req),
        dbname: text::trimmed(req.dbname@),
        user: text::trimmed(req.user@),
        password: match req.password {
            Some(p) => Some(text::without_line_end(p@)),
            None => None,
        },
        mode: mode_named(wire_mode(sslmode_of(req))),
    }
}

/// The policy for a request.
pub fn request_policy(req: &QueryRequest) -> (r: SslPolicy)
    ensures
        is_policy_of(r, sslmode_of(*req)),
{
    ssl_policy(&copy_or(&req.sslmode, DEFAULT_SSLMODE))
}

/// Finds what a request's connection is opened with.
pub fn connection_settings(req: &QueryRequest) -> (r: ConnectionSettings)
    ensures
        r@ == settings_of(*req),
{
    let policy = request_policy(req);
    proof {
        lemma_modes_differ();
    }
    let mode = if text::same(policy.pg_sslmode, "disable") {
        WireMode::Disable
    } else if text::same(policy.pg_sslmode, "require") {
        WireMode::Require
    } else {
        WireMode::Prefer
    };
    let password = match &req.password {
        Some(p) => Some(text::trim_line_end(p)),
        None => None,
    };
    ConnectionSettings {
        host: text::trim(&req.host),
        port: request_port(req),
        dbname: text::trim(&req.dbname),
        user: text::trim(&req.user),
        password,
        mode,
    }
}

/// One step in setting up TLS.
pub enum TlsStep {
    /// The server's certificate chain is verified, or not.
    VerifyPeer(bool),
    /// A root certificate, as PEM, is trusted besides those of the system.
    TrustRoot(String),
    /// The client's certificate, as PEM.
    ClientCertificate(String),
    /// The client's private key, as PEM.
    ClientKey(String),
    /// The server's name is verified, or not.
    VerifyHostname(bool),
}

/// One step in setting up TLS, with its PEM as text.
pub enum TlsStepView {
    VerifyPeer(bool),
    TrustRoot(Seq<char>),
    ClientCertificate(Seq<char>),
    ClientKey(Seq<char>),
    VerifyHostname(bool),
}

impl View for TlsStep {
    type V = TlsStepView;

    open spec fn view(&self) -> TlsStepView {
        match self {
            TlsStep::VerifyPeer(b) => TlsStepView::VerifyPeer(*b),
            TlsStep::TrustRoot(p) => TlsStepView::TrustRoot(p@),
            TlsStep::ClientCertificate(p) => TlsStepView::ClientCertificate(p@),
            TlsStep::ClientKey(p) => TlsStepView::ClientKey(p@),
            TlsStep::VerifyHostname(b) => TlsStepView::VerifyHostname(*b),
        }
    }
}

/// The steps as text.
pub open spec fn step_views(v: Seq<TlsStep>) -> Seq<TlsStepView> {
    v.map_values(|s: TlsStep| s@)
}

/// The step that an optional PEM asks for.
pub open spec fn optional_step(
    pem: Option<String>,
    step: spec_fn(Seq<char>) -> TlsStepView,
) -> Seq<TlsStepView> {
    match pem {
        Some(p) => seq![step(p@)],
        None => Seq::empty(),
    }
}

/// The steps in setting up TLS for a request, in order. A root certificate only
/// counts where the server's certificate chain is verified.
pub open spec fn tls_steps_of(
    verify_peer: bool,
    verify_hostname: bool,
    req: QueryRequest,
) -> Seq<TlsStepView> {
    seq![TlsStepView::VerifyPeer(verify_peer)] + (if verify_peer {
        optional_step(req.sslrootcert, |p: Seq<char>| TlsStepView::TrustRoot(p))
    } else {
        Seq::empty()
    }) + optional_step(req.sslcert, |p: Seq<char>| TlsStepView::ClientCertificate(p))
        + optional_step(req.sslkey, |p: Seq<char>| TlsStepView::ClientKey(p))
        + seq![TlsStepView::VerifyHostname(verify_hostname)]
}

/// The steps in setting up TLS for a request.
pub fn tls_steps(policy: &SslPolicy, req: &QueryRequest) -> (r: Vec<TlsStep>)
    ensures
        step_views(r@) == tls_steps_of(policy.verify_peer, policy.verify_hostname, *req),
{
    let mut steps: Vec<TlsStep> = Vec::new();
    steps.push(TlsStep::VerifyPeer(policy.verify_peer));
    if policy.verify_peer {
        if let Some(pem) = &req.sslrootcert {
            steps.push(TlsStep::TrustRoot(pem.clone()));
        }
    }
    if let Some(pem) = &req.sslcert {
        steps.push(TlsStep::ClientCertificate(pem.clone()));
    }
    if let Some(pem) = &req.sslkey {
        steps.push(TlsStep::ClientKey(pem.clone()));
    }
    steps.push(TlsStep::VerifyHostname(policy.verify_hostname));
    assert(step_views(steps@) =~= tls_steps_of(
        policy.verify_peer,
        policy.verify_hostname,
        *req,
    ));
    steps
}

#[verifier::external_type_specification]
#[verifier::external_body]
pub struct ExX509(X509);

#[verifier::external_type_specification]
#[verifier::external_body]
pub struct ExPrivate(Private);

#[verifier::external_type_specification]
#[verifier::external_body]
#[verifier::reject_recursive_types(T)]
pub struct ExPKey<T>(PKey<T>);

#[verifier::external_type_specification]
#[verifier::external_body]
pub struct ExErrorStack(ErrorStack);

/// The longest PEM that can be read, in bytes.
pub const MAX_PEM: usize = 0x7fff_ffff;

/// Whether a PEM is short enough to be read.
pub open spec fn fits(pem: Seq<char>) -> bool {
    vstd::utf8::encode_utf8(pem).len() <= MAX_PEM
}

/// `X509::from_pem`. Which texts it reads depends on how OpenSSL is configured
/// and, for encrypted ones, on a pass phrase, so nothing is said of the result.
/// It asks for a pass phrase at the terminal of the process, if there is one, and
/// waits for it.
#[verifier::external_body]
fn read_certificate(pem: &str) -> (r: Result<X509, ErrorStack>)
    requires
        fits(pem@),
{
    X509::from_pem(pem.as_bytes())
}

/// `PKey::private_key_from_pem`. Which texts it reads depends on how OpenSSL is
/// configured and, for encrypted keys, on a pass phrase, so nothing is said of
/// the result. It asks for a pass phrase at the terminal of the process, if there
/// is one, and waits for it.
#[verifier::external_body]
fn read_private_key(pem: &str) -> (r: Result<PKey<Private>, ErrorStack>)
    requires
        fits(pem@),
{
    PKey::private_key_from_pem(pem.as_bytes())
}

/// A step in setting up TLS with its PEM read.
pub enum TlsAction {
    VerifyPeer(bool),
    TrustRoot(X509),
    ClientCertificate(X509),
    ClientKey(PKey<Private>),
    VerifyHostname(bool),
}

/// A PEM that cannot be read.
pub enum TlsError {
    Certificate(ErrorStack),
    PrivateKey(ErrorStack),
}

/// Whether a certificate, or the error, was read from a PEM.
pub closed spec fn is_certificate_of(pem: Seq<char>, x: Result<X509, ErrorStack>) -> bool {
    exists|p: &str| p@ == pem && #[trigger] call_ensures(read_certificate, (p,), x)
}

/// Whether a private key, or the error, was read from a PEM.
pub closed spec fn is_key_of(pem: Seq<char>, x: Result<PKey<Private>, ErrorStack>) -> bool {
    exists|p: &str| p@ == pem && #[trigger] call_ensures(read_private_key, (p,), x)
}

/// The action or the error once a trusted root was read.
pub open spec fn root_action(x: Result<X509, ErrorStack>) -> Result<TlsAction, TlsError> {
    match x {
        Ok(c) => Ok(TlsAction::TrustRoot(c)),
        Err(e) => Err(TlsError::Certificate(e)),
    }
}

/// The action or the error once the client's certificate was read.
pub open spec fn certificate_action(x: Result<X509, ErrorStack>) -> Result<TlsAction, TlsError> {
    match x {
        Ok(c) => Ok(TlsAction::ClientCertificate(c)),
        Err(e) => Err(TlsError::Certificate(e)),
    }
}

/// The action or the error once the client's private key was read.
pub open spec fn key_action(x: Result<PKey<Private>, ErrorStack>) -> Result<TlsAction, TlsError> {
    match x {
        Ok(k) => Ok(TlsAction::ClientKey(k)),
        Err(e) => Err(TlsError::PrivateKey(e)),
    }
}

/// What becomes of a step: the action of the same kind, with what was read from
/// the PEM of this step, or the error of reading that PEM.
pub open spec fn carries_out(step: TlsStep, r: Result<TlsAction, TlsError>) -> bool {
    match step {
        TlsStep::VerifyPeer(b) => r == Ok::<TlsAction, TlsError>(TlsAction::VerifyPeer(b)),
        TlsStep::TrustRoot(pem) => exists|x: Result<X509, ErrorStack>| #[trigger]
            is_certificate_of(pem@, x) && r == root_action(x),
        TlsStep::ClientCertificate(pem) => exists|x: Result<X509, ErrorStack>| #[trigger]
            is_certificate_of(pem@, x) && r == certificate_action(x),
        TlsStep::ClientKey(pem) => exists|x: Result<PKey<Private>, ErrorStack>| #[trigger]
            is_key_of(pem@, x) && r == key_action(x),
        TlsStep::VerifyHostname(b) => r == Ok::<TlsAction, TlsError>(TlsAction::VerifyHostname(b)),
    }
}

/// The trusted root that was read, or the error.
pub fn root_read(read: Result<X509, ErrorStack>) -> (r: Result<TlsAction, TlsError>)
    ensures
        r == root_action(read),
{
    match read {
        Ok(c) => Ok(TlsAction::TrustRoot(c)),
        Err(e) => Err(TlsError::Certificate(e)),
    }
}

/// The client's certificate that was read, or the error.
pub fn certificate_read(read: Result<X509, ErrorStack>) -> (r: Result<TlsAction, TlsError>)
    ensures
        r == certificate_action(read),
{
    match read {
        Ok(c) => Ok(TlsAction::ClientCertificate(c)),
        Err(e) => Err(TlsError::Certificate(e)),
    }
}

/// The client's private key that was read, or the error.
pub fn key_read(read: Result<PKey<Private>, ErrorStack>) -> (r: Result<TlsAction, TlsError>)
    ensures
        r == key_action(read),
{
    match read {
        Ok(k) => Ok(TlsAction::ClientKey(k)),
        Err(e) => Err(TlsError::PrivateKey(e)),
    }
}

/// Whether the PEM of a step, if it has one, is short enough to be read.
pub open spec fn step_fits(step: TlsStep) -> bool {
    match step {
        TlsStep::TrustRoot(pem) => fits(pem@),
        TlsStep::ClientCertificate(pem) => fits(pem@),
        TlsStep::ClientKey(pem) => fits(pem@),
        _ => true,
    }
}

/// Reads the PEM of a step. Steps without one never fail. Where a PEM is
/// encrypted and the process has a terminal, the pass phrase is asked for there.
pub fn prepare_step(step: &TlsStep) -> (r: Result<TlsAction, TlsError>)
    requires
        step_fits(*step),
    ensures
        carries_out(*step, r),
{
    match step {
        TlsStep::VerifyPeer(b) => Ok(TlsAction::VerifyPeer(*b)),
        TlsStep::TrustRoot(pem) => {
            let read = read_certificate;
            let x = read(pem.as_str());
            assert(is_certificate_of(pem@, x));
            root_read(x)
        },
        TlsStep::ClientCertificate(pem) => {
            let read = read_certificate;
            let x = read(pem.as_str());
            assert(is_certificate_of(pem@, x));
            certificate_read(x)
        },
        TlsStep::ClientKey(pem) => {
            let read = read_private_key;
            let x = read(pem.as_str());
            assert(is_key_of(pem@, x));
            key_read(x)
        },
        TlsStep::VerifyHostname(b) => Ok(TlsAction::VerifyHostname(*b)),
    }
}

/// Two optional fields are both given or both missing.
pub open spec fn both_or_none(a: Option<String>, b: Option<String>) -> bool {
    a is Some <==> b is Some
}

/// The steps in setting up TLS for a request, by its SSL mode.
pub open spec fn request_tls_steps(req: QueryRequest) -> Seq<TlsStepView> {
    tls_steps_of(verifies_peer(sslmode_of(req)), verifies_hostname(sslmode_of(req)), req)
}

/// Requests that share a connection ask for the same one: where they have the
/// same key and give the same optional fields, their connections are opened
/// with the same settings and the same TLS set-up.
pub proof fn same_key_same_connection(a: QueryRequest, b: QueryRequest)
    requires
        key_of(a) == key_of(b),
        both_or_none(a.password, b.password),
        both_or_none(a.sslcert, b.sslcert),
        both_or_none(a.sslkey, b.sslkey),
        both_or_none(a.sslrootcert, b.sslrootcert),
    ensures
        settings_of(a) == settings_of(b),
        request_tls_steps(a) == request_tls_steps(b),
{
    different_fields_different_keys(a, b);
    assert(request_tls_steps(a) =~= request_tls_steps(b));
}

/// Callers are kept apart: requests that differ in any field of the connection,
/// with missing fields at their defaults, have different keys.
pub proof fn different_fields_different_keys(a: QueryRequest, b: QueryRequest)
    ensures
        key_of(a) == key_of(b) <==> {
            &&& a.host@ == b.host@
            &&& port_of(a) == port_of(b)
            &&& a.dbname@ == b.dbname@
            &&& a.user@ == b.user@
            &&& text_or(a.password, Seq::empty()) == text_or(b.password, Seq::empty())
            &&& sslmode_of(a) == sslmode_of(b)
            &&& text_or(a.sslcert, Seq::empty()) == text_or(b.sslcert, Seq::empty())
            &&& text_or(a.sslkey, Seq::empty()) == text_or(b.sslkey, Seq::empty())
            &&& text_or(a.sslrootcert, Seq::empty()) == text_or(b.sslrootcert, Seq::empty())
        },
{
}

// ---------------------------------------------------------------------------
// Live connections
// ---------------------------------------------------------------------------

/// What to do for a connection.
pub enum ClientAction {
    /// Use the live connection that was found.
    Reuse,
    /// Drop the connection that was found, then open one.
    Reopen,
    /// Open a connection.
    Open,
}

/// Decides what to do for a connection. `found` tells of the connection under
/// the request's key, if there is one, whether it is closed.
pub fn choose_client(found: Option<bool>) -> (r: ClientAction)
    ensures
        match r {
            ClientAction::Reuse => found == Some(false),
            ClientAction::Reopen => found == Some(true),
            ClientAction::Open => found is None,
        },
{
    match found {
        Some(closed) => if closed {
            ClientAction::Reopen
        } else {
            ClientAction::Reuse
        },
        None => ClientAction::Open,
    }
}

/// The message for a connection that could not be opened, with all causes, from
/// the outermost to the innermost.
pub fn connect_error(causes: &Vec<String>) -> (r: String)
    ensures
        r@ == "Failed to connect: "@ + text::joined(text::views(causes@), ": "@),
{
    "Failed to connect: ".to_owned().concat(&text::join(causes, ": "))
}

// ---------------------------------------------------------------------------
// Parameters
// ---------------------------------------------------------------------------

/// What is bound for a parameter: a string as it is, anything else as JSON
/// text. `string` is the string that the text stands for, if it stands for one.
pub fn bound_text(text: &str, string: Option<String>) -> (r: String)
    ensures
        r@ == text_or(string, text@),
{
    match string {
        Some(s) => s,
        None => text.to_owned(),
    }
}

/// What is bound for a parameter that is given as JSON text.
pub open spec fn bound(text: Seq<char>) -> Seq<char> {
    match json::json_string(text) {
        Some(s) => s,
        None => text,
    }
}

/// Whether `b` is bound for a parameter whose JSON text shows at a glance what
/// it is: a string of literal text is bound as that text, and what is no string
/// is bound as it is written.
pub open spec fn binds(text: Seq<char>, b: Seq<char>) -> bool {
    &&& forall|s: Seq<char>| text == #[trigger] json::quoted(s) && json::is_literal(s) ==> b == s
    &&& json::starts_otherwise(text) ==> b == text
}

/// Finds what is bound for the parameters of a request.
pub fn bind_params(params: &Option<Vec<String>>) -> (r: Vec<String>)
    ensures
        text::views(r@) == (match *params {
            Some(p) => text::views(p@).map_values(|t: Seq<char>| bound(t)),
            None => Seq::empty(),
        }),
        params matches Some(p) ==> forall|i: int|
            0 <= i < p@.len() ==> binds(p@[i]@, (#[trigger] r@[i])@),
{
    let mut out: Vec<String> = Vec::new();
    if let Some(given) = params {
        let ghost wanted = text::views(given@).map_values(|t: Seq<char>| bound(t));
        let mut i: usize = 0;
        assert(text::views(out@) =~= wanted.take(0));
        while i < given.len()
            invariant
                i <= given@.len(),
                wanted == text::views(given@).map_values(|t: Seq<char>| bound(t)),
                text::views(out@) == wanted.take(i as int),
                out@.len() == i,
                forall|k: int| 0 <= k < i ==> binds(given@[k]@, (#[trigger] out@[k])@),
            decreases given@.len() - i,
        {
            let string = json::parse_json_string(&given[i]);
            let ghost before = out@;
            out.push(bound_text(&given[i], string));
            assert(text::views(out@) =~= text::views(before).push(out@.last()@));
            assert(wanted.take(i + 1) =~= wanted.take(i as int).push(wanted[i as int]));
            i += 1;
        }
        assert(wanted.take(i as int) =~= wanted);
    } else {
        assert(text::views(out@) =~= Seq::empty());
    }
    out
}

// ---------------------------------------------------------------------------
// Rows
// ---------------------------------------------------------------------------

/// How the cells of a column are read.
pub enum Decoding {
    Bool,
    Int2,
    Int4,
    Int8,
    Float4,
    Float8,
    Json,
    Text,
}

/// How the cells of a column with a PostgreSQL type are read: the types that
/// JSON has a counterpart of are told by their object identifiers, and
/// everything else is text.
pub open spec fn decoding_of(oid: u32) -> Decoding {
    if oid == 16 {
        Decoding::Bool
    } else if oid == 21 {
        Decoding::Int2
    } else if oid == 23 {
        Decoding::Int4
    } else if oid == 20 {
        Decoding::Int8
    } else if oid == 700 {
        Decoding::Float4
    } else if oid == 701 {
        Decoding::Float8
    } else if oid == 114 || oid == 3802 {
        Decoding::Json
    } else {
        Decoding::Text
    }
}

/// Finds how the cells of a column are read, if there is such a column.
pub fn column_decoding(oid: Option<u32>) -> (r: Option<Decoding>)
    ensures
        r == (match oid {
            Some(o) => Some(decoding_of(o)),
            None => None,
        }),
{
    match oid {
        Some(o) => Some(
            if o == 16 {
                Decoding::Bool
            } else if o == 21 {
                Decoding::Int2
            } else if o == 23 {
                Decoding::Int4
            } else if o == 20 {
                Decoding::Int8
            } else if o == 700 {
                Decoding::Float4
            } else if o == 701 {
                Decoding::Float8
            } else if o == 114 || o == 3802 {
                Decoding::Json
            } else {
                Decoding::Text
            },
        ),
        None => None,
    }
}

/// Whether a PostgreSQL type is one of text: `name`, `text`, `unknown`, `bpchar`
/// or `varchar`.
pub open spec fn is_text_type(oid: u32) -> bool {
    oid == 19 || oid == 25 || oid == 705 || oid == 1042 || oid == 1043
}

/// Whether the database has to turn the cells of a column into text: they are
/// to be read as text and are not of a type of text.
pub open spec fn needs_cast(oid: u32) -> bool {
    decoding_of(oid) is Text && !is_text_type(oid)
}

/// Tells whether the database has to turn the cells of a column into text.
pub fn column_needs_cast(oid: u32) -> (r: bool)
    ensures
        r == needs_cast(oid),
{
    let text = match column_decoding(Some(oid)) {
        Some(Decoding::Text) => true,
        _ => false,
    };
    text && !(oid == 19 || oid == 25 || oid == 705 || oid == 1042 || oid == 1043)
}

/// The type of a column once the database has turned its cells into text where
/// it has to.
pub open spec fn shown_type(oid: u32) -> u32 {
    if needs_cast(oid) {
        25
    } else {
        oid
    }
}

/// Every column can be read: what JSON has no counterpart of comes as text, in
/// a type of text, and everything else in its own type.
pub proof fn every_column_can_be_read(oid: u32)
    ensures
        !needs_cast(shown_type(oid)),
        decoding_of(shown_type(oid)) == decoding_of(oid),
        decoding_of(shown_type(oid)) is Text ==> is_text_type(shown_type(oid)),
{
}

/// The number of cells that one query turns into text at most: a query has no
/// room for more columns.
pub const MAX_CASTS: usize = 1664;

/// The columns of a query that turns `n` parameters into text.
pub open spec fn cast_columns(n: nat) -> Seq<Seq<char>> {
    Seq::new(n, |i: int| seq!['$'] + text::decimal((i + 1) as nat) + "::text"@)
}

/// The query that turns parameters, cells of a result among them, into text.
pub fn cast_query(n: usize) -> (r: String)
    requires
        n <= MAX_CASTS,
    ensures
        r@ == "SELECT "@ + text::joined(cast_columns(n as nat), ", "@),
{
    let mut columns: Vec<String> = Vec::new();
    let mut i: usize = 0;
    while i < n
        invariant
            i <= n <= MAX_CASTS,
            text::views(columns@) == cast_columns(n as nat).take(i as int),
        decreases n - i,
    {
        let mut column = String::new();
        column.push('$');
        text::push_decimal(&mut column, (i + 1) as u64);
        let column = column.concat("::text");
        assert(column@ =~= cast_columns(n as nat)[i as int]);
        let ghost before = columns@;
        columns.push(column);
        assert(text::views(columns@) =~= text::views(before).push(column@));
        assert(cast_columns(n as nat).take(i + 1) =~= cast_columns(n as nat).take(i as int).push(
            cast_columns(n as nat)[i as int],
        ));
        i += 1;
    }
    assert(cast_columns(n as nat).take(n as int) =~= cast_columns(n as nat));
    "SELECT ".to_owned().concat(&text::join(&columns, ", "))
}

/// The number of cells before cell `i` that are there.
pub open spec fn rank(present: Seq<bool>, i: int) -> nat
    decreases i,
{
    if i <= 0 {
        0
    } else {
        rank(present, i - 1) + (if present[i - 1] {
            1nat
        } else {
            0
        })
    }
}

/// Puts the texts of the cells of a column that are there into their places:
/// the first text belongs to the first of them, and so on. The other cells have
/// no text, and neither have those that no text is left for.
pub fn place_texts(present: &Vec<bool>, texts: Vec<Option<String>>) -> (r: Vec<Option<String>>)
    ensures
        r@.len() == present@.len(),
        forall|i: int|
            0 <= i < r@.len() ==> #[trigger] r@[i] == (if present@[i] && rank(present@, i)
                < texts@.len() {
                texts@[rank(present@, i) as int]
            } else {
                None
            }),
{
    let mut out: Vec<Option<String>> = Vec::new();
    let mut next: usize = 0;
    let mut i: usize = 0;
    while i < present.len()
        invariant
            i <= present@.len(),
            out@.len() == i,
            next == (if rank(present@, i as int) < texts@.len() {
                rank(present@, i as int)
            } else {
                texts@.len()
            }),
            forall|k: int|
                0 <= k < i ==> #[trigger] out@[k] == (if present@[k] && rank(present@, k)
                    < texts@.len() {
                    texts@[rank(present@, k) as int]
                } else {
                    None
                }),
        decreases present@.len() - i,
    {
        if present[i] && next < texts.len() {
            let text = match &texts[next] {
                Some(t) => Some(t.clone()),
                None => None,
            };
            out.push(text);
            next += 1;
        } else {
            out.push(None);
        }
        i += 1;
    }
    out
}

/// The value of a cell, or nothing for what becomes `null`: an SQL `NULL`, and
/// a cell that could not be read.
pub fn cell_value<T>(read: Option<Option<T>>) -> (r: Option<T>)
    ensures
        r == (match read {
            Some(cell) => cell,
            None => None,
        }),
{
    match read {
        Some(cell) => cell,
        None => None,
    }
}

/// The columns of a row, with their names as text.
pub open spec fn column_list(columns: Seq<(String, Value)>) -> Seq<(Seq<char>, Value)> {
    columns.map_values(|c: (String, Value)| (c.0@, c.1))
}

/// A row as a map from column names to values; of columns with the same name
/// the last one counts.
pub open spec fn row_fields(columns: Seq<(Seq<char>, Value)>) -> Map<Seq<char>, Value>
    decreases columns.len(),
{
    if columns.len() == 0 {
        Map::empty()
    } else {
        row_fields(columns.drop_last()).insert(columns.last().0, columns.last().1)
    }
}

/// Makes a JSON object of the columns of a row.
pub fn row_object(columns: Vec<(String, Value)>) -> (r: JsonMap<String, Value>)
    ensures
        json::object_fields(r) == row_fields(column_list(columns@)),
{
    let ghost list = column_list(columns@);
    let mut object = json::new_object();
    assert(json::object_fields(object) =~= row_fields(list.take(0)));
    for column in it: columns.into_iter()
        invariant
            it.seq() == columns@,
            list == column_list(columns@),
            json::object_fields(object) == row_fields(list.take(it.index())),
    {
        let ghost i = it.index();
        assert(list.take(i + 1).drop_last() =~= list.take(i));
        assert(list[i] == (column.0@, column.1));
        json::insert_field(&mut object, column.0, column.1);
    }
    assert(list.take(list.len() as int) =~= list);
    object
}

/// The last column of a name is in the row's object, with its value.
pub proof fn row_shows_last_columns(columns: Seq<(Seq<char>, Value)>, i: int)
    requires
        0 <= i < columns.len(),
        forall|j: int| i < j < columns.len() ==> (#[trigger] columns[j]).0 != columns[i].0,
    ensures
        row_fields(columns).contains_key(columns[i].0),
        row_fields(columns)[columns[i].0] == columns[i].1,
    decreases columns.len(),
{
    let rest = columns.drop_last();
    if i < rest.len() {
        assert(columns[columns.len() - 1].0 != columns[i].0);
        assert forall|j: int| i < j < rest.len() implies (#[trigger] rest[j]).0 != rest[i].0 by {
            assert(columns[j].0 != columns[i].0);
        }
        row_shows_last_columns(rest, i);
    }
}

/// A name is in the row's object only if one of the columns has it.
pub proof fn row_shows_only_its_columns(columns: Seq<(Seq<char>, Value)>, name: Seq<char>)
    requires
        row_fields(columns).contains_key(name),
    ensures
        exists|i: int| 0 <= i < columns.len() && (#[trigger] columns[i]).0 == name,
    decreases columns.len(),
{
    if columns.last().0 == name {
        assert(columns[columns.len() - 1].0 == name);
    } else {
        let rest = columns.drop_last();
        row_shows_only_its_columns(rest, name);
        let i = choose|i: int| 0 <= i < rest.len() && (#[trigger] rest[i]).0 == name;
        assert(columns[i].0 == name);
    }
}

// ---------------------------------------------------------------------------
// The answer to the caller
// ---------------------------------------------------------------------------

/// The answer to the caller: a status, and the rows or an error message.
pub struct QueryReply {
    pub status: u16,
    pub body: Result<Vec<JsonMap<String, Value>>, String>,
}

/// Answers a query. A failure is told with all its causes, from the outermost
/// to the innermost.
pub fn query_reply(result: Result<Vec<JsonMap<String, Value>>, Vec<String>>) -> (r: QueryReply)
    ensures
        match result {
            Ok(rows) => r.status == 200 && r.body == Ok::<Vec<JsonMap<String, Value>>, String>(
                rows,
            ),
            Err(causes) => r.status == 400 && (r.body matches Err(m) && m@ == text::joined(
                text::views(causes@),
                ": "@,
            )),
        },
{
    match result {
        Ok(rows) => QueryReply { status: 200, body: Ok(rows) },
        Err(causes) => QueryReply { status: 400, body: Err(text::join(&causes, ": ")) },
    }
}

// ---------------------------------------------------------------------------
// What holds of every call
// ---------------------------------------------------------------------------

/// The table of SSL modes: only `disable` is plain text alone, only `require`
/// and the two modes that verify demand TLS, and everything else tries it. Only
/// the two modes that verify look at the certificate chain, and only the last
/// one at the server's name.
pub proof fn ssl_modes_follow_the_table(sslmode: &str, r: SslPolicy)
    requires
        call_ensures(ssl_policy, (sslmode,), r),
    ensures
        sslmode@ == "disable"@ <==> r.pg_sslmode@ == "disable"@,
        sslmode@ == "require"@ || sslmode@ == "verify-ca"@ || sslmode@ == "verify-full"@
            <==> r.pg_sslmode@ == "require"@,
        sslmode@ != "disable"@ && sslmode@ != "require"@ && sslmode@ != "verify-ca"@ && sslmode@
            != "verify-full"@ <==> r.pg_sslmode@ == "prefer"@,
        sslmode@ == "verify-ca"@ || sslmode@ == "verify-full"@ <==> r.verify_peer,
        sslmode@ == "verify-full"@ <==> r.verify_hostname,
{
    lemma_modes_differ();
}

/// The policy of a request is that of its SSL mode, and of `prefer` where it
/// names none.
pub proof fn requests_have_the_policy_of_their_mode(
    req: QueryRequest,
    mode: &str,
    r: SslPolicy,
    s: SslPolicy,
)
    requires
        call_ensures(request_policy, (&req,), r),
        call_ensures(ssl_policy, (mode,), s),
        match req.sslmode {
            Some(m) => m@ == mode@,
            None => mode@ == "prefer"@,
        },
    ensures
        r.pg_sslmode@ == s.pg_sslmode@,
        r.verify_peer == s.verify_peer,
        r.verify_hostname == s.verify_hostname,
{
}

/// A key has each field of the request as it was given; missing ones are the
/// port 5432, the mode `prefer` and empty text.
pub proof fn keys_have_all_fields(req: QueryRequest, r: ConnectionKey)
    requires
        call_ensures(ConnectionKey::from_request, (&req,), r),
    ensures
        r.host@ == req.host@,
        r.dbname@ == req.dbname@,
        r.user@ == req.user@,
        req.port matches Some(p) ==> r.port == p,
        req.port is None ==> r.port == 5432,
        req.password matches Some(t) ==> r.password@ == t@,
        req.password is None ==> r.password@.len() == 0,
        req.sslmode matches Some(t) ==> r.sslmode@ == t@,
        req.sslmode is None ==> r.sslmode@ == "prefer"@,
        req.sslcert matches Some(t) ==> r.sslcert@ == t@,
        req.sslcert is None ==> r.sslcert@.len() == 0,
        req.sslkey matches Some(t) ==> r.sslkey@ == t@,
        req.sslkey is None ==> r.sslkey@.len() == 0,
        req.sslrootcert matches Some(t) ==> r.sslrootcert@ == t@,
        req.sslrootcert is None ==> r.sslrootcert@.len() == 0,
{
}

/// A connection is opened to the host, database and user of the request without
/// the white space around them, with its password but for the line ends behind
/// it, and at its port or at 5432. A missing password stays missing.
pub proof fn connections_are_opened_as_asked(req: QueryRequest, r: ConnectionSettings)
    requires
        call_ensures(connection_settings, (&req,), r),
    ensures
        text::is_core(req.host@, r.host@),
        text::is_core(req.dbname@, r.dbname@),
        text::is_core(req.user@, r.user@),
        req.port matches Some(p) ==> r.port == p,
        req.port is None ==> r.port == 5432,
        req.password is Some <==> r.password is Some,
        req.password matches Some(t) ==> text::is_without_line_end(t@, r.password->0@),
{
    text::trimmed_is_core(req.host@);
    text::trimmed_is_core(req.dbname@);
    text::trimmed_is_core(req.user@);
    if let Some(t) = req.password {
        text::line_ends_are_taken_off(t@);
    }
    assert(r@.password == settings_of(req).password);
}

/// A connection is opened in the wire mode of its policy.
pub proof fn wire_modes_are_those_of_policies(
    req: QueryRequest,
    r: ConnectionSettings,
    p: SslPolicy,
)
    requires
        call_ensures(connection_settings, (&req,), r),
        call_ensures(request_policy, (&req,), p),
    ensures
        r.mode is Disable <==> p.pg_sslmode@ == "disable"@,
        r.mode is Require <==> p.pg_sslmode@ == "require"@,
        r.mode is Prefer <==> p.pg_sslmode@ == "prefer"@,
{
    lemma_modes_differ();
    assert(r@.mode == r.mode);
}

/// The set-up begins with whether the chain is verified and ends with whether
/// the name is, as the policy says, and between them are only PEMs. The root
/// that was given is trusted wherever the chain is verified, and no root is
/// where it is not. The certificate and the key that were given are always
/// presented, the key last. Nothing comes twice, and each PEM is the one of the
/// request.
pub proof fn given_material_is_used(policy: SslPolicy, req: QueryRequest, r: Vec<TlsStep>)
    requires
        call_ensures(tls_steps, (&policy, &req), r),
    ensures
        r@.len() == 2 + (if policy.verify_peer && req.sslrootcert is Some {
            1int
        } else {
            0
        }) + (if req.sslcert is Some {
            1int
        } else {
            0
        }) + (if req.sslkey is Some {
            1int
        } else {
            0
        }),
        r@[0] == TlsStep::VerifyPeer(policy.verify_peer),
        r@.last() == TlsStep::VerifyHostname(policy.verify_hostname),
        policy.verify_peer && req.sslrootcert is Some ==> r@[1] is TrustRoot && exists|i: int|
            0 < i < r@.len() - 1 && (#[trigger] r@[i] matches TlsStep::TrustRoot(p) && p@
                == req.sslrootcert->0@),
        req.sslcert is Some ==> exists|i: int|
            0 < i < r@.len() - 1 && (#[trigger] r@[i] matches TlsStep::ClientCertificate(p) && p@
                == req.sslcert->0@),
        req.sslkey is Some ==> exists|i: int|
            0 < i < r@.len() - 1 && (#[trigger] r@[i] matches TlsStep::ClientKey(p) && p@
                == req.sslkey->0@),
        req.sslkey is Some ==> r@[r@.len() - 2] is ClientKey,
        forall|i: int|
            0 < i < r@.len() - 1 ==> match #[trigger] r@[i] {
                TlsStep::TrustRoot(p) => policy.verify_peer && req.sslrootcert is Some && p@
                    == req.sslrootcert->0@,
                TlsStep::ClientCertificate(p) => req.sslcert is Some && p@ == req.sslcert->0@,
                TlsStep::ClientKey(p) => req.sslkey is Some && p@ == req.sslkey->0@,
                _ => false,
            },
{
    let shown = step_views(r@);
    assert(shown.len() == r@.len());
    assert forall|i: int| 0 <= i < r@.len() implies shown[i] == (#[trigger] r@[i])@ by {}
    let a: int = if policy.verify_peer && req.sslrootcert is Some {
        1
    } else {
        0
    };
    let b: int = if req.sslcert is Some {
        1
    } else {
        0
    };
    let c: int = if req.sslkey is Some {
        1
    } else {
        0
    };
    assert(shown.len() == 2 + a + b + c);
    assert(r@[0]@ == TlsStepView::VerifyPeer(policy.verify_peer));
    assert(r@[1 + a + b + c]@ == TlsStepView::VerifyHostname(policy.verify_hostname));
    if a == 1 {
        assert(r@[1]@ == TlsStepView::TrustRoot(req.sslrootcert->0@));
    }
    if b == 1 {
        assert(r@[1 + a]@ == TlsStepView::ClientCertificate(req.sslcert->0@));
    }
    if c == 1 {
        assert(r@[1 + a + b]@ == TlsStepView::ClientKey(req.sslkey->0@));
    }
    assert forall|i: int| 0 < i < r@.len() - 1 implies match #[trigger] r@[i] {
        TlsStep::TrustRoot(p) => policy.verify_peer && req.sslrootcert is Some && p@
            == req.sslrootcert->0@,
        TlsStep::ClientCertificate(p) => req.sslcert is Some && p@ == req.sslcert->0@,
        TlsStep::ClientKey(p) => req.sslkey is Some && p@ == req.sslkey->0@,
        _ => false,
    } by {
        assert((i == 1 && a == 1) || (i == 1 + a && b == 1) || (i == 1 + a + b && c == 1));
    }
}

/// The same by the SSL mode of the request: in `verify-ca` and `verify-full` the
/// root that it gives is trusted, that one and no other; in every other mode
/// none is.
pub proof fn given_root_is_trusted(
    req: QueryRequest,
    policy: SslPolicy,
    r: Vec<TlsStep>,
)
    requires
        call_ensures(request_policy, (&req,), policy),
        call_ensures(tls_steps, (&policy, &req), r),
    ensures
        ({
            let verifies = req.sslmode matches Some(m) && (m@ == "verify-ca"@ || m@
                == "verify-full"@);
            &&& verifies && req.sslrootcert is Some ==> exists|i: int|
                0 <= i < r@.len() && (#[trigger] r@[i] matches TlsStep::TrustRoot(p) && p@
                    == req.sslrootcert->0@)
            &&& forall|i: int|
                0 <= i < r@.len() && #[trigger] r@[i] is TrustRoot ==> verifies && (r@[i] matches
                    TlsStep::TrustRoot(p) && req.sslrootcert is Some && p@ == req.sslrootcert->0@)
            &&& r@[0] == TlsStep::VerifyPeer(verifies)
            &&& r@.last() == TlsStep::VerifyHostname(
                req.sslmode matches Some(m) && m@ == "verify-full"@,
            )
        }),
{
    lemma_modes_differ();
    reveal_strlit("prefer");
    reveal_strlit("verify-ca");
    reveal_strlit("verify-full");
    assert("prefer"@[0] != "verify-ca"@[0] && "prefer"@[0] != "verify-full"@[0]);
    given_material_is_used(policy, req, r);
}

/// What a step asks for is done with what its PEM holds, and a PEM that cannot
/// be read is an error of its own kind. A root is never presented, and the
/// client's certificate is never trusted.
pub proof fn steps_become_actions_of_their_kind(step: TlsStep, r: Result<TlsAction, TlsError>)
    requires
        call_ensures(prepare_step, (&step,), r),
    ensures
        step matches TlsStep::VerifyPeer(b) ==> r == Ok::<TlsAction, TlsError>(
            TlsAction::VerifyPeer(b),
        ),
        step matches TlsStep::VerifyHostname(b) ==> r == Ok::<TlsAction, TlsError>(
            TlsAction::VerifyHostname(b),
        ),
        step matches TlsStep::TrustRoot(pem) ==> match r {
            Ok(TlsAction::TrustRoot(c)) => is_certificate_of(pem@, Ok(c)),
            Err(TlsError::Certificate(e)) => is_certificate_of(pem@, Err(e)),
            _ => false,
        },
        step matches TlsStep::ClientCertificate(pem) ==> match r {
            Ok(TlsAction::ClientCertificate(c)) => is_certificate_of(pem@, Ok(c)),
            Err(TlsError::Certificate(e)) => is_certificate_of(pem@, Err(e)),
            _ => false,
        },
        step matches TlsStep::ClientKey(pem) ==> match r {
            Ok(TlsAction::ClientKey(k)) => is_key_of(pem@, Ok(k)),
            Err(TlsError::PrivateKey(e)) => is_key_of(pem@, Err(e)),
            _ => false,
        },
{
}

/// What was read is handed on in its own kind, and so is a failure to read it.
pub proof fn what_was_read_is_handed_on(
    cert: Result<X509, ErrorStack>,
    key: Result<PKey<Private>, ErrorStack>,
    a: Result<TlsAction, TlsError>,
    b: Result<TlsAction, TlsError>,
    c: Result<TlsAction, TlsError>,
)
    requires
        call_ensures(root_read, (cert,), a),
        call_ensures(certificate_read, (cert,), b),
        call_ensures(key_read, (key,), c),
    ensures
        cert matches Ok(x) ==> a == Ok::<TlsAction, TlsError>(TlsAction::TrustRoot(x)) && b == Ok::<
            TlsAction,
            TlsError,
        >(TlsAction::ClientCertificate(x)),
        cert matches Err(e) ==> a == Err::<TlsAction, TlsError>(TlsError::Certificate(e)) && b == a,
        key matches Ok(k) ==> c == Ok::<TlsAction, TlsError>(TlsAction::ClientKey(k)),
        key matches Err(e) ==> c == Err::<TlsAction, TlsError>(TlsError::PrivateKey(e)),
{
}

/// Only an open connection is used again; a closed one is dropped first, and
/// where there is none one is opened.
pub proof fn only_open_connections_are_used_again(found: Option<bool>, r: ClientAction)
    requires
        call_ensures(choose_client, (found,), r),
    ensures
        r is Reuse <==> found == Some(false),
        r is Reopen <==> found == Some(true),
        r is Open <==> found is None,
{
}

/// A failed connect is told with all its causes, in their order.
pub proof fn connect_errors_name_all_causes(causes: Vec<String>, r: String)
    requires
        call_ensures(connect_error, (&causes,), r),
    ensures
        r@ == "Failed to connect: "@ + text::joined(text::views(causes@), ": "@),
        causes@.len() == 1 ==> r@ == "Failed to connect: "@ + causes@[0]@,
{
    if causes@.len() == 1 {
        assert(text::views(causes@)[0] == causes@[0]@);
    }
}

/// Rows are handed on with status 200, and a failure is told with status 400 and
/// all its causes, in their order.
pub proof fn queries_are_answered(
    result: Result<Vec<JsonMap<String, Value>>, Vec<String>>,
    r: QueryReply,
)
    requires
        call_ensures(query_reply, (result,), r),
    ensures
        result matches Ok(rows) ==> r.status == 200 && (r.body matches Ok(b) && b == rows),
        result matches Err(causes) ==> r.status == 400 && (r.body matches Err(m) && m@
            == text::joined(text::views(causes@), ": "@)),
{
}

/// Each parameter is bound, in its place: a string of literal text without its
/// quotes, and what is no string as it is written. Without parameters nothing is
/// bound.
pub proof fn parameters_are_bound_in_place(params: Option<Vec<String>>, r: Vec<String>)
    requires
        call_ensures(bind_params, (&params,), r),
    ensures
        params is None ==> r@.len() == 0,
        params matches Some(p) ==> r@.len() == p@.len() && forall|i: int|
            0 <= i < p@.len() ==> {
                let (t, b) = (p@[i]@, (#[trigger] r@[i])@);
                &&& json::json_string(t) matches Some(s) ==> b == s
                &&& json::json_string(t) is None ==> b == t
                &&& t.len() > 1 && t[0] == '"' && t.last() == '"' && json::is_literal(
                    t.subrange(1, t.len() - 1),
                ) ==> b == t.subrange(1, t.len() - 1)
                &&& t.len() > 0 && t[0] != '"' && t[0] != ' ' && t[0] != '\n' && t[0] != '\t' && t[0]
                    != '\r' ==> b == t
            },
{
    assert(text::views(r@).len() == r@.len());
    if let Some(p) = params {
        assert forall|i: int| 0 <= i < p@.len() implies {
            let (t, b) = (p@[i]@, (#[trigger] r@[i])@);
            &&& json::json_string(t) matches Some(s) ==> b == s
            &&& json::json_string(t) is None ==> b == t
            &&& t.len() > 1 && t[0] == '"' && t.last() == '"' && json::is_literal(
                t.subrange(1, t.len() - 1),
            ) ==> b == t.subrange(1, t.len() - 1)
            &&& t.len() > 0 && t[0] != '"' && t[0] != ' ' && t[0] != '\n' && t[0] != '\t' && t[0]
                != '\r' ==> b == t
        } by {
            let t = p@[i]@;
            assert(text::views(r@)[i] == r@[i]@);
            assert(text::views(p@)[i] == t);
            assert(binds(t, r@[i]@));
            if t.len() > 1 && t[0] == '"' && t.last() == '"' {
                assert(t =~= json::quoted(t.subrange(1, t.len() - 1)));
            }
        }
    }
}

/// A string is bound for what it stands for, and anything else as written.
pub proof fn strings_are_bound_as_they_are(t: &str, string: Option<String>, r: String)
    requires
        call_ensures(bound_text, (t, string), r),
    ensures
        string matches Some(s) ==> r@ == s@,
        string is None ==> r@ == t@,
{
}

/// Each type that JSON has a counterpart of has its own decoding, and every
/// other type is read as text; without a column there is none.
pub proof fn types_have_their_decodings(oid: Option<u32>, r: Option<Decoding>)
    requires
        call_ensures(column_decoding, (oid,), r),
    ensures
        oid is None <==> r is None,
        oid == Some(16u32) <==> r == Some(Decoding::Bool),
        oid == Some(21u32) <==> r == Some(Decoding::Int2),
        oid == Some(23u32) <==> r == Some(Decoding::Int4),
        oid == Some(20u32) <==> r == Some(Decoding::Int8),
        oid == Some(700u32) <==> r == Some(Decoding::Float4),
        oid == Some(701u32) <==> r == Some(Decoding::Float8),
        oid == Some(114u32) || oid == Some(3802u32) <==> r == Some(Decoding::Json),
{
}

/// Only the eight types with a decoding of their own and the five types of text
/// are read as they are; all others are turned into text by the database.
pub proof fn other_types_are_cast(oid: u32, r: bool)
    requires
        call_ensures(column_needs_cast, (oid,), r),
    ensures
        !r <==> oid == 16 || oid == 20 || oid == 21 || oid == 23 || oid == 114 || oid == 700 || oid
            == 701 || oid == 3802 || oid == 19 || oid == 25 || oid == 705 || oid == 1042 || oid
            == 1043,
{
}

/// A query that casts one cell more has one column more at its end, for the next
/// parameter.
pub proof fn casts_are_numbered(n: usize, r: String, s: String)
    requires
        call_ensures(cast_query, (n,), r),
        n < 1664,
        call_ensures(cast_query, ((n + 1) as usize,), s),
    ensures
        n == 0 ==> r@ == "SELECT "@ && s@ == "SELECT "@ + (seq!['$'] + text::decimal(1) + "::text"@),
        n > 0 ==> s@ == r@ + ", "@ + (seq!['$'] + text::decimal((n + 1) as nat) + "::text"@),
{
    let a = cast_columns(n as nat);
    let b = cast_columns((n + 1) as nat);
    assert(b.drop_last() =~= a);
    assert(b.last() == seq!['$'] + text::decimal((n + 1) as nat) + "::text"@);
    if n == 0 {
        assert(r@ =~= "SELECT "@);
    } else {
        assert(s@ =~= r@ + ", "@ + b.last());
    }
}

proof fn lemma_rank_of_place(present: Seq<bool>, places: Seq<int>, k: int)
    requires
        lists_present(present, places),
        0 <= k <= places.len(),
    ensures
        k < places.len() ==> rank(present, places[k]) == k,
    decreases k,
{
    if k < places.len() {
        if k == 0 {
            lemma_rank_over_gap(present, 0, places[0], places, 0);
        } else {
            lemma_rank_of_place(present, places, k - 1);
            let p = places[k - 1];
            assert(p < places[k]);
            assert(present[p]);
            assert(rank(present, p + 1) == k);
            lemma_rank_over_gap(present, p + 1, places[k], places, k);
        }
    }
}

/// Where no cell is there, the rank does not grow.
proof fn lemma_rank_over_gap(present: Seq<bool>, from: int, to: int, places: Seq<int>, k: int)
    requires
        lists_present(present, places),
        0 <= from <= to <= present.len(),
        0 <= k < places.len(),
        to <= places[k],
        k > 0 ==> places[k - 1] < from,
    ensures
        rank(present, to) == rank(present, from),
    decreases to - from,
{
    if from < to {
        lemma_rank_over_gap(present, from, to - 1, places, k);
        if present[to - 1] {
            let m = choose|m: int| 0 <= m < places.len() && #[trigger] places[m] == to - 1;
            if m < k {
                assert(places[m] <= places[k - 1]);
            } else {
                assert(places[k] <= places[m]);
            }
        }
    }
}

/// Whether `places` are the places of the cells that are there, in their order.
pub open spec fn lists_present(present: Seq<bool>, places: Seq<int>) -> bool {
    &&& forall|k: int| 0 <= k < places.len() ==> 0 <= #[trigger] places[k] < present.len()
    &&& forall|k: int| 0 <= k < places.len() ==> present[#[trigger] places[k]]
    &&& forall|k: int, l: int| 0 <= k < l < places.len() ==> places[k] < places[l]
    &&& forall|i: int|
        0 <= i < present.len() && #[trigger] present[i] ==> exists|k: int|
            0 <= k < places.len() && #[trigger] places[k] == i
}

/// The cells that are there show the texts, in their order: the first of them
/// the first text, the second the second, and so on. The other cells show none.
pub proof fn texts_stay_in_order(
    present: Vec<bool>,
    texts: Vec<Option<String>>,
    places: Seq<int>,
    r: Vec<Option<String>>,
)
    requires
        call_ensures(place_texts, (&present, texts), r),
        lists_present(present@, places),
    ensures
        r@.len() == present@.len(),
        forall|k: int|
            0 <= k < places.len() && k < texts@.len() ==> r@[#[trigger] places[k]] == texts@[k],
        forall|k: int| texts@.len() <= k < places.len() ==> r@[#[trigger] places[k]] is None,
        forall|i: int| 0 <= i < r@.len() && !present@[i] ==> #[trigger] r@[i] is None,
{
    assert forall|k: int| 0 <= k < places.len() && k < texts@.len() implies r@[#[trigger] places[k]]
        == texts@[k] by {
        lemma_rank_of_place(present@, places, k);
        assert(r@[places[k]] == texts@[rank(present@, places[k]) as int]);
    }
    assert forall|k: int| texts@.len() <= k < places.len() implies r@[#[trigger] places[k]] is None by {
        lemma_rank_of_place(present@, places, k);
        assert(r@[places[k]] is None);
    }
}

/// Where no cell is missing, the cells show the texts as they are.
pub proof fn full_columns_show_all_texts(
    present: Vec<bool>,
    texts: Vec<Option<String>>,
    r: Vec<Option<String>>,
)
    requires
        call_ensures(place_texts, (&present, texts), r),
        present@.len() == texts@.len(),
        forall|i: int| 0 <= i < present@.len() ==> #[trigger] present@[i],
    ensures
        r@ == texts@,
{
    let places = Seq::new(present@.len(), |i: int| i);
    assert forall|i: int| 0 <= i < present@.len() && #[trigger] present@[i] implies exists|k: int|
        0 <= k < places.len() && #[trigger] places[k] == i by {
        assert(places[i] == i);
    }
    texts_stay_in_order(present, texts, places, r);
    assert forall|i: int| 0 <= i < r@.len() implies r@[i] == texts@[i] by {
        assert(places[i] == i);
        assert(r@[places[i]] == texts@[i]);
    }
    assert(r@ =~= texts@);
}

/// A cell shows its value; NULL and what could not be read show none.
pub proof fn cells_show_their_values<T>(read: Option<Option<T>>, r: Option<T>)
    requires
        call_ensures(cell_value::<T>, (read,), r),
    ensures
        read matches Some(Some(v)) ==> r == Some(v),
        read == Some(None::<T>) ==> r is None,
        read is None ==> r is None,
{
}

/// An object has the value of each column under its name, that of the last one
/// where several have the name, and no other names.
pub proof fn objects_have_all_columns(
    columns: Vec<(String, Value)>,
    i: int,
    name: Seq<char>,
    r: JsonMap<String, Value>,
)
    requires
        call_ensures(row_object, (columns,), r),
    ensures
        0 <= i < columns@.len() && (forall|j: int|
            i < j < columns@.len() ==> (#[trigger] columns@[j]).0@ != columns@[i].0@)
            ==> json::object_fields(r).contains_key(columns@[i].0@) && json::object_fields(
            r,
        )[columns@[i].0@] == columns@[i].1,
        (forall|j: int| 0 <= j < columns@.len() ==> (#[trigger] columns@[j]).0@ != name)
            ==> !json::object_fields(r).contains_key(name),
{
    let list = column_list(columns@);
    assert forall|j: int| 0 <= j < columns@.len() implies (#[trigger] list[j]) == (
        columns@[j].0@,
        columns@[j].1,
    ) by {}
    if 0 <= i < columns@.len() && forall|j: int|
        i < j < columns@.len() ==> (#[trigger] columns@[j]).0@ != columns@[i].0@ {
        assert forall|j: int| i < j < list.len() implies (#[trigger] list[j]).0 != list[i].0 by {
            assert(columns@[j].0@ != columns@[i].0@);
        }
        row_shows_last_columns(list, i);
    }
    if json::object_fields(r).contains_key(name) {
        row_shows_only_its_columns(list, name);
        let j = choose|j: int| 0 <= j < list.len() && (#[trigger] list[j]).0 == name;
        assert(columns@[j].0@ == name);
    }
}

} // verus!
