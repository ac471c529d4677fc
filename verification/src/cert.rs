//! The certificates of the proxy: an authority of its own, and a certificate
//! for each host that it stands in for.
//!
//! Keys and signatures are made at random by `rcgen`, so contracts say what is
//! in a certificate and who signed it, not what its bytes are.

use vstd::prelude::*;

use crate::text::same;

verus! {

/// What a certificate is to say.
#[verifier::external_type_specification]
#[verifier::external_body]
pub struct ExCertificateParams(rcgen::CertificateParams);

/// A private key and its public key.
#[verifier::external_type_specification]
#[verifier::external_body]
pub struct ExKeyPair(rcgen::KeyPair);

/// A signed certificate.
#[verifier::external_type_specification]
#[verifier::external_body]
pub struct ExCertificate(rcgen::Certificate);

/// Why `rcgen` could not make a key or a certificate.
#[verifier::external_type_specification]
#[verifier::external_body]
pub struct ExRcgenError(rcgen::Error);

/// Why `rustls` could not take a certificate and its key.
#[verifier::external_type_specification]
#[verifier::external_body]
pub struct ExRustlsError(rustls::Error);

/// What accepts TLS connections in the name of a host.
#[verifier::external_type_specification]
#[verifier::external_body]
pub struct ExTlsAcceptor(tokio_rustls::TlsAcceptor);

/// The name of a host in a certificate.
pub enum SubjectName {
    Dns(Seq<char>),
    Ip(Seq<u8>),
}

/// What a certificate says of its subject: the common name, the hosts that it
/// is good for, and whether it may sign others.
pub struct Subject {
    pub common_name: Seq<char>,
    pub hosts: Seq<SubjectName>,
    pub is_ca: bool,
}

/// What a certificate says: its subject, the common name of its issuer, and the
/// public key of the subject.
pub struct CertificateView {
    pub subject: Subject,
    pub issuer: Seq<char>,
    pub public_key: Seq<u8>,
}

/// What a certificate with these parameters is to say of its subject.
pub uninterp spec fn subject_of(params: rcgen::CertificateParams) -> Subject;

/// The public key of a pair, as `KeyPair::public_key_raw` gives it.
pub uninterp spec fn public_key_of(key: rcgen::KeyPair) -> Seq<u8>;

/// What a certificate says.
pub uninterp spec fn certificate_of(cert: rcgen::Certificate) -> CertificateView;

/// Whether the signature of a certificate can be checked with a public key.
pub uninterp spec fn signed_with(cert: rcgen::Certificate, public_key: Seq<u8>) -> bool;

/// The text that `Certificate::pem` writes for a certificate.
pub uninterp spec fn pem_of(cert: rcgen::Certificate) -> Seq<char>;

/// The name that `CertificateParams::new` makes of the text of a host: an
/// address if it is one, and otherwise a DNS name, if it can be one.
pub uninterp spec fn subject_name(host: Seq<char>) -> Option<SubjectName>;

/// The certificate that an acceptor shows, and the public key that belongs to
/// the private key it uses.
pub uninterp spec fn identity_of(acceptor: tokio_rustls::TlsAcceptor) -> (CertificateView, Seq<u8>);

/// `KeyPair::generate`: a new pair of keys, made at random.
#[verifier::external_body]
fn generate_key() -> (r: Result<rcgen::KeyPair, rcgen::Error>) {
    rcgen::KeyPair::generate()
}

/// `CertificateParams::default`: a subject that `rcgen` names, good for no host.
#[verifier::external_body]
fn default_params() -> (r: rcgen::CertificateParams)
    ensures
        subject_of(r) == (Subject {
            common_name: "rcgen self signed cert"@,
            hosts: seq![],
            is_ca: false,
        }),
{
    rcgen::CertificateParams::default()
}

/// `CertificateParams::new` with one host: a subject that `rcgen` names, good
/// for that host. Fails for a text that can be no name of a host.
#[verifier::external_body]
fn params_for(host: &str) -> (r: Result<rcgen::CertificateParams, rcgen::Error>)
    ensures
        match subject_name(host@) {
            Some(name) => r is Ok && subject_of(r->Ok_0) == (Subject {
                common_name: "rcgen self signed cert"@,
                hosts: seq![name],
                is_ca: false,
            }),
            None => r is Err,
        },
{
    rcgen::CertificateParams::new(vec![host.to_string()])
}

/// `DistinguishedName::push` with a common name: replaces the common name.
#[verifier::external_body]
fn set_common_name(params: &mut rcgen::CertificateParams, name: &str)
    ensures
        subject_of(*final(params)) == (Subject {
            common_name: name@,
            ..subject_of(*old(params))
        }),
{
    params.distinguished_name.push(rcgen::DnType::CommonName, name);
}

/// `IsCa::Ca` in `CertificateParams::is_ca`: the subject may sign others.
#[verifier::external_body]
fn set_ca(params: &mut rcgen::CertificateParams)
    ensures
        subject_of(*final(params)) == (Subject { is_ca: true, ..subject_of(*old(params)) }),
{
    params.is_ca = rcgen::IsCa::Ca(rcgen::BasicConstraints::Unconstrained);
}

/// `CertificateParams::self_signed`: a certificate that its subject signed. The
/// signature is made at random, and making it can fail.
#[verifier::external_body]
fn self_signed(params: &rcgen::CertificateParams, key: &rcgen::KeyPair) -> (r: Result<
    rcgen::Certificate,
    rcgen::Error,
>)
    ensures
        r is Ok ==> certificate_of(r->Ok_0) == (CertificateView {
            subject: subject_of(*params),
            issuer: subject_of(*params).common_name,
            public_key: public_key_of(*key),
        }),
        r is Ok ==> signed_with(r->Ok_0, public_key_of(*key)),
{
    params.self_signed(key)
}

/// `CertificateParams::signed_by`, with an `Issuer` of the given parameters and
/// key: a certificate that the issuer signed. The signature is made at random,
/// and making it can fail.
#[verifier::external_body]
fn signed_by(
    params: &rcgen::CertificateParams,
    key: &rcgen::KeyPair,
    ca_params: &rcgen::CertificateParams,
    ca_key: &rcgen::KeyPair,
) -> (r: Result<rcgen::Certificate, rcgen::Error>)
    ensures
        r is Ok ==> certificate_of(r->Ok_0) == (CertificateView {
            subject: subject_of(*params),
            issuer: subject_of(*ca_params).common_name,
            public_key: public_key_of(*key),
        }),
        r is Ok ==> signed_with(r->Ok_0, public_key_of(*ca_key)),
{
    params.signed_by(key, &rcgen::Issuer::new(ca_params.clone(), ca_key))
}

/// `Certificate::pem`: the text of a certificate.
#[verifier::external_body]
fn pem(cert: &rcgen::Certificate) -> (r: String)
    ensures
        r@ == pem_of(*cert),
{
    cert.pem()
}

/// `ConfigBuilder::with_single_cert` of `rustls`, on a server configuration
/// with the cryptography of `ring`, and `TlsAcceptor::from` of `tokio_rustls`:
/// shows this certificate and uses this key. Fails where the two do not match.
#[verifier::external_body]
fn acceptor(cert: &rcgen::Certificate, key: &rcgen::KeyPair) -> (r: Result<
    tokio_rustls::TlsAcceptor,
    rustls::Error,
>)
    ensures
        r is Ok ==> identity_of(r->Ok_0) == (certificate_of(*cert), public_key_of(*key)),
{
    let provider = std::sync::Arc::new(rustls::crypto::ring::default_provider());
    let chain = vec![cert.der().clone()];
    let key = rustls::pki_types::PrivatePkcs8KeyDer::from(key.serialize_der());
    let config = rustls::ServerConfig::builder_with_provider(
        provider,
    ).with_safe_default_protocol_versions()?.with_no_client_auth().with_single_cert(
        chain,
        key.into(),
    )?;
    Ok(tokio_rustls::TlsAcceptor::from(std::sync::Arc::new(config)))
}

/// Why there is no certificate.
#[derive(Debug, Clone, Copy, PartialEq, Eq, Structural)]
pub enum CertError {
    /// No key could be made.
    Key,
    /// The host can have no certificate.
    Host,
    /// The certificate could not be signed.
    Signature,
    /// The certificate could not be put to use.
    TlsConfig,
}

impl CertError {
    /// What there is to say of it.
    pub fn message(&self) -> (r: &'static str)
        ensures
            r@ == match *self {
                CertError::Key => "generate key"@,
                CertError::Host => "invalid host name"@,
                CertError::Signature => "sign certificate"@,
                CertError::TlsConfig => "invalid TLS config"@,
            },
    {
        match self {
            CertError::Key => "generate key",
            CertError::Host => "invalid host name",
            CertError::Signature => "sign certificate",
            CertError::TlsConfig => "invalid TLS config",
        }
    }
}

/// A certificate of a host, and its key.
pub struct HostCert {
    cert: rcgen::Certificate,
    key: rcgen::KeyPair,
}

impl View for HostCert {
    type V = (CertificateView, Seq<u8>);

    closed spec fn view(&self) -> (CertificateView, Seq<u8>) {
        (certificate_of(self.cert), public_key_of(self.key))
    }
}

impl HostCert {
    /// Whether the signature can be checked with a public key.
    pub closed spec fn is_signed_with(&self, public_key: Seq<u8>) -> bool {
        signed_with(self.cert, public_key)
    }
}

/// What the certificate of the authority says of its subject.
pub open spec fn ca_subject() -> Subject {
    Subject { common_name: "farthinder CA"@, hosts: seq![], is_ca: true }
}

/// What the certificate of a host says of its subject.
pub open spec fn host_subject(host: Seq<char>) -> Subject {
    Subject { common_name: host, hosts: seq![subject_name(host)->Some_0], is_ca: false }
}

/// The parameters of the certificate of the authority.
pub fn ca_params() -> (r: rcgen::CertificateParams)
    ensures
        subject_of(r) == ca_subject(),
{
    let mut params = default_params();
    set_common_name(&mut params, "farthinder CA");
    set_ca(&mut params);
    params
}

/// The parameters of the certificate of a host, if it can have one.
pub fn host_params(host: &str) -> (r: Result<rcgen::CertificateParams, CertError>)
    ensures
        match subject_name(host@) {
            Some(_) => r is Ok && subject_of(r->Ok_0) == host_subject(host@),
            None => r == Err::<rcgen::CertificateParams, CertError>(CertError::Host),
        },
{
    match params_for(host) {
        Ok(mut params) => {
            set_common_name(&mut params, host);
            Ok(params)
        },
        Err(_) => Err(CertError::Host),
    }
}

impl HostCert {
    /// The certificate of a host with this key, where `signed` is what came of
    /// signing it.
    pub fn signed(key: rcgen::KeyPair, signed: Result<rcgen::Certificate, rcgen::Error>) -> (r:
        Result<HostCert, CertError>)
        ensures
            match signed {
                Ok(cert) => {
                    &&& r is Ok
                    &&& r->Ok_0@ == (certificate_of(cert), public_key_of(key))
                    &&& forall|public_key: Seq<u8>| #[trigger]
                        r->Ok_0.is_signed_with(public_key) == signed_with(cert, public_key)
                },
                Err(_) => r == Err::<HostCert, CertError>(CertError::Signature),
            },
    {
        match signed {
            Ok(cert) => Ok(HostCert { cert, key }),
            Err(_) => Err(CertError::Signature),
        }
    }
}

/// What comes of putting a certificate to use, where `made` is what `rustls` made
/// of it.
pub fn put_to_use(made: Result<tokio_rustls::TlsAcceptor, rustls::Error>) -> (r: Result<
    tokio_rustls::TlsAcceptor,
    CertError,
>)
    ensures
        match made {
            Ok(acceptor) => r == Ok::<tokio_rustls::TlsAcceptor, CertError>(acceptor),
            Err(_) => r == Err::<tokio_rustls::TlsAcceptor, CertError>(CertError::TlsConfig),
        },
{
    match made {
        Ok(acceptor) => Ok(acceptor),
        Err(_) => Err(CertError::TlsConfig),
    }
}

/// An authority: the common name and the public key it signs with, its own
/// certificate as a text, and the certificates it has made, by host.
pub struct Authority {
    pub name: Seq<char>,
    pub public_key: Seq<u8>,
    pub pem: Seq<char>,
    pub hosts: Map<Seq<char>, HostCert>,
}

/// What the certificate of a host says, if an authority of this name made it,
/// and the public key that belongs to its private key.
pub open spec fn vouched(host: Seq<char>, issuer: Seq<char>, public_key: Seq<u8>) -> (
    CertificateView,
    Seq<u8>,
) {
    (
        CertificateView {
            subject: host_subject(host),
            issuer,
            public_key,
        },
        public_key,
    )
}

/// Whether a certificate is one that this authority made for this host.
pub open spec fn made_for(authority: Authority, host: Seq<char>, cert: HostCert) -> bool {
    &&& subject_name(host) is Some
    &&& cert@ == vouched(host, authority.name, cert@.1)
    &&& cert.is_signed_with(authority.public_key)
}

/// Whether a certificate is the one that the authority with this key signed for
/// itself.
pub open spec fn vouches_for_itself(cert: rcgen::Certificate, public_key: Seq<u8>) -> bool {
    &&& certificate_of(cert) == (CertificateView {
        subject: ca_subject(),
        issuer: ca_subject().common_name,
        public_key,
    })
    &&& signed_with(cert, public_key)
}

impl Authority {
    /// Whether each certificate is one that the authority made for its host.
    pub open spec fn wf(self) -> bool {
        forall|host: Seq<char>| #[trigger]
            self.hosts.dom().contains(host) ==> made_for(self, host, self.hosts[host])
    }
}

/// The authority of the proxy.
pub struct CaState {
    ca_params: rcgen::CertificateParams,
    ca_key: rcgen::KeyPair,
    ca_cert_pem: String,
    host_certs: Vec<(String, HostCert)>,
}

impl View for CaState {
    type V = Authority;

    closed spec fn view(&self) -> Authority {
        Authority {
            name: subject_of(self.ca_params).common_name,
            public_key: public_key_of(self.ca_key),
            pem: self.ca_cert_pem@,
            hosts: certs_by_host(self.host_certs@),
        }
    }
}

/// The certificates by host, the first of each host.
spec fn certs_by_host(list: Seq<(String, HostCert)>) -> Map<Seq<char>, HostCert>
    decreases list.len(),
{
    if list.len() == 0 {
        Map::empty()
    } else {
        certs_by_host(list.drop_last()).insert(list.last().0@, list.last().1)
    }
}

proof fn lemma_certs_by_host(list: Seq<(String, HostCert)>)
    requires
        forall|i: int, j: int|
            0 <= i < j < list.len() ==> (#[trigger] list[i]).0@ != (#[trigger] list[j]).0@,
    ensures
        forall|i: int|
            0 <= i < list.len() ==> certs_by_host(list).dom().contains((#[trigger] list[i]).0@)
                && certs_by_host(list)[list[i].0@] == list[i].1,
        forall|host: Seq<char>| #[trigger]
            certs_by_host(list).dom().contains(host) ==> exists|i: int|
                0 <= i < list.len() && (#[trigger] list[i]).0@ == host,
    decreases list.len(),
{
    if list.len() > 0 {
        let init = list.drop_last();
        assert(forall|i: int| 0 <= i < init.len() ==> #[trigger] init[i] == list[i]);
        lemma_certs_by_host(init);
        assert(list[list.len() - 1] == list.last());
        assert forall|i: int| 0 <= i < list.len() implies certs_by_host(list).dom().contains(
            (#[trigger] list[i]).0@,
        ) && certs_by_host(list)[list[i].0@] == list[i].1 by {
            if i < init.len() {
                assert(init[i] == list[i]);
                assert(list[i].0@ != list[list.len() - 1].0@);
            }
        }
        assert forall|host: Seq<char>| #[trigger]
            certs_by_host(list).dom().contains(host) implies exists|i: int|
            0 <= i < list.len() && (#[trigger] list[i]).0@ == host by {
            if certs_by_host(init).dom().contains(host) {
                let i = choose|i: int| 0 <= i < init.len() && (#[trigger] init[i]).0@ == host;
                assert(list[i].0@ == host);
            } else {
                assert(list[list.len() - 1].0@ == host);
            }
        }
    }
}

impl CaState {
    /// Whether no host has two certificates, and each has one that the
    /// authority made for it.
    pub closed spec fn wf(&self) -> bool {
        &&& forall|i: int, j: int|
            0 <= i < j < self.host_certs@.len() ==> (#[trigger] self.host_certs@[i]).0@ != (
            #[trigger] self.host_certs@[j]).0@
        &&& self@.wf()
    }

    /// The authority with these parameters and this key, where `signed` is what
    /// came of signing its own certificate.
    pub fn founded(
        ca_params: rcgen::CertificateParams,
        ca_key: rcgen::KeyPair,
        signed: Result<rcgen::Certificate, rcgen::Error>,
    ) -> (r: Result<CaState, CertError>)
        ensures
            match signed {
                Ok(cert) => r is Ok && r->Ok_0.wf() && r->Ok_0@ == (Authority {
                    name: subject_of(ca_params).common_name,
                    public_key: public_key_of(ca_key),
                    pem: pem_of(cert),
                    hosts: Map::empty(),
                }),
                Err(_) => r == Err::<CaState, CertError>(CertError::Signature),
            },
    {
        match signed {
            Ok(cert) => {
                let ca_cert_pem = pem(&cert);
                let ca = CaState { ca_params, ca_key, ca_cert_pem, host_certs: Vec::new() };
                assert(ca@.hosts =~= Map::<Seq<char>, HostCert>::empty());
                Ok(ca)
            },
            Err(_) => Err(CertError::Signature),
        }
    }

    /// The authority with a key, where `drawn` is what came of drawing one.
    pub fn with_key(drawn: Result<rcgen::KeyPair, rcgen::Error>) -> (r: Result<CaState, CertError>)
        ensures
            drawn is Err <==> r == Err::<CaState, CertError>(CertError::Key),
            match r {
                Ok(ca) => {
                    &&& ca.wf()
                    &&& ca@.name == ca_subject().common_name
                    &&& ca@.public_key == public_key_of(drawn->Ok_0)
                    &&& ca@.hosts == Map::<Seq<char>, HostCert>::empty()
                    &&& exists|cert: rcgen::Certificate|
                        ca@.pem == #[trigger] pem_of(cert) && vouches_for_itself(
                            cert,
                            ca@.public_key,
                        )
                },
                Err(e) => e == CertError::Key || e == CertError::Signature,
            },
    {
        match drawn {
            Ok(ca_key) => {
                let params = ca_params();
                let signed = self_signed(&params, &ca_key);
                CaState::founded(params, ca_key, signed)
            },
            Err(_) => Err(CertError::Key),
        }
    }

    /// A new authority, with a new key and a certificate of its own.
    pub fn new() -> (r: Result<CaState, CertError>)
        ensures
            match r {
                Ok(ca) => {
                    &&& ca.wf()
                    &&& ca@.name == ca_subject().common_name
                    &&& ca@.hosts == Map::<Seq<char>, HostCert>::empty()
                    &&& exists|cert: rcgen::Certificate|
                        ca@.pem == #[trigger] pem_of(cert) && vouches_for_itself(
                            cert,
                            ca@.public_key,
                        )
                },
                Err(e) => e == CertError::Key || e == CertError::Signature,
            },
    {
        CaState::with_key(generate_key())
    }

    /// The certificate of the authority, for tools to trust.
    pub fn ca_cert_pem(&self) -> (r: &str)
        ensures
            r@ == self@.pem,
    {
        self.ca_cert_pem.as_str()
    }

    /// Where the certificate of a host is in the list.
    fn place_of(&self, host: &str) -> (r: Option<usize>)
        requires
            self.wf(),
        ensures
            match r {
                Some(i) => i < self.host_certs@.len() && self.host_certs@[i as int].0@ == host@
                    && self@.hosts.dom().contains(host@) && self@.hosts[host@]
                    == self.host_certs@[i as int].1,
                None => !self@.hosts.dom().contains(host@),
            },
    {
        proof {
            lemma_certs_by_host(self.host_certs@);
        }
        let mut i: usize = 0;
        while i < self.host_certs.len()
            invariant
                i <= self.host_certs@.len(),
                forall|j: int| 0 <= j < i ==> (#[trigger] self.host_certs@[j]).0@ != host@,
                forall|j: int|
                    0 <= j < self.host_certs@.len() ==> certs_by_host(
                        self.host_certs@,
                    ).dom().contains((#[trigger] self.host_certs@[j]).0@) && certs_by_host(
                        self.host_certs@,
                    )[self.host_certs@[j].0@] == self.host_certs@[j].1,
            decreases self.host_certs.len() - i,
        {
            if same(self.host_certs[i].0.as_str(), host) {
                return Some(i);
            }
            i += 1;
        }
        None
    }

    /// Makes a certificate with this key for a host.
    pub fn issue_with(&self, host: &str, key: rcgen::KeyPair) -> (r: Result<HostCert, CertError>)
        ensures
            subject_name(host@) is None <==> r == Err::<HostCert, CertError>(CertError::Host),
            match r {
                Ok(cert) => made_for(self@, host@, cert) && cert@.1 == public_key_of(key),
                Err(e) => e == CertError::Host || e == CertError::Signature,
            },
    {
        match host_params(host) {
            Ok(params) => {
                let signed = signed_by(&params, &key, &self.ca_params, &self.ca_key);
                HostCert::signed(key, signed)
            },
            Err(e) => Err(e),
        }
    }

    /// Keeps the certificate of a host that has none yet.
    pub fn keep(&mut self, host: &str, cert: HostCert)
        requires
            old(self).wf(),
            !old(self)@.hosts.dom().contains(host@),
            made_for(old(self)@, host@, cert),
        ensures
            final(self).wf(),
            final(self)@ == (Authority {
                hosts: old(self)@.hosts.insert(host@, cert),
                ..old(self)@
            }),
    {
        let ghost before = self.host_certs@;
        let ghost old_hosts = self@.hosts;
        proof {
            lemma_certs_by_host(before);
            assert forall|i: int| 0 <= i < before.len() implies (#[trigger] before[i]).0@ != host@ by {
                assert(old_hosts.dom().contains(before[i].0@));
            }
        }
        self.host_certs.push((host.to_string(), cert));
        proof {
            let after = self.host_certs@;
            assert(after.drop_last() =~= before);
            assert(after.last().0@ == host@);
            assert(self@.hosts == old_hosts.insert(host@, cert));
            assert forall|h: Seq<char>| #[trigger] self@.hosts.dom().contains(h) implies made_for(
                self@,
                h,
                self@.hosts[h],
            ) by {
                if h != host@ {
                    assert(old_hosts.dom().contains(h));
                }
            }
        }
    }

    /// Makes and keeps a certificate for a host that has none yet, where `drawn`
    /// is what came of drawing a key for it.
    pub fn certify(&mut self, host: &str, drawn: Result<rcgen::KeyPair, rcgen::Error>) -> (r: Result<
        (),
        CertError,
    >)
        requires
            old(self).wf(),
            !old(self)@.hosts.dom().contains(host@),
        ensures
            final(self).wf(),
            drawn is Err <==> r == Err::<(), CertError>(CertError::Key),
            drawn is Ok && subject_name(host@) is None <==> r == Err::<(), CertError>(
                CertError::Host,
            ),
            match r {
                Ok(_) => {
                    &&& final(self)@.hosts.dom().contains(host@)
                    &&& final(self)@ == (Authority {
                        hosts: old(self)@.hosts.insert(host@, final(self)@.hosts[host@]),
                        ..old(self)@
                    })
                    &&& made_for(final(self)@, host@, final(self)@.hosts[host@])
                    &&& final(self)@.hosts[host@]@.1 == public_key_of(drawn->Ok_0)
                },
                Err(e) => {
                    &&& final(self)@ == old(self)@
                    &&& e == CertError::Key || e == CertError::Host || e == CertError::Signature
                },
            },
    {
        let key = match drawn {
            Ok(key) => key,
            Err(_) => {
                return Err(CertError::Key);
            },
        };
        match self.issue_with(host, key) {
            Ok(cert) => {
                self.keep(host, cert);
                Ok(())
            },
            Err(e) => Err(e),
        }
    }

    /// What accepts connections in the name of a host. A host gets a
    /// certificate when it first needs one, and keeps it.
    pub fn tls_acceptor_for_host(&mut self, host: &str) -> (r: Result<
        tokio_rustls::TlsAcceptor,
        CertError,
    >)
        requires
            old(self).wf(),
        ensures
            final(self).wf(),
            final(self)@.name == old(self)@.name,
            final(self)@.public_key == old(self)@.public_key,
            final(self)@.pem == old(self)@.pem,
            old(self)@.hosts.dom().contains(host@) ==> final(self)@ == old(self)@,
            final(self)@.hosts.dom().contains(host@) ==> final(self)@.hosts
                == old(self)@.hosts.insert(host@, final(self)@.hosts[host@]),
            !final(self)@.hosts.dom().contains(host@) ==> final(self)@ == old(self)@,
            match r {
                Ok(acceptor) => {
                    &&& final(self)@.hosts.dom().contains(host@)
                    &&& made_for(final(self)@, host@, final(self)@.hosts[host@])
                    &&& identity_of(acceptor) == final(self)@.hosts[host@]@
                },
                Err(e) => {
                    &&& e == CertError::TlsConfig <==> final(self)@.hosts.dom().contains(host@)
                    &&& e == CertError::Host ==> subject_name(host@) is None
                },
            },
            subject_name(host@) is None ==> (r matches Err(e) && (e == CertError::Key || e
                == CertError::Host)),
    {
        let place = match self.place_of(host) {
            Some(i) => {
                proof {
                    let h = self@.hosts;
                    assert(h =~= h.insert(host@, h[host@]));
                    assert(made_for(self@, host@, h[host@]));
                }
                i
            },
            None => {
                match self.certify(host, generate_key()) {
                    Ok(()) => {},
                    Err(e) => {
                        return Err(e);
                    },
                }
                match self.place_of(host) {
                    Some(i) => i,
                    None => {
                        assert(false);
                        0
                    },
                }
            },
        };
        let entry = &self.host_certs[place].1;
        put_to_use(acceptor(&entry.cert, &entry.key))
    }
}

/// Every certificate that an authority keeps is one that it made for the host
/// that it keeps it for.
pub proof fn lemma_certificates_are_made_for_their_hosts(ca: CaState)
    requires
        ca.wf(),
    ensures
        ca@.wf(),
{
}

} // verus!
