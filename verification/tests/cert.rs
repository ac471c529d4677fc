use farthinder::cert::{ca_params, host_params, put_to_use, CaState, CertError, HostCert};

#[test]
fn authority_has_a_certificate() {
    let ca = CaState::new().unwrap();
    assert!(ca.ca_cert_pem().starts_with("-----BEGIN CERTIFICATE-----"));
    let other = CaState::new().unwrap();
    assert_ne!(ca.ca_cert_pem(), other.ca_cert_pem());
}

#[test]
fn hosts_get_acceptors() {
    let mut ca = CaState::new().unwrap();
    let pem = ca.ca_cert_pem().to_string();
    assert!(ca.tls_acceptor_for_host("registry.npmjs.org").is_ok());
    assert!(ca.tls_acceptor_for_host("registry.npmjs.org").is_ok());
    assert!(ca.tls_acceptor_for_host("127.0.0.1").is_ok());
    assert_eq!(ca.ca_cert_pem(), pem);
}

#[test]
fn hosts_without_a_name_get_none() {
    let mut ca = CaState::new().unwrap();
    assert!(matches!(ca.tls_acceptor_for_host("n\u{e4}me"), Err(CertError::Host)));
    assert_eq!(CertError::Host.message(), "invalid host name");
    assert_eq!(CertError::Key.message(), "generate key");
    assert_eq!(CertError::Signature.message(), "sign certificate");
    assert_eq!(CertError::TlsConfig.message(), "invalid TLS config");
}

fn key() -> rcgen::KeyPair {
    rcgen::KeyPair::generate().unwrap()
}

#[test]
fn parameters_name_their_subject() {
    let ca = ca_params();
    assert!(ca.distinguished_name.iter().any(|(_, value)| *value == "farthinder CA".into()));
    assert!(matches!(ca.is_ca, rcgen::IsCa::Ca(_)));
    assert!(ca.subject_alt_names.is_empty());

    let host = host_params("pypi.org").unwrap();
    assert!(host.distinguished_name.iter().any(|(_, value)| *value == "pypi.org".into()));
    assert!(matches!(host.is_ca, rcgen::IsCa::NoCa));
    assert_eq!(host.subject_alt_names.len(), 1);
    assert!(matches!(host_params("n\u{e4}me"), Err(CertError::Host)));
}

#[test]
fn authority_is_founded_on_what_was_signed() {
    let (params, ca_key) = (ca_params(), key());
    let cert = params.self_signed(&ca_key).unwrap();
    let pem = cert.pem();
    let ca = CaState::founded(params, ca_key, Ok(cert)).ok().unwrap();
    assert_eq!(ca.ca_cert_pem(), pem);

    let failed = Err(rcgen::Error::RingUnspecified);
    assert!(matches!(CaState::founded(ca_params(), key(), failed), Err(CertError::Signature)));
}

#[test]
fn authority_needs_a_key() {
    assert!(CaState::with_key(Ok(key())).is_ok());
    let failed = Err(rcgen::Error::RingUnspecified);
    assert!(matches!(CaState::with_key(failed), Err(CertError::Key)));
}

#[test]
fn hosts_are_certified_with_a_key() {
    let mut ca = CaState::new().unwrap();
    assert!(ca.issue_with("pypi.org", key()).is_ok());
    assert!(matches!(ca.issue_with("n\u{e4}me", key()), Err(CertError::Host)));

    let failed = || Err(rcgen::Error::RingUnspecified);
    assert!(matches!(ca.certify("pypi.org", failed()), Err(CertError::Key)));
    assert!(matches!(ca.certify("n\u{e4}me", failed()), Err(CertError::Key)));
    assert!(matches!(ca.certify("n\u{e4}me", Ok(key())), Err(CertError::Host)));
    assert!(ca.certify("pypi.org", Ok(key())).is_ok());
    assert!(ca.tls_acceptor_for_host("pypi.org").is_ok());

    assert!(matches!(HostCert::signed(key(), Err(rcgen::Error::Time)), Err(CertError::Signature)));
    let refused = Err(rustls::Error::General("refused".to_string()));
    assert!(matches!(put_to_use(refused), Err(CertError::TlsConfig)));
}
