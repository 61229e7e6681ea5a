use native_certs::policy::enumeration_domains;
use native_certs::policy::resolve_ssl_trust;
use native_certs::policy::verdict_from_code;
use native_certs::policy::PolicyScope;
use native_certs::policy::TrustDomain;
use native_certs::policy::TrustSettingsEntry;
use native_certs::policy::TrustVerdict;
use native_certs::store::apply_domain;
use native_certs::store::bytes_eq;
use native_certs::store::certificate_verdict;
use native_certs::store::classify_status;
use native_certs::store::collect_trusted_certs;
use native_certs::store::verdict_is_trusted;
use native_certs::store::CertificateReport;
use native_certs::store::CertificateSet;
use native_certs::store::DomainOutcome;
use native_certs::store::QueryStatus;
use native_certs::store::TrustSettingsOutcome;
use native_certs::CertStoreError;
use native_certs::Certificate;

fn entry(policy: PolicyScope, result: Option<u32>) -> TrustSettingsEntry {
    TrustSettingsEntry { policy, result }
}

fn report(der: &[u8], settings: TrustSettingsOutcome) -> CertificateReport {
    CertificateReport {
        der: Certificate(der.to_vec()),
        settings,
    }
}

fn sorted_bytes(certs: Vec<Certificate>) -> Vec<Vec<u8>> {
    let mut out: Vec<Vec<u8>> = certs.into_iter().map(|c| c.0).collect();
    out.sort();
    out
}

#[test]
fn first_decisive_entry_wins() {
    let entries = vec![
        entry(PolicyScope::SslServer, Some(1)),
        entry(PolicyScope::SslServer, Some(3)),
    ];
    assert_eq!(resolve_ssl_trust(&entries), Some(TrustVerdict::TrustRoot));
}

#[test]
fn unrelated_policy_is_skipped() {
    let entries = vec![entry(PolicyScope::OtherPolicy, Some(3))];
    assert_eq!(resolve_ssl_trust(&entries), None);
    let verdict = certificate_verdict(&TrustSettingsOutcome::Entries(entries));
    assert_eq!(verdict, TrustVerdict::TrustRoot);
}

#[test]
fn empty_entries_mean_unconditional_trust() {
    let entries: Vec<TrustSettingsEntry> = Vec::new();
    assert_eq!(resolve_ssl_trust(&entries), None);
    let verdict = certificate_verdict(&TrustSettingsOutcome::Entries(entries));
    assert_eq!(verdict, TrustVerdict::TrustRoot);
}

#[test]
fn missing_result_defaults_to_trust_root() {
    let entries = vec![entry(PolicyScope::SslServer, None)];
    assert_eq!(resolve_ssl_trust(&entries), Some(TrustVerdict::TrustRoot));
}

#[test]
fn scan_continues_past_nondecisive_entries() {
    let entries = vec![
        entry(PolicyScope::SslServer, Some(7)),
        entry(PolicyScope::AllPolicies, Some(3)),
    ];
    assert_eq!(resolve_ssl_trust(&entries), Some(TrustVerdict::Deny));
}

#[test]
fn result_codes_map_to_verdicts() {
    assert_eq!(verdict_from_code(1), TrustVerdict::TrustRoot);
    assert_eq!(verdict_from_code(2), TrustVerdict::TrustAsRoot);
    assert_eq!(verdict_from_code(3), TrustVerdict::Deny);
    assert_eq!(verdict_from_code(4), TrustVerdict::Unspecified);
    assert_eq!(verdict_from_code(0), TrustVerdict::Unspecified);
}

#[test]
fn unavailable_settings_default_to_trust_root() {
    let verdict = certificate_verdict(&TrustSettingsOutcome::Unavailable);
    assert_eq!(verdict, TrustVerdict::TrustRoot);
}

#[test]
fn trusted_verdicts() {
    assert!(verdict_is_trusted(TrustVerdict::TrustRoot));
    assert!(verdict_is_trusted(TrustVerdict::TrustAsRoot));
    assert!(!verdict_is_trusted(TrustVerdict::Deny));
    assert!(!verdict_is_trusted(TrustVerdict::Unspecified));
}

#[test]
fn status_codes_are_classified() {
    assert_eq!(classify_status(0), QueryStatus::Success);
    assert_eq!(classify_status(-25263), QueryStatus::NoTrustSettings);
    assert_eq!(classify_status(1), QueryStatus::Failure);
    assert_eq!(classify_status(-1), QueryStatus::Failure);
}

#[test]
fn domains_enumerate_in_order() {
    let domains = enumeration_domains();
    assert_eq!(
        domains,
        vec![TrustDomain::User, TrustDomain::Admin, TrustDomain::System]
    );
    assert_eq!(TrustDomain::User.code(), 0);
    assert_eq!(TrustDomain::Admin.code(), 1);
    assert_eq!(TrustDomain::System.code(), 2);
}

#[test]
fn unconfigured_domains_contribute_nothing() {
    let outcomes = vec![
        DomainOutcome::NoTrustSettings,
        DomainOutcome::NoTrustSettings,
        DomainOutcome::NoTrustSettings,
    ];
    let certs = collect_trusted_certs(outcomes).unwrap();
    assert!(certs.is_empty());
}

#[test]
fn failed_domain_aborts_enumeration() {
    let outcomes = vec![
        DomainOutcome::Certificates(vec![report(&[1, 2], TrustSettingsOutcome::Unavailable)]),
        DomainOutcome::CallFailed,
    ];
    let err = collect_trusted_certs(outcomes).unwrap_err();
    assert_eq!(err, CertStoreError::OsCall);
}

#[test]
fn certificate_in_two_domains_appears_once() {
    let outcomes = vec![
        DomainOutcome::Certificates(vec![report(&[1, 2, 3], TrustSettingsOutcome::Unavailable)]),
        DomainOutcome::Certificates(vec![
            report(&[1, 2, 3], TrustSettingsOutcome::Unavailable),
            report(&[4, 5], TrustSettingsOutcome::Unavailable),
        ]),
    ];
    let certs = collect_trusted_certs(outcomes).unwrap();
    assert_eq!(sorted_bytes(certs), vec![vec![1, 2, 3], vec![4, 5]]);
}

#[test]
fn later_domain_overwrites_earlier_verdict() {
    let deny = || TrustSettingsOutcome::Entries(vec![entry(PolicyScope::SslServer, Some(3))]);
    let denied_then_trusted = vec![
        DomainOutcome::Certificates(vec![report(&[9], deny())]),
        DomainOutcome::Certificates(vec![report(&[9], TrustSettingsOutcome::Unavailable)]),
    ];
    let certs = collect_trusted_certs(denied_then_trusted).unwrap();
    assert_eq!(sorted_bytes(certs), vec![vec![9]]);

    let trusted_then_denied = vec![
        DomainOutcome::Certificates(vec![report(&[9], TrustSettingsOutcome::Unavailable)]),
        DomainOutcome::Certificates(vec![report(&[9], deny())]),
    ];
    let certs = collect_trusted_certs(trusted_then_denied).unwrap();
    assert!(certs.is_empty());
}

#[test]
fn denied_certificate_is_excluded() {
    let outcomes = vec![DomainOutcome::Certificates(vec![
        report(
            &[7, 7],
            TrustSettingsOutcome::Entries(vec![entry(PolicyScope::SslServer, Some(3))]),
        ),
        report(&[8, 8], TrustSettingsOutcome::Unavailable),
    ])];
    let certs = collect_trusted_certs(outcomes).unwrap();
    assert_eq!(sorted_bytes(certs), vec![vec![8, 8]]);
}

#[test]
fn trust_as_root_is_included() {
    let outcomes = vec![DomainOutcome::Certificates(vec![report(
        &[5],
        TrustSettingsOutcome::Entries(vec![entry(PolicyScope::AllPolicies, Some(2))]),
    )])];
    let certs = collect_trusted_certs(outcomes).unwrap();
    assert_eq!(sorted_bytes(certs), vec![vec![5]]);
}

#[test]
fn repeated_enumeration_returns_identical_sets() {
    let build = || {
        vec![
            DomainOutcome::Certificates(vec![
                report(&[1], TrustSettingsOutcome::Unavailable),
                report(
                    &[2],
                    TrustSettingsOutcome::Entries(vec![entry(PolicyScope::SslServer, Some(3))]),
                ),
            ]),
            DomainOutcome::NoTrustSettings,
            DomainOutcome::Certificates(vec![report(&[3], TrustSettingsOutcome::Unavailable)]),
        ]
    };
    let first = sorted_bytes(collect_trusted_certs(build()).unwrap());
    let second = sorted_bytes(collect_trusted_certs(build()).unwrap());
    assert_eq!(first, second);
    assert_eq!(first, vec![vec![1], vec![3]]);
}

#[test]
fn record_overwrites_same_bytes() {
    let mut set = CertificateSet::new();
    set.record(Certificate(vec![1, 2]), TrustVerdict::TrustRoot);
    set.record(Certificate(vec![1, 2]), TrustVerdict::Deny);
    assert!(set.trusted_certificates().is_empty());

    let mut set = CertificateSet::new();
    set.record(Certificate(vec![1, 2]), TrustVerdict::Deny);
    set.record(Certificate(vec![1, 2]), TrustVerdict::TrustRoot);
    assert_eq!(sorted_bytes(set.trusted_certificates()), vec![vec![1, 2]]);
}

#[test]
fn apply_domain_reports_failure_and_skips() {
    let mut set = CertificateSet::new();
    assert!(apply_domain(&mut set, DomainOutcome::NoTrustSettings).is_ok());
    assert_eq!(
        apply_domain(&mut set, DomainOutcome::CallFailed),
        Err(CertStoreError::OsCall)
    );
    assert!(set.trusted_certificates().is_empty());
}

#[test]
fn byte_equality_is_content_equality() {
    assert!(bytes_eq(&vec![1, 2, 3], &vec![1, 2, 3]));
    assert!(!bytes_eq(&vec![1, 2, 3], &vec![1, 2]));
    assert!(!bytes_eq(&vec![1, 2, 3], &vec![1, 2, 4]));
    assert!(bytes_eq(&Vec::new(), &Vec::new()));
}

#[test]
fn certificate_clone_copies_bytes() {
    let cert = Certificate(vec![1, 2, 3]);
    let copy = cert.clone();
    assert_eq!(copy.0, cert.0);
    assert_eq!(cert.der(), &vec![1, 2, 3]);
    assert_eq!(Certificate::new(vec![9]).0, vec![9]);
}
