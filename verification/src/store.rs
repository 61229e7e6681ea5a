//! Enumeration of the platform trust store: merging the verdicts of every
//! trust domain into one deduplicated certificate map and emitting the
//! certificates whose final verdict makes them roots of trust.
//!
//! The foreign calls themselves happen outside this crate; their results
//! arrive here as one [`DomainOutcome`] per trust domain.  A domain that
//! reports "no trust settings configured" contributes nothing; any other
//! failing status aborts the whole enumeration, since a trust set must not
//! silently omit anchors.  Certificates are keyed by their DER bytes, and a
//! verdict recorded by a later domain overwrites an earlier one.

use vstd::prelude::*;

use crate::policy::TrustSettingsEntry;
use crate::policy::TrustVerdict;
use crate::policy::resolved_verdict;
use crate::Certificate;
use crate::CertStoreError;

verus! {

/// What a domain answered when asked for the trust-settings entries of one
/// certificate.
pub enum TrustSettingsOutcome {
    /// The request failed or the certificate has no entry list; the
    /// certificate stands in the domain's trusted list with no contrary
    /// evidence, so it keeps the implicit default of unconditional trust.
    Unavailable,
    /// The entries recorded for the certificate, in their stored order.
    Entries(Vec<TrustSettingsEntry>),
}

/// The verdict of one certificate in one domain, given what the domain
/// said about its trust settings.
pub open spec fn settings_verdict(settings: TrustSettingsOutcome) -> TrustVerdict {
    match settings {
        TrustSettingsOutcome::Unavailable => TrustVerdict::TrustRoot,
        TrustSettingsOutcome::Entries(entries) => resolved_verdict(entries@),
    }
}

/// The exec counterpart of [`settings_verdict`]: the first decision among
/// the entries, or unconditional trust when the entries were unavailable
/// or not decisive.
pub fn certificate_verdict(settings: &TrustSettingsOutcome) -> (v: TrustVerdict)
    ensures
        v == settings_verdict(*settings),
{
    match settings {
        TrustSettingsOutcome::Unavailable => TrustVerdict::TrustRoot,
        TrustSettingsOutcome::Entries(entries) => match crate::policy::resolve_ssl_trust(
            entries,
        ) {
            Option::Some(v) => v,
            Option::None => TrustVerdict::TrustRoot,
        },
    }
}

/// Only these two verdicts make a certificate part of the final trusted set.
pub open spec fn is_trusted_verdict(v: TrustVerdict) -> bool {
    v is TrustRoot || v is TrustAsRoot
}

/// Does this verdict admit the certificate into the final trusted set?
pub fn verdict_is_trusted(v: TrustVerdict) -> (r: bool)
    ensures
        r == is_trusted_verdict(v),
{
    match v {
        TrustVerdict::TrustRoot => true,
        TrustVerdict::TrustAsRoot => true,
        _ => false,
    }
}

/// No two stored pairs carry the same certificate bytes.
pub open spec fn distinct_keys(s: Seq<(Certificate, TrustVerdict)>) -> bool {
    forall|i: int, j: int| 0 <= i < j < s.len() ==> s[i].0@ != s[j].0@
}

/// The mapping a pair sequence stands for, later pairs overwriting earlier
/// ones with the same certificate bytes.
pub open spec fn map_of(s: Seq<(Certificate, TrustVerdict)>) -> Map<Seq<u8>, TrustVerdict>
    decreases s.len(),
{
    if s.len() == 0 {
        Map::empty()
    } else {
        map_of(s.drop_last()).insert(s.last().0@, s.last().1)
    }
}

proof fn lemma_map_of_index(s: Seq<(Certificate, TrustVerdict)>, j: int)
    requires
        distinct_keys(s),
        0 <= j < s.len(),
    ensures
        map_of(s).contains_key(s[j].0@),
        map_of(s)[s[j].0@] == s[j].1,
    decreases s.len(),
{
    if j < s.len() - 1 {
        assert(distinct_keys(s.drop_last()));
        assert(s.drop_last()[j] == s[j]);
        lemma_map_of_index(s.drop_last(), j);
        assert(s[j].0@ != s.last().0@);
    }
}

proof fn lemma_map_of_key(s: Seq<(Certificate, TrustVerdict)>, k: Seq<u8>)
    requires
        map_of(s).contains_key(k),
    ensures
        exists|j: int| 0 <= j < s.len() && s[j].0@ == k,
    decreases s.len(),
{
    if s.len() > 0 {
        if k == s.last().0@ {
            assert(s[s.len() - 1].0@ == k);
        } else {
            lemma_map_of_key(s.drop_last(), k);
            let j = choose|j: int| 0 <= j < s.drop_last().len() && s.drop_last()[j].0@ == k;
            assert(s[j].0@ == k);
        }
    }
}

proof fn lemma_map_of_update(s: Seq<(Certificate, TrustVerdict)>, j: int, p: (Certificate, TrustVerdict))
    requires
        distinct_keys(s),
        0 <= j < s.len(),
        p.0@ == s[j].0@,
    ensures
        map_of(s.update(j, p)) == map_of(s).insert(p.0@, p.1),
    decreases s.len(),
{
    if j == s.len() - 1 {
        assert(s.update(j, p).drop_last() =~= s.drop_last());
        assert(s.update(j, p).last() == p);
        assert(map_of(s.drop_last()).insert(s.last().0@, s.last().1).insert(p.0@, p.1) =~= map_of(
            s.drop_last(),
        ).insert(p.0@, p.1));
    } else {
        assert(distinct_keys(s.drop_last()));
        assert(s.drop_last()[j] == s[j]);
        lemma_map_of_update(s.drop_last(), j, p);
        assert(s.update(j, p).drop_last() =~= s.drop_last().update(j, p));
        assert(s.update(j, p).last() == s.last());
        assert(s.last().0@ != p.0@);
        assert(map_of(s.drop_last()).insert(p.0@, p.1).insert(s.last().0@, s.last().1) =~= map_of(
            s.drop_last(),
        ).insert(s.last().0@, s.last().1).insert(p.0@, p.1));
    }
}

/// The running map from certificate bytes to the verdict last observed for
/// them, built while the domains are walked and consumed once at the end.
pub struct CertificateSet {
    entries: Vec<(Certificate, TrustVerdict)>,
}

impl View for CertificateSet {
    type V = Map<Seq<u8>, TrustVerdict>;

    closed spec fn view(&self) -> Map<Seq<u8>, TrustVerdict> {
        map_of(self.entries@)
    }
}

/// A certificate sequence is exactly the trusted part of a verdict map when
/// its members are pairwise distinct, each is a trusted key of the map, and
/// every trusted key of the map occurs in it.
pub open spec fn trusted_output(m: Map<Seq<u8>, TrustVerdict>, certs: Seq<Certificate>) -> bool {
    &&& forall|i: int, j: int| 0 <= i < j < certs.len() ==> certs[i]@ != certs[j]@
    &&& forall|i: int|
        0 <= i < certs.len() ==> m.contains_key(#[trigger] certs[i]@) && is_trusted_verdict(
            m[certs[i]@],
        )
    &&& forall|k: Seq<u8>|
        #[trigger] m.contains_key(k) && is_trusted_verdict(m[k]) ==> exists|i: int|
            0 <= i < certs.len() && certs[i]@ == k
}

fn find_key(entries: &Vec<(Certificate, TrustVerdict)>, der: &Vec<u8>) -> (r: Option<usize>)
    ensures
        match r {
            Option::Some(i) => i < entries@.len() && entries@[i as int].0@ == der@,
            Option::None => forall|j: int| 0 <= j < entries@.len() ==> entries@[j].0@ != der@,
        },
{
    let n = entries.len();
    let mut i: usize = 0;
    while i < n
        invariant
            n == entries@.len(),
            i <= n,
            forall|j: int| 0 <= j < i ==> entries@[j].0@ != der@,
        decreases n - i,
    {
        if bytes_eq(&entries[i].0.0, der) {
            return Option::Some(i);
        }
        i = i + 1;
    }
    Option::None
}

/// Byte-content equality, the identity under which certificates are
/// deduplicated.
pub fn bytes_eq(a: &Vec<u8>, b: &Vec<u8>) -> (r: bool)
    ensures
        r == (a@ == b@),
{
    if a.len() != b.len() {
        return false;
    }
    let n = a.len();
    let mut i: usize = 0;
    while i < n
        invariant
            n == a@.len(),
            a@.len() == b@.len(),
            i <= n,
            forall|j: int| 0 <= j < i ==> a@[j] == b@[j],
        decreases n - i,
    {
        if a[i] != b[i] {
            return false;
        }
        i = i + 1;
    }
    proof {
        assert(a@ =~= b@);
    }
    true
}

impl CertificateSet {
    #[verifier::type_invariant]
    spec fn wf(&self) -> bool {
        distinct_keys(self.entries@)
    }

    /// An empty certificate map.
    pub fn new() -> (s: CertificateSet)
        ensures
            s@ == Map::<Seq<u8>, TrustVerdict>::empty(),
    {
        CertificateSet { entries: Vec::new() }
    }

    /// Records the verdict observed for a certificate, overwriting whatever
    /// an earlier domain recorded for the same bytes.
    pub fn record(&mut self, cert: Certificate, verdict: TrustVerdict)
        ensures
            final(self)@ == old(self)@.insert(cert@, verdict),
    {
        proof {
            use_type_invariant(&*self);
        }
        let mut entries: Vec<(Certificate, TrustVerdict)> = Vec::new();
        std::mem::swap(&mut entries, &mut self.entries);
        let ghost orig = entries@;
        match find_key(&entries, &cert.0) {
            Option::Some(i) => {
                let _ = entries.remove(i);
                entries.insert(i, (cert, verdict));
                proof {
                    assert(entries@ =~= orig.update(i as int, entries@[i as int]));
                    lemma_map_of_update(orig, i as int, entries@[i as int]);
                    assert forall|a: int, b: int|
                        0 <= a < b < entries@.len() implies entries@[a].0@ != entries@[b].0@ by {
                        assert(entries@[a].0@ == orig[a].0@);
                        assert(entries@[b].0@ == orig[b].0@);
                    }
                }
            },
            Option::None => {
                entries.push((cert, verdict));
                proof {
                    assert(entries@.drop_last() =~= orig);
                    assert forall|a: int, b: int|
                        0 <= a < b < entries@.len() implies entries@[a].0@ != entries@[b].0@ by {
                        if b < entries@.len() - 1 {
                            assert(orig[a].0@ != orig[b].0@);
                        } else {
                            assert(orig[a].0@ != entries@[b].0@);
                        }
                    }
                }
            },
        }
        self.entries = entries;
    }

    /// Emits every certificate whose final verdict admits it as a root of
    /// trust, each exactly once.
    pub fn trusted_certificates(&self) -> (certs: Vec<Certificate>)
        ensures
            trusted_output(self@, certs@),
    {
        proof {
            use_type_invariant(&*self);
        }
        let n = self.entries.len();
        let mut certs: Vec<Certificate> = Vec::new();
        let mut i: usize = 0;
        proof {
            assert(self.entries@.take(0) =~= Seq::<(Certificate, TrustVerdict)>::empty());
        }
        while i < n
            invariant
                n == self.entries@.len(),
                i <= n,
                distinct_keys(self.entries@),
                certs@.map_values(|c: Certificate| c@) == trusted_ders(
                    self.entries@.take(i as int),
                ),
            decreases n - i,
        {
            let ghost i1 = i as int;
            let pair = &self.entries[i];
            if verdict_is_trusted(pair.1) {
                certs.push(pair.0.clone());
            }
            proof {
                assert(self.entries@.take(i1 + 1).drop_last() =~= self.entries@.take(i1));
                assert(self.entries@.take(i1 + 1).last() == self.entries@[i1]);
                assert(certs@.map_values(|c: Certificate| c@) =~= trusted_ders(
                    self.entries@.take(i1 + 1),
                ));
            }
            i = i + 1;
        }
        proof {
            assert(self.entries@.take(n as int) =~= self.entries@);
            lemma_trusted_output(self.entries@, certs@);
        }
        certs
    }
}

/// The DER bytes of the pairs whose verdict is trusted, in stored order.
pub open spec fn trusted_ders(s: Seq<(Certificate, TrustVerdict)>) -> Seq<Seq<u8>>
    decreases s.len(),
{
    if s.len() == 0 {
        Seq::empty()
    } else if is_trusted_verdict(s.last().1) {
        trusted_ders(s.drop_last()).push(s.last().0@)
    } else {
        trusted_ders(s.drop_last())
    }
}

proof fn lemma_trusted_ders_source(s: Seq<(Certificate, TrustVerdict)>, a: int)
    requires
        0 <= a < trusted_ders(s).len(),
    ensures
        exists|j: int|
            0 <= j < s.len() && s[j].0@ == trusted_ders(s)[a] && is_trusted_verdict(s[j].1),
    decreases s.len(),
{
    let pre = s.drop_last();
    if a < trusted_ders(pre).len() {
        lemma_trusted_ders_source(pre, a);
        let j = choose|j: int|
            0 <= j < pre.len() && pre[j].0@ == trusted_ders(pre)[a] && is_trusted_verdict(
                pre[j].1,
            );
        assert(0 <= j < s.len() && s[j].0@ == trusted_ders(s)[a] && is_trusted_verdict(s[j].1));
    } else {
        assert(is_trusted_verdict(s.last().1) && trusted_ders(s)[a] == s.last().0@);
        let j = s.len() - 1;
        assert(0 <= j < s.len() && s[j].0@ == trusted_ders(s)[a] && is_trusted_verdict(s[j].1));
    }
}

proof fn lemma_trusted_ders_cover(s: Seq<(Certificate, TrustVerdict)>, j: int)
    requires
        0 <= j < s.len(),
        is_trusted_verdict(s[j].1),
    ensures
        exists|a: int| 0 <= a < trusted_ders(s).len() && trusted_ders(s)[a] == s[j].0@,
    decreases s.len(),
{
    let pre = s.drop_last();
    if j < s.len() - 1 {
        lemma_trusted_ders_cover(pre, j);
        let a = choose|a: int|
            0 <= a < trusted_ders(pre).len() && trusted_ders(pre)[a] == pre[j].0@;
        assert(trusted_ders(s)[a] == trusted_ders(pre)[a]);
        assert(0 <= a < trusted_ders(s).len() && trusted_ders(s)[a] == s[j].0@);
    } else {
        let a = trusted_ders(s).len() - 1;
        assert(0 <= a < trusted_ders(s).len() && trusted_ders(s)[a] == s[j].0@);
    }
}

proof fn lemma_trusted_ders_distinct(s: Seq<(Certificate, TrustVerdict)>, a: int, b: int)
    requires
        distinct_keys(s),
        0 <= a < b < trusted_ders(s).len(),
    ensures
        trusted_ders(s)[a] != trusted_ders(s)[b],
    decreases s.len(),
{
    let pre = s.drop_last();
    assert(distinct_keys(pre));
    if b < trusted_ders(pre).len() {
        lemma_trusted_ders_distinct(pre, a, b);
    } else {
        assert(is_trusted_verdict(s.last().1) && trusted_ders(s)[b] == s.last().0@);
        lemma_trusted_ders_source(pre, a);
        let j = choose|j: int|
            0 <= j < pre.len() && pre[j].0@ == trusted_ders(pre)[a] && is_trusted_verdict(
                pre[j].1,
            );
        assert(s[j].0@ != s[s.len() - 1].0@);
    }
}

proof fn lemma_trusted_output(s: Seq<(Certificate, TrustVerdict)>, certs: Seq<Certificate>)
    requires
        distinct_keys(s),
        certs.map_values(|c: Certificate| c@) == trusted_ders(s),
    ensures
        trusted_output(map_of(s), certs),
{
    assert forall|a: int| 0 <= a < certs.len() implies map_of(s).contains_key(
        #[trigger] certs[a]@,
    ) && is_trusted_verdict(map_of(s)[certs[a]@]) by {
        assert(certs[a]@ == trusted_ders(s)[a]);
        lemma_trusted_ders_source(s, a);
        let j = choose|j: int|
            0 <= j < s.len() && s[j].0@ == trusted_ders(s)[a] && is_trusted_verdict(s[j].1);
        lemma_map_of_index(s, j);
    }
    assert forall|k: Seq<u8>|
        #[trigger] map_of(s).contains_key(k) && is_trusted_verdict(map_of(s)[k])
            implies exists|i: int| 0 <= i < certs.len() && certs[i]@ == k by {
        lemma_map_of_key(s, k);
        let j = choose|j: int| 0 <= j < s.len() && s[j].0@ == k;
        lemma_map_of_index(s, j);
        assert(is_trusted_verdict(s[j].1));
        lemma_trusted_ders_cover(s, j);
        let a = choose|a: int|
            0 <= a < trusted_ders(s).len() && trusted_ders(s)[a] == s[j].0@;
        assert(certs[a]@ == trusted_ders(s)[a]);
        assert(0 <= a < certs.len() && certs[a]@ == k);
    }
    assert forall|i: int, j: int| 0 <= i < j < certs.len() implies certs[i]@ != certs[j]@ by {
        lemma_trusted_ders_distinct(s, i, j);
        assert(certs[i]@ == trusted_ders(s)[i] && certs[j]@ == trusted_ders(s)[j]);
    }
}

/// The status code the trust-settings API returns when a domain's
/// certificate list was copied successfully.
pub const ERR_SEC_SUCCESS: i32 = 0;

/// The status code meaning "no trust settings configured for this domain".
pub const ERR_SEC_NO_TRUST_SETTINGS: i32 = -25263;

/// How a domain's certificate query ended, judged from its status code.
#[derive(Clone, Copy, Debug, PartialEq, Eq, Structural)]
pub enum QueryStatus {
    /// The domain returned its certificate list.
    Success,
    /// The domain has no trust settings configured; it is skipped.
    NoTrustSettings,
    /// Any other status code: fatal for the whole enumeration.
    Failure,
}

/// Which of the two expected status codes came back, if either.
pub open spec fn status_class(status: i32) -> QueryStatus {
    if status == ERR_SEC_SUCCESS {
        QueryStatus::Success
    } else if status == ERR_SEC_NO_TRUST_SETTINGS {
        QueryStatus::NoTrustSettings
    } else {
        QueryStatus::Failure
    }
}

/// Classifies the status code of a domain certificate query: success and
/// "no trust settings configured" are the only codes handled; every other
/// code makes the enumeration fail.
pub fn classify_status(status: i32) -> (c: QueryStatus)
    ensures
        c == status_class(status),
{
    if status == ERR_SEC_SUCCESS {
        QueryStatus::Success
    } else if status == ERR_SEC_NO_TRUST_SETTINGS {
        QueryStatus::NoTrustSettings
    } else {
        QueryStatus::Failure
    }
}

/// One certificate of a trust domain, with what the domain says
/// about its trust settings.
pub struct CertificateReport {
    /// The certificate's DER bytes, copied out of the domain's list.
    pub der: Certificate,
    /// What the domain says about the certificate's trust settings.
    pub settings: TrustSettingsOutcome,
}

/// What querying one trust domain for its certificate list yielded.
pub enum DomainOutcome {
    /// The domain has no trust settings configured; it contributes nothing
    /// and is not an error.
    NoTrustSettings,
    /// The query returned an unexpected status; the whole enumeration must
    /// fail rather than silently omit anchors.
    CallFailed,
    /// The domain's certificates, in list order, each with its recorded
    /// trust settings.
    Certificates(Vec<CertificateReport>),
}

/// The verdict to record for one listed certificate.
pub open spec fn report_verdict(rep: CertificateReport) -> TrustVerdict {
    settings_verdict(rep.settings)
}

/// Folds one domain's reports into a verdict map, in list order, later
/// reports overwriting earlier ones with the same bytes.
pub open spec fn record_reports(
    m: Map<Seq<u8>, TrustVerdict>,
    reports: Seq<CertificateReport>,
) -> Map<Seq<u8>, TrustVerdict>
    decreases reports.len(),
{
    if reports.len() == 0 {
        m
    } else {
        record_reports(m, reports.drop_last()).insert(
            reports.last().der@,
            report_verdict(reports.last()),
        )
    }
}

/// What one domain outcome does to the running verdict map: a failing or
/// unconfigured domain leaves it unchanged.
pub open spec fn apply_outcome(
    m: Map<Seq<u8>, TrustVerdict>,
    outcome: DomainOutcome,
) -> Map<Seq<u8>, TrustVerdict> {
    match outcome {
        DomainOutcome::Certificates(reports) => record_reports(m, reports@),
        _ => m,
    }
}

/// The verdict map after all domain outcomes are merged in order.
pub open spec fn final_map(outcomes: Seq<DomainOutcome>) -> Map<Seq<u8>, TrustVerdict>
    decreases outcomes.len(),
{
    if outcomes.len() == 0 {
        Map::empty()
    } else {
        apply_outcome(final_map(outcomes.drop_last()), outcomes.last())
    }
}

/// No domain query came back with an unexpected status.
pub open spec fn no_call_failed(outcomes: Seq<DomainOutcome>) -> bool {
    forall|i: int| 0 <= i < outcomes.len() ==> !((#[trigger] outcomes[i]) is CallFailed)
}

/// Merges one trust domain's answer into the running certificate map:
/// a domain without trust settings contributes nothing, a failed query
/// aborts, and each listed certificate is recorded under its resolved
/// verdict, overwriting whatever an earlier domain recorded for the same
/// bytes.
pub fn apply_domain(set: &mut CertificateSet, outcome: DomainOutcome) -> (r: Result<
    (),
    CertStoreError,
>)
    ensures
        outcome is CallFailed <==> r is Err,
        r is Err ==> r->Err_0 == CertStoreError::OsCall && final(set)@ == old(set)@,
        r is Ok ==> final(set)@ == apply_outcome(old(set)@, outcome),
        outcome is NoTrustSettings ==> final(set)@ == old(set)@,
{
    match outcome {
        DomainOutcome::NoTrustSettings => Result::Ok(()),
        DomainOutcome::CallFailed => Result::Err(CertStoreError::OsCall),
        DomainOutcome::Certificates(reports) => {
            let n = reports.len();
            let mut i: usize = 0;
            proof {
                assert(reports@.take(0) =~= Seq::<CertificateReport>::empty());
            }
            while i < n
                invariant
                    n == reports@.len(),
                    i <= n,
                    set@ == record_reports(old(set)@, reports@.take(i as int)),
                decreases n - i,
            {
                let ghost i1 = i as int;
                let rep = &reports[i];
                let verdict = certificate_verdict(&rep.settings);
                set.record(rep.der.clone(), verdict);
                proof {
                    assert(reports@.take(i1 + 1).drop_last() =~= reports@.take(i1));
                    assert(reports@.take(i1 + 1).last() == reports@[i1]);
                }
                i = i + 1;
            }
            proof {
                assert(reports@.take(n as int) =~= reports@);
            }
            Result::Ok(())
        },
    }
}

/// Runs the whole enumeration over the recorded domain outcomes: merges
/// every domain in order and emits each certificate whose final verdict
/// makes it a root of trust, exactly once, unless some domain query failed,
/// in which case the whole call fails with no partial result.
pub fn collect_trusted_certs(outcomes: Vec<DomainOutcome>) -> (r: Result<
    Vec<Certificate>,
    CertStoreError,
>)
    ensures
        r is Ok <==> no_call_failed(outcomes@),
        r is Err ==> r->Err_0 == CertStoreError::OsCall,
        r is Ok ==> trusted_output(final_map(outcomes@), r->Ok_0@),
{
    let mut rest = outcomes;
    let ghost orig = rest@;
    let total = rest.len();
    proof {
        assert(orig.len() == total);
    }
    let mut set = CertificateSet::new();
    let mut processed: usize = 0;
    proof {
        assert(orig.take(0) =~= Seq::<DomainOutcome>::empty());
    }
    while rest.len() > 0
        invariant
            orig == outcomes@,
            orig.len() <= usize::MAX,
            processed + rest@.len() == orig.len(),
            rest@ == orig.subrange(processed as int, orig.len() as int),
            set@ == final_map(orig.take(processed as int)),
            no_call_failed(orig.take(processed as int)),
        decreases rest@.len(),
    {
        let ghost done = processed as int;
        let outcome = rest.remove(0);
        proof {
            assert(outcome == orig[done]);
            assert(rest@ =~= orig.subrange(done + 1, orig.len() as int));
        }
        let step = apply_domain(&mut set, outcome);
        match step {
            Result::Err(e) => {
                proof {
                    assert(orig[done] is CallFailed);
                    assert(!no_call_failed(orig));
                }
                return Result::Err(e);
            },
            Result::Ok(_) => {},
        }
        proof {
            assert(orig.take(done + 1).drop_last() =~= orig.take(done));
            assert(orig.take(done + 1).last() == orig[done]);
            assert forall|i: int| 0 <= i < done + 1 implies !((#[trigger] orig.take(done + 1)[i])
                is CallFailed) by {
                assert(orig.take(done + 1)[i] == orig[i]);
                if i < done {
                    assert(orig.take(done)[i] == orig[i]);
                }
            }
        }
        processed = processed + 1;
    }
    proof {
        assert(orig.take(orig.len() as int) =~= orig);
    }
    let certs = set.trusted_certificates();
    Result::Ok(certs)
}

/// The set of DER byte-sequences a certificate list holds, order and
/// multiplicity forgotten.
pub open spec fn cert_bytes_set(certs: Seq<Certificate>) -> Set<Seq<u8>> {
    Set::new(|k: Seq<u8>| exists|i: int| 0 <= i < certs.len() && certs[i]@ == k)
}

/// Deduplication: however many domains listed a certificate, its bytes
/// stand at exactly one position of the produced output.
pub proof fn lemma_output_deduplicated(
    m: Map<Seq<u8>, TrustVerdict>,
    certs: Seq<Certificate>,
    i: int,
    j: int,
)
    requires
        trusted_output(m, certs),
        0 <= i < certs.len(),
        0 <= j < certs.len(),
        certs[i]@ == certs[j]@,
    ensures
        i == j,
{
}

/// Idempotence of the enumeration: any two outputs produced from the same
/// verdict map hold the same set of certificate byte-sequences, so repeated
/// calls over an unchanged trust store return identical sets.
pub proof fn lemma_trusted_output_deterministic(
    m: Map<Seq<u8>, TrustVerdict>,
    c1: Seq<Certificate>,
    c2: Seq<Certificate>,
)
    requires
        trusted_output(m, c1),
        trusted_output(m, c2),
    ensures
        cert_bytes_set(c1) == cert_bytes_set(c2),
{
    assert forall|k: Seq<u8>| #[trigger] cert_bytes_set(c1).contains(k) implies cert_bytes_set(
        c2,
    ).contains(k) by {
        let i = choose|i: int| 0 <= i < c1.len() && c1[i]@ == k;
        assert(m.contains_key(c1[i]@) && is_trusted_verdict(m[c1[i]@]));
        let a = choose|a: int| 0 <= a < c2.len() && c2[a]@ == k;
        assert(0 <= a < c2.len() && c2[a]@ == k);
    }
    assert forall|k: Seq<u8>| #[trigger] cert_bytes_set(c2).contains(k) implies cert_bytes_set(
        c1,
    ).contains(k) by {
        let i = choose|i: int| 0 <= i < c2.len() && c2[i]@ == k;
        assert(m.contains_key(c2[i]@) && is_trusted_verdict(m[c2[i]@]));
        let a = choose|a: int| 0 <= a < c1.len() && c1[a]@ == k;
        assert(0 <= a < c1.len() && c1[a]@ == k);
    }
    assert(cert_bytes_set(c1) =~= cert_bytes_set(c2));
}

} // verus!
