//! Resolution of the trust-settings entries of one certificate in one trust
//! domain to a single verdict for the SSL-server policy.
//!
//! A trust domain hands back, per certificate, zero or more entries.  An
//! entry that names a policy other than SSL server is skipped; the first
//! remaining entry whose verdict is decisive (trust as root, trust as an
//! intermediate, or deny) decides.  A certificate listed with no decisive
//! entry keeps the implicit default: unconditional trust.

use vstd::prelude::*;

verus! {

/// A scope of trust-settings configuration.  All domains contribute
/// candidate certificates; none outranks another, except that a verdict
/// recorded by a later domain overwrites an earlier one.
#[derive(Clone, Copy, Debug, PartialEq, Eq, Structural)]
pub enum TrustDomain {
    User,
    Admin,
    System,
}

/// The raw domain constants of the trust-settings API.
pub open spec fn domain_code(d: TrustDomain) -> u32 {
    match d {
        TrustDomain::User => 0,
        TrustDomain::Admin => 1,
        TrustDomain::System => 2,
    }
}

impl TrustDomain {
    /// The raw constant that the trust-settings API uses for this domain.
    pub fn code(&self) -> (c: u32)
        ensures
            c == domain_code(*self),
    {
        match self {
            TrustDomain::User => 0,
            TrustDomain::Admin => 1,
            TrustDomain::System => 2,
        }
    }
}

/// The domains in enumeration order: user, then administrator, then system.
pub fn enumeration_domains() -> (ds: Vec<TrustDomain>)
    ensures
        ds@ =~= seq![TrustDomain::User, TrustDomain::Admin, TrustDomain::System],
{
    let mut ds: Vec<TrustDomain> = Vec::new();
    ds.push(TrustDomain::User);
    ds.push(TrustDomain::Admin);
    ds.push(TrustDomain::System);
    ds
}

/// The policy-name attribute of one trust-settings entry, as far as the
/// resolution cares: absent (the entry constrains every policy), the
/// SSL-server policy, or some unrelated policy.
#[derive(Clone, Copy, Debug, PartialEq, Eq, Structural)]
pub enum PolicyScope {
    /// No policy-name attribute: the entry applies to all policies.
    AllPolicies,
    /// The entry names the SSL-server policy.
    SslServer,
    /// The entry names a policy other than SSL server.
    OtherPolicy,
}

/// One trust-settings entry of one certificate in one domain: the scope its
/// policy-name attribute draws, and its raw trust-result code, if any.
#[derive(Clone, Copy, Debug)]
pub struct TrustSettingsEntry {
    pub policy: PolicyScope,
    pub result: Option<u32>,
}

/// The resolved decision for one certificate: is it an accepted root for
/// SSL-server validation?
#[derive(Clone, Copy, Debug, PartialEq, Eq, Structural)]
pub enum TrustVerdict {
    /// Trusted as a root certificate.
    TrustRoot,
    /// Trusted as a root although it is not self-signed.
    TrustAsRoot,
    /// Explicitly distrusted.
    Deny,
    /// No decision: any other result code.
    Unspecified,
}

/// The raw trust-result code meaning "trust as a root".
pub const RESULT_TRUST_ROOT: u32 = 1;

/// The raw trust-result code meaning "trust as a root although not self-signed".
pub const RESULT_TRUST_AS_ROOT: u32 = 2;

/// The raw trust-result code meaning "deny".
pub const RESULT_DENY: u32 = 3;

/// The verdict a raw trust-result code stands for; codes other than the
/// three decisive ones are not a decision.
pub open spec fn verdict_of_code(code: u32) -> TrustVerdict {
    if code == RESULT_TRUST_ROOT {
        TrustVerdict::TrustRoot
    } else if code == RESULT_TRUST_AS_ROOT {
        TrustVerdict::TrustAsRoot
    } else if code == RESULT_DENY {
        TrustVerdict::Deny
    } else {
        TrustVerdict::Unspecified
    }
}

/// Maps a raw trust-result code to the verdict it stands for.
pub fn verdict_from_code(code: u32) -> (v: TrustVerdict)
    ensures
        v == verdict_of_code(code),
{
    if code == RESULT_TRUST_ROOT {
        TrustVerdict::TrustRoot
    } else if code == RESULT_TRUST_AS_ROOT {
        TrustVerdict::TrustAsRoot
    } else if code == RESULT_DENY {
        TrustVerdict::Deny
    } else {
        TrustVerdict::Unspecified
    }
}

/// An entry constrains the SSL-server policy unless it names an unrelated
/// policy.
pub open spec fn entry_applies(e: TrustSettingsEntry) -> bool {
    !(e.policy is OtherPolicy)
}

/// The verdict one entry carries: its trust-result code, or unconditional
/// trust when the attribute is absent.
pub open spec fn entry_verdict(e: TrustSettingsEntry) -> TrustVerdict {
    match e.result {
        Option::Some(code) => verdict_of_code(code),
        Option::None => TrustVerdict::TrustRoot,
    }
}

/// Only these three verdicts end the scan over a certificate's entries.
pub open spec fn decisive(v: TrustVerdict) -> bool {
    v is TrustRoot || v is TrustAsRoot || v is Deny
}

/// The verdict of the first applicable, decisive entry, if any.
pub open spec fn first_decision(entries: Seq<TrustSettingsEntry>) -> Option<TrustVerdict>
    decreases entries.len(),
{
    if entries.len() == 0 {
        Option::None
    } else if entry_applies(entries[0]) && decisive(entry_verdict(entries[0])) {
        Option::Some(entry_verdict(entries[0]))
    } else {
        first_decision(entries.subrange(1, entries.len() as int))
    }
}

/// The verdict of one certificate given its entries in one domain: the first
/// decision, or the implicit default of unconditional trust when no entry
/// decides.
pub open spec fn resolved_verdict(entries: Seq<TrustSettingsEntry>) -> TrustVerdict {
    match first_decision(entries) {
        Option::Some(v) => v,
        Option::None => TrustVerdict::TrustRoot,
    }
}

/// Scans a certificate's trust-settings entries in order and returns the
/// verdict of the first applicable entry that is decisive.
pub fn resolve_ssl_trust(entries: &Vec<TrustSettingsEntry>) -> (r: Option<TrustVerdict>)
    ensures
        r == first_decision(entries@),
{
    let n = entries.len();
    let mut i: usize = 0;
    proof {
        assert(entries@.subrange(0, n as int) =~= entries@);
    }
    while i < n
        invariant
            n == entries@.len(),
            i <= n,
            first_decision(entries@) == first_decision(entries@.subrange(i as int, n as int)),
        decreases n - i,
    {
        let e = entries[i];
        let applies = match e.policy {
            PolicyScope::OtherPolicy => false,
            _ => true,
        };
        if applies {
            let v = match e.result {
                Option::Some(code) => verdict_from_code(code),
                Option::None => TrustVerdict::TrustRoot,
            };
            let is_decisive = match v {
                TrustVerdict::Unspecified => false,
                _ => true,
            };
            if is_decisive {
                proof {
                    let rest = entries@.subrange(i as int, n as int);
                    assert(rest[0] == entries@[i as int]);
                    assert(first_decision(rest) == Option::Some(entry_verdict(rest[0])));
                }
                return Option::Some(v);
            }
        }
        proof {
            let rest = entries@.subrange(i as int, n as int);
            assert(rest[0] == entries@[i as int]);
            assert(rest.subrange(1, rest.len() as int) =~= entries@.subrange(
                i as int + 1,
                n as int,
            ));
        }
        i = i + 1;
    }
    proof {
        assert(entries@.subrange(n as int, n as int).len() == 0);
    }
    Option::None
}

/// The first applicable decisive entry decides: whatever entries follow it,
/// the resolved decision is its verdict, never that of a later entry.
pub proof fn lemma_first_decisive_entry_wins(entries: Seq<TrustSettingsEntry>, i: int)
    requires
        0 <= i < entries.len(),
        forall|j: int|
            0 <= j < i ==> !(entry_applies(#[trigger] entries[j]) && decisive(
                entry_verdict(entries[j]),
            )),
        entry_applies(entries[i]),
        decisive(entry_verdict(entries[i])),
    ensures
        first_decision(entries) == Option::Some(entry_verdict(entries[i])),
    decreases i,
{
    if i > 0 {
        let rest = entries.subrange(1, entries.len() as int);
        assert(!(entry_applies(entries[0]) && decisive(entry_verdict(entries[0]))));
        assert forall|j: int|
            0 <= j < i - 1 implies !(entry_applies(#[trigger] rest[j]) && decisive(
            entry_verdict(rest[j]),
        )) by {
            assert(rest[j] == entries[j + 1]);
        }
        assert(rest[i - 1] == entries[i]);
        lemma_first_decisive_entry_wins(rest, i - 1);
    }
}

/// An entry that names an unrelated policy is only skipped: a certificate
/// whose entries all target other policies keeps the implicit default of
/// unconditional trust, rather than being denied.
pub proof fn lemma_unrelated_policies_keep_default(entries: Seq<TrustSettingsEntry>)
    requires
        forall|j: int| 0 <= j < entries.len() ==> (#[trigger] entries[j]).policy is OtherPolicy,
    ensures
        first_decision(entries) is None,
        resolved_verdict(entries) == TrustVerdict::TrustRoot,
    decreases entries.len(),
{
    if entries.len() > 0 {
        let rest = entries.subrange(1, entries.len() as int);
        assert(entries[0].policy is OtherPolicy);
        assert forall|j: int| 0 <= j < rest.len() implies (#[trigger] rest[j]).policy
            is OtherPolicy by {
            assert(rest[j] == entries[j + 1]);
        }
        lemma_unrelated_policies_keep_default(rest);
    }
}

} // verus!

