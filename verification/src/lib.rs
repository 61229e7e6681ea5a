//! Discovery of the certificates that the host operating system trusts as
//! roots for TLS server authentication.
//!
//! The platform trust store hands back, for every trust domain, a list of
//! certificates together with administrator-configured trust-settings
//! entries.  This crate holds the verified logic of that pipeline: resolving
//! the entries of one certificate to a single verdict (`policy`), merging the
//! verdicts of all domains into a deduplicated certificate map and emitting
//! the trusted subset (`store`), and decoding a PEM bundle named by an
//! override (`pem`).  The foreign calls that produce the raw data are left to
//! the surrounding program, which feeds their results in as plain values.

use vstd::prelude::*;

pub mod pem;
pub mod policy;
pub mod store;

verus! {

/// A single DER-encoded X.509 certificate, held as an owned byte vector.
///
/// The bytes are never parsed here: they are an opaque identity, and two
/// certificates are the same exactly when their bytes are.
#[derive(Debug)]
pub struct Certificate(pub Vec<u8>);

impl View for Certificate {
    type V = Seq<u8>;

    open spec fn view(&self) -> Seq<u8> {
        self.0@
    }
}

impl DeepView for Certificate {
    type V = Seq<u8>;

    open spec fn deep_view(&self) -> Seq<u8> {
        self.0@
    }
}

impl Certificate {
    /// Wraps an owned DER byte vector.
    pub fn new(der: Vec<u8>) -> (c: Certificate)
        ensures
            c@ == der@,
    {
        Certificate(der)
    }

    /// The DER bytes of the certificate.
    pub fn der(&self) -> (der: &Vec<u8>)
        ensures
            der@ == self@,
    {
        &self.0
    }
}

impl Clone for Certificate {
    fn clone(&self) -> (c: Self)
        ensures
            c@ == self@,
    {
        let mut der: Vec<u8> = Vec::new();
        let mut i: usize = 0;
        while i < self.0.len()
            invariant
                i <= self.0@.len(),
                der@ == self.0@.take(i as int),
            decreases self.0@.len() - i,
        {
            der.push(self.0[i]);
            assert(der@ =~= self.0@.take(i + 1 as int));
            i = i + 1;
        }
        assert(der@ =~= self.0@);
        Certificate(der)
    }
}

/// Why a certificate set could not be produced.
#[derive(Clone, Copy, Debug, PartialEq, Eq, Structural)]
pub enum CertStoreError {
    /// A trust-settings call of the operating system returned an unexpected
    /// status code; the enumeration is abandoned rather than returning a
    /// partial set.
    OsCall,
    /// An overriding PEM bundle could not be decoded.
    PemDecode,
}

} // verus!
