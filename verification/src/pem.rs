//! Decoding of a PEM certificate bundle named by an environment override.
//!
//! When the override names a bundle, that bundle replaces the native trust
//! store wholesale, so a bundle that cannot be decoded is a fatal error
//! rather than an empty result.  The PEM grammar itself belongs to an
//! outside decoder; this module states its result abstractly and wraps the
//! payloads into owned certificates.

use vstd::prelude::*;

use crate::Certificate;
use crate::CertStoreError;

verus! {

/// The DER payloads of the CERTIFICATE sections of a PEM bundle, in order,
/// or nothing when the bundle is malformed.  The value is a function of the
/// bytes alone and is left uninterpreted: the PEM grammar belongs to the
/// outside decoder.
pub uninterp spec fn pem_certs_of(data: Seq<u8>) -> Option<Seq<Seq<u8>>>;

/// Relies on rustls_pemfile::certs: scans a PEM bundle and returns the
/// base64-decoded DER payload of every CERTIFICATE section, in order,
/// failing exactly on malformed section contents.  The result depends on
/// the input bytes alone.
#[verifier::external_body]
fn pem_certs_raw(data: &Vec<u8>) -> (r: Option<Vec<Vec<u8>>>)
    ensures
        r is Some <==> pem_certs_of(data@) is Some,
        r is Some ==> r.unwrap().deep_view() == pem_certs_of(data@).unwrap(),
{
    match rustls_pemfile::certs(&mut data.as_slice()) {
        Ok(ders) => Some(ders),
        Err(_) => None,
    }
}

/// Wraps each DER byte vector of a list in an owned [`Certificate`],
/// keeping length and order.
pub fn certificates_from_der(ders: Vec<Vec<u8>>) -> (certs: Vec<Certificate>)
    ensures
        certs@.len() == ders@.len(),
        forall|i: int| 0 <= i < certs@.len() ==> certs@[i]@ == ders@[i]@,
        certs.deep_view() == ders.deep_view(),
{
    let mut rest = ders;
    let ghost orig = rest@;
    let mut certs: Vec<Certificate> = Vec::new();
    while rest.len() > 0
        invariant
            certs@.len() + rest@.len() == orig.len(),
            rest@ == orig.subrange(certs@.len() as int, orig.len() as int),
            forall|i: int| 0 <= i < certs@.len() ==> certs@[i]@ == orig[i]@,
        decreases rest@.len(),
    {
        let ghost done = certs@.len() as int;
        let der = rest.remove(0);
        proof {
            assert(der@ == orig[done]@);
            assert(rest@ =~= orig.subrange(done + 1, orig.len() as int));
        }
        certs.push(Certificate(der));
    }
    proof {
        assert(certs.deep_view() =~~= ders.deep_view());
    }
    certs
}

/// Decodes the PEM bundle named by an override into the certificates it
/// holds; a bundle the decoder cannot parse is a fatal decode error.
pub fn certs_from_pem(data: &Vec<u8>) -> (r: Result<Vec<Certificate>, CertStoreError>)
    ensures
        r is Ok <==> pem_certs_of(data@) is Some,
        r is Ok ==> r->Ok_0.deep_view() == pem_certs_of(data@).unwrap(),
        r is Err ==> r->Err_0 == CertStoreError::PemDecode,
{
    match pem_certs_raw(data) {
        Option::Some(ders) => {
            let certs = certificates_from_der(ders);
            Result::Ok(certs)
        },
        Option::None => Result::Err(CertStoreError::PemDecode),
    }
}

} // verus!
