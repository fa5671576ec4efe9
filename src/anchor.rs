//! Building a `rustls_pki_types::TrustAnchor` from a certificate.
use vstd::prelude::*;

use rustls_pki_types::{Der, TrustAnchor};

use crate::cert::{cert_fields, spec_cert_fields};
use crate::tlv::DerError;

verus! {

/// `rustls_pki_types::Der`, whose bytes are seen through `der_bytes` alone.
#[verifier::external_type_specification]
#[verifier::external_body]
pub struct ExDer<'a>(Der<'a>);

/// `rustls_pki_types::TrustAnchor`, with its public fields `subject`,
/// `subject_public_key_info` and `name_constraints`.
#[verifier::external_type_specification]
pub struct ExTrustAnchor<'a>(TrustAnchor<'a>);

/// The bytes that a `Der` holds.
pub uninterp spec fn der_bytes(d: Der) -> Seq<u8>;

/// Relies on `Der::from_slice`: the result borrows `der` and holds its bytes.
pub assume_specification<'a>[ Der::<'a>::from_slice ](der: &'a [u8]) -> (r: Der<'a>)
    ensures
        der_bytes(r) == der@,
;

/// The anchor `a` holds `fields`, the subject and subject public key info of
/// a certificate, and no name constraints.
pub open spec fn anchor_holds(a: TrustAnchor, fields: (Seq<u8>, Seq<u8>)) -> bool {
    &&& der_bytes(a.subject) == fields.0
    &&& der_bytes(a.subject_public_key_info) == fields.1
    &&& a.name_constraints is None
}

/// The trust anchor of the certificate in `cert`, or the reason the buffer
/// does not hold a certificate of the expected layout.
pub fn try_anchor_from_trusted_cert(cert: &[u8]) -> (r: Result<TrustAnchor<'_>, DerError>)
    ensures
        match r {
            Ok(a) => spec_cert_fields(cert@) is Ok && anchor_holds(a, spec_cert_fields(cert@)->Ok_0),
            Err(e) => spec_cert_fields(cert@) == Err::<(Seq<u8>, Seq<u8>), _>(e),
        },
{
    match cert_fields(cert) {
        Err(e) => Err(e),
        Ok(fields) => Ok(
            TrustAnchor {
                subject: Der::from_slice(fields.subject),
                subject_public_key_info: Der::from_slice(fields.subject_public_key_info),
                name_constraints: None,
            },
        ),
    }
}

/// The trust anchor of the certificate in `cert`, which must be a whole
/// DER-encoded certificate of the standard v3 layout. Nothing is validated
/// beyond that layout: call it only on a certificate that is already trusted.
pub fn anchor_from_trusted_cert(cert: &[u8]) -> (r: TrustAnchor<'_>)
    requires
        spec_cert_fields(cert@) is Ok,
    ensures
        anchor_holds(r, spec_cert_fields(cert@)->Ok_0),
{
    match try_anchor_from_trusted_cert(cert) {
        Ok(anchor) => anchor,
        Err(_) => vstd::pervasive::unreached(),
    }
}

} // verus!
