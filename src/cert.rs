//! The walk over a `Certificate` that finds its `subject` and
//! `subjectPublicKeyInfo` fields.
use vstd::prelude::*;

use crate::tlv::{
    lemma_header_prefix, lemma_too_many_length_bytes, max_len_len, spec_header, spec_read_tlv,
    tlv_result_is, try_read_tlv, DerError,
};

verus! {

/// Tag of a SEQUENCE.
pub const SEQUENCE: u8 = 0x30;

/// Tag of an INTEGER.
pub const INTEGER: u8 = 0x02;

/// Tag of the explicit `[0]` that wraps a certificate's version.
pub const VERSION: u8 = 0xa0;

/// The unit at the front of `s`, as `(rest, value)`, when its tag is `tag`.
pub open spec fn spec_expect(s: Seq<u8>, tag: u8) -> Result<(Seq<u8>, Seq<u8>), DerError> {
    match spec_read_tlv(s) {
        Err(e) => Err(e),
        Ok((rest, (t, _, value))) => {
            if t == tag {
                Ok((rest, value))
            } else {
                Err(DerError::UnexpectedTag)
            }
        },
    }
}

/// What follows the unit at the front of the buffer that `r` holds, when the
/// unit's tag is `tag`.
pub open spec fn spec_skip(r: Result<Seq<u8>, DerError>, tag: u8) -> Result<Seq<u8>, DerError> {
    match r {
        Err(e) => Err(e),
        Ok(s) => match spec_expect(s, tag) {
            Err(e) => Err(e),
            Ok((rest, _)) => Ok(rest),
        },
    }
}

/// The contents of the `TBSCertificate` from its `subject` on: what follows
/// the version, serial number, signature algorithm, issuer and validity.
pub open spec fn spec_from_subject(tbs: Seq<u8>) -> Result<Seq<u8>, DerError> {
    let version = spec_skip(Ok(tbs), VERSION);
    let serial = spec_skip(version, INTEGER);
    let signature = spec_skip(serial, SEQUENCE);
    let issuer = spec_skip(signature, SEQUENCE);
    spec_skip(issuer, SEQUENCE)
}

/// The contents of the `TBSCertificate` inside `cert`, a whole `Certificate`.
pub open spec fn spec_tbs(cert: Seq<u8>) -> Result<Seq<u8>, DerError> {
    match spec_expect(cert, SEQUENCE) {
        Err(e) => Err(e),
        Ok((rest, body)) => {
            if rest.len() != 0 {
                Err(DerError::TrailingBytes)
            } else {
                match spec_expect(body, SEQUENCE) {
                    Err(e) => Err(e),
                    Ok((_, tbs)) => Ok(tbs),
                }
            }
        },
    }
}

/// The values of the `subject` and `subjectPublicKeyInfo` of `cert`.
pub open spec fn spec_cert_fields(cert: Seq<u8>) -> Result<(Seq<u8>, Seq<u8>), DerError> {
    match spec_tbs(cert) {
        Err(e) => Err(e),
        Ok(tbs) => match spec_from_subject(tbs) {
            Err(e) => Err(e),
            Ok(s) => match spec_expect(s, SEQUENCE) {
                Err(e) => Err(e),
                Ok((rest, subject)) => match spec_expect(rest, SEQUENCE) {
                    Err(e) => Err(e),
                    Ok((_, spki)) => Ok((subject, spki)),
                },
            },
        },
    }
}

/// What is found in a certificate depends on its bytes alone: two buffers
/// that hold the same bytes give the same fields, or the same error.
pub proof fn lemma_fields_deterministic(a: Seq<u8>, b: Seq<u8>)
    requires
        a == b,
    ensures
        spec_cert_fields(a) == spec_cert_fields(b),
{
}

/// A certificate that is read in full is rejected as truncated once its
/// last byte is removed.
pub proof fn lemma_truncated_cert_rejected(cert: Seq<u8>)
    requires
        spec_cert_fields(cert) is Ok,
    ensures
        spec_cert_fields(cert.drop_last()) == Err::<(Seq<u8>, Seq<u8>), _>(DerError::TruncatedInput),
{
    let (h, len) = spec_header(cert)->Ok_0;
    let body = cert.subrange(h as int, (h + len) as int);
    assert(spec_expect(body, SEQUENCE) is Ok);
    assert(body.len() >= 2);
    let t = cert.drop_last();
    assert(t.subrange(0, h as int) =~= cert.subrange(0, h as int));
    lemma_header_prefix(cert, t);
}

/// A certificate whose outer header announces more length bytes than this
/// target supports is rejected, however long the buffer is.
pub proof fn lemma_cert_too_many_length_bytes(cert: Seq<u8>)
    requires
        cert.len() >= 2,
        cert[1] >= 0x80,
        cert[1] - 0x80 > max_len_len(),
    ensures
        spec_cert_fields(cert) == Err::<(Seq<u8>, Seq<u8>), _>(DerError::UnsupportedLengthEncoding),
{
    lemma_too_many_length_bytes(cert);
}

/// The two fields of a certificate that a trust anchor is made of, as views
/// into the certificate's buffer.
pub struct CertFields<'a> {
    /// The value of the `subject` SEQUENCE.
    pub subject: &'a [u8],
    /// The value of the `subjectPublicKeyInfo` SEQUENCE.
    pub subject_public_key_info: &'a [u8],
}

/// Reads the unit at the front of `der` and checks that its tag is `tag`;
/// returns what follows it and its value.
fn expect_tlv(der: &[u8], tag: u8) -> (r: Result<(&[u8], &[u8]), DerError>)
    ensures
        match r {
            Ok((rest, value)) => spec_expect(der@, tag) == Ok::<_, DerError>((rest@, value@)),
            Err(e) => spec_expect(der@, tag) == Err::<(Seq<u8>, Seq<u8>), _>(e),
        },
{
    let r = try_read_tlv(der);
    assert(tlv_result_is(r, der@));
    match r {
        Err(e) => Err(e),
        Ok((rest, (t, _, value))) => {
            if t == tag {
                Ok((rest, value))
            } else {
                Err(DerError::UnexpectedTag)
            }
        },
    }
}

/// Finds the `subject` and `subjectPublicKeyInfo` of the certificate in
/// `cert`, reporting where the buffer departs from the expected layout.
pub fn cert_fields(cert: &[u8]) -> (r: Result<CertFields<'_>, DerError>)
    ensures
        match r {
            Ok(f) => spec_cert_fields(cert@) == Ok::<_, DerError>(
                (f.subject@, f.subject_public_key_info@),
            ),
            Err(e) => spec_cert_fields(cert@) == Err::<(Seq<u8>, Seq<u8>), _>(e),
        },
{
    // Certificate: its unit must span the whole buffer.
    let body = match expect_tlv(cert, SEQUENCE) {
        Err(e) => return Err(e),
        Ok((rest, body)) => {
            if rest.len() != 0 {
                return Err(DerError::TrailingBytes);
            }
            body
        },
    };
    // TBSCertificate; the signature after it is not needed.
    let tbs = match expect_tlv(body, SEQUENCE) {
        Err(e) => return Err(e),
        Ok((_, tbs)) => tbs,
    };
    // Skip the version.
    let rem = match expect_tlv(tbs, VERSION) {
        Err(e) => return Err(e),
        Ok((rem, _)) => rem,
    };
    // Skip the serial number.
    let rem = match expect_tlv(rem, INTEGER) {
        Err(e) => return Err(e),
        Ok((rem, _)) => rem,
    };
    // Skip the signature algorithm.
    let rem = match expect_tlv(rem, SEQUENCE) {
        Err(e) => return Err(e),
        Ok((rem, _)) => rem,
    };
    // Skip the issuer.
    let rem = match expect_tlv(rem, SEQUENCE) {
        Err(e) => return Err(e),
        Ok((rem, _)) => rem,
    };
    // Skip the validity.
    let rem = match expect_tlv(rem, SEQUENCE) {
        Err(e) => return Err(e),
        Ok((rem, _)) => rem,
    };
    // The subject.
    let (rem, subject) = match expect_tlv(rem, SEQUENCE) {
        Err(e) => return Err(e),
        Ok(found) => found,
    };
    // The subject public key info; the extensions after it are not needed.
    let spki = match expect_tlv(rem, SEQUENCE) {
        Err(e) => return Err(e),
        Ok((_, spki)) => spki,
    };
    Ok(CertFields { subject, subject_public_key_info: spki })
}

} // verus!
