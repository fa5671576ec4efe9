use der_anchor::{
    anchor_from_trusted_cert, cert_fields, read_tlv, try_anchor_from_trusted_cert, try_read_tlv,
    DerError,
};
use webpki_root_certs::TLS_SERVER_ROOT_CERTS;
use webpki_roots::TLS_SERVER_ROOTS;

/// Certificate -> TBSCertificate -> version, serial, signature, issuer (empty),
/// validity stub, subject (empty), subjectPublicKeyInfo (empty).
const MINIMAL: [u8; 28] = [
    0x30, 0x1A, 0x30, 0x18, 0xA0, 0x03, 0x02, 0x01, 0x02, 0x02, 0x01, 0x01, 0x30, 0x03, 0x06,
    0x01, 0x2A, 0x30, 0x00, 0x30, 0x03, 0x06, 0x01, 0x2B, 0x30, 0x00, 0x30, 0x00,
];

/// A certificate with a non-empty subject and key, an extension after the key,
/// and a signature algorithm and signature after the TBSCertificate.
const FULLER: [u8; 40] = [
    0x30, 0x26, 0x30, 0x1F, 0xA0, 0x03, 0x02, 0x01, 0x02, 0x02, 0x01, 0x01, 0x30, 0x03, 0x06,
    0x01, 0x2A, 0x30, 0x00, 0x30, 0x03, 0x06, 0x01, 0x2B, 0x30, 0x02, 0x05, 0x00, 0x30, 0x03,
    0x02, 0x01, 0x07, 0xA3, 0x00, 0x30, 0x00, 0x03, 0x01, 0x00,
];

#[test]
fn test_anchors_from_webpki_roots() {
    for (cert, ta) in TLS_SERVER_ROOT_CERTS.iter().zip(TLS_SERVER_ROOTS) {
        let my_anchor = anchor_from_trusted_cert(cert);
        let mut std_anchor = ta.clone();
        // we won't check the name constraints
        std_anchor.name_constraints = None;

        assert_eq!(my_anchor, std_anchor);
    }
}

#[test]
fn minimal_certificate_has_empty_fields() {
    let fields = cert_fields(&MINIMAL).unwrap();
    assert_eq!(fields.subject, &[] as &[u8]);
    assert_eq!(fields.subject_public_key_info, &[] as &[u8]);
    let anchor = anchor_from_trusted_cert(&MINIMAL);
    assert_eq!(anchor.subject.as_ref(), &[] as &[u8]);
    assert_eq!(anchor.subject_public_key_info.as_ref(), &[] as &[u8]);
    assert!(anchor.name_constraints.is_none());
}

#[test]
fn minimal_certificate_without_key_is_truncated() {
    // The same buffer without its final empty SEQUENCE: both outer lengths
    // now run past the end.
    let short = &MINIMAL[..26];
    assert!(matches!(cert_fields(short), Err(DerError::TruncatedInput)));
}

#[test]
fn fuller_certificate_fields() {
    let fields = cert_fields(&FULLER).unwrap();
    assert_eq!(fields.subject, &[0x05, 0x00]);
    assert_eq!(fields.subject_public_key_info, &[0x02, 0x01, 0x07]);
    let anchor = try_anchor_from_trusted_cert(&FULLER).unwrap();
    assert_eq!(anchor.subject.as_ref(), &[0x05, 0x00]);
    assert_eq!(anchor.subject_public_key_info.as_ref(), &[0x02, 0x01, 0x07]);
    assert!(anchor.name_constraints.is_none());
}

#[test]
fn fields_borrow_from_the_buffer() {
    let fields = cert_fields(&FULLER).unwrap();
    let start = FULLER.as_ptr() as usize;
    assert_eq!(fields.subject.as_ptr() as usize - start, 26);
    assert_eq!(fields.subject_public_key_info.as_ptr() as usize - start, 30);
}

#[test]
fn extraction_is_deterministic() {
    for cert in TLS_SERVER_ROOT_CERTS.iter().take(10) {
        let a = cert_fields(cert).unwrap();
        let b = cert_fields(cert).unwrap();
        assert_eq!(a.subject.as_ptr(), b.subject.as_ptr());
        assert_eq!(a.subject, b.subject);
        assert_eq!(a.subject_public_key_info.as_ptr(), b.subject_public_key_info.as_ptr());
        assert_eq!(a.subject_public_key_info, b.subject_public_key_info);
    }
    assert_eq!(
        try_anchor_from_trusted_cert(&FULLER).unwrap(),
        try_anchor_from_trusted_cert(&FULLER).unwrap()
    );
}

#[test]
fn truncated_root_certificates_are_rejected() {
    for cert in TLS_SERVER_ROOT_CERTS.iter() {
        let bytes: &[u8] = cert;
        let short = &bytes[..bytes.len() - 1];
        assert!(matches!(cert_fields(short), Err(DerError::TruncatedInput)));
        assert!(matches!(try_anchor_from_trusted_cert(short), Err(DerError::TruncatedInput)));
    }
    assert!(matches!(cert_fields(&FULLER[..39]), Err(DerError::TruncatedInput)));
}

#[test]
fn empty_and_one_byte_buffers_are_truncated() {
    assert!(matches!(try_read_tlv(&[]), Err(DerError::TruncatedInput)));
    assert!(matches!(try_read_tlv(&[0x30]), Err(DerError::TruncatedInput)));
    assert!(matches!(cert_fields(&[0x30]), Err(DerError::TruncatedInput)));
}

#[test]
fn unexpected_tag_is_rejected() {
    let mut cert = MINIMAL;
    cert[0] = 0x31;
    assert!(matches!(cert_fields(&cert), Err(DerError::UnexpectedTag)));
    // A serial number where the version belongs.
    let mut cert = MINIMAL;
    cert[4] = 0x02;
    assert!(matches!(cert_fields(&cert), Err(DerError::UnexpectedTag)));
}

#[test]
fn trailing_bytes_are_rejected() {
    let mut cert = MINIMAL.to_vec();
    cert.push(0x00);
    assert!(matches!(cert_fields(&cert), Err(DerError::TrailingBytes)));
}

#[test]
fn short_and_long_length_forms_agree() {
    let value = [1u8, 2, 3, 4, 5];
    let mut short = vec![0x04, 0x05];
    short.extend_from_slice(&value);
    short.extend_from_slice(&[0xAA, 0xBB]);
    let mut long = vec![0x04, 0x81, 0x05];
    long.extend_from_slice(&value);
    long.extend_from_slice(&[0xAA, 0xBB]);
    let a = try_read_tlv(&short).unwrap();
    let b = try_read_tlv(&long).unwrap();
    assert_eq!(a, b);
    assert_eq!(a, (&[0xAA, 0xBB][..], (0x04, 5, &value[..])));
}

#[test]
fn long_form_lengths_decode() {
    let mut one = vec![0x04, 0x81, 0xC8];
    one.extend(std::iter::repeat(7u8).take(200));
    let (rest, (tag, len, value)) = read_tlv(&one);
    assert_eq!((rest.len(), tag, len, value.len()), (0, 0x04, 200, 200));

    let mut two = vec![0x30, 0x82, 0x01, 0x2C];
    two.extend(std::iter::repeat(9u8).take(301));
    let (rest, (tag, len, value)) = read_tlv(&two);
    assert_eq!((rest, tag, len, value.len()), (&[9u8][..], 0x30, 300, 300));
}

#[test]
fn widest_supported_length_encoding_decodes() {
    let widest: u8 = if usize::BITS == 64 { 0x88 } else { 0x84 };
    let n = (widest - 0x80) as usize;
    let mut buf = vec![0x04, widest];
    buf.extend(std::iter::repeat(0u8).take(n - 1));
    buf.push(3);
    buf.extend_from_slice(&[1, 2, 3]);
    let (rest, (tag, len, value)) = try_read_tlv(&buf).unwrap();
    assert_eq!((rest.len(), tag, len, value), (0, 0x04, 3, &[1u8, 2, 3][..]));
}

#[test]
fn too_many_length_bytes_are_rejected() {
    let mut buf = vec![0x30, 0x89];
    buf.extend(std::iter::repeat(0u8).take(64));
    assert!(matches!(try_read_tlv(&buf), Err(DerError::UnsupportedLengthEncoding)));
    assert!(matches!(cert_fields(&buf), Err(DerError::UnsupportedLengthEncoding)));
    buf[1] = 0xFF;
    assert!(matches!(try_read_tlv(&buf), Err(DerError::UnsupportedLengthEncoding)));
}

#[test]
fn empty_long_form_is_rejected() {
    let buf = [0x30, 0x80, 0x00, 0x00];
    assert!(matches!(try_read_tlv(&buf), Err(DerError::UnsupportedLengthEncoding)));
}

#[test]
fn length_past_the_end_is_truncated() {
    assert!(matches!(try_read_tlv(&[0x04, 0x03, 0x01, 0x02]), Err(DerError::TruncatedInput)));
    assert!(matches!(try_read_tlv(&[0x04, 0x82, 0x01]), Err(DerError::TruncatedInput)));
}
