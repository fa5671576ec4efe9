//! Extraction of a trust anchor (subject and subject public key info) from a
//! DER-encoded X.509 certificate, without validating the certificate.
//!
//! The anchor's fields borrow from the certificate's buffer; nothing is copied.

pub mod anchor;
pub mod cert;
pub mod tlv;

pub use anchor::{anchor_from_trusted_cert, try_anchor_from_trusted_cert};
pub use cert::{cert_fields, CertFields};
pub use rustls_pki_types::{Der, TrustAnchor};
pub use tlv::{read_tlv, try_read_tlv, DerError};
