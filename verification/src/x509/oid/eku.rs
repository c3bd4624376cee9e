//! Extended Key Usage (`id-kp`) purpose OIDs.

use vstd::prelude::*;

verus! {

/// `id-kp-serverAuth` — 1.3.6.1.5.5.7.3.1
pub const SERVER_AUTH: [u64; 9] = [1, 3, 6, 1, 5, 5, 7, 3, 1];

/// `id-kp-clientAuth` — 1.3.6.1.5.5.7.3.2
pub const CLIENT_AUTH: [u64; 9] = [1, 3, 6, 1, 5, 5, 7, 3, 2];

/// `id-kp-codeSigning` — 1.3.6.1.5.5.7.3.3
pub const CODE_SIGNING: [u64; 9] = [1, 3, 6, 1, 5, 5, 7, 3, 3];

/// `id-kp-emailProtection` — 1.3.6.1.5.5.7.3.4
pub const EMAIL_PROTECTION: [u64; 9] = [1, 3, 6, 1, 5, 5, 7, 3, 4];

/// `id-kp-timeStamping` — 1.3.6.1.5.5.7.3.8
pub const TIME_STAMPING: [u64; 9] = [1, 3, 6, 1, 5, 5, 7, 3, 8];

/// `id-kp-OCSPSigning` — 1.3.6.1.5.5.7.3.9
pub const OCSP_SIGNING: [u64; 9] = [1, 3, 6, 1, 5, 5, 7, 3, 9];

} // verus!
