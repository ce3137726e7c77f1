//! The canonical credential, and the mapping from a wire entry to it.
use vstd::prelude::*;
use crate::payload::{MigrationPayload, OtpParameters};

verus! {

/// Hash algorithms that a canonical credential can use.
#[derive(Debug, Clone, Copy, PartialEq, Eq, Structural)]
pub enum Algorithm {
    Sha1,
    Sha256,
    Sha512,
}

/// The period of every credential read from a transfer export, in seconds.
pub const PERIOD_SECONDS: u64 = 30;

/// A validated time-based credential.
#[derive(Debug, Clone, PartialEq, Eq)]
pub struct Otp {
    pub issuer: String,
    pub account: Option<String>,
    pub secret: Vec<u8>,
    pub algorithm: Algorithm,
    pub period: u64,
    pub digits: u32,
}

/// Why a wire entry does not map to a canonical credential.
#[derive(Debug, Clone, Copy, PartialEq, Eq, Structural)]
pub enum OtpConvertionError {
    UnknownAlgorithm(i32),
    UnknownDigits(i32),
    MD5NotSupported,
}

/// The algorithm that a known, supported wire value stands for.
pub open spec fn algorithm_of(a: i32) -> Option<Algorithm> {
    if a == 1 {
        Some(Algorithm::Sha1)
    } else if a == 2 {
        Some(Algorithm::Sha256)
    } else if a == 3 {
        Some(Algorithm::Sha512)
    } else {
        None
    }
}

/// The digit count that a known wire value stands for.
pub open spec fn digits_of(d: i32) -> Option<u32> {
    if d == 1 {
        Some(6)
    } else if d == 2 {
        Some(8)
    } else {
        None
    }
}

/// The error for an entry. The algorithm is validated first: a value outside
/// the enumeration or the unspecified value is unknown, MD5 is unsupported.
/// Only then the digit count: anything but six or eight is unknown. `None`
/// when the entry maps.
pub open spec fn conversion_error(a: i32, d: i32) -> Option<OtpConvertionError> {
    if !(0 <= a <= 4) {
        Some(OtpConvertionError::UnknownAlgorithm(a))
    } else if a == 0 {
        Some(OtpConvertionError::UnknownAlgorithm(0))
    } else if a == 4 {
        Some(OtpConvertionError::MD5NotSupported)
    } else if d != 1 && d != 2 {
        Some(OtpConvertionError::UnknownDigits(d))
    } else {
        None
    }
}

/// Whether `o` is the canonical credential for entry `p`.
pub open spec fn maps_to(p: OtpParameters, o: Otp) -> bool {
    &&& algorithm_of(p.algorithm) == Some(o.algorithm)
    &&& digits_of(p.digits) == Some(o.digits)
    &&& o.issuer@ == p.issuer@
    &&& o.secret@ == p.secret@
    &&& o.period == PERIOD_SECONDS
    &&& (p.name@.len() == 0 ==> o.account is None)
    &&& (p.name@.len() != 0 ==> (o.account matches Some(acc) && acc@ == p.name@))
}

/// Maps one wire entry to a canonical credential.
pub fn params_to_otp(params: &OtpParameters) -> (r: Result<Otp, OtpConvertionError>)
    ensures
        r is Ok <==> conversion_error(params.algorithm, params.digits) is None,
        match r {
            Ok(o) => maps_to(*params, o),
            Err(e) => conversion_error(params.algorithm, params.digits) == Some(e),
        },
{
    let a = params.algorithm;
    let d = params.digits;
    if !(0 <= a && a <= 4) {
        return Err(OtpConvertionError::UnknownAlgorithm(a));
    }
    let algorithm = if a == 0 {
        return Err(OtpConvertionError::UnknownAlgorithm(0));
    } else if a == 4 {
        return Err(OtpConvertionError::MD5NotSupported);
    } else if a == 1 {
        Algorithm::Sha1
    } else if a == 2 {
        Algorithm::Sha256
    } else {
        Algorithm::Sha512
    };
    let digits: u32 = if d == 1 {
        6
    } else if d == 2 {
        8
    } else {
        return Err(OtpConvertionError::UnknownDigits(d));
    };
    let account = if params.name.as_str().is_empty() {
        None
    } else {
        Some(params.name.clone())
    };
    let secret = params.secret.clone();
    assert(secret@ =~= params.secret@);
    Ok(Otp {
        issuer: params.issuer.clone(),
        account,
        secret,
        algorithm,
        period: PERIOD_SECONDS,
        digits,
    })
}

/// Maps every entry of a record, each on its own: one bad entry does not
/// hide the others.
pub fn payload_otps(payload: &MigrationPayload) -> (r: Vec<Result<Otp, OtpConvertionError>>)
    ensures
        r@.len() == payload.otp_parameters@.len(),
        forall|i: int|
            0 <= i < r@.len() ==> {
                let p = payload.otp_parameters@[i];
                match #[trigger] r@[i] {
                    Ok(o) => conversion_error(p.algorithm, p.digits) is None && maps_to(p, o),
                    Err(e) => conversion_error(p.algorithm, p.digits) == Some(e),
                }
            },
{
    let mut r: Vec<Result<Otp, OtpConvertionError>> = Vec::new();
    let mut i: usize = 0;
    while i < payload.otp_parameters.len()
        invariant
            i <= payload.otp_parameters@.len(),
            r@.len() == i,
            forall|k: int|
                0 <= k < i ==> {
                    let p = payload.otp_parameters@[k];
                    match #[trigger] r@[k] {
                        Ok(o) => conversion_error(p.algorithm, p.digits) is None && maps_to(p, o),
                        Err(e) => conversion_error(p.algorithm, p.digits) == Some(e),
                    }
                },
        decreases payload.otp_parameters@.len() - i,
    {
        r.push(params_to_otp(&payload.otp_parameters[i]));
        i = i + 1;
    }
    r
}

/// Over the enumeration's own values, an algorithm value either maps to one
/// of the three supported algorithms, leaving the outcome to the digits, or
/// fails: as unknown for the unspecified value, as unsupported for MD5.
pub proof fn lemma_algorithm_mapping(a: i32, d: i32)
    requires
        0 <= a <= 4,
    ensures
        a == 0 ==> conversion_error(a, d) == Some(OtpConvertionError::UnknownAlgorithm(0)),
        a == 4 ==> conversion_error(a, d) == Some(OtpConvertionError::MD5NotSupported),
        1 <= a <= 3 ==> algorithm_of(a) is Some && (conversion_error(a, d) is None
            || conversion_error(a, d) == Some(OtpConvertionError::UnknownDigits(d))),
{
}

/// With a supported algorithm, digits value 1 gives six digits, 2 gives
/// eight, and any other value fails as unknown digits.
pub proof fn lemma_digits_mapping(a: i32, d: i32)
    requires
        1 <= a <= 3,
    ensures
        d == 1 ==> conversion_error(a, d) is None && digits_of(d) == Some(6u32),
        d == 2 ==> conversion_error(a, d) is None && digits_of(d) == Some(8u32),
        d != 1 && d != 2 ==> conversion_error(a, d) == Some(OtpConvertionError::UnknownDigits(d)),
{
}

} // verus!
