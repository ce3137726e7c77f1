use aotp_tools::args::{args, Commands};
use aotp_tools::otp::{params_to_otp, payload_otps, Algorithm, OtpConvertionError};
use aotp_tools::payload::{MigrationPayload, OtpParameters};

fn entry(name: &str, algorithm: i32, digits: i32) -> OtpParameters {
    OtpParameters {
        secret: vec![1, 2, 3],
        name: name.to_string(),
        issuer: "Issuer".to_string(),
        algorithm,
        digits,
        otp_type: 2,
    }
}

#[test]
fn algorithms_map_or_fail() {
    assert_eq!(params_to_otp(&entry("a", 0, 1)), Err(OtpConvertionError::UnknownAlgorithm(0)));
    assert_eq!(params_to_otp(&entry("a", 1, 1)).unwrap().algorithm, Algorithm::Sha1);
    assert_eq!(params_to_otp(&entry("a", 2, 1)).unwrap().algorithm, Algorithm::Sha256);
    assert_eq!(params_to_otp(&entry("a", 3, 1)).unwrap().algorithm, Algorithm::Sha512);
    assert_eq!(params_to_otp(&entry("a", 4, 1)), Err(OtpConvertionError::MD5NotSupported));
    assert_eq!(params_to_otp(&entry("a", 5, 1)), Err(OtpConvertionError::UnknownAlgorithm(5)));
    assert_eq!(params_to_otp(&entry("a", -3, 1)), Err(OtpConvertionError::UnknownAlgorithm(-3)));
}

#[test]
fn digits_map_or_fail() {
    assert_eq!(params_to_otp(&entry("a", 1, 1)).unwrap().digits, 6);
    assert_eq!(params_to_otp(&entry("a", 1, 2)).unwrap().digits, 8);
    assert_eq!(params_to_otp(&entry("a", 1, 0)), Err(OtpConvertionError::UnknownDigits(0)));
    assert_eq!(params_to_otp(&entry("a", 1, 3)), Err(OtpConvertionError::UnknownDigits(3)));
    assert_eq!(params_to_otp(&entry("a", 1, -1)), Err(OtpConvertionError::UnknownDigits(-1)));
}

#[test]
fn algorithm_is_validated_before_digits() {
    assert_eq!(params_to_otp(&entry("a", 4, 9)), Err(OtpConvertionError::MD5NotSupported));
    assert_eq!(params_to_otp(&entry("a", 0, 9)), Err(OtpConvertionError::UnknownAlgorithm(0)));
    assert_eq!(params_to_otp(&entry("a", 4, 0)), Err(OtpConvertionError::MD5NotSupported));
    assert_eq!(params_to_otp(&entry("a", 7, 9)), Err(OtpConvertionError::UnknownAlgorithm(7)));
    assert_eq!(params_to_otp(&entry("a", 2, 9)), Err(OtpConvertionError::UnknownDigits(9)));
}

#[test]
fn name_becomes_account() {
    assert_eq!(params_to_otp(&entry("", 1, 1)).unwrap().account, None);
    assert_eq!(params_to_otp(&entry("alice", 1, 1)).unwrap().account, Some("alice".to_string()));
}

#[test]
fn fields_are_copied_verbatim() {
    let o = params_to_otp(&entry(" Bob ", 2, 2)).unwrap();
    assert_eq!(o.issuer, "Issuer");
    assert_eq!(o.account, Some(" Bob ".to_string()));
    assert_eq!(o.secret, vec![1, 2, 3]);
    assert_eq!(o.period, 30);
}

#[test]
fn each_entry_is_mapped_on_its_own() {
    let m = MigrationPayload {
        otp_parameters: vec![entry("a", 1, 1), entry("b", 4, 1), entry("c", 3, 2)],
        version: 1,
        batch_size: 1,
        batch_index: 0,
        batch_id: 9,
    };
    let r = payload_otps(&m);
    assert_eq!(r.len(), 3);
    assert_eq!(r[0].as_ref().unwrap().account, Some("a".to_string()));
    assert_eq!(r[1], Err(OtpConvertionError::MD5NotSupported));
    assert_eq!(r[2].as_ref().unwrap().algorithm, Algorithm::Sha512);
    assert_eq!(r[2].as_ref().unwrap().digits, 8);
}

#[test]
fn args_hold_the_command() {
    let a = args(Commands::QrDump { path: "qr.png".to_string(), debug: true, url: false });
    assert_eq!(
        a.command,
        Commands::QrDump { path: "qr.png".to_string(), debug: true, url: false }
    );
}

