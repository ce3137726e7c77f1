use aotp_tools::migration::{
    to_url, try_one, url_kind, Base64Error, OtpMigrationError, QueryPair, TransferUrl, UrlKind,
};
use aotp_tools::otp::{params_to_otp, Algorithm};
use aotp_tools::payload::{DecodeError, MigrationPayload, OtpParameters};

fn record(batch_id: i32, issuer: &str) -> MigrationPayload {
    MigrationPayload {
        otp_parameters: vec![OtpParameters {
            secret: vec![0x48, 0x65, 0x6c, 0x6c, 0x6f],
            name: String::new(),
            issuer: issuer.to_string(),
            algorithm: 1,
            digits: 1,
            otp_type: 0,
        }],
        version: 0,
        batch_size: 1,
        batch_index: 0,
        batch_id,
    }
}

fn pair(key: &str, value: &str) -> QueryPair {
    QueryPair { key: key.to_string(), value: value.to_string() }
}

fn url(scheme: &str, query: Vec<QueryPair>) -> TransferUrl {
    TransferUrl { scheme: scheme.to_string(), host: "offline".to_string(), query }
}

fn b64(bytes: &[u8]) -> String {
    base64::encode_config(bytes, base64::Config::new(base64::CharacterSet::Standard, false))
}

const EXAMPLE_B64: &str = "ChQKBUhlbGxvGgdFeGFtcGxlIAEoARgBKCo";

#[test]
fn example_transfer_url_decodes_and_maps() {
    let u = url("otpauth-migration", vec![pair("data", EXAMPLE_B64)]);
    let found = try_one(&u).unwrap();
    assert_eq!(found, vec![record(42, "Example")]);
    let otp = params_to_otp(&found[0].otp_parameters[0]).unwrap();
    assert_eq!(otp.issuer, "Example");
    assert_eq!(otp.account, None);
    assert_eq!(otp.secret, vec![0x48, 0x65, 0x6c, 0x6c, 0x6f]);
    assert_eq!(otp.algorithm, Algorithm::Sha1);
    assert_eq!(otp.digits, 6);
    assert_eq!(otp.period, 30);
}

#[test]
fn padded_base64_is_accepted() {
    let padded = format!("{}=", EXAMPLE_B64);
    let u = url("otpauth-migration", vec![pair("data", &padded)]);
    assert_eq!(try_one(&u), Ok(vec![record(42, "Example")]));
}

#[test]
fn to_url_writes_unpadded_standard_base64() {
    let u = to_url(&[record(42, "Example")]);
    assert_eq!(u.scheme, "otpauth-migration");
    assert_eq!(u.host, "offline");
    assert_eq!(u.query, vec![pair("data", EXAMPLE_B64)]);
}

#[test]
fn two_data_parameters_keep_their_order() {
    let first = record(1, "First");
    let second = record(2, "Second");
    let v1 = b64(&first.encode_to_vec());
    let v2 = b64(&second.encode_to_vec());
    let u = url("otpauth-migration", vec![pair("data", &v1), pair("data", &v2)]);
    let found = try_one(&u).unwrap();
    assert_eq!(found, vec![first, second]);
    let again = to_url(&found);
    assert_eq!(again.query, vec![pair("data", &v1), pair("data", &v2)]);
}

#[test]
fn url_round_trip_several_records() {
    let records = vec![record(7, "A"), record(7, "B"), record(8, "C")];
    assert_eq!(try_one(&to_url(&records)), Ok(records));
}

#[test]
fn empty_record_list_round_trips() {
    let u = to_url(&[]);
    assert!(u.query.is_empty());
    assert_eq!(try_one(&u), Ok(vec![]));
}

#[test]
fn no_data_parameter_gives_no_records() {
    let u = url("otpauth-migration", vec![pair("other", "x")]);
    assert_eq!(try_one(&u), Ok(vec![]));
}

#[test]
fn other_scheme_is_refused() {
    let u = url("https", vec![pair("data", "!!!")]);
    assert_eq!(try_one(&u), Err(OtpMigrationError::InvalidScheme("https".to_string())));
    let v = url("otpauth", vec![]);
    assert_eq!(try_one(&v), Err(OtpMigrationError::InvalidScheme("otpauth".to_string())));
}

#[test]
fn unrelated_parameters_are_skipped() {
    let with_extra = url(
        "otpauth-migration",
        vec![pair("v", "1"), pair("data", EXAMPLE_B64), pair("note", "!!! not base64")],
    );
    let plain = url("otpauth-migration", vec![pair("data", EXAMPLE_B64)]);
    assert_eq!(try_one(&with_extra), try_one(&plain));
    assert_eq!(try_one(&with_extra), Ok(vec![record(42, "Example")]));
}

#[test]
fn malformed_base64_fails_whole_url() {
    let u = url("otpauth-migration", vec![pair("data", EXAMPLE_B64), pair("data", "ab$d")]);
    assert_eq!(
        try_one(&u),
        Err(OtpMigrationError::Base64DecodeError(Base64Error::InvalidByte(2, b'$')))
    );
}

#[test]
fn malformed_base64_length_fails_whole_url() {
    let u = url("otpauth-migration", vec![pair("data", "abcde")]);
    assert_eq!(try_one(&u), Err(OtpMigrationError::Base64DecodeError(Base64Error::InvalidLength)));
}

#[test]
fn malformed_binary_fails_whole_url() {
    let bad = b64(&[0x0a, 0x05, 0x01]);
    let u = url("otpauth-migration", vec![pair("data", EXAMPLE_B64), pair("data", &bad)]);
    assert_eq!(
        try_one(&u),
        Err(OtpMigrationError::ProtobufDecodeError(DecodeError::Malformed))
    );
}

#[test]
fn schemes_are_routed() {
    assert_eq!(url_kind(&"otpauth-migration".to_string()), UrlKind::Migration);
    assert_eq!(url_kind(&"otpauth".to_string()), UrlKind::Single);
    assert_eq!(url_kind(&"https".to_string()), UrlKind::Other);
}
