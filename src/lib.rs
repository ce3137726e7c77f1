//! Reading and writing the bulk account-transfer export of authenticator
//! apps: `otpauth-migration` URLs whose `data` parameters carry base64
//! batch records, and the mapping of their entries to canonical credentials.
pub mod wire;
pub mod payload;
pub mod migration;
pub mod otp;
pub mod args;
