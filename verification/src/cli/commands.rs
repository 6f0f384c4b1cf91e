pub mod clear;
pub mod creds;
pub mod dc;
pub mod exit;
pub mod kerberos;
pub mod smb;
