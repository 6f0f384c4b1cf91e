pub mod smb;
