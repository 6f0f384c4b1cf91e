use hydraad::cli::command_manager::CommandManager;
use hydraad::cli::commands::creds::add::AddArgs;
use hydraad::cli::commands::creds::list::ListArgs;
use hydraad::cli::commands::dc::add::AddArgs as DcAddArgs;
use hydraad::cli::hydraad_prompt::HydraAdPrompt;
use hydraad::data::credential::{AuthData, AuthType, CredType, Credential, CredentialType};
use hydraad::civil::{civil_or_raw_string, utc_datetime_string};
use hydraad::data::domain_controller::DomainController;

fn base_cred(username: &str) -> Credential {
    Credential {
        id: "x-1".to_string(),
        username: username.to_string(),
        auth_data: AuthData::Password("pw".to_string()),
        credential_type: CredentialType::DomainUser,
        privileges: Vec::new(),
        is_validated: false,
        last_used: None,
        discovered_at: 5,
        source: "manual".to_string(),
        target_dc: None,
        notes: None,
        metadata: Vec::new(),
    }
}

#[test]
fn upn_appends_the_domain_only_when_absent() {
    let c = base_cred("alice");
    assert_eq!(c.upn(&"corp.test".to_string()), "alice@corp.test");
    let d = base_cred("bob@other.test");
    assert_eq!(d.upn(&"corp.test".to_string()), "bob@other.test");
}

#[test]
fn domain_username_prefixes_the_domain_only_when_absent() {
    let c = base_cred("alice");
    assert_eq!(c.domain_username(&"CORP".to_string()), "CORP\\alice");
    let d = base_cred("OTHER\\bob");
    assert_eq!(d.domain_username(&"CORP".to_string()), "OTHER\\bob");
}

#[test]
fn privileges_are_case_insensitive_and_deduplicated() {
    let mut c = base_cred("carol");
    c.add_privilege("SeDebugPrivilege".to_string());
    assert!(c.has_privilege("sedebugprivilege"));
    c.add_privilege("SEDEBUGPRIVILEGE".to_string());
    assert_eq!(c.privileges.len(), 1);
    assert!(!c.has_privilege("SeBackupPrivilege"));
}

#[test]
fn metadata_is_set_and_read_by_key() {
    let mut c = base_cred("dana");
    assert!(c.get_metadata("origin").is_none());
    c.set_metadata("origin".to_string(), "lab".to_string());
    assert_eq!(c.get_metadata("origin").unwrap(), "lab");
    c.set_metadata("origin".to_string(), "field".to_string());
    assert_eq!(c.get_metadata("origin").unwrap(), "field");
    assert_eq!(c.metadata.len(), 1);
}

#[test]
fn validation_and_last_used_stamps() {
    let mut c = base_cred("erin");
    assert!(c.last_used.is_none());
    c.mark_validated();
    assert!(c.is_validated);
    assert!(c.last_used.is_some());
    let mut d = base_cred("frank");
    d.update_last_used();
    assert!(d.last_used.is_some());
}

#[test]
fn sensitive_material_is_recognised() {
    assert!(base_cred("x").has_sensitive_auth_data());
    let mut c = base_cred("y");
    c.auth_data = AuthData::Certificate {
        cert_data: "cert".to_string(),
        private_key: Some("key".to_string()),
    };
    assert!(c.has_sensitive_auth_data());
    c.auth_data = AuthData::Certificate { cert_data: "cert".to_string(), private_key: None };
    assert!(!c.has_sensitive_auth_data());
    c.auth_data = AuthData::NtlmHash("h".to_string());
    assert!(!c.has_sensitive_auth_data());
}

#[test]
fn auth_labels_name_the_variant_without_the_secret() {
    let mut c = base_cred("z");
    c.auth_data = AuthData::Password("Hunter2!".to_string());
    assert_eq!(c.auth_data_type(), "Password");
    c.auth_data = AuthData::NtlmHash("fc525c9683e8fe067095ba2ddc971889".to_string());
    assert_eq!(c.auth_data_type(), "NTLM Hash");
    c.auth_data = AuthData::LmHash("aad3b435b51404ee".to_string());
    assert_eq!(c.auth_data_type(), "LM Hash");
    c.auth_data = AuthData::KerberosTicket("blob".to_string());
    assert_eq!(c.auth_data_type(), "Kerberos Ticket");
    c.auth_data = AuthData::LmNtlm { lm: "a".to_string(), ntlm: "b".to_string() };
    assert_eq!(c.auth_data_type(), "LM/NTLM Hash");
    c.auth_data = AuthData::Token("t".to_string());
    assert_eq!(c.auth_data_type(), "Token");
}

#[test]
fn fresh_credentials_carry_generated_ids() {
    let a = Credential::new_password("u".to_string(), "p".to_string(), "manual".to_string());
    let b = Credential::new_ntlm_hash("u".to_string(), "h".to_string(), "manual".to_string());
    assert_eq!(a.id.chars().count(), 36);
    assert_eq!(b.id.chars().count(), 36);
    assert_ne!(a.id, b.id);
    assert!(matches!(a.auth_data, AuthData::Password(_)));
    assert!(matches!(b.auth_data, AuthData::NtlmHash(_)));
    assert!(!a.is_validated);
}

#[test]
fn connection_strings_follow_ports_and_flags() {
    let mut dc = DomainController::new("10.0.0.5".to_string(), "corp.test".to_string());
    assert_eq!(dc.ldap_port, 389);
    assert_eq!(dc.gc_port, 3268);
    assert!(!dc.ldaps_enabled);
    assert_eq!(dc.ldap_url(), "ldap://10.0.0.5:389");
    assert_eq!(dc.gc_url(), "ldap://10.0.0.5:3268");
    dc.ldaps_enabled = true;
    assert_eq!(dc.ldap_url(), "ldaps://10.0.0.5:636");
    assert_eq!(dc.gc_url(), "ldap://10.0.0.5:3269");
    dc.ldaps_enabled = false;
    dc.ldap_port = 10389;
    assert_eq!(dc.ldap_url(), "ldap://10.0.0.5:10389");
}

#[test]
fn role_tags_map_onto_classifications() {
    assert!(CredentialType::from(CredType::DomainAdmin) == CredentialType::DomainAdmin);
    assert!(CredentialType::from(CredType::Unknown) == CredentialType::Unknown);
    assert!(
        CredentialType::from(CredType::GroupManagedServiceAccount)
            == CredentialType::GroupManagedServiceAccount
    );
}

#[test]
fn add_arguments_build_the_described_credential() {
    let args = AddArgs {
        username: "gina".to_string(),
        auth_type: AuthType::NtlmHash,
        auth_data: "cafebabe".to_string(),
        cred_type: CredType::ServiceAccount,
        source: "secretsdump".to_string(),
        notes: Some("from host7".to_string()),
    };
    let c = args.to_credential();
    assert_eq!(c.username, "gina");
    assert!(matches!(c.auth_data, AuthData::NtlmHash(ref h) if h == "cafebabe"));
    assert!(c.credential_type == CredentialType::ServiceAccount);
    assert_eq!(c.source, "secretsdump");
    assert_eq!(c.notes.as_deref(), Some("from host7"));
    assert_eq!(c.id.chars().count(), 36);
}

#[test]
fn list_arguments_build_the_described_filter() {
    let args = ListArgs {
        domain: None,
        username: Some("gina".to_string()),
        validated_only: true,
        source: None,
    };
    let f = args.to_filter();
    assert_eq!(f.username.as_deref(), Some("gina"));
    assert!(f.validated_only);
    assert!(f.source.is_none());
    assert!(f.credential_type.is_none());
}

#[test]
fn dc_add_arguments_build_the_described_entry() {
    let args = DcAddArgs {
        ip: "10.0.0.9".to_string(),
        ldaps: true,
        ldap_port: 636,
        domain: Some("corp.test".to_string()),
    };
    let dc = args.to_domain_controller();
    assert_eq!(dc.ip_address, "10.0.0.9");
    assert_eq!(dc.domain_name, "corp.test");
    assert!(dc.ldaps_enabled);
    let unnamed = DcAddArgs { ip: "10.0.0.9".to_string(), ldaps: false, ldap_port: 389, domain: None };
    assert_eq!(unnamed.to_domain_controller().domain_name, "UNKNOWN");
}

#[test]
fn batch_lines_skip_blanks_and_comments() {
    assert!(CommandManager::is_skippable_line(""));
    assert!(CommandManager::is_skippable_line("   \t"));
    assert!(CommandManager::is_skippable_line("# a comment"));
    assert!(CommandManager::is_skippable_line("   # indented comment"));
    assert!(!CommandManager::is_skippable_line("creds list"));
    assert!(!CommandManager::is_skippable_line("  creds list # trailing"));
}

#[test]
fn calendar_rendering_matches_known_utc_dates() {
    assert_eq!(utc_datetime_string(0), "1970-01-01 00:00:00 UTC");
    assert_eq!(utc_datetime_string(86399), "1970-01-01 23:59:59 UTC");
    assert_eq!(utc_datetime_string(951782400), "2000-02-29 00:00:00 UTC");
    assert_eq!(utc_datetime_string(1700000000), "2023-11-14 22:13:20 UTC");
    assert_eq!(utc_datetime_string(253402300799), "9999-12-31 23:59:59 UTC");
    assert_eq!(civil_or_raw_string(-5), "-5");
    assert_eq!(civil_or_raw_string(253402300800), "253402300800");
}

#[test]
fn prompt_state_follows_the_setters() {
    let mut p = HydraAdPrompt::new();
    assert!(p.dc_name().is_none());
    assert!(p.creds_name().is_none());
    p.set_dc_name(Some("corp.test".to_string()));
    p.set_credential_name(Some("alice:pw".to_string()));
    assert_eq!(p.dc_name().as_deref(), Some("corp.test"));
    assert_eq!(p.creds_name().as_deref(), Some("alice:pw"));
    p.set_dc_name(None);
    assert!(p.dc_name().is_none());
}
