use hydraad::data::credential::{AuthData, Credential, CredentialType};
use hydraad::stores::credentials_store::CredentialsStore;

fn full_cred(id: &str) -> Credential {
    Credential {
        id: id.to_string(),
        username: "dom\\Ops User".to_string(),
        auth_data: AuthData::LmNtlm {
            lm: "lm:part:with:colons".to_string(),
            ntlm: "ntlm-part".to_string(),
        },
        credential_type: CredentialType::Custom("tier-0 operator".to_string()),
        privileges: vec!["SeBackupPrivilege".to_string(), "".to_string()],
        is_validated: true,
        last_used: Some(-1234),
        discovered_at: 1700000123,
        source: "secretsdump".to_string(),
        target_dc: Some("corp.test".to_string()),
        notes: Some("line with spaces and 7:colons and unicode \u{00fc}\u{0131}".to_string()),
        metadata: vec![
            ("origin".to_string(), "lab".to_string()),
            ("empty".to_string(), "".to_string()),
        ],
    }
}

#[test]
fn save_load_round_trip_restores_the_primary_map() {
    let mut store = CredentialsStore::new();
    store.add_credential(full_cred("rt-1")).unwrap();
    store
        .add_credential(Credential {
            id: "rt-2".to_string(),
            username: "plain".to_string(),
            auth_data: AuthData::Certificate {
                cert_data: "CERTDATA".to_string(),
                private_key: None,
            },
            credential_type: CredentialType::Unknown,
            privileges: Vec::new(),
            is_validated: false,
            last_used: None,
            discovered_at: 0,
            source: "manual".to_string(),
            target_dc: None,
            notes: None,
            metadata: Vec::new(),
        })
        .unwrap();
    store
        .add_credential(Credential {
            id: "rt-3".to_string(),
            username: "tok".to_string(),
            auth_data: AuthData::Custom(vec![("k".to_string(), "v".to_string())]),
            credential_type: CredentialType::GroupManagedServiceAccount,
            privileges: Vec::new(),
            is_validated: false,
            last_used: Some(i64::MIN),
            discovered_at: i64::MAX,
            source: "".to_string(),
            target_dc: None,
            notes: None,
            metadata: Vec::new(),
        })
        .unwrap();

    let text = store.serialize();
    let loaded = CredentialsStore::deserialize(text.as_str()).unwrap();
    let before = store.get_all_credentials();
    let after = loaded.get_all_credentials();
    assert_eq!(before.len(), after.len());
    for i in 0..before.len() {
        assert!(before[i] == after[i]);
    }
    assert_eq!(loaded.get_stats().total_credentials, 3);
    assert_eq!(loaded.get_stats().validated_credentials, 1);
    assert_eq!(loaded.get_credentials_by_username("dom\\ops user").len(), 1);
}

#[test]
fn empty_store_round_trips() {
    let store = CredentialsStore::new();
    let text = store.serialize();
    let loaded = CredentialsStore::deserialize(text.as_str()).unwrap();
    assert_eq!(loaded.len(), 0);
}

#[test]
fn malformed_serialization_is_rejected() {
    assert!(CredentialsStore::deserialize("").is_err());
    assert!(CredentialsStore::deserialize("garbage").is_err());
    assert!(CredentialsStore::deserialize("2:ab").is_err());
    let mut store = CredentialsStore::new();
    store.add_credential(full_cred("cut-1")).unwrap();
    let text = store.serialize();
    let cut = &text[0..text.len() - 3];
    assert!(CredentialsStore::deserialize(cut).is_err());
    let mut padded = text.clone();
    padded.push('x');
    assert!(CredentialsStore::deserialize(padded.as_str()).is_err());
}

#[test]
fn all_payload_variants_round_trip() {
    let payloads = vec![
        AuthData::Password("p".to_string()),
        AuthData::NtlmHash("n".to_string()),
        AuthData::LmHash("l".to_string()),
        AuthData::LmNtlm { lm: "a".to_string(), ntlm: "b".to_string() },
        AuthData::KerberosTicket("t".to_string()),
        AuthData::Certificate { cert_data: "c".to_string(), private_key: Some("k".to_string()) },
        AuthData::Token("tok".to_string()),
        AuthData::Custom(vec![("x".to_string(), "y".to_string())]),
    ];
    let mut store = CredentialsStore::new();
    for (i, p) in payloads.into_iter().enumerate() {
        store
            .add_credential(Credential {
                id: format!("var-{}", i),
                username: format!("user{}", i),
                auth_data: p,
                credential_type: CredentialType::DomainUser,
                privileges: Vec::new(),
                is_validated: false,
                last_used: None,
                discovered_at: 7,
                source: "manual".to_string(),
                target_dc: None,
                notes: None,
                metadata: Vec::new(),
            })
            .unwrap();
    }
    let text = store.serialize();
    let loaded = CredentialsStore::deserialize(text.as_str()).unwrap();
    let before = store.get_all_credentials();
    let after = loaded.get_all_credentials();
    assert_eq!(before.len(), after.len());
    for i in 0..before.len() {
        assert!(before[i] == after[i]);
    }
}
