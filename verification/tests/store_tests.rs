use hydraad::data::credential::{AuthData, Credential, CredentialType};
use hydraad::stores::credentials_store::{CredentialFilter, CredentialsStore, RemoveOutcome};

fn cred(id: &str, username: &str, auth: AuthData, ctype: CredentialType, validated: bool) -> Credential {
    Credential {
        id: id.to_string(),
        username: username.to_string(),
        auth_data: auth,
        credential_type: ctype,
        privileges: Vec::new(),
        is_validated: validated,
        last_used: None,
        discovered_at: 1700000000,
        source: "manual".to_string(),
        target_dc: None,
        notes: None,
        metadata: Vec::new(),
    }
}

#[test]
fn duplicate_id_is_rejected_and_store_keeps_one_copy() {
    let mut store = CredentialsStore::new();
    let c1 = cred("id-1", "alice", AuthData::Password("pw1".to_string()), CredentialType::DomainUser, false);
    let mut c2 = cred("id-1", "bob", AuthData::Password("pw2".to_string()), CredentialType::LocalAdmin, true);
    c2.source = "secretsdump".to_string();
    assert!(store.add_credential(c1).is_ok());
    assert_eq!(store.len(), 1);
    let second = store.add_credential(c2);
    assert!(second.is_err());
    assert_eq!(store.len(), 1);
    let kept = store.get_credential("id-1").unwrap();
    assert_eq!(kept.username, "alice");
}

#[test]
fn remove_clears_primary_and_lookups() {
    let mut store = CredentialsStore::new();
    let c = cred("rm-1", "carol", AuthData::NtlmHash("aabb".to_string()), CredentialType::ServiceAccount, false);
    store.add_credential(c).unwrap();
    let removed = store.remove_credential("rm-1");
    assert!(removed.is_some());
    assert_eq!(removed.unwrap().username, "carol");
    assert!(store.get_credential("rm-1").is_none());
    assert!(store.get_credentials_by_username("carol").is_empty());
    assert!(store.get_credentials_by_source("manual").is_empty());
    assert!(store
        .get_credentials_by_type(&CredentialType::ServiceAccount)
        .is_empty());
    assert_eq!(store.len(), 0);
}

#[test]
fn remove_of_absent_id_returns_none() {
    let mut store = CredentialsStore::new();
    assert!(store.remove_credential("nothing").is_none());
}

#[test]
fn filter_is_a_true_conjunction() {
    let mut store = CredentialsStore::new();
    let a = cred("fa-1", "a-user", AuthData::Password("x".to_string()), CredentialType::DomainAdmin, true);
    let b = cred("fb-2", "b-user", AuthData::Password("y".to_string()), CredentialType::DomainAdmin, false);
    store.add_credential(a).unwrap();
    store.add_credential(b).unwrap();
    let mut filter = CredentialFilter::default();
    filter.credential_type = Some(CredentialType::DomainAdmin);
    filter.validated_only = true;
    let hits = store.filter_credentials(&filter);
    assert_eq!(hits.len(), 1);
    assert_eq!(hits[0].id, "fa-1");
}

#[test]
fn filter_applies_auth_type_and_later_criteria_together() {
    let mut store = CredentialsStore::new();
    let a = cred("g-1", "dana", AuthData::Password("x".to_string()), CredentialType::DomainUser, true);
    let b = cred("g-2", "dana", AuthData::Password("y".to_string()), CredentialType::DomainUser, false);
    let c = cred("g-3", "dana", AuthData::NtlmHash("z".to_string()), CredentialType::DomainUser, true);
    store.add_credential(a).unwrap();
    store.add_credential(b).unwrap();
    store.add_credential(c).unwrap();
    let mut filter = CredentialFilter::default();
    filter.auth_type = Some(hydraad::data::credential::AuthType::Password);
    filter.validated_only = true;
    let hits = store.filter_credentials(&filter);
    assert_eq!(hits.len(), 1);
    assert_eq!(hits[0].id, "g-1");
}

#[test]
fn filter_by_username_is_case_insensitive() {
    let mut store = CredentialsStore::new();
    let a = cred("h-1", "Alice", AuthData::Password("x".to_string()), CredentialType::DomainUser, false);
    store.add_credential(a).unwrap();
    let mut filter = CredentialFilter::default();
    filter.username = Some("aLiCe".to_string());
    assert_eq!(store.filter_credentials(&filter).len(), 1);
}

#[test]
fn partial_id_removal_reports_ambiguity_and_removes_unique_match() {
    let mut store = CredentialsStore::new();
    let a = cred("abcd1111", "u1", AuthData::Password("x".to_string()), CredentialType::DomainUser, false);
    let b = cred("abcd2222", "u2", AuthData::Password("y".to_string()), CredentialType::DomainUser, false);
    store.add_credential(a).unwrap();
    store.add_credential(b).unwrap();
    match store.remove_by_id_prefix("abcd") {
        RemoveOutcome::Ambiguous(ids) => {
            assert_eq!(ids.len(), 2);
            assert_eq!(ids[0], "abcd1111");
            assert_eq!(ids[1], "abcd2222");
        }
        _ => panic!("expected an ambiguous outcome"),
    }
    assert_eq!(store.len(), 2);
    match store.remove_by_id_prefix("abcd1") {
        RemoveOutcome::Removed(c) => assert_eq!(c.id, "abcd1111"),
        _ => panic!("expected a removal"),
    }
    assert_eq!(store.len(), 1);
    assert!(store.get_credential("abcd2222").is_some());
    match store.remove_by_id_prefix("zzzz") {
        RemoveOutcome::NotFound => {}
        _ => panic!("expected not-found"),
    }
}

#[test]
fn search_is_case_insensitive_over_username_source_and_notes() {
    let mut store = CredentialsStore::new();
    let mut a = cred("s-1", "Administrator", AuthData::Password("x".to_string()), CredentialType::DomainUser, false);
    a.source = "Mimikatz".to_string();
    let mut b = cred("s-2", "guest", AuthData::Password("y".to_string()), CredentialType::DomainUser, false);
    b.notes = Some("Found In Backup".to_string());
    store.add_credential(a).unwrap();
    store.add_credential(b).unwrap();
    assert_eq!(store.search_credentials("admin").len(), 1);
    assert_eq!(store.search_credentials("MIMI").len(), 1);
    assert_eq!(store.search_credentials("backup").len(), 1);
    assert_eq!(store.search_credentials("nowhere").len(), 0);
}

#[test]
fn stats_track_totals_and_validation() {
    let mut store = CredentialsStore::new();
    let a = cred("t-1", "u1", AuthData::Password("x".to_string()), CredentialType::DomainAdmin, true);
    let b = cred("t-2", "u2", AuthData::Password("y".to_string()), CredentialType::DomainAdmin, false);
    store.add_credential(a).unwrap();
    store.add_credential(b).unwrap();
    let stats = store.get_stats();
    assert_eq!(stats.total_credentials, 2);
    assert_eq!(stats.validated_credentials, 1);
    assert!(stats.by_domain.is_empty());
    assert_eq!(stats.by_type.len(), 1);
    assert_eq!(stats.by_type[0].1, 2);
    assert_eq!(stats.by_source.len(), 1);
    assert_eq!(stats.by_source[0].0, "manual");
    assert_eq!(stats.by_source[0].1, 2);
}

#[test]
fn mark_validated_flips_flag_and_stamps_last_used() {
    let mut store = CredentialsStore::new();
    let a = cred("v-1", "u1", AuthData::Password("x".to_string()), CredentialType::DomainUser, false);
    store.add_credential(a).unwrap();
    store.mark_credential_validated("v-1").unwrap();
    let c = store.get_credential("v-1").unwrap();
    assert!(c.is_validated);
    assert!(c.last_used.is_some());
    assert!(store.mark_credential_validated("missing").is_err());
}

#[test]
fn update_credential_replaces_and_guards_ids() {
    let mut store = CredentialsStore::new();
    let a = cred("u-1", "old-name", AuthData::Password("x".to_string()), CredentialType::DomainUser, false);
    let b = cred("u-2", "other", AuthData::Password("y".to_string()), CredentialType::DomainUser, false);
    store.add_credential(a).unwrap();
    store.add_credential(b).unwrap();
    let replacement = cred("u-1", "new-name", AuthData::Password("z".to_string()), CredentialType::LocalAdmin, true);
    store.update_credential("u-1", replacement).unwrap();
    assert_eq!(store.get_credential("u-1").unwrap().username, "new-name");
    let collision = cred("u-2", "whoever", AuthData::Password("q".to_string()), CredentialType::DomainUser, false);
    assert!(store.update_credential("u-1", collision).is_err());
    assert!(store
        .update_credential("missing", cred("m", "m", AuthData::Password("p".to_string()), CredentialType::DomainUser, false))
        .is_err());
}

#[test]
fn clear_empties_everything() {
    let mut store = CredentialsStore::new();
    store
        .add_credential(cred("c-1", "u", AuthData::Password("x".to_string()), CredentialType::DomainUser, false))
        .unwrap();
    assert!(!store.is_empty());
    store.clear();
    assert!(store.is_empty());
    assert_eq!(store.len(), 0);
    assert_eq!(store.get_stats().total_credentials, 0);
}

#[test]
fn index_lookups_follow_field_values() {
    let mut store = CredentialsStore::new();
    let mut a = cred("i-1", "Erin", AuthData::Password("x".to_string()), CredentialType::MachineAccount, false);
    a.source = "Dump".to_string();
    let mut b = cred("i-2", "erin", AuthData::Password("y".to_string()), CredentialType::BuiltIn, false);
    b.source = "dump".to_string();
    store.add_credential(a).unwrap();
    store.add_credential(b).unwrap();
    let by_name = store.get_credentials_by_username("ERIN");
    assert_eq!(by_name.len(), 2);
    assert_eq!(by_name[0].id, "i-1");
    assert_eq!(by_name[1].id, "i-2");
    assert_eq!(store.get_credentials_by_source("DUMP").len(), 2);
    let machines = store.get_credentials_by_type(&CredentialType::MachineAccount);
    assert_eq!(machines.len(), 1);
    assert_eq!(machines[0].id, "i-1");
}

#[test]
fn csv_export_lists_non_secret_columns_exactly() {
    let mut store = CredentialsStore::new();
    let mut a = cred(
        "csv-1",
        "alice",
        AuthData::Password("TopSecret!".to_string()),
        CredentialType::DomainAdmin,
        true,
    );
    a.privileges.push("SeDebugPrivilege".to_string());
    a.privileges.push("SeBackupPrivilege".to_string());
    a.last_used = Some(1700000500);
    let mut b = cred(
        "csv-2",
        "bob",
        AuthData::NtlmHash("fc525c9683e8fe067095ba2ddc971889".to_string()),
        CredentialType::Custom("tier-0".to_string()),
        false,
    );
    b.discovered_at = -5;
    store.add_credential(a).unwrap();
    store.add_credential(b).unwrap();
    let csv = store.export_to_csv();
    let expected = "ID,Username,Domain,Type,Source,Validated,Privileges,Last Used,Discovered At\n\
        csv-1,alice,DomainAdmin,manual,true,SeDebugPrivilege;SeBackupPrivilege,2023-11-14 22:21:40 UTC,2023-11-14 22:13:20 UTC\n\
        csv-2,bob,tier-0,manual,false,,Never,-5\n";
    assert_eq!(csv, expected);
    assert!(!csv.contains("TopSecret!"));
    assert!(!csv.contains("fc525c9683e8fe067095ba2ddc971889"));
}

#[test]
fn clear_resets_the_statistics_record() {
    let mut store = CredentialsStore::new();
    store
        .add_credential(cred("st-1", "u", AuthData::Password("x".to_string()), CredentialType::DomainAdmin, true))
        .unwrap();
    store.clear();
    let stats = store.get_stats();
    assert_eq!(stats.total_credentials, 0);
    assert_eq!(stats.validated_credentials, 0);
    assert!(stats.by_type.is_empty());
    assert!(stats.by_domain.is_empty());
    assert!(stats.by_source.is_empty());
}

#[test]
fn validated_and_privilege_queries() {
    let mut store = CredentialsStore::new();
    let mut a = cred("p-1", "u1", AuthData::Password("x".to_string()), CredentialType::DomainUser, true);
    a.privileges.push("SeDebugPrivilege".to_string());
    let b = cred("p-2", "u2", AuthData::Password("y".to_string()), CredentialType::DomainUser, false);
    store.add_credential(a).unwrap();
    store.add_credential(b).unwrap();
    assert_eq!(store.get_validated_credentials().len(), 1);
    assert_eq!(store.get_credentials_with_privilege("sedebugprivilege").len(), 1);
    assert_eq!(store.get_credentials_with_privilege("other").len(), 0);
}
