use base64::Engine;
use hydraad::data::credential::{AuthData, Credential, CredentialType};
use hydraad::data::domain_controller::DomainController;
use hydraad::session::{select_credential, SessionContext};
use hydraad::stores::credentials_store::CredentialsStore;
use hydraad::ticket::{build_tgt_request, derive_key_material, store_ticket, TicketError};
use hydraad::transport::{
    carrier_of_scheme, classify_http_error, effective_port, encode_frame, parse_len_prefix,
    stream_receive, Carrier, TransportError,
};

fn plain_cred(id: &str, username: &str, auth: AuthData) -> Credential {
    Credential {
        id: id.to_string(),
        username: username.to_string(),
        auth_data: auth,
        credential_type: CredentialType::DomainUser,
        privileges: Vec::new(),
        is_validated: false,
        last_used: None,
        discovered_at: 10,
        source: "manual".to_string(),
        target_dc: None,
        notes: None,
        metadata: Vec::new(),
    }
}

#[test]
fn stream_framing_returns_exactly_the_announced_reply() {
    let mut available: Vec<u8> = vec![0x00, 0x00, 0x00, 0x05, 1, 2, 3, 4, 5];
    available.extend_from_slice(&[9, 9, 9, 9]);
    let reply = stream_receive(&available).unwrap();
    assert_eq!(reply.len(), 9);
    assert_eq!(reply, vec![0x00, 0x00, 0x00, 0x05, 1, 2, 3, 4, 5]);
}

#[test]
fn stream_framing_rejects_short_replies() {
    assert!(stream_receive(&vec![0, 0]).is_err());
    assert!(stream_receive(&vec![0, 0, 0, 9, 1, 2]).is_err());
}

#[test]
fn frame_encoding_prepends_the_big_endian_length() {
    let body: Vec<u8> = vec![7, 8, 9];
    let framed = encode_frame(&body).unwrap();
    assert_eq!(framed, vec![0, 0, 0, 3, 7, 8, 9]);
    assert_eq!(parse_len_prefix(&framed), Some(3));
    let framed2 = encode_frame(&vec![0u8; 300]).unwrap();
    assert_eq!(&framed2[0..4], &[0, 0, 1, 44]);
}

#[test]
fn carriers_follow_the_destination_scheme() {
    assert_eq!(carrier_of_scheme("tcp"), Some(Carrier::Stream));
    assert_eq!(carrier_of_scheme("udp"), Some(Carrier::Datagram));
    assert_eq!(carrier_of_scheme("http"), Some(Carrier::TunneledHttp));
    assert_eq!(carrier_of_scheme("https"), Some(Carrier::TunneledHttp));
    assert_eq!(carrier_of_scheme("ldap"), None);
    assert_eq!(effective_port(Some(8080)), 8080);
    assert_eq!(effective_port(None), 88);
}

#[test]
fn tunnel_errors_distinguish_certificate_trouble() {
    match classify_http_error("invalid peer Certificate contents") {
        TransportError::Certificate(m) => assert_eq!(m, "invalid peer Certificate contents"),
        _ => panic!("expected a certificate classification"),
    }
    match classify_http_error("connection refused") {
        TransportError::Connection(m) => assert_eq!(m, "connection refused"),
        _ => panic!("expected a delivery classification"),
    }
}

#[test]
fn key_derivation_follows_the_payload_variant() {
    let pw = AuthData::Password("Passw0rd!".to_string());
    let derived = derive_key_material(&pw).unwrap();
    assert_eq!(derived, ntlm_hash::ntlm_hash("Passw0rd!"));
    assert_eq!(derived.len(), 32);

    let hash = AuthData::NtlmHash("fc525c9683e8fe067095ba2ddc971889".to_string());
    assert_eq!(
        derive_key_material(&hash).unwrap(),
        "fc525c9683e8fe067095ba2ddc971889"
    );

    match derive_key_material(&AuthData::LmHash("x".to_string())) {
        Err(TicketError::UnsupportedAuthType) => {}
        _ => panic!("expected the unsupported-variant error"),
    }
    let long = "a".repeat(40);
    match derive_key_material(&AuthData::Password(long)) {
        Err(TicketError::KeyDerivation(_)) => {}
        _ => panic!("expected a key-derivation error"),
    }
}

#[test]
fn end_to_end_ticket_acquisition_with_a_stub_codec() {
    let mut store = CredentialsStore::new();
    let source = plain_cred("src-1", "alice", AuthData::Password("Passw0rd!".to_string()));
    store.add_credential(source).unwrap();

    let mut ctx = SessionContext::new();
    let target = DomainController::new("10.0.0.5".to_string(), "corp.test".to_string());
    ctx.set_current_dc(Some(target));
    let picked = select_credential(
        &store,
        "alice",
        Some(hydraad::data::credential::AuthType::Password),
    )
    .unwrap();
    ctx.set_current_creds(Some(picked));
    let (dc, creds) = ctx.get_current_context().unwrap();
    assert_eq!(dc.domain_name, "corp.test");
    assert_eq!(dc.ip_address, "10.0.0.5");

    let request = build_tgt_request(&dc, &creds).unwrap();
    assert_eq!(request.realm, "corp.test");
    assert_eq!(request.kdc_address, "10.0.0.5");
    assert_eq!(request.username, "alice");
    assert_eq!(request.key_hex, ntlm_hash::ntlm_hash("Passw0rd!"));

    let stub_ticket: Vec<u8> = vec![0x05, 0x04, 0x00, 0x0c, 0x01, 0xff];
    store_ticket(&mut store, &creds, &stub_ticket, "fresh-ticket-id".to_string()).unwrap();

    assert_eq!(store.len(), 2);
    let added = store.get_credential("fresh-ticket-id").unwrap();
    assert_eq!(added.username, "alice");
    assert_ne!(added.id, "src-1");
    assert_eq!(added.source, "ticket-acquisition");
    assert!(added.privileges.is_empty());
    assert!(!added.is_validated);
    let expected = base64::engine::general_purpose::STANDARD.encode(&stub_ticket);
    match &added.auth_data {
        AuthData::KerberosTicket(blob) => assert_eq!(blob, &expected),
        _ => panic!("expected a ticket payload"),
    }
}

#[test]
fn store_ticket_reports_an_id_collision() {
    let mut store = CredentialsStore::new();
    let source = plain_cred("dup-id", "bob", AuthData::Password("pw".to_string()));
    store.add_credential(source).unwrap();
    let creds = store.get_credential("dup-id").unwrap().clone();
    match store_ticket(&mut store, &creds, &vec![1, 2, 3], "dup-id".to_string()) {
        Err(TicketError::StoreAdd(_)) => {}
        _ => panic!("expected a store rejection"),
    }
    assert_eq!(store.len(), 1);
}

#[test]
fn context_requires_both_selections() {
    let mut ctx = SessionContext::new();
    let err = ctx.get_current_context().unwrap_err();
    assert_eq!(err, "Please set a domain controller and a credential");
    ctx.set_current_dc(Some(DomainController::new("1.2.3.4".to_string(), "d.test".to_string())));
    assert!(ctx.get_current_context().is_err());
    ctx.set_current_creds(Some(plain_cred("c-1", "u", AuthData::Password("p".to_string()))));
    assert!(ctx.get_current_context().is_ok());
}

#[test]
fn prompt_labels_follow_the_selection() {
    let mut ctx = SessionContext::new();
    assert!(ctx.dc_label().is_none());
    assert!(ctx.credential_label().is_none());
    ctx.set_current_dc(Some(DomainController::new("1.1.1.1".to_string(), "corp.test".to_string())));
    assert_eq!(ctx.dc_label().unwrap(), "corp.test");
    ctx.set_current_creds(Some(plain_cred("c-2", "eve", AuthData::KerberosTicket("blob".to_string()))));
    assert_eq!(ctx.credential_label().unwrap(), "eve:Kerberos Ticket");
    ctx.set_current_creds(Some(plain_cred("c-3", "mia", AuthData::Password("S3cret!".to_string()))));
    let label = ctx.credential_label().unwrap();
    assert_eq!(label, "mia:Password");
    assert!(!label.contains("S3cret!"));
}

#[test]
fn credential_selection_takes_the_first_match() {
    let mut store = CredentialsStore::new();
    store
        .add_credential(plain_cred("sel-1", "frank", AuthData::NtlmHash("h1".to_string())))
        .unwrap();
    store
        .add_credential(plain_cred("sel-2", "Frank", AuthData::Password("p1".to_string())))
        .unwrap();
    store
        .add_credential(plain_cred("sel-3", "frank", AuthData::Password("p2".to_string())))
        .unwrap();
    let picked = select_credential(
        &store,
        "FRANK",
        Some(hydraad::data::credential::AuthType::Password),
    )
    .unwrap();
    assert_eq!(picked.id, "sel-2");
    let unhinted = select_credential(&store, "frank", None).unwrap();
    assert_eq!(unhinted.id, "sel-1");
    assert!(select_credential(&store, "nobody", Some(hydraad::data::credential::AuthType::Password))
        .is_none());
}
