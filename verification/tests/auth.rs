use intake_gateway::auth::{authorize, extract_token, Registry};

fn sample_registry() -> Registry {
    let mut reg = Registry::new();
    reg.grant(&"default".to_string(), "dockerAgentEvents".to_string());
    reg.grant(&"default".to_string(), "metrics".to_string());
    reg.grant(&"other".to_string(), "audit".to_string());
    reg
}

#[test]
fn unknown_token_denied_everywhere() {
    let reg = sample_registry();
    let header = "Token missing".to_string();
    for coll in ["dockerAgentEvents", "metrics", "audit", "anything"] {
        assert!(!authorize(&reg, Some(&header), &coll.to_string()));
    }
}

#[test]
fn granted_pair_authorized() {
    let reg = sample_registry();
    let header = "Token default".to_string();
    assert!(authorize(&reg, Some(&header), &"dockerAgentEvents".to_string()));
    assert!(authorize(&reg, Some(&header), &"metrics".to_string()));
}

#[test]
fn out_of_scope_collection_denied() {
    let reg = sample_registry();
    let header = "Token default".to_string();
    assert!(!authorize(&reg, Some(&header), &"audit".to_string()));
    let other = "Token other".to_string();
    assert!(authorize(&reg, Some(&other), &"audit".to_string()));
    assert!(!authorize(&reg, Some(&other), &"metrics".to_string()));
}

#[test]
fn missing_header_denied() {
    let reg = sample_registry();
    assert!(!authorize(&reg, None, &"dockerAgentEvents".to_string()));
}

#[test]
fn wrong_scheme_denied_despite_valid_token() {
    let reg = sample_registry();
    for header in ["Bearer default", "token default", "Toke default", "default"] {
        assert!(!authorize(&reg, Some(&header.to_string()), &"dockerAgentEvents".to_string()));
    }
}

#[test]
fn wrong_part_count_denied_despite_valid_token() {
    let reg = sample_registry();
    for header in ["Token default extra", "Token  default", " Token default", "Token"] {
        assert!(!authorize(&reg, Some(&header.to_string()), &"dockerAgentEvents".to_string()));
    }
}

#[test]
fn extract_token_well_formed() {
    assert_eq!(extract_token("Token abc"), Some("abc".to_string()));
    assert_eq!(extract_token("Token default"), Some("default".to_string()));
    assert_eq!(extract_token("Token "), Some("".to_string()));
}

#[test]
fn extract_token_malformed() {
    assert_eq!(extract_token(""), None);
    assert_eq!(extract_token("Token"), None);
    assert_eq!(extract_token("Token a b"), None);
    assert_eq!(extract_token("Bearer abc"), None);
    assert_eq!(extract_token("token abc"), None);
}

#[test]
fn empty_registry_denies_all() {
    let reg = Registry::new();
    let header = "Token default".to_string();
    assert!(!authorize(&reg, Some(&header), &"dockerAgentEvents".to_string()));
}
