use zyvor_fabricd::agent_runtime::{
    agent_runtime_base_url, agent_visible, http_base_to_ws, sanitize_name_component,
    scope_agent_name, session_access, session_user_id, tenant_agent_prefix, upstream_token,
    upstream_url, urlencoding_encode, valid_skill_name, AgentRuntimeConfig, Claims,
};
use zyvor_fabricd::auth::UserRole;

fn claims(role: UserRole, sub: &str, tenant: Option<&str>) -> Claims {
    Claims {
        sub: sub.to_string(),
        role,
        tenant: tenant.map(str::to_string),
    }
}

#[test]
fn skill_names_cannot_reach_other_upstream_paths() {
    assert!(valid_skill_name("notes-1.2_x"));
    for bad in ["", ".hidden", "a/b", "..", "a b", "a?x=1", "a#b", "%2e%2e"] {
        assert!(!valid_skill_name(bad), "{bad:?}");
    }
}

#[test]
fn agent_runtime_base_url_none_when_unset() {
    let cfg = AgentRuntimeConfig {
        base_url: None,
        token: None,
    };
    assert!(agent_runtime_base_url(&cfg).is_none());
}

#[test]
fn agent_runtime_base_url_trims_slash_and_whitespace() {
    let cfg = AgentRuntimeConfig {
        base_url: Some("  http://127.0.0.1:9096/  ".into()),
        token: None,
    };
    assert_eq!(
        agent_runtime_base_url(&cfg).as_deref(),
        Some("http://127.0.0.1:9096")
    );
}

#[test]
fn agent_runtime_base_url_blank_is_none() {
    let cfg = AgentRuntimeConfig {
        base_url: Some("   ".into()),
        token: None,
    };
    assert!(agent_runtime_base_url(&cfg).is_none());
}

#[test]
fn http_base_to_ws_rewrites_scheme() {
    assert_eq!(
        http_base_to_ws("http://127.0.0.1:9096").unwrap(),
        "ws://127.0.0.1:9096"
    );
    assert_eq!(
        http_base_to_ws("https://agents.example").unwrap(),
        "wss://agents.example"
    );
    assert!(http_base_to_ws("ftp://nope").is_err());
}

#[test]
fn urlencoding_encode_leaves_safe_chars() {
    assert_eq!(urlencoding_encode("after"), "after");
    assert_eq!(urlencoding_encode("a b"), "a%20b");
}

#[test]
fn urlencoding_encode_escapes_reserved_and_multibyte() {
    assert_eq!(urlencoding_encode("a/b?c"), "a%2Fb%3Fc");
    assert_eq!(urlencoding_encode("-_.~"), "-_.~");
    assert_eq!(urlencoding_encode("é"), "%E9");
}

#[test]
fn tenant_user_agent_names_are_prefixed() {
    let c = claims(UserRole::User, "Alice/One", Some("Acme Corp"));
    assert_eq!(scope_agent_name(&c, "research"), "t.acme-corp.research");
    assert!(agent_visible(&c, "t.acme-corp.research"));
    assert!(!agent_visible(&c, "t.other.research"));
    assert!(!agent_visible(&c, "research"));
}

#[test]
fn admin_sees_all_agents_unprefixed() {
    let c = claims(UserRole::Admin, "admin", Some("acme"));
    assert_eq!(scope_agent_name(&c, "research"), "research");
    assert!(agent_visible(&c, "t.other.x"));
}

#[test]
fn session_user_id_sanitizes_subject() {
    let c = claims(UserRole::User, "Alice/One", None);
    assert_eq!(session_user_id(&c), "alice-one");
    let uuid = claims(
        UserRole::User,
        "8bb0203c-1798-4884-8602-b80ca2c02fe9",
        Some("acme"),
    );
    let uid = session_user_id(&uuid);
    assert!(uid.len() <= 32);
    assert!(uid.chars().next().unwrap().is_ascii_alphanumeric());
    assert_eq!(&uid, "8bb0203c-1798-4884-8602-b80ca2c0");
}

#[test]
fn sanitize_drops_leading_marks_and_maps_others_to_dashes() {
    assert_eq!(sanitize_name_component("--A  b__c--", 64), "a--b__c--");
    assert_eq!(sanitize_name_component("///", 64), "user");
    assert_eq!(sanitize_name_component("abcdef", 3), "abc");
    assert_eq!(tenant_agent_prefix("Acme Corp"), "t.acme-corp");
}

#[test]
fn upstream_token_prefers_the_environment() {
    let cfg = AgentRuntimeConfig {
        base_url: None,
        token: Some("from-config".into()),
    };
    assert_eq!(upstream_token(Some("from-env"), &cfg).as_deref(), Some("from-env"));
    assert_eq!(upstream_token(None, &cfg).as_deref(), Some("from-config"));
}

#[test]
fn sessions_are_seen_by_their_owner_and_admins() {
    let alice = claims(UserRole::User, "Alice/One", Some("Acme Corp"));
    assert!(session_access(&alice, Some("t.acme-corp.research"), Some("alice-one")));
    assert!(session_access(&alice, Some("t.acme-corp.research"), None));
    assert!(!session_access(&alice, Some("t.acme-corp.research"), Some("bob")));
    assert!(!session_access(&alice, Some("t.other.research"), None));
    assert!(!session_access(&alice, None, None));
    let admin = claims(UserRole::Admin, "root", None);
    assert!(session_access(&admin, None, Some("anyone")));
}

#[test]
fn proxied_urls_carry_encoded_queries() {
    assert_eq!(upstream_url("http://rt:9096", "/v1/agents", &[]), "http://rt:9096/v1/agents");
    let q = vec![
        ("after".to_string(), "a b".to_string()),
        ("limit".to_string(), "10".to_string()),
    ];
    assert_eq!(
        upstream_url("http://rt:9096", "/v1/audit", &q),
        "http://rt:9096/v1/audit?after=a%20b&limit=10"
    );
}
