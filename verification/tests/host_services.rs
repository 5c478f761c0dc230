use zyvor_fabricd::auth::{
    in_admin_group, second_factor, system_user_role, valid_login_username, LoginRateLimiter,
    SecondFactor, UserRole,
};
use zyvor_fabricd::capabilities::{
    hubble_link, probe_auth, probe_events, probe_network_security, probe_storage,
    probe_vm_driver, SubsystemPhase,
};
use zyvor_fabricd::db_migrations::all_migrations;
use zyvor_fabricd::host_insight::{default_metric, default_period};
use zyvor_fabricd::hotplug::default_bus;
use zyvor_fabricd::images::{
    cloud_image_catalog, default_cpus, default_memory, default_qcow2, parse_size_to_bytes,
    size_fits_u64,
};

#[test]
fn limiter_blocks_after_the_allowed_failures_and_clear_unblocks() {
    let mut l = LoginRateLimiter::new(3, 60);
    assert!(!l.is_limited("alice", 1_000));
    l.record_failure("alice", 1_000);
    l.record_failure("alice", 2_000);
    assert!(!l.is_limited("alice", 2_500));
    l.record_failure("alice", 3_000);
    assert!(l.is_limited("alice", 3_000));
    assert!(!l.is_limited("bob", 3_000));
    assert!(!l.is_limited("alice", 61_500));
    l.record_failure("bob", 4_000);
    l.clear("alice");
    assert!(!l.is_limited("alice", 4_000));
}

#[test]
fn limiter_with_zero_allowance_blocks_only_known_keys() {
    let mut l = LoginRateLimiter::new(0, 60);
    assert!(!l.is_limited("alice", 0));
    l.record_failure("alice", 0);
    assert!(l.is_limited("alice", 0));
}

#[test]
fn login_names_and_roles() {
    assert!(valid_login_username("ops.admin-1_x"));
    assert!(!valid_login_username(""));
    assert!(!valid_login_username("a b"));
    assert!(!valid_login_username(&"a".repeat(65)));
    assert!(in_admin_group("users wheel docker"));
    assert!(in_admin_group("adm"));
    assert!(!in_admin_group("users admins"));
    assert_eq!(system_user_role("root", false), UserRole::Admin);
    assert_eq!(system_user_role("ana", true), UserRole::Admin);
    assert_eq!(system_user_role("ana", false), UserRole::User);
    assert_eq!(UserRole::Viewer.as_str(), "viewer");
    assert_eq!(second_factor(false, false), SecondFactor::NotRequired);
    assert_eq!(second_factor(true, false), SecondFactor::CodeRequired);
    assert_eq!(second_factor(true, true), SecondFactor::Verify);
}

#[test]
fn capability_probes() {
    let live = probe_auth(true, true);
    assert_eq!(live.phase, SubsystemPhase::Live);
    assert_eq!(probe_auth(false, true).phase, SubsystemPhase::Off);
    assert_eq!(
        probe_auth(true, false).detail.as_deref(),
        Some("Auth enabled but user database unavailable")
    );
    assert_eq!(
        probe_events(2).detail.as_deref(),
        Some("SSE broadcast ready · 2 subscriber(s)")
    );
    assert_eq!(probe_vm_driver(None).phase, SubsystemPhase::Unreachable);
    assert_eq!(probe_vm_driver(Some(4)).detail.as_deref(), Some("4 machine(s) registered"));
    assert_eq!(probe_storage(1).detail.as_deref(), Some("1 storage pool(s)"));
    assert_eq!(
        probe_network_security(0).detail.as_deref(),
        Some("Policy engine active · 0 network polic(ies)")
    );
    assert_eq!(hubble_link(Some("")), None);
    assert_eq!(hubble_link(Some("http://hubble")).as_deref(), Some("http://hubble"));
}

#[test]
fn sizes_parse_with_binary_units() {
    assert_eq!(parse_size_to_bytes("50G"), Ok(50 * 1024 * 1024 * 1024));
    assert_eq!(parse_size_to_bytes(" 512m "), Ok(512 * 1024 * 1024));
    assert_eq!(parse_size_to_bytes("1024"), Ok(1024));
    assert_eq!(parse_size_to_bytes("2 K"), Ok(2048));
    assert_eq!(
        parse_size_to_bytes("0G").unwrap_err(),
        "Size must be greater than zero"
    );
    assert_eq!(
        parse_size_to_bytes("x1G").unwrap_err(),
        "Invalid size number: invalid digit found in string"
    );
    assert_eq!(
        parse_size_to_bytes("G").unwrap_err(),
        "Invalid size number: cannot parse integer from empty string"
    );
    assert!(size_fits_u64("16777215T"));
    assert!(!size_fits_u64("16777216T"));
    assert!(size_fits_u64("garbage"));
}

#[test]
fn catalogs_and_defaults() {
    let c = cloud_image_catalog();
    assert_eq!(c.len(), 6);
    assert_eq!(c[0].name, "ubuntu-24.04");
    assert!(c.iter().all(|i| i.format == "qcow2"));
    let m = all_migrations();
    assert_eq!(m.len(), 5);
    assert_eq!(m[4].1, "add_sessions_table");
    assert_eq!((default_qcow2(), default_cpus(), default_memory()), ("qcow2".to_string(), 2, 2048));
    assert_eq!((default_metric(), default_period(), default_bus()), ("cpu".to_string(), "1h".to_string(), "virtio".to_string()));
}
