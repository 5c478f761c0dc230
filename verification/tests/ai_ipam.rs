use zyvor_fabricd::ai::ipam::{
    address_in_pool, adopt, avoid_buggy_ips, format_ipv4, next_free, parse_ipv4, pool_specs,
    release, reserve, VipAllocation,
};

fn allocation(vip: &str, endpoint: &str) -> VipAllocation {
    VipAllocation {
        vip: vip.into(),
        endpoint: endpoint.into(),
        pool: "default".into(),
    }
}

#[test]
fn does_not_reuse_and_release_frees() {
    let specs = vec!["10.96.0.10-10.96.0.11".to_string()];
    let mut used: Vec<String> = Vec::new();
    let a = next_free(&used, &specs, true).unwrap();
    used.push(a.clone());
    let b = next_free(&used, &specs, true).unwrap();
    assert_ne!(a, b);
    used.push(b);
    assert!(next_free(&used, &specs, true).is_err());
    used.retain(|u| u != &a);
    assert_eq!(next_free(&used, &specs, true).unwrap(), a);
}

#[test]
fn skips_buggy_ipv4_like_rivora() {
    let specs = vec!["10.96.0.0/30".to_string()];
    let used: Vec<String> = Vec::new();
    assert_eq!(next_free(&used, &specs, true).unwrap(), "10.96.0.1");
}

#[test]
fn cidr_skips_network_and_broadcast() {
    let specs = vec!["10.96.0.0/30".to_string()];
    let mut used: Vec<String> = Vec::new();
    let a = next_free(&used, &specs, false).unwrap();
    assert_eq!(a, "10.96.0.1");
    used.push(a);
    let b = next_free(&used, &specs, false).unwrap();
    assert_eq!(b, "10.96.0.2");
    used.push(b);
    assert!(next_free(&used, &specs, false).is_err());
}

#[test]
fn next_free_errors_name_the_problem() {
    let used: Vec<String> = Vec::new();
    assert_eq!(
        next_free(&used, &[], true).unwrap_err(),
        "no AI address pool configured"
    );
    let big = vec!["10.0.0.0/8".to_string()];
    assert!(next_free(&used, &big, true).is_err());
    let bad = vec!["not-an-ip".to_string()];
    assert!(next_free(&used, &bad, true).is_err());
    let taken = vec!["10.96.0.10".to_string()];
    let used_one = vec!["10.96.0.10".to_string()];
    assert_eq!(
        next_free(&used_one, &taken, true).unwrap_err(),
        "AI address pool exhausted (10.96.0.10)"
    );
    let single = vec!["10.96.0.255".to_string(), "10.96.1.7".to_string()];
    assert_eq!(next_free(&used, &single, true).unwrap(), "10.96.1.7");
    assert_eq!(next_free(&used, &single, false).unwrap(), "10.96.0.255");
}

#[test]
fn ipv4_text_round_trips() {
    let v: Vec<char> = "192.168.1.20".chars().collect();
    let a = parse_ipv4(&v, 0, v.len()).unwrap();
    assert_eq!(a, 0xC0A8_0114);
    assert_eq!(format_ipv4(a), "192.168.1.20");
    for bad in ["1.2.3", "1.2.3.256", "01.2.3.4", "1.2.3.4.5", ""] {
        let v: Vec<char> = bad.chars().collect();
        assert!(parse_ipv4(&v, 0, v.len()).is_none(), "{bad}");
    }
}

#[test]
fn pool_membership() {
    let specs = vec!["10.96.0.0/24".to_string()];
    assert_eq!(address_in_pool("10.96.0.7", &specs, true), Ok(true));
    assert_eq!(address_in_pool("10.96.1.7", &specs, true), Ok(false));
    assert_eq!(address_in_pool("10.96.0.0", &specs, false), Ok(false));
    assert_eq!(address_in_pool("10.96.0.255", &specs, false), Ok(false));
    assert!(address_in_pool("fe80::1", &specs, true).is_err());
    let range = vec!["10.1.0.1-10.1.0.3".to_string()];
    assert_eq!(address_in_pool("10.1.0.2", &range, true), Ok(true));
    assert_eq!(address_in_pool("10.1.0.4", &range, true), Ok(false));
}

#[test]
fn reserve_is_idempotent_and_skips_held_addresses() {
    let specs = vec!["10.96.0.0/29".to_string()];
    let allocs = vec![allocation("10.96.0.1", "ep-a")];
    assert_eq!(reserve(&allocs, "ep-a", &specs, true).unwrap(), "10.96.0.1");
    assert_eq!(reserve(&allocs, "ep-b", &specs, true).unwrap(), "10.96.0.2");
}

#[test]
fn adopt_refuses_an_address_held_elsewhere_or_outside_the_pool() {
    let specs = vec!["10.96.0.0/29".to_string()];
    let allocs = vec![allocation("10.96.0.1", "ep-a")];
    assert_eq!(
        adopt(&allocs, "ep-b", "10.96.0.1", &specs, true).unwrap_err(),
        "requested address 10.96.0.1 is already assigned to ep-a"
    );
    assert_eq!(
        adopt(&allocs, "ep-b", "10.97.0.1", &specs, true).unwrap_err(),
        "requested address 10.97.0.1 is not in any configured pool"
    );
    assert_eq!(adopt(&allocs, "ep-b", "10.96.0.3", &specs, true).unwrap(), "10.96.0.3");
    assert_eq!(adopt(&allocs, "ep-a", "10.96.0.3", &specs, true).unwrap(), "10.96.0.1");
}

#[test]
fn release_lists_only_the_endpoint_addresses() {
    let allocs = vec![
        allocation("10.96.0.1", "ep-a"),
        allocation("10.96.0.2", "ep-b"),
        allocation("10.96.0.3", "ep-a"),
    ];
    assert_eq!(release(&allocs, "ep-a"), vec!["10.96.0.1", "10.96.0.3"]);
    assert!(release(&allocs, "ep-z").is_empty());
}

#[test]
fn pool_specs_from_settings() {
    assert_eq!(pool_specs(None, None), vec!["10.96.0.0/16"]);
    assert_eq!(pool_specs(None, Some("10.50.0.0/16")), vec!["10.50.0.0/16"]);
    assert_eq!(
        pool_specs(Some(" 10.1.0.1 , ,10.2.0.0/24"), Some("10.50.0.0/16")),
        vec!["10.1.0.1", "10.2.0.0/24"]
    );
    assert_eq!(pool_specs(Some(" , "), None), vec!["10.96.0.0/16"]);
    assert!(avoid_buggy_ips(None));
    assert!(!avoid_buggy_ips(Some("0")));
    assert!(!avoid_buggy_ips(Some("FALSE")));
    assert!(avoid_buggy_ips(Some("1")));
}

#[test]
fn a_recorded_reservation_is_kept_and_not_reused() {
    let specs = vec!["10.96.0.0/29".to_string()];
    let mut allocs = vec![];
    let v = reserve(&allocs, "ep-a", &specs, true).unwrap();
    allocs.push(allocation(&v, "ep-a"));
    assert_eq!(reserve(&allocs, "ep-a", &specs, true).unwrap(), v);
    let w = reserve(&allocs, "ep-b", &specs, true).unwrap();
    assert_ne!(w, v);
}

#[test]
fn reservations_on_a_store_with_stray_records() {
    let specs = vec!["10.96.0.0/29".to_string()];
    // Records left by hand: out of order, with a gap.
    let mut allocs = vec![allocation("10.96.0.4", "ep-x"), allocation("10.96.0.1", "ep-y")];
    let v = reserve(&allocs, "ep-a", &specs, true).unwrap();
    assert_eq!(v, "10.96.0.2");
    allocs.push(allocation(&v, "ep-a"));
    assert_eq!(reserve(&allocs, "ep-a", &specs, true).unwrap(), v);
    assert_eq!(reserve(&allocs, "ep-x", &specs, true).unwrap(), "10.96.0.4");
    let w = reserve(&allocs, "ep-b", &specs, true).unwrap();
    assert_ne!(w, v);
    assert_eq!(w, "10.96.0.3");
}
