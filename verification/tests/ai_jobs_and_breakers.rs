use zyvor_fabricd::ai::batch::{cancel, claim, digest_sha256, finish, submit, valid_digest, BatchState};
use zyvor_fabricd::ai::circuit::{is_open, observe, Breaker};
use zyvor_fabricd::ai::janus::{
    is_janus_bdf, nodes_from_inventory, replica_hostport, InventoryGpu, InventoryNode,
};
use zyvor_fabricd::ai::supply::{derived_digest, file_count_allowed, hex, optimization_kind, signature_matches};
use zyvor_fabricd::ai::types::NodeState;
use zyvor_fabricd::ai::{audit_line, chain_hash};
use zyvor_fabricd::crypto::hmac_sha256_hex;

#[test]
fn claim_requires_a_ready_replica_and_finish_is_explicit() {
    let job = submit("batch_1".into(), "qwen".into(), "ab".repeat(32), 10);
    assert!(claim(job.clone(), false, 11).is_err());
    let running = claim(job, true, 11).unwrap();
    assert_eq!(running.state, BatchState::Running);
    assert!(
        finish(running.clone(), true, "ok".into(), 12)
            .unwrap()
            .state
            == BatchState::Succeeded
    );
    assert!(cancel(running, 12).is_ok());
    let done = finish(
        claim(
            submit("batch_2".into(), "qwen".into(), "cd".repeat(32), 1),
            true,
            2,
        )
        .unwrap(),
        false,
        "upstream".into(),
        3,
    )
    .unwrap();
    assert_eq!(done.state, BatchState::Failed);
    assert!(finish(done, true, "again".into(), 4).is_err());
    assert!(valid_digest(&digest_sha256(b"prompt")));
    assert!(!valid_digest("nope"));
}

#[test]
fn batch_errors_and_digest_shape() {
    let job = submit("b".into(), "qwen".into(), "ab".repeat(32), 10);
    assert_eq!(claim(job.clone(), false, 11).unwrap_err(), "no ready inference replica");
    assert_eq!(finish(job.clone(), true, "x".into(), 11).unwrap_err(), "batch is not running");
    let cancelled = cancel(job, 12).unwrap();
    assert_eq!(cancelled.state, BatchState::Cancelled);
    assert_eq!(cancelled.message, "cancelled");
    assert_eq!(cancel(cancelled.clone(), 13).unwrap_err(), "batch is already finished");
    assert_eq!(claim(cancelled, true, 13).unwrap_err(), "batch is not queued");
    assert!(valid_digest(&"AB".repeat(32)));
    assert!(!valid_digest(&"g".repeat(64)));
    assert_eq!(
        digest_sha256(b"abc"),
        "ba7816bf8f01cfea414140de5dae2223b00361a396177a9cb410ff61f20015ad"
    );
}

#[test]
fn fifth_failure_opens_and_a_success_after_the_window_closes() {
    let mut breaker = Breaker::default();
    for _ in 0..4 {
        breaker = observe(breaker, true, 100);
        assert!(!is_open(&breaker, 100));
    }
    breaker = observe(breaker, true, 100);
    assert!(is_open(&breaker, 100));
    assert!(is_open(&breaker, 129));
    assert!(!is_open(&breaker, 130));
    breaker = observe(breaker, false, 130);
    assert_eq!(breaker.failures, 0);
}

#[test]
fn an_open_breaker_ignores_outcomes() {
    let open = Breaker {
        failures: 5,
        open_until_unix: 130,
    };
    let after = observe(open, false, 120);
    assert_eq!((after.failures, after.open_until_unix), (5, 130));
}

#[test]
fn inventory_becomes_a_schedulable_node() {
    let inventory = vec![InventoryNode {
        id: "node-0".into(),
        gpus: vec![InventoryGpu {
            id: "janus:node-0:gpu-0".into(),
            profile: "H100_80GB".into(),
            memory_gb: 80,
            mig: true,
        }],
    }];
    let nodes = nodes_from_inventory(inventory, 50).unwrap();
    assert_eq!(nodes[0].id, "node-0");
    assert_eq!(nodes[0].gpus[0].bdf, "janus:node-0:gpu-0");
    assert_eq!(nodes[0].gpus[0].model, "janus:H100_80GB");
    assert_eq!(
        replica_hostport("http://127.0.0.1:30818/"),
        "127.0.0.1:30818"
    );
    assert!(is_janus_bdf("janus:node-0:gpu-0"));
}

#[test]
fn inventory_nodes_are_ready_janus_records_and_bad_ids_fail() {
    let good = InventoryNode {
        id: "node-1".into(),
        gpus: vec![],
    };
    let nodes = nodes_from_inventory(vec![good], 7).unwrap();
    assert_eq!(nodes[0].site, "janus");
    assert_eq!(nodes[0].state, NodeState::Ready);
    assert_eq!(nodes[0].heartbeat_unix, 7);
    let bad = InventoryNode {
        id: "../etc".into(),
        gpus: vec![],
    };
    assert_eq!(
        nodes_from_inventory(vec![bad], 7).unwrap_err(),
        "janus node id '../etc' is not usable"
    );
    assert_eq!(replica_hostport("https://janus.local///"), "janus.local");
    assert!(!is_janus_bdf("0000:01:00.0"));
}

#[test]
fn audit_chain_depends_on_the_previous_hash() {
    let first = chain_hash("", "create|model");
    let second = chain_hash(&first, "create|model");
    assert_ne!(first, second);
    assert_eq!(first, chain_hash("", "create|model"));
}

#[test]
fn audit_chain_hashes_the_previous_link_and_the_line() {
    assert_eq!(chain_hash("a", "b"), digest_sha256(b"a\nb"));
    assert_eq!(audit_line("alice", "CREATE", "ai/keys/1", "SUCCESS"), "alice|CREATE|ai/keys/1|SUCCESS");
}

#[test]
fn derived_digest_is_stable_and_distinct_from_the_source() {
    let source = "abc123";
    let derived = derived_digest(source, "awq");
    assert_eq!(derived, derived_digest(source, "awq"));
    assert_ne!(derived, source);
    assert_ne!(derived, derived_digest(source, "gguf"));
    assert_eq!(derived, digest_sha256(b"abc123\nawq"));
}

#[test]
fn file_count_and_kind_gates() {
    assert!(file_count_allowed(10, 10).is_ok());
    assert!(file_count_allowed(11, 10).is_err());
    assert_eq!(optimization_kind("AWQ").unwrap(), "awq");
    assert!(optimization_kind("pickle").is_err());
}

#[test]
fn gate_messages() {
    assert_eq!(file_count_allowed(11, 10).unwrap_err(), "model has 11 files; limit is 10");
    assert_eq!(optimization_kind(" Pickle ").unwrap_err(), "unsupported optimization 'pickle'");
    assert_eq!(optimization_kind(" tensorRT ").unwrap(), "tensorrt");
    assert_eq!(hex(&[0x00, 0xab, 0xff]), "00abff");
}

#[test]
fn signature_rejects_a_different_digest() {
    assert!(signature_matches(
        "digest",
        &hmac_sha256_hex(b"key", b"digest"),
        "key"
    ));
    assert!(!signature_matches(
        "other",
        &hmac_sha256_hex(b"key", b"digest"),
        "key"
    ));
    let padded = format!("  {}\n", hmac_sha256_hex(b"key", b"digest"));
    assert!(signature_matches("digest", &padded, "key"));
}
