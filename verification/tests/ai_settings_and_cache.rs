use zyvor_fabricd::ai::gpu_orch::{max_gpu_temp_c, reject_ecc};
use zyvor_fabricd::ai::janus::janus_url;
use zyvor_fabricd::ai::lifecycle::consensus_configured;
use zyvor_fabricd::ai::model_cache::{
    directory_manifest,
    checksum_verdict, confine, manifest_digest, manifest_line, model_source, path_within,
    requested_checksum, sanitize_name, ModelSource,
};
use zyvor_fabricd::ai::pci_mig::{pci_mig_enabled, record_only};
use zyvor_fabricd::ai::supply::{max_files, require_signature};
use zyvor_fabricd::crypto::{hmac_sha256_hex, sha256_hex};

#[test]
fn switches_read_like_the_environment() {
    for on in ["1", "true", "TRUE", "yes"] {
        assert!(pci_mig_enabled(Some(on)), "{on}");
        assert!(record_only(Some(on)), "{on}");
    }
    for off in ["0", "True", "no", ""] {
        assert!(!pci_mig_enabled(Some(off)), "{off}");
    }
    assert!(!record_only(None));
    assert!(reject_ecc(Some("1")));
    assert!(!reject_ecc(Some("true")));
    assert!(!reject_ecc(None));
    assert!(consensus_configured(Some("external")));
    assert!(!consensus_configured(Some("raft")));
    assert!(!consensus_configured(None));
}

#[test]
fn numeric_settings_fall_back_when_unparsable() {
    assert_eq!(max_gpu_temp_c(Some("85")), 85);
    assert_eq!(max_gpu_temp_c(Some("+85")), 85);
    assert_eq!(max_gpu_temp_c(Some(" 85")), 0);
    assert_eq!(max_gpu_temp_c(Some("99999999999")), 0);
    assert_eq!(max_gpu_temp_c(None), 0);
    assert_eq!(max_files(Some("12")), 12);
    assert_eq!(max_files(Some("lots")), 10_000);
    assert_eq!(max_files(None), 10_000);
}

#[test]
fn janus_url_is_trimmed_and_blank_is_none() {
    assert_eq!(janus_url(Some(" http://127.0.0.1:30818/ ")).as_deref(), Some("http://127.0.0.1:30818"));
    assert_eq!(janus_url(Some(" // ")), None);
    assert_eq!(janus_url(None), None);
}

#[test]
fn signatures_need_a_digest_and_a_key() {
    let sig = hmac_sha256_hex(b"key", b"digest");
    assert!(require_signature(Some("digest"), &sig, Some("key")).is_ok());
    assert_eq!(
        require_signature(None, &sig, Some("key")).unwrap_err(),
        "model digest is missing"
    );
    assert_eq!(
        require_signature(Some("digest"), &sig, None).unwrap_err(),
        "model signature is set but FLUXVM_AI_MODEL_SIGNING_KEY is unset"
    );
    assert_eq!(
        require_signature(Some("digest"), &sig, Some("")).unwrap_err(),
        "FLUXVM_AI_MODEL_SIGNING_KEY is empty"
    );
    assert_eq!(
        require_signature(Some("other"), &sig, Some("key")).unwrap_err(),
        "model signature does not match the digest"
    );
}

#[test]
fn accepts_path_under_model_root() {
    let roots = vec!["/var/lib/fabric/ai-models".to_string()];
    assert_eq!(
        confine("/var/lib/fabric/ai-models/x/w.bin", &roots).unwrap(),
        "/var/lib/fabric/ai-models/x/w.bin"
    );
    assert!(confine("/var/lib/fabric/ai-models", &roots).is_ok());
}

#[test]
fn rejects_path_outside_model_root() {
    let roots = vec!["/var/lib/fabric/ai-models".to_string(), "/models".to_string()];
    let err = confine("/etc/passwd", &roots).unwrap_err();
    assert!(err.contains("outside"), "{err}");
    assert!(confine("/var/lib/fabric/ai-models-evil/w", &roots).is_err());
    assert!(path_within("/models/a", "/models/"));
    assert!(!path_within("/modelsx/a", "/models"));
}

#[test]
fn checksum_requests_and_verdicts() {
    assert_eq!(requested_checksum(None), None);
    assert_eq!(requested_checksum(Some("   ")), None);
    assert_eq!(requested_checksum(Some(" sha256:ABCD ")).as_deref(), Some("abcd"));
    let hex = sha256_hex(b"hello-ai");
    assert_eq!(checksum_verdict("w.bin", &hex, &hex).unwrap(), hex);
    let err = checksum_verdict("w.bin", "deadbeef", &hex).unwrap_err();
    assert!(err.contains("checksum mismatch"));
    assert_eq!(err, format!("checksum mismatch for w.bin: expected deadbeef, got {hex}"));
}

#[test]
fn directory_checksum_is_sorted_manifest() {
    let a = manifest_line("a.bin", 1, &sha256_hex(b"a"));
    let b = manifest_line("b.bin", 1, &sha256_hex(b"b"));
    assert_eq!(a, format!("a.bin 1 {}\n", sha256_hex(b"a")));
    let text = format!("{a}{b}");
    assert_eq!(manifest_digest(&text), sha256_hex(text.as_bytes()));
}

#[test]
fn sources_and_cache_names() {
    assert!(matches!(model_source(true, "hf://x/y"), ModelSource::ModelDir));
    assert!(matches!(model_source(false, "file:///m/w"), ModelSource::Local(p) if p == "/m/w"));
    assert!(matches!(model_source(false, "/m/w"), ModelSource::Local(p) if p == "/m/w"));
    assert!(matches!(model_source(false, "hf://org/m"), ModelSource::HuggingFace(p) if p == "org/m"));
    assert!(matches!(model_source(false, "s3://b/k"), ModelSource::Unsupported(_)));
    assert_eq!(sanitize_name("org/Model-7B v1"), "org_Model-7B_v1");
}

#[test]
fn directory_checksums_hash_the_file_manifest() {
    let entries = vec![
        ("a/config.json".to_string(), 12u64, "ab".to_string()),
        ("weights.bin".to_string(), 3u64, "cd".to_string()),
    ];
    assert_eq!(
        directory_manifest("/m", &entries).unwrap(),
        sha256_hex(b"a/config.json 12 ab\nweights.bin 3 cd\n")
    );
    assert_eq!(
        directory_manifest("/m", &[]).unwrap_err(),
        "no regular file under /m to verify checksum against"
    );
}
