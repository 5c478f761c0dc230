use zyvor_fabricd::ai::gpu_orch::{
    gpu_schedulable, janus_mig_profile, mig_reconfigure_allowed, quarantine, select_group,
    slice_bdf, slice_fits,
};
use zyvor_fabricd::ai::gpu_probe::{apply_samples, bdf_tail, parse_nvidia_smi};
use zyvor_fabricd::ai::types::NodeGpu;

fn gpu(bdf: &str, healthy: bool, mig: &str) -> NodeGpu {
    NodeGpu {
        bdf: bdf.into(),
        vendor: "nvidia".into(),
        vram_gib: 40,
        model: "A100".into(),
        healthy,
        mig_profile: mig.into(),
        parent_bdf: String::new(),
        nvlink: true,
        temperature_c: 0,
        power_watts: 0,
        ecc_errors: 0,
    }
}

#[test]
fn group_is_atomic_and_skips_a_quarantined_device() {
    let gpus = vec![
        gpu("0000:01:00.0", false, ""),
        gpu("0000:02:00.0", true, ""),
        gpu("0000:03:00.0", true, ""),
    ];
    let group = select_group(&gpus, 2, "", 0, false).unwrap();
    assert_eq!(group.bdfs, vec!["0000:02:00.0", "0000:03:00.0"]);
    assert!(select_group(&gpus, 3, "", 0, false).is_err());
}

#[test]
fn mig_profile_must_match_and_a_held_parent_cannot_change() {
    let gpus = vec![gpu("0000:01:00.0", true, "1g.10gb")];
    assert!(select_group(&gpus, 1, "1g.5gb", 0, false).is_err());
    assert!(select_group(&gpus, 1, "1g.10gb", 0, false).is_ok());
    assert!(!mig_reconfigure_allowed(
        "0000:01:00.0",
        &[("node-a".into(), "0000:01:00.0".into())]
    ));
    assert!(mig_reconfigure_allowed("0000:01:00.0", &[]));
    assert!(janus_mig_profile("1g.10gb").is_some());
    assert!(janus_mig_profile("9g").is_none());
    assert!(slice_fits(80, &janus_mig_profile("1g.10gb").unwrap(), 6));
    assert!(!slice_fits(80, &janus_mig_profile("1g.10gb").unwrap(), 7));
    assert_eq!(
        slice_bdf("janus:node-0:gpu-0", "1g.10gb", 0),
        "janus:node-0:gpu-0--1g.10gb--0"
    );
}

#[test]
fn hot_or_ecc_gpus_are_not_schedulable() {
    let mut hot = gpu("hot", true, "");
    hot.temperature_c = 90;
    let mut ecc = gpu("ecc", true, "");
    ecc.ecc_errors = 2;
    assert!(!gpu_schedulable(&hot, 80, false));
    assert!(gpu_schedulable(&hot, 0, false));
    assert!(!gpu_schedulable(&ecc, 0, true));
    assert!(gpu_schedulable(&ecc, 0, false));
}

#[test]
fn group_limits_and_defaults() {
    let gpus: Vec<NodeGpu> = (0..9).map(|i| gpu(&format!("0000:0{i}:00.0"), true, "")).collect();
    assert!(select_group(&gpus, 9, "", 0, false).is_err());
    assert_eq!(select_group(&gpus, 0, "", 0, false).unwrap().bdfs.len(), 1);
    let mixed = vec![gpu("a", true, "1g.10gb"), gpu("b", true, "")];
    assert_eq!(select_group(&mixed, 1, "", 0, false).unwrap().bdfs, vec!["b"]);
    let mut hot = gpu("hot", true, "");
    hot.temperature_c = 95;
    assert!(select_group(&[hot], 1, "", 90, false).is_err());
}

#[test]
fn mig_parent_match_ignores_case_and_quarantine_marks_unhealthy() {
    assert!(!mig_reconfigure_allowed(
        "0000:0A:00.0",
        &[("node-a".into(), "0000:0a:00.0".into())]
    ));
    let mut g = gpu("x", true, "");
    quarantine(&mut g);
    assert!(!g.healthy);
    let p = janus_mig_profile("7g").unwrap();
    assert_eq!((p.memory_gib, p.max_per_gpu), (80, 1));
    assert!(!slice_fits(40, &p, 0));
}

#[test]
fn csv_fills_a_matching_device_and_skips_janus() {
    let samples = parse_nvidia_smi(
        "00000000:01:00.0, 61, 250.40, 2\n00000000:02:00.0, [N/A], [N/A], [N/A]\n",
    );
    let mut gpus = vec![gpu("0000:01:00.0", true, ""), gpu("janus:node-0:gpu-0", true, "")];
    gpus[0].vram_gib = 80;
    apply_samples(&mut gpus, &samples);
    assert_eq!(gpus[0].temperature_c, 61);
    assert_eq!(gpus[0].power_watts, 250);
    assert_eq!(gpus[0].ecc_errors, 2);
    assert_eq!(gpus[1].temperature_c, 0);
    assert_eq!(gpus[1].ecc_errors, 0);
}

#[test]
fn csv_parsing_reads_fields_and_skips_blank_ids() {
    let samples = parse_nvidia_smi("00000000:02:00.0, [N/A], [N/A], [N/A]\n, 5, 5, 5\n");
    assert_eq!(samples.len(), 1);
    assert_eq!(samples[0].bdf, "00000000:02:00.0");
    assert_eq!(samples[0].temperature_c, 0);
    assert_eq!(samples[0].ecc_errors, 0);
    assert_eq!(bdf_tail("00000000:0A:00.0"), "0a:00.0");
}

#[test]
fn a_held_slice_blocks_its_parent() {
    let p = "0000:01:00.0";
    assert!(!mig_reconfigure_allowed(p, &[("node-a".into(), slice_bdf(p, "1g.10gb", 0))]));
    assert!(!mig_reconfigure_allowed(p, &[("node-a".into(), "0000:01:00.0--2g.20gb--1".to_uppercase())]));
    assert!(mig_reconfigure_allowed(p, &[("node-a".into(), slice_bdf("0000:02:00.0", "1g.10gb", 0))]));
}
