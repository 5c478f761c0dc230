use zyvor_fabricd::ai::placement::{place_gpus, HostGpu};
use zyvor_fabricd::ai::types::GpuRequirements;

fn gpu(bdf: &str, vram: Option<u32>, bound: bool, held: bool) -> HostGpu {
    HostGpu {
        bdf: bdf.into(),
        vendor_id: 0x10de,
        vendor: "NVIDIA".into(),
        group_bound_to_vfio: bound,
        group_held: held,
        vram_gib: vram,
    }
}

#[test]
fn places_free_nvidia_preferring_vfio_bound() {
    let inv = vec![
        gpu("0000:01:00.0", Some(24), false, false),
        gpu("0000:02:00.0", Some(48), true, false),
        gpu("0000:03:00.0", Some(48), true, true),
    ];
    let req = GpuRequirements {
        vendor: "nvidia".into(),
        count: 1,
        minimum_vram_gib: 40,
    };
    let allocated: Vec<String> = Vec::new();
    let picked = place_gpus(&inv, &req, &allocated).unwrap();
    assert_eq!(picked.len(), 1);
    assert_eq!(picked[0].bdf, "0000:02:00.0");
}

#[test]
fn skips_allocated_and_errors_when_short() {
    let inv = vec![gpu("0000:01:00.0", Some(24), true, false)];
    let req = GpuRequirements {
        vendor: "nvidia".into(),
        count: 1,
        minimum_vram_gib: 0,
    };
    let allocated = vec!["0000:01:00.0".to_string()];
    assert!(place_gpus(&inv, &req, &allocated).is_err());
    assert_eq!(
        place_gpus(&inv, &req, &allocated).unwrap_err(),
        "not enough free NVIDIA GPUs: need 1, found 0"
    );
}

#[test]
fn rejects_non_nvidia_vendor() {
    let inv = vec![gpu("0000:01:00.0", Some(24), true, false)];
    let req = GpuRequirements {
        vendor: "amd".into(),
        count: 1,
        minimum_vram_gib: 0,
    };
    assert!(place_gpus(&inv, &req, &[]).is_err());
    assert_eq!(
        place_gpus(&inv, &req, &[]).unwrap_err(),
        "unsupported GPU vendor 'amd' (MVP supports only 'nvidia')"
    );
}

#[test]
fn bound_devices_first_then_by_bdf_and_unknown_memory_needs_no_floor() {
    let mut other = gpu("0000:05:00.0", None, false, false);
    other.vendor = "Acme".into();
    other.vendor_id = 0x1002;
    let inv = vec![
        gpu("0000:04:00.0", Some(80), false, false),
        gpu("0000:03:00.0", Some(80), true, false),
        gpu("0000:01:00.0", None, false, false),
        gpu("0000:02:00.0", Some(80), true, false),
        other,
    ];
    let req = GpuRequirements {
        vendor: " NVIDIA ".into(),
        count: 4,
        minimum_vram_gib: 0,
    };
    let picked: Vec<&str> = place_gpus(&inv, &req, &[])
        .unwrap()
        .iter()
        .map(|g| g.bdf.as_str())
        .collect();
    assert_eq!(picked, vec!["0000:02:00.0", "0000:03:00.0", "0000:01:00.0", "0000:04:00.0"]);
    let floor = GpuRequirements {
        vendor: "nvidia".into(),
        count: 0,
        minimum_vram_gib: 1,
    };
    assert_eq!(place_gpus(&inv, &floor, &["0000:02:00.0".to_string()]).unwrap()[0].bdf, "0000:03:00.0");
}
