use zyvor_fabricd::container_declarative::{
    check_group_shape, default_replicas, default_restart_policy, is_valid_k8s_object_name,
    pod_name, stale_pod_names, ContainerGroupSpec, ContainerSpec, PlacementSpec, ResourceSpec,
    VolumeMount,
};
use zyvor_fabricd::container_group_backups::{collect_volume_paths, default_retention_days};

fn container(name: &str, mounts: Vec<(&str, &str)>) -> ContainerSpec {
    ContainerSpec {
        name: name.into(),
        image: "nginx".into(),
        command: vec![],
        args: vec![],
        env: vec![],
        resources: ResourceSpec {
            cpus: 1,
            memory: "512M".into(),
        },
        volume_mounts: mounts
            .into_iter()
            .map(|(host, guest)| VolumeMount {
                host: host.into(),
                guest: guest.into(),
            })
            .collect(),
    }
}

fn sample_spec_with_mounts(mounts: Vec<(&str, &str)>) -> ContainerGroupSpec {
    ContainerGroupSpec {
        name: "web".into(),
        containers: vec![container("app", mounts)],
        replicas: default_replicas(),
        placement: PlacementSpec {
            node_hint: None,
            auto_reschedule: false,
        },
        restart_policy: default_restart_policy(),
        tags: vec![],
        tenant: None,
        image_pull_secrets: vec![],
    }
}

#[test]
fn pod_name_is_the_bare_group_name_for_a_single_replica() {
    assert_eq!(pod_name("web", 1, 0), "web");
}

#[test]
fn pod_name_is_suffixed_by_index_for_multiple_replicas() {
    assert_eq!(pod_name("web", 3, 2), "web-2");
}

#[test]
fn stale_pod_names_finds_pods_dropped_by_a_lower_replica_count() {
    let previous = vec!["web-0".to_string(), "web-1".to_string(), "web-2".to_string()];
    let desired = vec!["web-0".to_string()];
    assert_eq!(
        stale_pod_names(&previous, &desired),
        vec!["web-1".to_string(), "web-2".to_string()]
    );
}

#[test]
fn stale_pod_names_finds_the_renamed_pod_when_scaling_down_to_a_single_replica() {
    let previous = vec!["web-0".to_string()];
    let desired = vec!["web".to_string()];
    assert_eq!(stale_pod_names(&previous, &desired), vec!["web-0".to_string()]);
}

#[test]
fn stale_pod_names_is_empty_when_nothing_was_dropped() {
    let previous = vec!["web-0".to_string(), "web-1".to_string()];
    let desired = vec!["web-0".to_string(), "web-1".to_string()];
    assert!(stale_pod_names(&previous, &desired).is_empty());
}

#[test]
fn is_valid_k8s_object_name_accepts_typical_secret_names() {
    assert!(is_valid_k8s_object_name("registry-creds"));
    assert!(is_valid_k8s_object_name("my.registry.creds"));
    assert!(is_valid_k8s_object_name("a"));
}

#[test]
fn is_valid_k8s_object_name_rejects_uppercase_underscores_and_bad_edges() {
    assert!(!is_valid_k8s_object_name(""));
    assert!(!is_valid_k8s_object_name("Registry-Creds"));
    assert!(!is_valid_k8s_object_name("registry_creds"));
    assert!(!is_valid_k8s_object_name("-registry-creds"));
    assert!(!is_valid_k8s_object_name("registry-creds-"));
    assert!(!is_valid_k8s_object_name(".registry"));
}

#[test]
fn k8s_names_are_at_most_253_characters() {
    assert!(is_valid_k8s_object_name(&"a".repeat(253)));
    assert!(!is_valid_k8s_object_name(&"a".repeat(254)));
}

#[test]
fn validate_spec_rejects_an_invalid_image_pull_secret_name() {
    let mut spec = sample_spec_with_mounts(vec![]);
    spec.image_pull_secrets = vec!["Bad_Name".into()];
    let result = check_group_shape(
        spec.containers.len(),
        spec.replicas,
        spec.tags.len(),
        &spec.restart_policy,
        &spec.image_pull_secrets,
    );
    assert!(result.is_err());
}

#[test]
fn group_shape_errors_in_order() {
    let ok: Vec<String> = vec!["registry-creds".into()];
    assert!(check_group_shape(1, 1, 0, "Always", &ok).is_ok());
    assert_eq!(
        check_group_shape(0, 1, 0, "Always", &ok).unwrap_err(),
        "containers must not be empty"
    );
    assert_eq!(
        check_group_shape(17, 1, 0, "Always", &ok).unwrap_err(),
        "containers count must not exceed 16"
    );
    assert_eq!(
        check_group_shape(1, 65, 0, "Always", &ok).unwrap_err(),
        "replicas must be between 1 and 64"
    );
    assert_eq!(
        check_group_shape(1, 1, 101, "Always", &ok).unwrap_err(),
        "tags count must not exceed 100"
    );
    assert_eq!(
        check_group_shape(1, 1, 0, "Sometimes", &ok).unwrap_err(),
        "restart_policy must be one of Always, Never, OnFailure"
    );
    let many: Vec<String> = (0..17).map(|i| format!("s{i}")).collect();
    assert_eq!(
        check_group_shape(1, 1, 0, "Never", &many).unwrap_err(),
        "image_pull_secrets count must not exceed 16"
    );
}

#[test]
fn collect_volume_paths_dedupes_and_sorts() {
    let spec = sample_spec_with_mounts(vec![
        ("/data/b", "/mnt/b"),
        ("/data/a", "/mnt/a"),
        ("/data/b", "/mnt/b2"),
    ]);
    assert_eq!(
        collect_volume_paths(&spec),
        vec!["/data/a".to_string(), "/data/b".to_string()]
    );
}

#[test]
fn collect_volume_paths_is_empty_for_a_volumeless_group() {
    let spec = sample_spec_with_mounts(vec![]);
    assert!(collect_volume_paths(&spec).is_empty());
}

#[test]
fn collect_volume_paths_spans_every_container() {
    let mut spec = sample_spec_with_mounts(vec![("/z", "/mnt/z")]);
    spec.containers.push(container("side", vec![("/a", "/mnt/a"), ("/z", "/x")]));
    assert_eq!(collect_volume_paths(&spec), vec!["/a".to_string(), "/z".to_string()]);
    assert_eq!(default_retention_days(), 30);
}
