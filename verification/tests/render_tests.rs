use cognitora::render::policy_etcd_endpoints;
use cognitora::render::{agent_layout, kvcached_layout, metrics_layout, ComponentLayout};
use cognitora::render::{api_resource, component_image, plural_of, reconcile_status};
use cognitora::render::{
    agent_node_selector, kvcached_memory, labels, resource_block, router_service_type, ssd_volume,
    suffixed, KvcachedSpec, Quantity, Resources, SsdVolume,
};

fn pairs(v: &[(String, String)]) -> Vec<(&str, &str)> {
    v.iter().map(|(a, b)| (a.as_str(), b.as_str())).collect()
}

#[test]
fn object_names_and_labels() {
    assert_eq!(suffixed("prod", "router"), "prod-router");
    assert_eq!(
        pairs(&labels("prod", "agent")),
        vec![
            ("app.kubernetes.io/name", "cognitora"),
            ("app.kubernetes.io/instance", "prod"),
            ("app.kubernetes.io/component", "agent"),
            ("app.kubernetes.io/managed-by", "cgn-operator"),
        ]
    );
}

fn names(v: &[(String, Quantity)]) -> Vec<&str> {
    v.iter().map(|(n, _)| n.as_str()).collect()
}

#[test]
fn resource_block_requests_cpu_memory_and_limits_gpus() {
    let b = resource_block(&Resources { cpu: Some("2".into()), memory: Some("8Gi".into()), gpu: Some(1) });
    assert_eq!(names(&b.requests), vec!["cpu", "memory"]);
    assert_eq!(names(&b.limits), vec!["cpu", "memory", "nvidia.com/gpu"]);
    assert!(matches!(&b.limits[2].1, Quantity::Count(1)));
    assert!(matches!(&b.requests[1].1, Quantity::Text(m) if m == "8Gi"));
    let empty = resource_block(&Resources { cpu: None, memory: None, gpu: None });
    assert!(empty.requests.is_empty() && empty.limits.is_empty());
}

#[test]
fn router_service_defaults_to_cluster_ip() {
    assert_eq!(router_service_type(&None), "ClusterIP");
    assert_eq!(router_service_type(&Some("LoadBalancer".into())), "LoadBalancer");
}

#[test]
fn agent_selector_requires_gpu_nodes_unless_overridden() {
    let out = agent_node_selector(&vec![("zone".to_string(), "a".to_string())]);
    assert_eq!(pairs(&out), vec![("zone", "a"), ("nvidia.com/gpu.present", "true")]);
    let kept = agent_node_selector(&vec![("nvidia.com/gpu.present".to_string(), "false".to_string())]);
    assert_eq!(pairs(&kept), vec![("nvidia.com/gpu.present", "false")]);
}

#[test]
fn kvcached_volume_and_memory() {
    let spec = KvcachedSpec { ssd_class: None, ssd_gib: 200, ram_gib: 16 };
    assert!(matches!(ssd_volume("prod", &spec), SsdVolume::EmptyDir { size_limit } if size_limit == "200Gi"));
    let with_class = KvcachedSpec { ssd_class: Some("fast-nvme".into()), ..spec.clone() };
    match ssd_volume("prod", &with_class) {
        SsdVolume::Claim { claim_name, storage_class } => {
            assert_eq!(claim_name, "prod-kv-ssd");
            assert_eq!(storage_class, "fast-nvme");
        }
        other => panic!("unexpected {other:?}"),
    }
    assert_eq!(kvcached_memory(&spec), ("18Gi".to_string(), "16Gi".to_string()));
}

#[test]
fn component_images_follow_the_tag() {
    assert_eq!(component_image(&None, "cgn-router"), "ghcr.io/antonellof/cognitora-inference/cgn-router:latest");
    assert_eq!(
        component_image(&Some("v0.7.0".into()), "cgn-agent"),
        "ghcr.io/antonellof/cognitora-inference/cgn-agent:v0.7.0"
    );
    // Every `{}` is substituted, the tag's too.
    assert_eq!(component_image(&Some("x{}".into()), "m"), "ghcr.io/antonellof/cognitora-inference/m:xm");
}

#[test]
fn reconcile_status_reports_progress() {
    let (phase, msg) = reconcile_status(4, 0, 4);
    assert_eq!((phase, msg.as_str()), ("Progressing", "4/4 applied"));
    let (phase, msg) = reconcile_status(3, 1, 4);
    assert_eq!((phase, msg.as_str()), ("Degraded", "3/4 applied"));
}

#[test]
fn api_resources_of_rendered_kinds() {
    let d = api_resource("Deployment", "apps/v1");
    assert_eq!((d.group.as_str(), d.version.as_str(), d.plural.as_str()), ("apps", "v1", "deployments"));
    let ds = api_resource("DaemonSet", "apps/v1");
    assert_eq!(ds.plural, "daemonsets");
    let svc = api_resource("Service", "v1");
    assert_eq!((svc.group.as_str(), svc.version.as_str(), svc.plural.as_str()), ("", "v1", "services"));
    assert_eq!(api_resource("ConfigMap", "v1").plural, "configmaps");
    assert_eq!(api_resource("ServiceAccount", "v1").plural, "serviceaccounts");
    assert_eq!(api_resource("Secret", "v1").plural, "secrets");
    assert_eq!(api_resource("Ingress", "networking.k8s.io/v1").group, "networking.k8s.io");
    assert_eq!(plural_of("Widget", "widget"), "widgets");
}

#[test]
fn policy_endpoints_from_the_environment() {
    assert_eq!(policy_etcd_endpoints(None), vec!["127.0.0.1:2379".to_string()]);
    assert_eq!(
        policy_etcd_endpoints(Some(" etcd-0:2379, ,etcd-1:2379 ,")),
        vec!["etcd-0:2379".to_string(), "etcd-1:2379".to_string()]
    );
    assert!(policy_etcd_endpoints(Some("")).is_empty());
}

#[test]
fn router_layout_is_fixed() {
    let l = cognitora::render::router_layout("prod");
    assert_eq!(l.args, vec!["--config".to_string(), "/etc/cognitora/cognitora.toml".to_string()]);
    assert_eq!(l.container_ports, vec![("http".to_string(), 8080), ("grpc".to_string(), 7070), ("admin".to_string(), 9091)]);
    assert_eq!(l.service_ports[0], ("http".to_string(), 80, "http".to_string()));
    assert_eq!((l.readiness.path.as_str(), l.readiness.initial_delay_seconds), ("/readyz", 5));
    assert_eq!((l.liveness.path.as_str(), l.liveness.period_seconds), ("/healthz", 10));
    assert_eq!(l.config_map, "prod-config");
    assert_eq!(l.pki_secret, "prod-pki");
}

fn layout_ports(l: &ComponentLayout) -> Vec<(&str, u16, Option<u16>, bool)> {
    l.ports.iter().map(|p| (p.name.as_str(), p.container_port, p.host_port, p.udp)).collect()
}

fn layout_mounts(l: &ComponentLayout) -> Vec<(&str, &str, bool)> {
    l.mounts.iter().map(|m| (m.volume.as_str(), m.path.as_str(), m.read_only)).collect()
}

#[test]
fn component_layouts_are_fixed() {
    let a = agent_layout();
    assert_eq!(a.args, vec!["--config", "/etc/cognitora/cognitora.toml"]);
    assert_eq!(layout_ports(&a), vec![("grpc", 7071, Some(7071), false), ("admin", 9091, None, false)]);
    assert_eq!(
        layout_mounts(&a),
        vec![("config", "/etc/cognitora", true), ("pki", "/etc/cognitora/pki", true), ("kv-sock", "/run/cognitora", false)]
    );
    let k = kvcached_layout();
    assert_eq!(k.args, vec!["--config", "/etc/cognitora/cognitora.toml"]);
    assert_eq!(
        layout_ports(&k),
        vec![("grpc", 7072, None, false), ("quic", 7073, None, true), ("admin", 9091, None, false)]
    );
    assert_eq!(layout_mounts(&k)[2], ("ssd", "/var/lib/cognitora/kv/ssd", false));
    assert_eq!(layout_mounts(&k).len(), 4);
    let m = metrics_layout();
    assert_eq!(layout_ports(&m), vec![("metrics", 9092, None, false)]);
    assert_eq!(layout_mounts(&m), vec![("config", "/etc/cognitora", true)]);
}
