//! The variable parts of the Kubernetes objects the operator renders for
//! an `InferenceCluster` — object names, the standard labels, resource
//! blocks, the router's service type, the agent's node selector, the KV
//! daemon's SSD volume and memory budget, component images — and the
//! operator's bookkeeping around applying them: API resources, reconcile
//! status, and the etcd endpoints the routing policy is written to.
use vstd::prelude::*;

use crate::spawn::{replace_all, replace_chars};
use crate::text::{
    chars_of, comma_list, decimal, nonblank_trimmed, push_all, push_decimal, push_str, split_on, str_eq,
    string_from_chars, text_views,
};

verus! {

/// CPU / memory / GPU requests of one component.
#[derive(Debug, Clone)]
pub struct Resources {
    pub cpu: Option<String>,
    pub memory: Option<String>,
    pub gpu: Option<u32>,
}

/// `spec.router`.
#[derive(Debug, Clone)]
pub struct RouterSpec {
    pub replicas: i32,
    pub service_type: Option<String>,
    pub resources: Resources,
}

/// `spec.agent`.
#[derive(Debug, Clone)]
pub struct AgentSpec {
    /// Node labels the agent DaemonSet is pinned to; keys are distinct.
    pub node_selector: Vec<(String, String)>,
    pub resources: Resources,
}

/// `spec.kvcached`.
#[derive(Debug, Clone)]
pub struct KvcachedSpec {
    pub ssd_class: Option<String>,
    pub ssd_gib: u32,
    pub ram_gib: u32,
}

/// The parts of an `InferenceCluster` spec the rendered objects read.
#[derive(Debug, Clone)]
pub struct ClusterSpec {
    pub router: RouterSpec,
    pub agent: AgentSpec,
    pub kvcached: KvcachedSpec,
    pub metrics_enabled: bool,
}

/// `<name>-<suffix>`, the name of a component object.
pub open spec fn spec_suffixed(name: Seq<char>, suffix: Seq<char>) -> Seq<char> {
    name + seq!['-'] + suffix
}

/// The name `<name>-<suffix>` of one of the cluster's objects.
pub fn suffixed(name: &str, suffix: &str) -> (s: String)
    ensures
        s@ == spec_suffixed(name@, suffix@),
{
    let mut v: Vec<char> = Vec::new();
    push_str(&mut v, name);
    v.push('-');
    push_str(&mut v, suffix);
    assert(v@ =~= spec_suffixed(name@, suffix@));
    string_from_chars(v.as_slice())
}

/// Views of a list of string pairs.
pub open spec fn pair_views(v: Seq<(String, String)>) -> Seq<(Seq<char>, Seq<char>)> {
    v.map_values(|p: (String, String)| (p.0@, p.1@))
}

/// The standard labels of a component's objects.
pub open spec fn spec_labels(name: Seq<char>, comp: Seq<char>) -> Seq<(Seq<char>, Seq<char>)> {
    seq![
        ("app.kubernetes.io/name"@, "cognitora"@),
        ("app.kubernetes.io/instance"@, name),
        ("app.kubernetes.io/component"@, comp),
        ("app.kubernetes.io/managed-by"@, "cgn-operator"@),
    ]
}

/// The standard labels of component `comp` of cluster `name`.
pub fn labels(name: &str, comp: &str) -> (l: Vec<(String, String)>)
    ensures
        pair_views(l@) == spec_labels(name@, comp@),
{
    let mut l: Vec<(String, String)> = Vec::new();
    l.push((String::from_str("app.kubernetes.io/name"), String::from_str("cognitora")));
    l.push((String::from_str("app.kubernetes.io/instance"), name.to_string()));
    l.push((String::from_str("app.kubernetes.io/component"), comp.to_string()));
    l.push((String::from_str("app.kubernetes.io/managed-by"), String::from_str("cgn-operator")));
    assert(pair_views(l@) =~= spec_labels(name@, comp@));
    l
}

/// A resource quantity: text (`"500m"`, `"8Gi"`) or a device count.
#[derive(Debug, Clone)]
pub enum Quantity {
    Text(String),
    Count(u32),
}

/// Abstract quantity: text or a count.
pub open spec fn quantity_view(q: Quantity) -> Result<Seq<char>, nat> {
    match q {
        Quantity::Text(s) => Ok(s@),
        Quantity::Count(n) => Err(n as nat),
    }
}

/// Views of a list of named quantities.
pub open spec fn quantity_views(v: Seq<(String, Quantity)>) -> Seq<(Seq<char>, Result<Seq<char>, nat>)> {
    v.map_values(|p: (String, Quantity)| (p.0@, quantity_view(p.1)))
}

/// The `requests` and `limits` of a container.
#[derive(Debug, Clone)]
pub struct ResourceBlock {
    pub requests: Vec<(String, Quantity)>,
    pub limits: Vec<(String, Quantity)>,
}

/// `requests`: CPU and memory, when set.
pub open spec fn spec_requests(r: Resources) -> Seq<(Seq<char>, Result<Seq<char>, nat>)> {
    let cpu: Seq<(Seq<char>, Result<Seq<char>, nat>)> = match r.cpu {
        Some(c) => seq![("cpu"@, Ok(c@))],
        None => seq![],
    };
    let mem: Seq<(Seq<char>, Result<Seq<char>, nat>)> = match r.memory {
        Some(m) => seq![("memory"@, Ok(m@))],
        None => seq![],
    };
    cpu + mem
}

/// `limits`: CPU and memory as requested, plus the GPU count.
pub open spec fn spec_limits(r: Resources) -> Seq<(Seq<char>, Result<Seq<char>, nat>)> {
    let gpu: Seq<(Seq<char>, Result<Seq<char>, nat>)> = match r.gpu {
        Some(g) => seq![("nvidia.com/gpu"@, Err(g as nat))],
        None => seq![],
    };
    spec_requests(r) + gpu
}

/// The container resource block of `r`: CPU and memory are both
/// requested and limited; GPUs are only limited.
pub fn resource_block(r: &Resources) -> (b: ResourceBlock)
    ensures
        quantity_views(b.requests@) == spec_requests(*r),
        quantity_views(b.limits@) == spec_limits(*r),
{
    let mut requests: Vec<(String, Quantity)> = Vec::new();
    let mut limits: Vec<(String, Quantity)> = Vec::new();
    if let Some(c) = &r.cpu {
        requests.push((String::from_str("cpu"), Quantity::Text(c.clone())));
        limits.push((String::from_str("cpu"), Quantity::Text(c.clone())));
    }
    if let Some(m) = &r.memory {
        requests.push((String::from_str("memory"), Quantity::Text(m.clone())));
        limits.push((String::from_str("memory"), Quantity::Text(m.clone())));
    }
    if let Some(g) = r.gpu {
        limits.push((String::from_str("nvidia.com/gpu"), Quantity::Count(g)));
    }
    assert(quantity_views(requests@) =~= spec_requests(*r));
    assert(quantity_views(limits@) =~= spec_limits(*r));
    ResourceBlock { requests, limits }
}

/// The router Service type: as configured, `ClusterIP` by default.
pub fn router_service_type(configured: &Option<String>) -> (t: String)
    ensures
        t@ == match configured {
            Some(s) => s@,
            None => "ClusterIP"@,
        },
{
    match configured {
        Some(s) => s.clone(),
        None => String::from_str("ClusterIP"),
    }
}

/// Node label every GPU node carries.
pub open spec fn gpu_present_key() -> Seq<char> {
    "nvidia.com/gpu.present"@
}

/// Whether some pair of `sel` has key `k`.
pub open spec fn has_key(sel: Seq<(Seq<char>, Seq<char>)>, k: Seq<char>) -> bool {
    exists|i: int| 0 <= i < sel.len() && (#[trigger] sel[i]).0 == k
}

/// The agent's node selector: the configured one, with
/// `nvidia.com/gpu.present = "true"` added unless it already has a value.
pub open spec fn spec_agent_node_selector(sel: Seq<(Seq<char>, Seq<char>)>) -> Seq<(Seq<char>, Seq<char>)> {
    if has_key(sel, gpu_present_key()) {
        sel
    } else {
        sel.push((gpu_present_key(), "true"@))
    }
}

/// The agent DaemonSet's node selector.
pub fn agent_node_selector(sel: &Vec<(String, String)>) -> (out: Vec<(String, String)>)
    ensures
        pair_views(out@) == spec_agent_node_selector(pair_views(sel@)),
{
    let key = String::from_str("nvidia.com/gpu.present");
    let mut out: Vec<(String, String)> = Vec::new();
    let mut found = false;
    let mut i: usize = 0;
    while i < sel.len()
        invariant
            i <= sel@.len(),
            key@ == gpu_present_key(),
            pair_views(out@) == pair_views(sel@).take(i as int),
            found <==> exists|j: int| 0 <= j < i && (#[trigger] pair_views(sel@)[j]).0 == gpu_present_key(),
        decreases sel@.len() - i,
    {
        let k = sel[i].0.clone();
        let v = sel[i].1.clone();
        assert(pair_views(sel@)[i as int] == (k@, v@));
        let ghost before = out@;
        let hit = str_eq(k.as_str(), key.as_str());
        proof {
            if !hit {
                assert forall|j: int| 0 <= j < i + 1 && (#[trigger] pair_views(sel@)[j]).0 == gpu_present_key()
                    implies j < i by {}
            }
        }
        if hit {
            found = true;
        }
        out.push((k, v));
        assert(pair_views(out@) =~= pair_views(before).push(pair_views(sel@)[i as int]));
        assert(pair_views(out@) =~= pair_views(sel@).take(i + 1));
        i = i + 1;
    }
    assert(pair_views(sel@).take(sel@.len() as int) =~= pair_views(sel@));
    if !found {
        let ghost before = out@;
        out.push((key, String::from_str("true")));
        assert(pair_views(out@) =~= pair_views(before).push((gpu_present_key(), "true"@)));
    }
    out
}

/// The KV daemon's SSD volume.
#[derive(Debug, Clone)]
pub enum SsdVolume {
    /// A claim `<name>-kv-ssd` of the given storage class.
    Claim { claim_name: String, storage_class: String },
    /// Node-local scratch space capped at `size_limit`.
    EmptyDir { size_limit: String },
}

/// `<n>Gi`.
pub open spec fn gib_text(n: nat) -> Seq<char> {
    decimal(n) + "Gi"@
}

fn gib(n: u64) -> (s: String)
    ensures
        s@ == gib_text(n as nat),
{
    let mut v: Vec<char> = Vec::new();
    push_decimal(&mut v, n);
    push_str(&mut v, "Gi");
    assert(v@ =~= gib_text(n as nat));
    string_from_chars(v.as_slice())
}

/// The SSD volume: a claim of the configured storage class, else an
/// `emptyDir` capped at `ssd_gib`.
pub fn ssd_volume(name: &str, kv: &KvcachedSpec) -> (v: SsdVolume)
    ensures
        match kv.ssd_class {
            Some(c) => v matches SsdVolume::Claim { claim_name, storage_class } && claim_name@ == spec_suffixed(
                name@,
                "kv-ssd"@,
            ) && storage_class@ == c@,
            None => v matches SsdVolume::EmptyDir { size_limit } && size_limit@ == gib_text(kv.ssd_gib as nat),
        },
{
    match &kv.ssd_class {
        Some(c) => SsdVolume::Claim { claim_name: suffixed(name, "kv-ssd"), storage_class: c.clone() },
        None => SsdVolume::EmptyDir { size_limit: gib(kv.ssd_gib as u64) },
    }
}

/// The KV daemon's memory `(limit, request)`: the RAM tier plus 2 GiB of
/// headroom, and the RAM tier itself.
pub fn kvcached_memory(kv: &KvcachedSpec) -> (m: (String, String))
    requires
        kv.ram_gib + 2 <= u32::MAX,
    ensures
        m.0@ == gib_text(kv.ram_gib as nat + 2),
        m.1@ == gib_text(kv.ram_gib as nat),
{
    (gib((kv.ram_gib + 2) as u64), gib(kv.ram_gib as u64))
}

/// Image of a component for a cluster pinned to `tag` (`latest` by
/// default): the registry template with every `{}` replaced by the
/// component's name.
pub open spec fn spec_component_image(tag: Option<Seq<char>>, component: Seq<char>) -> Seq<char> {
    let template = "ghcr.io/antonellof/cognitora-inference/{}:"@ + match tag {
        Some(t) => t,
        None => "latest"@,
    };
    replace_all(template, "{}"@, component)
}

/// The container image of `component`.
pub fn component_image(tag: &Option<String>, component: &str) -> (img: String)
    ensures
        img@ == spec_component_image(
            match tag {
                Some(t) => Some(t@),
                None => None,
            },
            component@,
        ),
{
    let mut t: Vec<char> = Vec::new();
    push_str(&mut t, "ghcr.io/antonellof/cognitora-inference/{}:");
    match tag {
        Some(x) => push_str(&mut t, x.as_str()),
        None => push_str(&mut t, "latest"),
    }
    let pat = chars_of("{}");
    proof {
        reveal_strlit("{}");
    }
    assert(pat@.len() > 0);
    let c = chars_of(component);
    let out = replace_chars(t.as_slice(), pat.as_slice(), c.as_slice());
    string_from_chars(out.as_slice())
}

/// Status of a reconcile round: `Degraded` when any object failed to
/// apply, else `Progressing`, with an `<applied>/<total> applied` note.
pub fn reconcile_status(applied: u32, errored: u32, total: usize) -> (r: (&'static str, String))
    ensures
        r.0@ == if errored > 0 { "Degraded"@ } else { "Progressing"@ },
        r.1@ == decimal(applied as nat) + "/"@ + decimal(total as nat) + " applied"@,
{
    let phase = if errored > 0 { "Degraded" } else { "Progressing" };
    let mut m: Vec<char> = Vec::new();
    push_decimal(&mut m, applied as u64);
    push_str(&mut m, "/");
    push_decimal(&mut m, total as u64);
    push_str(&mut m, " applied");
    (phase, string_from_chars(m.as_slice()))
}

/// `str::to_lowercase`: the Unicode lower-case mapping of a string.
pub uninterp spec fn lowercase_text(s: Seq<char>) -> Seq<char>;

/// std's `str::to_lowercase`. The contract names the result (a function
/// of the text alone); the Unicode case tables are not restated.
#[verifier::external_body]
fn to_lowercase(s: &str) -> (r: String)
    ensures
        r@ == lowercase_text(s@),
{
    s.to_lowercase()
}

/// Where an object of `kind` is served: its API group and version (split
/// from `apiVersion` at the first `/`; the core group when there is none)
/// and the plural resource name.
#[derive(Debug, Clone)]
pub struct ApiResourceName {
    pub group: String,
    pub version: String,
    pub plural: String,
}

/// Index of the first `/` in `s`, if any.
pub open spec fn first_slash(s: Seq<char>) -> Option<int> {
    if exists|i: int| 0 <= i < s.len() && s[i] == '/' {
        Some(choose|i: int| 0 <= i < s.len() && s[i] == '/' && forall|j: int| 0 <= j < i ==> s[j] != '/')
    } else {
        None
    }
}

/// The plural resource name of a kind, given its lower-case form.
pub open spec fn spec_plural(kind: Seq<char>, lower: Seq<char>) -> Seq<char> {
    if kind == "Service"@ {
        "services"@
    } else if kind == "ConfigMap"@ {
        "configmaps"@
    } else if kind == "Secret"@ {
        "secrets"@
    } else if kind == "ServiceAccount"@ {
        "serviceaccounts"@
    } else {
        lower + "s"@
    }
}

/// The plural resource name of `kind`, given `lower`, the kind in lower case.
pub fn plural_of(kind: &str, lower: &str) -> (p: String)
    ensures
        p@ == spec_plural(kind@, lower@),
{
    if str_eq(kind, "Service") {
        String::from_str("services")
    } else if str_eq(kind, "ConfigMap") {
        String::from_str("configmaps")
    } else if str_eq(kind, "Secret") {
        String::from_str("secrets")
    } else if str_eq(kind, "ServiceAccount") {
        String::from_str("serviceaccounts")
    } else {
        let mut v: Vec<char> = Vec::new();
        push_str(&mut v, lower);
        v.push('s');
        assert(v@ =~= lower@ + "s"@) by {
            reveal_strlit("s");
        }
        string_from_chars(v.as_slice())
    }
}

/// The API group, version and plural an object is applied through.
pub fn api_resource(kind: &str, api_version: &str) -> (r: ApiResourceName)
    ensures
        match first_slash(api_version@) {
            Some(k) => r.group@ == api_version@.take(k) && r.version@ == api_version@.skip(k + 1),
            None => r.group@ == Seq::<char>::empty() && r.version@ == api_version@,
        },
        r.plural@ == spec_plural(kind@, lowercase_text(kind@)),
{
    let v = chars_of(api_version);
    let mut i: usize = 0;
    let mut slash: Option<usize> = None;
    while i < v.len()
        invariant
            i <= v@.len(),
            slash is None ==> forall|j: int| 0 <= j < i ==> v@[j] != '/',
            slash matches Some(k) ==> k < v@.len() && v@[k as int] == '/' && forall|j: int| 0 <= j < k ==> v@[j] != '/',
        decreases v@.len() - i,
    {
        if slash.is_none() && v[i] == '/' {
            slash = Some(i);
        }
        i = i + 1;
    }
    let (group, version) = match slash {
        Some(k) => {
            proof {
                let c = choose|c: int| 0 <= c < v@.len() && v@[c] == '/' && forall|j: int| 0 <= j < c ==> v@[j] != '/';
                if c < k {
                    assert(v@[c] != '/');
                }
                if c > k {
                    assert(v@[k as int] != '/');
                }
            }
            let mut g: Vec<char> = Vec::new();
            let mut j: usize = 0;
            while j < k
                invariant
                    j <= k < v@.len(),
                    g@ == v@.take(j as int),
                decreases k - j,
            {
                g.push(v[j]);
                j = j + 1;
                assert(g@ =~= v@.take(j as int));
            }
            let mut w: Vec<char> = Vec::new();
            let mut j: usize = k + 1;
            while j < v.len()
                invariant
                    k < j <= v@.len(),
                    w@ == v@.subrange(k + 1, j as int),
                decreases v@.len() - j,
            {
                w.push(v[j]);
                j = j + 1;
                assert(w@ =~= v@.subrange(k + 1, j as int));
            }
            assert(w@ =~= v@.skip(k + 1));
            (string_from_chars(g.as_slice()), string_from_chars(w.as_slice()))
        },
        None => (String::new(), string_from_chars(v.as_slice())),
    };
    let lower = to_lowercase(kind);
    let plural = plural_of(kind, lower.as_str());
    ApiResourceName { group, version, plural }
}

/// etcd endpoints the routing policy is written to: the comma-separated
/// entries of `COGNITORA_ETCD` (trimmed, blank ones dropped), or the local
/// default when the variable is unset.
pub fn policy_etcd_endpoints(env_value: Option<&str>) -> (out: Vec<String>)
    ensures
        text_views(out@) == nonblank_trimmed(
            split_on(
                match env_value {
                    Some(v) => v@,
                    None => "127.0.0.1:2379"@,
                },
                ',',
            ),
        ),
{
    match env_value {
        Some(v) => comma_list(v),
        None => comma_list("127.0.0.1:2379"),
    }
}

/// An HTTP probe of a container: the path, on the named port, first after
/// `initial_delay_seconds`, then every `period_seconds`.
#[derive(Debug, Clone)]
pub struct Probe {
    pub path: String,
    pub port: String,
    pub initial_delay_seconds: u32,
    pub period_seconds: u32,
}

/// The fixed parts of the router's Deployment and Service: the container
/// arguments, the named container ports, the Service ports (name, port,
/// target port name), the readiness and liveness probes, the read-only
/// mounts (volume, path) and the ConfigMap and Secret mounted.
#[derive(Debug, Clone)]
pub struct RouterLayout {
    pub args: Vec<String>,
    pub container_ports: Vec<(String, u16)>,
    pub service_ports: Vec<(String, u16, String)>,
    pub readiness: Probe,
    pub liveness: Probe,
    pub mounts: Vec<(String, String)>,
    pub config_map: String,
    pub pki_secret: String,
}

fn lit(s: &str) -> (r: String)
    ensures
        r@ == s@,
{
    String::from_str(s)
}

/// The router's fixed layout for the cluster `name`: it reads
/// `/etc/cognitora/cognitora.toml`; serves HTTP on 8080 (Service port 80),
/// gRPC on 7070 and admin on 9091; is ready when `/readyz` answers on the
/// admin port (after 5 s, every 5 s) and alive while `/healthz` does (after
/// 15 s, every 10 s); and mounts the cluster's config map at
/// `/etc/cognitora` and its PKI secret at `/etc/cognitora/pki`.
pub fn router_layout(name: &str) -> (l: RouterLayout)
    ensures
        l.args@.len() == 2,
        l.args@[0]@ == "--config"@,
        l.args@[1]@ == "/etc/cognitora/cognitora.toml"@,
        l.container_ports@.len() == 3,
        l.container_ports@[0].0@ == "http"@ && l.container_ports@[0].1 == 8080,
        l.container_ports@[1].0@ == "grpc"@ && l.container_ports@[1].1 == 7070,
        l.container_ports@[2].0@ == "admin"@ && l.container_ports@[2].1 == 9091,
        l.service_ports@.len() == 3,
        l.service_ports@[0].0@ == "http"@ && l.service_ports@[0].1 == 80 && l.service_ports@[0].2@ == "http"@,
        l.service_ports@[1].0@ == "grpc"@ && l.service_ports@[1].1 == 7070 && l.service_ports@[1].2@ == "grpc"@,
        l.service_ports@[2].0@ == "admin"@ && l.service_ports@[2].1 == 9091 && l.service_ports@[2].2@ == "admin"@,
        l.readiness.path@ == "/readyz"@ && l.readiness.port@ == "admin"@,
        l.readiness.initial_delay_seconds == 5 && l.readiness.period_seconds == 5,
        l.liveness.path@ == "/healthz"@ && l.liveness.port@ == "admin"@,
        l.liveness.initial_delay_seconds == 15 && l.liveness.period_seconds == 10,
        l.mounts@.len() == 2,
        l.mounts@[0].0@ == "config"@ && l.mounts@[0].1@ == "/etc/cognitora"@,
        l.mounts@[1].0@ == "pki"@ && l.mounts@[1].1@ == "/etc/cognitora/pki"@,
        l.config_map@ == spec_suffixed(name@, "config"@),
        l.pki_secret@ == spec_suffixed(name@, "pki"@),
{
    let args = vec![lit("--config"), lit("/etc/cognitora/cognitora.toml")];
    let container_ports = vec![(lit("http"), 8080u16), (lit("grpc"), 7070u16), (lit("admin"), 9091u16)];
    let service_ports = vec![
        (lit("http"), 80u16, lit("http")),
        (lit("grpc"), 7070u16, lit("grpc")),
        (lit("admin"), 9091u16, lit("admin")),
    ];
    let readiness = Probe { path: lit("/readyz"), port: lit("admin"), initial_delay_seconds: 5, period_seconds: 5 };
    let liveness = Probe { path: lit("/healthz"), port: lit("admin"), initial_delay_seconds: 15, period_seconds: 10 };
    let mounts = vec![(lit("config"), lit("/etc/cognitora")), (lit("pki"), lit("/etc/cognitora/pki"))];
    RouterLayout {
        args,
        container_ports,
        service_ports,
        readiness,
        liveness,
        mounts,
        config_map: suffixed(name, "config"),
        pki_secret: suffixed(name, "pki"),
    }
}

/// One container port: its name, number, the host port bound to it, and
/// whether it speaks UDP (TCP otherwise).
#[derive(Debug, Clone)]
pub struct PortSpec {
    pub name: String,
    pub container_port: u16,
    pub host_port: Option<u16>,
    pub udp: bool,
}

/// One volume mount: the volume, where it is mounted, and whether
/// read-only.
#[derive(Debug, Clone)]
pub struct MountSpec {
    pub volume: String,
    pub path: String,
    pub read_only: bool,
}

/// The fixed parts of a component's container: its arguments, ports and
/// volume mounts.
#[derive(Debug, Clone)]
pub struct ComponentLayout {
    pub args: Vec<String>,
    pub ports: Vec<PortSpec>,
    pub mounts: Vec<MountSpec>,
}

/// `p` is the port `name` on `number`, bound to `host`, over UDP when `udp`.
pub open spec fn port_is(p: PortSpec, name: Seq<char>, number: u16, host: Option<u16>, udp: bool) -> bool {
    p.name@ == name && p.container_port == number && p.host_port == host && p.udp == udp
}

/// `m` mounts `volume` at `path`, read-only when `read_only`.
pub open spec fn mount_is(m: MountSpec, volume: Seq<char>, path: Seq<char>, read_only: bool) -> bool {
    m.volume@ == volume && m.path@ == path && m.read_only == read_only
}

/// Every component reads the cluster's configuration file.
pub open spec fn config_args(args: Seq<String>) -> bool {
    args.len() == 2 && args[0]@ == "--config"@ && args[1]@ == "/etc/cognitora/cognitora.toml"@
}

fn port(name: &str, number: u16, host: Option<u16>, udp: bool) -> (p: PortSpec)
    ensures
        port_is(p, name@, number, host, udp),
{
    PortSpec { name: lit(name), container_port: number, host_port: host, udp }
}

fn mount(volume: &str, path: &str, read_only: bool) -> (m: MountSpec)
    ensures
        mount_is(m, volume@, path@, read_only),
{
    MountSpec { volume: lit(volume), path: lit(path), read_only }
}

fn config_arg_list() -> (a: Vec<String>)
    ensures
        config_args(a@),
{
    vec![lit("--config"), lit("/etc/cognitora/cognitora.toml")]
}

/// The agent's container: gRPC on 7071, bound to the host's 7071 too, and
/// admin on 9091; the config and PKI mounted read-only, and the KV socket
/// directory at `/run/cognitora`.
pub fn agent_layout() -> (l: ComponentLayout)
    ensures
        config_args(l.args@),
        l.ports@.len() == 2,
        port_is(l.ports@[0], "grpc"@, 7071, Some(7071u16), false),
        port_is(l.ports@[1], "admin"@, 9091, None, false),
        l.mounts@.len() == 3,
        mount_is(l.mounts@[0], "config"@, "/etc/cognitora"@, true),
        mount_is(l.mounts@[1], "pki"@, "/etc/cognitora/pki"@, true),
        mount_is(l.mounts@[2], "kv-sock"@, "/run/cognitora"@, false),
{
    ComponentLayout {
        args: config_arg_list(),
        ports: vec![port("grpc", 7071, Some(7071), false), port("admin", 9091, None, false)],
        mounts: vec![
            mount("config", "/etc/cognitora", true),
            mount("pki", "/etc/cognitora/pki", true),
            mount("kv-sock", "/run/cognitora", false),
        ],
    }
}

/// The KV daemon's container: gRPC on 7072, QUIC on UDP 7073 and admin on
/// 9091; the config and PKI mounted read-only, the SSD tier at
/// `/var/lib/cognitora/kv/ssd` and the KV socket directory at
/// `/run/cognitora`.
pub fn kvcached_layout() -> (l: ComponentLayout)
    ensures
        config_args(l.args@),
        l.ports@.len() == 3,
        port_is(l.ports@[0], "grpc"@, 7072, None, false),
        port_is(l.ports@[1], "quic"@, 7073, None, true),
        port_is(l.ports@[2], "admin"@, 9091, None, false),
        l.mounts@.len() == 4,
        mount_is(l.mounts@[0], "config"@, "/etc/cognitora"@, true),
        mount_is(l.mounts@[1], "pki"@, "/etc/cognitora/pki"@, true),
        mount_is(l.mounts@[2], "ssd"@, "/var/lib/cognitora/kv/ssd"@, false),
        mount_is(l.mounts@[3], "kv-sock"@, "/run/cognitora"@, false),
{
    ComponentLayout {
        args: config_arg_list(),
        ports: vec![port("grpc", 7072, None, false), port("quic", 7073, None, true), port("admin", 9091, None, false)],
        mounts: vec![
            mount("config", "/etc/cognitora", true),
            mount("pki", "/etc/cognitora/pki", true),
            mount("ssd", "/var/lib/cognitora/kv/ssd", false),
            mount("kv-sock", "/run/cognitora", false),
        ],
    }
}

/// The metrics container: its endpoint on 9092, and the config mounted
/// read-only.
pub fn metrics_layout() -> (l: ComponentLayout)
    ensures
        config_args(l.args@),
        l.ports@.len() == 1,
        port_is(l.ports@[0], "metrics"@, 9092, None, false),
        l.mounts@.len() == 1,
        mount_is(l.mounts@[0], "config"@, "/etc/cognitora"@, true),
{
    ComponentLayout {
        args: config_arg_list(),
        ports: vec![port("metrics", 9092, None, false)],
        mounts: vec![mount("config", "/etc/cognitora", true)],
    }
}

} // verus!
