//! Workload graphs: nodes that run as the services of a compose stack, and
//! references from one workload to another.
use vstd::prelude::*;
use crate::backend::{lit, BackendCall, BackendReply, ContainerBackend};
use crate::compose::ComposeEngine;
use crate::session::up_outcome;
use crate::env::entries_map;
use crate::error::ComposeError;
use crate::order::{
    first_undefined, order_view, resolve_startup_order, service_deps, startup_order_result,
    undefined_dep_message,
};
use crate::text::{chars_of, string_from_chars, sub_chars, trim, trim_bounds};
use crate::types::{
    lemma_inserted, lemma_key_index, lookup_entry, opt_view, views, copy_strings, ComposeService,
    ComposeSpec, ContainerInfo, ContainerSpec, DependsOnSpec, Described, IsolationLevel, ListOrDict, OrderedMap, PortSpec,
    YamlKind, YamlValue,
};

verus! {

// ============ YAML strings ============

/// What `serde_yaml::to_string` writes for the YAML string `s`.
pub uninterp spec fn yaml_string_text(s: Seq<char>) -> Seq<char>;

/// What `format!("{:?}", v)` gives for the YAML string value `s`.
pub uninterp spec fn yaml_string_debug(s: Seq<char>) -> Seq<char>;

/// The YAML form of the string `s` (`serde_yaml::to_string` on a string
/// value); named by `yaml_string_text`.
#[verifier::external_body]
fn yaml_text_of_string(s: &String) -> (r: String)
    ensures
        r@ == yaml_string_text(s@),
{
    serde_yaml::to_string(&serde_yaml::Value::String(s.clone())).unwrap_or_default()
}

/// The `{:?}` form of the YAML string value `s` (serde_yaml's `Debug`);
/// named by `yaml_string_debug`.
#[verifier::external_body]
fn yaml_debug_of_string(s: &String) -> (r: String)
    ensures
        r@ == yaml_string_debug(s@),
{
    format!("{:?}", serde_yaml::Value::String(s.clone()))
}

/// `y` is the YAML string `s`.
pub open spec fn is_string_value(s: Seq<char>, y: YamlValue) -> bool {
    &&& y.kind matches YamlKind::String(t) && t@ == s
    &&& y.text@ == trim(yaml_string_text(s))
    &&& y.debug@ == yaml_string_debug(s)
}

/// The YAML string `s`.
pub fn string_value(s: &String) -> (r: YamlValue)
    ensures
        is_string_value(s@, r),
{
    let text = yaml_text_of_string(s);
    let chars = chars_of(text.as_str());
    let (a, b) = trim_bounds(&chars, 0, chars.len());
    assert(chars@.subrange(0, chars.len() as int) =~= chars@);
    let trimmed = string_from_chars(sub_chars(&chars, a, b));
    YamlValue { kind: YamlKind::String(s.clone()), text: trimmed, debug: yaml_debug_of_string(s) }
}

// ============ Workload graphs ============

/// One workload of a graph.
pub struct WorkloadNode {
    pub id: String,
    pub name: String,
    pub image: Option<String>,
    pub ports: Option<Vec<String>>,
    /// Environment variables, in the order given (a later binding of a
    /// name wins).
    pub env: Option<Vec<(String, String)>>,
    pub depends_on: Option<Vec<String>>,
}

/// A named graph of workloads, keyed by id.
pub struct WorkloadGraph {
    pub name: String,
    pub nodes: OrderedMap<WorkloadNode>,
}

/// `d` is the short port `p`, with its `{:?}` form.
pub open spec fn is_short_port(p: Seq<char>, d: Described<PortSpec>) -> bool {
    &&& d.value matches PortSpec::Short(y) && is_string_value(p, y)
        && d.debug@ == "Short("@ + y.debug@ + ")"@
}

/// `m` holds each variable of `env` (a later binding winning) as a YAML
/// string, and nothing else.
pub open spec fn env_dict_of(env: Seq<(String, String)>, m: OrderedMap<Option<YamlValue>>) -> bool {
    &&& m.wf()
    &&& forall|k: Seq<char>|
        match #[trigger] lookup_entry(m.entries@, k) {
            Some(Some(y)) => entries_map(env).contains_key(k) && is_string_value(
                entries_map(env)[k],
                y,
            ),
            Some(None) => false,
            None => !entries_map(env).contains_key(k),
        }
}

/// The service that node `n` runs as: its image, its ports as short
/// ports, its environment as a dict of strings, its dependencies as a
/// list, and nothing else.
pub open spec fn node_service(n: WorkloadNode, s: ComposeService) -> bool {
    &&& opt_view(s.image) == opt_view(n.image)
    &&& s.command is None
    &&& s.volumes is None
    &&& s.networks is None
    &&& s.container_name is None
    &&& s.read_only is None
    &&& s.other@.len() == 0
    &&& match (n.ports, s.ports) {
        (Some(p), Some(q)) => q.len() == p.len() && forall|i: int|
            0 <= i < p.len() ==> is_short_port(p@[i]@, #[trigger] q@[i]),
        (None, None) => true,
        _ => false,
    }
    &&& match (n.env, s.environment) {
        (Some(e), Some(ListOrDict::Dict(m))) => env_dict_of(e@, m),
        (None, None) => true,
        _ => false,
    }
    &&& match (n.depends_on, s.depends_on) {
        (Some(d), Some(DependsOnSpec::List(l))) => views(l@) == views(d@),
        (None, None) => true,
        _ => false,
    }
}

fn short_ports(ports: &Vec<String>) -> (r: Vec<Described<PortSpec>>)
    ensures
        r.len() == ports.len(),
        forall|i: int| 0 <= i < ports.len() ==> is_short_port(ports@[i]@, #[trigger] r@[i]),
{
    let mut out: Vec<Described<PortSpec>> = Vec::new();
    let mut i: usize = 0;
    while i < ports.len()
        invariant
            i <= ports.len(),
            out.len() == i,
            forall|j: int| 0 <= j < i ==> is_short_port(ports@[j]@, #[trigger] out@[j]),
        decreases ports.len() - i,
    {
        let y = string_value(&ports[i]);
        let mut debug = lit("Short(");
        debug.append(y.debug.as_str());
        debug.append(")");
        proof {
            reveal_strlit("Short(");
            reveal_strlit(")");
        }
        out.push(Described { value: PortSpec::Short(y), debug });
        i = i + 1;
    }
    out
}

fn env_dict(env: &Vec<(String, String)>) -> (r: OrderedMap<Option<YamlValue>>)
    ensures
        env_dict_of(env@, r),
{
    let mut m: OrderedMap<Option<YamlValue>> = OrderedMap::new();
    let mut i: usize = 0;
    while i < env.len()
        invariant
            i <= env.len(),
            m.wf(),
            forall|k: Seq<char>|
                match #[trigger] lookup_entry(m.entries@, k) {
                    Some(Some(y)) => entries_map(env@.take(i as int)).contains_key(k) && is_string_value(
                        entries_map(env@.take(i as int))[k],
                        y,
                    ),
                    Some(None) => false,
                    None => !entries_map(env@.take(i as int)).contains_key(k),
                },
        decreases env.len() - i,
    {
        let y = string_value(&env[i].1);
        let ghost pre = m.entries@;
        let key = env[i].0.clone();
        proof {
            lemma_inserted(pre, key, Some(y));
            assert(env@.take(i + 1).drop_last() =~= env@.take(i as int));
            assert(env@.take(i + 1).last() == env@[i as int]);
        }
        m.insert(key, Some(y));
        proof {
            let k0 = env@[i as int].0@;
            let e0 = entries_map(env@.take(i as int));
            let e1 = entries_map(env@.take(i + 1));
            assert(e1 == e0.insert(k0, env@[i as int].1@));
            assert forall|k: Seq<char>|
                match #[trigger] lookup_entry(m.entries@, k) {
                    Some(Some(y)) => e1.contains_key(k) && is_string_value(e1[k], y),
                    Some(None) => false,
                    None => !e1.contains_key(k),
                } by {
                if k != k0 {
                    assert(lookup_entry(m.entries@, k) == lookup_entry(pre, k));
                }
            }
        }
        i = i + 1;
    }
    assert(env@.take(i as int) =~= env@);
    m
}

impl WorkloadNode {
    /// The service that this node runs as.
    pub fn to_service(&self) -> (r: ComposeService)
        ensures
            node_service(*self, r),
    {
        ComposeService {
            image: match &self.image {
                Some(i) => Some(i.clone()),
                None => None,
            },
            command: None,
            environment: match &self.env {
                Some(e) => Some(ListOrDict::Dict(env_dict(e))),
                None => None,
            },
            ports: match &self.ports {
                Some(p) => Some(short_ports(p)),
                None => None,
            },
            volumes: None,
            networks: None,
            depends_on: match &self.depends_on {
                Some(d) => Some(DependsOnSpec::List(copy_strings(d))),
                None => None,
            },
            container_name: None,
            read_only: None,
            other: Vec::new(),
        }
    }
}

/// `spec` is the compose document that graph `g` runs as: named after the
/// graph, with one service per node under the node's id, in order.
pub open spec fn graph_spec(g: WorkloadGraph, spec: ComposeSpec) -> bool {
    &&& spec.wf()
    &&& opt_view(spec.name) == Some(g.name@)
    &&& spec.version is None
    &&& spec.networks is None
    &&& spec.volumes is None
    &&& spec.secrets is None
    &&& spec.configs is None
    &&& spec.imports is None
    &&& spec.models is None
    &&& spec.extensions.entries@.len() == 0
    &&& spec.services.entries@.len() == g.nodes.entries@.len()
    &&& forall|i: int|
        0 <= i < g.nodes.entries@.len() ==> (#[trigger] spec.services.entries@[i]).0@
            == g.nodes.entries@[i].0@ && node_service(g.nodes.entries@[i].1, spec.services.entries@[i].1)
}

impl WorkloadGraph {
    /// The compose document that this graph runs as.
    pub fn to_compose_spec(&self) -> (r: ComposeSpec)
        requires
            self.nodes.wf(),
        ensures
            graph_spec(*self, r),
    {
        let mut services: OrderedMap<ComposeService> = OrderedMap::new();
        let mut i: usize = 0;
        while i < self.nodes.entries.len()
            invariant
                i <= self.nodes.entries.len(),
                services.wf(),
                services.entries.len() == i,
                self.nodes.wf(),
                forall|j: int|
                    0 <= j < i ==> (#[trigger] services.entries@[j]).0@ == self.nodes.entries@[j].0@
                        && node_service(self.nodes.entries@[j].1, services.entries@[j].1),
            decreases self.nodes.entries.len() - i,
        {
            let svc = self.nodes.entries[i].1.to_service();
            let key = self.nodes.entries[i].0.clone();
            proof {
                lemma_key_index(services.entries@, key@);
                assert forall|j: int| 0 <= j < services.entries@.len() implies services.entries@[j].0@
                    != key@ by {
                    assert(self.nodes.entries@[j].0@ != self.nodes.entries@[i as int].0@);
                }
            }
            services.insert(key, svc);
            i = i + 1;
        }
        ComposeSpec {
            name: Some(self.name.clone()),
            version: None,
            services,
            networks: None,
            volumes: None,
            secrets: None,
            configs: None,
            imports: None,
            models: None,
            extensions: OrderedMap::new(),
        }
    }
}

/// Runs workload graphs on a backend.
pub struct WorkloadGraphEngine<B: ContainerBackend> {
    pub backend: B,
}

/// Stop then force-remove each node's container, in node order.
pub open spec fn node_teardown(ids: Seq<Seq<char>>) -> Seq<BackendCall>
    decreases ids.len(),
{
    if ids.len() == 0 {
        Seq::empty()
    } else {
        node_teardown(ids.drop_last()) + seq![
            BackendCall::Stop(ids.last(), None),
            BackendCall::Remove(ids.last(), true),
        ]
    }
}

/// Inspect each node's container, in node order.
pub open spec fn node_inspections(ids: Seq<Seq<char>>) -> Seq<BackendCall> {
    ids.map_values(|id: Seq<char>| BackendCall::Inspect(id))
}

impl<B: ContainerBackend> WorkloadGraphEngine<B> {
    /// An engine that runs graphs on `backend`.
    pub fn new(backend: B) -> (r: Self)
        ensures
            r.backend == backend,
    {
        WorkloadGraphEngine { backend }
    }

    /// Brings the graph up as a compose stack (see [`ComposeEngine::up`]).
    pub fn run_graph(&mut self, graph: &WorkloadGraph) -> (r: Result<(), ComposeError>)
        requires
            graph.nodes.wf(),
        ensures
            exists|spec: ComposeSpec|
                #[trigger] graph_spec(*graph, spec) && match r {
                    Ok(()) => exists|order: Seq<Seq<char>>|
                        #[trigger] up_outcome(
                            spec,
                            Ok(order),
                            old(self).backend.calls(),
                            final(self).backend.calls(),
                            old(self).backend.replies(),
                            final(self).backend.replies(),
                        ),
                    Err(e) => up_outcome(
                        spec,
                        Err(e),
                        old(self).backend.calls(),
                        final(self).backend.calls(),
                        old(self).backend.replies(),
                        final(self).backend.replies(),
                    ),
                },
    {
        let spec = graph.to_compose_spec();
        let engine = ComposeEngine::new(spec);
        match engine.up(&mut self.backend) {
            Ok(h) => {
                assert(up_outcome(
                    engine.spec,
                    Ok(views(h.services@)),
                    old(self).backend.calls(),
                    self.backend.calls(),
                    old(self).backend.replies(),
                    self.backend.replies(),
                ));
                Ok(())
            },
            Err(e) => Err(e),
        }
    }

    /// Takes a graph down: stops and force-removes each node's container,
    /// in node order, whatever each call gives.
    pub fn down_graph(&mut self, graph: &WorkloadGraph)
        ensures
            final(self).backend.calls() == old(self).backend.calls() + node_teardown(graph.nodes.keys()),
    {
        let ghost c0 = self.backend.calls();
        let ghost ids = graph.nodes.keys();
        let mut i: usize = 0;
        while i < graph.nodes.entries.len()
            invariant
                i <= graph.nodes.entries.len(),
                ids == graph.nodes.keys(),
                self.backend.calls() == c0 + node_teardown(ids.take(i as int)),
            decreases graph.nodes.entries.len() - i,
        {
            let id = &graph.nodes.entries[i].0;
            let _ = self.backend.stop(id.as_str(), None);
            let _ = self.backend.remove(id.as_str(), true);
            proof {
                let t = ids.take(i + 1);
                assert(t.drop_last() =~= ids.take(i as int));
                assert(t.last() == id@);
                assert(self.backend.calls() =~= c0 + node_teardown(t));
            }
            i = i + 1;
        }
        assert(ids.take(i as int) =~= ids);
    }

    /// The status of each node's container, by node id in node order: its
    /// status when it can be inspected, `unknown` otherwise.
    pub fn graph_status(&mut self, graph: &WorkloadGraph) -> (r: Vec<(String, String)>)
        ensures
            final(self).backend.calls() == old(self).backend.calls() + node_inspections(graph.nodes.keys()),
            r@.map_values(|e: (String, String)| e.0@) == graph.nodes.keys(),
            final(self).backend.replies().len() == old(self).backend.replies().len() + r@.len(),
            final(self).backend.replies().take(old(self).backend.replies().len() as int) == old(
                self,
            ).backend.replies(),
            forall|i: int|
                0 <= i < r@.len() ==> (#[trigger] r@[i]).1@ == match final(self).backend.replies()[old(
                    self,
                ).backend.replies().len() + i] {
                    BackendReply::Container(Ok(info)) => info.status@,
                    _ => "unknown"@,
                },
    {
        let ghost c0 = self.backend.calls();
        let ghost r0 = self.backend.replies();
        let ghost ids = graph.nodes.keys();
        let mut out: Vec<(String, String)> = Vec::new();
        let mut i: usize = 0;
        assert(self.backend.replies().take(r0.len() as int) =~= r0);
        while i < graph.nodes.entries.len()
            invariant
                i <= graph.nodes.entries.len(),
                ids == graph.nodes.keys(),
                self.backend.calls() == c0 + node_inspections(ids.take(i as int)),
                out@.map_values(|e: (String, String)| e.0@) == ids.take(i as int),
                r0 == old(self).backend.replies(),
                self.backend.replies().len() == r0.len() + i,
                self.backend.replies().take(r0.len() as int) == r0,
                out@.len() == i,
                forall|j: int|
                    0 <= j < i ==> (#[trigger] out@[j]).1@ == match self.backend.replies()[r0.len() + j] {
                        BackendReply::Container(Ok(info)) => info.status@,
                        _ => "unknown"@,
                    },
            decreases graph.nodes.entries.len() - i,
        {
            let id = &graph.nodes.entries[i].0;
            let ghost rb = self.backend.replies();
            let seen = self.backend.inspect(id.as_str());
            proof {
                reveal_strlit("unknown");
                assert(self.backend.replies() == rb.push(BackendReply::Container(seen)));
                assert(self.backend.replies().take(r0.len() as int) =~= rb.take(r0.len() as int));
            }
            let status = match seen {
                Ok(info) => info.status,
                Err(_) => lit("unknown"),
            };
            let ghost pre = out@;
            out.push((id.clone(), status));
            proof {
                assert forall|j: int| 0 <= j < i + 1 implies (#[trigger] out@[j]).1@ == match self.backend.replies()[r0.len()
                    + j] {
                    BackendReply::Container(Ok(info)) => info.status@,
                    _ => "unknown"@,
                } by {
                    if j < i {
                        assert(out@[j] == pre[j]);
                        assert(self.backend.replies()[r0.len() + j] == rb[r0.len() + j]);
                    }
                }
                let t = ids.take(i + 1);
                assert(t =~= ids.take(i as int).push(id@));
                assert(node_inspections(t) =~= node_inspections(ids.take(i as int)).push(BackendCall::Inspect(id@)));
                assert(out@.map_values(|e: (String, String)| e.0@) =~= pre.map_values(|e: (String, String)| e.0@).push(id@));
            }
            i = i + 1;
        }
        assert(ids.take(i as int) =~= ids);
        out
    }

    /// The containers of the graph's nodes that can be inspected, in node
    /// order.
    pub fn graph_ps(&mut self, graph: &WorkloadGraph) -> (r: Vec<ContainerInfo>)
        ensures
            final(self).backend.calls() == old(self).backend.calls() + node_inspections(graph.nodes.keys()),
            r.len() <= graph.nodes.entries.len(),
    {
        let ghost c0 = self.backend.calls();
        let ghost ids = graph.nodes.keys();
        let mut out: Vec<ContainerInfo> = Vec::new();
        let mut i: usize = 0;
        while i < graph.nodes.entries.len()
            invariant
                i <= graph.nodes.entries.len(),
                ids == graph.nodes.keys(),
                self.backend.calls() == c0 + node_inspections(ids.take(i as int)),
                out.len() <= i,
            decreases graph.nodes.entries.len() - i,
        {
            let id = &graph.nodes.entries[i].0;
            match self.backend.inspect(id.as_str()) {
                Ok(info) => out.push(info),
                Err(_) => {},
            }
            proof {
                let t = ids.take(i + 1);
                assert(t =~= ids.take(i as int).push(id@));
                assert(node_inspections(t) =~= node_inspections(ids.take(i as int)).push(BackendCall::Inspect(id@)));
            }
            i = i + 1;
        }
        assert(ids.take(i as int) =~= ids);
        out
    }
}

// ============ Start order of a graph ============

/// The dependencies of each node, in node order.
pub open spec fn node_deps(g: WorkloadGraph) -> Seq<Seq<Seq<char>>> {
    g.nodes.entries@.map_values(
        |e: (String, WorkloadNode)|
            match e.1.depends_on {
                Some(d) => views(d@),
                None => Seq::empty(),
            },
    )
}

/// The message for a dependency on a node that is not in the graph.
pub open spec fn missing_node_dep_message(id: Seq<char>, dep: Seq<char>) -> Seq<char> {
    "Node "@ + id + " depends on "@ + dep + " which is not in graph"@
}

/// What ordering a graph gives: as for the services of a compose document
/// (see [`startup_order_result`]), with a dependency on a missing node
/// reported as such.
pub open spec fn graph_order_result(
    names: Seq<Seq<char>>,
    deps: Seq<Seq<Seq<char>>>,
    r: Result<Seq<Seq<char>>, ComposeError>,
) -> bool {
    match r {
        Err(ComposeError::ValidationError { message }) => exists|i: int, k: int|
            #![trigger first_undefined(names, deps, i, k)]
            first_undefined(names, deps, i, k) && message@ == missing_node_dep_message(names[i], deps[i][k]),
        _ => startup_order_result(names, deps, r),
    }
}

impl WorkloadGraph {
    /// The order in which the nodes start: dependencies first, and among
    /// the nodes ready to start, the one with the smallest id. A
    /// dependency on a node that is not in the graph is a validation
    /// error; nodes that can never start are reported as a cycle.
    pub fn resolve_order(&self) -> (r: Result<Vec<String>, ComposeError>)
        requires
            self.nodes.wf(),
        ensures
            graph_order_result(self.nodes.keys(), node_deps(*self), order_view(r)),
    {
        let spec = self.to_compose_spec();
        let ghost names = self.nodes.keys();
        let ghost deps = node_deps(*self);
        proof {
            assert(spec.services.keys() =~= names) by {
                assert forall|i: int| 0 <= i < names.len() implies spec.services.keys()[i] == names[i] by {
                    assert(spec.services.entries@[i].0@ == self.nodes.entries@[i].0@);
                }
            }
            assert(service_deps(spec) =~= deps) by {
                assert forall|i: int| 0 <= i < deps.len() implies service_deps(spec)[i] == deps[i] by {
                    assert(node_service(self.nodes.entries@[i].1, spec.services.entries@[i].1));
                }
            }
        }
        // the first dependency on a missing node
        let n = self.nodes.entries.len();
        let mut i: usize = 0;
        while i < n
            invariant
                i <= n,
                n == self.nodes.entries.len(),
                self.nodes.wf(),
                names == self.nodes.keys(),
                deps == node_deps(*self),
                forall|i2: int, k2: int|
                    0 <= i2 < i && 0 <= k2 < deps[i2].len() ==> names.contains(#[trigger] deps[i2][k2]),
            decreases n - i,
        {
            match &self.nodes.entries[i].1.depends_on {
                Some(d) => {
                    let mut k: usize = 0;
                    while k < d.len()
                        invariant
                            k <= d.len(),
                            i < n,
                            n == self.nodes.entries.len(),
                            self.nodes.wf(),
                            names == self.nodes.keys(),
                            deps == node_deps(*self),
                            self.nodes.entries@[i as int].1.depends_on == Some(*d),
                            forall|i2: int, k2: int|
                                0 <= i2 < i && 0 <= k2 < deps[i2].len() ==> names.contains(#[trigger] deps[i2][k2]),
                            forall|k2: int| 0 <= k2 < k ==> names.contains(#[trigger] deps[i as int][k2]),
                        decreases d.len() - k,
                    {
                        assert(deps[i as int] == views(d@));
                        assert(deps[i as int][k as int] == d@[k as int]@);
                        proof {
                            crate::types::lemma_key_index(self.nodes.entries@, d@[k as int]@);
                        }
                        if !self.nodes.contains_key(&d[k]) {
                            proof {
                                assert(!names.contains(deps[i as int][k as int])) by {
                                    if names.contains(deps[i as int][k as int]) {
                                        let x = choose|x: int| 0 <= x < names.len() && names[x] == deps[i as int][k as int];
                                        assert(self.nodes.entries@[x].0@ == names[x]);
                                    }
                                }
                                assert(first_undefined(names, deps, i as int, k as int));
                            }
                            let mut m = lit("Node ");
                            m.append(self.nodes.entries[i].0.as_str());
                            m.append(" depends on ");
                            m.append(d[k].as_str());
                            m.append(" which is not in graph");
                            assert(names[i as int] == self.nodes.entries@[i as int].0@);
                            assert(m@ == missing_node_dep_message(names[i as int], deps[i as int][k as int]));
                            return Err(ComposeError::validation(m));
                        }
                        proof {
                            let x = crate::types::key_index(self.nodes.entries@, d@[k as int]@)->0;
                            assert(names[x] == self.nodes.entries@[x].0@);
                            assert(names.contains(deps[i as int][k as int]));
                        }
                        k = k + 1;
                    }
                    assert(deps[i as int].len() == d@.len());
                },
                None => {
                    assert(deps[i as int].len() == 0);
                },
            }
            i = i + 1;
        }
        let r = resolve_startup_order(&spec);
        let ghost rv = order_view(r);
        proof {
            match rv {
                Err(ComposeError::ValidationError { message }) => {
                    let (i0, k0) = choose|i0: int, k0: int|
                        #![trigger first_undefined(names, deps, i0, k0)]
                        first_undefined(names, deps, i0, k0) && message@ == undefined_dep_message(
                            names[i0],
                            deps[i0][k0],
                        );
                    assert(names.contains(deps[i0][k0]));
                },
                _ => {},
            }
        }
        r
    }
}

// ============ Policies ============

/// The isolation policy of a workload.
pub struct PolicySpec {
    /// `default`, `isolated`, `hardened` or `untrusted`.
    pub tier: String,
    pub no_network: Option<bool>,
    pub read_only_root: Option<bool>,
    pub seccomp: Option<bool>,
}

/// `c` is the container that runs `node` under `policy`: the node's image
/// (empty when it has none), name and ports (none when it has none), and
/// nothing else, restricted by the policy. An `untrusted` workload runs in
/// a microVM with a read-only root and no network; a `hardened` one with a
/// read-only root; an `isolated` one without network; any other tier
/// as it is. `no_network` and `read_only_root` add those restrictions.
pub open spec fn policy_applied(node: WorkloadNode, policy: PolicySpec, c: ContainerSpec) -> bool {
    let tier = policy.tier@;
    let untrusted = tier == "untrusted"@;
    let read_only = untrusted || tier == "hardened"@ || policy.read_only_root == Some(true);
    let no_network = untrusted || tier == "isolated"@ || policy.no_network == Some(true);
    &&& c.image@ == match node.image {
        Some(i) => i@,
        None => Seq::empty(),
    }
    &&& c.name matches Some(n) && n@ == node.name@
    &&& c.ports matches Some(p) && views(p@) == match node.ports {
        Some(q) => views(q@),
        None => Seq::empty(),
    }
    &&& c.isolation_level == if untrusted {
        Some(IsolationLevel::MicroVm)
    } else {
        None
    }
    &&& c.read_only == if read_only {
        Some(true)
    } else {
        None
    }
    &&& if no_network {
        c.network matches Some(n) && n@ == "none"@
    } else {
        c.network is None
    }
    &&& c.volumes is None
    &&& c.env is None
    &&& c.cmd is None
    &&& c.entrypoint is None
    &&& c.rm is None
    &&& c.security_opt is None
}

/// The container that runs `node` under `policy` (see [`policy_applied`]).
pub fn apply_policy(node: &WorkloadNode, policy: &PolicySpec) -> (r: ContainerSpec)
    ensures
        policy_applied(*node, *policy, r),
{
    proof {
        reveal_strlit("untrusted");
        reveal_strlit("hardened");
        reveal_strlit("isolated");
        reveal_strlit("none");
        assert("isolated"@[0] != "untrusted"@[0] && "isolated"@[0] != "hardened"@[0]);
    }
    let image = match &node.image {
        Some(i) => i.clone(),
        None => String::new(),
    };
    let mut spec = ContainerSpec::for_image(image);
    spec.name = Some(node.name.clone());
    let ports: Vec<String> = match &node.ports {
        Some(p) => copy_strings(p),
        None => Vec::new(),
    };
    assert(views(ports@) =~= match node.ports {
        Some(q) => views(q@),
        None => Seq::empty(),
    });
    spec.ports = Some(ports);
    if policy.tier == lit("untrusted") {
        spec.isolation_level = Some(IsolationLevel::MicroVm);
        spec.read_only = Some(true);
        spec.network = Some(lit("none"));
    } else if policy.tier == lit("hardened") {
        spec.read_only = Some(true);
    } else if policy.tier == lit("isolated") {
        spec.network = Some(lit("none"));
    }
    if policy.no_network == Some(true) {
        spec.network = Some(lit("none"));
    }
    if policy.read_only_root == Some(true) {
        spec.read_only = Some(true);
    }
    spec
}

// ============ References between workloads ============

/// A reference to a running workload, projected as an endpoint
/// (`host:port`), an address, or an internal URL (`http://host:port`).
pub struct WorkloadRef {
    pub node_id: String,
    /// `endpoint`, `ip` or `internal_url`.
    pub projection: String,
    pub port: Option<String>,
}

/// The port of a reference: the one given, else 80.
pub open spec fn port_or_default(port: Option<String>) -> Seq<char> {
    match port {
        Some(p) => p@,
        None => "80"@,
    }
}

/// The message for a reference to a node that is not running.
pub open spec fn missing_node_message(id: Seq<char>) -> Seq<char> {
    "Node '"@ + id + "' not found in running set"@
}

/// What resolving `r` against the running workloads gives.
pub open spec fn resolution(r: WorkloadRef, running: Seq<(String, ContainerInfo)>) -> Result<
    Seq<char>,
    Seq<char>,
> {
    match lookup_entry(running, r.node_id@) {
        None => Err(missing_node_message(r.node_id@)),
        Some(node) => if r.projection@ == "endpoint"@ {
            Ok(node.name@ + ":"@ + port_or_default(r.port))
        } else if r.projection@ == "ip"@ {
            Ok(node.name@)
        } else if r.projection@ == "internal_url"@ {
            Ok("http://"@ + node.name@ + ":"@ + port_or_default(r.port))
        } else {
            Err("Invalid projection"@)
        },
    }
}

impl WorkloadRef {
    /// The value of this reference, given the running workloads by id: the
    /// node's name with the port (80 when none is given) for `endpoint`,
    /// its name for `ip`, `http://name:port` for `internal_url`. A node
    /// that is not running, or another projection, is a validation error.
    pub fn resolve(&self, running_nodes: &OrderedMap<ContainerInfo>) -> (r: Result<String, ComposeError>)
        requires
            running_nodes.wf(),
        ensures
            match resolution(*self, running_nodes.entries@) {
                Ok(v) => r matches Ok(s) && s@ == v,
                Err(m) => r matches Err(ComposeError::ValidationError { message }) && message@ == m,
            },
    {
        proof {
            reveal_strlit("endpoint");
            reveal_strlit("ip");
            reveal_strlit("internal_url");
            reveal_strlit("80");
            reveal_strlit(":");
            reveal_strlit("http://");
        }
        proof {
            crate::types::lemma_key_index(running_nodes.entries@, self.node_id@);
        }
        let node = match running_nodes.index_of(&self.node_id) {
            Some(i) => &running_nodes.entries[i].1,
            None => {
                let mut m = lit("Node '");
                m.append(self.node_id.as_str());
                m.append("' not found in running set");
                return Err(ComposeError::ValidationError { message: m });
            },
        };
        let port = match &self.port {
            Some(p) => p.clone(),
            None => lit("80"),
        };
        if self.projection == lit("endpoint") {
            let mut s = node.name.clone();
            s.append(":");
            s.append(port.as_str());
            Ok(s)
        } else if self.projection == lit("ip") {
            Ok(node.name.clone())
        } else if self.projection == lit("internal_url") {
            let mut s = lit("http://");
            s.append(node.name.as_str());
            s.append(":");
            s.append(port.as_str());
            Ok(s)
        } else {
            Err(ComposeError::ValidationError { message: lit("Invalid projection") })
        }
    }
}

} // verus!
