//! Compose orchestration: what to create for `up`, in which order, what to
//! undo when a step fails, and what to remove for `down`.
//!
//! The backend calls themselves are made by the caller: a session hands out
//! one step at a time and is told how each step went.
use vstd::prelude::*;
use crate::backend::{BackendCall, NetworkConfig, VolumeConfig};
use crate::error::ComposeError;
use crate::order::{order_view, resolve_startup_order, service_deps, startup_order_result};
use crate::types::{
    lemma_key_index, lookup_entry, unique_keys, views, ComposeNetwork, ComposeService, ComposeSpec, ComposeVolume,
    ContainerSpec, Described, ListOrDict, PortSpec, VolumeEntry, YamlKind, YamlValue,
};

verus! {

// ============ Steps ============

/// One call to make on the container backend.
pub enum BackendStep {
    CreateNetwork { name: String, config: NetworkConfig },
    CreateVolume { name: String, config: VolumeConfig },
    Run { service: String, spec: ContainerSpec },
    Start { id: String },
    Stop { id: String, timeout: Option<u32> },
    Remove { id: String, force: bool },
    RemoveNetwork { name: String },
    RemoveVolume { name: String },
}

/// The kind and subject of a step, as character sequences.
pub enum StepView {
    CreateNetwork(Seq<char>),
    CreateVolume(Seq<char>),
    Run(Seq<char>),
    Start(Seq<char>),
    Stop(Seq<char>, Option<u32>),
    Remove(Seq<char>, bool),
    RemoveNetwork(Seq<char>),
    RemoveVolume(Seq<char>),
}

impl BackendStep {
    /// The kind and subject of this step.
    pub open spec fn view_step(&self) -> StepView {
        match self {
            BackendStep::CreateNetwork { name, .. } => StepView::CreateNetwork(name@),
            BackendStep::CreateVolume { name, .. } => StepView::CreateVolume(name@),
            BackendStep::Run { service, .. } => StepView::Run(service@),
            BackendStep::Start { id } => StepView::Start(id@),
            BackendStep::Stop { id, timeout } => StepView::Stop(id@, *timeout),
            BackendStep::Remove { id, force } => StepView::Remove(id@, *force),
            BackendStep::RemoveNetwork { name } => StepView::RemoveNetwork(name@),
            BackendStep::RemoveVolume { name } => StepView::RemoveVolume(name@),
        }
    }
}

/// The kinds and subjects of a list of steps.
pub open spec fn step_views(s: Seq<BackendStep>) -> Seq<StepView> {
    s.map_values(|b: BackendStep| b.view_step())
}

/// The backend call that a step makes.
pub open spec fn step_call(s: BackendStep) -> BackendCall {
    match s {
        BackendStep::CreateNetwork { name, config } => BackendCall::CreateNetwork(name@, config),
        BackendStep::CreateVolume { name, config } => BackendCall::CreateVolume(name@, config),
        BackendStep::Run { spec, .. } => BackendCall::Run(spec),
        BackendStep::Start { id } => BackendCall::Start(id@),
        BackendStep::Stop { id, timeout } => BackendCall::Stop(id@, timeout),
        BackendStep::Remove { id, force } => BackendCall::Remove(id@, force),
        BackendStep::RemoveNetwork { name } => BackendCall::RemoveNetwork(name@),
        BackendStep::RemoveVolume { name } => BackendCall::RemoveVolume(name@),
    }
}

/// The backend calls that a list of steps makes, in order.
pub open spec fn step_calls(s: Seq<BackendStep>) -> Seq<BackendCall> {
    s.map_values(|b: BackendStep| step_call(b))
}

// ============ Building specs from the document ============

/// The label map of a network or volume: a dict's values in their `{:?}`
/// form (a missing value as empty), nothing for a list.
pub open spec fn debug_labels(l: Option<ListOrDict>) -> Seq<(Seq<char>, Seq<char>)> {
    match l {
        Some(ListOrDict::Dict(d)) => d.entries@.map_values(
            |e: (String, Option<YamlValue>)| (e.0@, debug_value(e.1)),
        ),
        _ => Seq::empty(),
    }
}

/// The views of a list of pairs.
pub open spec fn pair_views(p: Seq<(String, String)>) -> Seq<(Seq<char>, Seq<char>)> {
    p.map_values(|e: (String, String)| (e.0@, e.1@))
}

/// The value of a dict entry in its `{:?}` form (empty when missing).
pub open spec fn debug_value(v: Option<YamlValue>) -> Seq<char> {
    match v {
        Some(y) => y.debug@,
        None => Seq::empty(),
    }
}

fn labels_of(l: &Option<ListOrDict>) -> (r: Vec<(String, String)>)
    ensures
        pair_views(r@) == debug_labels(*l),
{
    let mut out: Vec<(String, String)> = Vec::new();
    match l {
        Some(ListOrDict::Dict(d)) => {
            let mut i: usize = 0;
            while i < d.entries.len()
                invariant
                    i <= d.entries.len(),
                    out.len() == i,
                    forall|j: int| 0 <= j < i ==> (#[trigger] out@[j]).0@ == d.entries@[j].0@ && out@[j].1@
                        == debug_value(d.entries@[j].1),
                decreases d.entries.len() - i,
            {
                let v = match &d.entries[i].1 {
                    Some(y) => y.debug.clone(),
                    None => String::new(),
                };
                out.push((d.entries[i].0.clone(), v));
                i = i + 1;
            }
            assert(pair_views(out@) =~= debug_labels(*l));
        },
        _ => {
            assert(pair_views(out@) =~= debug_labels(*l));
        },
    }
    out
}

/// The network options that `up` creates a network with.
pub open spec fn network_config_of(c: Option<ComposeNetwork>, r: NetworkConfig) -> bool {
    match c {
        Some(n) => {
            &&& r.driver == n.driver
            &&& pair_views(r.labels@) == debug_labels(n.labels)
            &&& r.internal == (n.internal == Some(true))
            &&& r.enable_ipv6 == (n.enable_ipv6 == Some(true))
        },
        None => {
            &&& r.driver is None
            &&& r.labels@.len() == 0
            &&& !r.internal
            &&& !r.enable_ipv6
        },
    }
}

/// The volume options that `up` creates a volume with.
pub open spec fn volume_config_of(c: Option<ComposeVolume>, r: VolumeConfig) -> bool {
    match c {
        Some(v) => {
            &&& r.driver == v.driver
            &&& pair_views(r.labels@) == debug_labels(v.labels)
        },
        None => {
            &&& r.driver is None
            &&& r.labels@.len() == 0
        },
    }
}

fn network_config(c: &Option<ComposeNetwork>) -> (r: NetworkConfig)
    ensures
        network_config_of(*c, r),
{
    match c {
        Some(n) => NetworkConfig {
            driver: match &n.driver {
                Some(d) => Some(d.clone()),
                None => None,
            },
            labels: labels_of(&n.labels),
            internal: n.internal == Some(true),
            enable_ipv6: n.enable_ipv6 == Some(true),
        },
        None => NetworkConfig { driver: None, labels: Vec::new(), internal: false, enable_ipv6: false },
    }
}

fn volume_config(c: &Option<ComposeVolume>) -> (r: VolumeConfig)
    ensures
        volume_config_of(*c, r),
{
    match c {
        Some(v) => VolumeConfig {
            driver: match &v.driver {
                Some(d) => Some(d.clone()),
                None => None,
            },
            labels: labels_of(&v.labels),
        },
        None => VolumeConfig { driver: None, labels: Vec::new() },
    }
}

/// The `{:?}` forms of a list of values.
pub open spec fn debugs_of_ports(p: Seq<Described<PortSpec>>) -> Seq<Seq<char>> {
    p.map_values(|d: Described<PortSpec>| d.debug@)
}

/// The `{:?}` forms of a service's volume entries.
pub open spec fn debugs_of_volumes(v: Seq<VolumeEntry>) -> Seq<Seq<char>> {
    v.map_values(|e: VolumeEntry| e.value.debug@)
}

/// The `{:?}` forms of a list of YAML values.
pub open spec fn debugs_of_values(v: Seq<YamlValue>) -> Seq<Seq<char>> {
    v.map_values(|e: YamlValue| e.debug@)
}

/// The container that `up` runs for service `name`: named after the
/// service, with the service's image (empty when unset), its ports and
/// volumes in their `{:?}` form, its dict environment with values in their
/// `{:?}` form, its command (a string as itself, a sequence's items in
/// their `{:?}` form), its `read_only`, and `rm` off.
pub open spec fn service_container_of(name: Seq<char>, s: ComposeService, c: ContainerSpec) -> bool {
    &&& c.image@ == match s.image {
        Some(i) => i@,
        None => Seq::empty(),
    }
    &&& c.name matches Some(n) && n@ == name
    &&& match (s.ports, c.ports) {
        (Some(p), Some(q)) => views(q@) == debugs_of_ports(p@),
        (None, None) => true,
        _ => false,
    }
    &&& match (s.volumes, c.volumes) {
        (Some(v), Some(q)) => views(q@) == debugs_of_volumes(v@),
        (None, None) => true,
        _ => false,
    }
    &&& match (s.environment, c.env) {
        (Some(ListOrDict::Dict(d)), Some(e)) => pair_views(e@) == debug_labels(
            Some(ListOrDict::Dict(d)),
        ),
        (Some(ListOrDict::List(_)), None) => true,
        (None, None) => true,
        _ => false,
    }
    &&& match (s.command, c.cmd) {
        (Some(v), Some(q)) => match v.kind {
            YamlKind::String(t) => views(q@) == seq![t@],
            YamlKind::Sequence(items) => views(q@) == debugs_of_values(items@),
            _ => false,
        },
        (Some(v), None) => !(v.kind is String) && !(v.kind is Sequence),
        (None, None) => true,
        _ => false,
    }
    &&& c.entrypoint is None
    &&& c.network is None
    &&& c.rm == Some(false)
    &&& c.read_only == s.read_only
    &&& c.security_opt is None
    &&& c.isolation_level is None
}

fn debug_strings_ports(p: &Vec<Described<PortSpec>>) -> (r: Vec<String>)
    ensures
        views(r@) == debugs_of_ports(p@),
{
    let mut out: Vec<String> = Vec::new();
    let mut i: usize = 0;
    while i < p.len()
        invariant
            i <= p.len(),
            out.len() == i,
            forall|j: int| 0 <= j < i ==> (#[trigger] out@[j])@ == p@[j].debug@,
        decreases p.len() - i,
    {
        out.push(p[i].debug.clone());
        i = i + 1;
    }
    assert(views(out@) =~= debugs_of_ports(p@));
    out
}

fn debug_strings_volumes(v: &Vec<VolumeEntry>) -> (r: Vec<String>)
    ensures
        views(r@) == debugs_of_volumes(v@),
{
    let mut out: Vec<String> = Vec::new();
    let mut i: usize = 0;
    while i < v.len()
        invariant
            i <= v.len(),
            out.len() == i,
            forall|j: int| 0 <= j < i ==> (#[trigger] out@[j])@ == v@[j].value.debug@,
        decreases v.len() - i,
    {
        out.push(v[i].value.debug.clone());
        i = i + 1;
    }
    assert(views(out@) =~= debugs_of_volumes(v@));
    out
}

fn debug_strings_values(v: &Vec<YamlValue>) -> (r: Vec<String>)
    ensures
        views(r@) == debugs_of_values(v@),
{
    let mut out: Vec<String> = Vec::new();
    let mut i: usize = 0;
    while i < v.len()
        invariant
            i <= v.len(),
            out.len() == i,
            forall|j: int| 0 <= j < i ==> (#[trigger] out@[j])@ == v@[j].debug@,
        decreases v.len() - i,
    {
        out.push(v[i].debug.clone());
        i = i + 1;
    }
    assert(views(out@) =~= debugs_of_values(v@));
    out
}

/// The container that `up` runs for service `name`.
pub fn service_container_spec(name: &String, s: &ComposeService) -> (r: ContainerSpec)
    ensures
        service_container_of(name@, *s, r),
        (s.environment matches Some(ListOrDict::Dict(d)) ==> unique_keys(d.entries@)) ==> r.wf(),
{
    let image = match &s.image {
        Some(i) => i.clone(),
        None => String::new(),
    };
    let ports = match &s.ports {
        Some(p) => Some(debug_strings_ports(p)),
        None => None,
    };
    let volumes = match &s.volumes {
        Some(v) => Some(debug_strings_volumes(v)),
        None => None,
    };
    let env = match &s.environment {
        Some(ListOrDict::Dict(_)) => Some(labels_of(&s.environment)),
        _ => None,
    };
    let ghost genv = s.environment;
    let ghost ge = env;
    proof {
        if let (Some(ListOrDict::Dict(d)), Some(e)) = (genv, ge) {
            if unique_keys(d.entries@) {
                let dl = debug_labels(Some(ListOrDict::Dict(d)));
                assert(pair_views(e@) == dl);
                assert(dl.len() == d.entries@.len());
                assert(pair_views(e@).len() == e@.len());
                assert forall|i: int, j: int| 0 <= i < j < e@.len() implies e@[i].0@ != e@[j].0@ by {
                    assert(pair_views(e@)[i].0 == e@[i].0@);
                    assert(pair_views(e@)[j].0 == e@[j].0@);
                    assert(debug_labels(Some(ListOrDict::Dict(d)))[i].0 == d.entries@[i].0@);
                    assert(debug_labels(Some(ListOrDict::Dict(d)))[j].0 == d.entries@[j].0@);
                }
            }
        }
    }
    let cmd = match &s.command {
        Some(v) => match &v.kind {
            YamlKind::String(t) => {
                let l = vec![t.clone()];
                assert(views(l@) =~= seq![t@]);
                Some(l)
            },
            YamlKind::Sequence(items) => Some(debug_strings_values(items)),
            _ => None,
        },
        None => None,
    };
    ContainerSpec {
        image,
        name: Some(name.clone()),
        ports,
        volumes,
        env,
        cmd,
        entrypoint: None,
        network: None,
        rm: Some(false),
        read_only: s.read_only,
        security_opt: None,
        isolation_level: None,
    }
}

// ============ The engine ============

/// A compose project: the document that `up`, `down` and the other
/// commands act on.
pub struct ComposeEngine {
    pub spec: ComposeSpec,
}

/// What `up` creates, in order: the networks, the volumes, then one
/// container per service in startup order.
pub struct UpPlan {
    pub steps: Vec<BackendStep>,
    /// The services, in startup order.
    pub order: Vec<String>,
}

/// The network entries of a document (none when absent).
pub open spec fn net_entries(spec: ComposeSpec) -> Seq<(String, Option<ComposeNetwork>)> {
    match spec.networks {
        Some(m) => m.entries@,
        None => Seq::empty(),
    }
}

/// The volume entries of a document (none when absent).
pub open spec fn vol_entries(spec: ComposeSpec) -> Seq<(String, Option<ComposeVolume>)> {
    match spec.volumes {
        Some(m) => m.entries@,
        None => Seq::empty(),
    }
}

/// The networks of the document, with the options they are created with.
pub open spec fn network_steps_of(spec: ComposeSpec, steps: Seq<BackendStep>) -> bool {
    let nets = net_entries(spec);
    &&& steps.len() == nets.len()
    &&& forall|i: int| 0 <= i < nets.len() ==> match #[trigger] steps[i] {
        BackendStep::CreateNetwork { name, config } => name@ == nets[i].0@ && network_config_of(
            nets[i].1,
            config,
        ),
        _ => false,
    }
}

/// The volumes of the document, with the options they are created with.
pub open spec fn volume_steps_of(spec: ComposeSpec, steps: Seq<BackendStep>) -> bool {
    let vols = vol_entries(spec);
    &&& steps.len() == vols.len()
    &&& forall|i: int| 0 <= i < vols.len() ==> match #[trigger] steps[i] {
        BackendStep::CreateVolume { name, config } => name@ == vols[i].0@ && volume_config_of(
            vols[i].1,
            config,
        ),
        _ => false,
    }
}

/// One container per service of `order`, in that order.
pub open spec fn run_steps_of(spec: ComposeSpec, order: Seq<Seq<char>>, steps: Seq<BackendStep>) -> bool {
    &&& steps.len() == order.len()
    &&& forall|i: int| 0 <= i < order.len() ==> match #[trigger] steps[i] {
        BackendStep::Run { service, spec: c } => service@ == order[i] && (match lookup_entry(
            spec.services.entries@,
            order[i],
        ) {
            Some(s) => service_container_of(order[i], s, c),
            None => false,
        }),
        _ => false,
    }
}

/// The steps of `up` for `spec`, given the startup order.
pub open spec fn up_plan_of(spec: ComposeSpec, order: Seq<Seq<char>>, steps: Seq<BackendStep>) -> bool {
    let nn = net_entries(spec).len();
    let nv = vol_entries(spec).len();
    &&& steps.len() == nn + nv + order.len()
    &&& network_steps_of(spec, steps.take(nn as int))
    &&& volume_steps_of(spec, steps.subrange(nn as int, (nn + nv) as int))
    &&& run_steps_of(spec, order, steps.skip((nn + nv) as int))
}

impl ComposeEngine {
    /// An engine for `spec`.
    pub fn new(spec: ComposeSpec) -> (r: ComposeEngine)
        ensures
            r.spec == spec,
    {
        ComposeEngine { spec }
    }

    /// The startup order of the services (see
    /// [`crate::order::resolve_startup_order`]).
    pub fn resolve_startup_order(spec: &ComposeSpec) -> (r: Result<Vec<String>, ComposeError>)
        requires
            spec.wf(),
        ensures
            startup_order_result(spec.services.keys(), service_deps(*spec), order_view(r)),
    {
        resolve_startup_order(spec)
    }

    /// What `up` creates, in order: every network, every volume, then a
    /// container per service in startup order. Fails as the startup order
    /// does.
    pub fn up_plan(&self) -> (r: Result<UpPlan, ComposeError>)
        requires
            self.spec.wf(),
        ensures
            match r {
                Ok(plan) => {
                    &&& startup_order_result(
                        self.spec.services.keys(),
                        service_deps(self.spec),
                        Ok(views(plan.order@)),
                    )
                    &&& up_plan_of(self.spec, views(plan.order@), plan.steps@)
                },
                Err(e) => startup_order_result(
                    self.spec.services.keys(),
                    service_deps(self.spec),
                    Err(e),
                ),
            },
    {
        let order = match resolve_startup_order(&self.spec) {
            Ok(o) => o,
            Err(e) => {
                return Err(e);
            },
        };
        let mut steps: Vec<BackendStep> = Vec::new();
        // networks
        let ghost nets = net_entries(self.spec);
        match &self.spec.networks {
            Some(m) => {
                let mut i: usize = 0;
                while i < m.entries.len()
                    invariant
                        i <= m.entries.len(),
                        nets == m.entries@,
                        steps.len() == i,
                        forall|j: int| 0 <= j < i ==> match #[trigger] steps@[j] {
                            BackendStep::CreateNetwork { name, config } => name@ == nets[j].0@
                                && network_config_of(nets[j].1, config),
                            _ => false,
                        },
                    decreases m.entries.len() - i,
                {
                    let config = network_config(&m.entries[i].1);
                    steps.push(BackendStep::CreateNetwork { name: m.entries[i].0.clone(), config });
                    i = i + 1;
                }
            },
            None => {},
        }
        let nn = steps.len();
        assert(steps@.take(nn as int) =~= steps@);
        assert(network_steps_of(self.spec, steps@.take(nn as int)));
        // volumes
        let ghost vols = vol_entries(self.spec);
        let ghost s1 = steps@;
        match &self.spec.volumes {
            Some(m) => {
                let mut i: usize = 0;
                while i < m.entries.len()
                    invariant
                        i <= m.entries.len(),
                        vols == m.entries@,
                        steps.len() == nn + i,
                        steps@.take(nn as int) == s1,
                        forall|j: int| 0 <= j < i ==> match #[trigger] steps@[nn + j] {
                            BackendStep::CreateVolume { name, config } => name@ == vols[j].0@
                                && volume_config_of(vols[j].1, config),
                            _ => false,
                        },
                    decreases m.entries.len() - i,
                {
                    let config = volume_config(&m.entries[i].1);
                    let ghost pre = steps@;
                    steps.push(BackendStep::CreateVolume { name: m.entries[i].0.clone(), config });
                    assert(steps@.take(nn as int) =~= pre.take(nn as int));
                    i = i + 1;
                }
            },
            None => {},
        }
        let nv = steps.len() - nn;
        assert(volume_steps_of(self.spec, steps@.subrange(nn as int, (nn + nv) as int))) by {
            let sub = steps@.subrange(nn as int, (nn + nv) as int);
            assert forall|j: int| 0 <= j < vols.len() implies match #[trigger] sub[j] {
                BackendStep::CreateVolume { name, config } => name@ == vols[j].0@ && volume_config_of(
                    vols[j].1,
                    config,
                ),
                _ => false,
            } by {
                assert(sub[j] == steps@[nn + j]);
            }
        }
        let ghost s2 = steps@;
        // containers, in startup order
        let mut k: usize = 0;
        while k < order.len()
            invariant
                k <= order.len(),
                steps.len() == nn + nv + k,
                steps@.take((nn + nv) as int) == s2,
                self.spec.wf(),
                forall|j: int| 0 <= j < k ==> match #[trigger] steps@[nn + nv + j] {
                    BackendStep::Run { service, spec: c } => service@ == order@[j]@ && (match lookup_entry(
                        self.spec.services.entries@,
                        order@[j]@,
                    ) {
                        Some(s) => service_container_of(order@[j]@, s, c),
                        None => false,
                    }),
                    _ => false,
                },
                startup_order_result(
                    self.spec.services.keys(),
                    service_deps(self.spec),
                    Ok(views(order@)),
                ),
            decreases order.len() - k,
        {
            proof {
                crate::order::lemma_order_names_defined(
                    self.spec.services.keys(),
                    service_deps(self.spec),
                    views(order@),
                    k as int,
                );
                assert(views(order@)[k as int] == order@[k as int]@);
            }
            match self.spec.services.index_of(&order[k]) {
                Some(x) => {
                    proof {
                        lemma_key_index(self.spec.services.entries@, order@[k as int]@);
                    }
                    let c = service_container_spec(&order[k], &self.spec.services.entries[x].1);
                    let ghost pre = steps@;
                    steps.push(BackendStep::Run { service: order[k].clone(), spec: c });
                    assert(steps@.take((nn + nv) as int) =~= pre.take((nn + nv) as int));
                },
                None => {
                    proof {
                        lemma_key_index(self.spec.services.entries@, order@[k as int]@);
                        let x = choose|x: int| 0 <= x < self.spec.services.keys().len()
                            && self.spec.services.keys()[x] == order@[k as int]@;
                        assert(self.spec.services.entries@[x].0@ == self.spec.services.keys()[x]);
                    }
                },
            }
            k = k + 1;
        }
        proof {
            let sk = steps@.skip((nn + nv) as int);
            assert forall|j: int| 0 <= j < order@.len() implies match #[trigger] sk[j] {
                BackendStep::Run { service, spec: c } => service@ == views(order@)[j] && (match lookup_entry(
                    self.spec.services.entries@,
                    views(order@)[j],
                ) {
                    Some(s) => service_container_of(views(order@)[j], s, c),
                    None => false,
                }),
                _ => false,
            } by {
                assert(sk[j] == steps@[nn + nv + j]);
                assert(views(order@)[j] == order@[j]@);
            }
            assert(steps@.take(nn as int) =~= s1.take(nn as int));
            assert(steps@.subrange(nn as int, (nn + nv) as int) =~= s2.subrange(nn as int, (nn + nv) as int));
            assert(nn as int == net_entries(self.spec).len());
            assert(nv as int == vol_entries(self.spec).len());
        }
        Ok(UpPlan { steps, order })
    }
}

} // verus!
