//! Finding a usable container runtime: which candidates are probed, what
//! probing each one checks, and how the checks' outputs are read.
use vstd::prelude::*;
use crate::backend::{get_field, get_str, json_get, json_text_read, lit, read_json, str_field, JsonValue};
use crate::error::BackendProbeResult;
use crate::text::{chars_of, find, find_chars};
use crate::types::{opt_view, views};

verus! {

// ============ Candidates ============

/// The runtimes probed on an operating system, in order of preference.
pub open spec fn candidates_for(os: Seq<char>) -> Seq<Seq<char>> {
    if os == "macos"@ || os == "ios"@ {
        seq![
            "apple/container"@,
            "orbstack"@,
            "colima"@,
            "rancher-desktop"@,
            "lima"@,
            "podman"@,
            "nerdctl"@,
            "docker"@,
        ]
    } else {
        seq!["podman"@, "nerdctl"@, "docker"@]
    }
}

/// The runtimes probed on `os` (`std::env::consts::OS`), in order of
/// preference.
pub fn backend_candidates(os: &str) -> (r: Vec<String>)
    ensures
        views(r@) == candidates_for(os@),
{
    let o = lit(os);
    let v = if o == lit("macos") || o == lit("ios") {
        vec![
            lit("apple/container"),
            lit("orbstack"),
            lit("colima"),
            lit("rancher-desktop"),
            lit("lima"),
            lit("podman"),
            lit("nerdctl"),
            lit("docker"),
        ]
    } else {
        vec![lit("podman"), lit("nerdctl"), lit("docker")]
    };
    assert(views(v@) =~= candidates_for(os@));
    v
}

// ============ Probing one candidate ============

/// One check made when probing a runtime. Each check is made with the
/// binary found last.
pub enum ProbeStep {
    /// Find the first of `names` on `PATH`; if none is there, the probe
    /// fails with `missing`.
    Find { names: Vec<String>, missing: String },
    /// `BIN --version` succeeds within two seconds.
    VersionCheck,
    /// A podman machine is running.
    PodmanMachine,
    /// OrbStack's docker socket exists, or `BIN --version` succeeds.
    OrbstackSocketOrVersion,
    /// `BIN status` succeeds and reports `running`.
    ColimaRunning,
    /// Rancher Desktop's containerd socket exists.
    RancherSocket,
    /// A lima instance is running.
    LimaInstance,
}

/// How the runtime found is driven.
#[derive(PartialEq, Eq, Structural, Clone, Copy)]
pub enum ProtocolKind {
    /// Docker's command line, with the binary found last.
    Docker,
    /// Apple's `container`, with the binary found last.
    Apple,
    /// nerdctl in the running lima instance, through the binary found last.
    Lima,
}

/// A probe step as plain values.
pub enum ProbeStepView {
    Find(Seq<Seq<char>>, Seq<char>),
    VersionCheck,
    PodmanMachine,
    OrbstackSocketOrVersion,
    ColimaRunning,
    RancherSocket,
    LimaInstance,
}

impl ProbeStep {
    pub open spec fn view_step(&self) -> ProbeStepView {
        match self {
            ProbeStep::Find { names, missing } => ProbeStepView::Find(views(names@), missing@),
            ProbeStep::VersionCheck => ProbeStepView::VersionCheck,
            ProbeStep::PodmanMachine => ProbeStepView::PodmanMachine,
            ProbeStep::OrbstackSocketOrVersion => ProbeStepView::OrbstackSocketOrVersion,
            ProbeStep::ColimaRunning => ProbeStepView::ColimaRunning,
            ProbeStep::RancherSocket => ProbeStepView::RancherSocket,
            ProbeStep::LimaInstance => ProbeStepView::LimaInstance,
        }
    }
}

/// What probing a runtime checks, in order, and how it is then driven.
pub struct ProbePlan {
    pub steps: Vec<ProbeStep>,
    pub protocol: ProtocolKind,
}

/// Find one binary.
pub open spec fn find_one(name: Seq<char>, missing: Seq<char>) -> ProbeStepView {
    ProbeStepView::Find(seq![name], missing)
}

/// What probing runtime `name` checks (on macOS when `on_macos`), and
/// how it is driven; `None` for an unknown runtime.
pub open spec fn probe_plan_of(name: Seq<char>, on_macos: bool) -> Option<(Seq<ProbeStepView>, ProtocolKind)> {
    if name == "apple/container"@ {
        Some((seq![find_one("container"@, "container binary not found on PATH"@), ProbeStepView::VersionCheck],
            ProtocolKind::Apple))
    } else if name == "podman"@ {
        Some((seq![find_one("podman"@, "podman binary not found on PATH"@), ProbeStepView::VersionCheck]
            + if on_macos { seq![ProbeStepView::PodmanMachine] } else { Seq::empty() }, ProtocolKind::Docker))
    } else if name == "orbstack"@ {
        Some((seq![ProbeStepView::Find(seq!["orb"@, "docker"@], "orbstack not found"@),
            ProbeStepView::OrbstackSocketOrVersion], ProtocolKind::Docker))
    } else if name == "colima"@ {
        Some((seq![find_one("colima"@, "colima binary not found on PATH"@), ProbeStepView::ColimaRunning,
            find_one("docker"@, "docker CLI not found (needed for colima)"@)], ProtocolKind::Docker))
    } else if name == "rancher-desktop"@ {
        Some((seq![find_one("nerdctl"@, "nerdctl binary not found on PATH"@), ProbeStepView::VersionCheck,
            ProbeStepView::RancherSocket], ProtocolKind::Docker))
    } else if name == "lima"@ {
        Some((seq![find_one("limactl"@, "limactl binary not found on PATH"@), ProbeStepView::LimaInstance],
            ProtocolKind::Lima))
    } else if name == "nerdctl"@ {
        Some((seq![find_one("nerdctl"@, "nerdctl binary not found on PATH"@), ProbeStepView::VersionCheck],
            ProtocolKind::Docker))
    } else if name == "docker"@ {
        Some((seq![find_one("docker"@, "docker binary not found on PATH"@), ProbeStepView::VersionCheck],
            ProtocolKind::Docker))
    } else {
        None
    }
}

fn find_step(name: &str, missing: &str) -> (r: ProbeStep)
    ensures
        r.view_step() == find_one(name@, missing@),
{
    let names = vec![lit(name)];
    assert(views(names@) =~= seq![name@]);
    ProbeStep::Find { names, missing: lit(missing) }
}

/// What probing runtime `name` checks, in order, and how the runtime is
/// driven once every check passes; `unknown backend: NAME` for a name
/// that is not a known runtime.
pub fn probe_candidate(name: &str, on_macos: bool) -> (r: Result<ProbePlan, String>)
    ensures
        match probe_plan_of(name@, on_macos) {
            Some((steps, protocol)) => r matches Ok(p) && p.steps@.map_values(
                |s: ProbeStep| s.view_step(),
            ) == steps && p.protocol == protocol,
            None => r matches Err(m) && m@ == "unknown backend: "@ + name@,
        },
{
    let n = lit(name);
    let (steps, protocol) = if n == lit("apple/container") {
        (vec![find_step("container", "container binary not found on PATH"), ProbeStep::VersionCheck],
            ProtocolKind::Apple)
    } else if n == lit("podman") {
        let mut s = vec![find_step("podman", "podman binary not found on PATH"), ProbeStep::VersionCheck];
        if on_macos {
            s.push(ProbeStep::PodmanMachine);
        }
        (s, ProtocolKind::Docker)
    } else if n == lit("orbstack") {
        let names = vec![lit("orb"), lit("docker")];
        assert(views(names@) =~= seq!["orb"@, "docker"@]);
        (vec![ProbeStep::Find { names, missing: lit("orbstack not found") }, ProbeStep::OrbstackSocketOrVersion],
            ProtocolKind::Docker)
    } else if n == lit("colima") {
        (vec![
            find_step("colima", "colima binary not found on PATH"),
            ProbeStep::ColimaRunning,
            find_step("docker", "docker CLI not found (needed for colima)"),
        ], ProtocolKind::Docker)
    } else if n == lit("rancher-desktop") {
        (vec![
            find_step("nerdctl", "nerdctl binary not found on PATH"),
            ProbeStep::VersionCheck,
            ProbeStep::RancherSocket,
        ], ProtocolKind::Docker)
    } else if n == lit("lima") {
        (vec![find_step("limactl", "limactl binary not found on PATH"), ProbeStep::LimaInstance],
            ProtocolKind::Lima)
    } else if n == lit("nerdctl") {
        (vec![find_step("nerdctl", "nerdctl binary not found on PATH"), ProbeStep::VersionCheck],
            ProtocolKind::Docker)
    } else if n == lit("docker") {
        (vec![find_step("docker", "docker binary not found on PATH"), ProbeStep::VersionCheck],
            ProtocolKind::Docker)
    } else {
        let mut m = lit("unknown backend: ");
        m.append(name);
        return Err(m);
    };
    proof {
        let (expected, _) = probe_plan_of(name@, on_macos)->0;
        assert(steps@.map_values(|s: ProbeStep| s.view_step()) =~= expected);
    }
    Ok(ProbePlan { steps, protocol })
}

// ============ Reading the checks' output ============

/// Some machine of `podman machine list --format json` reports
/// `"Running": true`.
pub open spec fn podman_machine_running(doc: JsonValue) -> bool {
    match doc {
        JsonValue::Array(items) => exists|i: int|
            0 <= i < items@.len() && json_get(#[trigger] items@[i], "Running"@) == Some(JsonValue::Bool(true)),
        _ => false,
    }
}

/// Reads `podman machine list --format json`: fine when a machine runs.
pub fn podman_machine_check(doc: &JsonValue) -> (r: Result<(), String>)
    ensures
        podman_machine_running(*doc) ==> r is Ok,
        !podman_machine_running(*doc) ==> (r matches Err(m) && m@ == "no running podman machine"@),
{
    match doc {
        JsonValue::Array(items) => {
            let mut i: usize = 0;
            while i < items.len()
                invariant
                    i <= items.len(),
                    *doc == JsonValue::Array(*items),
                    forall|j: int|
                        0 <= j < i ==> json_get(#[trigger] items@[j], "Running"@) != Some(JsonValue::Bool(true)),
                decreases items.len() - i,
            {
                match get_field(&items[i], "Running") {
                    Some(JsonValue::Bool(true)) => {
                        assert(json_get(items@[i as int], "Running"@) == Some(JsonValue::Bool(true)));
                        assert(podman_machine_running(*doc));
                        return Ok(());
                    },
                    _ => {},
                }
                i = i + 1;
            }
        },
        _ => {},
    }
    Err(lit("no running podman machine"))
}

/// Reads the text that `podman machine list --format json` printed: its
/// JSON error when it is not JSON, else as [`podman_machine_check`].
pub fn podman_machine_output_check(stdout: &str) -> (r: Result<(), String>)
    ensures
        match json_text_read(stdout@) {
            Ok(doc) => {
                &&& podman_machine_running(doc) ==> r is Ok
                &&& !podman_machine_running(doc) ==> (r matches Err(m) && m@ == "no running podman machine"@)
            },
            Err(e) => r matches Err(m) && m@ == e,
        },
{
    match read_json(stdout) {
        Ok(doc) => podman_machine_check(&doc),
        Err(m) => Err(m),
    }
}

/// Reads `colima status`: fine when it succeeded and its output says
/// `running`.
pub fn colima_check(success: bool, stdout: &str) -> (r: Result<(), String>)
    ensures
        success && find(stdout@, "running"@) is Some ==> r is Ok,
        !(success && find(stdout@, "running"@) is Some) ==> (r matches Err(m) && m@
            == "colima status not running"@),
{
    if success {
        let v = chars_of(stdout);
        let p = chars_of("running");
        if find_chars(&v, &p).is_some() {
            return Ok(());
        }
    }
    Err(lit("colima status not running"))
}

/// The first line of `limactl list --json` (each line read as JSON, `None`
/// when it is not) whose `status` is `Running`, from position `from`.
pub open spec fn first_running(lines: Seq<Option<JsonValue>>, from: int) -> Option<int>
    decreases lines.len() - from,
{
    if from < 0 || from >= lines.len() {
        None
    } else if lines[from] matches Some(v) && str_field(v, "status"@) == Some("Running"@) {
        Some(from)
    } else {
        first_running(lines, from + 1)
    }
}

/// Reads `limactl list --json`: the name of the first running instance
/// (`default` when it has none).
pub fn lima_running_instance(lines: &Vec<Option<JsonValue>>) -> (r: Result<String, String>)
    ensures
        match first_running(lines@, 0) {
            Some(i) => r matches Ok(n) && n@ == match str_field(lines@[i]->0, "name"@) {
                Some(s) => s,
                None => "default"@,
            },
            None => r matches Err(m) && m@ == "no running lima instance"@,
        },
{
    let mut i: usize = 0;
    while i < lines.len()
        invariant
            i <= lines.len(),
            first_running(lines@, 0) == first_running(lines@, i as int),
        decreases lines.len() - i,
    {
        match &lines[i] {
            Some(v) => {
                let status = get_str(v, "status");
                let running = match &status {
                    Some(s) => *s == lit("Running"),
                    None => false,
                };
                if running {
                    proof {
                        reveal_strlit("Running");
                    }
                    assert(first_running(lines@, i as int) == Some(i as int));
                    return match get_str(v, "name") {
                        Some(n) => Ok(n),
                        None => Ok(lit("default")),
                    };
                }
            },
            None => {},
        }
        i = i + 1;
    }
    Err(lit("no running lima instance"))
}

/// What a failed probe of runtime `name` reports: the reason it gave, or
/// that it did not answer within two seconds.
pub fn probe_failure(name: &str, reason: Option<String>) -> (r: BackendProbeResult)
    ensures
        r.name@ == name@,
        !r.available,
        r.reason@ == match reason {
            Some(m) => m@,
            None => "probe timed out after 2s"@,
        },
{
    BackendProbeResult {
        name: lit(name),
        available: false,
        reason: match reason {
            Some(m) => m,
            None => lit("probe timed out after 2s"),
        },
    }
}

// ============ Detection ============

/// The runtimes that detection probes, in order: the one named by the
/// override when there is one, else the candidates for `os`.
pub open spec fn detection_candidates(forced: Option<Seq<char>>, os: Seq<char>) -> Seq<Seq<char>> {
    match forced {
        Some(n) => seq![n],
        None => candidates_for(os),
    }
}

/// How probing one runtime went.
pub enum ProbeOutcome {
    /// The runtime can be used.
    Available,
    /// The runtime cannot be used, for this reason.
    Failed(String),
    /// The runtime did not answer within two seconds.
    TimedOut,
}

/// Where backend detection stands: the runtimes to probe, how many have
/// failed their probe so far, and what each of those reported.
pub struct Detection {
    pub candidates: Vec<String>,
    pub probed: usize,
    pub failures: Vec<BackendProbeResult>,
}

impl Detection {
    /// The failures so far are those of the first candidates, in order.
    pub open spec fn wf(&self) -> bool {
        &&& self.probed <= self.candidates.len()
        &&& self.failures.len() == self.probed
        &&& forall|i: int|
            0 <= i < self.probed ==> (#[trigger] self.failures@[i]).name@ == self.candidates@[i]@
                && !self.failures@[i].available
    }

    /// Detection before any probe: the runtime named by the override
    /// (`PERRY_CONTAINER_BACKEND`) when set, else the candidates for `os`.
    pub fn new(forced: Option<String>, os: &str) -> (r: Detection)
        ensures
            r.wf(),
            views(r.candidates@) == detection_candidates(opt_view(forced), os@),
            r.probed == 0,
    {
        let candidates = match forced {
            Some(n) => {
                let v = vec![n];
                assert(views(v@) =~= seq![v@[0]@]);
                v
            },
            None => backend_candidates(os),
        };
        Detection { candidates, probed: 0, failures: Vec::new() }
    }

    /// The runtime to probe now, if any is left.
    pub fn current(&self) -> (r: Option<&String>)
        requires
            self.wf(),
        ensures
            self.probed < self.candidates.len() ==> r == Some(&self.candidates@[self.probed as int]),
            self.probed == self.candidates.len() ==> r is None,
    {
        if self.probed < self.candidates.len() {
            Some(&self.candidates[self.probed])
        } else {
            None
        }
    }

    /// Records how probing the current runtime went. An available runtime
    /// is the one to use (`true`): the first that answers wins. Otherwise
    /// its failure is recorded, with the reason it gave or a timeout, and
    /// detection moves on (`false`).
    pub fn record(&mut self, outcome: ProbeOutcome) -> (r: bool)
        requires
            old(self).wf(),
            old(self).probed < old(self).candidates.len(),
        ensures
            final(self).wf(),
            final(self).candidates == old(self).candidates,
            r == (outcome is Available),
            r ==> final(self).probed == old(self).probed && final(self).failures@ == old(self).failures@,
            !r ==> final(self).probed == old(self).probed + 1 && final(self).failures@.drop_last()
                == old(self).failures@ && final(self).failures@.last().reason@ == match outcome {
                ProbeOutcome::Failed(m) => m@,
                _ => "probe timed out after 2s"@,
            },
    {
        let reason = match outcome {
            ProbeOutcome::Available => {
                return true;
            },
            ProbeOutcome::Failed(m) => Some(m),
            ProbeOutcome::TimedOut => None,
        };
        let f = probe_failure(self.candidates[self.probed].as_str(), reason);
        let ghost pre = self.failures@;
        self.failures.push(f);
        self.probed = self.probed + 1;
        assert(self.failures@.drop_last() =~= pre);
        false
    }
}

} // verus!
