//! Running `up` step by step, undoing a partial `up`, and the steps of
//! `down`, `start`, `stop` and `restart`.
//!
//! A session decides what comes next from how each backend call went; the
//! drivers make the calls on a [`ContainerBackend`].
use vstd::prelude::*;
use crate::backend::{lit, reply_error, BackendCall, BackendReply, ContainerBackend};
use crate::compose::{
    BackendStep, ComposeEngine, StepView, UpPlan, net_entries, step_call, step_calls, step_views, up_plan_of,
    vol_entries,
};
use crate::error::ComposeError;
use crate::order::{
    distinct_names, law_startup_order_respects_dependencies, law_startup_order_unique, resolve_startup_order, service_deps,
    startup_order_result, valid_order,
};
use crate::types::{
    copy_strings, entry_keys, views, ComposeHandle, ComposeSpec, ContainerHandle, ContainerInfo, ContainerLogs, ContainerSpec,
};

verus! {

// ============ Undoing a partial `up` ============

/// Stop (10 s grace) and force-remove each container, last started first.
pub open spec fn container_teardown(ids: Seq<Seq<char>>) -> Seq<StepView>
    decreases ids.len(),
{
    if ids.len() == 0 {
        Seq::empty()
    } else {
        seq![StepView::Stop(ids.last(), Some(10u32)), StepView::Remove(ids.last(), true)]
            + container_teardown(ids.drop_last())
    }
}

/// Remove each network, in order.
pub open spec fn network_removals(nets: Seq<Seq<char>>) -> Seq<StepView> {
    nets.map_values(|n: Seq<char>| StepView::RemoveNetwork(n))
}

/// Remove each volume, in order.
pub open spec fn volume_removals(vols: Seq<Seq<char>>) -> Seq<StepView> {
    vols.map_values(|v: Seq<char>| StepView::RemoveVolume(v))
}

/// What undoes a partial `up` that started containers `ids` and created
/// networks `nets` and volumes `vols`: the containers, last first, then
/// the networks, then the volumes.
pub open spec fn rollback_of(ids: Seq<Seq<char>>, nets: Seq<Seq<char>>, vols: Seq<Seq<char>>) -> Seq<StepView> {
    container_teardown(ids) + network_removals(nets) + volume_removals(vols)
}

/// The ids of started containers.
pub open spec fn handle_ids(c: Seq<(String, ContainerHandle)>) -> Seq<Seq<char>> {
    c.map_values(|e: (String, ContainerHandle)| e.1.id@)
}

/// The services of started containers.
pub open spec fn started_names(c: Seq<(String, ContainerHandle)>) -> Seq<Seq<char>> {
    c.map_values(|e: (String, ContainerHandle)| e.0@)
}

fn push_removals(out: &mut Vec<BackendStep>, names: &Vec<String>, networks: bool)
    ensures
        step_views(final(out)@) == step_views(old(out)@) + if networks {
            network_removals(views(names@))
        } else {
            volume_removals(views(names@))
        },
{
    let ghost start = step_views(out@);
    let ghost target = if networks {
        network_removals(views(names@))
    } else {
        volume_removals(views(names@))
    };
    let mut i: usize = 0;
    while i < names.len()
        invariant
            i <= names.len(),
            target.len() == names.len(),
            forall|j: int| 0 <= j < names.len() ==> #[trigger] target[j] == if networks {
                StepView::RemoveNetwork(names@[j]@)
            } else {
                StepView::RemoveVolume(names@[j]@)
            },
            step_views(out@) == start + target.take(i as int),
        decreases names.len() - i,
    {
        let ghost pre = step_views(out@);
        if networks {
            out.push(BackendStep::RemoveNetwork { name: names[i].clone() });
        } else {
            out.push(BackendStep::RemoveVolume { name: names[i].clone() });
        }
        assert(step_views(out@) =~= pre.push(target[i as int]));
        assert(target.take(i as int + 1) =~= target.take(i as int).push(target[i as int]));
        i = i + 1;
    }
    assert(target.take(i as int) =~= target);
}

/// The steps that undo a partial `up`: each started container, last
/// first, is stopped with a 10 s grace period and removed by force; then
/// each created network, then each created volume, is removed.
pub fn rollback_steps(
    containers: &Vec<(String, ContainerHandle)>,
    networks: &Vec<String>,
    volumes: &Vec<String>,
) -> (r: Vec<BackendStep>)
    ensures
        step_views(r@) == rollback_of(handle_ids(containers@), views(networks@), views(volumes@)),
{
    let ghost ids = handle_ids(containers@);
    let mut out: Vec<BackendStep> = Vec::new();
    let mut i: usize = containers.len();
    assert(ids.take(i as int) =~= ids);
    while i > 0
        invariant
            i <= containers.len(),
            ids == handle_ids(containers@),
            step_views(out@) + container_teardown(ids.take(i as int)) == container_teardown(ids),
        decreases i,
    {
        let ghost pre = step_views(out@);
        let id = &containers[i - 1].1.id;
        out.push(BackendStep::Stop { id: id.clone(), timeout: Some(10) });
        out.push(BackendStep::Remove { id: id.clone(), force: true });
        proof {
            let t = ids.take(i as int);
            assert(t.drop_last() =~= ids.take(i - 1));
            assert(t.last() == containers@[i - 1].1.id@);
            assert(step_views(out@) =~= pre + seq![
                StepView::Stop(t.last(), Some(10u32)),
                StepView::Remove(t.last(), true),
            ]);
            assert(step_views(out@) + container_teardown(ids.take(i - 1)) =~= pre + container_teardown(t));
        }
        i = i - 1;
    }
    assert(ids.take(0) =~= Seq::<Seq<char>>::empty());
    assert(step_views(out@) =~= container_teardown(ids));
    push_removals(&mut out, networks, true);
    push_removals(&mut out, volumes, false);
    out
}

// ============ Running `up` ============

/// The networks that the steps `s` created, in order.
pub open spec fn created_networks(s: Seq<StepView>) -> Seq<Seq<char>>
    decreases s.len(),
{
    if s.len() == 0 {
        Seq::empty()
    } else {
        let rest = created_networks(s.drop_last());
        match s.last() {
            StepView::CreateNetwork(n) => rest.push(n),
            _ => rest,
        }
    }
}

/// The volumes that the steps `s` created, in order.
pub open spec fn created_volumes(s: Seq<StepView>) -> Seq<Seq<char>>
    decreases s.len(),
{
    if s.len() == 0 {
        Seq::empty()
    } else {
        let rest = created_volumes(s.drop_last());
        match s.last() {
            StepView::CreateVolume(n) => rest.push(n),
            _ => rest,
        }
    }
}

/// The services that the steps `s` started, in order.
pub open spec fn started_services(s: Seq<StepView>) -> Seq<Seq<char>>
    decreases s.len(),
{
    if s.len() == 0 {
        Seq::empty()
    } else {
        let rest = started_services(s.drop_last());
        match s.last() {
            StepView::Run(n) => rest.push(n),
            _ => rest,
        }
    }
}

// ============ Services that are already up ============

/// What `up` does for a service, given what inspecting its container gave.
#[derive(PartialEq, Eq, Structural, Clone, Copy)]
pub enum RunDecision {
    /// Leave the container as it is: it already runs as asked.
    Skip,
    /// Start the container: it exists as asked but does not run.
    Start,
    /// Run a new container.
    Run,
}

/// The container runs.
pub open spec fn is_running(info: ContainerInfo) -> bool {
    info.status@ == "running"@
}

/// The container was made with the configuration that `c` asks for: the
/// same image.
pub open spec fn same_configuration(info: ContainerInfo, c: ContainerSpec) -> bool {
    info.image@ == c.image@
}

/// What `up` does for a service whose container spec is `c`, given what
/// inspecting the container gave: a container of the same configuration
/// is left alone when it runs and started when it does not; otherwise a
/// new container is run.
pub open spec fn decision_of(seen: Result<ContainerInfo, ComposeError>, c: ContainerSpec) -> RunDecision {
    match seen {
        Ok(info) => if same_configuration(info, c) {
            if is_running(info) {
                RunDecision::Skip
            } else {
                RunDecision::Start
            }
        } else {
            RunDecision::Run
        },
        Err(_) => RunDecision::Run,
    }
}

/// Decides what `up` does for a service whose container spec is `c`,
/// given what inspecting the container gave (see [`decision_of`]).
pub fn decide_run(seen: &Result<ContainerInfo, ComposeError>, c: &ContainerSpec) -> (r: RunDecision)
    ensures
        r == decision_of(*seen, *c),
{
    proof {
        reveal_strlit("running");
    }
    match seen {
        Ok(info) => if info.image == c.image {
            if info.status == lit("running") {
                RunDecision::Skip
            } else {
                RunDecision::Start
            }
        } else {
            RunDecision::Run
        },
        Err(_) => RunDecision::Run,
    }
}

/// The calls that step `s` of `up` makes, given what was decided for it: a
/// container step inspects the service's container, then starts it, runs
/// a new one, or does nothing more; any other step makes its own call.
pub open spec fn step_made(s: BackendStep, d: RunDecision) -> Seq<BackendCall> {
    match s {
        BackendStep::Run { service, spec } => seq![BackendCall::Inspect(service@)] + match d {
            RunDecision::Skip => Seq::empty(),
            RunDecision::Start => seq![BackendCall::Start(service@)],
            RunDecision::Run => seq![BackendCall::Run(spec)],
        },
        _ => seq![step_call(s)],
    }
}

/// The calls that the steps `steps` of `up` make, in order, step `i`
/// under decision `ds[i]`.
pub open spec fn calls_made(steps: Seq<BackendStep>, ds: Seq<RunDecision>) -> Seq<BackendCall>
    decreases steps.len(),
{
    if steps.len() == 0 {
        Seq::empty()
    } else {
        calls_made(steps.drop_last(), ds) + step_made(steps.last(), ds[steps.len() - 1])
    }
}

/// The services whose container the steps `steps` ran anew, in order,
/// step `i` under decision `ds[i]`.
pub open spec fn ran_services(steps: Seq<BackendStep>, ds: Seq<RunDecision>) -> Seq<Seq<char>>
    decreases steps.len(),
{
    if steps.len() == 0 {
        Seq::empty()
    } else {
        let rest = ran_services(steps.drop_last(), ds);
        match steps.last() {
            BackendStep::Run { service, .. } => if ds[steps.len() - 1] == RunDecision::Run {
                rest.push(service@)
            } else {
                rest
            },
            _ => rest,
        }
    }
}

/// `ds[i]` is what `up` decided for container step `i` of `steps` from
/// `seen[i]`, what inspecting its container gave.
pub open spec fn decided(
    steps: Seq<BackendStep>,
    ds: Seq<RunDecision>,
    seen: Seq<Result<ContainerInfo, ComposeError>>,
) -> bool {
    &&& ds.len() == steps.len()
    &&& seen.len() == steps.len()
    &&& forall|i: int|
        0 <= i < steps.len() ==> match #[trigger] steps[i] {
            BackendStep::Run { spec: c, .. } => ds[i] == decision_of(seen[i], c),
            _ => true,
        }
}

proof fn lemma_calls_made_same(steps: Seq<BackendStep>, d1: Seq<RunDecision>, d2: Seq<RunDecision>)
    requires
        forall|j: int| 0 <= j < steps.len() ==> d1[j] == d2[j],
    ensures
        calls_made(steps, d1) == calls_made(steps, d2),
        ran_services(steps, d1) == ran_services(steps, d2),
    decreases steps.len(),
{
    if steps.len() > 0 {
        lemma_calls_made_same(steps.drop_last(), d1, d2);
        assert(d1[steps.len() - 1] == d2[steps.len() - 1]);
    }
}

/// One more step adds its calls and, when it ran a container, its service.
proof fn lemma_calls_made_next(steps: Seq<BackendStep>, ds: Seq<RunDecision>, i: int)
    requires
        0 <= i < steps.len(),
    ensures
        calls_made(steps.take(i + 1), ds) == calls_made(steps.take(i), ds) + step_made(steps[i], ds[i]),
        ran_services(steps.take(i + 1), ds) == match steps[i] {
            BackendStep::Run { service, .. } => if ds[i] == RunDecision::Run {
                ran_services(steps.take(i), ds).push(service@)
            } else {
                ran_services(steps.take(i), ds)
            },
            _ => ran_services(steps.take(i), ds),
        },
{
    assert(steps.take(i + 1).drop_last() =~= steps.take(i));
    assert(steps.take(i + 1).last() == steps[i]);
}

/// Where the calls of step `i` of `steps` begin among the calls that the
/// steps make.
pub open spec fn step_start(steps: Seq<BackendStep>, ds: Seq<RunDecision>, i: int) -> int {
    calls_made(steps.take(i), ds).len() as int
}

/// The replies to the calls of step `i`, `replies` being the replies to
/// the calls of the steps, in order.
pub open spec fn step_replies(
    steps: Seq<BackendStep>,
    ds: Seq<RunDecision>,
    replies: Seq<BackendReply>,
    i: int,
) -> Seq<BackendReply> {
    replies.subrange(step_start(steps, ds, i), step_start(steps, ds, i) + step_made(steps[i], ds[i]).len())
}

/// The error that step `s`, under decision `d`, failed with, given the
/// replies `rs` to its calls: that of the call that makes the step (for a
/// container step, the start or run after the inspection; none when the
/// container is left as it is).
pub open spec fn step_failure(s: BackendStep, d: RunDecision, rs: Seq<BackendReply>) -> Option<ComposeError> {
    match s {
        BackendStep::Run { .. } => if d == RunDecision::Skip {
            None
        } else {
            reply_error(rs[1])
        },
        _ => reply_error(rs[0]),
    }
}

/// A container step saw, as `seen`, what inspecting its container gave.
pub open spec fn step_saw(s: BackendStep, rs: Seq<BackendReply>, seen: Result<ContainerInfo, ComposeError>) -> bool {
    s is Run ==> rs[0] == BackendReply::Container(seen)
}

/// Each of the first `n` steps saw what inspecting its container gave,
/// and none of them failed.
pub open spec fn went_through(
    steps: Seq<BackendStep>,
    ds: Seq<RunDecision>,
    seen: Seq<Result<ContainerInfo, ComposeError>>,
    replies: Seq<BackendReply>,
    n: int,
) -> bool {
    forall|i: int|
        0 <= i < n ==> step_saw(steps[i], #[trigger] step_replies(steps, ds, replies, i), seen[i])
            && step_failure(steps[i], ds[i], step_replies(steps, ds, replies, i)) is None
}

/// The ids that the backend gave the containers that the steps ran anew,
/// in order.
pub open spec fn ran_ids(steps: Seq<BackendStep>, ds: Seq<RunDecision>, replies: Seq<BackendReply>) -> Seq<
    Seq<char>,
>
    decreases steps.len(),
{
    if steps.len() == 0 {
        Seq::empty()
    } else {
        let p = steps.drop_last();
        let rest = ran_ids(p, ds, replies);
        let o = calls_made(p, ds).len() as int;
        match steps.last() {
            BackendStep::Run { .. } => if ds[steps.len() - 1] == RunDecision::Run {
                match replies[o + 1] {
                    BackendReply::Handle(Ok(h)) => rest.push(h.id@),
                    _ => rest,
                }
            } else {
                rest
            },
            _ => rest,
        }
    }
}

/// The calls of fewer steps are a prefix of those of more.
proof fn lemma_calls_made_prefix(steps: Seq<BackendStep>, ds: Seq<RunDecision>, a: int, b: int)
    requires
        0 <= a <= b <= steps.len(),
    ensures
        calls_made(steps.take(a), ds).len() <= calls_made(steps.take(b), ds).len(),
        calls_made(steps.take(b), ds).take(calls_made(steps.take(a), ds).len() as int) == calls_made(
            steps.take(a),
            ds,
        ),
    decreases b - a,
{
    if a < b {
        lemma_calls_made_prefix(steps, ds, a, b - 1);
        lemma_calls_made_next(steps, ds, b - 1);
        let x = calls_made(steps.take(a), ds);
        let y = calls_made(steps.take(b - 1), ds);
        assert((y + step_made(steps[b - 1], ds[b - 1])).take(x.len() as int) =~= y.take(x.len() as int));
    } else {
        assert(calls_made(steps.take(b), ds).take(calls_made(steps.take(a), ds).len() as int) =~= calls_made(
            steps.take(a),
            ds,
        ));
    }
}

/// What the first `n` steps went through depends only on their
/// decisions, on what they saw and on the replies to their own calls.
proof fn lemma_went_through_frame(
    steps: Seq<BackendStep>,
    d1: Seq<RunDecision>,
    s1: Seq<Result<ContainerInfo, ComposeError>>,
    r1: Seq<BackendReply>,
    d2: Seq<RunDecision>,
    s2: Seq<Result<ContainerInfo, ComposeError>>,
    r2: Seq<BackendReply>,
    n: int,
)
    requires
        0 <= n <= steps.len(),
        forall|j: int| 0 <= j < n ==> d1[j] == d2[j] && s1[j] == s2[j],
        r1.len() >= calls_made(steps.take(n), d1).len(),
        r2.len() >= calls_made(steps.take(n), d1).len(),
        r1.take(calls_made(steps.take(n), d1).len() as int) == r2.take(calls_made(steps.take(n), d1).len() as int),
    ensures
        went_through(steps, d1, s1, r1, n) == went_through(steps, d2, s2, r2, n),
        forall|j: int| 0 <= j < n ==> #[trigger] step_replies(steps, d1, r1, j) == step_replies(steps, d2, r2, j),
{
    let m = calls_made(steps.take(n), d1).len() as int;
    assert forall|j: int| 0 <= j < n implies #[trigger] step_replies(steps, d1, r1, j) == step_replies(
        steps,
        d2,
        r2,
        j,
    ) by {
        lemma_calls_made_same(steps.take(j), d1, d2);
        lemma_calls_made_next(steps, d1, j);
        lemma_calls_made_prefix(steps, d1, j + 1, n);
        let a = step_start(steps, d1, j);
        let b = a + step_made(steps[j], d1[j]).len();
        assert(b <= m);
        assert(r1.subrange(a, b) =~= r1.take(m).subrange(a, b));
        assert(r2.subrange(a, b) =~= r2.take(m).subrange(a, b));
    }
    if went_through(steps, d1, s1, r1, n) {
        assert forall|i: int| 0 <= i < n implies step_saw(steps[i], #[trigger] step_replies(steps, d2, r2, i), s2[i])
            && step_failure(steps[i], d2[i], step_replies(steps, d2, r2, i)) is None by {
            assert(step_replies(steps, d1, r1, i) == step_replies(steps, d2, r2, i));
        }
    }
    if went_through(steps, d2, s2, r2, n) {
        assert forall|i: int| 0 <= i < n implies step_saw(steps[i], #[trigger] step_replies(steps, d1, r1, i), s1[i])
            && step_failure(steps[i], d1[i], step_replies(steps, d1, r1, i)) is None by {
            assert(step_replies(steps, d1, r1, i) == step_replies(steps, d2, r2, i));
        }
    }
}

/// The ids of the containers run anew depend only on the decisions and
/// on the replies to the steps' own calls.
proof fn lemma_ran_ids_frame(
    steps: Seq<BackendStep>,
    d1: Seq<RunDecision>,
    r1: Seq<BackendReply>,
    d2: Seq<RunDecision>,
    r2: Seq<BackendReply>,
)
    requires
        forall|j: int| 0 <= j < steps.len() ==> d1[j] == d2[j],
        r1.len() >= calls_made(steps, d1).len(),
        r2.len() >= calls_made(steps, d1).len(),
        r1.take(calls_made(steps, d1).len() as int) == r2.take(calls_made(steps, d1).len() as int),
    ensures
        ran_ids(steps, d1, r1) == ran_ids(steps, d2, r2),
    decreases steps.len(),
{
    if steps.len() > 0 {
        let p = steps.drop_last();
        let n = steps.len() as int;
        lemma_calls_made_same(steps, d1, d2);
        lemma_calls_made_same(p, d1, d2);
        let o = calls_made(p, d1).len() as int;
        let m = calls_made(steps, d1).len() as int;
        assert(calls_made(steps, d1) == calls_made(p, d1) + step_made(steps.last(), d1[n - 1]));
        assert(r1.take(o) =~= r1.take(m).take(o));
        assert(r2.take(o) =~= r2.take(m).take(o));
        lemma_ran_ids_frame(p, d1, r1, d2, r2);
        if steps.last() is Run && d1[n - 1] == RunDecision::Run {
            assert(o + 1 < m);
            assert(r1[o + 1] == r1.take(m)[o + 1]);
            assert(r2[o + 1] == r2.take(m)[o + 1]);
        }
    }
}

/// `up` runs no new container for a service whose container already runs
/// with the configuration asked for: for that service it only inspects
/// the container.
pub proof fn law_up_skips_running_services(
    steps: Seq<BackendStep>,
    ds: Seq<RunDecision>,
    seen: Seq<Result<ContainerInfo, ComposeError>>,
    i: int,
)
    requires
        decided(steps, ds, seen),
        0 <= i < steps.len(),
        steps[i] matches BackendStep::Run { spec: c, .. } && seen[i] matches Ok(info) && is_running(info)
            && same_configuration(info, c),
    ensures
        step_made(steps[i], ds[i]) == seq![BackendCall::Inspect(steps[i]->service@)],
        ds[i] == RunDecision::Skip,
{
    assert(seq![BackendCall::Inspect(steps[i]->service@)] + Seq::<BackendCall>::empty() =~= seq![
        BackendCall::Inspect(steps[i]->service@),
    ]);
}

/// The container step `i` of `steps` found its container running with
/// the configuration asked for.
pub open spec fn found_running(
    steps: Seq<BackendStep>,
    seen: Seq<Result<ContainerInfo, ComposeError>>,
    i: int,
) -> bool {
    steps[i] matches BackendStep::Run { spec: c, .. } && seen[i] matches Ok(info) && is_running(info)
        && same_configuration(info, c)
}

/// `call` is the `run` call of container step `i` of `steps`.
pub open spec fn run_call_of(steps: Seq<BackendStep>, i: int, call: BackendCall) -> bool {
    steps[i] matches BackendStep::Run { spec: c, .. } && call == BackendCall::Run(c)
}

/// Every container that `up` runs is one whose inspection did not find it
/// running with the configuration asked for: each `run` call of an `up`
/// comes from a container step, with that step's spec, that did not find
/// its container running as asked. So an `up` that finds every container
/// running as asked (a second `up` of a stack still up) runs none.
pub proof fn law_up_runs_only_what_is_not_running(
    steps: Seq<BackendStep>,
    ds: Seq<RunDecision>,
    seen: Seq<Result<ContainerInfo, ComposeError>>,
)
    requires
        decided(steps, ds, seen),
    ensures
        forall|k: int|
            0 <= k < calls_made(steps, ds).len() && (#[trigger] calls_made(steps, ds)[k]) is Run ==> exists|i: int|
                0 <= i < steps.len() && #[trigger] run_call_of(steps, i, calls_made(steps, ds)[k])
                    && !found_running(steps, seen, i),
    decreases steps.len(),
{
    let n = steps.len() as int;
    if n > 0 {
        let p = steps.drop_last();
        let pd = ds.take(n - 1);
        let ps = seen.take(n - 1);
        assert(decided(p, pd, ps)) by {
            assert forall|i: int| 0 <= i < p.len() implies match #[trigger] p[i] {
                BackendStep::Run { spec: c, .. } => pd[i] == decision_of(ps[i], c),
                _ => true,
            } by {
                assert(p[i] == steps[i]);
                assert(pd[i] == ds[i] && ps[i] == seen[i]);
            }
        }
        law_up_runs_only_what_is_not_running(p, pd, ps);
        lemma_calls_made_same(p, pd, ds);
        let pre = calls_made(p, ds);
        let last = step_made(steps.last(), ds[n - 1]);
        assert(calls_made(steps, ds) == pre + last);
        assert forall|k: int|
            0 <= k < calls_made(steps, ds).len() && (#[trigger] calls_made(steps, ds)[k]) is Run implies exists|
                i: int,
            |
                0 <= i < steps.len() && #[trigger] run_call_of(steps, i, calls_made(steps, ds)[k])
                    && !found_running(steps, seen, i) by {
            if k < pre.len() {
                assert(calls_made(steps, ds)[k] == pre[k]);
                assert(calls_made(p, pd)[k] == pre[k]);
                let i = choose|i: int|
                    0 <= i < p.len() && #[trigger] run_call_of(p, i, calls_made(p, pd)[k]) && !found_running(
                        p,
                        ps,
                        i,
                    );
                assert(p[i] == steps[i] && ps[i] == seen[i]);
                assert(found_running(p, ps, i) == found_running(steps, seen, i));
                assert(run_call_of(steps, i, calls_made(steps, ds)[k]));
            } else {
                assert(calls_made(steps, ds)[k] == last[k - pre.len()]);
                match steps.last() {
                    BackendStep::Run { service, spec: c } => {
                        assert(steps[n - 1] == steps.last());
                        if ds[n - 1] == RunDecision::Run {
                            assert(last =~= seq![BackendCall::Inspect(service@), BackendCall::Run(c)]);
                        } else if ds[n - 1] == RunDecision::Start {
                            assert(last =~= seq![BackendCall::Inspect(service@), BackendCall::Start(service@)]);
                        } else {
                            assert(last =~= seq![BackendCall::Inspect(service@)]);
                        }
                        assert(ds[n - 1] == decision_of(seen[n - 1], c));
                        if calls_made(steps, ds)[k] is Run {
                            assert(run_call_of(steps, n - 1, calls_made(steps, ds)[k]));
                        }
                    },
                    _ => {
                        assert(last =~= seq![step_call(steps.last())]);
                    },
                }
            }
        }
    }
}

/// The project name of a stack: the document's name, or `default`.
pub open spec fn project_name_of(spec: ComposeSpec) -> Seq<char> {
    match spec.name {
        Some(n) => n@,
        None => "default"@,
    }
}

/// The error that `up` reports when a step fails with `e`: a failed
/// container start is reported for its service with `e`'s message; any
/// other failure as it is.
pub open spec fn up_failure_error(step: StepView, e: ComposeError, r: ComposeError) -> bool {
    match step {
        StepView::Run(s) => r matches ComposeError::ServiceStartupFailed { service, message }
            && service@ == s && message@ == e.message_view(),
        _ => r == e,
    }
}

/// An `up` in progress: the plan, how many of its steps have succeeded,
/// and what they created.
pub struct UpSession {
    pub plan: UpPlan,
    /// The number of steps that have succeeded.
    pub next: usize,
    /// The networks created so far, in order.
    pub networks: Vec<String>,
    /// The volumes created so far, in order.
    pub volumes: Vec<String>,
    /// The containers run anew so far, with their services, in order.
    pub started: Vec<(String, ContainerHandle)>,
    /// What was decided for each step that succeeded (for a container
    /// step: skip, start or run).
    pub decisions: Vec<RunDecision>,
    pub project_name: String,
}

/// What a failed `up` does: undo what it created, then report `error`.
pub struct UpFailure {
    pub rollback: Vec<BackendStep>,
    pub error: ComposeError,
}

impl UpSession {
    /// The steps that have succeeded.
    pub open spec fn done_steps(&self) -> Seq<StepView> {
        step_views(self.plan.steps@).take(self.next as int)
    }

    /// What the session records is what its succeeded steps created.
    pub open spec fn wf(&self) -> bool {
        &&& self.next <= self.plan.steps.len()
        &&& views(self.networks@) == created_networks(self.done_steps())
        &&& views(self.volumes@) == created_volumes(self.done_steps())
        &&& self.decisions.len() == self.next
        &&& started_names(self.started@) == ran_services(
            self.plan.steps@.take(self.next as int),
            self.decisions@,
        )
    }

    /// Begins `up` for the engine's document: nothing done yet. Fails as
    /// the startup order does, before any step.
    pub fn begin(engine: &ComposeEngine) -> (r: Result<UpSession, ComposeError>)
        requires
            engine.spec.wf(),
        ensures
            match r {
                Ok(s) => {
                    &&& s.wf()
                    &&& s.next == 0
                    &&& startup_order_result(
                        engine.spec.services.keys(),
                        service_deps(engine.spec),
                        Ok(views(s.plan.order@)),
                    )
                    &&& up_plan_of(engine.spec, views(s.plan.order@), s.plan.steps@)
                    &&& s.project_name@ == project_name_of(engine.spec)
                },
                Err(e) => startup_order_result(
                    engine.spec.services.keys(),
                    service_deps(engine.spec),
                    Err(e),
                ),
            },
    {
        let plan = match engine.up_plan() {
            Ok(p) => p,
            Err(e) => {
                return Err(e);
            },
        };
        let project_name = match &engine.spec.name {
            Some(n) => n.clone(),
            None => String::from_str("default"),
        };
        proof {
            reveal_strlit("default");
        }
        let s = UpSession {
            plan,
            next: 0,
            networks: Vec::new(),
            volumes: Vec::new(),
            started: Vec::new(),
            decisions: Vec::new(),
            project_name,
        };
        assert(s.done_steps() =~= Seq::<StepView>::empty());
        assert(views(s.networks@) =~= Seq::<Seq<char>>::empty());
        assert(views(s.volumes@) =~= Seq::<Seq<char>>::empty());
        assert(started_names(s.started@) =~= Seq::<Seq<char>>::empty());
        assert(s.plan.steps@.take(0) =~= Seq::<BackendStep>::empty());
        Ok(s)
    }

    /// The step to make now, if any is left.
    pub fn current(&self) -> (r: Option<&BackendStep>)
        requires
            self.wf(),
        ensures
            self.next < self.plan.steps.len() ==> r == Some(&self.plan.steps@[self.next as int]),
            self.next == self.plan.steps.len() ==> r is None,
    {
        if self.next < self.plan.steps.len() {
            Some(&self.plan.steps[self.next])
        } else {
            None
        }
    }

    /// Records that the current step succeeded under decision `decision`
    /// (for a container step); `handle` is the new container when the step
    /// ran one.
    pub fn step_succeeded(&mut self, handle: Option<ContainerHandle>, decision: RunDecision)
        requires
            old(self).wf(),
            old(self).next < old(self).plan.steps.len(),
            old(self).plan.steps@[old(self).next as int] is Run && decision == RunDecision::Run
                ==> handle is Some,
        ensures
            final(self).wf(),
            final(self).next == old(self).next + 1,
            final(self).plan == old(self).plan,
            final(self).project_name == old(self).project_name,
            final(self).decisions@ == old(self).decisions@.push(decision),
            match old(self).plan.steps@[old(self).next as int] {
                BackendStep::Run { .. } => final(self).started@ == if decision == RunDecision::Run {
                    old(self).started@.push(
                        (old(self).plan.steps@[old(self).next as int]->service, handle.unwrap()),
                    )
                } else {
                    old(self).started@
                },
                _ => final(self).started@ == old(self).started@,
            },
    {
        let ghost s0 = self.done_steps();
        let ghost all = step_views(self.plan.steps@);
        let ghost d0 = self.decisions@;
        let i = self.next;
        match &self.plan.steps[i] {
            BackendStep::CreateNetwork { name, .. } => {
                self.networks.push(name.clone());
            },
            BackendStep::CreateVolume { name, .. } => {
                self.volumes.push(name.clone());
            },
            BackendStep::Run { service, .. } => {
                if decision == RunDecision::Run {
                    match handle {
                        Some(h) => {
                            self.started.push((service.clone(), h));
                        },
                        None => {},
                    }
                }
            },
            _ => {},
        }
        self.decisions.push(decision);
        self.next = i + 1;
        proof {
            let s1 = self.done_steps();
            assert(s1 =~= s0.push(all[i as int]));
            assert(s1.drop_last() =~= s0);
            assert(views(self.networks@) =~= created_networks(s1));
            assert(views(self.volumes@) =~= created_volumes(s1));
            lemma_calls_made_next(self.plan.steps@, self.decisions@, i as int);
            lemma_calls_made_same(self.plan.steps@.take(i as int), d0, self.decisions@);
            assert(started_names(self.started@) =~= ran_services(
                self.plan.steps@.take(self.next as int),
                self.decisions@,
            ));
        }
    }

    /// The current step failed with `error`: what to undo, and the error
    /// that `up` reports.
    pub fn step_failed(&self, error: ComposeError) -> (r: UpFailure)
        requires
            self.wf(),
            self.next < self.plan.steps.len(),
        ensures
            step_views(r.rollback@) == rollback_of(
                handle_ids(self.started@),
                views(self.networks@),
                views(self.volumes@),
            ),
            up_failure_error(self.plan.steps@[self.next as int].view_step(), error, r.error),
    {
        let rollback = rollback_steps(&self.started, &self.networks, &self.volumes);
        let reported = match &self.plan.steps[self.next] {
            BackendStep::Run { service, .. } => ComposeError::ServiceStartupFailed {
                service: service.clone(),
                message: error.message(),
            },
            _ => error,
        };
        UpFailure { rollback, error: reported }
    }

    /// Every step succeeded: the handle of the stack, with its services in
    /// startup order.
    pub fn finish(&self, stack_id: u64) -> (r: ComposeHandle)
        requires
            self.wf(),
            self.next == self.plan.steps.len(),
        ensures
            r.stack_id == stack_id,
            r.project_name@ == self.project_name@,
            views(r.services@) == views(self.plan.order@),
    {
        ComposeHandle { stack_id, project_name: self.project_name.clone(), services: copy_strings(&self.plan.order) }
    }
}

// ============ Laws ============

proof fn lemma_concat_contains<A>(a: Seq<A>, b: Seq<A>, x: A)
    ensures
        (a + b).contains(x) <==> a.contains(x) || b.contains(x),
{
    if (a + b).contains(x) {
        let k = choose|k: int| 0 <= k < (a + b).len() && (a + b)[k] == x;
        if k < a.len() {
            assert(a[k] == x);
        } else {
            assert(b[k - a.len()] == x);
        }
    }
    if a.contains(x) {
        let k = choose|k: int| 0 <= k < a.len() && a[k] == x;
        assert((a + b)[k] == x);
    }
    if b.contains(x) {
        let k = choose|k: int| 0 <= k < b.len() && b[k] == x;
        assert((a + b)[k + a.len()] == x);
    }
}

proof fn lemma_push_contains<A>(a: Seq<A>, y: A, x: A)
    ensures
        a.push(y).contains(x) <==> a.contains(x) || y == x,
{
    if a.push(y).contains(x) {
        let k = choose|k: int| 0 <= k < a.push(y).len() && a.push(y)[k] == x;
        if k < a.len() {
            assert(a[k] == x);
        }
    }
    if a.contains(x) {
        let k = choose|k: int| 0 <= k < a.len() && a[k] == x;
        assert(a.push(y)[k] == x);
    }
    if y == x {
        assert(a.push(y)[a.len() as int] == x);
    }
}

/// `x` stops or removes container `id`.
pub open spec fn tears_down(x: StepView, id: Seq<char>) -> bool {
    x == StepView::Stop(id, Some(10u32)) || x == StepView::Remove(id, true)
}

proof fn lemma_teardown_contains(ids: Seq<Seq<char>>, x: StepView)
    ensures
        container_teardown(ids).contains(x) <==> (exists|id: Seq<char>|
            #![trigger ids.contains(id)]
            ids.contains(id) && tears_down(x, id)),
    decreases ids.len(),
{
    if ids.len() > 0 {
        let last = ids.last();
        let head = seq![StepView::Stop(last, Some(10u32)), StepView::Remove(last, true)];
        let rest = ids.drop_last();
        lemma_teardown_contains(rest, x);
        lemma_concat_contains(head, container_teardown(rest), x);
        assert(ids =~= rest.push(last));
        assert(head.contains(x) <==> tears_down(x, last)) by {
            if tears_down(x, last) {
                if x == StepView::Stop(last, Some(10u32)) {
                    assert(head[0] == x);
                } else {
                    assert(head[1] == x);
                }
            }
        }
        if container_teardown(ids).contains(x) {
            if head.contains(x) {
                lemma_push_contains(rest, last, last);
                assert(ids.contains(last) && tears_down(x, last));
            } else {
                let id = choose|id: Seq<char>| #![trigger rest.contains(id)] rest.contains(id) && tears_down(x, id);
                lemma_push_contains(rest, last, id);
                assert(ids.contains(id) && tears_down(x, id));
            }
        }
        if exists|id: Seq<char>| #![trigger ids.contains(id)] ids.contains(id) && tears_down(x, id) {
            let id = choose|id: Seq<char>| #![trigger ids.contains(id)] ids.contains(id) && tears_down(x, id);
            lemma_push_contains(rest, last, id);
            if id != last {
                assert(rest.contains(id) && tears_down(x, id));
            }
        }
    }
}

proof fn lemma_map_contains(names: Seq<Seq<char>>, networks: bool, x: StepView)
    ensures
        (if networks { network_removals(names) } else { volume_removals(names) }).contains(x) <==> (exists|n: Seq<char>|
            names.contains(n) && x == if networks {
                StepView::RemoveNetwork(n)
            } else {
                StepView::RemoveVolume(n)
            }),
{
    let m = if networks { network_removals(names) } else { volume_removals(names) };
    if m.contains(x) {
        let k = choose|k: int| 0 <= k < m.len() && m[k] == x;
        assert(names.contains(names[k]));
    }
    if exists|n: Seq<char>| names.contains(n) && x == if networks {
        StepView::RemoveNetwork(n)
    } else {
        StepView::RemoveVolume(n)
    } {
        let n = choose|n: Seq<char>| names.contains(n) && x == if networks {
            StepView::RemoveNetwork(n)
        } else {
            StepView::RemoveVolume(n)
        };
        let k = choose|k: int| 0 <= k < names.len() && names[k] == n;
        assert(m[k] == x);
    }
}

proof fn lemma_created_contains(s: Seq<StepView>, n: Seq<char>)
    ensures
        created_networks(s).contains(n) <==> s.contains(StepView::CreateNetwork(n)),
        created_volumes(s).contains(n) <==> s.contains(StepView::CreateVolume(n)),
    decreases s.len(),
{
    if s.len() > 0 {
        let rest = s.drop_last();
        let last = s.last();
        lemma_created_contains(rest, n);
        assert(s =~= rest.push(last));
        lemma_push_contains(rest, last, StepView::CreateNetwork(n));
        lemma_push_contains(rest, last, StepView::CreateVolume(n));
        match last {
            StepView::CreateNetwork(m) => {
                lemma_push_contains(created_networks(rest), m, n);
            },
            StepView::CreateVolume(m) => {
                lemma_push_contains(created_volumes(rest), m, n);
            },
            _ => {},
        }
    }
}

/// What undoing steps `done` takes back, `ids` being the started
/// containers' ids.
proof fn lemma_rollback_covers(ids: Seq<Seq<char>>, done: Seq<StepView>)
    ensures
        ({
            let r = rollback_of(ids, created_networks(done), created_volumes(done));
            &&& forall|n: Seq<char>|
                r.contains(StepView::RemoveNetwork(n)) <==> #[trigger] done.contains(StepView::CreateNetwork(n))
            &&& forall|n: Seq<char>|
                r.contains(StepView::RemoveVolume(n)) <==> #[trigger] done.contains(StepView::CreateVolume(n))
            &&& forall|id: Seq<char>|
                #![trigger ids.contains(id)]
                r.contains(StepView::Remove(id, true)) <==> ids.contains(id)
            &&& forall|id: Seq<char>|
                #![trigger ids.contains(id)]
                r.contains(StepView::Stop(id, Some(10u32))) <==> ids.contains(id)
            &&& forall|k: int|
                0 <= k < r.len() ==> (#[trigger] r[k] is Stop || r[k] is Remove || r[k] is RemoveNetwork
                    || r[k] is RemoveVolume)
        }),
{
    let nets = created_networks(done);
    let vols = created_volumes(done);
    let a = container_teardown(ids);
    let b = network_removals(nets);
    let c = volume_removals(vols);
    let r = rollback_of(ids, nets, vols);
    assert(r == (a + b) + c);
    assert forall|x: StepView| r.contains(x) <==> a.contains(x) || b.contains(x) || c.contains(x) by {
        lemma_concat_contains(a + b, c, x);
        lemma_concat_contains(a, b, x);
    }
    assert forall|n: Seq<char>|
        r.contains(StepView::RemoveNetwork(n)) <==> #[trigger] done.contains(
            StepView::CreateNetwork(n),
        ) by {
        let x = StepView::RemoveNetwork(n);
        lemma_teardown_contains(ids, x);
        lemma_map_contains(nets, true, x);
        lemma_map_contains(vols, false, x);
        lemma_created_contains(done, n);
    }
    assert forall|n: Seq<char>|
        r.contains(StepView::RemoveVolume(n)) <==> #[trigger] done.contains(
            StepView::CreateVolume(n),
        ) by {
        let x = StepView::RemoveVolume(n);
        lemma_teardown_contains(ids, x);
        lemma_map_contains(nets, true, x);
        lemma_map_contains(vols, false, x);
        lemma_created_contains(done, n);
    }
    assert forall|id: Seq<char>|
        #![trigger ids.contains(id)]
        r.contains(StepView::Remove(id, true)) <==> ids.contains(id) by {
        let x = StepView::Remove(id, true);
        lemma_teardown_contains(ids, x);
        lemma_map_contains(nets, true, x);
        lemma_map_contains(vols, false, x);
        if ids.contains(id) {
            assert(tears_down(x, id));
        }
        if container_teardown(ids).contains(x) {
            let id2 = choose|id2: Seq<char>| #![trigger ids.contains(id2)] ids.contains(id2) && tears_down(x, id2);
        }
    }
    assert forall|id: Seq<char>|
        #![trigger ids.contains(id)]
        r.contains(StepView::Stop(id, Some(10u32))) <==> ids.contains(id) by {
        let x = StepView::Stop(id, Some(10u32));
        lemma_teardown_contains(ids, x);
        lemma_map_contains(nets, true, x);
        lemma_map_contains(vols, false, x);
        if ids.contains(id) {
            assert(tears_down(x, id));
        }
        if container_teardown(ids).contains(x) {
            let id2 = choose|id2: Seq<char>| #![trigger ids.contains(id2)] ids.contains(id2) && tears_down(x, id2);
        }
    }
    assert forall|k: int| 0 <= k < r.len() implies (#[trigger] r[k] is Stop || r[k] is Remove
        || r[k] is RemoveNetwork || r[k] is RemoveVolume) by {
        let x = r[k];
        assert(r.contains(x));
        lemma_teardown_contains(ids, x);
        lemma_map_contains(nets, true, x);
        lemma_map_contains(vols, false, x);
    }
}


/// Undoing a partial `up` removes exactly the networks and the volumes
/// whose creation succeeded, and stops and force-removes exactly the
/// containers that were started; it does nothing else.
pub proof fn law_rollback_undoes_what_up_created(s: UpSession)
    requires
        s.wf(),
    ensures
        ({
            let r = rollback_of(handle_ids(s.started@), views(s.networks@), views(s.volumes@));
            &&& forall|n: Seq<char>|
                r.contains(StepView::RemoveNetwork(n)) <==> #[trigger] s.done_steps().contains(
                    StepView::CreateNetwork(n),
                )
            &&& forall|n: Seq<char>|
                r.contains(StepView::RemoveVolume(n)) <==> #[trigger] s.done_steps().contains(
                    StepView::CreateVolume(n),
                )
            &&& forall|id: Seq<char>|
                #![trigger handle_ids(s.started@).contains(id)]
                r.contains(StepView::Remove(id, true)) <==> handle_ids(s.started@).contains(id)
            &&& forall|id: Seq<char>|
                #![trigger handle_ids(s.started@).contains(id)]
                r.contains(StepView::Stop(id, Some(10u32))) <==> handle_ids(s.started@).contains(id)
            &&& forall|k: int|
                0 <= k < r.len() ==> (#[trigger] r[k] is Stop || r[k] is Remove || r[k] is RemoveNetwork
                    || r[k] is RemoveVolume)
            &&& started_names(s.started@) == ran_services(s.plan.steps@.take(s.next as int), s.decisions@)
        }),
{
    lemma_rollback_covers(handle_ids(s.started@), s.done_steps());
}

// ============ Making the calls ============

/// A random stack id (`rand::random`); nothing is known of its value.
#[verifier::external_body]
fn random_stack_id() -> u64 {
    rand::random::<u64>()
}

/// Makes the call that `step` describes. The started container's handle
/// comes back for a `Run` step, and nothing for the others.
pub fn perform<B: ContainerBackend>(backend: &mut B, step: &BackendStep) -> (r: Result<
    Option<ContainerHandle>,
    ComposeError,
>)
    ensures
        final(backend).calls() == old(backend).calls().push(step_call(*step)),
        r matches Ok(h) ==> (h is Some <==> step is Run),
        final(backend).replies().drop_last() == old(backend).replies(),
        final(backend).replies().len() == old(backend).replies().len() + 1,
        reply_error(final(backend).replies().last()) == match r {
            Err(e) => Some(e),
            Ok(_) => None::<ComposeError>,
        },
        r matches Ok(Some(h)) ==> final(backend).replies().last() == BackendReply::Handle(Ok(h)),
{
    let done: Result<(), ComposeError> = match step {
        BackendStep::CreateNetwork { name, config } => backend.create_network(name.as_str(), config),
        BackendStep::CreateVolume { name, config } => backend.create_volume(name.as_str(), config),
        BackendStep::Run { spec, .. } => {
            return match backend.run(spec) {
                Ok(h) => Ok(Some(h)),
                Err(e) => Err(e),
            };
        },
        BackendStep::Start { id } => backend.start(id.as_str()),
        BackendStep::Stop { id, timeout } => backend.stop(id.as_str(), *timeout),
        BackendStep::Remove { id, force } => backend.remove(id.as_str(), *force),
        BackendStep::RemoveNetwork { name } => backend.remove_network(name.as_str()),
        BackendStep::RemoveVolume { name } => backend.remove_volume(name.as_str()),
    };
    match done {
        Ok(()) => Ok(None),
        Err(e) => Err(e),
    }
}

/// Makes every call of `steps`, in order, whatever each gives.
pub fn perform_all<B: ContainerBackend>(backend: &mut B, steps: &Vec<BackendStep>)
    ensures
        final(backend).calls() == old(backend).calls() + step_calls(steps@),
        final(backend).replies().len() == old(backend).replies().len() + steps@.len(),
        final(backend).replies().take(old(backend).replies().len() as int) == old(backend).replies(),
{
    let ghost c0 = backend.calls();
    let ghost r0 = backend.replies();
    let mut i: usize = 0;
    while i < steps.len()
        invariant
            i <= steps.len(),
            backend.calls() == c0 + step_calls(steps@.take(i as int)),
            backend.replies().len() == r0.len() + i,
            backend.replies().take(r0.len() as int) == r0,
            r0 == old(backend).replies(),
        decreases steps.len() - i,
    {
        let ghost before = backend.replies();
        let _ = perform(backend, &steps[i]);
        assert(backend.replies().take(r0.len() as int) =~= before.take(r0.len() as int));
        proof {
            lemma_step_calls_take_next(steps@, i as int);
        }
        i = i + 1;
    }
    assert(steps@.take(i as int) =~= steps@);
}

/// The replies to `n` calls made in order up to the first that failed:
/// all of them went through when `r` is `Ok`; otherwise the last of them,
/// which is the first that did not, failed with `r`'s error.
pub open spec fn replies_until_error(
    n: int,
    r: Result<(), ComposeError>,
    rb: Seq<BackendReply>,
    ra: Seq<BackendReply>,
) -> bool {
    &&& ra.len() >= rb.len()
    &&& ra.take(rb.len() as int) == rb
    &&& match r {
        Ok(()) => ra.len() == rb.len() + n && forall|j: int|
            rb.len() <= j < ra.len() ==> reply_error(#[trigger] ra[j]) is None,
        Err(e) => {
            &&& rb.len() < ra.len() <= rb.len() + n
            &&& forall|j: int| rb.len() <= j < ra.len() - 1 ==> reply_error(#[trigger] ra[j]) is None
            &&& reply_error(ra.last()) == Some(e)
        },
    }
}

/// Makes the calls of `steps` in order, up to the first that fails, and
/// gives that failure.
pub fn perform_until_error<B: ContainerBackend>(backend: &mut B, steps: &Vec<BackendStep>) -> (r: Result<
    (),
    ComposeError,
>)
    ensures
        match r {
            Ok(()) => final(backend).calls() == old(backend).calls() + step_calls(steps@),
            Err(_) => exists|k: int|
                0 < k <= steps@.len() && final(backend).calls() == old(backend).calls() + step_calls(
                    #[trigger] steps@.take(k),
                ),
        },
        replies_until_error(steps@.len() as int, r, old(backend).replies(), final(backend).replies()),
{
    let ghost c0 = backend.calls();
    let ghost r0 = backend.replies();
    let mut i: usize = 0;
    assert(backend.replies().take(r0.len() as int) =~= r0);
    while i < steps.len()
        invariant
            i <= steps.len(),
            c0 == old(backend).calls(),
            r0 == old(backend).replies(),
            backend.calls() == c0 + step_calls(steps@.take(i as int)),
            backend.replies().len() == r0.len() + i,
            backend.replies().take(r0.len() as int) == r0,
            forall|j: int| r0.len() <= j < backend.replies().len() ==> reply_error(#[trigger] backend.replies()[j]) is None,
        decreases steps.len() - i,
    {
        let ghost rb = backend.replies();
        let outcome = perform(backend, &steps[i]);
        proof {
            lemma_step_calls_take_next(steps@, i as int);
            assert(backend.replies().take(r0.len() as int) =~= rb.take(r0.len() as int));
            assert forall|j: int| r0.len() <= j < backend.replies().len() - 1 implies reply_error(
                #[trigger] backend.replies()[j],
            ) is None by {
                assert(backend.replies()[j] == rb[j]);
            }
        }
        match outcome {
            Ok(_) => {},
            Err(e) => {
                let ghost k = i + 1;
                assert(backend.calls() == c0 + step_calls(steps@.take(k)));
                return Err(e);
            },
        }
        i = i + 1;
    }
    assert(steps@.take(i as int) =~= steps@);
    Ok(())
}

/// Taking one more step adds its call.
proof fn lemma_step_calls_take_next(s: Seq<BackendStep>, i: int)
    requires
        0 <= i < s.len(),
    ensures
        step_calls(s.take(i + 1)) == step_calls(s.take(i)).push(step_call(s[i])),
{
    assert(s.take(i + 1) =~= s.take(i).push(s[i]));
    assert(step_calls(s.take(i + 1)) =~= step_calls(s.take(i)).push(step_call(s[i])));
}

/// What a failed `up` of `spec` called on a backend whose calls went from
/// `before` to `after`, and whose replies went from `rb` to `ra`: the
/// steps of its plan (for startup order `order`) up to and including step
/// `k`, each container step under the decision `ds` records from what
/// inspecting its container gave (`seen`); all steps before `k` went
/// through and step `k` failed with `cause`, as the replies say; then
/// `undo`, which takes back what the steps before `k` created (`ids` being
/// the ids that the backend gave the containers they ran, as its replies
/// say). `e` is the error that `up` reports.
pub open spec fn failed_up_calls(
    spec: ComposeSpec,
    order: Seq<Seq<char>>,
    steps: Seq<BackendStep>,
    ds: Seq<RunDecision>,
    seen: Seq<Result<ContainerInfo, ComposeError>>,
    k: int,
    ids: Seq<Seq<char>>,
    undo: Seq<BackendStep>,
    cause: ComposeError,
    e: ComposeError,
    before: Seq<BackendCall>,
    after: Seq<BackendCall>,
    rb: Seq<BackendReply>,
    ra: Seq<BackendReply>,
) -> bool {
    let done = step_views(steps).take(k);
    let made = calls_made(steps.take(k + 1), ds);
    let rs = ra.subrange(rb.len() as int, (rb.len() + made.len()) as int);
    &&& startup_order_result(spec.services.keys(), service_deps(spec), Ok(order))
    &&& up_plan_of(spec, order, steps)
    &&& 0 <= k < steps.len()
    &&& decided(steps.take(k + 1), ds, seen)
    &&& ra.len() == rb.len() + made.len() + undo.len()
    &&& ra.take(rb.len() as int) == rb
    &&& went_through(steps, ds, seen, rs, k)
    &&& step_saw(steps[k], step_replies(steps, ds, rs, k), seen[k])
    &&& step_failure(steps[k], ds[k], step_replies(steps, ds, rs, k)) == Some(cause)
    &&& ids == ran_ids(steps.take(k), ds, rs)
    &&& ids.len() == ran_services(steps.take(k), ds).len()
    &&& step_views(undo) == rollback_of(ids, created_networks(done), created_volumes(done))
    &&& up_failure_error(steps[k].view_step(), cause, e)
    &&& after == before + made + step_calls(undo)
}

/// What a successful `up` of `spec` called on a backend whose calls went
/// from `before` to `after`, and whose replies went from `rb` to `ra`:
/// every step of its plan `steps` (for startup order `order`), each
/// container step under the decision `ds` records from what inspecting
/// its container gave (`seen`), every step going through as the replies
/// say.
pub open spec fn completed_up_calls(
    spec: ComposeSpec,
    order: Seq<Seq<char>>,
    steps: Seq<BackendStep>,
    ds: Seq<RunDecision>,
    seen: Seq<Result<ContainerInfo, ComposeError>>,
    before: Seq<BackendCall>,
    after: Seq<BackendCall>,
    rb: Seq<BackendReply>,
    ra: Seq<BackendReply>,
) -> bool {
    &&& up_plan_of(spec, order, steps)
    &&& decided(steps, ds, seen)
    &&& after == before + calls_made(steps, ds)
    &&& ra.len() == rb.len() + calls_made(steps, ds).len()
    &&& ra.take(rb.len() as int) == rb
    &&& went_through(steps, ds, seen, ra.skip(rb.len() as int), steps.len() as int)
}

/// What `up` of `spec` gives and calls on a backend whose calls went from
/// `before` to `after` and whose replies went from `rb` to `ra`. It gives
/// `Ok` with the services in their startup order after the calls of
/// [`completed_up_calls`], every step having gone through (so a service
/// whose container already runs with the configuration asked for is only
/// inspected, see [`law_up_skips_running_services`] and
/// [`law_up_idempotent`]); or the ordering error, having called nothing;
/// or, when the reply to a step's call was an error, the error of
/// [`failed_up_calls`] after the calls it describes, the rollback
/// included. Since the replies fix what each step saw and whether it went
/// through, they fix which of these comes out.
pub open spec fn up_outcome(
    spec: ComposeSpec,
    r: Result<Seq<Seq<char>>, ComposeError>,
    before: Seq<BackendCall>,
    after: Seq<BackendCall>,
    rb: Seq<BackendReply>,
    ra: Seq<BackendReply>,
) -> bool {
    match r {
        Ok(order) => {
            &&& startup_order_result(spec.services.keys(), service_deps(spec), Ok(order))
            &&& exists|steps: Seq<BackendStep>, ds: Seq<RunDecision>, seen: Seq<Result<ContainerInfo, ComposeError>>|
                #[trigger] completed_up_calls(spec, order, steps, ds, seen, before, after, rb, ra)
        },
        Err(e) => {
            ||| startup_order_result(spec.services.keys(), service_deps(spec), Err(e)) && after == before && ra
                == rb
            ||| exists|
                order: Seq<Seq<char>>,
                steps: Seq<BackendStep>,
                ds: Seq<RunDecision>,
                seen: Seq<Result<ContainerInfo, ComposeError>>,
                k: int,
                ids: Seq<Seq<char>>,
                undo: Seq<BackendStep>,
                cause: ComposeError,
            | #[trigger] failed_up_calls(spec, order, steps, ds, seen, k, ids, undo, cause, e, before, after, rb, ra)
        },
    }
}

/// A successful `up` runs a container only for a service whose container
/// it did not find running with the configuration asked for: every `run`
/// among the calls it made is that of such a service's container step.
/// A second `up` of a stack whose containers all still run as asked thus
/// runs nothing.
pub proof fn law_up_idempotent(
    spec: ComposeSpec,
    order: Seq<Seq<char>>,
    before: Seq<BackendCall>,
    after: Seq<BackendCall>,
    rb: Seq<BackendReply>,
    ra: Seq<BackendReply>,
)
    requires
        up_outcome(spec, Ok(order), before, after, rb, ra),
    ensures
        exists|steps: Seq<BackendStep>, ds: Seq<RunDecision>, seen: Seq<Result<ContainerInfo, ComposeError>>|
            #[trigger] completed_up_calls(spec, order, steps, ds, seen, before, after, rb, ra) && forall|k: int|
                before.len() <= k < after.len() && (#[trigger] after[k]) is Run ==> exists|i: int|
                    0 <= i < steps.len() && #[trigger] run_call_of(steps, i, after[k]) && !found_running(
                        steps,
                        seen,
                        i,
                    ),
{
    let (steps, ds, seen) = choose|
        steps: Seq<BackendStep>,
        ds: Seq<RunDecision>,
        seen: Seq<Result<ContainerInfo, ComposeError>>,
    | #[trigger] completed_up_calls(spec, order, steps, ds, seen, before, after, rb, ra);
    law_up_runs_only_what_is_not_running(steps, ds, seen);
    assert forall|k: int| before.len() <= k < after.len() && (#[trigger] after[k]) is Run implies exists|i: int|
        0 <= i < steps.len() && #[trigger] run_call_of(steps, i, after[k]) && !found_running(steps, seen, i) by {
        assert(after[k] == calls_made(steps, ds)[k - before.len()]);
    }
}

/// `up` fails only for one of two reasons: the services have no startup
/// order (and then it calls nothing), or the backend refused one of the
/// calls it made; so when every call it made went through, it succeeds
/// or the order was at fault.
pub proof fn law_up_fails_only_on_a_refused_call(
    spec: ComposeSpec,
    e: ComposeError,
    before: Seq<BackendCall>,
    after: Seq<BackendCall>,
    rb: Seq<BackendReply>,
    ra: Seq<BackendReply>,
)
    requires
        up_outcome(spec, Err(e), before, after, rb, ra),
    ensures
        (startup_order_result(spec.services.keys(), service_deps(spec), Err(e)) && after == before && ra == rb)
            || exists|j: int| rb.len() <= j < ra.len() && (#[trigger] reply_error(ra[j])) is Some,
{
    if !(startup_order_result(spec.services.keys(), service_deps(spec), Err(e)) && after == before && ra == rb) {
        let (order, steps, ds, seen, k, ids, undo, cause) = choose|
            order: Seq<Seq<char>>,
            steps: Seq<BackendStep>,
            ds: Seq<RunDecision>,
            seen: Seq<Result<ContainerInfo, ComposeError>>,
            k: int,
            ids: Seq<Seq<char>>,
            undo: Seq<BackendStep>,
            cause: ComposeError,
        | #[trigger] failed_up_calls(spec, order, steps, ds, seen, k, ids, undo, cause, e, before, after, rb, ra);
        let made = calls_made(steps.take(k + 1), ds);
        let rs = ra.subrange(rb.len() as int, (rb.len() + made.len()) as int);
        let a = step_start(steps, ds, k);
        let seg = step_replies(steps, ds, rs, k);
        lemma_calls_made_next(steps, ds, k);
        assert(calls_made(steps.take(k + 1), ds) == calls_made(steps.take(k), ds) + step_made(steps[k], ds[k]));
        let idx: int = if steps[k] is Run {
            1
        } else {
            0
        };
        assert(step_made(steps[k], ds[k]).len() > idx) by {
            if steps[k] is Run {
                assert(ds[k] != RunDecision::Skip);
            }
        }
        assert(seg[idx] == rs[a + idx]);
        assert(rs[a + idx] == ra[rb.len() + a + idx]);
        assert(reply_error(ra[rb.len() + a + idx]) is Some);
    }
}

/// A failed `up` takes back what it created: after the call that failed,
/// it stops and force-removes exactly the containers it had run anew (as
/// many as the services it ran before the failure), each by the id the
/// backend gave it in reply to its run, removes exactly the networks and
/// the volumes it had created, and makes no other call.
pub proof fn law_failed_up_takes_back_what_it_created(
    spec: ComposeSpec,
    order: Seq<Seq<char>>,
    steps: Seq<BackendStep>,
    ds: Seq<RunDecision>,
    seen: Seq<Result<ContainerInfo, ComposeError>>,
    k: int,
    ids: Seq<Seq<char>>,
    undo: Seq<BackendStep>,
    cause: ComposeError,
    e: ComposeError,
    before: Seq<BackendCall>,
    after: Seq<BackendCall>,
    rb: Seq<BackendReply>,
    ra: Seq<BackendReply>,
)
    requires
        failed_up_calls(spec, order, steps, ds, seen, k, ids, undo, cause, e, before, after, rb, ra),
    ensures
        ({
            let done = step_views(steps).take(k);
            let u = step_views(undo);
            &&& after == before + calls_made(steps.take(k + 1), ds) + step_calls(undo)
            &&& forall|n: Seq<char>|
                u.contains(StepView::RemoveNetwork(n)) <==> #[trigger] done.contains(StepView::CreateNetwork(n))
            &&& forall|n: Seq<char>|
                u.contains(StepView::RemoveVolume(n)) <==> #[trigger] done.contains(StepView::CreateVolume(n))
            &&& forall|id: Seq<char>|
                #![trigger ids.contains(id)]
                u.contains(StepView::Remove(id, true)) <==> ids.contains(id)
            &&& forall|id: Seq<char>|
                #![trigger ids.contains(id)]
                u.contains(StepView::Stop(id, Some(10u32))) <==> ids.contains(id)
            &&& ids.len() == ran_services(steps.take(k), ds).len()
            &&& ids == ran_ids(
                steps.take(k),
                ds,
                ra.subrange(rb.len() as int, (rb.len() + calls_made(steps.take(k + 1), ds).len()) as int),
            )
            &&& forall|j: int|
                0 <= j < u.len() ==> (#[trigger] u[j] is Stop || u[j] is Remove || u[j] is RemoveNetwork
                    || u[j] is RemoveVolume)
        }),
{
    lemma_rollback_covers(ids, step_views(steps).take(k));
}

// ============ What `up` starts ============

proof fn lemma_started_concat(a: Seq<StepView>, b: Seq<StepView>)
    ensures
        started_services(a + b) == started_services(a) + started_services(b),
    decreases b.len(),
{
    if b.len() == 0 {
        assert(a + b =~= a);
        assert(started_services(a) + started_services(b) =~= started_services(a));
    } else {
        lemma_started_concat(a, b.drop_last());
        assert((a + b).drop_last() =~= a + b.drop_last());
        assert((a + b).last() == b.last());
        match b.last() {
            StepView::Run(n) => {
                assert((started_services(a) + started_services(b.drop_last())).push(n) =~= started_services(a)
                    + started_services(b.drop_last()).push(n));
            },
            _ => {},
        }
    }
}

proof fn lemma_started_none(s: Seq<StepView>)
    requires
        forall|i: int| 0 <= i < s.len() ==> !(#[trigger] s[i] is Run),
    ensures
        started_services(s) == Seq::<Seq<char>>::empty(),
    decreases s.len(),
{
    if s.len() > 0 {
        assert(!(s[s.len() - 1] is Run));
        lemma_started_none(s.drop_last());
    }
}

proof fn lemma_started_runs(s: Seq<StepView>, o: Seq<Seq<char>>)
    requires
        s.len() == o.len(),
        forall|i: int| 0 <= i < s.len() ==> #[trigger] s[i] == StepView::Run(o[i]),
    ensures
        started_services(s) == o,
    decreases s.len(),
{
    if s.len() > 0 {
        assert(s[s.len() - 1] == StepView::Run(o[o.len() - 1]));
        lemma_started_runs(s.drop_last(), o.drop_last());
        assert(o.drop_last().push(o.last()) =~= o);
    }
}

/// The containers that a plan of `up` starts are its services, in startup
/// order.
proof fn lemma_up_plan_starts_order(spec: ComposeSpec, order: Seq<Seq<char>>, steps: Seq<BackendStep>)
    requires
        up_plan_of(spec, order, steps),
    ensures
        started_services(step_views(steps)) == order,
{
    let nn = net_entries(spec).len() as int;
    let nv = vol_entries(spec).len() as int;
    let sv = step_views(steps);
    let a = sv.take(nn);
    let b = sv.subrange(nn, nn + nv);
    let c = sv.skip(nn + nv);
    assert(sv =~= a + b + c);
    assert forall|i: int| 0 <= i < a.len() implies !(#[trigger] a[i] is Run) by {
        assert(steps.take(nn)[i] == steps[i]);
    }
    assert forall|i: int| 0 <= i < b.len() implies !(#[trigger] b[i] is Run) by {
        assert(steps.subrange(nn, nn + nv)[i] == steps[nn + i]);
    }
    assert forall|i: int| 0 <= i < c.len() implies #[trigger] c[i] == StepView::Run(order[i]) by {
        assert(steps.skip(nn + nv)[i] == steps[nn + nv + i]);
    }
    lemma_started_none(a);
    lemma_started_none(b);
    lemma_started_runs(c, order);
    lemma_started_concat(a, b);
    lemma_started_concat(a + b, c);
}

/// `up` starts every service exactly once, and each only after everything
/// it depends on has started.
pub proof fn law_up_starts_dependencies_first(spec: ComposeSpec, order: Seq<Seq<char>>, steps: Seq<BackendStep>)
    requires
        spec.wf(),
        startup_order_result(spec.services.keys(), service_deps(spec), Ok(order)),
        up_plan_of(spec, order, steps),
    ensures
        valid_order(spec.services.keys(), service_deps(spec), started_services(step_views(steps))),
{
    lemma_up_plan_starts_order(spec, order, steps);
    let keys = spec.services.keys();
    assert(distinct_names(keys)) by {
        assert forall|a: int, b: int| 0 <= a < b < keys.len() implies keys[a] != keys[b] by {
            assert(spec.services.entries@[a].0@ != spec.services.entries@[b].0@);
        }
    }
    law_startup_order_respects_dependencies(keys, service_deps(spec), order);
}

// ============ `up`, `down` and the rest ============

/// Force-remove each service's container, last in `order` first.
pub open spec fn removals_reversed(order: Seq<Seq<char>>) -> Seq<StepView>
    decreases order.len(),
{
    if order.len() == 0 {
        Seq::empty()
    } else {
        seq![StepView::Remove(order.last(), true)] + removals_reversed(order.drop_last())
    }
}

/// What `down` does, given the startup order: remove every service's
/// container in reverse startup order, then every network, then (with
/// `volumes`) every volume.
pub open spec fn down_of(spec: ComposeSpec, order: Seq<Seq<char>>, volumes: bool) -> Seq<StepView> {
    removals_reversed(order) + network_removals(entry_keys(net_entries(spec))) + if volumes {
        volume_removals(entry_keys(vol_entries(spec)))
    } else {
        Seq::empty()
    }
}

/// Start each service, in order.
pub open spec fn starts_of(services: Seq<Seq<char>>) -> Seq<StepView> {
    services.map_values(|s: Seq<char>| StepView::Start(s))
}

/// Stop each service, in order, with the runtime's default grace period.
pub open spec fn stops_of(services: Seq<Seq<char>>) -> Seq<StepView> {
    services.map_values(|s: Seq<char>| StepView::Stop(s, None))
}

/// Stop then start each service, in order.
pub open spec fn restarts_of(services: Seq<Seq<char>>) -> Seq<StepView>
    decreases services.len(),
{
    if services.len() == 0 {
        Seq::empty()
    } else {
        restarts_of(services.drop_last()) + seq![
            StepView::Stop(services.last(), None),
            StepView::Start(services.last()),
        ]
    }
}

/// What `down` of `spec` gives and calls on a backend whose calls went
/// from `before` to `after`: `Ok` after the removals of [`down_of`] for
/// the startup order, or the ordering error, having called nothing.
pub open spec fn down_outcome(
    spec: ComposeSpec,
    volumes: bool,
    r: Result<(), ComposeError>,
    before: Seq<BackendCall>,
    after: Seq<BackendCall>,
) -> bool {
    match r {
        Ok(()) => exists|o: Seq<Seq<char>>, steps: Seq<BackendStep>|
            #![trigger startup_order_result(spec.services.keys(), service_deps(spec), Ok(o)), step_calls(steps)]
            startup_order_result(spec.services.keys(), service_deps(spec), Ok(o))
                && step_views(steps) == down_of(spec, o, volumes) && after == before + step_calls(steps),
        Err(e) => startup_order_result(spec.services.keys(), service_deps(spec), Err(e)) && after == before,
    }
}

/// The calls that steps `planned` make, in order, on a backend whose
/// calls went from `before` to `after`: all of them when `complete`, else
/// those up to and including the one that failed.
pub open spec fn calls_of_steps(
    planned: Seq<StepView>,
    complete: bool,
    before: Seq<BackendCall>,
    after: Seq<BackendCall>,
) -> bool {
    if complete {
        exists|steps: Seq<BackendStep>| step_views(steps) == planned && after == before + #[trigger] step_calls(steps)
    } else {
        exists|steps: Seq<BackendStep>, k: int|
            step_views(steps) == planned && 0 < k <= steps.len() && after == before + #[trigger] step_calls(
                steps.take(k),
            )
    }
}

/// What `down` removes, in order, with the startup order it was computed
/// from.
pub struct DownPlan {
    pub order: Vec<String>,
    pub steps: Vec<BackendStep>,
}

fn names_of_entries<V>(entries: &Vec<(String, V)>) -> (r: Vec<String>)
    ensures
        views(r@) == entry_keys(entries@),
{
    let mut out: Vec<String> = Vec::new();
    let mut i: usize = 0;
    while i < entries.len()
        invariant
            i <= entries.len(),
            out.len() == i,
            forall|j: int| 0 <= j < i ==> (#[trigger] out@[j])@ == entries@[j].0@,
        decreases entries.len() - i,
    {
        out.push(entries[i].0.clone());
        i = i + 1;
    }
    assert(views(out@) =~= entry_keys(entries@));
    out
}

/// The steps that start (`which == 0`), stop (`which == 1`) or restart
/// (otherwise) each service in order.
fn service_steps(services: &Vec<String>, which: u8) -> (r: Vec<BackendStep>)
    ensures
        step_views(r@) == if which == 0 {
            starts_of(views(services@))
        } else if which == 1 {
            stops_of(views(services@))
        } else {
            restarts_of(views(services@))
        },
{
    let ghost vs = views(services@);
    let mut out: Vec<BackendStep> = Vec::new();
    let mut i: usize = 0;
    while i < services.len()
        invariant
            i <= services.len(),
            vs == views(services@),
            step_views(out@) == if which == 0 {
                starts_of(vs.take(i as int))
            } else if which == 1 {
                stops_of(vs.take(i as int))
            } else {
                restarts_of(vs.take(i as int))
            },
        decreases services.len() - i,
    {
        let ghost pre = step_views(out@);
        let ghost t = vs.take(i as int + 1);
        assert(t.drop_last() =~= vs.take(i as int));
        assert(t.last() == services@[i as int]@);
        if which == 0 {
            out.push(BackendStep::Start { id: services[i].clone() });
            assert(step_views(out@) =~= pre.push(StepView::Start(t.last())));
            assert(starts_of(t) =~= starts_of(vs.take(i as int)).push(StepView::Start(t.last())));
        } else if which == 1 {
            out.push(BackendStep::Stop { id: services[i].clone(), timeout: None });
            assert(step_views(out@) =~= pre.push(StepView::Stop(t.last(), None)));
            assert(stops_of(t) =~= stops_of(vs.take(i as int)).push(StepView::Stop(t.last(), None)));
        } else {
            out.push(BackendStep::Stop { id: services[i].clone(), timeout: None });
            out.push(BackendStep::Start { id: services[i].clone() });
            assert(step_views(out@) =~= pre + seq![StepView::Stop(t.last(), None), StepView::Start(t.last())]);
        }
        i = i + 1;
    }
    assert(vs.take(i as int) =~= vs);
    out
}

impl ComposeEngine {
    /// Brings the stack up on `backend`: creates every network and volume,
    /// then runs each service's container in startup order. When a call
    /// fails, what was created is undone (see [`UpSession::step_failed`])
    /// and the failure reported. On success, the handle lists the started
    /// services in startup order, under a random stack id.
    pub fn up<B: ContainerBackend>(&self, backend: &mut B) -> (r: Result<ComposeHandle, ComposeError>)
        requires
            self.spec.wf(),
        ensures
            match r {
                Ok(h) => {
                    &&& h.project_name@ == project_name_of(self.spec)
                    &&& up_outcome(
                        self.spec,
                        Ok(views(h.services@)),
                        old(backend).calls(),
                        final(backend).calls(),
                        old(backend).replies(),
                        final(backend).replies(),
                    )
                },
                Err(e) => up_outcome(
                    self.spec,
                    Err(e),
                    old(backend).calls(),
                    final(backend).calls(),
                    old(backend).replies(),
                    final(backend).replies(),
                ),
            },
    {
        let ghost c0 = backend.calls();
        let ghost r0 = backend.replies();
        let mut session = match UpSession::begin(self) {
            Ok(s) => s,
            Err(e) => {
                return Err(e);
            },
        };
        let ghost plan_order = views(session.plan.order@);
        let ghost plan_steps = session.plan.steps@;
        let ghost mut seen_log: Seq<Result<ContainerInfo, ComposeError>> = Seq::empty();
        proof {
            assert(backend.replies().take(r0.len() as int) =~= r0);
        }
        while session.next < session.plan.steps.len()
            invariant
                session.wf(),
                views(session.plan.order@) == plan_order,
                session.plan.steps@ == plan_steps,
                session.project_name@ == project_name_of(self.spec),
                startup_order_result(self.spec.services.keys(), service_deps(self.spec), Ok(plan_order)),
                up_plan_of(self.spec, plan_order, plan_steps),
                c0 == old(backend).calls(),
                r0 == old(backend).replies(),
                decided(plan_steps.take(session.next as int), session.decisions@, seen_log),
                backend.calls() == c0 + calls_made(plan_steps.take(session.next as int), session.decisions@),
                backend.replies().len() == r0.len() + calls_made(
                    plan_steps.take(session.next as int),
                    session.decisions@,
                ).len(),
                backend.replies().take(r0.len() as int) == r0,
                went_through(
                    plan_steps,
                    session.decisions@,
                    seen_log,
                    backend.replies().skip(r0.len() as int),
                    session.next as int,
                ),
                handle_ids(session.started@) == ran_ids(
                    plan_steps.take(session.next as int),
                    session.decisions@,
                    backend.replies().skip(r0.len() as int),
                ),
            decreases session.plan.steps.len() - session.next,
        {
            let i = session.next;
            let ghost calls_before = backend.calls();
            let ghost replies_before = backend.replies();
            let ghost mut seen_now: Result<ContainerInfo, ComposeError> = arbitrary();
            let ghost mut decision: RunDecision = RunDecision::Run;
            let ghost mut seg: Seq<BackendReply> = Seq::empty();
            let outcome: Result<(Option<ContainerHandle>, RunDecision), ComposeError> = match &session.plan.steps[i] {
                BackendStep::Run { service, spec } => {
                    let seen = backend.inspect(service.as_str());
                    let d = decide_run(&seen, spec);
                    proof {
                        seen_now = seen;
                        decision = d;
                    }
                    match d {
                        RunDecision::Skip => {
                            proof {
                                seg = seq![BackendReply::Container(seen_now)];
                            }
                            Ok((None, d))
                        },
                        RunDecision::Start => {
                            let res = backend.start(service.as_str());
                            proof {
                                seg = seq![BackendReply::Container(seen_now), BackendReply::Done(res)];
                            }
                            match res {
                                Ok(()) => Ok((None, d)),
                                Err(e) => Err(e),
                            }
                        },
                        RunDecision::Run => {
                            let res = backend.run(spec);
                            proof {
                                seg = seq![BackendReply::Container(seen_now), BackendReply::Handle(res)];
                            }
                            match res {
                                Ok(h) => Ok((Some(h), d)),
                                Err(e) => Err(e),
                            }
                        },
                    }
                },
                other => {
                    let res = perform(backend, other);
                    proof {
                        seg = seq![backend.replies().last()];
                        assert(backend.replies() =~= replies_before + seg);
                    }
                    match res {
                        Ok(_) => Ok((None, RunDecision::Run)),
                        Err(e) => Err(e),
                    }
                },
            };
            let ghost d0 = session.decisions@;
            let ghost ds1 = d0.push(decision);
            let ghost seen1 = seen_log.push(seen_now);
            let ghost nr0 = replies_before.skip(r0.len() as int);
            let ghost nr1 = backend.replies().skip(r0.len() as int);
            proof {
                let step = plan_steps[i as int];
                assert(backend.calls() =~= calls_before + step_made(step, decision));
                assert(backend.replies() =~= replies_before + seg);
                assert(seg.len() == step_made(step, decision).len());
                assert(step_saw(step, seg, seen_now));
                assert(step_failure(step, decision, seg) == match outcome {
                    Err(e) => Some(e),
                    Ok(_) => None::<ComposeError>,
                });
                lemma_calls_made_next(plan_steps, ds1, i as int);
                lemma_calls_made_same(plan_steps.take(i as int), session.decisions@, ds1);
                assert(ds1[i as int] == decision);
                assert(backend.calls() =~= c0 + calls_made(plan_steps.take(i + 1), ds1));
                assert(plan_steps.take(i as int) =~= plan_steps.take(i + 1).take(i as int));
                assert forall|j: int| 0 <= j < i + 1 implies match #[trigger] plan_steps.take(i + 1)[j] {
                    BackendStep::Run { spec: c, .. } => ds1[j] == decision_of(seen1[j], c),
                    _ => true,
                } by {
                    if j < i {
                        assert(plan_steps.take(i + 1)[j] == plan_steps.take(i as int)[j]);
                    }
                }
                assert(decided(plan_steps.take(i + 1), ds1, seen1));
                let m = calls_made(plan_steps.take(i as int), session.decisions@).len() as int;
                assert(nr0.len() == m);
                assert(nr1 =~= nr0 + seg);
                assert(nr1.take(m) =~= nr0.take(m));
                lemma_went_through_frame(plan_steps, session.decisions@, seen_log, nr0, ds1, seen1, nr1, i as int);
                assert(step_start(plan_steps, ds1, i as int) == m);
                assert(step_replies(plan_steps, ds1, nr1, i as int) =~= seg);
                assert(backend.replies().take(r0.len() as int) =~= replies_before.take(r0.len() as int));
                assert(backend.replies().len() == r0.len() + calls_made(plan_steps.take(i + 1), ds1).len());
                lemma_ran_ids_frame(plan_steps.take(i as int), session.decisions@, nr0, ds1, nr1);
                assert(plan_steps.take(i + 1).drop_last() =~= plan_steps.take(i as int));
                assert(plan_steps.take(i + 1).last() == step);
                assert(nr1[m + 1] == seg[1] || !(step is Run && decision == RunDecision::Run));
            }
            match outcome {
                Ok((h, d)) => {
                    let ghost started0 = session.started@;
                    session.step_succeeded(h, d);
                    proof {
                        seen_log = seen1;
                        assert(went_through(plan_steps, ds1, seen1, nr1, i + 1)) by {
                            assert forall|j: int| 0 <= j < i + 1 implies step_saw(
                                plan_steps[j],
                                #[trigger] step_replies(plan_steps, ds1, nr1, j),
                                seen1[j],
                            ) && step_failure(plan_steps[j], ds1[j], step_replies(plan_steps, ds1, nr1, j)) is None by {
                                if j < i {
                                    assert(step_replies(plan_steps, d0, nr0, j) == step_replies(
                                        plan_steps,
                                        ds1,
                                        nr1,
                                        j,
                                    ));
                                }
                            }
                        }
                        assert(handle_ids(session.started@) =~= ran_ids(plan_steps.take(i + 1), ds1, nr1));
                    }
                },
                Err(e) => {
                    let ghost cause = e;
                    let ghost ids = handle_ids(session.started@);
                    let ghost mid = backend.calls();
                    let ghost rmid = backend.replies();
                    let failure = session.step_failed(e);
                    perform_all(backend, &failure.rollback);
                    proof {
                        let made = calls_made(plan_steps.take(i + 1), ds1);
                        assert(mid == c0 + made);
                        assert(backend.calls() == mid + step_calls(failure.rollback@));
                        assert(ids.len() == started_names(session.started@).len());
                        let rs = backend.replies().subrange(r0.len() as int, (r0.len() + made.len()) as int);
                        assert(backend.replies().take(rmid.len() as int) == rmid);
                        assert(rs =~= nr1);
                        assert(backend.replies().take(r0.len() as int) =~= rmid.take(r0.len() as int));
                        assert(failed_up_calls(
                            self.spec,
                            plan_order,
                            plan_steps,
                            ds1,
                            seen1,
                            i as int,
                            ids,
                            failure.rollback@,
                            cause,
                            failure.error,
                            c0,
                            backend.calls(),
                            r0,
                            backend.replies(),
                        ));
                    }
                    return Err(failure.error);
                },
            }
        }
        proof {
            assert(plan_steps.take(session.next as int) =~= plan_steps);
            assert(completed_up_calls(
                self.spec,
                plan_order,
                plan_steps,
                session.decisions@,
                seen_log,
                c0,
                backend.calls(),
                r0,
                backend.replies(),
            ));
        }
        let stack_id = random_stack_id();
        let handle = session.finish(stack_id);
        Ok(handle)
    }

    /// What `down` removes: every service's container (force) in reverse
    /// startup order, every network, and with `volumes` every volume.
    /// Fails as the startup order does.
    pub fn down_plan(&self, volumes: bool) -> (r: Result<DownPlan, ComposeError>)
        requires
            self.spec.wf(),
        ensures
            match r {
                Ok(p) => {
                    &&& startup_order_result(
                        self.spec.services.keys(),
                        service_deps(self.spec),
                        Ok(views(p.order@)),
                    )
                    &&& step_views(p.steps@) == down_of(self.spec, views(p.order@), volumes)
                },
                Err(e) => startup_order_result(self.spec.services.keys(), service_deps(self.spec), Err(e)),
            },
    {
        let order = match resolve_startup_order(&self.spec) {
            Ok(o) => o,
            Err(e) => {
                return Err(e);
            },
        };
        let ghost ov = views(order@);
        let mut steps: Vec<BackendStep> = Vec::new();
        let mut i: usize = order.len();
        assert(ov.take(i as int) =~= ov);
        while i > 0
            invariant
                i <= order.len(),
                ov == views(order@),
                step_views(steps@) + removals_reversed(ov.take(i as int)) == removals_reversed(ov),
            decreases i,
        {
            let ghost pre = step_views(steps@);
            steps.push(BackendStep::Remove { id: order[i - 1].clone(), force: true });
            proof {
                let t = ov.take(i as int);
                assert(t.drop_last() =~= ov.take(i - 1));
                assert(t.last() == order@[i - 1]@);
                assert(step_views(steps@) =~= pre + seq![StepView::Remove(t.last(), true)]);
                assert(step_views(steps@) + removals_reversed(ov.take(i - 1)) =~= pre + removals_reversed(t));
            }
            i = i - 1;
        }
        assert(ov.take(0) =~= Seq::<Seq<char>>::empty());
        assert(step_views(steps@) =~= removals_reversed(ov));
        let nets = match &self.spec.networks {
            Some(m) => names_of_entries(&m.entries),
            None => Vec::new(),
        };
        assert(views(nets@) =~= entry_keys(net_entries(self.spec)));
        push_removals(&mut steps, &nets, true);
        let vols = if volumes {
            match &self.spec.volumes {
                Some(m) => names_of_entries(&m.entries),
                None => Vec::new(),
            }
        } else {
            Vec::new()
        };
        proof {
            if volumes {
                assert(views(vols@) =~= entry_keys(vol_entries(self.spec)));
            } else {
                assert(volume_removals(views(vols@)) =~= Seq::<StepView>::empty());
            }
        }
        push_removals(&mut steps, &vols, false);
        Ok(DownPlan { order, steps })
    }

    /// Takes the stack down on `backend` (see [`ComposeEngine::down_plan`]),
    /// making every call whatever each gives. Fails only as the startup
    /// order does.
    pub fn down<B: ContainerBackend>(&self, backend: &mut B, volumes: bool) -> (r: Result<(), ComposeError>)
        requires
            self.spec.wf(),
        ensures
            down_outcome(self.spec, volumes, r, old(backend).calls(), final(backend).calls()),
    {
        match self.down_plan(volumes) {
            Ok(p) => {
                perform_all(backend, &p.steps);
                Ok(())
            },
            Err(e) => Err(e),
        }
    }

    /// The steps of `start`: start each service, in order.
    pub fn start_steps(services: &Vec<String>) -> (r: Vec<BackendStep>)
        ensures
            step_views(r@) == starts_of(views(services@)),
    {
        service_steps(services, 0)
    }

    /// The steps of `stop`: stop each service, in order.
    pub fn stop_steps(services: &Vec<String>) -> (r: Vec<BackendStep>)
        ensures
            step_views(r@) == stops_of(views(services@)),
    {
        service_steps(services, 1)
    }

    /// The steps of `restart`: stop then start each service, in order.
    pub fn restart_steps(services: &Vec<String>) -> (r: Vec<BackendStep>)
        ensures
            step_views(r@) == restarts_of(views(services@)),
    {
        service_steps(services, 2)
    }

    /// Starts each service on `backend`, in order, up to the first failure.
    pub fn start<B: ContainerBackend>(&self, backend: &mut B, services: &Vec<String>) -> (r: Result<
        (),
        ComposeError,
    >)
        ensures
            calls_of_steps(starts_of(views(services@)), r is Ok, old(backend).calls(), final(backend).calls()),
            replies_until_error(starts_of(views(services@)).len() as int, r, old(backend).replies(), final(backend).replies()),
    {
        let steps = Self::start_steps(services);
        perform_until_error(backend, &steps)
    }

    /// Stops each service on `backend`, in order, up to the first failure.
    pub fn stop<B: ContainerBackend>(&self, backend: &mut B, services: &Vec<String>) -> (r: Result<
        (),
        ComposeError,
    >)
        ensures
            calls_of_steps(stops_of(views(services@)), r is Ok, old(backend).calls(), final(backend).calls()),
            replies_until_error(stops_of(views(services@)).len() as int, r, old(backend).replies(), final(backend).replies()),
    {
        let steps = Self::stop_steps(services);
        perform_until_error(backend, &steps)
    }

    /// Stops then starts each service on `backend`, in order, up to the
    /// first failure.
    pub fn restart<B: ContainerBackend>(&self, backend: &mut B, services: &Vec<String>) -> (r: Result<
        (),
        ComposeError,
    >)
        ensures
            calls_of_steps(restarts_of(views(services@)), r is Ok, old(backend).calls(), final(backend).calls()),
            replies_until_error(restarts_of(views(services@)).len() as int, r, old(backend).replies(), final(backend).replies()),
    {
        let steps = Self::restart_steps(services);
        perform_until_error(backend, &steps)
    }

    /// Every container of the backend, stopped ones too.
    pub fn ps<B: ContainerBackend>(&self, backend: &mut B) -> (r: Result<Vec<ContainerInfo>, ComposeError>)
        ensures
            final(backend).calls() == old(backend).calls().push(BackendCall::List(true)),
            final(backend).replies() == old(backend).replies().push(BackendReply::Containers(r)),
    {
        backend.list(true)
    }

    /// The output of a service's container; with no service, empty output.
    pub fn logs<B: ContainerBackend>(&self, backend: &mut B, service: Option<&str>, tail: Option<u32>) -> (r: Result<
        ContainerLogs,
        ComposeError,
    >)
        ensures
            match service {
                Some(s) => {
                    &&& final(backend).calls() == old(backend).calls().push(BackendCall::Logs(s@, tail))
                    &&& final(backend).replies() == old(backend).replies().push(BackendReply::Output(r))
                },
                None => r matches Ok(l) && l.stdout@.len() == 0 && l.stderr@.len() == 0
                    && final(backend).calls() == old(backend).calls() && final(backend).replies() == old(
                    backend,
                ).replies(),
            },
    {
        match service {
            Some(s) => backend.logs(s, tail),
            None => Ok(ContainerLogs { stdout: String::new(), stderr: String::new() }),
        }
    }

    /// Runs `cmd` in a service's container.
    pub fn exec<B: ContainerBackend>(&self, backend: &mut B, service: &str, cmd: &Vec<String>) -> (r: Result<
        ContainerLogs,
        ComposeError,
    >)
        ensures
            final(backend).calls() == old(backend).calls().push(
                BackendCall::Exec(service@, views(cmd@), None, None),
            ),
            final(backend).replies() == old(backend).replies().push(BackendReply::Output(r)),
    {
        backend.exec(service, cmd, None, None)
    }
}

// ============ Laws of `down` ============

proof fn lemma_started_contains(s: Seq<StepView>, n: Seq<char>)
    ensures
        started_services(s).contains(n) <==> s.contains(StepView::Run(n)),
    decreases s.len(),
{
    if s.len() > 0 {
        let rest = s.drop_last();
        let last = s.last();
        lemma_started_contains(rest, n);
        assert(s =~= rest.push(last));
        lemma_push_contains(rest, last, StepView::Run(n));
        match last {
            StepView::Run(m) => {
                lemma_push_contains(started_services(rest), m, n);
            },
            _ => {},
        }
    }
}

proof fn lemma_removals_reversed_contains(order: Seq<Seq<char>>, x: StepView)
    ensures
        removals_reversed(order).contains(x) <==> (exists|n: Seq<char>|
            #![trigger order.contains(n)]
            order.contains(n) && x == StepView::Remove(n, true)),
    decreases order.len(),
{
    if order.len() > 0 {
        let last = order.last();
        let rest = order.drop_last();
        let head = seq![StepView::Remove(last, true)];
        lemma_removals_reversed_contains(rest, x);
        lemma_concat_contains(head, removals_reversed(rest), x);
        assert(order =~= rest.push(last));
        assert(head.contains(x) <==> x == StepView::Remove(last, true)) by {
            if x == StepView::Remove(last, true) {
                assert(head[0] == x);
            }
        }
        if removals_reversed(order).contains(x) {
            if head.contains(x) {
                lemma_push_contains(rest, last, last);
                assert(order.contains(last));
            } else {
                let n = choose|n: Seq<char>| #![trigger rest.contains(n)] rest.contains(n) && x == StepView::Remove(n, true);
                lemma_push_contains(rest, last, n);
                assert(order.contains(n));
            }
        }
        if exists|n: Seq<char>| #![trigger order.contains(n)] order.contains(n) && x == StepView::Remove(n, true) {
            let n = choose|n: Seq<char>| #![trigger order.contains(n)] order.contains(n) && x == StepView::Remove(n, true);
            lemma_push_contains(rest, last, n);
            if n != last {
                assert(rest.contains(n));
            }
        }
    }
}

proof fn lemma_up_plan_networks(spec: ComposeSpec, order: Seq<Seq<char>>, steps: Seq<BackendStep>, n: Seq<char>)
    requires
        up_plan_of(spec, order, steps),
    ensures
        entry_keys(net_entries(spec)).contains(n) <==> step_views(steps).contains(StepView::CreateNetwork(n)),
        entry_keys(vol_entries(spec)).contains(n) <==> step_views(steps).contains(StepView::CreateVolume(n)),
{
    let nets = net_entries(spec);
    let vols = vol_entries(spec);
    let nn = nets.len() as int;
    let nv = vols.len() as int;
    let sv = step_views(steps);
    if entry_keys(nets).contains(n) {
        let k = choose|k: int| 0 <= k < entry_keys(nets).len() && entry_keys(nets)[k] == n;
        assert(steps.take(nn)[k] == steps[k]);
        assert(sv[k] == StepView::CreateNetwork(n));
    }
    if sv.contains(StepView::CreateNetwork(n)) {
        let j = choose|j: int| 0 <= j < sv.len() && sv[j] == StepView::CreateNetwork(n);
        if j < nn {
            assert(steps.take(nn)[j] == steps[j]);
            assert(entry_keys(nets)[j] == n);
        } else if j < nn + nv {
            assert(steps.subrange(nn, nn + nv)[j - nn] == steps[j]);
        } else {
            assert(steps.skip(nn + nv)[j - nn - nv] == steps[j]);
        }
    }
    if entry_keys(vols).contains(n) {
        let k = choose|k: int| 0 <= k < entry_keys(vols).len() && entry_keys(vols)[k] == n;
        assert(steps.subrange(nn, nn + nv)[k] == steps[nn + k]);
        assert(sv[nn + k] == StepView::CreateVolume(n));
    }
    if sv.contains(StepView::CreateVolume(n)) {
        let j = choose|j: int| 0 <= j < sv.len() && sv[j] == StepView::CreateVolume(n);
        if j < nn {
            assert(steps.take(nn)[j] == steps[j]);
        } else if j < nn + nv {
            assert(steps.subrange(nn, nn + nv)[j - nn] == steps[j]);
            assert(entry_keys(vols)[j - nn] == n);
        } else {
            assert(steps.skip(nn + nv)[j - nn - nv] == steps[j]);
        }
    }
}

/// `down` undoes `up`: it force-removes, by name, exactly the containers
/// that `up` runs (each named after its service), removes exactly the
/// networks that `up` creates, and with `volumes` exactly the volumes that
/// `up` creates (without, none).
pub proof fn law_down_undoes_up(
    spec: ComposeSpec,
    order: Seq<Seq<char>>,
    up_steps: Seq<BackendStep>,
    volumes: bool,
)
    requires
        up_plan_of(spec, order, up_steps),
    ensures
        ({
            let d = down_of(spec, order, volumes);
            let u = step_views(up_steps);
            &&& forall|n: Seq<char>|
                #[trigger] d.contains(StepView::Remove(n, true)) <==> u.contains(StepView::Run(n))
            &&& forall|n: Seq<char>|
                #[trigger] d.contains(StepView::RemoveNetwork(n)) <==> u.contains(StepView::CreateNetwork(n))
            &&& forall|n: Seq<char>|
                #[trigger] d.contains(StepView::RemoveVolume(n)) <==> (volumes && u.contains(
                    StepView::CreateVolume(n),
                ))
            &&& forall|k: int|
                0 <= k < d.len() ==> (#[trigger] d[k] is Remove || d[k] is RemoveNetwork || d[k] is RemoveVolume)
        }),
{
    let d = down_of(spec, order, volumes);
    let u = step_views(up_steps);
    let a = removals_reversed(order);
    let b = network_removals(entry_keys(net_entries(spec)));
    let c: Seq<StepView> = if volumes {
        volume_removals(entry_keys(vol_entries(spec)))
    } else {
        Seq::empty()
    };
    assert(d == (a + b) + c);
    lemma_up_plan_starts_order(spec, order, up_steps);
    assert forall|x: StepView| d.contains(x) <==> a.contains(x) || b.contains(x) || c.contains(x) by {
        lemma_concat_contains(a + b, c, x);
        lemma_concat_contains(a, b, x);
    }
    assert forall|n: Seq<char>| #[trigger] d.contains(StepView::Remove(n, true)) <==> u.contains(StepView::Run(n)) by {
        let x = StepView::Remove(n, true);
        lemma_removals_reversed_contains(order, x);
        lemma_map_contains(entry_keys(net_entries(spec)), true, x);
        lemma_map_contains(entry_keys(vol_entries(spec)), false, x);
        lemma_started_contains(u, n);
        if order.contains(n) {
            assert(a.contains(x));
        }
    }
    assert forall|n: Seq<char>|
        #[trigger] d.contains(StepView::RemoveNetwork(n)) <==> u.contains(StepView::CreateNetwork(n)) by {
        let x = StepView::RemoveNetwork(n);
        lemma_removals_reversed_contains(order, x);
        lemma_map_contains(entry_keys(net_entries(spec)), true, x);
        lemma_map_contains(entry_keys(vol_entries(spec)), false, x);
        lemma_up_plan_networks(spec, order, up_steps, n);
        if a.contains(x) {
            let m = choose|m: Seq<char>| #![trigger order.contains(m)] order.contains(m) && x == StepView::Remove(m, true);
        }
    }
    assert forall|n: Seq<char>|
        #[trigger] d.contains(StepView::RemoveVolume(n)) <==> (volumes && u.contains(StepView::CreateVolume(n))) by {
        let x = StepView::RemoveVolume(n);
        lemma_removals_reversed_contains(order, x);
        lemma_map_contains(entry_keys(net_entries(spec)), true, x);
        lemma_map_contains(entry_keys(vol_entries(spec)), false, x);
        lemma_up_plan_networks(spec, order, up_steps, n);
        if a.contains(x) {
            let m = choose|m: Seq<char>| #![trigger order.contains(m)] order.contains(m) && x == StepView::Remove(m, true);
        }
        if b.contains(x) {
            let m = choose|m: Seq<char>| entry_keys(net_entries(spec)).contains(m) && x == StepView::RemoveNetwork(m);
        }
    }
    assert forall|k: int| 0 <= k < d.len() implies (#[trigger] d[k] is Remove || d[k] is RemoveNetwork
        || d[k] is RemoveVolume) by {
        let x = d[k];
        assert(d.contains(x));
        lemma_removals_reversed_contains(order, x);
        lemma_map_contains(entry_keys(net_entries(spec)), true, x);
        lemma_map_contains(entry_keys(vol_entries(spec)), false, x);
    }
}

/// Taking down a stack that `up` brought up removes every service's
/// container (whether `up` ran it, started it or found it running) and
/// every network that `up` created (and, with `volumes`, every volume),
/// and nothing else: `down` works from the same startup order as `up`.
pub proof fn law_down_takes_down_what_up_brought_up(
    spec: ComposeSpec,
    order: Seq<Seq<char>>,
    volumes: bool,
    before_up: Seq<BackendCall>,
    after_up: Seq<BackendCall>,
    after_down: Seq<BackendCall>,
    replies_before_up: Seq<BackendReply>,
    replies_after_up: Seq<BackendReply>,
)
    requires
        spec.wf(),
        up_outcome(spec, Ok(order), before_up, after_up, replies_before_up, replies_after_up),
        down_outcome(spec, volumes, Ok(()), after_up, after_down),
    ensures
        exists|up_steps: Seq<BackendStep>, ds: Seq<RunDecision>, down_steps: Seq<BackendStep>|
            #![trigger calls_made(up_steps, ds), step_calls(down_steps)]
            {
                let u = step_views(up_steps);
                let d = step_views(down_steps);
                &&& up_plan_of(spec, order, up_steps)
                &&& after_up == before_up + calls_made(up_steps, ds)
                &&& after_down == after_up + step_calls(down_steps)
                &&& forall|n: Seq<char>| #[trigger] d.contains(StepView::Remove(n, true)) <==> u.contains(StepView::Run(n))
                &&& forall|n: Seq<char>|
                    #[trigger] d.contains(StepView::RemoveNetwork(n)) <==> u.contains(StepView::CreateNetwork(n))
                &&& forall|n: Seq<char>|
                    #[trigger] d.contains(StepView::RemoveVolume(n)) <==> (volumes && u.contains(
                        StepView::CreateVolume(n),
                    ))
                &&& forall|k: int|
                    0 <= k < d.len() ==> (#[trigger] d[k] is Remove || d[k] is RemoveNetwork || d[k] is RemoveVolume)
            },
{
    let keys = spec.services.keys();
    let deps = service_deps(spec);
    let (up_steps, ds, seen) = choose|
        steps: Seq<BackendStep>,
        ds: Seq<RunDecision>,
        seen: Seq<Result<ContainerInfo, ComposeError>>,
    | #[trigger] completed_up_calls(
        spec,
        order,
        steps,
        ds,
        seen,
        before_up,
        after_up,
        replies_before_up,
        replies_after_up,
    );
    let (o, down_steps) = choose|o: Seq<Seq<char>>, steps: Seq<BackendStep>|
        #![trigger startup_order_result(keys, deps, Ok(o)), step_calls(steps)]
        startup_order_result(keys, deps, Ok(o)) && step_views(steps) == down_of(spec, o, volumes)
            && after_down == after_up + step_calls(steps);
    assert(distinct_names(keys)) by {
        assert forall|a: int, b: int| 0 <= a < b < keys.len() implies keys[a] != keys[b] by {
            assert(spec.services.entries@[a].0@ != spec.services.entries@[b].0@);
        }
    }
    law_startup_order_unique(keys, deps, order, o);
    law_down_undoes_up(spec, order, up_steps, volumes);
}

// ============ The engine as held by TypeScript ============

/// A compose engine as the TypeScript runtime holds it.
pub struct ComposeWrapper {
    pub engine: ComposeEngine,
}

impl ComposeWrapper {
    /// A wrapper around an engine for `spec`; the project name is taken
    /// from the document.
    pub fn new(spec: ComposeSpec, _project_name: String) -> (r: ComposeWrapper)
        ensures
            r.engine.spec == spec,
    {
        ComposeWrapper { engine: ComposeEngine::new(spec) }
    }
}

/// Brings `spec` up on `backend` (see [`ComposeEngine::up`]); a failure is
/// reported by its message.
pub fn compose_up<B: ContainerBackend>(backend: &mut B, spec: ComposeSpec) -> (r: Result<ComposeHandle, String>)
    requires
        spec.wf(),
    ensures
        match r {
            Ok(h) => {
                &&& h.project_name@ == project_name_of(spec)
                &&& up_outcome(
                    spec,
                    Ok(views(h.services@)),
                    old(backend).calls(),
                    final(backend).calls(),
                    old(backend).replies(),
                    final(backend).replies(),
                )
            },
            Err(m) => exists|e: ComposeError|
                m@ == e.message_view() && #[trigger] up_outcome(
                    spec,
                    Err(e),
                    old(backend).calls(),
                    final(backend).calls(),
                    old(backend).replies(),
                    final(backend).replies(),
                ),
        },
{
    let engine = ComposeEngine::new(spec);
    match engine.up(backend) {
        Ok(h) => Ok(ComposeHandle { stack_id: h.stack_id, project_name: h.project_name, services: h.services }),
        Err(e) => Err(e.message()),
    }
}

} // verus!
