//! A backend for tests: it answers from a queue of prepared replies and
//! records each call made on it.
use vstd::prelude::*;
use crate::backend::{
    lit, opt_pair_views, opt_str_view, BackendCall, BackendReply, ContainerBackend, NetworkConfig, VolumeConfig,
};
use crate::error::ComposeError;
use crate::types::{
    copy_opt_string, copy_strings, opt_view, views, ContainerHandle, ContainerInfo, ContainerLogs, ContainerSpec,
    ImageInfo,
};

verus! {

// ============ Copies of container specs ============

/// The views of an optional list of strings.
pub open spec fn opt_strings_view(o: Option<Vec<String>>) -> Option<Seq<Seq<char>>> {
    match o {
        Some(v) => Some(views(v@)),
        None => None,
    }
}

/// The views of an optional list of pairs.
pub open spec fn opt_pairs_view(o: Option<Vec<(String, String)>>) -> Option<Seq<(Seq<char>, Seq<char>)>> {
    match o {
        Some(v) => Some(v@.map_values(|e: (String, String)| (e.0@, e.1@))),
        None => None,
    }
}

/// `a` holds the same texts and settings as `b`.
pub open spec fn same_spec(a: ContainerSpec, b: ContainerSpec) -> bool {
    &&& a.image@ == b.image@
    &&& opt_view(a.name) == opt_view(b.name)
    &&& opt_strings_view(a.ports) == opt_strings_view(b.ports)
    &&& opt_strings_view(a.volumes) == opt_strings_view(b.volumes)
    &&& opt_pairs_view(a.env) == opt_pairs_view(b.env)
    &&& opt_strings_view(a.cmd) == opt_strings_view(b.cmd)
    &&& opt_strings_view(a.entrypoint) == opt_strings_view(b.entrypoint)
    &&& opt_view(a.network) == opt_view(b.network)
    &&& a.rm == b.rm
    &&& a.read_only == b.read_only
    &&& opt_strings_view(a.security_opt) == opt_strings_view(b.security_opt)
    &&& a.isolation_level == b.isolation_level
}

fn copy_opt_strings(o: &Option<Vec<String>>) -> (r: Option<Vec<String>>)
    ensures
        opt_strings_view(r) == opt_strings_view(*o),
{
    match o {
        Some(v) => Some(copy_strings(v)),
        None => None,
    }
}

fn copy_pairs(v: &Vec<(String, String)>) -> (r: Vec<(String, String)>)
    ensures
        r@.map_values(|e: (String, String)| (e.0@, e.1@)) == v@.map_values(
            |e: (String, String)| (e.0@, e.1@),
        ),
{
    let mut out: Vec<(String, String)> = Vec::new();
    let mut i: usize = 0;
    while i < v.len()
        invariant
            i <= v.len(),
            out.len() == i,
            forall|j: int| 0 <= j < i ==> out@[j].0@ == v@[j].0@ && out@[j].1@ == v@[j].1@,
        decreases v.len() - i,
    {
        out.push((v[i].0.clone(), v[i].1.clone()));
        i = i + 1;
    }
    assert(out@.map_values(|e: (String, String)| (e.0@, e.1@)) =~= v@.map_values(
        |e: (String, String)| (e.0@, e.1@),
    ));
    out
}

fn copy_opt_pairs(o: &Option<Vec<(String, String)>>) -> (r: Option<Vec<(String, String)>>)
    ensures
        opt_pairs_view(r) == opt_pairs_view(*o),
{
    match o {
        Some(v) => Some(copy_pairs(v)),
        None => None,
    }
}

/// A copy of `s`.
pub fn copy_spec(s: &ContainerSpec) -> (r: ContainerSpec)
    ensures
        same_spec(r, *s),
{
    ContainerSpec {
        image: s.image.clone(),
        name: copy_opt_string(&s.name),
        ports: copy_opt_strings(&s.ports),
        volumes: copy_opt_strings(&s.volumes),
        env: copy_opt_pairs(&s.env),
        cmd: copy_opt_strings(&s.cmd),
        entrypoint: copy_opt_strings(&s.entrypoint),
        network: copy_opt_string(&s.network),
        rm: s.rm,
        read_only: s.read_only,
        security_opt: copy_opt_strings(&s.security_opt),
        isolation_level: s.isolation_level,
    }
}

// ============ The record ============

/// A call made on a [`MockBackend`], as recorded.
pub enum RecordedCall {
    Run(ContainerSpec),
    Create(ContainerSpec),
    Start(String),
    Stop(String, Option<u32>),
    Remove(String, bool),
    List(bool),
    Inspect(String),
    Logs(String, Option<u32>),
    Exec(String, Vec<String>),
    PullImage(String),
    ListImages,
    RemoveImage(String, bool),
    CreateNetwork(String),
    RemoveNetwork(String),
    CreateVolume(String),
    RemoveVolume(String),
}

/// `rc` records the call `bc` (a network's or volume's options, and an
/// exec's environment and directory, are not kept).
pub open spec fn recorded_as(rc: RecordedCall, bc: BackendCall) -> bool {
    match (rc, bc) {
        (RecordedCall::Run(a), BackendCall::Run(b)) => same_spec(a, b),
        (RecordedCall::Create(a), BackendCall::Create(b)) => same_spec(a, b),
        (RecordedCall::Start(a), BackendCall::Start(b)) => a@ == b,
        (RecordedCall::Stop(a, t), BackendCall::Stop(b, u)) => a@ == b && t == u,
        (RecordedCall::Remove(a, f), BackendCall::Remove(b, g)) => a@ == b && f == g,
        (RecordedCall::List(a), BackendCall::List(b)) => a == b,
        (RecordedCall::Inspect(a), BackendCall::Inspect(b)) => a@ == b,
        (RecordedCall::Logs(a, t), BackendCall::Logs(b, u)) => a@ == b && t == u,
        (RecordedCall::Exec(a, c), BackendCall::Exec(b, d, _, _)) => a@ == b && views(c@) == d,
        (RecordedCall::PullImage(a), BackendCall::PullImage(b)) => a@ == b,
        (RecordedCall::ListImages, BackendCall::ListImages) => true,
        (RecordedCall::RemoveImage(a, f), BackendCall::RemoveImage(b, g)) => a@ == b && f == g,
        (RecordedCall::CreateNetwork(a), BackendCall::CreateNetwork(b, _)) => a@ == b,
        (RecordedCall::RemoveNetwork(a), BackendCall::RemoveNetwork(b)) => a@ == b,
        (RecordedCall::CreateVolume(a), BackendCall::CreateVolume(b, _)) => a@ == b,
        (RecordedCall::RemoveVolume(a), BackendCall::RemoveVolume(b)) => a@ == b,
        _ => false,
    }
}

// ============ Replies ============

/// A prepared reply: what the next call gives back.
pub enum MockReply {
    /// Success with nothing to give back.
    Done,
    Handle(ContainerHandle),
    Containers(Vec<ContainerInfo>),
    Container(ContainerInfo),
    Output(ContainerLogs),
    Images(Vec<ImageInfo>),
    Failure(ComposeError),
}

/// The replies left once the next call has taken its own.
pub open spec fn replies_after(rs: Seq<MockReply>) -> Seq<MockReply> {
    if rs.len() == 0 {
        rs
    } else {
        rs.drop_first()
    }
}

/// What a call answered from `rs` gives back when it expects `fits` of
/// a reply: the empty default `default_ok` when no reply is left, the
/// reply when it fits, its error when it is one, and an error otherwise.
pub open spec fn answered<T>(
    rs: Seq<MockReply>,
    r: Result<T, ComposeError>,
    default_ok: spec_fn(T) -> bool,
    fits: spec_fn(MockReply, T) -> bool,
) -> bool {
    if rs.len() == 0 {
        r matches Ok(v) && default_ok(v)
    } else {
        match rs[0] {
            MockReply::Failure(e) => r == Err::<T, ComposeError>(e),
            other => match r {
                Ok(v) => fits(other, v),
                Err(e) => e is BackendError && forall|v: T| !#[trigger] fits(other, v),
            },
        }
    }
}

// ============ The backend ============

/// A backend that records every call and answers each from a queue of
/// replies, oldest first; with the queue empty a call succeeds with an
/// empty value.
pub struct MockBackend {
    pub calls: Vec<RecordedCall>,
    pub responses: Vec<MockReply>,
    /// The calls made so far, in full, oldest first.
    pub log: Ghost<Seq<BackendCall>>,
    /// What each of those calls gave back, oldest first.
    pub answers: Ghost<Seq<BackendReply>>,
}

/// The error for a reply that does not fit the call it answers.
fn misfit() -> (r: ComposeError)
    ensures
        r is BackendError,
{
    ComposeError::BackendError { code: 1, message: lit("mock reply does not fit the call") }
}

impl MockBackend {
    /// A backend with no calls made and no replies prepared.
    pub fn new() -> (r: MockBackend)
        ensures
            r.calls@.len() == 0,
            r.responses@.len() == 0,
            r.calls() == Seq::<BackendCall>::empty(),
            r.replies() == Seq::<BackendReply>::empty(),
    {
        MockBackend { calls: Vec::new(), responses: Vec::new(), log: Ghost(Seq::empty()), answers: Ghost(Seq::empty()) }
    }

    /// Queues `reply` after those prepared so far.
    pub fn push_response(&mut self, reply: MockReply)
        ensures
            final(self).responses@ == old(self).responses@.push(reply),
            final(self).calls@ == old(self).calls@,
            final(self).calls() == old(self).calls(),
            final(self).replies() == old(self).replies(),
    {
        self.responses.push(reply);
    }

    fn next_reply(&mut self) -> (r: Option<MockReply>)
        ensures
            old(self).responses@.len() == 0 ==> r is None,
            old(self).responses@.len() > 0 ==> r == Some(old(self).responses@[0]),
            final(self).responses@ == replies_after(old(self).responses@),
            final(self).calls@ == old(self).calls@,
            final(self).log == old(self).log,
            final(self).answers == old(self).answers,
    {
        if self.responses.len() == 0 {
            None
        } else {
            let r = self.responses.remove(0);
            assert(self.responses@ =~= old(self).responses@.drop_first());
            Some(r)
        }
    }

    fn record(&mut self, rc: RecordedCall, Ghost(bc): Ghost<BackendCall>)
        requires
            recorded_as(rc, bc),
        ensures
            final(self).calls@ == old(self).calls@.push(rc),
            final(self).log@ == old(self).log@.push(bc),
            final(self).responses@ == old(self).responses@,
            final(self).answers == old(self).answers,
    {
        self.calls.push(rc);
        proof {
            self.log@ = self.log@.push(bc);
        }
    }

    fn unit_reply(&mut self) -> (r: Result<(), ComposeError>)
        ensures
            answered(old(self).responses@, r, |v: ()| true, |m: MockReply, v: ()| m is Done),
            final(self).responses@ == replies_after(old(self).responses@),
            final(self).calls@ == old(self).calls@,
            final(self).log == old(self).log,
            final(self).answers == old(self).answers,
    {
        match self.next_reply() {
            None => Ok(()),
            Some(MockReply::Done) => Ok(()),
            Some(MockReply::Failure(e)) => Err(e),
            Some(_) => Err(misfit()),
        }
    }

    fn handle_reply(&mut self) -> (r: Result<ContainerHandle, ComposeError>)
        ensures
            answered(
                old(self).responses@,
                r,
                |h: ContainerHandle| h.id@.len() == 0 && h.name is None,
                |m: MockReply, h: ContainerHandle| m == MockReply::Handle(h),
            ),
            final(self).responses@ == replies_after(old(self).responses@),
            final(self).calls@ == old(self).calls@,
            final(self).log == old(self).log,
            final(self).answers == old(self).answers,
    {
        match self.next_reply() {
            None => Ok(ContainerHandle { id: String::new(), name: None }),
            Some(MockReply::Handle(h)) => Ok(h),
            Some(MockReply::Failure(e)) => Err(e),
            Some(_) => Err(misfit()),
        }
    }

    fn containers_reply(&mut self) -> (r: Result<Vec<ContainerInfo>, ComposeError>)
        ensures
            answered(
                old(self).responses@,
                r,
                |v: Vec<ContainerInfo>| v@.len() == 0,
                |m: MockReply, v: Vec<ContainerInfo>| m == MockReply::Containers(v),
            ),
            final(self).responses@ == replies_after(old(self).responses@),
            final(self).calls@ == old(self).calls@,
            final(self).log == old(self).log,
            final(self).answers == old(self).answers,
    {
        match self.next_reply() {
            None => Ok(Vec::new()),
            Some(MockReply::Containers(v)) => Ok(v),
            Some(MockReply::Failure(e)) => Err(e),
            Some(_) => Err(misfit()),
        }
    }

    fn container_reply(&mut self) -> (r: Result<ContainerInfo, ComposeError>)
        ensures
            answered(
                old(self).responses@,
                r,
                |c: ContainerInfo| c.id@.len() == 0 && c.name@.len() == 0 && c.status@.len() == 0,
                |m: MockReply, c: ContainerInfo| m == MockReply::Container(c),
            ),
            final(self).responses@ == replies_after(old(self).responses@),
            final(self).calls@ == old(self).calls@,
            final(self).log == old(self).log,
            final(self).answers == old(self).answers,
    {
        match self.next_reply() {
            None => Ok(
                ContainerInfo {
                    id: String::new(),
                    name: String::new(),
                    image: String::new(),
                    status: String::new(),
                    ports: Vec::new(),
                    created: String::new(),
                    ip: None,
                },
            ),
            Some(MockReply::Container(c)) => Ok(c),
            Some(MockReply::Failure(e)) => Err(e),
            Some(_) => Err(misfit()),
        }
    }

    fn output_reply(&mut self) -> (r: Result<ContainerLogs, ComposeError>)
        ensures
            answered(
                old(self).responses@,
                r,
                |o: ContainerLogs| o.stdout@.len() == 0 && o.stderr@.len() == 0,
                |m: MockReply, o: ContainerLogs| m == MockReply::Output(o),
            ),
            final(self).responses@ == replies_after(old(self).responses@),
            final(self).calls@ == old(self).calls@,
            final(self).log == old(self).log,
            final(self).answers == old(self).answers,
    {
        match self.next_reply() {
            None => Ok(ContainerLogs { stdout: String::new(), stderr: String::new() }),
            Some(MockReply::Output(o)) => Ok(o),
            Some(MockReply::Failure(e)) => Err(e),
            Some(_) => Err(misfit()),
        }
    }

    fn images_reply(&mut self) -> (r: Result<Vec<ImageInfo>, ComposeError>)
        ensures
            answered(
                old(self).responses@,
                r,
                |v: Vec<ImageInfo>| v@.len() == 0,
                |m: MockReply, v: Vec<ImageInfo>| m == MockReply::Images(v),
            ),
            final(self).responses@ == replies_after(old(self).responses@),
            final(self).calls@ == old(self).calls@,
            final(self).log == old(self).log,
            final(self).answers == old(self).answers,
    {
        match self.next_reply() {
            None => Ok(Vec::new()),
            Some(MockReply::Images(v)) => Ok(v),
            Some(MockReply::Failure(e)) => Err(e),
            Some(_) => Err(misfit()),
        }
    }
}

impl ContainerBackend for MockBackend {
    closed spec fn calls(&self) -> Seq<BackendCall> {
        self.log@
    }

    closed spec fn replies(&self) -> Seq<BackendReply> {
        self.answers@
    }

    fn backend_name(&self) -> String {
        lit("mock")
    }

    fn check_available(&mut self) -> (r: Result<(), ComposeError>)
        ensures
            r is Ok,
            final(self).calls@ == old(self).calls@,
            final(self).responses@ == old(self).responses@,
    {
        proof {
            self.log@ = self.log@.push(BackendCall::CheckAvailable);
            self.answers@ = self.answers@.push(BackendReply::Done(Ok(())));
        }
        Ok(())
    }

    fn run(&mut self, spec: &ContainerSpec) -> (r: Result<ContainerHandle, ComposeError>)
        ensures
            final(self).calls@.drop_last() == old(self).calls@,
            final(self).calls@.len() == old(self).calls@.len() + 1,
            recorded_as(final(self).calls@.last(), BackendCall::Run(*spec)),
            final(self).responses@ == replies_after(old(self).responses@),
    {
        self.record(RecordedCall::Run(copy_spec(spec)), Ghost(BackendCall::Run(*spec)));
        assert(self.calls@.drop_last() =~= old(self).calls@);
        let r = self.handle_reply();
        proof {
            self.answers@ = self.answers@.push(BackendReply::Handle(r));
        }
        r
    }

    fn create(&mut self, spec: &ContainerSpec) -> (r: Result<ContainerHandle, ComposeError>)
        ensures
            final(self).calls@.drop_last() == old(self).calls@,
            final(self).calls@.len() == old(self).calls@.len() + 1,
            recorded_as(final(self).calls@.last(), BackendCall::Create(*spec)),
            final(self).responses@ == replies_after(old(self).responses@),
    {
        self.record(RecordedCall::Create(copy_spec(spec)), Ghost(BackendCall::Create(*spec)));
        assert(self.calls@.drop_last() =~= old(self).calls@);
        let r = self.handle_reply();
        proof {
            self.answers@ = self.answers@.push(BackendReply::Handle(r));
        }
        r
    }

    fn start(&mut self, id: &str) -> (r: Result<(), ComposeError>)
        ensures
            final(self).calls@.drop_last() == old(self).calls@,
            final(self).calls@.len() == old(self).calls@.len() + 1,
            recorded_as(final(self).calls@.last(), BackendCall::Start(id@)),
            final(self).responses@ == replies_after(old(self).responses@),
    {
        self.record(RecordedCall::Start(lit(id)), Ghost(BackendCall::Start(id@)));
        assert(self.calls@.drop_last() =~= old(self).calls@);
        let r = self.unit_reply();
        proof {
            self.answers@ = self.answers@.push(BackendReply::Done(r));
        }
        r
    }

    fn stop(&mut self, id: &str, timeout: Option<u32>) -> (r: Result<(), ComposeError>)
        ensures
            final(self).calls@.drop_last() == old(self).calls@,
            final(self).calls@.len() == old(self).calls@.len() + 1,
            recorded_as(final(self).calls@.last(), BackendCall::Stop(id@, timeout)),
            final(self).responses@ == replies_after(old(self).responses@),
    {
        self.record(RecordedCall::Stop(lit(id), timeout), Ghost(BackendCall::Stop(id@, timeout)));
        assert(self.calls@.drop_last() =~= old(self).calls@);
        let r = self.unit_reply();
        proof {
            self.answers@ = self.answers@.push(BackendReply::Done(r));
        }
        r
    }

    fn remove(&mut self, id: &str, force: bool) -> (r: Result<(), ComposeError>)
        ensures
            final(self).calls@.drop_last() == old(self).calls@,
            final(self).calls@.len() == old(self).calls@.len() + 1,
            recorded_as(final(self).calls@.last(), BackendCall::Remove(id@, force)),
            final(self).responses@ == replies_after(old(self).responses@),
    {
        self.record(RecordedCall::Remove(lit(id), force), Ghost(BackendCall::Remove(id@, force)));
        assert(self.calls@.drop_last() =~= old(self).calls@);
        let r = self.unit_reply();
        proof {
            self.answers@ = self.answers@.push(BackendReply::Done(r));
        }
        r
    }

    fn list(&mut self, all: bool) -> (r: Result<Vec<ContainerInfo>, ComposeError>)
        ensures
            final(self).calls@.drop_last() == old(self).calls@,
            final(self).calls@.len() == old(self).calls@.len() + 1,
            recorded_as(final(self).calls@.last(), BackendCall::List(all)),
            final(self).responses@ == replies_after(old(self).responses@),
    {
        self.record(RecordedCall::List(all), Ghost(BackendCall::List(all)));
        assert(self.calls@.drop_last() =~= old(self).calls@);
        let r = self.containers_reply();
        proof {
            self.answers@ = self.answers@.push(BackendReply::Containers(r));
        }
        r
    }

    fn inspect(&mut self, id: &str) -> (r: Result<ContainerInfo, ComposeError>)
        ensures
            final(self).calls@.drop_last() == old(self).calls@,
            final(self).calls@.len() == old(self).calls@.len() + 1,
            recorded_as(final(self).calls@.last(), BackendCall::Inspect(id@)),
            final(self).responses@ == replies_after(old(self).responses@),
    {
        self.record(RecordedCall::Inspect(lit(id)), Ghost(BackendCall::Inspect(id@)));
        assert(self.calls@.drop_last() =~= old(self).calls@);
        let r = self.container_reply();
        proof {
            self.answers@ = self.answers@.push(BackendReply::Container(r));
        }
        r
    }

    fn logs(&mut self, id: &str, tail: Option<u32>) -> (r: Result<ContainerLogs, ComposeError>)
        ensures
            final(self).calls@.drop_last() == old(self).calls@,
            final(self).calls@.len() == old(self).calls@.len() + 1,
            recorded_as(final(self).calls@.last(), BackendCall::Logs(id@, tail)),
            final(self).responses@ == replies_after(old(self).responses@),
    {
        self.record(RecordedCall::Logs(lit(id), tail), Ghost(BackendCall::Logs(id@, tail)));
        assert(self.calls@.drop_last() =~= old(self).calls@);
        let r = self.output_reply();
        proof {
            self.answers@ = self.answers@.push(BackendReply::Output(r));
        }
        r
    }

    fn exec(
        &mut self,
        id: &str,
        cmd: &Vec<String>,
        env: Option<&Vec<(String, String)>>,
        workdir: Option<&str>,
    ) -> (r: Result<ContainerLogs, ComposeError>)
        ensures
            final(self).calls@.drop_last() == old(self).calls@,
            final(self).calls@.len() == old(self).calls@.len() + 1,
            recorded_as(
                final(self).calls@.last(),
                BackendCall::Exec(id@, views(cmd@), opt_pair_views(env), opt_str_view(workdir)),
            ),
            final(self).responses@ == replies_after(old(self).responses@),
    {
        self.record(
            RecordedCall::Exec(lit(id), copy_strings(cmd)),
            Ghost(BackendCall::Exec(id@, views(cmd@), opt_pair_views(env), opt_str_view(workdir))),
        );
        assert(self.calls@.drop_last() =~= old(self).calls@);
        let r = self.output_reply();
        proof {
            self.answers@ = self.answers@.push(BackendReply::Output(r));
        }
        r
    }

    fn pull_image(&mut self, reference: &str) -> (r: Result<(), ComposeError>)
        ensures
            final(self).calls@.drop_last() == old(self).calls@,
            final(self).calls@.len() == old(self).calls@.len() + 1,
            recorded_as(final(self).calls@.last(), BackendCall::PullImage(reference@)),
            final(self).responses@ == replies_after(old(self).responses@),
    {
        self.record(RecordedCall::PullImage(lit(reference)), Ghost(BackendCall::PullImage(reference@)));
        assert(self.calls@.drop_last() =~= old(self).calls@);
        let r = self.unit_reply();
        proof {
            self.answers@ = self.answers@.push(BackendReply::Done(r));
        }
        r
    }

    fn list_images(&mut self) -> (r: Result<Vec<ImageInfo>, ComposeError>)
        ensures
            final(self).calls@.drop_last() == old(self).calls@,
            final(self).calls@.len() == old(self).calls@.len() + 1,
            recorded_as(final(self).calls@.last(), BackendCall::ListImages),
            final(self).responses@ == replies_after(old(self).responses@),
    {
        self.record(RecordedCall::ListImages, Ghost(BackendCall::ListImages));
        assert(self.calls@.drop_last() =~= old(self).calls@);
        let r = self.images_reply();
        proof {
            self.answers@ = self.answers@.push(BackendReply::Images(r));
        }
        r
    }

    fn remove_image(&mut self, reference: &str, force: bool) -> (r: Result<(), ComposeError>)
        ensures
            final(self).calls@.drop_last() == old(self).calls@,
            final(self).calls@.len() == old(self).calls@.len() + 1,
            recorded_as(final(self).calls@.last(), BackendCall::RemoveImage(reference@, force)),
            final(self).responses@ == replies_after(old(self).responses@),
    {
        self.record(
            RecordedCall::RemoveImage(lit(reference), force),
            Ghost(BackendCall::RemoveImage(reference@, force)),
        );
        assert(self.calls@.drop_last() =~= old(self).calls@);
        let r = self.unit_reply();
        proof {
            self.answers@ = self.answers@.push(BackendReply::Done(r));
        }
        r
    }

    fn create_network(&mut self, name: &str, config: &NetworkConfig) -> (r: Result<(), ComposeError>)
        ensures
            final(self).calls@.drop_last() == old(self).calls@,
            final(self).calls@.len() == old(self).calls@.len() + 1,
            recorded_as(final(self).calls@.last(), BackendCall::CreateNetwork(name@, *config)),
            final(self).responses@ == replies_after(old(self).responses@),
    {
        self.record(RecordedCall::CreateNetwork(lit(name)), Ghost(BackendCall::CreateNetwork(name@, *config)));
        assert(self.calls@.drop_last() =~= old(self).calls@);
        let r = self.unit_reply();
        proof {
            self.answers@ = self.answers@.push(BackendReply::Done(r));
        }
        r
    }

    fn remove_network(&mut self, name: &str) -> (r: Result<(), ComposeError>)
        ensures
            final(self).calls@.drop_last() == old(self).calls@,
            final(self).calls@.len() == old(self).calls@.len() + 1,
            recorded_as(final(self).calls@.last(), BackendCall::RemoveNetwork(name@)),
            final(self).responses@ == replies_after(old(self).responses@),
    {
        self.record(RecordedCall::RemoveNetwork(lit(name)), Ghost(BackendCall::RemoveNetwork(name@)));
        assert(self.calls@.drop_last() =~= old(self).calls@);
        let r = self.unit_reply();
        proof {
            self.answers@ = self.answers@.push(BackendReply::Done(r));
        }
        r
    }

    fn create_volume(&mut self, name: &str, config: &VolumeConfig) -> (r: Result<(), ComposeError>)
        ensures
            final(self).calls@.drop_last() == old(self).calls@,
            final(self).calls@.len() == old(self).calls@.len() + 1,
            recorded_as(final(self).calls@.last(), BackendCall::CreateVolume(name@, *config)),
            final(self).responses@ == replies_after(old(self).responses@),
    {
        self.record(RecordedCall::CreateVolume(lit(name)), Ghost(BackendCall::CreateVolume(name@, *config)));
        assert(self.calls@.drop_last() =~= old(self).calls@);
        let r = self.unit_reply();
        proof {
            self.answers@ = self.answers@.push(BackendReply::Done(r));
        }
        r
    }

    fn remove_volume(&mut self, name: &str) -> (r: Result<(), ComposeError>)
        ensures
            final(self).calls@.drop_last() == old(self).calls@,
            final(self).calls@.len() == old(self).calls@.len() + 1,
            recorded_as(final(self).calls@.last(), BackendCall::RemoveVolume(name@)),
            final(self).responses@ == replies_after(old(self).responses@),
    {
        self.record(RecordedCall::RemoveVolume(lit(name)), Ghost(BackendCall::RemoveVolume(name@)));
        assert(self.calls@.drop_last() =~= old(self).calls@);
        let r = self.unit_reply();
        proof {
            self.answers@ = self.answers@.push(BackendReply::Done(r));
        }
        r
    }
}

} // verus!
