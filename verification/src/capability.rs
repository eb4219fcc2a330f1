//! Running a one-off tool container with only the capabilities granted to
//! it.
use vstd::prelude::*;
use crate::backend::{decimal, lit, u32_to_decimal, BackendCall, BackendReply, ContainerBackend};
use crate::error::ComposeError;
use crate::service::random_suffix;
use crate::types::{copy_strings, views, ContainerHandle, ContainerLogs, ContainerSpec};
use crate::verification::{digest_of, VerificationCache};

verus! {

/// What a capability container may use: the network, and environment
/// variables (in the order given).
pub struct CapabilityGrants {
    pub network: bool,
    pub env: Option<Vec<(String, String)>>,
}

/// The container that runs capability `name`: the image pinned to its
/// digest, a name with a random number, no network unless granted,
/// removed when done, read-only, with the granted environment and the
/// command.
pub open spec fn capability_spec_of(
    name: Seq<char>,
    image: Seq<char>,
    digest: Seq<char>,
    cmd: Seq<Seq<char>>,
    grants: CapabilityGrants,
    suffix: u32,
    c: ContainerSpec,
) -> bool {
    &&& c.image@ == image + "@"@ + digest
    &&& c.name matches Some(n) && n@ == "alloy-cap-"@ + name + "-"@ + decimal(suffix as nat)
    &&& c.ports is None
    &&& c.volumes is None
    &&& (if grants.network {
        c.network is None
    } else {
        c.network matches Some(n) && n@ == "none"@
    })
    &&& c.rm == Some(true)
    &&& c.env == grants.env
    &&& c.cmd matches Some(v) && views(v@) == cmd
    &&& c.read_only == Some(true)
    &&& c.entrypoint is None
    &&& c.security_opt is None
    &&& c.isolation_level is None
}

/// The container that runs capability `name` with image `image` at
/// `digest`, numbered `suffix`.
pub fn capability_spec(
    name: &str,
    image: &str,
    digest: &str,
    cmd: &Vec<String>,
    grants: CapabilityGrants,
    suffix: u32,
) -> (r: ContainerSpec)
    ensures
        capability_spec_of(name@, image@, digest@, views(cmd@), grants, suffix, r),
{
    let mut pinned = lit(image);
    pinned.append("@");
    pinned.append(digest);
    let mut cname = lit("alloy-cap-");
    cname.append(name);
    cname.append("-");
    let n = u32_to_decimal(suffix);
    cname.append(n.as_str());
    let network = if grants.network {
        None
    } else {
        Some(lit("none"))
    };
    ContainerSpec {
        image: pinned,
        name: Some(cname),
        ports: None,
        volumes: None,
        env: grants.env,
        cmd: Some(copy_strings(cmd)),
        entrypoint: None,
        network,
        rm: Some(true),
        read_only: Some(true),
        security_opt: None,
        isolation_level: None,
    }
}

/// The backend refused to run the container: its one reply is the error
/// that `r` gives.
pub open spec fn run_refused(
    rb: Seq<BackendReply>,
    ra: Seq<BackendReply>,
    r: Result<ContainerLogs, ComposeError>,
) -> bool {
    &&& ra.len() == rb.len() + 1
    &&& ra.drop_last() == rb
    &&& ra.last() matches BackendReply::Handle(Err(e))
    &&& r == Err::<ContainerLogs, ComposeError>(e)
}

/// Verifies `image`, runs `cmd` in a capability container of it on
/// `backend` (see [`capability_spec`]), and gives what the backend
/// replied to the request for the container's output (or its refusal to
/// run the container).
/// The image is verified (and its digest remembered) before anything
/// runs.
pub fn alloy_container_run_capability<B: ContainerBackend>(
    cache: &mut VerificationCache,
    backend: &mut B,
    name: &str,
    image: &str,
    cmd: &Vec<String>,
    grants: CapabilityGrants,
) -> (r: Result<ContainerLogs, ComposeError>)
    requires
        old(cache).wf(),
    ensures
        final(cache).wf(),
        final(cache)@ == old(cache)@.insert(image@, digest_of(old(cache)@, image)),
        exists|suffix: u32, c: ContainerSpec|
            #[trigger] capability_spec_of(
                name@,
                image@,
                digest_of(old(cache)@, image),
                views(cmd@),
                grants,
                suffix,
                c,
            ) && {
                let ran = old(backend).calls().push(BackendCall::Run(c));
                let rb = old(backend).replies();
                let ra = final(backend).replies();
                ||| final(backend).calls() == ran && run_refused(rb, ra, r)
                ||| exists|h: ContainerHandle|
                    final(backend).calls() == ran.push(BackendCall::Logs(h.id@, None)) && ra == #[trigger] rb.push(
                        BackendReply::Handle(Ok(h)),
                    ).push(BackendReply::Output(r))
            },
{
    let digest = match cache.verify_image(image) {
        Ok(d) => d,
        Err(reason) => {
            return Err(ComposeError::VerificationFailed { image: lit(image), reason });
        },
    };
    let ghost granted = grants;
    let suffix = random_suffix();
    let spec = capability_spec(name, image, digest.as_str(), cmd, grants, suffix);
    assert(capability_spec_of(name@, image@, digest@, views(cmd@), granted, suffix, spec));
    let ghost rb = backend.replies();
    let res = backend.run(&spec);
    assert(backend.replies().drop_last() =~= rb);
    let handle = match res {
        Ok(h) => h,
        Err(e) => {
            assert(run_refused(rb, backend.replies(), Err::<ContainerLogs, ComposeError>(e)));
            return Err(e);
        },
    };
    let ghost ran = backend.calls();
    let out = backend.logs(handle.id.as_str(), None);
    assert(backend.calls() == ran.push(BackendCall::Logs(handle.id@, None)));
    out
}

} // verus!
