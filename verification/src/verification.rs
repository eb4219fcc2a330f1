//! Image verification and hardened (Chainguard) base images.
use vstd::prelude::*;
use crate::backend::{decimal, lit, u64_to_decimal};
use crate::env::EnvMap;

verus! {

// ============ Base images ============

/// The tools that have a Chainguard image under `cgr.dev/chainguard/`.
pub open spec fn chainguard_tools() -> Seq<Seq<char>> {
    seq![
        "git"@,
        "node"@,
        "rust"@,
        "python"@,
        "go"@,
        "bash"@,
        "busybox"@,
        "curl"@,
        "jdk"@,
        "nginx"@,
        "redis"@,
        "postgres"@,
        "wolfi-base"@,
        "alpine-base"@,
        "static"@,
    ]
}

fn chainguard_catalogue() -> (r: Vec<String>)
    ensures
        r.len() == chainguard_tools().len(),
        forall|i: int| 0 <= i < r.len() ==> (#[trigger] r@[i])@ == chainguard_tools()[i],
{
    let v = vec![
        lit("git"),
        lit("node"),
        lit("rust"),
        lit("python"),
        lit("go"),
        lit("bash"),
        lit("busybox"),
        lit("curl"),
        lit("jdk"),
        lit("nginx"),
        lit("redis"),
        lit("postgres"),
        lit("wolfi-base"),
        lit("alpine-base"),
        lit("static"),
    ];
    v
}

/// The hardened image that containers are built on by default.
pub fn get_default_base_image() -> (r: &'static str)
    ensures
        r@ == "cgr.dev/chainguard/alpine-base"@,
{
    "cgr.dev/chainguard/alpine-base"
}

/// The Chainguard image of `tool`, when it has one.
pub fn get_chainguard_image(tool: &str) -> (r: Option<String>)
    ensures
        chainguard_tools().contains(tool@) ==> (r matches Some(s) && s@ == "cgr.dev/chainguard/"@
            + tool@),
        !chainguard_tools().contains(tool@) ==> r is None,
{
    let tools = chainguard_catalogue();
    let t = lit(tool);
    let mut i: usize = 0;
    while i < tools.len()
        invariant
            i <= tools.len(),
            t@ == tool@,
            tools.len() == chainguard_tools().len(),
            forall|j: int| 0 <= j < tools.len() ==> (#[trigger] tools@[j])@ == chainguard_tools()[j],
            forall|j: int| 0 <= j < i ==> chainguard_tools()[j] != tool@,
        decreases tools.len() - i,
    {
        if tools[i] == t {
            let mut image = lit("cgr.dev/chainguard/");
            image.append(tool);
            assert(chainguard_tools()[i as int] == tool@);
            return Some(image);
        }
        i = i + 1;
    }
    proof {
        if chainguard_tools().contains(tool@) {
            let k = choose|k: int| 0 <= k < chainguard_tools().len() && chainguard_tools()[k] == tool@;
            assert(chainguard_tools()[k] != tool@);
        }
    }
    None
}

// ============ Verified digests ============

/// The digest that verification gives an image seen for the first time:
/// `sha256:` and the byte length of its reference.
pub open spec fn fresh_digest(reference: &str) -> Seq<char> {
    "sha256:"@ + decimal(reference.len() as nat)
}

/// What verifying `reference` gives with `cache` holding the earlier
/// results: the cached digest, else a fresh one.
pub open spec fn digest_of(cache: Map<Seq<char>, Seq<char>>, reference: &str) -> Seq<char> {
    if cache.contains_key(reference@) {
        cache[reference@]
    } else {
        fresh_digest(reference)
    }
}

/// The digests of the images verified so far, by reference.
pub struct VerificationCache {
    digests: EnvMap,
}

impl View for VerificationCache {
    type V = Map<Seq<char>, Seq<char>>;

    closed spec fn view(&self) -> Map<Seq<char>, Seq<char>> {
        self.digests@
    }
}

impl VerificationCache {
    /// The cache is well formed.
    pub closed spec fn wf(&self) -> bool {
        self.digests.wf()
    }

    /// An empty cache.
    pub fn new() -> (r: VerificationCache)
        ensures
            r.wf(),
            r@ == Map::<Seq<char>, Seq<char>>::empty(),
    {
        VerificationCache { digests: EnvMap::new() }
    }

    /// Verifies `reference` and gives its digest: the one found earlier if
    /// any, else a fresh one, which is remembered.
    pub fn verify_image(&mut self, reference: &str) -> (r: Result<String, String>)
        requires
            old(self).wf(),
        ensures
            final(self).wf(),
            r matches Ok(d) && d@ == digest_of(old(self)@, reference),
            final(self)@ == old(self)@.insert(reference@, digest_of(old(self)@, reference)),
    {
        match self.digests.get(reference) {
            Some(d) => {
                proof {
                    assert(old(self)@.insert(reference@, d@) =~= old(self)@);
                }
                Ok(d)
            },
            None => {
                let mut d = lit("sha256:");
                let n = reference.len();
                let digits = u64_to_decimal(n as u64);
                d.append(digits.as_str());
                proof {
                    reveal_strlit("sha256:");
                }
                assert(d@ =~= fresh_digest(reference));
                self.digests.insert(lit(reference), d.clone());
                Ok(d)
            },
        }
    }
}

/// Verification is idempotent: once an image is verified, verifying it
/// again gives the same digest and leaves the cache as it was.
pub proof fn law_verify_image_idempotent(cache: Map<Seq<char>, Seq<char>>, reference: &str)
    ensures
        ({
            let d = digest_of(cache, reference);
            let after = cache.insert(reference@, d);
            &&& digest_of(after, reference) == d
            &&& after.insert(reference@, digest_of(after, reference)) == after
        }),
{
    let d = digest_of(cache, reference);
    let after = cache.insert(reference@, d);
    assert(after.insert(reference@, digest_of(after, reference)) =~= after);
}

} // verus!
