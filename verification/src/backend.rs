//! Command lines for OCI runtime CLIs (docker, podman, nerdctl, Apple's
//! `container`, lima), and the reading of their JSON output.
use vstd::prelude::*;
use crate::text::{chars_of, split_on, string_from_chars, trim, trim_bounds, sub_chars};
use crate::yaml::split_chars;
use crate::error::ComposeError;
use crate::types::{
    copy_strings, opt_view, views, ContainerHandle, ContainerInfo, ContainerLogs, ContainerSpec, ImageInfo,
};

verus! {

// ============ Decimal numbers ============

/// The decimal digit for `d < 10`.
pub open spec fn digit(d: nat) -> char {
    (48 + d) as char
}

/// The decimal form of `n`.
pub open spec fn decimal(n: nat) -> Seq<char>
    decreases n,
{
    if n < 10 {
        seq![digit(n)]
    } else {
        decimal(n / 10).push(digit(n % 10))
    }
}

fn push_decimal(out: &mut Vec<char>, n: u64)
    ensures
        final(out)@ == old(out)@ + decimal(n as nat),
    decreases n,
{
    if n >= 10 {
        push_decimal(out, n / 10);
    }
    let d = n % 10;
    let c = char_of_digit(d);
    let ghost pre = out@;
    out.push(c);
    proof {
        if n >= 10 {
            assert(out@ =~= old(out)@ + decimal(n as nat));
        } else {
            assert(out@ =~= old(out)@ + decimal(n as nat));
        }
    }
}

fn char_of_digit(d: u64) -> (c: char)
    requires
        d < 10,
    ensures
        c == digit(d as nat),
{
    match d {
        0 => '0',
        1 => '1',
        2 => '2',
        3 => '3',
        4 => '4',
        5 => '5',
        6 => '6',
        7 => '7',
        8 => '8',
        _ => '9',
    }
}

/// The decimal form of `n` (`u32::to_string`).
pub fn u32_to_decimal(n: u32) -> (r: String)
    ensures
        r@ == decimal(n as nat),
{
    u64_to_decimal(n as u64)
}

/// The decimal form of `n` (`u64::to_string`).
pub fn u64_to_decimal(n: u64) -> (r: String)
    ensures
        r@ == decimal(n as nat),
{
    let mut v: Vec<char> = Vec::new();
    push_decimal(&mut v, n);
    assert(v@ =~= decimal(n as nat));
    string_from_chars(v)
}

// ============ Argument lists ============

/// `flag v` for each value, in order.
pub open spec fn flag_each(flag: Seq<char>, vals: Seq<Seq<char>>) -> Seq<Seq<char>>
    decreases vals.len(),
{
    if vals.len() == 0 {
        Seq::empty()
    } else {
        flag_each(flag, vals.drop_last()) + seq![flag, vals.last()]
    }
}

/// `k=v` for a name and a value.
pub open spec fn assignment(kv: (String, String)) -> Seq<char> {
    kv.0@ + seq!['='] + kv.1@
}

/// `flag k=v` for each pair, in order.
pub open spec fn flag_assignments(flag: Seq<char>, kvs: Seq<(String, String)>) -> Seq<Seq<char>> {
    flag_each(flag, kvs.map_values(|kv: (String, String)| assignment(kv)))
}

/// The parts joined with `sep` between them.
pub open spec fn join(parts: Seq<Seq<char>>, sep: Seq<char>) -> Seq<char>
    decreases parts.len(),
{
    if parts.len() == 0 {
        Seq::empty()
    } else if parts.len() == 1 {
        parts[0]
    } else {
        join(parts.drop_last(), sep) + sep + parts.last()
    }
}

/// `flag v` when there is a value.
pub open spec fn flag_opt(flag: Seq<char>, v: Option<String>) -> Seq<Seq<char>> {
    match v {
        Some(s) => seq![flag, s@],
        None => Seq::empty(),
    }
}

/// `flag` when the option is set to true.
pub open spec fn flag_if(flag: Seq<char>, b: Option<bool>) -> Seq<Seq<char>> {
    if b == Some(true) {
        seq![flag]
    } else {
        Seq::empty()
    }
}

/// The strings of an optional list (none when absent).
pub open spec fn opt_list(v: Option<Vec<String>>) -> Seq<Seq<char>> {
    match v {
        Some(l) => views(l@),
        None => Seq::empty(),
    }
}

/// The pairs of an optional list (none when absent).
pub open spec fn opt_pairs(v: Option<Vec<(String, String)>>) -> Seq<(String, String)> {
    match v {
        Some(l) => l@,
        None => Seq::empty(),
    }
}

/// `--entrypoint` with the entrypoint's words joined by spaces.
pub open spec fn entrypoint_flag(e: Option<Vec<String>>) -> Seq<Seq<char>> {
    match e {
        Some(l) => seq!["--entrypoint"@, join(views(l@), seq![' '])],
        None => Seq::empty(),
    }
}

/// The arguments of `run` (or of `create`, without `-d`) for `spec`.
pub open spec fn run_flags(spec: ContainerSpec, detach: bool) -> Seq<Seq<char>> {
    (if detach {
        seq!["run"@, "-d"@]
    } else {
        seq!["run"@]
    }) + flag_opt("--name"@, spec.name) + flag_each("-p"@, opt_list(spec.ports)) + flag_each(
        "-v"@,
        opt_list(spec.volumes),
    ) + flag_assignments("-e"@, opt_pairs(spec.env)) + flag_opt("--network"@, spec.network)
        + flag_if("--rm"@, spec.rm) + flag_if("--read-only"@, spec.read_only) + entrypoint_flag(
        spec.entrypoint,
    ) + seq![spec.image@] + opt_list(spec.cmd)
}

/// A string holding `s`.
pub fn lit(s: &str) -> (r: String)
    ensures
        r@ == s@,
{
    String::from_str(s)
}

pub proof fn lemma_views_add(a: Seq<String>, b: Seq<String>)
    ensures
        views(a + b) == views(a) + views(b),
{
    assert(views(a + b) =~= views(a) + views(b));
}

/// Appends `seg` to `args`.
fn append_seg(args: &mut Vec<String>, seg: Vec<String>)
    ensures
        views(final(args)@) == views(old(args)@) + views(seg@),
{
    let mut seg = seg;
    let ghost s = seg@;
    args.append(&mut seg);
    proof {
        lemma_views_add(old(args)@, s);
    }
}

/// `flag v` for each value.
fn seg_each(flag: &str, vals: &Vec<String>) -> (r: Vec<String>)
    ensures
        views(r@) == flag_each(flag@, views(vals@)),
{
    let mut args: Vec<String> = Vec::new();
    let mut i: usize = 0;
    while i < vals.len()
        invariant
            i <= vals.len(),
            views(args@) == flag_each(flag@, views(vals@.take(i as int))),
        decreases vals.len() - i,
    {
        let ghost pre = views(args@);
        args.push(lit(flag));
        args.push(vals[i].clone());
        proof {
            let t = views(vals@.take(i + 1));
            assert(t.drop_last() =~= views(vals@.take(i as int)));
            assert(t.last() == vals@[i as int]@);
            assert(views(args@) =~= pre + seq![flag@, vals@[i as int]@]);
        }
        i = i + 1;
    }
    assert(vals@.take(i as int) =~= vals@);
    args
}

/// `k=v`.
pub fn assignment_string(k: &String, v: &String) -> (r: String)
    ensures
        r@ == k@ + seq!['='] + v@,
{
    let mut s = k.clone();
    s.append("=");
    s.append(v.as_str());
    proof {
        reveal_strlit("=");
    }
    s
}

/// `flag k=v` for each pair.
fn seg_assignments(flag: &str, kvs: &Vec<(String, String)>) -> (r: Vec<String>)
    ensures
        views(r@) == flag_assignments(flag@, kvs@),
{
    let mut args: Vec<String> = Vec::new();
    let mut i: usize = 0;
    while i < kvs.len()
        invariant
            i <= kvs.len(),
            views(args@) == flag_assignments(flag@, kvs@.take(i as int)),
        decreases kvs.len() - i,
    {
        let ghost pre = views(args@);
        args.push(lit(flag));
        args.push(assignment_string(&kvs[i].0, &kvs[i].1));
        proof {
            let t = kvs@.take(i + 1).map_values(|kv: (String, String)| assignment(kv));
            assert(t.drop_last() =~= kvs@.take(i as int).map_values(
                |kv: (String, String)| assignment(kv),
            ));
            assert(views(args@) =~= pre + seq![flag@, assignment(kvs@[i as int])]);
        }
        i = i + 1;
    }
    assert(kvs@.take(i as int) =~= kvs@);
    args
}

/// The strings of `vals`, copied.
fn seg_list(vals: &Option<Vec<String>>) -> (r: Vec<String>)
    ensures
        views(r@) == opt_list(*vals),
{
    match vals {
        Some(v) => copy_strings(v),
        None => Vec::new(),
    }
}

/// `flag v` when there is a value.
fn seg_opt(flag: &str, v: &Option<String>) -> (r: Vec<String>)
    ensures
        views(r@) == flag_opt(flag@, *v),
{
    let mut args: Vec<String> = Vec::new();
    match v {
        Some(s) => {
            args.push(lit(flag));
            args.push(s.clone());
        },
        None => {},
    }
    assert(views(args@) =~= flag_opt(flag@, *v));
    args
}

/// `flag` when `b` is set to true.
fn seg_if(flag: &str, b: Option<bool>) -> (r: Vec<String>)
    ensures
        views(r@) == flag_if(flag@, b),
{
    let mut args: Vec<String> = Vec::new();
    if b == Some(true) {
        args.push(lit(flag));
    }
    assert(views(args@) =~= flag_if(flag@, b));
    args
}

/// The parts joined with `sep` (`[String]::join`).
pub fn join_strings(parts: &Vec<String>, sep: &str) -> (r: String)
    ensures
        r@ == join(views(parts@), sep@),
{
    let mut s = String::new();
    let mut i: usize = 0;
    while i < parts.len()
        invariant
            i <= parts.len(),
            s@ == join(views(parts@.take(i as int)), sep@),
        decreases parts.len() - i,
    {
        proof {
            assert(views(parts@.take(i + 1)).drop_last() =~= views(parts@.take(i as int)));
        }
        if i > 0 {
            s.append(sep);
        }
        s.append(parts[i].as_str());
        i = i + 1;
    }
    assert(parts@.take(i as int) =~= parts@);
    s
}

/// `--entrypoint` with the words joined by spaces.
fn seg_entrypoint(e: &Option<Vec<String>>) -> (r: Vec<String>)
    ensures
        views(r@) == entrypoint_flag(*e),
{
    let mut args: Vec<String> = Vec::new();
    match e {
        Some(words) => {
            args.push(lit("--entrypoint"));
            args.push(join_strings(words, " "));
            proof {
                reveal_strlit(" ");
                assert(" "@ =~= seq![' ']);
            }
        },
        None => {},
    }
    assert(views(args@) =~= entrypoint_flag(*e));
    args
}

/// The arguments of `run` (with `-d` when `include_detach`) or of a
/// plain `run` for `create`, in docker's flag syntax.
pub fn docker_run_flags(spec: &ContainerSpec, include_detach: bool) -> (r: Vec<String>)
    ensures
        views(r@) == run_flags(*spec, include_detach),
{
    let mut args: Vec<String> = Vec::new();
    args.push(lit("run"));
    if include_detach {
        args.push(lit("-d"));
    }
    assert(views(args@) =~= (if include_detach {
        seq!["run"@, "-d"@]
    } else {
        seq!["run"@]
    }));
    append_seg(&mut args, seg_opt("--name", &spec.name));
    let ports = match &spec.ports {
        Some(p) => seg_each("-p", p),
        None => Vec::new(),
    };
    assert(views(ports@) =~= flag_each("-p"@, opt_list(spec.ports)));
    append_seg(&mut args, ports);
    let volumes = match &spec.volumes {
        Some(v) => seg_each("-v", v),
        None => Vec::new(),
    };
    assert(views(volumes@) =~= flag_each("-v"@, opt_list(spec.volumes)));
    append_seg(&mut args, volumes);
    let env = match &spec.env {
        Some(e) => seg_assignments("-e", e),
        None => Vec::new(),
    };
    assert(views(env@) =~= flag_assignments("-e"@, opt_pairs(spec.env)));
    append_seg(&mut args, env);
    append_seg(&mut args, seg_opt("--network", &spec.network));
    append_seg(&mut args, seg_if("--rm", spec.rm));
    append_seg(&mut args, seg_if("--read-only", spec.read_only));
    append_seg(&mut args, seg_entrypoint(&spec.entrypoint));
    let image = vec![spec.image.clone()];
    assert(views(image@) =~= seq![spec.image@]);
    append_seg(&mut args, image);
    append_seg(&mut args, seg_list(&spec.cmd));
    args
}

// ============ Laws of the run arguments ============

/// The flags of `spec` between the subcommand and the image.
pub open spec fn run_options(spec: ContainerSpec) -> Seq<Seq<char>> {
    flag_opt("--name"@, spec.name) + flag_each("-p"@, opt_list(spec.ports)) + flag_each(
        "-v"@,
        opt_list(spec.volumes),
    ) + flag_assignments("-e"@, opt_pairs(spec.env)) + flag_opt("--network"@, spec.network) + flag_if(
        "--rm"@,
        spec.rm,
    ) + flag_if("--read-only"@, spec.read_only) + entrypoint_flag(spec.entrypoint)
}

proof fn lemma_run_flags_parts(spec: ContainerSpec, detach: bool)
    ensures
        run_flags(spec, detach) == (if detach {
            seq!["run"@, "-d"@]
        } else {
            seq!["run"@]
        }) + run_options(spec) + seq![spec.image@] + opt_list(spec.cmd),
{
    let head = if detach {
        seq!["run"@, "-d"@]
    } else {
        seq!["run"@]
    };
    let a = flag_opt("--name"@, spec.name);
    let b = flag_each("-p"@, opt_list(spec.ports));
    let c = flag_each("-v"@, opt_list(spec.volumes));
    let d = flag_assignments("-e"@, opt_pairs(spec.env));
    let e = flag_opt("--network"@, spec.network);
    let f = flag_if("--rm"@, spec.rm);
    let g = flag_if("--read-only"@, spec.read_only);
    let h = entrypoint_flag(spec.entrypoint);
    vstd::seq_lib::lemma_concat_associative(head, a, b);
    vstd::seq_lib::lemma_concat_associative(head, a + b, c);
    vstd::seq_lib::lemma_concat_associative(head, a + b + c, d);
    vstd::seq_lib::lemma_concat_associative(head, a + b + c + d, e);
    vstd::seq_lib::lemma_concat_associative(head, a + b + c + d + e, f);
    vstd::seq_lib::lemma_concat_associative(head, a + b + c + d + e + f, g);
    vstd::seq_lib::lemma_concat_associative(head, a + b + c + d + e + f + g, h);
    assert(run_options(spec) == a + b + c + d + e + f + g + h);
}

/// `-d` is only ever put right after `run`: the arguments of a detached
/// run are those of a plain run with `-d` after the subcommand.
pub proof fn law_detach_only_after_run(spec: ContainerSpec)
    ensures
        run_flags(spec, false)[0] == "run"@,
        run_flags(spec, true) == seq!["run"@, "-d"@] + run_flags(spec, false).skip(1),
{
    lemma_run_flags_parts(spec, false);
    lemma_run_flags_parts(spec, true);
    let rest = run_options(spec) + seq![spec.image@] + opt_list(spec.cmd);
    assert(run_flags(spec, false) =~= seq!["run"@] + rest);
    assert(run_flags(spec, false).skip(1) =~= rest);
    assert(run_flags(spec, true) =~= seq!["run"@, "-d"@] + rest);
}

/// The image and the command close the arguments: the image comes right
/// before the command's words, which come last, and right after the
/// entrypoint flag when there is one.
pub proof fn law_image_and_command_last(spec: ContainerSpec, detach: bool)
    ensures
        ({
            let r = run_flags(spec, detach);
            let c = opt_list(spec.cmd);
            let e = entrypoint_flag(spec.entrypoint);
            &&& r.len() >= c.len() + 1 + e.len()
            &&& r[r.len() - c.len() - 1] == spec.image@
            &&& r.skip(r.len() - c.len()) == c
            &&& r.subrange(r.len() - c.len() - 1 - e.len(), r.len() - c.len() - 1) == e
        }),
{
    lemma_run_flags_parts(spec, detach);
    let head = if detach {
        seq!["run"@, "-d"@]
    } else {
        seq!["run"@]
    };
    let o = run_options(spec);
    let c = opt_list(spec.cmd);
    let e = entrypoint_flag(spec.entrypoint);
    let r = run_flags(spec, detach);
    let before_e = flag_opt("--name"@, spec.name) + flag_each("-p"@, opt_list(spec.ports)) + flag_each(
        "-v"@,
        opt_list(spec.volumes),
    ) + flag_assignments("-e"@, opt_pairs(spec.env)) + flag_opt("--network"@, spec.network) + flag_if(
        "--rm"@,
        spec.rm,
    ) + flag_if("--read-only"@, spec.read_only);
    assert(o =~= before_e + e);
    assert(r =~= (head + before_e) + e + seq![spec.image@] + c);
    assert(r.skip(r.len() - c.len()) =~= c);
    assert(r.subrange(r.len() - c.len() - 1 - e.len(), r.len() - c.len() - 1) =~= e);
}

/// `--rm` is in the run arguments exactly when `rm` is set to true: with
/// `rm` unset or false the arguments are those of a spec without `rm`,
/// and with `rm` true they hold one argument more, `--rm` (and, where no
/// other text of the spec reads `--rm`, only then do they hold it).
pub proof fn law_rm_flag_only_when_true(spec: ContainerSpec, detach: bool)
    ensures
        ({
            let base = ContainerSpec { rm: None, ..spec };
            let r = run_flags(spec, detach);
            let q = run_flags(base, detach);
            &&& spec.rm != Some(true) ==> r == q
            &&& spec.rm == Some(true) ==> r.len() == q.len() + 1 && r.contains("--rm"@)
            &&& !q.contains("--rm"@) ==> (r.contains("--rm"@) <==> spec.rm == Some(true))
        }),
{
    let base = ContainerSpec { rm: None, ..spec };
    let head = if detach {
        seq!["run"@, "-d"@]
    } else {
        seq!["run"@]
    };
    let pre = head + flag_opt("--name"@, spec.name) + flag_each("-p"@, opt_list(spec.ports)) + flag_each(
        "-v"@,
        opt_list(spec.volumes),
    ) + flag_assignments("-e"@, opt_pairs(spec.env)) + flag_opt("--network"@, spec.network);
    let post = flag_if("--read-only"@, spec.read_only) + entrypoint_flag(spec.entrypoint) + seq![spec.image@]
        + opt_list(spec.cmd);
    let r = run_flags(spec, detach);
    let q = run_flags(base, detach);
    assert(q =~= pre + post);
    assert(r =~= pre + flag_if("--rm"@, spec.rm) + post);
    if spec.rm == Some(true) {
        assert(r[pre.len() as int] == "--rm"@);
    }
}

/// `--read-only` is in the run arguments exactly when `read_only` is set
/// to true, in the same sense as `--rm` (see
/// [`law_rm_flag_only_when_true`]).
pub proof fn law_read_only_flag_only_when_true(spec: ContainerSpec, detach: bool)
    ensures
        ({
            let base = ContainerSpec { read_only: None, ..spec };
            let r = run_flags(spec, detach);
            let q = run_flags(base, detach);
            &&& spec.read_only != Some(true) ==> r == q
            &&& spec.read_only == Some(true) ==> r.len() == q.len() + 1 && r.contains("--read-only"@)
            &&& !q.contains("--read-only"@) ==> (r.contains("--read-only"@) <==> spec.read_only == Some(true))
        }),
{
    let base = ContainerSpec { read_only: None, ..spec };
    let head = if detach {
        seq!["run"@, "-d"@]
    } else {
        seq!["run"@]
    };
    let pre = head + flag_opt("--name"@, spec.name) + flag_each("-p"@, opt_list(spec.ports)) + flag_each(
        "-v"@,
        opt_list(spec.volumes),
    ) + flag_assignments("-e"@, opt_pairs(spec.env)) + flag_opt("--network"@, spec.network) + flag_if(
        "--rm"@,
        spec.rm,
    );
    let post = entrypoint_flag(spec.entrypoint) + seq![spec.image@] + opt_list(spec.cmd);
    let r = run_flags(spec, detach);
    let q = run_flags(base, detach);
    assert(q =~= pre + post);
    assert(r =~= pre + flag_if("--read-only"@, spec.read_only) + post);
    if spec.read_only == Some(true) {
        assert(r[pre.len() as int] == "--read-only"@);
    }
}

/// `t` occurs in `s`.
pub open spec fn occurs(s: Seq<char>, t: Seq<char>) -> bool {
    exists|k: int| 0 <= k && k + t.len() <= s.len() && #[trigger] s.subrange(k, k + t.len()) == t
}

/// A joined list ends with its last part.
proof fn lemma_join_ends(p: Seq<Seq<char>>, sep: Seq<char>)
    requires
        p.len() > 0,
    ensures
        join(p, sep).len() >= p.last().len(),
        join(p, sep).subrange(join(p, sep).len() - p.last().len(), join(p, sep).len() as int) == p.last(),
{
    let j = join(p, sep);
    if p.len() == 1 {
        assert(j.subrange(0, j.len() as int) =~= j);
    } else {
        let q = join(p.drop_last(), sep) + sep;
        assert(j == q + p.last());
        assert(j.subrange(q.len() as int, j.len() as int) =~= p.last());
    }
}

/// What occurs in a prefix of a joined list occurs in the whole.
proof fn lemma_join_grows(p: Seq<Seq<char>>, sep: Seq<char>, t: Seq<char>)
    requires
        p.len() > 1,
        occurs(join(p.drop_last(), sep), t),
    ensures
        occurs(join(p, sep), t),
{
    let q = join(p.drop_last(), sep);
    let j = join(p, sep);
    let k = choose|k: int| 0 <= k && k + t.len() <= q.len() && #[trigger] q.subrange(k, k + t.len()) == t;
    assert(j == q + sep + p.last());
    assert(j.subrange(k, k + t.len()) =~= q.subrange(k, k + t.len()));
}

/// Each part of a list occurs in the list joined.
proof fn lemma_join_part(p: Seq<Seq<char>>, sep: Seq<char>, i: int)
    requires
        0 <= i < p.len(),
    ensures
        occurs(join(p, sep), p[i]),
    decreases p.len(),
{
    let j = join(p, sep);
    if i == p.len() - 1 {
        lemma_join_ends(p, sep);
        let k = j.len() - p.last().len();
        assert(j.subrange(k, k + p[i].len()) == p[i]);
    } else {
        lemma_join_part(p.drop_last(), sep, i);
        assert(p.drop_last()[i] == p[i]);
        lemma_join_grows(p, sep, p[i]);
    }
}

/// Two neighbouring parts occur in the list joined, with the separator
/// between them.
proof fn lemma_join_pair(p: Seq<Seq<char>>, sep: Seq<char>, i: int)
    requires
        0 <= i && i + 1 < p.len(),
    ensures
        occurs(join(p, sep), p[i] + sep + p[i + 1]),
    decreases p.len(),
{
    let j = join(p, sep);
    let t = p[i] + sep + p[i + 1];
    if i + 1 == p.len() - 1 {
        let q = p.drop_last();
        lemma_join_ends(q, sep);
        let jq = join(q, sep);
        assert(q.last() == p[i]);
        assert(j == jq + sep + p.last());
        let k = jq.len() - p[i].len();
        assert(j.subrange(k, k + t.len()) =~= t);
    } else {
        lemma_join_pair(p.drop_last(), sep, i);
        assert(p.drop_last()[i] == p[i] && p.drop_last()[i + 1] == p[i + 1]);
        lemma_join_grows(p, sep, t);
    }
}

/// `flag v` for each value: the flag at even places, the values at odd
/// ones.
proof fn lemma_flag_each(flag: Seq<char>, vals: Seq<Seq<char>>)
    ensures
        flag_each(flag, vals).len() == 2 * vals.len(),
        forall|i: int|
            0 <= i < 2 * vals.len() ==> #[trigger] flag_each(flag, vals)[i] == (if i % 2 == 0 {
                flag
            } else {
                vals[i / 2]
            }),
    decreases vals.len(),
{
    if vals.len() > 0 {
        let n = vals.len();
        lemma_flag_each(flag, vals.drop_last());
        let f = flag_each(flag, vals);
        let g = flag_each(flag, vals.drop_last());
        assert(f == g + seq![flag, vals.last()]);
        assert forall|i: int| 0 <= i < 2 * n implies #[trigger] f[i] == (if i % 2 == 0 {
            flag
        } else {
            vals[i / 2]
        }) by {
            if i < 2 * (n - 1) {
                assert(f[i] == g[i]);
                assert(i / 2 < n - 1);
                assert(vals.drop_last()[i / 2] == vals[i / 2]);
            } else if i == 2 * (n - 1) {
                assert(f[i] == flag);
            } else {
                assert(i / 2 == n - 1);
                assert(f[i] == vals.last());
            }
        }
    }
}

/// Each `flag v` of a block of flags occurs, with the separator, in a
/// list that holds the block.
proof fn lemma_join_flag_block(
    x: Seq<Seq<char>>,
    flag: Seq<char>,
    vals: Seq<Seq<char>>,
    y: Seq<Seq<char>>,
    sep: Seq<char>,
)
    ensures
        forall|j: int|
            0 <= j < vals.len() ==> occurs(
                join(x + flag_each(flag, vals) + y, sep),
                flag + sep + #[trigger] vals[j],
            ),
{
    let f = flag_each(flag, vals);
    let r = x + f + y;
    lemma_flag_each(flag, vals);
    assert forall|j: int| 0 <= j < vals.len() implies occurs(
        join(r, sep),
        flag + sep + #[trigger] vals[j],
    ) by {
        let k = x.len() + 2 * j;
        assert(f[2 * j] == flag);
        assert(f[2 * j + 1] == vals[j]);
        assert(r[k] == f[2 * j]);
        assert(r[k + 1] == f[2 * j + 1]);
        lemma_join_pair(r, sep, k);
    }
}

/// The detached run's arguments, grouped around the `-p` block and
/// around the `-e` block.
#[verifier::rlimit(60)]
proof fn lemma_detached_groups(spec: ContainerSpec)
    ensures
        ({
            let r = run_flags(spec, true);
            let head = seq!["run"@, "-d"@];
            let a = flag_opt("--name"@, spec.name);
            let b = flag_each("-p"@, opt_list(spec.ports));
            let c = flag_each("-v"@, opt_list(spec.volumes));
            let d = flag_assignments("-e"@, opt_pairs(spec.env));
            let rest = flag_opt("--network"@, spec.network) + flag_if("--rm"@, spec.rm) + flag_if(
                "--read-only"@,
                spec.read_only,
            ) + entrypoint_flag(spec.entrypoint) + seq![spec.image@] + opt_list(spec.cmd);
            &&& r == (head + a) + b + (c + d + rest)
            &&& r == (head + a + b + c) + d + rest
            &&& r[0] == "run"@
            &&& r[1] == "-d"@
            &&& spec.name matches Some(n) ==> (r[2] == "--name"@ && r[3] == n@)
        }),
{
    lemma_run_flags_parts(spec, true);
    let r = run_flags(spec, true);
    let head = seq!["run"@, "-d"@];
    let a = flag_opt("--name"@, spec.name);
    let b = flag_each("-p"@, opt_list(spec.ports));
    let c = flag_each("-v"@, opt_list(spec.volumes));
    let d = flag_assignments("-e"@, opt_pairs(spec.env));
    let rest = flag_opt("--network"@, spec.network) + flag_if("--rm"@, spec.rm) + flag_if(
        "--read-only"@,
        spec.read_only,
    ) + entrypoint_flag(spec.entrypoint) + seq![spec.image@] + opt_list(spec.cmd);
    assert(r =~= (head + a) + b + (c + d + rest));
    assert(r =~= (head + a + b + c) + d + rest);
}

/// The arguments of a detached run, joined with spaces, hold `run -d`,
/// `--name` with the name, `-p` with each port, `-e` with each variable
/// assignment, and the image.
pub proof fn law_joined_run_arguments(spec: ContainerSpec)
    ensures
        ({
            let s = join(run_flags(spec, true), seq![' ']);
            &&& occurs(s, "run"@ + seq![' '] + "-d"@)
            &&& spec.name matches Some(n) ==> occurs(s, "--name"@ + seq![' '] + n@)
            &&& forall|j: int|
                0 <= j < opt_list(spec.ports).len() ==> occurs(
                    s,
                    "-p"@ + seq![' '] + #[trigger] opt_list(spec.ports)[j],
                )
            &&& forall|j: int|
                0 <= j < opt_pairs(spec.env).len() ==> occurs(
                    s,
                    "-e"@ + seq![' '] + assignment(#[trigger] opt_pairs(spec.env)[j]),
                )
            &&& occurs(s, spec.image@)
        }),
{
    let r = run_flags(spec, true);
    let sep = seq![' '];
    let head = seq!["run"@, "-d"@];
    let a = flag_opt("--name"@, spec.name);
    let ports = opt_list(spec.ports);
    let b = flag_each("-p"@, ports);
    let c = flag_each("-v"@, opt_list(spec.volumes));
    let pairs = opt_pairs(spec.env);
    let envs = pairs.map_values(|kv: (String, String)| assignment(kv));
    let d = flag_each("-e"@, envs);
    let rest = flag_opt("--network"@, spec.network) + flag_if("--rm"@, spec.rm) + flag_if(
        "--read-only"@,
        spec.read_only,
    ) + entrypoint_flag(spec.entrypoint) + seq![spec.image@] + opt_list(spec.cmd);
    lemma_detached_groups(spec);
    assert(r[0] == "run"@ && r[1] == "-d"@);
    lemma_join_pair(r, sep, 0);
    if let Some(n) = spec.name {
        assert(r[2] == "--name"@ && r[3] == n@);
        lemma_join_pair(r, sep, 2);
    }
    lemma_join_flag_block(head + a, "-p"@, ports, c + d + rest, sep);
    lemma_join_flag_block(head + a + b + c, "-e"@, envs, rest, sep);
    assert forall|j: int| 0 <= j < pairs.len() implies occurs(
        join(r, sep),
        "-e"@ + sep + assignment(#[trigger] pairs[j]),
    ) by {
        assert(envs[j] == assignment(pairs[j]));
    }
    law_image_and_command_last(spec, true);
    lemma_join_part(r, sep, r.len() - opt_list(spec.cmd).len() - 1);
}

// ============ Backends ============

/// A call made on a container backend, with what was handed to it.
pub enum BackendCall {
    CheckAvailable,
    Run(ContainerSpec),
    Create(ContainerSpec),
    Start(Seq<char>),
    Stop(Seq<char>, Option<u32>),
    Remove(Seq<char>, bool),
    List(bool),
    Inspect(Seq<char>),
    Logs(Seq<char>, Option<u32>),
    Exec(Seq<char>, Seq<Seq<char>>, Option<Seq<(Seq<char>, Seq<char>)>>, Option<Seq<char>>),
    PullImage(Seq<char>),
    ListImages,
    RemoveImage(Seq<char>, bool),
    CreateNetwork(Seq<char>, NetworkConfig),
    RemoveNetwork(Seq<char>),
    CreateVolume(Seq<char>, VolumeConfig),
    RemoveVolume(Seq<char>),
}

/// What a call made on a container backend gave back.
pub enum BackendReply {
    Done(Result<(), ComposeError>),
    Handle(Result<ContainerHandle, ComposeError>),
    Container(Result<ContainerInfo, ComposeError>),
    Containers(Result<Vec<ContainerInfo>, ComposeError>),
    Output(Result<ContainerLogs, ComposeError>),
    Images(Result<Vec<ImageInfo>, ComposeError>),
}

/// The record of the calls made on a backend, oldest first.
pub type CallLog = Seq<BackendCall>;

/// The record of what those calls gave back, in the same order.
pub type ReplyLog = Seq<BackendReply>;

/// The error a reply carries, if it is one.
pub open spec fn reply_error(r: BackendReply) -> Option<ComposeError> {
    match r {
        BackendReply::Done(Err(e)) => Some(e),
        BackendReply::Handle(Err(e)) => Some(e),
        BackendReply::Container(Err(e)) => Some(e),
        BackendReply::Containers(Err(e)) => Some(e),
        BackendReply::Output(Err(e)) => Some(e),
        BackendReply::Images(Err(e)) => Some(e),
        _ => None,
    }
}

/// The view of an optional list of pairs.
pub open spec fn opt_pair_views(p: Option<&Vec<(String, String)>>) -> Option<Seq<(Seq<char>, Seq<char>)>> {
    match p {
        Some(v) => Some(v@.map_values(|e: (String, String)| (e.0@, e.1@))),
        None => None,
    }
}

/// The view of an optional text.
pub open spec fn opt_str_view(o: Option<&str>) -> Option<Seq<char>> {
    match o {
        Some(s) => Some(s@),
        None => None,
    }
}

/// A container runtime that containers, images, networks and volumes are
/// managed on. What each call does, and what it gives back, is up to the
/// runtime; what is known is which calls were made, with what.
pub trait ContainerBackend {
    /// The calls made on this backend so far, oldest first. Each method
    /// below adds its own call to the end. Every implementation defines
    /// it as its own record of calls; it is only ever read in proofs.
    spec fn calls(&self) -> CallLog;

    /// What each of those calls gave back, in the same order: each method
    /// below adds its own result to the end.
    spec fn replies(&self) -> ReplyLog;

    /// The runtime's name.
    fn backend_name(&self) -> String;

    /// Fails when the runtime cannot be used.
    fn check_available(&mut self) -> (r: Result<(), ComposeError>)
        ensures
            final(self).calls() == old(self).calls().push(BackendCall::CheckAvailable),
            final(self).replies() == old(self).replies().push(BackendReply::Done(r)),
    ;

    /// Runs a container (detached where the runtime supports it).
    fn run(&mut self, spec: &ContainerSpec) -> (r: Result<ContainerHandle, ComposeError>)
        ensures
            final(self).calls() == old(self).calls().push(BackendCall::Run(*spec)),
            final(self).replies() == old(self).replies().push(BackendReply::Handle(r)),
    ;

    /// Creates a container without starting it.
    fn create(&mut self, spec: &ContainerSpec) -> (r: Result<ContainerHandle, ComposeError>)
        ensures
            final(self).calls() == old(self).calls().push(BackendCall::Create(*spec)),
            final(self).replies() == old(self).replies().push(BackendReply::Handle(r)),
    ;

    fn start(&mut self, id: &str) -> (r: Result<(), ComposeError>)
        ensures
            final(self).calls() == old(self).calls().push(BackendCall::Start(id@)),
            final(self).replies() == old(self).replies().push(BackendReply::Done(r)),
    ;

    /// Stops a container, waiting `timeout` seconds when given.
    fn stop(&mut self, id: &str, timeout: Option<u32>) -> (r: Result<(), ComposeError>)
        ensures
            final(self).calls() == old(self).calls().push(BackendCall::Stop(id@, timeout)),
            final(self).replies() == old(self).replies().push(BackendReply::Done(r)),
    ;

    fn remove(&mut self, id: &str, force: bool) -> (r: Result<(), ComposeError>)
        ensures
            final(self).calls() == old(self).calls().push(BackendCall::Remove(id@, force)),
            final(self).replies() == old(self).replies().push(BackendReply::Done(r)),
    ;

    /// The containers; with `all`, stopped ones too.
    fn list(&mut self, all: bool) -> (r: Result<Vec<ContainerInfo>, ComposeError>)
        ensures
            final(self).calls() == old(self).calls().push(BackendCall::List(all)),
            final(self).replies() == old(self).replies().push(BackendReply::Containers(r)),
    ;

    fn inspect(&mut self, id: &str) -> (r: Result<ContainerInfo, ComposeError>)
        ensures
            final(self).calls() == old(self).calls().push(BackendCall::Inspect(id@)),
            final(self).replies() == old(self).replies().push(BackendReply::Container(r)),
    ;

    /// A container's output; with `tail`, its last lines only.
    fn logs(&mut self, id: &str, tail: Option<u32>) -> (r: Result<ContainerLogs, ComposeError>)
        ensures
            final(self).calls() == old(self).calls().push(BackendCall::Logs(id@, tail)),
            final(self).replies() == old(self).replies().push(BackendReply::Output(r)),
    ;

    /// Runs `cmd` in a running container.
    fn exec(
        &mut self,
        id: &str,
        cmd: &Vec<String>,
        env: Option<&Vec<(String, String)>>,
        workdir: Option<&str>,
    ) -> (r: Result<ContainerLogs, ComposeError>)
        ensures
            final(self).calls() == old(self).calls().push(
                BackendCall::Exec(id@, views(cmd@), opt_pair_views(env), opt_str_view(workdir)),
            ),
            final(self).replies() == old(self).replies().push(BackendReply::Output(r)),
    ;

    fn pull_image(&mut self, reference: &str) -> (r: Result<(), ComposeError>)
        ensures
            final(self).calls() == old(self).calls().push(BackendCall::PullImage(reference@)),
            final(self).replies() == old(self).replies().push(BackendReply::Done(r)),
    ;

    fn list_images(&mut self) -> (r: Result<Vec<ImageInfo>, ComposeError>)
        ensures
            final(self).calls() == old(self).calls().push(BackendCall::ListImages),
            final(self).replies() == old(self).replies().push(BackendReply::Images(r)),
    ;

    fn remove_image(&mut self, reference: &str, force: bool) -> (r: Result<(), ComposeError>)
        ensures
            final(self).calls() == old(self).calls().push(BackendCall::RemoveImage(reference@, force)),
            final(self).replies() == old(self).replies().push(BackendReply::Done(r)),
    ;

    fn create_network(&mut self, name: &str, config: &NetworkConfig) -> (r: Result<(), ComposeError>)
        ensures
            final(self).calls() == old(self).calls().push(BackendCall::CreateNetwork(name@, *config)),
            final(self).replies() == old(self).replies().push(BackendReply::Done(r)),
    ;

    fn remove_network(&mut self, name: &str) -> (r: Result<(), ComposeError>)
        ensures
            final(self).calls() == old(self).calls().push(BackendCall::RemoveNetwork(name@)),
            final(self).replies() == old(self).replies().push(BackendReply::Done(r)),
    ;

    fn create_volume(&mut self, name: &str, config: &VolumeConfig) -> (r: Result<(), ComposeError>)
        ensures
            final(self).calls() == old(self).calls().push(BackendCall::CreateVolume(name@, *config)),
            final(self).replies() == old(self).replies().push(BackendReply::Done(r)),
    ;

    fn remove_volume(&mut self, name: &str) -> (r: Result<(), ComposeError>)
        ensures
            final(self).calls() == old(self).calls().push(BackendCall::RemoveVolume(name@)),
            final(self).replies() == old(self).replies().push(BackendReply::Done(r)),
    ;
}

// ============ Protocols ============

/// How a runtime CLI is driven: its name, any words put before every
/// subcommand, and whether `run` detaches with `-d`.
pub trait CliProtocol {
    /// The words put before every subcommand.
    spec fn prefix_view(&self) -> Option<Seq<Seq<char>>>;

    /// `run` detaches with `-d`.
    spec fn run_detaches(&self) -> bool;

    /// The protocol's name, as text.
    spec fn name_view(&self) -> Seq<char>;

    /// The protocol's name.
    fn protocol_name(&self) -> (r: &'static str)
        ensures
            r@ == self.name_view(),
    ;

    /// The words put before every subcommand, if any.
    fn subcommand_prefix(&self) -> (r: Option<Vec<String>>)
        ensures
            match r {
                Some(v) => self.prefix_view() == Some(views(v@)),
                None => self.prefix_view() is None,
            },
    ;

    /// The arguments that run a container.
    fn run_args(&self, spec: &ContainerSpec) -> (r: Vec<String>)
        ensures
            views(r@) == run_flags(*spec, self.run_detaches()),
    ;

    /// The arguments that create a container without starting it.
    fn create_args(&self, spec: &ContainerSpec) -> (r: Vec<String>)
        ensures
            views(r@) == run_flags(*spec, false),
    ;
}

/// Docker's CLI and the CLIs that copy it (podman, nerdctl, ...).
pub struct DockerProtocol;

/// Apple's `container` CLI: docker's syntax, without `-d` on `run`.
pub struct AppleContainerProtocol;

/// nerdctl inside a lima instance, through `limactl shell`.
pub struct LimaProtocol {
    pub instance: String,
}

impl CliProtocol for DockerProtocol {
    open spec fn prefix_view(&self) -> Option<Seq<Seq<char>>> {
        None
    }

    open spec fn run_detaches(&self) -> bool {
        true
    }

    open spec fn name_view(&self) -> Seq<char> {
        "docker-compatible"@
    }

    fn protocol_name(&self) -> (r: &'static str) {
        "docker-compatible"
    }

    fn subcommand_prefix(&self) -> (r: Option<Vec<String>>) {
        None
    }

    fn run_args(&self, spec: &ContainerSpec) -> (r: Vec<String>) {
        docker_run_flags(spec, true)
    }

    fn create_args(&self, spec: &ContainerSpec) -> (r: Vec<String>) {
        docker_run_flags(spec, false)
    }
}

impl CliProtocol for AppleContainerProtocol {
    open spec fn prefix_view(&self) -> Option<Seq<Seq<char>>> {
        None
    }

    open spec fn run_detaches(&self) -> bool {
        false
    }

    open spec fn name_view(&self) -> Seq<char> {
        "apple/container"@
    }

    fn protocol_name(&self) -> (r: &'static str) {
        "apple/container"
    }

    fn subcommand_prefix(&self) -> (r: Option<Vec<String>>) {
        None
    }

    fn run_args(&self, spec: &ContainerSpec) -> (r: Vec<String>) {
        docker_run_flags(spec, false)
    }

    fn create_args(&self, spec: &ContainerSpec) -> (r: Vec<String>) {
        docker_run_flags(spec, false)
    }
}

impl CliProtocol for LimaProtocol {
    open spec fn prefix_view(&self) -> Option<Seq<Seq<char>>> {
        Some(seq!["shell"@, self.instance@, "nerdctl"@])
    }

    open spec fn run_detaches(&self) -> bool {
        true
    }

    open spec fn name_view(&self) -> Seq<char> {
        "lima"@
    }

    fn protocol_name(&self) -> (r: &'static str) {
        "lima"
    }

    fn subcommand_prefix(&self) -> (r: Option<Vec<String>>) {
        let mut v: Vec<String> = Vec::new();
        v.push(lit("shell"));
        v.push(self.instance.clone());
        v.push(lit("nerdctl"));
        assert(views(v@) =~= seq!["shell"@, self.instance@, "nerdctl"@]);
        Some(v)
    }

    fn run_args(&self, spec: &ContainerSpec) -> (r: Vec<String>) {
        docker_run_flags(spec, true)
    }

    fn create_args(&self, spec: &ContainerSpec) -> (r: Vec<String>) {
        docker_run_flags(spec, false)
    }
}

// ============ The other subcommands ============

/// `start ID`.
pub fn start_args(id: &str) -> (r: Vec<String>)
    ensures
        views(r@) == seq!["start"@, id@],
{
    let v = vec![lit("start"), lit(id)];
    assert(views(v@) =~= seq!["start"@, id@]);
    v
}

/// `stop [--time T] ID`.
pub fn stop_args(id: &str, timeout: Option<u32>) -> (r: Vec<String>)
    ensures
        views(r@) == seq!["stop"@] + (match timeout {
            Some(t) => seq!["--time"@, decimal(t as nat)],
            None => Seq::empty(),
        }) + seq![id@],
{
    let mut v = vec![lit("stop")];
    match timeout {
        Some(t) => {
            v.push(lit("--time"));
            v.push(u32_to_decimal(t));
        },
        None => {},
    }
    v.push(lit(id));
    assert(views(v@) =~= seq!["stop"@] + (match timeout {
        Some(t) => seq!["--time"@, decimal(t as nat)],
        None => Seq::empty(),
    }) + seq![id@]);
    v
}

/// `rm [-f] ID`.
pub fn remove_args(id: &str, force: bool) -> (r: Vec<String>)
    ensures
        views(r@) == seq!["rm"@] + (if force {
            seq!["-f"@]
        } else {
            Seq::empty()
        }) + seq![id@],
{
    let mut v = vec![lit("rm")];
    if force {
        v.push(lit("-f"));
    }
    v.push(lit(id));
    assert(views(v@) =~= seq!["rm"@] + (if force {
        seq!["-f"@]
    } else {
        Seq::empty()
    }) + seq![id@]);
    v
}

/// `ps --format json [-a]`.
pub fn list_args(all: bool) -> (r: Vec<String>)
    ensures
        views(r@) == seq!["ps"@, "--format"@, "json"@] + (if all {
            seq!["-a"@]
        } else {
            Seq::empty()
        }),
{
    let mut v = vec![lit("ps"), lit("--format"), lit("json")];
    if all {
        v.push(lit("-a"));
    }
    assert(views(v@) =~= seq!["ps"@, "--format"@, "json"@] + (if all {
        seq!["-a"@]
    } else {
        Seq::empty()
    }));
    v
}

/// `inspect --format json ID`.
pub fn inspect_args(id: &str) -> (r: Vec<String>)
    ensures
        views(r@) == seq!["inspect"@, "--format"@, "json"@, id@],
{
    let v = vec![lit("inspect"), lit("--format"), lit("json"), lit(id)];
    assert(views(v@) =~= seq!["inspect"@, "--format"@, "json"@, id@]);
    v
}

/// `logs [--tail N] ID`.
pub fn logs_args(id: &str, tail: Option<u32>) -> (r: Vec<String>)
    ensures
        views(r@) == seq!["logs"@] + (match tail {
            Some(n) => seq!["--tail"@, decimal(n as nat)],
            None => Seq::empty(),
        }) + seq![id@],
{
    let mut v = vec![lit("logs")];
    match tail {
        Some(n) => {
            v.push(lit("--tail"));
            v.push(u32_to_decimal(n));
        },
        None => {},
    }
    v.push(lit(id));
    assert(views(v@) =~= seq!["logs"@] + (match tail {
        Some(n) => seq!["--tail"@, decimal(n as nat)],
        None => Seq::empty(),
    }) + seq![id@]);
    v
}

/// `exec [-e K=V]... [-w DIR] ID CMD...`.
pub fn exec_args(id: &str, cmd: &Vec<String>, env: Option<&Vec<(String, String)>>, workdir: Option<&str>) -> (r: Vec<String>)
    ensures
        views(r@) == seq!["exec"@] + (match env {
            Some(e) => flag_assignments("-e"@, e@),
            None => Seq::empty(),
        }) + (match workdir {
            Some(w) => seq!["-w"@, w@],
            None => Seq::empty(),
        }) + seq![id@] + views(cmd@),
{
    let mut v = vec![lit("exec")];
    assert(views(v@) =~= seq!["exec"@]);
    let e = match env {
        Some(e) => seg_assignments("-e", e),
        None => Vec::new(),
    };
    assert(views(e@) =~= (match env {
        Some(e) => flag_assignments("-e"@, e@),
        None => Seq::empty(),
    }));
    append_seg(&mut v, e);
    let w = match workdir {
        Some(w) => vec![lit("-w"), lit(w)],
        None => Vec::new(),
    };
    assert(views(w@) =~= (match workdir {
        Some(w) => seq!["-w"@, w@],
        None => Seq::empty(),
    }));
    append_seg(&mut v, w);
    let idv = vec![lit(id)];
    assert(views(idv@) =~= seq![id@]);
    append_seg(&mut v, idv);
    append_seg(&mut v, copy_strings(cmd));
    v
}

/// `pull REF`.
pub fn pull_image_args(reference: &str) -> (r: Vec<String>)
    ensures
        views(r@) == seq!["pull"@, reference@],
{
    let v = vec![lit("pull"), lit(reference)];
    assert(views(v@) =~= seq!["pull"@, reference@]);
    v
}

/// `images --format json`.
pub fn list_images_args() -> (r: Vec<String>)
    ensures
        views(r@) == seq!["images"@, "--format"@, "json"@],
{
    let v = vec![lit("images"), lit("--format"), lit("json")];
    assert(views(v@) =~= seq!["images"@, "--format"@, "json"@]);
    v
}

/// `rmi [-f] REF`.
pub fn remove_image_args(reference: &str, force: bool) -> (r: Vec<String>)
    ensures
        views(r@) == seq!["rmi"@] + (if force {
            seq!["-f"@]
        } else {
            Seq::empty()
        }) + seq![reference@],
{
    let mut v = vec![lit("rmi")];
    if force {
        v.push(lit("-f"));
    }
    v.push(lit(reference));
    assert(views(v@) =~= seq!["rmi"@] + (if force {
        seq!["-f"@]
    } else {
        Seq::empty()
    }) + seq![reference@]);
    v
}

/// Options for creating a network.
pub struct NetworkConfig {
    pub driver: Option<String>,
    /// Labels, in the order they are passed.
    pub labels: Vec<(String, String)>,
    pub internal: bool,
    pub enable_ipv6: bool,
}

/// Options for creating a volume.
pub struct VolumeConfig {
    pub driver: Option<String>,
    /// Labels, in the order they are passed.
    pub labels: Vec<(String, String)>,
}

/// `network create [--driver D] [--internal] [--label K=V]... NAME`.
pub fn create_network_args(name: &str, config: &NetworkConfig) -> (r: Vec<String>)
    ensures
        views(r@) == seq!["network"@, "create"@] + flag_opt("--driver"@, config.driver) + (if config.internal {
            seq!["--internal"@]
        } else {
            Seq::empty()
        }) + flag_assignments("--label"@, config.labels@) + seq![name@],
{
    let mut v = vec![lit("network"), lit("create")];
    assert(views(v@) =~= seq!["network"@, "create"@]);
    append_seg(&mut v, seg_opt("--driver", &config.driver));
    let internal = if config.internal {
        vec![lit("--internal")]
    } else {
        Vec::new()
    };
    assert(views(internal@) =~= (if config.internal {
        seq!["--internal"@]
    } else {
        Seq::empty()
    }));
    append_seg(&mut v, internal);
    append_seg(&mut v, seg_assignments("--label", &config.labels));
    let n = vec![lit(name)];
    assert(views(n@) =~= seq![name@]);
    append_seg(&mut v, n);
    v
}

/// `network rm NAME`.
pub fn remove_network_args(name: &str) -> (r: Vec<String>)
    ensures
        views(r@) == seq!["network"@, "rm"@, name@],
{
    let v = vec![lit("network"), lit("rm"), lit(name)];
    assert(views(v@) =~= seq!["network"@, "rm"@, name@]);
    v
}

/// `volume create [--driver D] [--label K=V]... NAME`.
pub fn create_volume_args(name: &str, config: &VolumeConfig) -> (r: Vec<String>)
    ensures
        views(r@) == seq!["volume"@, "create"@] + flag_opt("--driver"@, config.driver) + flag_assignments(
            "--label"@,
            config.labels@,
        ) + seq![name@],
{
    let mut v = vec![lit("volume"), lit("create")];
    assert(views(v@) =~= seq!["volume"@, "create"@]);
    append_seg(&mut v, seg_opt("--driver", &config.driver));
    append_seg(&mut v, seg_assignments("--label", &config.labels));
    let n = vec![lit(name)];
    assert(views(n@) =~= seq![name@]);
    append_seg(&mut v, n);
    v
}

/// `volume rm NAME`.
pub fn remove_volume_args(name: &str) -> (r: Vec<String>)
    ensures
        views(r@) == seq!["volume"@, "rm"@, name@],
{
    let v = vec![lit("volume"), lit("rm"), lit(name)];
    assert(views(v@) =~= seq!["volume"@, "rm"@, name@]);
    v
}

/// The id a CLI prints after creating a container: its output, trimmed.
pub fn parse_container_id(stdout: &str) -> (r: String)
    ensures
        r@ == trim(stdout@),
{
    let v = chars_of(stdout);
    let (a, b) = trim_bounds(&v, 0, v.len());
    assert(v@.subrange(0, v.len() as int) =~= v@);
    string_from_chars(sub_chars(&v, a, b))
}

// ============ Command outcomes ============

/// The exit code reported for a command: its own, or 1 when it has none
/// (as when a signal ended it).
pub open spec fn exit_code(code: Option<i32>) -> i32 {
    match code {
        Some(c) => c,
        None => 1,
    }
}

/// What a runtime command gives: its standard output when it exited
/// successfully; otherwise a backend error with its exit code and its
/// standard error, trimmed.
pub fn command_output(success: bool, code: Option<i32>, stdout: String, stderr: &str) -> (r: Result<
    String,
    ComposeError,
>)
    ensures
        success ==> r == Ok::<String, ComposeError>(stdout),
        !success ==> (r matches Err(ComposeError::BackendError { code: c, message }) && c == exit_code(code)
            && message@ == trim(stderr@)),
{
    if success {
        Ok(stdout)
    } else {
        let c = match code {
            Some(c) => c,
            None => 1,
        };
        Err(ComposeError::BackendError { code: c, message: parse_container_id(stderr) })
    }
}

/// What a runtime's `--version` check gives: nothing when it exited
/// successfully; otherwise a backend error with its exit code.
pub fn version_check_outcome(success: bool, code: Option<i32>) -> (r: Result<(), ComposeError>)
    ensures
        success ==> r is Ok,
        !success ==> (r matches Err(ComposeError::BackendError { code: c, message }) && c == exit_code(code)
            && message@ == "Backend --version check failed"@),
{
    if success {
        Ok(())
    } else {
        let c = match code {
            Some(c) => c,
            None => 1,
        };
        Err(ComposeError::BackendError { code: c, message: lit("Backend --version check failed") })
    }
}

/// The handle of a container made from `spec`, given what the runtime
/// printed: the printed id, trimmed, and the spec's name.
pub fn container_handle(spec: &ContainerSpec, stdout: &str) -> (r: ContainerHandle)
    ensures
        r.id@ == trim(stdout@),
        opt_view(r.name) == opt_view(spec.name),
{
    let name = match &spec.name {
        Some(n) => Some(n.clone()),
        None => None,
    };
    ContainerHandle { id: parse_container_id(stdout), name }
}

/// What inspecting container `id` gives, from its output read as JSON
/// (`None` when it is not JSON): the container, or not found.
pub fn inspect_outcome(id: &str, doc: &Option<JsonValue>) -> (r: Result<ContainerInfo, ComposeError>)
    ensures
        match doc {
            Some(v) => r matches Ok(info) && info_of(inspected(*v), info),
            None => r matches Err(ComposeError::NotFound(m)) && m@ == id@,
        },
{
    match parse_inspect_output(id, doc) {
        Some(info) => Ok(info),
        None => Err(ComposeError::NotFound(lit(id))),
    }
}

// ============ JSON output ============

/// A JSON value as a runtime CLI prints it.
pub enum JsonValue {
    Null,
    Bool(bool),
    /// A number, with its value when it is an unsigned 64-bit integer.
    Number(Option<u64>),
    String(String),
    Array(Vec<JsonValue>),
    Object(Vec<(String, JsonValue)>),
}

#[verifier::external_type_specification]
#[verifier::external_body]
pub struct ExSerdeJsonValue(serde_json::Value);

/// What `serde_json::from_str` reads from a text, as a [`JsonValue`], or
/// the message of its error.
pub uninterp spec fn json_text_read(text: Seq<char>) -> Result<JsonValue, Seq<char>>;

/// A serde JSON value as a [`JsonValue`], item for item.
#[verifier::external_body]
fn json_of_serde(v: &serde_json::Value) -> JsonValue {
    match v {
        serde_json::Value::Null => JsonValue::Null,
        serde_json::Value::Bool(b) => JsonValue::Bool(*b),
        serde_json::Value::Number(n) => JsonValue::Number(n.as_u64()),
        serde_json::Value::String(t) => JsonValue::String(t.clone()),
        serde_json::Value::Array(items) => JsonValue::Array(items.iter().map(json_of_serde).collect()),
        serde_json::Value::Object(fields) => JsonValue::Object(
            fields.iter().map(|(k, x)| (k.clone(), json_of_serde(x))).collect(),
        ),
    }
}

/// Reads `text` as one JSON document with `serde_json::from_str`; the
/// result, or the error's message, is a function of the text alone.
#[verifier::external_body]
pub(crate) fn read_json(text: &str) -> (r: Result<JsonValue, String>)
    ensures
        match r {
            Ok(v) => json_text_read(text@) == Ok::<JsonValue, Seq<char>>(v),
            Err(m) => json_text_read(text@) == Err::<JsonValue, Seq<char>>(m@),
        },
{
    match serde_json::from_str::<serde_json::Value>(text) {
        Ok(v) => Ok(json_of_serde(&v)),
        Err(e) => Err(e.to_string()),
    }
}

/// The document of a text, when it is JSON.
pub open spec fn json_doc(text: Seq<char>) -> Option<JsonValue> {
    match json_text_read(text) {
        Ok(v) => Some(v),
        Err(_) => None,
    }
}

/// The JSON document of a runtime's output, when it is one.
pub fn parse_json_doc(text: &str) -> (r: Option<JsonValue>)
    ensures
        r == json_doc(text@),
{
    match read_json(text) {
        Ok(v) => Some(v),
        Err(_) => None,
    }
}

/// The texts of a JSON array whose items are all strings.
pub open spec fn string_items(v: JsonValue) -> Option<Seq<Seq<char>>> {
    match v {
        JsonValue::Array(items) => if forall|i: int| 0 <= i < items@.len() ==> (#[trigger] items@[i]) is String {
            Some(items@.map_values(|x: JsonValue| x->String_0@))
        } else {
            None
        },
        _ => None,
    }
}

/// Reads a JSON array of strings (a command's words, a list of
/// services); `None` when the text is not one.
pub fn parse_string_list(text: &str) -> (r: Option<Vec<String>>)
    ensures
        match r {
            Some(v) => json_doc(text@) matches Some(d) && string_items(d) == Some(views(v@)),
            None => json_doc(text@) matches Some(d) ==> string_items(d) is None,
        },
{
    let doc = parse_json_doc(text);
    match doc {
        Some(JsonValue::Array(items)) => {
            let ghost whole = JsonValue::Array(items);
            assert(json_doc(text@) == Some(whole));
            let mut out: Vec<String> = Vec::new();
            let mut i: usize = 0;
            while i < items.len()
                invariant
                    i <= items.len(),
                    whole == JsonValue::Array(items),
                    json_doc(text@) == Some(whole),
                    out@.len() == i,
                    forall|j: int| 0 <= j < i ==> (#[trigger] items@[j]) is String && out@[j]@ == items@[j]->String_0@,
                decreases items.len() - i,
            {
                match &items[i] {
                    JsonValue::String(t) => out.push(t.clone()),
                    _ => {
                        assert(!(items@[i as int] is String));
                        assert(string_items(JsonValue::Array(items)) is None);
                        return None;
                    },
                }
                i = i + 1;
            }
            assert(views(out@) =~= items@.map_values(|x: JsonValue| x->String_0@));
            Some(out)
        },
        _ => None,
    }
}

/// Each line of a runtime's output read as JSON (`None` for a line that
/// is not), lines being the pieces between `\n` characters.
pub fn parse_json_lines(text: &str) -> (r: Vec<Option<JsonValue>>)
    ensures
        r@.len() == split_on(text@, '\n').len(),
        forall|i: int| 0 <= i < r@.len() ==> #[trigger] r@[i] == json_doc(split_on(text@, '\n')[i]),
{
    let lines = split_chars(text, '\n');
    let mut out: Vec<Option<JsonValue>> = Vec::new();
    let mut i: usize = 0;
    while i < lines.len()
        invariant
            i <= lines.len(),
            views(lines@) == split_on(text@, '\n'),
            out@.len() == i,
            forall|j: int| 0 <= j < i ==> #[trigger] out@[j] == json_doc(views(lines@)[j]),
        decreases lines.len() - i,
    {
        let doc = parse_json_doc(lines[i].as_str());
        assert(views(lines@)[i as int] == lines@[i as int]@);
        out.push(doc);
        i = i + 1;
    }
    out
}

/// The field `key` of an object (`None` for anything else or a missing
/// field).
pub open spec fn json_get(v: JsonValue, key: Seq<char>) -> Option<JsonValue> {
    match v {
        JsonValue::Object(fields) => field_of(fields@, key),
        _ => None,
    }
}

/// The first field named `key`.
pub open spec fn field_of(fields: Seq<(String, JsonValue)>, key: Seq<char>) -> Option<JsonValue>
    decreases fields.len(),
{
    if fields.len() == 0 {
        None
    } else if fields[0].0@ == key {
        Some(fields[0].1)
    } else {
        field_of(fields.drop_first(), key)
    }
}

/// The text of a string value.
pub open spec fn as_str(v: Option<JsonValue>) -> Option<Seq<char>> {
    match v {
        Some(JsonValue::String(s)) => Some(s@),
        _ => None,
    }
}

/// The string field `key` of `v`.
pub open spec fn str_field(v: JsonValue, key: Seq<char>) -> Option<Seq<char>> {
    as_str(json_get(v, key))
}

/// The first of two options that is set.
pub open spec fn either<T>(a: Option<T>, b: Option<T>) -> Option<T> {
    match a {
        Some(x) => Some(x),
        None => b,
    }
}

/// The text, or empty.
pub open spec fn text_or_empty(o: Option<Seq<char>>) -> Seq<char> {
    match o {
        Some(s) => s,
        None => Seq::empty(),
    }
}

/// The first element of an array field, if it is a string.
pub open spec fn first_str_of(v: JsonValue, key: Seq<char>) -> Option<Seq<char>> {
    match json_get(v, key) {
        Some(JsonValue::Array(items)) => if items@.len() > 0 {
            as_str(Some(items@[0]))
        } else {
            None
        },
        _ => None,
    }
}

/// `s` without its leading `/` characters.
pub open spec fn strip_slashes(s: Seq<char>) -> Seq<char>
    decreases s.len(),
{
    if s.len() > 0 && s[0] == '/' {
        strip_slashes(s.drop_first())
    } else {
        s
    }
}

/// A container's id: `Id`, or `ID`.
pub open spec fn info_id(v: JsonValue) -> Seq<char> {
    text_or_empty(either(str_field(v, "Id"@), str_field(v, "ID"@)))
}

/// A container's name: the first of `Names`, or `Name`, without leading
/// slashes.
pub open spec fn info_name(v: JsonValue) -> Seq<char> {
    strip_slashes(text_or_empty(either(first_str_of(v, "Names"@), str_field(v, "Name"@))))
}

/// A container's status: `Status`, or the `Status` of `State`.
pub open spec fn info_status(v: JsonValue) -> Seq<char> {
    text_or_empty(
        either(
            str_field(v, "Status"@),
            match json_get(v, "State"@) {
                Some(state) => str_field(state, "Status"@),
                None => None,
            },
        ),
    )
}

/// The container described by a JSON object.
pub open spec fn info_of(v: JsonValue, r: ContainerInfo) -> bool {
    &&& r.id@ == info_id(v)
    &&& r.name@ == info_name(v)
    &&& r.image@ == text_or_empty(str_field(v, "Image"@))
    &&& r.status@ == info_status(v)
    &&& r.ports@.len() == 0
    &&& r.created@ == text_or_empty(str_field(v, "Created"@))
    &&& r.ip is None
}

/// `n` is `s` without its leading `/` characters: `s` is a run of `/`
/// followed by `n`, and `n` does not start with `/`.
pub open spec fn slashes_then(s: Seq<char>, n: Seq<char>) -> bool {
    &&& n.len() <= s.len()
    &&& s.skip(s.len() - n.len()) == n
    &&& forall|i: int| 0 <= i < s.len() - n.len() ==> s[i] == '/'
    &&& n.len() > 0 ==> n[0] != '/'
}

proof fn lemma_strip_slashes(s: Seq<char>)
    ensures
        slashes_then(s, strip_slashes(s)),
    decreases s.len(),
{
    if s.len() > 0 && s[0] == '/' {
        lemma_strip_slashes(s.drop_first());
        let t = strip_slashes(s.drop_first());
        assert(s.skip(s.len() - t.len()) =~= s.drop_first().skip(s.drop_first().len() - t.len()));
        assert forall|i: int| 0 <= i < s.len() - t.len() implies s[i] == '/' by {
            if i > 0 {
                assert(s[i] == s.drop_first()[i - 1]);
            }
        }
    } else {
        assert(s.skip(0) =~= s);
    }
}

/// The name read from a container's JSON: the first of its `Names`
/// when that is a string, else (with no `Names`) its `Name`, in either
/// case without leading `/` (docker's `/web` is `web`).
pub proof fn law_container_name(v: JsonValue, r: ContainerInfo)
    requires
        info_of(v, r),
    ensures
        forall|t: String|
            json_get(v, "Names"@) matches Some(JsonValue::Array(items)) && items@.len() > 0 && items@[0]
                == JsonValue::String(t) ==> #[trigger] slashes_then(t@, r.name@),
        forall|t: String|
            json_get(v, "Names"@) is None && json_get(v, "Name"@) == Some(JsonValue::String(t))
                ==> #[trigger] slashes_then(t@, r.name@),
{
    lemma_strip_slashes(text_or_empty(either(first_str_of(v, "Names"@), str_field(v, "Name"@))));
}

/// The id and status read from a container's JSON: `Id` (else `ID`);
/// `Status` (else the `Status` of `State`, as docker's inspect output has
/// it); each empty when absent.
pub proof fn law_container_id_and_status(v: JsonValue, r: ContainerInfo)
    requires
        info_of(v, r),
    ensures
        forall|t: String| json_get(v, "Id"@) == Some(JsonValue::String(t)) ==> r.id@ == (#[trigger] t@),
        forall|t: String|
            json_get(v, "Id"@) is None && json_get(v, "ID"@) == Some(JsonValue::String(t)) ==> r.id@ == (
            #[trigger] t@),
        json_get(v, "Id"@) is None && json_get(v, "ID"@) is None ==> r.id@.len() == 0,
        forall|t: String| json_get(v, "Status"@) == Some(JsonValue::String(t)) ==> r.status@ == (#[trigger] t@),
        forall|state: JsonValue, t: String|
            #![trigger json_get(state, "Status"@), t@]
            json_get(v, "Status"@) is None && json_get(v, "State"@) == Some(state) && json_get(state, "Status"@)
                == Some(JsonValue::String(t)) ==> r.status@ == t@,
        json_get(v, "Status"@) is None && json_get(v, "State"@) is None ==> r.status@.len() == 0,
{
}

/// The image described by a JSON object.
pub open spec fn image_of(v: JsonValue, r: ImageInfo) -> bool {
    &&& r.id@ == info_id(v)
    &&& r.repository@ == text_or_empty(str_field(v, "Repository"@))
    &&& r.tag@ == text_or_empty(str_field(v, "Tag"@))
    &&& r.size == match json_get(v, "Size"@) {
        Some(JsonValue::Number(Some(n))) => n,
        _ => 0,
    }
    &&& r.created@ == text_or_empty(str_field(v, "Created"@))
}

/// The field `key` of `v`.
pub(crate) fn get_field<'a>(v: &'a JsonValue, key: &str) -> (r: Option<&'a JsonValue>)
    ensures
        match r {
            Some(x) => json_get(*v, key@) == Some(*x),
            None => json_get(*v, key@) is None,
        },
{
    match v {
        JsonValue::Object(fields) => {
            let k = key.to_owned();
            let mut i: usize = 0;
            assert(fields@.skip(0) =~= fields@);
            while i < fields.len()
                invariant
                    i <= fields.len(),
                    k@ == key@,
                    json_get(*v, key@) == field_of(fields@, key@),
                    field_of(fields@, key@) == field_of(fields@.skip(i as int), key@),
                decreases fields.len() - i,
            {
                if fields[i].0 == k {
                    assert(fields@.skip(i as int)[0] == fields@[i as int]);
                    assert(fields@[i as int].0@ == key@);
                    assert(field_of(fields@.skip(i as int), key@) == Some(fields@[i as int].1));
                    return Some(&fields[i].1);
                }
                assert(fields@.skip(i as int).drop_first() =~= fields@.skip(i + 1));
                i = i + 1;
            }
            None
        },
        _ => None,
    }
}

/// The string field `key` of `v`.
pub(crate) fn get_str(v: &JsonValue, key: &str) -> (r: Option<String>)
    ensures
        opt_view(r) == str_field(*v, key@),
{
    match get_field(v, key) {
        Some(JsonValue::String(s)) => Some(s.clone()),
        _ => None,
    }
}

fn or_empty_string(o: Option<String>) -> (r: String)
    ensures
        r@ == text_or_empty(opt_view(o)),
{
    match o {
        Some(s) => s,
        None => String::new(),
    }
}

fn strip_leading_slashes(s: String) -> (r: String)
    ensures
        r@ == strip_slashes(s@),
{
    let v = chars_of(s.as_str());
    let mut i: usize = 0;
    assert(v@.skip(0) =~= v@);
    while i < v.len() && v[i] == '/'
        invariant
            i <= v.len(),
            strip_slashes(s@) == strip_slashes(v@.skip(i as int)),
            v@ == s@,
        decreases v.len() - i,
    {
        assert(v@.skip(i as int).drop_first() =~= v@.skip(i + 1));
        i = i + 1;
    }
    let r = sub_chars(&v, i, v.len());
    assert(r@ =~= v@.skip(i as int));
    string_from_chars(r)
}

/// Reads a container's description from a CLI's JSON.
pub fn parse_container_info_from_json(json: &JsonValue) -> (r: ContainerInfo)
    ensures
        info_of(*json, r),
{
    let id = match get_str(json, "Id") {
        Some(s) => s,
        None => or_empty_string(get_str(json, "ID")),
    };
    let first_name = match get_field(json, "Names") {
        Some(JsonValue::Array(items)) => if items.len() > 0 {
            match &items[0] {
                JsonValue::String(s) => Some(s.clone()),
                _ => None,
            }
        } else {
            None
        },
        _ => None,
    };
    let name = match first_name {
        Some(s) => s,
        None => or_empty_string(get_str(json, "Name")),
    };
    let status = match get_str(json, "Status") {
        Some(s) => s,
        None => match get_field(json, "State") {
            Some(state) => or_empty_string(get_str(state, "Status")),
            None => String::new(),
        },
    };
    ContainerInfo {
        id,
        name: strip_leading_slashes(name),
        image: or_empty_string(get_str(json, "Image")),
        status,
        ports: Vec::new(),
        created: or_empty_string(get_str(json, "Created")),
        ip: None,
    }
}

/// Reads an image's description from a CLI's JSON.
pub fn parse_image_info_from_json(json: &JsonValue) -> (r: ImageInfo)
    ensures
        image_of(*json, r),
{
    let id = match get_str(json, "Id") {
        Some(s) => s,
        None => or_empty_string(get_str(json, "ID")),
    };
    let size = match get_field(json, "Size") {
        Some(JsonValue::Number(Some(n))) => *n,
        _ => 0,
    };
    ImageInfo {
        id,
        repository: or_empty_string(get_str(json, "Repository")),
        tag: or_empty_string(get_str(json, "Tag")),
        size,
        created: or_empty_string(get_str(json, "Created")),
    }
}

/// The containers of `ps --format json` output, one JSON document per
/// line; `lines` holds each line's document, or `None` where the line is
/// not JSON (such lines are skipped).
pub fn parse_list_output(lines: &Vec<Option<JsonValue>>) -> (r: Vec<ContainerInfo>)
    ensures
        r@.len() == parsed_count(lines@),
        forall|p: int| 0 <= p < r@.len() ==> info_of(parsed_docs(lines@)[p], #[trigger] r@[p]),
{
    let mut out: Vec<ContainerInfo> = Vec::new();
    let mut i: usize = 0;
    while i < lines.len()
        invariant
            i <= lines.len(),
            out@.len() == parsed_count(lines@.take(i as int)),
            parsed_docs(lines@.take(i as int)).len() == out@.len(),
            forall|p: int| 0 <= p < out@.len() ==> info_of(parsed_docs(lines@.take(i as int))[p], #[trigger] out@[p]),
        decreases lines.len() - i,
    {
        proof {
            assert(lines@.take(i + 1).drop_last() =~= lines@.take(i as int));
        }
        match &lines[i] {
            Some(v) => {
                out.push(parse_container_info_from_json(v));
            },
            None => {},
        }
        i = i + 1;
    }
    assert(lines@.take(i as int) =~= lines@);
    out
}

/// The documents among the lines, in order.
pub open spec fn parsed_docs(lines: Seq<Option<JsonValue>>) -> Seq<JsonValue>
    decreases lines.len(),
{
    if lines.len() == 0 {
        Seq::empty()
    } else {
        match lines.last() {
            Some(v) => parsed_docs(lines.drop_last()).push(v),
            None => parsed_docs(lines.drop_last()),
        }
    }
}

/// The number of lines that hold a document.
pub open spec fn parsed_count(lines: Seq<Option<JsonValue>>) -> nat {
    parsed_docs(lines).len()
}

/// The images of `images --format json` output, one JSON document per
/// line (`None` for a line that is not JSON; such lines are skipped).
pub fn parse_list_images_output(lines: &Vec<Option<JsonValue>>) -> (r: Vec<ImageInfo>)
    ensures
        r@.len() == parsed_count(lines@),
        forall|p: int| 0 <= p < r@.len() ==> image_of(parsed_docs(lines@)[p], #[trigger] r@[p]),
{
    let mut out: Vec<ImageInfo> = Vec::new();
    let mut i: usize = 0;
    while i < lines.len()
        invariant
            i <= lines.len(),
            out@.len() == parsed_count(lines@.take(i as int)),
            parsed_docs(lines@.take(i as int)).len() == out@.len(),
            forall|p: int| 0 <= p < out@.len() ==> image_of(parsed_docs(lines@.take(i as int))[p], #[trigger] out@[p]),
        decreases lines.len() - i,
    {
        proof {
            assert(lines@.take(i + 1).drop_last() =~= lines@.take(i as int));
        }
        match &lines[i] {
            Some(v) => {
                out.push(parse_image_info_from_json(v));
            },
            None => {},
        }
        i = i + 1;
    }
    assert(lines@.take(i as int) =~= lines@);
    out
}

/// The document that `inspect` describes: the first element of an array
/// (the array itself when empty), or the document itself.
pub open spec fn inspected(v: JsonValue) -> JsonValue {
    match v {
        JsonValue::Array(items) => if items@.len() > 0 {
            items@[0]
        } else {
            v
        },
        _ => v,
    }
}

/// The container of `inspect --format json` output; `doc` is the output
/// read as JSON (`None` when it is not JSON).
pub fn parse_inspect_output(_id: &str, doc: &Option<JsonValue>) -> (r: Option<ContainerInfo>)
    ensures
        match (doc, r) {
            (Some(v), Some(info)) => info_of(inspected(*v), info),
            (None, None) => true,
            _ => false,
        },
{
    match doc {
        Some(v) => {
            let first: &JsonValue = match v {
                JsonValue::Array(items) => if items.len() > 0 {
                    &items[0]
                } else {
                    v
                },
                _ => v,
            };
            Some(parse_container_info_from_json(first))
        },
        None => None,
    }
}

} // verus!
