//! Dependency ordering of services.
//!
//! Services start in dependency order; among the services whose
//! dependencies have all started, the one with the smallest name goes
//! first (Kahn's algorithm with an ordered ready set).
use vstd::prelude::*;
use crate::error::ComposeError;
use crate::types::{keys_of, lemma_key_index, views, ComposeService, ComposeSpec};

verus! {

// ============ Name order ============

/// `a` sorts before `b` (`String`'s order: lexicographic by character).
pub open spec fn str_lt(a: Seq<char>, b: Seq<char>) -> bool
    decreases a.len(),
{
    if b.len() == 0 {
        false
    } else if a.len() == 0 {
        true
    } else if (a[0] as u32) < (b[0] as u32) {
        true
    } else if a[0] == b[0] {
        str_lt(a.drop_first(), b.drop_first())
    } else {
        false
    }
}

pub proof fn lemma_str_lt_irreflexive(a: Seq<char>)
    ensures
        !str_lt(a, a),
    decreases a.len(),
{
    if a.len() > 0 {
        lemma_str_lt_irreflexive(a.drop_first());
    }
}

pub proof fn lemma_str_lt_transitive(a: Seq<char>, b: Seq<char>, c: Seq<char>)
    requires
        str_lt(a, b),
        str_lt(b, c),
    ensures
        str_lt(a, c),
    decreases a.len(),
{
    if a.len() > 0 && b.len() > 0 && c.len() > 0 && a[0] == b[0] && b[0] == c[0] {
        lemma_str_lt_transitive(a.drop_first(), b.drop_first(), c.drop_first());
    }
}

/// Whether `a` sorts before `b`.
pub fn chars_lt(a: &Vec<char>, b: &Vec<char>) -> (r: bool)
    ensures
        r == str_lt(a@, b@),
{
    let mut i: usize = 0;
    assert(a@.skip(0) =~= a@);
    assert(b@.skip(0) =~= b@);
    while i < a.len() && i < b.len() && a[i] == b[i]
        invariant
            i <= a.len(),
            i <= b.len(),
            str_lt(a@, b@) == str_lt(a@.skip(i as int), b@.skip(i as int)),
        decreases a.len() - i,
    {
        assert(a@.skip(i as int).drop_first() =~= a@.skip(i + 1));
        assert(b@.skip(i as int).drop_first() =~= b@.skip(i + 1));
        i = i + 1;
    }
    if i == b.len() {
        false
    } else if i == a.len() {
        true
    } else {
        (a[i] as u32) < (b[i] as u32)
    }
}

// ============ The dependency graph ============

/// The names a service depends on, in the order written.
pub open spec fn dep_names(s: ComposeService) -> Seq<Seq<char>> {
    match s.depends_on {
        Some(d) => d.names_view(),
        None => Seq::empty(),
    }
}

/// The dependency lists of the services, in service order.
pub open spec fn service_deps(spec: ComposeSpec) -> Seq<Seq<Seq<char>>> {
    spec.services.entries@.map_values(|e: (String, ComposeService)| dep_names(e.1))
}

/// Service `i` has not started and everything it depends on has.
pub open spec fn ready(
    names: Seq<Seq<char>>,
    deps: Seq<Seq<Seq<char>>>,
    placed: Seq<Seq<char>>,
    i: int,
) -> bool {
    &&& 0 <= i < names.len()
    &&& !placed.contains(names[i])
    &&& forall|k: int| 0 <= k < deps[i].len() ==> placed.contains(#[trigger] deps[i][k])
}

/// Position `p` of `order` starts the ready service with the smallest
/// name.
pub open spec fn greedy_at(
    names: Seq<Seq<char>>,
    deps: Seq<Seq<Seq<char>>>,
    order: Seq<Seq<char>>,
    p: int,
) -> bool {
    exists|i: int|
        #![trigger ready(names, deps, order.take(p), i)]
        names[i] == order[p] && ready(names, deps, order.take(p), i) && (forall|j: int|
            ready(names, deps, order.take(p), j) ==> !str_lt(names[j], names[i]))
}

/// `order` starts services one at a time, each time the ready service with
/// the smallest name.
pub open spec fn greedy(names: Seq<Seq<char>>, deps: Seq<Seq<Seq<char>>>, order: Seq<Seq<char>>) -> bool {
    forall|p: int| 0 <= p < order.len() ==> #[trigger] greedy_at(names, deps, order, p)
}

/// No service is ready once `placed` have started.
pub open spec fn stalled(names: Seq<Seq<char>>, deps: Seq<Seq<Seq<char>>>, placed: Seq<Seq<char>>) -> bool {
    forall|j: int| 0 <= j < names.len() ==> !ready(names, deps, placed, j)
}

/// Every name that is depended on is a service.
pub open spec fn deps_defined(names: Seq<Seq<char>>, deps: Seq<Seq<Seq<char>>>) -> bool {
    forall|i: int, k: int| 0 <= i < deps.len() && 0 <= k < deps[i].len() ==> names.contains(deps[i][k])
}

/// The names in `names` that are not in `placed`, in order.
pub open spec fn remaining(names: Seq<Seq<char>>, placed: Seq<Seq<char>>) -> Seq<Seq<char>>
    decreases names.len(),
{
    if names.len() == 0 {
        Seq::empty()
    } else {
        let rest = remaining(names.drop_last(), placed);
        if placed.contains(names.last()) {
            rest
        } else {
            rest.push(names.last())
        }
    }
}

/// The message for a dependency on a service that is not defined.
pub open spec fn undefined_dep_message(service: Seq<char>, dep: Seq<char>) -> Seq<char> {
    "Service '"@ + service + "' depends on '"@ + dep + "' which is not defined"@
}

/// Dependency `k` of service `i` is the first (in service order, then in
/// the order written) that names no service.
pub open spec fn first_undefined(
    names: Seq<Seq<char>>,
    deps: Seq<Seq<Seq<char>>>,
    i: int,
    k: int,
) -> bool {
    &&& 0 <= i < deps.len()
    &&& 0 <= k < deps[i].len()
    &&& !names.contains(deps[i][k])
    &&& forall|i2: int, k2: int|
        0 <= i2 < i && 0 <= k2 < deps[i2].len() ==> names.contains(#[trigger] deps[i2][k2])
    &&& forall|k2: int| 0 <= k2 < k ==> names.contains(#[trigger] deps[i][k2])
}

/// `message` reports the first dependency that names no service.
pub open spec fn undefined_dep_error(
    names: Seq<Seq<char>>,
    deps: Seq<Seq<Seq<char>>>,
    message: Seq<char>,
) -> bool {
    exists|i: int, k: int|
        #![trigger first_undefined(names, deps, i, k)]
        first_undefined(names, deps, i, k) && message == undefined_dep_message(names[i], deps[i][k])
}

/// What `resolve_startup_order` gives for services `names` with
/// dependencies `deps`.
pub open spec fn startup_order_result(
    names: Seq<Seq<char>>,
    deps: Seq<Seq<Seq<char>>>,
    r: Result<Seq<Seq<char>>, ComposeError>,
) -> bool {
    match r {
        Ok(order) => {
            &&& deps_defined(names, deps)
            &&& order.len() == names.len()
            &&& greedy(names, deps, order)
        },
        Err(ComposeError::ValidationError { message }) => undefined_dep_error(names, deps, message@),
        Err(ComposeError::DependencyCycle { services }) => {
            &&& deps_defined(names, deps)
            &&& exists|placed: Seq<Seq<char>>|
                {
                    &&& greedy(names, deps, placed)
                    &&& placed.len() < names.len()
                    &&& stalled(names, deps, placed)
                    &&& views(services@) == remaining(names, placed)
                }
        },
        _ => false,
    }
}

/// The result of ordering, with the order as character sequences.
pub open spec fn order_view(r: Result<Vec<String>, ComposeError>) -> Result<Seq<Seq<char>>, ComposeError> {
    match r {
        Ok(v) => Ok(views(v@)),
        Err(e) => Err(e),
    }
}

// ============ Implementation ============

/// The number of `false` entries.
pub open spec fn count_false(s: Seq<bool>) -> nat
    decreases s.len(),
{
    if s.len() == 0 {
        0
    } else {
        count_false(s.drop_last()) + if s.last() {
            0nat
        } else {
            1nat
        }
    }
}

proof fn lemma_count_false_set(s: Seq<bool>, i: int)
    requires
        0 <= i < s.len(),
        !s[i],
    ensures
        count_false(s.update(i, true)) + 1 == count_false(s),
    decreases s.len(),
{
    let u = s.update(i, true);
    if i == s.len() - 1 {
        assert(u.drop_last() =~= s.drop_last());
    } else {
        lemma_count_false_set(s.drop_last(), i);
        assert(u.drop_last() =~= s.drop_last().update(i, true));
    }
}

proof fn lemma_count_false_pos(s: Seq<bool>, i: int)
    requires
        0 <= i < s.len(),
        !s[i],
    ensures
        count_false(s) > 0,
    decreases s.len(),
{
    if i < s.len() - 1 {
        lemma_count_false_pos(s.drop_last(), i);
    }
}

proof fn lemma_count_false_all(n: nat)
    ensures
        count_false(Seq::new(n, |i: int| false)) == n,
    decreases n,
{
    if n > 0 {
        lemma_count_false_all((n - 1) as nat);
        assert(Seq::new(n, |i: int| false).drop_last() =~= Seq::new((n - 1) as nat, |i: int| false));
    }
}

/// The names of `idx`, in order.
pub open spec fn names_of(names: Seq<Seq<char>>, idx: Seq<usize>) -> Seq<Seq<char>> {
    idx.map_values(|i: usize| names[i as int])
}

/// With distinct names, a name of `idx` is the name of a member of `idx`.
proof fn lemma_names_of_contains(names: Seq<Seq<char>>, idx: Seq<usize>, x: usize)
    requires
        forall|a: int, b: int| 0 <= a < b < names.len() ==> names[a] != names[b],
        forall|p: int| 0 <= p < idx.len() ==> idx[p] < names.len(),
        x < names.len(),
    ensures
        names_of(names, idx).contains(names[x as int]) <==> idx.contains(x),
{
    if idx.contains(x) {
        let p = choose|p: int| 0 <= p < idx.len() && idx[p] == x;
        assert(names_of(names, idx)[p] == names[x as int]);
    }
    if names_of(names, idx).contains(names[x as int]) {
        let p = choose|p: int| 0 <= p < idx.len() && names_of(names, idx)[p] == names[x as int];
        assert(names[idx[p] as int] == names[x as int]);
        assert(idx[p] == x);
    }
}

proof fn lemma_greedy_extend(
    keys: Seq<Seq<char>>,
    deps: Seq<Seq<Seq<char>>>,
    order: Seq<usize>,
    b: usize,
)
    requires
        greedy(keys, deps, names_of(keys, order)),
        ready(keys, deps, names_of(keys, order), b as int),
        forall|j: int| ready(keys, deps, names_of(keys, order), j) ==> !str_lt(keys[j], keys[b as int]),
    ensures
        greedy(keys, deps, names_of(keys, order.push(b))),
{
    let pn = names_of(keys, order);
    let newn = names_of(keys, order.push(b));
    assert forall|p: int| 0 <= p < newn.len() implies greedy_at(keys, deps, newn, p) by {
        if p < order.len() {
            assert(newn.take(p) =~= pn.take(p));
            assert(newn[p] == pn[p]);
            assert(greedy_at(keys, deps, pn, p));
        } else {
            assert(newn.take(p) =~= pn);
            assert(newn[p] == keys[b as int]);
            assert(ready(keys, deps, newn.take(p), b as int));
        }
    }
}

/// Whether every index in `di` is placed.
fn all_placed(di: &Vec<usize>, placed: &Vec<bool>) -> (r: bool)
    requires
        forall|k: int| 0 <= k < di.len() ==> di@[k] < placed.len(),
    ensures
        r == forall|k: int| 0 <= k < di.len() ==> placed@[di@[k] as int],
{
    let mut k: usize = 0;
    while k < di.len()
        invariant
            k <= di.len(),
            forall|k2: int| 0 <= k2 < di.len() ==> di@[k2] < placed.len(),
            forall|k2: int| 0 <= k2 < k ==> placed@[di@[k2] as int],
        decreases di.len() - k,
    {
        if !placed[di[k]] {
            return false;
        }
        k = k + 1;
    }
    true
}

/// The message for a dependency on an undefined service.
fn undefined_message(service: &String, dep: &String) -> (r: String)
    ensures
        r@ == undefined_dep_message(service@, dep@),
{
    let mut m = String::from_str("Service '");
    m.append(service.as_str());
    m.append("' depends on '");
    m.append(dep.as_str());
    m.append("' which is not defined");
    m
}

/// The dependency indices of every service; an error for the first
/// dependency that names no service.
fn dependency_indices(spec: &ComposeSpec, names: &Vec<String>) -> (r: Result<Vec<Vec<usize>>, ComposeError>)
    requires
        spec.wf(),
        views(names@) == spec.services.keys(),
    ensures
        match r {
            Ok(d) => {
                &&& deps_defined(spec.services.keys(), service_deps(*spec))
                &&& d.len() == names.len()
                &&& forall|i: int| 0 <= i < d.len() ==> (#[trigger] d@[i]).len() == service_deps(*spec)[i].len()
                &&& forall|i: int, k: int| 0 <= i < d.len() && 0 <= k < d@[i].len() ==> (#[trigger] d@[i]@[k]) < names.len()
                    && names@[d@[i]@[k] as int]@ == service_deps(*spec)[i][k]
            },
            Err(ComposeError::ValidationError { message }) => undefined_dep_error(
                spec.services.keys(),
                service_deps(*spec),
                message@,
            ),
            _ => false,
        },
{
    let ghost keys = spec.services.keys();
    let ghost deps = service_deps(*spec);
    let n = spec.services.entries.len();
    assert(deps.len() == n);
    assert(keys.len() == n);
    assert(views(names@).len() == names@.len());
    let mut out: Vec<Vec<usize>> = Vec::new();
    let mut i: usize = 0;
    while i < n
        invariant
            i <= n,
            n == spec.services.entries.len(),
            spec.wf(),
            keys == spec.services.keys(),
            deps == service_deps(*spec),
            views(names@) == keys,
            deps.len() == n,
            keys.len() == n,
            names.len() == n,
            out.len() == i,
            forall|i2: int, k2: int| 0 <= i2 < i && 0 <= k2 < deps[i2].len() ==> keys.contains(#[trigger] deps[i2][k2]),
            forall|i2: int| 0 <= i2 < i ==> (#[trigger] out@[i2]).len() == deps[i2].len(),
            forall|i2: int, k2: int| 0 <= i2 < i && 0 <= k2 < out@[i2].len() ==> (#[trigger] out@[i2]@[k2]) < n
                && names@[out@[i2]@[k2] as int]@ == deps[i2][k2],
        decreases n - i,
    {
        let dl: Vec<String> = match &spec.services.entries[i].1.depends_on {
            Some(d) => d.service_names(),
            None => Vec::new(),
        };
        assert(views(dl@) == deps[i as int]);
        assert(views(dl@).len() == dl@.len());
        let mut di: Vec<usize> = Vec::new();
        let mut k: usize = 0;
        while k < dl.len()
            invariant
                k <= dl.len(),
                n == spec.services.entries.len(),
                spec.wf(),
                keys == spec.services.keys(),
                views(names@) == keys,
                views(dl@) == deps[i as int],
                dl.len() == deps[i as int].len(),
                deps == service_deps(*spec),
                forall|i2: int, k2: int| 0 <= i2 < i && 0 <= k2 < deps[i2].len() ==> keys.contains(#[trigger] deps[i2][k2]),
                deps.len() == n,
                keys.len() == n,
                names.len() == n,
                i < n,
                di.len() == k,
                forall|k2: int| 0 <= k2 < k ==> keys.contains(#[trigger] deps[i as int][k2]),
                forall|k2: int| 0 <= k2 < k ==> (#[trigger] di@[k2]) < n && names@[di@[k2] as int]@ == deps[i as int][k2],
            decreases dl.len() - k,
        {
            assert(views(dl@)[k as int] == dl@[k as int]@);
            assert(dl@[k as int]@ == deps[i as int][k as int]);
            match spec.services.index_of(&dl[k]) {
                Some(j) => {
                    proof {
                        lemma_key_index(spec.services.entries@, dl@[k as int]@);
                        assert(views(names@)[j as int] == names@[j as int]@);
                        assert(keys[j as int] == spec.services.entries@[j as int].0@);
                        assert(names@[j as int]@ == keys[j as int]);
                        assert(keys.contains(deps[i as int][k as int]));
                    }
                    di.push(j);
                },
                None => {
                    proof {
                        lemma_key_index(spec.services.entries@, dl@[k as int]@);
                        assert(!keys.contains(deps[i as int][k as int])) by {
                            if keys.contains(deps[i as int][k as int]) {
                                let x = choose|x: int| 0 <= x < keys.len() && keys[x] == deps[i as int][k as int];
                                assert(spec.services.entries@[x].0@ == keys[x]);
                            }
                        }
                        assert(first_undefined(keys, deps, i as int, k as int));
                    }
                    let msg = undefined_message(&names[i], &dl[k]);
                    proof {
                        assert(views(names@)[i as int] == names@[i as int]@);
                        assert(names@[i as int]@ == keys[i as int]);
                        assert(msg@ == undefined_dep_message(keys[i as int], deps[i as int][k as int]));
                    }
                    let ghost mv = msg@;
                    assert(undefined_dep_error(keys, deps, mv));
                    let err = ComposeError::validation(msg);
                    assert(err matches ComposeError::ValidationError { message } && message@ == mv);
                    return Err(err);
                },
            }
            k = k + 1;
        }
        out.push(di);
        i = i + 1;
    }
    Ok(out)
}

/// The startup order of the services of `spec`: dependencies first, and
/// among the services whose dependencies have all started, the one with
/// the smallest name. A dependency on an undefined service is a
/// validation error; services that can never start (a cycle, or something
/// depending on one) are reported as a dependency cycle, in service order.
pub fn resolve_startup_order(spec: &ComposeSpec) -> (r: Result<Vec<String>, ComposeError>)
    requires
        spec.wf(),
    ensures
        startup_order_result(spec.services.keys(), service_deps(*spec), order_view(r)),
{
    let ghost keys = spec.services.keys();
    let ghost deps = service_deps(*spec);
    let names = keys_of(&spec.services);
    let n = names.len();
    assert(n == keys.len());
    proof {
        assert forall|a: int, b: int| 0 <= a < b < keys.len() implies keys[a] != keys[b] by {
            assert(spec.services.entries@[a].0@ != spec.services.entries@[b].0@);
        }
    }
    let di = match dependency_indices(spec, &names) {
        Ok(d) => d,
        Err(e) => {
            return Err(e);
        },
    };
    let mut name_chars: Vec<Vec<char>> = Vec::new();
    let mut x: usize = 0;
    while x < n
        invariant
            x <= n,
            n == names.len(),
            name_chars.len() == x,
            forall|y: int| 0 <= y < x ==> (#[trigger] name_chars@[y])@ == names@[y]@,
        decreases n - x,
    {
        name_chars.push(crate::text::chars_of(names[x].as_str()));
        x = x + 1;
    }
    let mut placed: Vec<bool> = Vec::new();
    let mut z: usize = 0;
    while z < n
        invariant
            z <= n,
            placed@ =~= Seq::new(z as nat, |i: int| false),
        decreases n - z,
    {
        placed.push(false);
        z = z + 1;
    }
    proof {
        lemma_count_false_all(n as nat);
    }
    let mut order: Vec<usize> = Vec::new();
    loop
        invariant
            n == names.len(),
            n == keys.len(),
            views(names@) == keys,
            forall|a: int, b: int| 0 <= a < b < keys.len() ==> keys[a] != keys[b],
            name_chars.len() == n,
            forall|y: int| 0 <= y < n ==> (#[trigger] name_chars@[y])@ == names@[y]@,
            deps == service_deps(*spec),
            deps.len() == n,
            deps_defined(keys, deps),
            di.len() == n,
            forall|i: int| 0 <= i < n ==> (#[trigger] di@[i]).len() == deps[i].len(),
            forall|i: int, k: int| 0 <= i < n && 0 <= k < di@[i].len() ==> (#[trigger] di@[i]@[k]) < n
                && keys[di@[i]@[k] as int] == deps[i][k],
            placed.len() == n,
            forall|p: int| 0 <= p < order.len() ==> (#[trigger] order@[p]) < n,
            forall|y: int| 0 <= y < n ==> (placed@[y] <==> order@.contains(y as usize)),
            count_false(placed@) + order.len() == n,
            greedy(keys, deps, names_of(keys, order@)),
        ensures
            stalled(keys, deps, names_of(keys, order@)),
        decreases count_false(placed@),
    {
        let ghost pn = names_of(keys, order@);
        // the ready service with the smallest name
        let mut best: Option<usize> = None;
        let mut i: usize = 0;
        while i < n
            invariant
                i <= n,
                n == names.len(),
                n == keys.len(),
                views(names@) == keys,
                forall|a: int, b: int| 0 <= a < b < keys.len() ==> keys[a] != keys[b],
                name_chars.len() == n,
                forall|y: int| 0 <= y < n ==> (#[trigger] name_chars@[y])@ == names@[y]@,
                deps.len() == n,
                di.len() == n,
                forall|i2: int| 0 <= i2 < n ==> (#[trigger] di@[i2]).len() == deps[i2].len(),
                forall|i2: int, k: int| 0 <= i2 < n && 0 <= k < di@[i2].len() ==> (#[trigger] di@[i2]@[k]) < n
                    && keys[di@[i2]@[k] as int] == deps[i2][k],
                placed.len() == n,
                forall|p: int| 0 <= p < order.len() ==> (#[trigger] order@[p]) < n,
                forall|y: int| 0 <= y < n ==> (placed@[y] <==> order@.contains(y as usize)),
                pn == names_of(keys, order@),
                match best {
                    None => forall|j: int| 0 <= j < i ==> !ready(keys, deps, pn, j),
                    Some(b) => b < i && ready(keys, deps, pn, b as int) && forall|j: int|
                        0 <= j < i && ready(keys, deps, pn, j) ==> !str_lt(keys[j], keys[b as int]),
                },
            decreases n - i,
        {
            proof {
                lemma_names_of_contains(keys, order@, i);
                assert forall|k: int| 0 <= k < di@[i as int].len() implies (placed@[di@[i as int]@[k] as int]
                    <==> pn.contains(deps[i as int][k])) by {
                    lemma_names_of_contains(keys, order@, di@[i as int]@[k]);
                }
            }
            let is_ready = !placed[i] && all_placed(&di[i], &placed);
            assert(is_ready == ready(keys, deps, pn, i as int));
            if is_ready {
                match best {
                    None => {
                        proof {
                            lemma_str_lt_irreflexive(keys[i as int]);
                        }
                        best = Some(i);
                    },
                    Some(b) => {
                        let smaller = chars_lt(&name_chars[i], &name_chars[b]);
                        assert(views(names@)[i as int] == names@[i as int]@);
                        assert(views(names@)[b as int] == names@[b as int]@);
                        assert(names@[i as int]@ == keys[i as int]);
                        assert(names@[b as int]@ == keys[b as int]);
                        if smaller {
                            proof {
                                assert forall|j: int| 0 <= j <= i && ready(keys, deps, pn, j) implies !str_lt(keys[j], keys[i as int]) by {
                                    if j == i {
                                        lemma_str_lt_irreflexive(keys[i as int]);
                                    } else if str_lt(keys[j], keys[i as int]) {
                                        lemma_str_lt_transitive(keys[j], keys[i as int], keys[b as int]);
                                    }
                                }
                            }
                            best = Some(i);
                        }
                    },
                }
            }
            i = i + 1;
        }
        match best {
            None => {
                break;
            },
            Some(b) => {
                proof {
                    lemma_names_of_contains(keys, order@, b);
                    lemma_count_false_set(placed@, b as int);
                    lemma_count_false_pos(placed@, b as int);
                }
                let ghost old_order = order@;
                placed.set(b, true);
                order.push(b);
                proof {
                    assert forall|y: int| 0 <= y < n implies (placed@[y] <==> order@.contains(y as usize)) by {
                        if y == b as int {
                            assert(order@[old_order.len() as int] == b);
                        } else {
                            if order@.contains(y as usize) {
                                let p = choose|p: int| 0 <= p < order@.len() && order@[p] == y as usize;
                                if p < old_order.len() {
                                    assert(old_order[p] == y as usize);
                                }
                            }
                            if old_order.contains(y as usize) {
                                let p = choose|p: int| 0 <= p < old_order.len() && old_order[p] == y as usize;
                                assert(order@[p] == y as usize);
                            }
                        }
                    }
                    lemma_greedy_extend(keys, deps, old_order, b);
                    assert(order@ =~= old_order.push(b));
                }
            },
        }
    }
    let ghost pn = names_of(keys, order@);
    if order.len() != n {
        let mut cyc: Vec<String> = Vec::new();
        let mut y: usize = 0;
        while y < n
            invariant
                y <= n,
                n == names.len(),
                n == keys.len(),
                views(names@) == keys,
                forall|a: int, b: int| 0 <= a < b < keys.len() ==> keys[a] != keys[b],
                placed.len() == n,
                forall|p: int| 0 <= p < order.len() ==> (#[trigger] order@[p]) < n,
                forall|y2: int| 0 <= y2 < n ==> (placed@[y2] <==> order@.contains(y2 as usize)),
                pn == names_of(keys, order@),
                views(cyc@) == remaining(keys.take(y as int), pn),
            decreases n - y,
        {
            proof {
                lemma_names_of_contains(keys, order@, y);
                assert(keys.take(y + 1).drop_last() =~= keys.take(y as int));
                assert(keys.take(y + 1).last() == keys[y as int]);
            }
            if !placed[y] {
                let ghost pre = cyc@;
                cyc.push(names[y].clone());
                assert(views(cyc@) =~= views(pre).push(keys[y as int]));
            }
            y = y + 1;
        }
        assert(keys.take(n as int) =~= keys);
        proof {
            assert(pn.len() < keys.len());
            assert(stalled(keys, deps, pn));
        }
        return Err(ComposeError::DependencyCycle { services: cyc });
    }
    let mut out: Vec<String> = Vec::new();
    let mut p: usize = 0;
    while p < n
        invariant
            p <= n,
            n == names.len(),
            order.len() == n,
            views(names@) == keys,
            forall|q: int| 0 <= q < order.len() ==> (#[trigger] order@[q]) < n,
            pn == names_of(keys, order@),
            out.len() == p,
            forall|q: int| 0 <= q < p ==> (#[trigger] out@[q])@ == pn[q],
        decreases n - p,
    {
        out.push(names[order[p]].clone());
        p = p + 1;
    }
    assert(views(out@) =~= pn);
    Ok(out)
}

// ============ Laws ============

/// `order` starts every service exactly once, each after everything it
/// depends on.
pub open spec fn valid_order(names: Seq<Seq<char>>, deps: Seq<Seq<Seq<char>>>, order: Seq<Seq<char>>) -> bool {
    &&& order.len() == names.len()
    &&& order.no_duplicates()
    &&& forall|p: int| 0 <= p < order.len() ==> names.contains(#[trigger] order[p])
    &&& forall|p: int, i: int, k: int|
        0 <= p < order.len() && 0 <= i < names.len() && names[i] == order[p] && 0 <= k < deps[i].len()
            ==> #[trigger] order.take(p).contains(#[trigger] deps[i][k])
}

/// Service names are distinct.
pub open spec fn distinct_names(names: Seq<Seq<char>>) -> bool {
    forall|a: int, b: int| 0 <= a < b < names.len() ==> names[a] != names[b]
}

proof fn lemma_greedy_distinct(names: Seq<Seq<char>>, deps: Seq<Seq<Seq<char>>>, order: Seq<Seq<char>>)
    requires
        greedy(names, deps, order),
    ensures
        order.no_duplicates(),
        forall|p: int| 0 <= p < order.len() ==> names.contains(#[trigger] order[p]),
{
    assert forall|a: int, b: int| 0 <= a < order.len() && 0 <= b < order.len() && a != b implies order[a] != order[b] by {
        let (x, y) = if a < b { (a, b) } else { (b, a) };
        assert(greedy_at(names, deps, order, y));
        assert(order.take(y)[x] == order[x]);
    }
    assert forall|p: int| 0 <= p < order.len() implies names.contains(#[trigger] order[p]) by {
        assert(greedy_at(names, deps, order, p));
        let i = choose|i: int|
            #![trigger ready(names, deps, order.take(p), i)]
            names[i] == order[p] && ready(names, deps, order.take(p), i) && (forall|j: int|
                ready(names, deps, order.take(p), j) ==> !str_lt(names[j], names[i]));
        assert(names[i] == order[p]);
    }
}

/// Each entry of a successful startup order is a service name.
pub proof fn lemma_order_names_defined(
    names: Seq<Seq<char>>,
    deps: Seq<Seq<Seq<char>>>,
    order: Seq<Seq<char>>,
    k: int,
)
    requires
        startup_order_result(names, deps, Ok(order)),
        0 <= k < order.len(),
    ensures
        names.contains(order[k]),
{
    lemma_greedy_distinct(names, deps, order);
}

proof fn lemma_distinct_within<A>(a: Seq<A>, b: Seq<A>)
    requires
        a.no_duplicates(),
        forall|x: A| a.contains(x) ==> b.contains(x),
    ensures
        a.len() <= b.len(),
{
    broadcast use vstd::seq_lib::seq_to_set_is_finite;
    a.unique_seq_to_set();
    b.lemma_cardinality_of_set();
    assert(a.to_set().subset_of(b.to_set()));
    vstd::set_lib::lemma_len_subset(a.to_set(), b.to_set());
}

/// A successful startup order starts every service exactly once, each
/// after all of its dependencies.
pub proof fn law_startup_order_respects_dependencies(
    names: Seq<Seq<char>>,
    deps: Seq<Seq<Seq<char>>>,
    order: Seq<Seq<char>>,
)
    requires
        distinct_names(names),
        deps.len() == names.len(),
        startup_order_result(names, deps, Ok(order)),
    ensures
        valid_order(names, deps, order),
{
    lemma_greedy_distinct(names, deps, order);
    assert forall|p: int, i: int, k: int|
        0 <= p < order.len() && 0 <= i < names.len() && names[i] == order[p] && 0 <= k < deps[i].len()
        implies #[trigger] order.take(p).contains(#[trigger] deps[i][k]) by {
        assert(greedy_at(names, deps, order, p));
        let i0 = choose|i0: int|
            #![trigger ready(names, deps, order.take(p), i0)]
            names[i0] == order[p] && ready(names, deps, order.take(p), i0) && (forall|j: int|
                ready(names, deps, order.take(p), j) ==> !str_lt(names[j], names[i0]));
        if i0 != i {
            if i0 < i {
                assert(names[i0] != names[i]);
            } else {
                assert(names[i] != names[i0]);
            }
        }
    }
}

/// A dependency cycle is reported only when no order can start every
/// service after its dependencies, and it names at least one service.
pub proof fn law_cycle_only_when_no_order(
    names: Seq<Seq<char>>,
    deps: Seq<Seq<Seq<char>>>,
    services: Vec<String>,
    other: Seq<Seq<char>>,
)
    requires
        distinct_names(names),
        deps.len() == names.len(),
        startup_order_result(names, deps, Err(ComposeError::DependencyCycle { services })),
    ensures
        !valid_order(names, deps, other),
        services@.len() > 0,
{
    let placed = choose|placed: Seq<Seq<char>>|
        {
            &&& greedy(names, deps, placed)
            &&& placed.len() < names.len()
            &&& stalled(names, deps, placed)
            &&& views(services@) == remaining(names, placed)
        };
    lemma_greedy_distinct(names, deps, placed);
    // some service never started
    assert(exists|x: int| 0 <= x < names.len() && !placed.contains(names[x])) by {
        if forall|x: int| 0 <= x < names.len() ==> placed.contains(names[x]) {
            assert(names.no_duplicates()) by {
                assert forall|a: int, b: int| 0 <= a < names.len() && 0 <= b < names.len() && a != b implies names[a] != names[b] by {
                    if a < b {
                    } else {
                    }
                }
            }
            assert forall|y: Seq<char>| names.contains(y) implies placed.contains(y) by {
                let x = choose|x: int| 0 <= x < names.len() && names[x] == y;
            }
            lemma_distinct_within(names, placed);
        }
    }
    let x = choose|x: int| 0 <= x < names.len() && !placed.contains(names[x]);
    lemma_remaining_contains(names, placed, x);
    assert(views(services@).len() > 0);
    if valid_order(names, deps, other) {
        // the first service of `other` that never started
        assert(exists|q: int| 0 <= q < other.len() && !placed.contains(other[q])) by {
            if forall|q: int| 0 <= q < other.len() ==> placed.contains(other[q]) {
                lemma_distinct_within(other, placed);
            }
        }
        let q0 = choose|q: int| 0 <= q < other.len() && !placed.contains(other[q]);
        let q = lemma_first_outside(other, placed, q0);
        assert(names.contains(other[q]));
        let i = choose|i: int| 0 <= i < names.len() && names[i] == other[q];
        assert forall|k: int| 0 <= k < deps[i].len() implies placed.contains(#[trigger] deps[i][k]) by {
            assert(other.take(q).contains(deps[i][k]));
            let r = choose|r: int| 0 <= r < other.take(q).len() && other.take(q)[r] == deps[i][k];
            assert(other[r] == deps[i][k]);
        }
        assert(ready(names, deps, placed, i));
    }
}

proof fn lemma_remaining_contains(names: Seq<Seq<char>>, placed: Seq<Seq<char>>, x: int)
    requires
        0 <= x < names.len(),
        !placed.contains(names[x]),
    ensures
        remaining(names, placed).len() > 0,
    decreases names.len(),
{
    if x < names.len() - 1 {
        lemma_remaining_contains(names.drop_last(), placed, x);
    }
}

proof fn lemma_first_outside(s: Seq<Seq<char>>, placed: Seq<Seq<char>>, q0: int) -> (q: int)
    requires
        0 <= q0 < s.len(),
        !placed.contains(s[q0]),
    ensures
        0 <= q <= q0,
        !placed.contains(s[q]),
        forall|r: int| 0 <= r < q ==> placed.contains(s[r]),
    decreases q0,
{
    if exists|r: int| 0 <= r < q0 && !placed.contains(s[r]) {
        let r = choose|r: int| 0 <= r < q0 && !placed.contains(s[r]);
        lemma_first_outside(s, placed, r)
    } else {
        q0
    }
}

proof fn lemma_char_u32(c: char)
    ensures
        (c as u32) as int == c as int,
{
    assert(0 <= c as int);
    assert(c as int <= 0x10FFFF);
}

proof fn lemma_str_lt_total(a: Seq<char>, b: Seq<char>)
    requires
        a != b,
    ensures
        str_lt(a, b) || str_lt(b, a),
    decreases a.len(),
{
    if a.len() > 0 && b.len() > 0 && a[0] == b[0] {
        if a.drop_first() == b.drop_first() {
            assert(a =~= seq![a[0]] + a.drop_first());
            assert(b =~= seq![b[0]] + b.drop_first());
        } else {
            lemma_str_lt_total(a.drop_first(), b.drop_first());
        }
    } else if a.len() == 0 && b.len() == 0 {
        assert(a =~= b);
    } else if a.len() > 0 && b.len() > 0 {
        lemma_char_u32(a[0]);
        lemma_char_u32(b[0]);
    }
}

proof fn lemma_greedy_prefix_unique(
    names: Seq<Seq<char>>,
    deps: Seq<Seq<Seq<char>>>,
    o1: Seq<Seq<char>>,
    o2: Seq<Seq<char>>,
    p: int,
)
    requires
        distinct_names(names),
        greedy(names, deps, o1),
        greedy(names, deps, o2),
        0 <= p <= o1.len(),
        p <= o2.len(),
    ensures
        o1.take(p) == o2.take(p),
    decreases p,
{
    if p > 0 {
        let q = p - 1;
        lemma_greedy_prefix_unique(names, deps, o1, o2, q);
        let placed = o1.take(q);
        assert(greedy_at(names, deps, o1, q));
        assert(greedy_at(names, deps, o2, q));
        let i1 = choose|i: int|
            #![trigger ready(names, deps, o1.take(q), i)]
            names[i] == o1[q] && ready(names, deps, o1.take(q), i) && (forall|j: int|
                ready(names, deps, o1.take(q), j) ==> !str_lt(names[j], names[i]));
        let i2 = choose|i: int|
            #![trigger ready(names, deps, o2.take(q), i)]
            names[i] == o2[q] && ready(names, deps, o2.take(q), i) && (forall|j: int|
                ready(names, deps, o2.take(q), j) ==> !str_lt(names[j], names[i]));
        assert(ready(names, deps, placed, i2));
        assert(ready(names, deps, placed, i1));
        if names[i1] != names[i2] {
            lemma_str_lt_total(names[i1], names[i2]);
        }
        assert(o1.take(p) =~= o1.take(q).push(o1[q]));
        assert(o2.take(p) =~= o2.take(q).push(o2[q]));
    }
}

/// Cycle detection is complete: when every dependency names a service but
/// no order can start each service after its dependencies, ordering
/// reports a dependency cycle (naming at least one service).
pub proof fn law_no_order_means_cycle(
    names: Seq<Seq<char>>,
    deps: Seq<Seq<Seq<char>>>,
    r: Result<Seq<Seq<char>>, ComposeError>,
)
    requires
        distinct_names(names),
        deps.len() == names.len(),
        deps_defined(names, deps),
        forall|o: Seq<Seq<char>>| !#[trigger] valid_order(names, deps, o),
        startup_order_result(names, deps, r),
    ensures
        r matches Err(ComposeError::DependencyCycle { services }) && services@.len() > 0,
{
    match r {
        Ok(order) => {
            law_startup_order_respects_dependencies(names, deps, order);
        },
        Err(ComposeError::ValidationError { message }) => {
            let (i, k) = choose|i: int, k: int|
                #![trigger first_undefined(names, deps, i, k)]
                first_undefined(names, deps, i, k) && message@ == undefined_dep_message(names[i], deps[i][k]);
            assert(names.contains(deps[i][k]));
        },
        Err(ComposeError::DependencyCycle { services }) => {
            law_cycle_only_when_no_order(names, deps, services, Seq::empty());
        },
        _ => {},
    }
}

/// The startup order is determined by the document: two orders that both
/// meet the contract of `resolve_startup_order` are the same.
pub proof fn law_startup_order_unique(
    names: Seq<Seq<char>>,
    deps: Seq<Seq<Seq<char>>>,
    o1: Seq<Seq<char>>,
    o2: Seq<Seq<char>>,
)
    requires
        distinct_names(names),
        startup_order_result(names, deps, Ok(o1)),
        startup_order_result(names, deps, Ok(o2)),
    ensures
        o1 == o2,
{
    lemma_greedy_prefix_unique(names, deps, o1, o2, o1.len() as int);
    assert(o1.take(o1.len() as int) =~= o1);
    assert(o2.take(o2.len() as int) =~= o2);
}

} // verus!
