//! Which compose files and which project name a command works with.
use vstd::prelude::*;
use crate::backend::lit;
use crate::types::views;
use crate::yaml::split_chars;
use crate::text::split_on;

verus! {

/// Project configuration, from command-line flags or the environment.
pub struct ProjectConfig {
    pub files: Vec<String>,
    pub project_name: Option<String>,
    pub env_files: Vec<String>,
}

impl ProjectConfig {
    /// A configuration of these files, name and environment files.
    pub fn new(files: Vec<String>, project_name: Option<String>, env_files: Vec<String>) -> (r: ProjectConfig)
        ensures
            r.files == files,
            r.project_name == project_name,
            r.env_files == env_files,
    {
        ProjectConfig { files, project_name, env_files }
    }
}

/// The project name: the `-p` flag, else `COMPOSE_PROJECT_NAME`, else the
/// name of the project directory, else `default`.
pub open spec fn project_name_from(flag: Option<String>, env: Option<String>, dir: Option<String>) -> Seq<char> {
    match flag {
        Some(f) => f@,
        None => match env {
            Some(e) => e@,
            None => match dir {
                Some(d) => d@,
                None => "default"@,
            },
        },
    }
}

/// Resolves the project name, given the `-p` flag, the value of
/// `COMPOSE_PROJECT_NAME` if set, and the project directory's name if it
/// has one.
pub fn resolve_project_name(flag_name: Option<String>, env_name: Option<String>, dir_name: Option<String>) -> (r: String)
    ensures
        r@ == project_name_from(flag_name, env_name, dir_name),
{
    match flag_name {
        Some(f) => f,
        None => match env_name {
            Some(e) => e,
            None => match dir_name {
                Some(d) => d,
                None => lit("default"),
            },
        },
    }
}

/// The files looked for when none are named, in order.
pub open spec fn default_compose_files() -> Seq<Seq<char>> {
    seq!["compose.yaml"@, "compose.yml"@, "docker-compose.yaml"@, "docker-compose.yml"@]
}

/// The files looked for when none are named, in order.
pub fn compose_file_candidates() -> (r: Vec<String>)
    ensures
        views(r@) == default_compose_files(),
{
    let v = vec![
        lit("compose.yaml"),
        lit("compose.yml"),
        lit("docker-compose.yaml"),
        lit("docker-compose.yml"),
    ];
    assert(views(v@) =~= default_compose_files());
    v
}

/// The first position `i` at or after `from` with `exists[i]`, among the
/// candidate files.
pub open spec fn first_existing(exists: Seq<bool>, from: int) -> Option<int>
    decreases default_compose_files().len() - from,
{
    if from >= default_compose_files().len() || from < 0 {
        None
    } else if from < exists.len() && exists[from] {
        Some(from)
    } else {
        first_existing(exists, from + 1)
    }
}

/// The compose files: those named by `-f`, else those listed in
/// `COMPOSE_FILE` (split at `:`), else the first candidate file that
/// exists, else none.
pub open spec fn compose_files_from(flags: Seq<Seq<char>>, env: Option<String>, exists: Seq<bool>) -> Seq<
    Seq<char>,
> {
    if flags.len() > 0 {
        flags
    } else {
        match env {
            Some(e) => split_on(e@, ':'),
            None => match first_existing(exists, 0) {
                Some(i) => seq![default_compose_files()[i]],
                None => Seq::empty(),
            },
        }
    }
}

/// Resolves the compose files, given the `-f` flags, the value of
/// `COMPOSE_FILE` if set, and whether each of the candidate files (see
/// [`compose_file_candidates`]) exists; a missing entry counts as absent.
pub fn resolve_compose_files(flag_files: Vec<String>, env_files: Option<String>, candidate_exists: &Vec<bool>) -> (r: Vec<
    String,
>)
    ensures
        views(r@) == compose_files_from(views(flag_files@), env_files, candidate_exists@),
{
    if flag_files.len() > 0 {
        return flag_files;
    }
    match env_files {
        Some(e) => split_chars(e.as_str(), ':'),
        None => {
            let candidates = compose_file_candidates();
            let mut i: usize = 0;
            while i < candidates.len()
                invariant
                    i <= candidates.len(),
                    views(candidates@) == default_compose_files(),
                    flag_files.len() == 0,
                    env_files is None,
                    first_existing(candidate_exists@, 0) == first_existing(candidate_exists@, i as int),
                decreases candidates.len() - i,
            {
                if i < candidate_exists.len() && candidate_exists[i] {
                    let mut out: Vec<String> = Vec::new();
                    out.push(candidates[i].clone());
                    assert(views(candidates@)[i as int] == candidates@[i as int]@);
                    assert(views(candidates@).len() == candidates@.len());
                    assert(first_existing(candidate_exists@, i as int) == Some(i as int));
                    assert(views(flag_files@).len() == 0);
                    assert(compose_files_from(views(flag_files@), None, candidate_exists@) == seq![
                        default_compose_files()[i as int],
                    ]);
                    assert(views(out@) =~= seq![default_compose_files()[i as int]]);
                    return out;
                }
                i = i + 1;
            }
            let out: Vec<String> = Vec::new();
            assert(views(out@) =~= Seq::<Seq<char>>::empty());
            out
        },
    }
}

} // verus!
