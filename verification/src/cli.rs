//! The `perry-compose` command line: its arguments, and what each
//! subcommand does with a project.
use vstd::prelude::*;
use crate::backend::{join, join_strings, BackendCall, BackendReply, ContainerBackend};
use crate::compose::ComposeEngine;
use crate::session::{calls_of_steps, down_outcome, replies_until_error, restarts_of, starts_of, stops_of, up_outcome};
use crate::types::ComposeSpec;
use crate::config::ProjectConfig;
use crate::error::ComposeError;
use crate::text::chars_of;
use crate::types::{copy_opt_string, copy_strings, opt_view, views, ContainerInfo};

verus! {

/// The arguments of `perry-compose`.
pub struct Cli {
    /// `-f FILE`, repeatable.
    pub file: Vec<String>,
    /// `-p NAME`.
    pub project_name: Option<String>,
    /// `--env-file FILE`, repeatable.
    pub env_file: Vec<String>,
    pub command: Commands,
}

/// The subcommands.
pub enum Commands {
    /// Start services.
    Up { detach: bool, build: bool, remove_orphans: bool, services: Vec<String> },
    /// Stop and remove services.
    Down { volumes: bool, remove_orphans: bool, services: Vec<String> },
    /// List service status.
    Ps { all: bool, services: Vec<String> },
    /// View output from containers.
    Logs { follow: bool, tail: Option<u32>, timestamps: bool, services: Vec<String> },
    /// Execute a command in a running service.
    Exec {
        service: String,
        cmd: Vec<String>,
        env: Vec<String>,
        workdir: Option<String>,
        user: Option<String>,
    },
    /// Validate and print the resolved configuration.
    Config { format: String, resolve_image_digests: bool },
    /// Start existing stopped services.
    Start { services: Vec<String> },
    /// Stop running services.
    Stop { services: Vec<String> },
    /// Restart services.
    Restart { services: Vec<String> },
}

impl Cli {
    /// The project configuration that the flags give.
    pub fn project_config(&self) -> (r: ProjectConfig)
        ensures
            views(r.files@) == views(self.file@),
            opt_view(r.project_name) == opt_view(self.project_name),
            views(r.env_files@) == views(self.env_file@),
    {
        ProjectConfig::new(
            copy_strings(&self.file),
            copy_opt_string(&self.project_name),
            copy_strings(&self.env_file),
        )
    }
}

// ============ The `ps` table ============

/// `s` left-aligned in a column of `width` characters (`{:<width}`):
/// padded with spaces, never cut.
pub open spec fn pad_right(s: Seq<char>, width: nat) -> Seq<char> {
    if s.len() >= width {
        s
    } else {
        s + Seq::new((width - s.len()) as nat, |i: int| ' ')
    }
}

/// One line of the `ps` table: four columns of 20.
pub open spec fn table_row(a: Seq<char>, b: Seq<char>, c: Seq<char>, d: Seq<char>) -> Seq<char> {
    pad_right(a, 20) + " "@ + pad_right(b, 20) + " "@ + pad_right(c, 20) + " "@ + pad_right(d, 20) + "\n"@
}

/// The row of a container: name, image, status and ports.
pub open spec fn info_row(i: ContainerInfo) -> Seq<char> {
    table_row(i.name@, i.image@, i.status@, join(views(i.ports@), ", "@))
}

/// The rows of the containers, in order.
pub open spec fn info_rows(infos: Seq<ContainerInfo>) -> Seq<char>
    decreases infos.len(),
{
    if infos.len() == 0 {
        Seq::empty()
    } else {
        info_rows(infos.drop_last()) + info_row(infos.last())
    }
}

/// The `ps` table: a header, then one row per container.
pub open spec fn ps_table_of(infos: Seq<ContainerInfo>) -> Seq<char> {
    table_row("NAME"@, "IMAGE"@, "STATUS"@, "PORTS"@) + info_rows(infos)
}

fn push_padded(out: &mut String, s: &str, width: usize)
    ensures
        final(out)@ == old(out)@ + pad_right(s@, width as nat),
{
    out.append(s);
    let n = chars_of(s).len();
    if n < width {
        let mut k: usize = n;
        let ghost pre = out@;
        while k < width
            invariant
                n <= k <= width,
                out@ == pre + Seq::new((k - n) as nat, |i: int| ' '),
            decreases width - k,
        {
            out.append(" ");
            proof {
                reveal_strlit(" ");
            }
            k = k + 1;
            assert(out@ =~= pre + Seq::new((k - n) as nat, |i: int| ' '));
        }
    }
    assert(final(out)@ =~= old(out)@ + pad_right(s@, width as nat));
}

fn push_row(out: &mut String, a: &str, b: &str, c: &str, d: &str)
    ensures
        final(out)@ == old(out)@ + table_row(a@, b@, c@, d@),
{
    push_padded(out, a, 20);
    out.append(" ");
    push_padded(out, b, 20);
    out.append(" ");
    push_padded(out, c, 20);
    out.append(" ");
    push_padded(out, d, 20);
    out.append("\n");
    proof {
        reveal_strlit(" ");
        reveal_strlit("\n");
    }
    assert(final(out)@ =~= old(out)@ + table_row(a@, b@, c@, d@));
}

/// The `ps` table: a header, then one row per container with its name,
/// image, status and ports, each in a column of 20.
pub fn ps_table(infos: &Vec<ContainerInfo>) -> (r: String)
    ensures
        r@ == ps_table_of(infos@),
{
    let mut out = String::new();
    push_row(&mut out, "NAME", "IMAGE", "STATUS", "PORTS");
    let ghost head = out@;
    let mut k: usize = 0;
    while k < infos.len()
        invariant
            k <= infos.len(),
            head == table_row("NAME"@, "IMAGE"@, "STATUS"@, "PORTS"@),
            out@ == head + info_rows(infos@.take(k as int)),
        decreases infos.len() - k,
    {
        let ports = join_strings(&infos[k].ports, ", ");
        let ghost pre = out@;
        push_row(
            &mut out,
            infos[k].name.as_str(),
            infos[k].image.as_str(),
            infos[k].status.as_str(),
            ports.as_str(),
        );
        proof {
            let t = infos@.take(k + 1);
            assert(t.drop_last() =~= infos@.take(k as int));
            assert(t.last() == infos@[k as int]);
            assert(out@ =~= head + info_rows(t));
        }
        k = k + 1;
    }
    assert(infos@.take(k as int) =~= infos@);
    out
}

// ============ Running a subcommand ============

/// What a subcommand leaves to print.
pub enum CommandOutcome {
    /// Nothing to print.
    Done,
    /// Text for standard output and standard error.
    Print { stdout: String, stderr: String },
    /// The resolved configuration, as YAML.
    PrintConfig,
}

/// The calls that subcommand `command` makes on a backend (whose calls go
/// from `before` to `after`) for document `spec`, given its result `r`:
/// those of [`ComposeEngine::up`], `down`, `start`, `stop`, `restart`,
/// `ps`, `logs` (of the first named service) and `exec`; none for
/// `config`; what `ps`, `logs` and `exec` print is what the backend
/// replied, and `start`, `stop` and `restart` fail as the first of their
/// calls that the backend refused.
pub open spec fn command_calls(
    spec: ComposeSpec,
    command: Commands,
    r: Result<CommandOutcome, ComposeError>,
    before: Seq<BackendCall>,
    after: Seq<BackendCall>,
    rb: Seq<BackendReply>,
    ra: Seq<BackendReply>,
) -> bool {
    match command {
        Commands::Up { .. } => match r {
            Ok(_) => exists|order: Seq<Seq<char>>| #[trigger] up_outcome(spec, Ok(order), before, after, rb, ra),
            Err(e) => up_outcome(spec, Err(e), before, after, rb, ra),
        },
        Commands::Down { volumes, .. } => match r {
            Ok(_) => down_outcome(spec, volumes, Ok(()), before, after),
            Err(e) => down_outcome(spec, volumes, Err(e), before, after),
        },
        Commands::Ps { .. } => {
            &&& after == before.push(BackendCall::List(true))
            &&& one_reply(rb, ra)
            &&& printed_list(r, ra.last())
        },
        Commands::Logs { tail, services, .. } => if services.len() > 0 {
            &&& after == before.push(BackendCall::Logs(services@[0]@, tail))
            &&& one_reply(rb, ra)
            &&& printed_output(r, ra.last())
        } else {
            after == before && ra == rb
        },
        Commands::Exec { service, cmd, .. } => {
            &&& after == before.push(BackendCall::Exec(service@, views(cmd@), None, None))
            &&& one_reply(rb, ra)
            &&& printed_output(r, ra.last())
        },
        Commands::Config { .. } => after == before && ra == rb,
        Commands::Start { services } => {
            &&& calls_of_steps(starts_of(views(services@)), r is Ok, before, after)
            &&& replies_until_error(starts_of(views(services@)).len() as int, unit_of(r), rb, ra)
        },
        Commands::Stop { services } => {
            &&& calls_of_steps(stops_of(views(services@)), r is Ok, before, after)
            &&& replies_until_error(stops_of(views(services@)).len() as int, unit_of(r), rb, ra)
        },
        Commands::Restart { services } => {
            &&& calls_of_steps(restarts_of(views(services@)), r is Ok, before, after)
            &&& replies_until_error(restarts_of(views(services@)).len() as int, unit_of(r), rb, ra)
        },
    }
}

/// The replies grew by one.
pub open spec fn one_reply(rb: Seq<BackendReply>, ra: Seq<BackendReply>) -> bool {
    ra.len() == rb.len() + 1 && ra.drop_last() == rb
}

/// The outcome without what it prints.
pub open spec fn unit_of(r: Result<CommandOutcome, ComposeError>) -> Result<(), ComposeError> {
    match r {
        Ok(_) => Ok(()),
        Err(e) => Err(e),
    }
}

/// What `ps` prints for the list of containers the backend replied: their
/// table, or the backend's error.
pub open spec fn printed_list(r: Result<CommandOutcome, ComposeError>, rep: BackendReply) -> bool {
    match rep {
        BackendReply::Containers(Ok(infos)) => r matches Ok(CommandOutcome::Print { stdout, .. }) && stdout@
            == ps_table_of(infos@),
        BackendReply::Containers(Err(e)) => r == Err::<CommandOutcome, ComposeError>(e),
        _ => false,
    }
}

/// What `logs` and `exec` print for the output the backend replied: that
/// output, or the backend's error.
pub open spec fn printed_output(r: Result<CommandOutcome, ComposeError>, rep: BackendReply) -> bool {
    match rep {
        BackendReply::Output(Ok(l)) => r matches Ok(CommandOutcome::Print { stdout, stderr }) && stdout == l.stdout
            && stderr == l.stderr,
        BackendReply::Output(Err(e)) => r == Err::<CommandOutcome, ComposeError>(e),
        _ => false,
    }
}

/// Runs a subcommand on the project's engine: `up`, `down`, `start`,
/// `stop` and `restart` act on the backend; `ps` gives the table of
/// containers; `logs` the output of the first named service (none when no
/// service is named); `exec` the output of the command; `config` asks for
/// the configuration to be printed.
pub fn run_command<B: ContainerBackend>(engine: &ComposeEngine, backend: &mut B, command: &Commands) -> (r: Result<
    CommandOutcome,
    ComposeError,
>)
    requires
        engine.spec.wf(),
    ensures
        command is Config ==> r matches Ok(CommandOutcome::PrintConfig),
        (command is Up || command is Down || command is Start || command is Stop || command is Restart)
            ==> (r is Err || r matches Ok(CommandOutcome::Done)),
        (command is Ps || command is Logs || command is Exec) ==> (r is Err || r matches Ok(
            CommandOutcome::Print { .. },
        )),
        command_calls(
            engine.spec,
            *command,
            r,
            old(backend).calls(),
            final(backend).calls(),
            old(backend).replies(),
            final(backend).replies(),
        ),
{
    match command {
        Commands::Up { .. } => match engine.up(backend) {
            Ok(h) => {
                assert(up_outcome(
                    engine.spec,
                    Ok(views(h.services@)),
                    old(backend).calls(),
                    backend.calls(),
                    old(backend).replies(),
                    backend.replies(),
                ));
                Ok(CommandOutcome::Done)
            },
            Err(e) => Err(e),
        },
        Commands::Down { volumes, .. } => match engine.down(backend, *volumes) {
            Ok(_) => Ok(CommandOutcome::Done),
            Err(e) => Err(e),
        },
        Commands::Ps { .. } => {
            let res = engine.ps(backend);
            assert(backend.replies().drop_last() =~= old(backend).replies());
            match res {
                Ok(infos) => {
                    let table = ps_table(&infos);
                    assert(table@ == ps_table_of(infos@));
                    Ok(CommandOutcome::Print { stdout: table, stderr: String::new() })
                },
                Err(e) => Err(e),
            }
        },
        Commands::Logs { tail, services, .. } => {
            let svc: Option<&str> = if services.len() > 0 {
                Some(services[0].as_str())
            } else {
                None
            };
            let res = engine.logs(backend, svc, *tail);
            proof {
                if services.len() > 0 {
                    assert(backend.replies().drop_last() =~= old(backend).replies());
                }
            }
            match res {
                Ok(l) => Ok(CommandOutcome::Print { stdout: l.stdout, stderr: l.stderr }),
                Err(e) => Err(e),
            }
        },
        Commands::Exec { service, cmd, .. } => {
            let res = engine.exec(backend, service.as_str(), cmd);
            assert(backend.replies().drop_last() =~= old(backend).replies());
            match res {
                Ok(l) => Ok(CommandOutcome::Print { stdout: l.stdout, stderr: l.stderr }),
                Err(e) => Err(e),
            }
        },
        Commands::Config { .. } => Ok(CommandOutcome::PrintConfig),
        Commands::Start { services } => match engine.start(backend, services) {
            Ok(_) => Ok(CommandOutcome::Done),
            Err(e) => Err(e),
        },
        Commands::Stop { services } => match engine.stop(backend, services) {
            Ok(_) => Ok(CommandOutcome::Done),
            Err(e) => Err(e),
        },
        Commands::Restart { services } => match engine.restart(backend, services) {
            Ok(_) => Ok(CommandOutcome::Done),
            Err(e) => Err(e),
        },
    }
}

} // verus!
