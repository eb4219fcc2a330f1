//! The container runtimes offered for installation when none is found.
use vstd::prelude::*;
use crate::backend::lit;
use crate::error::ComposeError;

verus! {

/// The operating system family that installation options are given for.
#[derive(PartialEq, Eq, Structural, Clone, Copy)]
pub enum Platform {
    /// macOS or iOS.
    Apple,
    Linux,
    /// Any other system (Windows).
    Other,
}

/// A runtime that can be installed: its name, what it is, the command
/// that installs it, and where its documentation is.
pub struct BackendOption {
    pub name: String,
    pub description: String,
    pub install_command: String,
    pub docs_url: String,
}

/// An option as plain text: name, description, install command, docs.
pub open spec fn option_view(o: BackendOption) -> (Seq<char>, Seq<char>, Seq<char>, Seq<char>) {
    (o.name@, o.description@, o.install_command@, o.docs_url@)
}

/// The options offered on `p`, recommended first.
pub open spec fn options_for(p: Platform) -> Seq<(Seq<char>, Seq<char>, Seq<char>, Seq<char>)> {
    match p {
        Platform::Apple => seq![
            ("apple/container"@, "Apple's native container runtime (recommended)"@,
                "brew install container"@, "https://github.com/apple/container"@),
            ("orbstack"@, "Fast macOS VM with Docker-compatible API"@,
                "brew install --cask orbstack"@, "https://orbstack.dev"@),
            ("colima"@, "Lightweight macOS container runtime"@, "brew install colima"@,
                "https://github.com/abiosoft/colima"@),
            ("podman"@, "Daemonless, rootless OCI runtime"@,
                "brew install podman && podman machine init && podman machine start"@,
                "https://podman.io"@),
            ("docker"@, "Docker Desktop for Mac"@, "brew install --cask docker"@,
                "https://docs.docker.com/desktop/mac"@),
        ],
        Platform::Linux => seq![
            ("podman"@, "Daemonless, rootless OCI runtime (recommended)"@,
                "sudo apt-get install -y podman"@, "https://podman.io/getting-started/installation"@),
            ("docker"@, "Docker Engine"@, "curl -fsSL https://get.docker.com | sh"@,
                "https://docs.docker.com/engine/install"@),
        ],
        Platform::Other => seq![
            ("podman"@, "Daemonless, rootless OCI runtime (recommended)"@,
                "winget install RedHat.Podman"@, "https://podman.io/getting-started/installation"@),
            ("docker"@, "Docker Desktop for Windows"@, "winget install Docker.DockerDesktop"@,
                "https://docs.docker.com/desktop/windows"@),
        ],
    }
}

fn option(name: &str, description: &str, install_command: &str, docs_url: &str) -> (r: BackendOption)
    ensures
        option_view(r) == (name@, description@, install_command@, docs_url@),
{
    BackendOption {
        name: lit(name),
        description: lit(description),
        install_command: lit(install_command),
        docs_url: lit(docs_url),
    }
}

/// Offers the container runtimes that can be installed.
pub struct BackendInstaller;

impl BackendInstaller {
    /// The runtimes offered for installation on `platform`, recommended
    /// first.
    pub fn get_options(platform: Platform) -> (r: Vec<BackendOption>)
        ensures
            r@.map_values(|o: BackendOption| option_view(o)) == options_for(platform),
    {
        let v = match platform {
            Platform::Apple => vec![
                option(
                    "apple/container",
                    "Apple's native container runtime (recommended)",
                    "brew install container",
                    "https://github.com/apple/container",
                ),
                option(
                    "orbstack",
                    "Fast macOS VM with Docker-compatible API",
                    "brew install --cask orbstack",
                    "https://orbstack.dev",
                ),
                option(
                    "colima",
                    "Lightweight macOS container runtime",
                    "brew install colima",
                    "https://github.com/abiosoft/colima",
                ),
                option(
                    "podman",
                    "Daemonless, rootless OCI runtime",
                    "brew install podman && podman machine init && podman machine start",
                    "https://podman.io",
                ),
                option(
                    "docker",
                    "Docker Desktop for Mac",
                    "brew install --cask docker",
                    "https://docs.docker.com/desktop/mac",
                ),
            ],
            Platform::Linux => vec![
                option(
                    "podman",
                    "Daemonless, rootless OCI runtime (recommended)",
                    "sudo apt-get install -y podman",
                    "https://podman.io/getting-started/installation",
                ),
                option(
                    "docker",
                    "Docker Engine",
                    "curl -fsSL https://get.docker.com | sh",
                    "https://docs.docker.com/engine/install",
                ),
            ],
            Platform::Other => vec![
                option(
                    "podman",
                    "Daemonless, rootless OCI runtime (recommended)",
                    "winget install RedHat.Podman",
                    "https://podman.io/getting-started/installation",
                ),
                option(
                    "docker",
                    "Docker Desktop for Windows",
                    "winget install Docker.DockerDesktop",
                    "https://docs.docker.com/desktop/windows",
                ),
            ],
        };
        assert(v@.map_values(|o: BackendOption| option_view(o)) =~= options_for(platform));
        v
    }
}

// ============ The install dialogue ============

/// Where an install dialogue stands.
pub enum InstallStage {
    /// Nothing asked yet.
    Start,
    /// The runtimes are offered; a choice is awaited.
    Choosing,
    /// Runtime `option` was chosen; agreement to install it is awaited.
    Confirming { option: usize },
    /// The install command is running.
    Installing,
    /// A runtime was installed; it is being looked for again.
    Probing,
    /// The dialogue is over.
    Finished,
}

/// What the terminal, the user or the install command answered.
pub enum InstallEvent {
    /// Whether prompting is possible (standard error is a terminal and
    /// prompting was not switched off).
    Interactive(bool),
    /// The position of the chosen runtime, if one was chosen.
    Chosen(Option<usize>),
    /// Whether the user agreed to run the install command.
    Confirmed(bool),
    /// Whether the install command succeeded.
    Installed(bool),
}

/// What to do next.
pub enum InstallAction {
    /// Offer the runtimes and ask for a choice.
    AskChoice,
    /// Show how runtime `index` is installed and ask whether to go ahead.
    AskConfirm { index: usize },
    /// Run the install command.
    RunInstall { command: String },
    /// Look for a runtime again.
    Detect,
    /// End the dialogue with this error.
    Fail(ComposeError),
}

/// The event that `stage` waits for.
pub open spec fn awaits(stage: InstallStage, event: InstallEvent) -> bool {
    match stage {
        InstallStage::Start => event is Interactive,
        InstallStage::Choosing => event is Chosen,
        InstallStage::Confirming { .. } => event is Confirmed,
        InstallStage::Installing => event is Installed,
        _ => false,
    }
}

/// No runtime, and none probed.
pub open spec fn no_backend(e: ComposeError) -> bool {
    e matches ComposeError::NoBackendFound { probed } && probed@.len() == 0
}

/// One step of the install dialogue over `options`: where it goes from
/// `stage` on `event`, and what to do. Without a terminal, without a
/// choice, or without agreement, it ends with no runtime found; a chosen
/// runtime's install command is run once agreed to; after a successful
/// install a runtime is looked for again, and a failed one ends the
/// dialogue with a validation error.
pub fn install_step(stage: InstallStage, event: InstallEvent, options: &Vec<BackendOption>) -> (r: (
    InstallStage,
    InstallAction,
))
    requires
        awaits(stage, event),
        stage matches InstallStage::Confirming { option } ==> option < options.len(),
        event matches InstallEvent::Chosen(Some(i)) ==> i < options.len(),
    ensures
        match (stage, event) {
            (InstallStage::Start, InstallEvent::Interactive(true)) => r.0 is Choosing && r.1 is AskChoice,
            (InstallStage::Choosing, InstallEvent::Chosen(Some(i))) => r.0 == InstallStage::Confirming {
                option: i,
            } && r.1 == InstallAction::AskConfirm { index: i },
            (InstallStage::Confirming { option }, InstallEvent::Confirmed(true)) => {
                &&& r.0 is Installing
                &&& r.1 matches InstallAction::RunInstall { command }
                &&& command@ == options@[option as int].install_command@
            },
            (InstallStage::Installing, InstallEvent::Installed(true)) => r.0 is Probing && r.1 is Detect,
            (InstallStage::Installing, InstallEvent::Installed(false)) => {
                &&& r.0 is Finished
                &&& r.1 matches InstallAction::Fail(ComposeError::ValidationError { message })
                &&& message@ == "Installation failed"@
            },
            _ => {
                &&& r.0 is Finished
                &&& r.1 matches InstallAction::Fail(e)
                &&& no_backend(e)
            },
        },
{
    let no_runtime = InstallAction::Fail(ComposeError::NoBackendFound { probed: Vec::new() });
    match (stage, event) {
        (InstallStage::Start, InstallEvent::Interactive(true)) => (InstallStage::Choosing, InstallAction::AskChoice),
        (InstallStage::Choosing, InstallEvent::Chosen(Some(i))) => (
            InstallStage::Confirming { option: i },
            InstallAction::AskConfirm { index: i },
        ),
        (InstallStage::Confirming { option }, InstallEvent::Confirmed(true)) => (
            InstallStage::Installing,
            InstallAction::RunInstall { command: options[option].install_command.clone() },
        ),
        (InstallStage::Installing, InstallEvent::Installed(true)) => (InstallStage::Probing, InstallAction::Detect),
        (InstallStage::Installing, InstallEvent::Installed(false)) => {
            proof {
                reveal_strlit("Installation failed");
            }
            (
                InstallStage::Finished,
                InstallAction::Fail(ComposeError::validation(lit("Installation failed"))),
            )
        },
        _ => (InstallStage::Finished, no_runtime),
    }
}

} // verus!
