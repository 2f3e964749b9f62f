//! The command line, as plain data: commands and their arguments.
use vstd::prelude::*;

verus! {

/// The whole command line.
pub struct Cli {
    /// Path to the project directory (defaults to the current directory).
    pub project_dir: Option<String>,
    pub command: Commands,
}

/// The top-level commands.
pub enum Commands {
    /// Manage a self-hosted deployment.
    SelfHost { command: SelfHostCommand },
    /// Manage global project profiles.
    Project { command: ProjectCommand },
}

/// The self-host commands.
pub enum SelfHostCommand {
    /// Initialize the self-host configuration and write its `.env` file.
    Init(SelfHostInitArgs),
    /// Start the self-hosted services.
    Up(SelfHostUpArgs),
    /// Stop the self-hosted services.
    Down(SelfHostDownArgs),
    /// Show the self-host status.
    Status(SelfHostStatusArgs),
}

/// The project-profile commands.
pub enum ProjectCommand {
    /// Set the API and console URLs of a profile.
    SetUrls(ProjectSetUrlsArgs),
    /// Make a profile the current one.
    Use(ProjectUseArgs),
    /// Show profiles or the current profile.
    Show(ProjectShowArgs),
}

/// Arguments of `self-host init`.
pub struct SelfHostInitArgs {
    pub non_interactive: bool,
    pub force: bool,
    pub pull: bool,
    pub docker_dir: Option<String>,
    pub docker_repo: Option<String>,
    pub env_file: Option<String>,
    pub project_id: Option<String>,
    pub host: Option<String>,
    pub api_port: Option<u16>,
    pub console_api_port: Option<u16>,
    pub console_port: Option<u16>,
    pub database_port: Option<u16>,
    pub admin_email: Option<String>,
    pub admin_password: Option<String>,
    pub jwt_secret: Option<String>,
    pub database_password: Option<String>,
    pub encryption_key: Option<String>,
    pub redis_host: Option<String>,
    pub redis_port: Option<u16>,
    pub redis_password: Option<String>,
}

/// Arguments of `self-host up`.
pub struct SelfHostUpArgs {
    pub detach: bool,
    pub project_id: Option<String>,
}

/// Arguments of `self-host down`.
pub struct SelfHostDownArgs {
    pub project_id: Option<String>,
}

/// Arguments of `self-host status`.
pub struct SelfHostStatusArgs {
    pub project_id: Option<String>,
}

/// Arguments of `project set-urls`.
pub struct ProjectSetUrlsArgs {
    pub project_id: String,
    pub api_url: String,
    pub console_api_url: String,
    pub console_url: Option<String>,
}

/// Arguments of `project use`.
pub struct ProjectUseArgs {
    pub project_id: String,
}

/// Arguments of `project show`.
pub struct ProjectShowArgs {
    pub project_id: Option<String>,
    pub list: bool,
}

} // verus!
