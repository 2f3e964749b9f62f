//! The project configuration file (`nuvix.toml`).
use vstd::prelude::*;

use crate::paths::{path_file_name, path_join, spec_path_file_name, spec_path_join};
use crate::strmap::StrMap;
use crate::text::owned;

verus! {

/// The project configuration's file name.
pub const CONFIG_FILE: &'static str = "nuvix.toml";

/// The project configuration.
pub struct ProjectConfig {
    pub project: ProjectSection,
    pub local: LocalSection,
    pub remote: Option<RemoteSection>,
    pub self_host: Option<SelfHostSection>,
}

/// The `[project]` section.
pub struct ProjectSection {
    pub name: String,
}

/// The `[local]` section: ports of the local stack.
pub struct LocalSection {
    pub api_port: u16,
    pub db_port: u16,
}

/// The `[remote]` section: a linked remote deployment.
pub struct RemoteSection {
    pub url: String,
    pub token: String,
}

/// The `[self_host]` section: self-hosted deployments by project id.
pub struct SelfHostSection {
    pub default_project_id: Option<String>,
    pub projects: StrMap<SelfHostProjectSection>,
    pub docker_dir: Option<String>,
    pub env_file: Option<String>,
}

/// Where one self-hosted project lives.
pub struct SelfHostProjectSection {
    pub docker_dir: String,
    pub env_file: String,
}

impl ProjectConfig {
    /// A fresh configuration for a project, with the default local ports.
    pub fn new(project_name: String) -> (cfg: Self)
        ensures
            cfg.project.name == project_name,
            cfg.local.api_port == 54321,
            cfg.local.db_port == 54322,
            cfg.remote is None,
            cfg.self_host is None,
    {
        ProjectConfig {
            project: ProjectSection { name: project_name },
            local: LocalSection { api_port: 54321, db_port: 54322 },
            remote: None,
            self_host: None,
        }
    }

    /// The configuration read from the project directory when there is one,
    /// otherwise a fresh one named after the directory (or `nuvix-project`
    /// when the directory has no name).
    pub fn load_or_new(project_dir: &str, existing: Option<ProjectConfig>) -> (cfg: Self)
        ensures
            match existing {
                Some(c) => cfg == c,
                None => {
                    &&& cfg.project.name@ == match spec_path_file_name(project_dir@) {
                        Some(n) => n,
                        None => "nuvix-project"@,
                    }
                    &&& cfg.local.api_port == 54321
                    &&& cfg.local.db_port == 54322
                    &&& cfg.remote is None
                    &&& cfg.self_host is None
                },
            },
    {
        match existing {
            Some(c) => c,
            None => Self::new(default_project_name(None, project_dir)),
        }
    }

    /// Links the project to a remote deployment.
    pub fn link_remote(&mut self, url: String, token: String)
        ensures
            final(self).project == old(self).project,
            final(self).local == old(self).local,
            final(self).self_host == old(self).self_host,
            final(self).remote == Some(RemoteSection { url, token }),
    {
        self.remote = Some(RemoteSection { url, token });
    }
}

/// The name of a new project: the one given, else the project directory's
/// name, else `nuvix-project`.
pub fn default_project_name(name: Option<String>, project_dir: &str) -> (r: String)
    ensures
        match name {
            Some(n) => r == n,
            None => r@ == match spec_path_file_name(project_dir@) {
                Some(n) => n,
                None => "nuvix-project"@,
            },
        },
{
    match name {
        Some(n) => n,
        None => match path_file_name(project_dir) {
            Some(n) => n,
            None => owned("nuvix-project"),
        },
    }
}

/// The directory, inside a project, of the local project file that names
/// the project's id.
pub const LOCAL_CONFIG_DIR: &'static str = "nuvix";

/// The local project file's name.
pub const LOCAL_CONFIG_FILE: &'static str = "config.toml";

/// Where the local project file of a project lives: `nuvix/config.toml`.
pub fn local_config_path(project_dir: &str) -> (r: String)
    ensures
        r@ == spec_path_join(spec_path_join(project_dir@, "nuvix"@), "config.toml"@),
{
    let dir = path_join(project_dir, LOCAL_CONFIG_DIR);
    path_join(dir.as_str(), LOCAL_CONFIG_FILE)
}

} // verus!
