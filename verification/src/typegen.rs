//! What `gen types` decides: the session and URL it calls with, the
//! generator's endpoint, and where the generated file goes.
use vstd::prelude::*;

use crate::client::ensure_console_url;
use crate::global_config::GlobalConfig;
use crate::paths::{path_join, spec_path_join};
use crate::text::{owned, push_str};

verus! {

/// Why types cannot be generated.
#[derive(PartialEq, Eq, Structural, Debug, Clone, Copy)]
pub enum TypegenError {
    /// There is no profile for the project.
    ProfileNotFound,
    /// The profile holds no session, or an empty one.
    MissingSession,
    /// The profile has neither a console URL nor a console API URL.
    MissingConsoleUrls,
}

/// The console URL and session that the generator is called with: the
/// profile's console URL (else its console API URL) and its session, which
/// must not be empty.
pub fn generator_target(global: &GlobalConfig, project_id: &str) -> (r: Result<
    (String, String),
    TypegenError,
>)
    ensures
        !global.projects.has_key(project_id@) ==> r == Err::<(String, String), TypegenError>(
            TypegenError::ProfileNotFound,
        ),
        global.projects.has_key(project_id@) ==> {
            let p = global.projects.value_of(project_id@);
            match p.nc_session {
                Some(s) if s@.len() > 0 => match p.console_url {
                    Some(u) => r matches Ok((x, y)) && x@ == u@ && y@ == s@,
                    None => match p.console_api_url {
                        Some(u) => r matches Ok((x, y)) && x@ == u@ && y@ == s@,
                        None => r == Err::<(String, String), TypegenError>(
                            TypegenError::MissingConsoleUrls,
                        ),
                    },
                },
                _ => r == Err::<(String, String), TypegenError>(TypegenError::MissingSession),
            }
        },
{
    let profile = match global.projects.get(project_id) {
        Some(p) => p,
        None => {
            return Err(TypegenError::ProfileNotFound);
        },
    };
    let session = match &profile.nc_session {
        Some(s) => {
            if s.as_str().is_empty() {
                return Err(TypegenError::MissingSession);
            }
            owned(s.as_str())
        },
        None => {
            return Err(TypegenError::MissingSession);
        },
    };
    match ensure_console_url(profile) {
        Ok(u) => Ok((u, session)),
        Err(_) => Err(TypegenError::MissingConsoleUrls),
    }
}

/// The generator's endpoint for a language: `database/generators/<segment>`.
pub fn generator_endpoint(segment: &str) -> (r: String)
    ensures
        r@ == "database/generators/"@ + segment@,
{
    let mut out = owned("database/generators/");
    push_str(&mut out, segment);
    out
}

/// Where generated types go by default: `nuvix/types/<file name>` under the
/// project directory.
pub fn default_output_path(project_dir: &str, file_name: &str) -> (r: String)
    ensures
        r@ == spec_path_join(
            spec_path_join(spec_path_join(project_dir@, "nuvix"@), "types"@),
            file_name@,
        ),
{
    let a = path_join(project_dir, "nuvix");
    let b = path_join(a.as_str(), "types");
    path_join(b.as_str(), file_name)
}

} // verus!
