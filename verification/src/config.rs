//! The settings of the program.

use vstd::prelude::*;

verus! {

/// The settings of the program.
#[derive(Debug, Clone, Copy, Default)]
pub struct AppConfig {
    /// The age in hours that a release must have reached.
    pub min_age_hours: u32,
    /// Whether to refuse to run without a sandbox.
    pub sandbox_required: bool,
}

/// The age in hours that a release must have reached where no setting names one.
pub fn default_min_age_hours() -> (r: u32)
    ensures
        r == 48,
{
    48
}

/// Whether a sandbox is required where no setting says so.
pub fn default_true() -> (r: bool)
    ensures
        r,
{
    true
}

/// What one source of settings sets.
#[derive(Debug, Clone, Copy, Default)]
pub struct Settings {
    pub min_age_hours: Option<u32>,
    pub sandbox_required: Option<bool>,
}

/// What holds of a setting that the environment, the project and the user may
/// set: the environment goes before the project, and the project before the user.
pub open spec fn in_force<T>(env: Option<T>, project: Option<T>, user: Option<T>) -> Option<T> {
    if env is Some {
        env
    } else if project is Some {
        project
    } else {
        user
    }
}

/// What holds of a setting that the environment, the project and the user may set.
pub fn highest<T>(env: Option<T>, project: Option<T>, user: Option<T>) -> (r: Option<T>)
    ensures
        r == in_force(env, project, user),
{
    match env {
        Some(value) => Some(value),
        None => match project {
            Some(value) => Some(value),
            None => user,
        },
    }
}

impl AppConfig {
    /// The settings that were found, with the defaults for those that were not.
    pub fn from_settings(min_age_hours: Option<u32>, sandbox_required: Option<bool>) -> (r: AppConfig)
        ensures
            r.min_age_hours == match min_age_hours {
                Some(h) => h,
                None => 48,
            },
            r.sandbox_required == match sandbox_required {
                Some(b) => b,
                None => true,
            },
    {
        AppConfig {
            min_age_hours: match min_age_hours {
                Some(h) => h,
                None => default_min_age_hours(),
            },
            sandbox_required: match sandbox_required {
                Some(b) => b,
                None => default_true(),
            },
        }
    }

    /// The settings that the environment, the project and the user make together.
    pub fn from_layers(env: Settings, project: Settings, user: Settings) -> (r: AppConfig)
        ensures
            r.min_age_hours == match in_force(
                env.min_age_hours,
                project.min_age_hours,
                user.min_age_hours,
            ) {
                Some(h) => h,
                None => 48,
            },
            r.sandbox_required == match in_force(
                env.sandbox_required,
                project.sandbox_required,
                user.sandbox_required,
            ) {
                Some(b) => b,
                None => true,
            },
    {
        AppConfig::from_settings(
            highest(env.min_age_hours, project.min_age_hours, user.min_age_hours),
            highest(env.sandbox_required, project.sandbox_required, user.sandbox_required),
        )
    }
}

} // verus!
