//! Platform directory resolution and path building.
//!
//! The platform-specific directories come from the `directories` crate and
//! depend on the machine's environment, so nothing is promised about their
//! values; joining path components onto them is verified exactly.

use vstd::prelude::*;

use crate::encode::push_char;

verus! {

#[verifier::external_type_specification]
#[verifier::external_body]
pub struct ExProjectDirs(directories::ProjectDirs);

/// Relies on `directories::ProjectDirs::from`: resolves the project's
/// platform directories from the application identifier, and returns `None`
/// only when the operating system offers no valid home directory. The result
/// depends on the environment, so nothing further is assumed about it.
pub assume_specification[ directories::ProjectDirs::from ](
    qualifier: &str,
    organization: &str,
    application: &str,
) -> Option<directories::ProjectDirs>;

/// Relies on `directories::ProjectDirs::data_dir`: the project's platform
/// data directory, read out of the resolved handle. The path is converted
/// to text lossily; its value depends on the environment.
#[verifier::external_body]
pub(crate) fn project_data_dir(dirs: &directories::ProjectDirs) -> (r: String) {
    dirs.data_dir().to_string_lossy().into_owned()
}

/// Relies on `directories::ProjectDirs::preference_dir`: the project's
/// platform preference directory, read out of the resolved handle. The path
/// is converted to text lossily; its value depends on the environment.
#[verifier::external_body]
pub(crate) fn project_preference_dir(dirs: &directories::ProjectDirs) -> (r: String) {
    dirs.preference_dir().to_string_lossy().into_owned()
}

/// Appends one component to a directory path: the directory, a separator,
/// the component.
pub fn join_path(dir: &str, name: &str) -> (r: String)
    ensures
        r@ == dir@ + seq!['/'] + name@,
{
    let mut out = dir.to_owned();
    push_char(&mut out, '/');
    out.append(name);
    proof {
        assert(out@ =~= dir@ + seq!['/'] + name@);
    }
    out
}

} // verus!
