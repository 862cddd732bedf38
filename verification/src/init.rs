//! Locations and launch arguments of a project-local workspace: the
//! directory that keeps a version's server data, and the flags that point
//! the server's storage into it.

use vstd::prelude::*;
use vstd::string::StringExecFns;
use crate::text::begins_with;
use crate::text::str_starts_with;

verus! {

/// Whether the launch arguments already choose a server configuration.
pub open spec fn names_config(args: Seq<String>) -> bool {
    exists|i: int|
        0 <= i < args.len() && (begins_with(#[trigger] args[i]@, "--config-file"@) || begins_with(
            args[i]@,
            "-C"@,
        ))
}

/// Whether one of the launch arguments names a server configuration, in
/// which case the local workspace is not imposed.
pub fn has_config_flag(args: &Vec<String>) -> (r: bool)
    ensures
        r == names_config(args@),
{
    let mut i: usize = 0;
    while i < args.len()
        invariant
            i <= args@.len(),
            forall|k: int|
                0 <= k < i ==> !(begins_with(#[trigger] args@[k]@, "--config-file"@)
                    || begins_with(args@[k]@, "-C"@)),
        decreases args@.len() - i,
    {
        if str_starts_with(args[i].as_str(), "--config-file") || str_starts_with(
            args[i].as_str(),
            "-C",
        ) {
            return true;
        }
        i = i + 1;
    }
    false
}

/// The directory holding one version's server data inside the project-local
/// directory.
pub fn version_data_dir(local_dir: &str, version: &str) -> (r: String)
    ensures
        r@ == local_dir@ + "/"@ + version@,
{
    let mut s = local_dir.to_owned();
    s.append("/");
    s.append(version);
    s
}

/// The trailing arguments that point the server's storage at the working
/// directory it is launched from.
pub fn server_flags() -> (r: Vec<String>)
    ensures
        r@.len() == 2,
        r@[0]@ == "--"@,
        r@[1]@ == "--path=./"@,
{
    let mut v: Vec<String> = Vec::new();
    v.push("--".to_owned());
    v.push("--path=./".to_owned());
    v
}

} // verus!
