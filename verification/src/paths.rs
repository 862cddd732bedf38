//! Locations inside the storage root that holds installed versions and the
//! default pointer. Every operation takes the storage root explicitly, so the
//! same code serves the real home-directory root and an isolated test root.

use vstd::prelude::*;
use vstd::string::StringExecFns;

verus! {

/// Directory under the storage root that holds one subdirectory per
/// installed version.
pub fn versions_dir(base: &str) -> (r: String)
    ensures
        r@ == base@ + "/versions"@,
{
    let mut s = base.to_owned();
    s.append("/versions");
    s
}

/// Directory of one installed version.
pub fn version_dir(base: &str, version: &str) -> (r: String)
    ensures
        r@ == base@ + "/versions/"@ + version@,
{
    let mut s = base.to_owned();
    s.append("/versions/");
    s.append(version);
    s
}

/// Location of the executable artifact of one installed version. The
/// artifact's presence is what makes the version count as installed.
pub fn binary_path(base: &str, version: &str) -> (r: String)
    ensures
        r@ == base@ + "/versions/"@ + version@ + "/clickhouse"@,
{
    let mut s = version_dir(base, version);
    s.append("/clickhouse");
    s
}

/// File under the storage root whose whole content is the version string of
/// the current default.
pub fn default_file(base: &str) -> (r: String)
    ensures
        r@ == base@ + "/default"@,
{
    let mut s = base.to_owned();
    s.append("/default");
    s
}

} // verus!
