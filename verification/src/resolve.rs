//! Resolution of a user-supplied version specifier against the release
//! catalog, detection of the host platform tokens, and construction of the
//! artifact's download location.

use vstd::prelude::*;
use vstd::string::StrSliceExecFns;
use vstd::string::StringExecFns;
use crate::catalog::Channel;
use crate::catalog::ReleaseEntry;
use crate::error::Error;
use crate::text::begins_with;
use crate::text::str_eq;
use crate::text::str_starts_with;
use crate::version::split_dots;

verus! {

/// The number of `.` characters in a string.
pub open spec fn count_dots(s: Seq<char>) -> int
    decreases s.len(),
{
    if s.len() == 0 {
        0
    } else {
        (if s[0] == '.' {
            1int
        } else {
            0int
        }) + count_dots(s.drop_first())
    }
}

/// A string has one more dot-separated piece than it has dots.
pub proof fn lemma_split_dots_count(s: Seq<char>)
    ensures
        split_dots(s).len() == count_dots(s) + 1,
    decreases s.len(),
{
    if s.len() > 0 {
        lemma_split_dots_count(s.drop_first());
    }
}

/// An exact version request: exactly four dot-separated pieces.
pub open spec fn is_exact_spec(s: Seq<char>) -> bool {
    split_dots(s).len() == 4
}

/// Whether a catalog version answers a partial specifier: it continues the
/// specifier past a dot, or equals it outright.
pub open spec fn prefix_matches(version: Seq<char>, sp: Seq<char>) -> bool {
    begins_with(version, sp + seq!['.']) || version == sp
}

fn count_dot_chars(s: &str) -> (r: usize)
    ensures
        r == count_dots(s@),
{
    let n = s.unicode_len();
    let mut c: usize = 0;
    let mut i: usize = 0;
    proof {
        assert(s@.skip(0) =~= s@);
    }
    while i < n
        invariant
            i <= n == s@.len(),
            c <= i,
            count_dots(s@) == c + count_dots(s@.skip(i as int)),
        decreases n - i,
    {
        let ghost rest = s@.skip(i as int);
        proof {
            assert(rest[0] == s@[i as int]);
            assert(rest.drop_first() =~= s@.skip(i + 1));
        }
        if s.get_char(i) == '.' {
            c = c + 1;
        }
        i = i + 1;
    }
    proof {
        assert(s@.skip(i as int) =~= Seq::<char>::empty());
    }
    c
}

/// Maps the host's operating-system and processor tokens to the pair used in
/// artifact names. Exactly the four combinations of a supported system and a
/// supported processor are accepted.
pub fn detect_platform(os: &str, arch: &str) -> (r: Result<(String, String), Error>)
    ensures
        match r {
            Ok(p) => (os@ == "macos"@ || os@ == "linux"@) && (arch@ == "x86_64"@ || arch@
                == "aarch64"@) && p.0@ == os@ && p.1@ == arch@,
            Err(e) => {
                &&& !((os@ == "macos"@ || os@ == "linux"@) && (arch@ == "x86_64"@ || arch@
                    == "aarch64"@))
                &&& e matches Error::UnsupportedPlatform { os: eo, arch: ea } && eo@ == os@ && ea@
                    == arch@
            },
        },
{
    let os_ok = str_eq(os, "macos") || str_eq(os, "linux");
    let arch_ok = str_eq(arch, "x86_64") || str_eq(arch, "aarch64");
    if os_ok && arch_ok {
        Ok((os.to_owned(), arch.to_owned()))
    } else {
        Err(Error::UnsupportedPlatform { os: os.to_owned(), arch: arch.to_owned() })
    }
}

/// Resolves a version specifier against the catalog, newest entries first.
///
/// A four-piece specifier is an exact request: the catalog supplies its
/// channel, and an exact version absent from the catalog is accepted with the
/// stable channel assumed. The words `stable` and `lts` pick the first entry
/// of that channel. Anything else is a prefix: the first entry whose version
/// continues it past a dot, or equals it, answers.
#[verifier::rlimit(60)]
pub fn resolve_version(version_spec: &str, catalog: &Vec<ReleaseEntry>) -> (r: Result<
    ReleaseEntry,
    Error,
>)
    ensures
        ({
            let c = crate::catalog::views_of(catalog@);
            let sp = version_spec@;
            if is_exact_spec(sp) {
                match r {
                    Ok(e) => {
                        &&& e@.version == sp
                        &&& if exists|i: int| 0 <= i < c.len() && c[i].version == sp {
                            exists|i: int|
                                {
                                    &&& 0 <= i < c.len()
                                    &&& c[i].version == sp
                                    &&& forall|j: int| 0 <= j < i ==> c[j].version != sp
                                    &&& e@.channel == c[i].channel
                                }
                        } else {
                            e@.channel == Channel::Stable
                        }
                    },
                    Err(_) => false,
                }
            } else if sp == "stable"@ || sp == "lts"@ {
                let ch = if sp == "stable"@ {
                    Channel::Stable
                } else {
                    Channel::Lts
                };
                match r {
                    Ok(e) => exists|i: int|
                        {
                            &&& 0 <= i < c.len()
                            &&& c[i].channel == ch
                            &&& forall|j: int| 0 <= j < i ==> c[j].channel != ch
                            &&& e@ == c[i]
                        },
                    Err(e) => {
                        &&& forall|i: int| 0 <= i < c.len() ==> c[i].channel != ch
                        &&& e matches Error::NoMatchingVersion(s) && s@ == sp
                    },
                }
            } else {
                match r {
                    Ok(e) => exists|i: int|
                        {
                            &&& 0 <= i < c.len()
                            &&& prefix_matches(c[i].version, sp)
                            &&& forall|j: int| 0 <= j < i ==> !prefix_matches(c[j].version, sp)
                            &&& e@ == c[i]
                        },
                    Err(e) => {
                        &&& forall|i: int| 0 <= i < c.len() ==> !prefix_matches(c[i].version, sp)
                        &&& e matches Error::NoMatchingVersion(s) && s@ == sp
                    },
                }
            }
        }),
{
    let ghost c = crate::catalog::views_of(catalog@);
    let ghost sp = version_spec@;
    let dots = count_dot_chars(version_spec);
    proof {
        lemma_split_dots_count(sp);
    }
    if dots == 3 {
        // An exact request: find its channel in the catalog, stable if absent.
        let mut i: usize = 0;
        while i < catalog.len()
            invariant
                i <= catalog@.len(),
                c == crate::catalog::views_of(catalog@),
                sp == version_spec@,
                is_exact_spec(sp),
                forall|j: int| 0 <= j < i ==> c[j].version != sp,
            decreases catalog@.len() - i,
        {
            proof {
                assert(c[i as int] == catalog@[i as int]@);
            }
            if str_eq(catalog[i].version.as_str(), version_spec) {
                return Ok(
                    ReleaseEntry {
                        version: version_spec.to_owned(),
                        channel: catalog[i].channel,
                    },
                );
            }
            i = i + 1;
        }
        return Ok(ReleaseEntry { version: version_spec.to_owned(), channel: Channel::Stable });
    }
    if str_eq(version_spec, "stable") || str_eq(version_spec, "lts") {
        let ch = if str_eq(version_spec, "stable") {
            Channel::Stable
        } else {
            Channel::Lts
        };
        let mut i: usize = 0;
        while i < catalog.len()
            invariant
                i <= catalog@.len(),
                c == crate::catalog::views_of(catalog@),
                sp == version_spec@,
                !is_exact_spec(sp),
                sp == "stable"@ || sp == "lts"@,
                sp == "stable"@ ==> ch == Channel::Stable,
                sp != "stable"@ ==> ch == Channel::Lts,
                forall|j: int| 0 <= j < i ==> c[j].channel != ch,
            decreases catalog@.len() - i,
        {
            proof {
                assert(c[i as int] == catalog@[i as int]@);
            }
            let same = match (catalog[i].channel, ch) {
                (Channel::Stable, Channel::Stable) => true,
                (Channel::Lts, Channel::Lts) => true,
                _ => false,
            };
            if same {
                return Ok(catalog[i].duplicate());
            }
            i = i + 1;
        }
        return Err(Error::NoMatchingVersion(version_spec.to_owned()));
    }
    // A partial specifier: the newest entry continuing it past a dot, or
    // equal to it.
    let mut prefix = version_spec.to_owned();
    prefix.append(".");
    proof {
        reveal_strlit(".");
        assert(prefix@ =~= sp + seq!['.']);
    }
    let mut i: usize = 0;
    while i < catalog.len()
        invariant
            i <= catalog@.len(),
            c == crate::catalog::views_of(catalog@),
            sp == version_spec@,
            !is_exact_spec(sp),
            sp != "stable"@,
            sp != "lts"@,
            prefix@ == sp + seq!['.'],
            forall|j: int| 0 <= j < i ==> !prefix_matches(c[j].version, sp),
        decreases catalog@.len() - i,
    {
        proof {
            assert(c[i as int] == catalog@[i as int]@);
        }
        if str_starts_with(catalog[i].version.as_str(), prefix.as_str()) || str_eq(
            catalog[i].version.as_str(),
            version_spec,
        ) {
            return Ok(catalog[i].duplicate());
        }
        i = i + 1;
    }
    Err(Error::NoMatchingVersion(version_spec.to_owned()))
}

/// The location of a release artifact: the release archive's download root,
/// then the tag, then the artifact named for the platform.
pub fn build_download_url(version: &str, channel: &str, os: &str, arch: &str) -> (r: Result<
    String,
    Error,
>)
    ensures
        match r {
            Ok(u) => {
                &&& (os@ == "macos"@ || os@ == "linux"@) && (arch@ == "x86_64"@ || arch@
                    == "aarch64"@)
                &&& u@ == "https://github.com/ClickHouse/ClickHouse/releases/download/v"@
                    + version@ + "-"@ + channel@ + "/clickhouse-"@ + os@ + "-"@ + arch@
            },
            Err(e) => {
                &&& !((os@ == "macos"@ || os@ == "linux"@) && (arch@ == "x86_64"@ || arch@
                    == "aarch64"@))
                &&& e matches Error::UnsupportedPlatform { os: eo, arch: ea } && eo@ == os@ && ea@
                    == arch@
            },
        },
{
    let platform = detect_platform(os, arch);
    match platform {
        Ok(p) => {
            let mut u = "https://github.com/ClickHouse/ClickHouse/releases/download/v".to_owned();
            u.append(version);
            u.append("-");
            u.append(channel);
            u.append("/clickhouse-");
            u.append(p.0.as_str());
            u.append("-");
            u.append(p.1.as_str());
            Ok(u)
        },
        Err(e) => Err(e),
    }
}

} // verus!
