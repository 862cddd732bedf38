//! The record of installed versions and the current default.
//!
//! The filesystem is the ground truth: a version directory, the executable
//! artifact inside it, and one pointer file whose whole content names the
//! default. This module holds that state as plain values with its invariant,
//! and every operation on it is a verified transition; the surrounding
//! tooling scans the disk into a `Registry`, applies an operation, and
//! mirrors the transition back onto the disk.

use vstd::prelude::*;
use vstd::string::StrSliceExecFns;
use vstd::string::StringExecFns;
use crate::error::Error;
use crate::text::str_eq;
use crate::text::str_views_contains;
use crate::text::trim_str;
use crate::text::trimmed;
use crate::version::sort_desc_strs;
use crate::version::sort_versions_desc;
use crate::version::str_views;

verus! {

/// The state the registry tracks.
pub struct Registry {
    /// Version names whose directory exists.
    dirs: Vec<String>,
    /// Version names whose directory holds the executable artifact; only
    /// these count as installed.
    bins: Vec<String>,
    /// Raw content of the pointer file; absent file, absent value.
    pointer: Option<String>,
}

/// The mathematical content of the registry.
pub ghost struct RegView {
    pub dirs: Seq<Seq<char>>,
    pub bins: Seq<Seq<char>>,
    pub pointer: Option<Seq<char>>,
}

impl View for Registry {
    type V = RegView;

    closed spec fn view(&self) -> RegView {
        RegView {
            dirs: str_views(self.dirs@),
            bins: str_views(self.bins@),
            pointer: match self.pointer {
                Some(p) => Some(p@),
                None => None,
            },
        }
    }
}

pub open spec fn no_dups(s: Seq<Seq<char>>) -> bool {
    forall|i: int, j: int| 0 <= i < j < s.len() ==> s[i] != s[j]
}

impl RegView {
    /// Well-formedness: names are listed once, and a version with a binary
    /// has a directory.
    pub open spec fn wf(self) -> bool {
        &&& no_dups(self.dirs)
        &&& no_dups(self.bins)
        &&& forall|i: int| 0 <= i < self.bins.len() ==> self.dirs.contains(#[trigger] self.bins[i])
    }
}

/// What the pointer file means.
pub ghost enum DefaultState {
    /// No file, or nothing but whitespace in it.
    Unset,
    /// The file names a version whose binary is gone.
    Dangling(Seq<char>),
    /// The file names an installed version.
    Active(Seq<char>),
}

/// Reads the pointer through the registry's invariant on it: a dangling
/// pointer is an error, never silently an unset one.
pub open spec fn default_state(r: RegView) -> DefaultState {
    match r.pointer {
        None => DefaultState::Unset,
        Some(content) => {
            let t = trimmed(content);
            if t.len() == 0 {
                DefaultState::Unset
            } else if r.bins.contains(t) {
                DefaultState::Active(t)
            } else {
                DefaultState::Dangling(t)
            }
        },
    }
}

/// The registry after a version directory is observed or created.
pub open spec fn with_dir(r: RegView, v: Seq<char>) -> RegView {
    RegView {
        dirs: if r.dirs.contains(v) {
            r.dirs
        } else {
            r.dirs.push(v)
        },
        bins: r.bins,
        pointer: r.pointer,
    }
}

/// The registry after a version's binary is observed or written: the
/// version has a directory and counts as installed.
pub open spec fn with_binary(r: RegView, v: Seq<char>) -> RegView {
    let r2 = with_dir(r, v);
    RegView {
        dirs: r2.dirs,
        bins: if r2.bins.contains(v) {
            r2.bins
        } else {
            r2.bins.push(v)
        },
        pointer: r2.pointer,
    }
}

/// A list of names with every occurrence of one name taken out.
pub open spec fn without_val(s: Seq<Seq<char>>, v: Seq<char>) -> Seq<Seq<char>>
    decreases s.len(),
{
    if s.len() == 0 {
        Seq::<Seq<char>>::empty()
    } else if s[0] == v {
        without_val(s.drop_first(), v)
    } else {
        seq![s[0]] + without_val(s.drop_first(), v)
    }
}

/// The registry after a version is removed: its directory and binary are
/// gone, and a pointer that named it as the default is cleared first.
pub open spec fn removed(r: RegView, v: Seq<char>) -> RegView {
    RegView {
        dirs: without_val(r.dirs, v),
        bins: without_val(r.bins, v),
        pointer: if default_state(r) == DefaultState::Active(v) {
            None
        } else {
            r.pointer
        },
    }
}

pub proof fn lemma_without_val_contains(s: Seq<Seq<char>>, v: Seq<char>, x: Seq<char>)
    ensures
        !without_val(s, v).contains(v),
        x != v ==> (without_val(s, v).contains(x) <==> s.contains(x)),
    decreases s.len(),
{
    if s.len() == 0 {
    } else {
        lemma_without_val_contains(s.drop_first(), v, x);
        let rest = without_val(s.drop_first(), v);
        if s[0] == v {
            if x != v {
                if s.contains(x) {
                    let i = choose|i: int| 0 <= i < s.len() && s[i] == x;
                    assert(s.drop_first()[i - 1] == x);
                    assert(s.drop_first().contains(x));
                }
                if s.drop_first().contains(x) {
                    let i = choose|i: int| 0 <= i < s.drop_first().len() && s.drop_first()[i] == x;
                    assert(s[i + 1] == x);
                }
            }
        } else {
            let w = seq![s[0]] + rest;
            assert(forall|i: int| 0 <= i < rest.len() ==> w[i + 1] == rest[i]);
            assert(w[0] == s[0]);
            if without_val(s, v).contains(v) {
                let i = choose|i: int| 0 <= i < w.len() && w[i] == v;
                assert(rest[i - 1] == v);
                assert(rest.contains(v));
            }
            if x != v {
                if s.contains(x) {
                    let i = choose|i: int| 0 <= i < s.len() && s[i] == x;
                    if i == 0 {
                        assert(w[0] == x);
                        assert(w.contains(x));
                    } else {
                        assert(s.drop_first()[i - 1] == x);
                        assert(s.drop_first().contains(x));
                        let k = choose|k: int| 0 <= k < rest.len() && rest[k] == x;
                        assert(w[k + 1] == x);
                        assert(w.contains(x));
                    }
                }
                if w.contains(x) {
                    let i = choose|i: int| 0 <= i < w.len() && w[i] == x;
                    if i == 0 {
                        assert(s[0] == x);
                        assert(s.contains(x));
                    } else {
                        assert(rest[i - 1] == x);
                        let k = choose|k: int| 0 <= k < s.drop_first().len() && s.drop_first()[k]
                            == x;
                        assert(s[k + 1] == x);
                        assert(s.contains(x));
                    }
                }
            }
        }
    }
}

pub proof fn lemma_without_val_no_dups(s: Seq<Seq<char>>, v: Seq<char>)
    requires
        no_dups(s),
    ensures
        no_dups(without_val(s, v)),
    decreases s.len(),
{
    if s.len() > 0 {
        let t = s.drop_first();
        assert(forall|i: int, j: int| 0 <= i < j < t.len() ==> t[i] != t[j]) by {
            assert(forall|i: int| 0 <= i < t.len() ==> t[i] == s[i + 1]);
        }
        lemma_without_val_no_dups(t, v);
        if s[0] != v {
            let rest = without_val(t, v);
            let w = seq![s[0]] + rest;
            assert(forall|i: int| 0 <= i < rest.len() ==> w[i + 1] == rest[i]);
            assert(w[0] == s[0]);
            assert forall|k: int| 0 <= k < rest.len() implies s[0] != rest[k] by {
                assert(rest.contains(rest[k]));
                lemma_without_val_contains(t, v, rest[k]);
                assert(t.contains(rest[k]));
                let m = choose|m: int| 0 <= m < t.len() && t[m] == rest[k];
                assert(s[m + 1] == t[m]);
            }
            assert forall|i: int, j: int| 0 <= i < j < w.len() implies w[i] != w[j] by {
                if i == 0 {
                    assert(w[j] == rest[j - 1]);
                } else {
                    assert(w[i] == rest[i - 1]);
                    assert(w[j] == rest[j - 1]);
                }
            }
        }
    }
}

/// Installing is not repeatable: when a version's directory is absent, the
/// pre-flight step accepts it, and once the directory and binary are in
/// place, the directory is on record — so the next pre-flight step on the
/// same version reports it as already installed.
pub proof fn lemma_reinstall_reports_installed(r: RegView, v: Seq<char>)
    requires
        !r.dirs.contains(v),
    ensures
        with_binary(with_dir(r, v), v).dirs.contains(v),
{
    lemma_contains_push(r.dirs, v, v);
}

/// Setting an installed version as the default makes it the default that
/// reading gives back, for version names that trimming leaves alone.
pub proof fn lemma_set_then_get_default(r: RegView, v: Seq<char>)
    requires
        r.bins.contains(v),
        trimmed(v) == v,
        v.len() > 0,
    ensures
        default_state(RegView { dirs: r.dirs, bins: r.bins, pointer: Some(v) })
            == DefaultState::Active(v),
{
}

/// Without a pointer there is no default.
pub proof fn lemma_get_default_unset(r: RegView)
    requires
        r.pointer is None,
    ensures
        default_state(r) == DefaultState::Unset,
{
}

/// A pointer naming a version whose binary is gone dangles; it is never
/// read as an absent default.
pub proof fn lemma_get_default_dangling(r: RegView, v: Seq<char>)
    requires
        r.pointer == Some(v),
        trimmed(v) == v,
        v.len() > 0,
        !r.bins.contains(v),
    ensures
        default_state(r) == DefaultState::Dangling(v),
{
}

/// Removing the current default succeeds and clears the pointer, so that
/// reading the default afterwards finds none set.
pub proof fn lemma_remove_clears_default(r: RegView, v: Seq<char>)
    requires
        r.wf(),
        default_state(r) == DefaultState::Active(v),
    ensures
        r.dirs.contains(v),
        default_state(removed(r, v)) == DefaultState::Unset,
{
    assert(r.bins.contains(v));
    let k = choose|k: int| 0 <= k < r.bins.len() && r.bins[k] == v;
    assert(r.dirs.contains(r.bins[k]));
}

/// A list member stays a member after another name is pushed.
pub proof fn lemma_contains_push(s: Seq<Seq<char>>, x: Seq<char>, v: Seq<char>)
    ensures
        s.push(v).contains(v),
        s.contains(x) ==> s.push(v).contains(x),
{
    assert(s.push(v)[s.len() as int] == v);
    if s.contains(x) {
        let i = choose|i: int| 0 <= i < s.len() && s[i] == x;
        assert(s.push(v)[i] == x);
    }
}

impl Registry {
    /// An empty registry: nothing scanned yet, no pointer.
    pub fn new() -> (r: Registry)
        ensures
            r@.dirs == Seq::<Seq<char>>::empty(),
            r@.bins == Seq::<Seq<char>>::empty(),
            r@.pointer is None,
            r@.wf(),
    {
        let r = Registry { dirs: Vec::new(), bins: Vec::new(), pointer: None };
        proof {
            assert(r@.dirs =~= Seq::<Seq<char>>::empty());
            assert(r@.bins =~= Seq::<Seq<char>>::empty());
        }
        r
    }

    /// Records a version directory seen on disk.
    pub fn record_dir(&mut self, name: &str)
        ensures
            final(self)@ == with_dir(old(self)@, name@),
            old(self)@.wf() ==> final(self)@.wf(),
    {
        let present = str_views_contains(&self.dirs, name);
        if !present {
            let ghost before = self@;
            self.dirs.push(name.to_owned());
            proof {
                assert(str_views(self.dirs@) =~= before.dirs.push(name@));
                if before.wf() {
                    assert(no_dups(before.dirs.push(name@))) by {
                        let p = before.dirs.push(name@);
                        assert forall|i: int, j: int| 0 <= i < j < p.len() implies p[i] != p[j] by {
                            if j == p.len() - 1 {
                                assert(p[i] == before.dirs[i]);
                                if p[i] == name@ {
                                    assert(before.dirs.contains(p[i]));
                                }
                            }
                        }
                    }
                    assert forall|i: int| 0 <= i < self@.bins.len() implies self@.dirs.contains(
                        #[trigger] self@.bins[i],
                    ) by {
                        lemma_contains_push(before.dirs, before.bins[i], name@);
                    }
                }
            }
        }
    }

    /// Records a version whose binary artifact is present: it has a
    /// directory and counts as installed.
    pub fn record_binary(&mut self, name: &str)
        ensures
            final(self)@ == with_binary(old(self)@, name@),
            old(self)@.wf() ==> final(self)@.wf(),
    {
        self.record_dir(name);
        let present = str_views_contains(&self.bins, name);
        if !present {
            let ghost before = self@;
            self.bins.push(name.to_owned());
            proof {
                assert(str_views(self.bins@) =~= before.bins.push(name@));
                if before.wf() {
                    assert(no_dups(before.bins.push(name@))) by {
                        let p = before.bins.push(name@);
                        assert forall|i: int, j: int| 0 <= i < j < p.len() implies p[i] != p[j] by {
                            if j == p.len() - 1 {
                                assert(p[i] == before.bins[i]);
                                if p[i] == name@ {
                                    assert(before.bins.contains(p[i]));
                                }
                            }
                        }
                    }
                    assert forall|i: int| 0 <= i < self@.bins.len() implies self@.dirs.contains(
                        #[trigger] self@.bins[i],
                    ) by {
                        let p = before.bins.push(name@);
                        if i < before.bins.len() {
                            assert(p[i] == before.bins[i]);
                        } else {
                            assert(p[i] == name@);
                            assert(before.dirs.contains(name@)) by {
                                if !old(self)@.dirs.contains(name@) {
                                    assert(before.dirs == old(self)@.dirs.push(name@));
                                    assert(before.dirs[old(self)@.dirs.len() as int] == name@);
                                }
                            }
                        }
                    }
                }
            }
        }
    }

    /// Records the pointer file's raw content, or its absence.
    pub fn set_pointer(&mut self, content: Option<String>)
        ensures
            final(self)@.dirs == old(self)@.dirs,
            final(self)@.bins == old(self)@.bins,
            final(self)@.pointer == match content {
                Some(c) => Some(c@),
                None => None::<Seq<char>>,
            },
            old(self)@.wf() ==> final(self)@.wf(),
    {
        self.pointer = content;
    }

    /// Whether the version's binary is present, which is what being
    /// installed means.
    pub fn is_installed(&self, version: &str) -> (r: bool)
        ensures
            r == self@.bins.contains(version@),
    {
        str_views_contains(&self.bins, version)
    }

    /// Whether the version's directory exists, binary or not.
    pub fn has_dir(&self, version: &str) -> (r: bool)
        ensures
            r == self@.dirs.contains(version@),
    {
        str_views_contains(&self.dirs, version)
    }

    /// The installed versions, newest first.
    pub fn list_installed(&self) -> (r: Vec<String>)
        ensures
            str_views(r@) == sort_desc_strs(self@.bins),
            crate::version::versions_newest_first(str_views(r@)),
    {
        proof {
            crate::version::lemma_sort_desc_strs_sorted(self@.bins);
        }
        let mut copy: Vec<String> = Vec::new();
        let mut i: usize = 0;
        proof {
            assert(str_views(copy@) =~= self@.bins.take(0));
        }
        while i < self.bins.len()
            invariant
                i <= self.bins@.len(),
                str_views(copy@) == self@.bins.take(i as int),
            decreases self.bins@.len() - i,
        {
            let ghost before = copy@;
            copy.push(self.bins[i].clone());
            proof {
                assert(str_views(copy@) =~= str_views(before).push(self.bins@[i as int]@));
                assert(self@.bins.take(i + 1) =~= self@.bins.take(i as int).push(
                    self@.bins[i as int],
                ));
            }
            i = i + 1;
        }
        proof {
            assert(self@.bins.take(i as int) =~= self@.bins);
        }
        sort_versions_desc(copy)
    }

    /// The pre-flight step of an install: fails if the version's directory
    /// already exists, and otherwise creates it. A directory left behind by
    /// a failed download counts as existing here.
    pub fn begin_install(&mut self, version: &str) -> (r: Result<(), Error>)
        ensures
            final(self)@ == with_dir(old(self)@, version@),
            old(self)@.wf() ==> final(self)@.wf(),
            old(self)@.dirs.contains(version@) ==> (r matches Err(
                Error::VersionAlreadyInstalled(s),
            ) && s@ == version@),
            !old(self)@.dirs.contains(version@) ==> r is Ok,
    {
        if self.has_dir(version) {
            return Err(Error::VersionAlreadyInstalled(version.to_owned()));
        }
        self.record_dir(version);
        Ok(())
    }

    /// The completion of an install: the binary artifact has been written,
    /// so the version now counts as installed.
    pub fn finish_install(&mut self, version: &str)
        ensures
            final(self)@ == with_binary(old(self)@, version@),
            old(self)@.wf() ==> final(self)@.wf(),
    {
        self.record_binary(version);
    }

    /// The current default. The pointer file's content is trimmed; an
    /// absent or blank pointer is no default, and a pointer naming a version
    /// without its binary is reported, never ignored.
    pub fn get_default(&self) -> (r: Result<String, Error>)
        ensures
            match default_state(self@) {
                DefaultState::Unset => r matches Err(Error::NoDefaultVersion),
                DefaultState::Dangling(t) => r matches Err(Error::VersionNotFound(s)) && s@ == t,
                DefaultState::Active(t) => r matches Ok(s) && s@ == t,
            },
    {
        match &self.pointer {
            None => Err(Error::NoDefaultVersion),
            Some(content) => {
                let t = trim_str(content.as_str());
                if t.as_str().unicode_len() == 0 {
                    return Err(Error::NoDefaultVersion);
                }
                if str_views_contains(&self.bins, t.as_str()) {
                    Ok(t)
                } else {
                    Err(Error::VersionNotFound(t))
                }
            },
        }
    }

    /// Makes an installed version the default; the pointer file's new
    /// content is exactly the version string.
    pub fn set_default(&mut self, version: &str) -> (r: Result<(), Error>)
        ensures
            old(self)@.bins.contains(version@) ==> {
                &&& final(self)@.dirs == old(self)@.dirs
                &&& final(self)@.bins == old(self)@.bins
                &&& final(self)@.pointer == Some(version@)
                &&& r is Ok
            },
            !old(self)@.bins.contains(version@) ==> final(self)@ == old(self)@ && (r matches Err(
                Error::VersionNotFound(s),
            ) && s@ == version@),
            old(self)@.wf() ==> final(self)@.wf(),
    {
        if !self.is_installed(version) {
            return Err(Error::VersionNotFound(version.to_owned()));
        }
        self.pointer = Some(version.to_owned());
        Ok(())
    }

    /// Removes a version: fails if its directory does not exist; clears the
    /// pointer first when the version is the current default; then the
    /// directory and everything in it are gone.
    pub fn remove(&mut self, version: &str) -> (r: Result<(), Error>)
        ensures
            old(self)@.dirs.contains(version@) ==> final(self)@ == removed(old(self)@, version@)
                && r is Ok,
            !old(self)@.dirs.contains(version@) ==> final(self)@ == old(self)@ && (r matches Err(
                Error::VersionNotFound(s),
            ) && s@ == version@),
            old(self)@.wf() ==> final(self)@.wf(),
    {
        let ghost before = self@;
        if !self.has_dir(version) {
            return Err(Error::VersionNotFound(version.to_owned()));
        }
        let clear = match self.get_default() {
            Ok(d) => str_eq(d.as_str(), version),
            Err(_) => false,
        };
        if clear {
            self.pointer = None;
        }
        let new_dirs = remove_name(&self.dirs, version);
        self.dirs = new_dirs;
        let new_bins = remove_name(&self.bins, version);
        self.bins = new_bins;
        proof {
            if before.wf() {
                lemma_without_val_no_dups(before.dirs, version@);
                lemma_without_val_no_dups(before.bins, version@);
                assert forall|i: int| 0 <= i < self@.bins.len() implies self@.dirs.contains(
                    #[trigger] self@.bins[i],
                ) by {
                    let x = self@.bins[i];
                    lemma_without_val_contains(before.bins, version@, x);
                    assert(self@.bins.contains(x));
                    assert(x != version@) by {
                        lemma_without_val_contains(before.bins, version@, version@);
                    }
                    assert(before.bins.contains(x));
                    let k = choose|k: int| 0 <= k < before.bins.len() && before.bins[k] == x;
                    assert(before.dirs.contains(before.bins[k]));
                    lemma_without_val_contains(before.dirs, version@, x);
                }
            }
        }
        Ok(())
    }
}

/// A copy of the list with every entry equal to the given name taken out.
fn remove_name(v: &Vec<String>, x: &str) -> (r: Vec<String>)
    ensures
        str_views(r@) == without_val(str_views(v@), x@),
{
    let ghost full = str_views(v@);
    let mut r: Vec<String> = Vec::new();
    let mut i: usize = 0;
    proof {
        assert(full.skip(0) =~= full);
        assert(str_views(r@) =~= Seq::<Seq<char>>::empty());
        assert(Seq::<Seq<char>>::empty() + without_val(full, x@) =~= without_val(full, x@));
    }
    while i < v.len()
        invariant
            i <= v@.len(),
            full == str_views(v@),
            without_val(full, x@) == str_views(r@) + without_val(full.skip(i as int), x@),
        decreases v@.len() - i,
    {
        let ghost rest = full.skip(i as int);
        proof {
            assert(rest[0] == v@[i as int]@);
            assert(rest.drop_first() =~= full.skip(i + 1));
        }
        if !str_eq(v[i].as_str(), x) {
            let ghost before = r@;
            r.push(v[i].clone());
            proof {
                assert(without_val(rest, x@) == seq![rest[0]] + without_val(
                    rest.drop_first(),
                    x@,
                ));
                assert(str_views(r@) =~= str_views(before).push(v@[i as int]@));
                assert(str_views(before).push(v@[i as int]@) + without_val(full.skip(i + 1), x@)
                    =~= str_views(before) + (seq![rest[0]] + without_val(full.skip(i + 1), x@)));
            }
        } else {
            proof {
                assert(without_val(rest, x@) == without_val(rest.drop_first(), x@));
            }
        }
        i = i + 1;
    }
    proof {
        assert(full.skip(i as int) =~= Seq::<Seq<char>>::empty());
        assert(str_views(r@) + Seq::<Seq<char>>::empty() =~= str_views(r@));
    }
    r
}

} // verus!
