//! The release catalog: parsing remote release tags into version/channel
//! entries and ordering them newest-first.
//!
//! A tag has the shape `v<version>-<channel>`; tags whose channel suffix is
//! not recognised are discarded. The parsed entries are sorted descending by
//! the version order, and entries with equal versions keep their fetched
//! order.

use vstd::prelude::*;
use vstd::string::StrSliceExecFns;
use vstd::string::StringExecFns;
use core::cmp::Ordering;
use crate::text::ends_with;
use crate::text::str_ends_with;
use crate::version::key_cmp;
use crate::version::version_key;
use crate::version::compare_versions;
use crate::version::lemma_key_cmp_refl;
use crate::version::lemma_key_cmp_flip;
use crate::version::lemma_key_cmp_trans_ge;

verus! {

/// Release track of a published build.
#[derive(PartialEq, Eq, Structural, Clone, Copy, Debug)]
pub enum Channel {
    Stable,
    Lts,
}

/// The token that names a channel inside a release tag.
pub open spec fn channel_text(c: Channel) -> Seq<char> {
    match c {
        Channel::Stable => "stable"@,
        Channel::Lts => "lts"@,
    }
}

impl Channel {
    /// The channel's name as it appears in tags and program output.
    pub fn as_str(&self) -> (r: &'static str)
        ensures
            r@ == channel_text(*self),
    {
        match self {
            Channel::Stable => "stable",
            Channel::Lts => "lts",
        }
    }
}

/// One release the remote index offers: an exact version and its channel.
pub struct ReleaseEntry {
    pub version: String,
    pub channel: Channel,
}

/// The mathematical content of a release entry.
pub ghost struct EntryView {
    pub version: Seq<char>,
    pub channel: Channel,
}

impl View for ReleaseEntry {
    type V = EntryView;

    open spec fn view(&self) -> EntryView {
        EntryView { version: self.version@, channel: self.channel }
    }
}

impl ReleaseEntry {
    /// A copy of the entry.
    pub fn duplicate(&self) -> (r: ReleaseEntry)
        ensures
            r@ == self@,
    {
        ReleaseEntry { version: self.version.clone(), channel: self.channel }
    }
}

/// Whether a tag is well-formed: a leading `v`, then a version, then a
/// recognised channel suffix.
pub open spec fn tag_parses(t: Seq<char>) -> bool {
    t.len() > 0 && t[0] == 'v' && (ends_with(t.drop_first(), "-stable"@) || ends_with(
        t.drop_first(),
        "-lts"@,
    ))
}

/// The entry a well-formed tag describes.
pub open spec fn tag_entry(t: Seq<char>) -> EntryView {
    let rem = t.drop_first();
    if ends_with(rem, "-stable"@) {
        EntryView {
            version: rem.take(rem.len() - "-stable"@.len()),
            channel: Channel::Stable,
        }
    } else {
        EntryView { version: rem.take(rem.len() - "-lts"@.len()), channel: Channel::Lts }
    }
}

/// Parses one release tag; tags without a recognised channel suffix or the
/// leading version marker yield nothing.
pub fn parse_tag(tag: &str) -> (r: Option<ReleaseEntry>)
    ensures
        match r {
            Some(e) => tag_parses(tag@) && e@ == tag_entry(tag@),
            None => !tag_parses(tag@),
        },
{
    let n = tag.unicode_len();
    if n == 0 {
        return None;
    }
    if tag.get_char(0) != 'v' {
        return None;
    }
    let rem = tag.substring_char(1, n);
    proof {
        assert(rem@ =~= tag@.drop_first());
    }
    if str_ends_with(rem, "-stable") {
        proof {
            reveal_strlit("-stable");
        }
        let m = rem.unicode_len();
        let v = rem.substring_char(0, m - 7);
        Some(ReleaseEntry { version: v.to_owned(), channel: Channel::Stable })
    } else if str_ends_with(rem, "-lts") {
        proof {
            reveal_strlit("-lts");
        }
        let m = rem.unicode_len();
        let v = rem.substring_char(0, m - 4);
        Some(ReleaseEntry { version: v.to_owned(), channel: Channel::Lts })
    } else {
        None
    }
}

/// Whether `a` sorts strictly above `b`, by the version order.
pub open spec fn entry_gt(a: EntryView, b: EntryView) -> bool {
    key_cmp(version_key(a.version), version_key(b.version)) == Ordering::Greater
}

/// Insertion into a descending list: the new entry goes behind every entry
/// that sorts strictly above it, and ahead of entries of equal rank.
pub open spec fn insert_desc(x: EntryView, s: Seq<EntryView>) -> Seq<EntryView>
    decreases s.len(),
{
    if s.len() == 0 {
        seq![x]
    } else if entry_gt(s[0], x) {
        seq![s[0]] + insert_desc(x, s.drop_first())
    } else {
        seq![x] + s
    }
}

/// Stable descending sort: each entry is inserted into the sorted rest, so
/// entries of equal rank keep their fetched order.
pub open spec fn sort_desc(s: Seq<EntryView>) -> Seq<EntryView>
    decreases s.len(),
{
    if s.len() == 0 {
        Seq::<EntryView>::empty()
    } else {
        insert_desc(s[0], sort_desc(s.drop_first()))
    }
}

/// The mathematical content of an entry list.
pub open spec fn views_of(s: Seq<ReleaseEntry>) -> Seq<EntryView> {
    s.map_values(|e: ReleaseEntry| e@)
}

fn insert_entry(x: ReleaseEntry, v: Vec<ReleaseEntry>) -> (r: Vec<ReleaseEntry>)
    ensures
        views_of(r@) == insert_desc(x@, views_of(v@)),
    decreases v@.len(),
{
    if v.len() == 0 {
        let mut r = v;
        r.push(x);
        proof {
            assert(views_of(r@) =~= seq![x@]);
        }
        r
    } else {
        let c = compare_versions(v[0].version.as_str(), x.version.as_str());
        match c {
            Ordering::Greater => {
                let ghost v0 = v@;
                let mut v = v;
                let head = v.remove(0);
                proof {
                    assert(v@ =~= v0.drop_first());
                    assert(views_of(v0)[0] == head@);
                    assert(views_of(v0).drop_first() =~= views_of(v0.drop_first()));
                    assert(entry_gt(views_of(v0)[0], x@));
                }
                let mut rest = insert_entry(x, v);
                let ghost rest0 = rest@;
                rest.insert(0, head);
                proof {
                    assert(rest@ =~= seq![head] + rest0);
                    assert(views_of(seq![head] + rest0) =~= seq![head@] + views_of(rest0));
                }
                rest
            },
            _ => {
                let ghost v0 = v@;
                proof {
                    assert(views_of(v0)[0] == v0[0]@);
                    assert(!entry_gt(views_of(v0)[0], x@));
                }
                let mut v = v;
                v.insert(0, x);
                proof {
                    assert(v@ =~= seq![x] + v0);
                    assert(views_of(seq![x] + v0) =~= seq![x@] + views_of(v0));
                }
                v
            },
        }
    }
}

/// Sorts release entries newest-first; entries with equal versions keep
/// their order.
pub fn sort_entries(v: Vec<ReleaseEntry>) -> (r: Vec<ReleaseEntry>)
    ensures
        views_of(r@) == sort_desc(views_of(v@)),
    decreases v@.len(),
{
    if v.len() == 0 {
        proof {
            assert(views_of(v@) =~= Seq::<EntryView>::empty());
        }
        v
    } else {
        let ghost v0 = v@;
        let mut v = v;
        let head = v.remove(0);
        proof {
            assert(v@ =~= v0.drop_first());
            assert(views_of(v0)[0] == head@);
            assert(views_of(v0).drop_first() =~= views_of(v0.drop_first()));
        }
        let sorted = sort_entries(v);
        insert_entry(head, sorted)
    }
}

/// Whether `a` ranks at least as high as `b` in the version order.
pub open spec fn entry_ge(a: EntryView, b: EntryView) -> bool {
    key_cmp(version_key(a.version), version_key(b.version)) != Ordering::Less
}

/// Newest-first: every entry ranks at least as high as each entry after it.
pub open spec fn sorted_newest_first(s: Seq<EntryView>) -> bool {
    forall|i: int, j: int| 0 <= i < j < s.len() ==> entry_ge(s[i], s[j])
}

proof fn lemma_insert_desc_members(x: EntryView, s: Seq<EntryView>, k: int)
    requires
        0 <= k < insert_desc(x, s).len(),
    ensures
        insert_desc(x, s)[k] == x || s.contains(insert_desc(x, s)[k]),
    decreases s.len(),
{
    if s.len() == 0 {
    } else if entry_gt(s[0], x) {
        let w = insert_desc(x, s);
        assert(w[0] == s[0]);
        if k == 0 {
            assert(s.contains(s[0]));
        } else {
            assert(w[k] == insert_desc(x, s.drop_first())[k - 1]);
            lemma_insert_desc_members(x, s.drop_first(), k - 1);
            if s.drop_first().contains(w[k]) {
                let m = choose|m: int|
                    0 <= m < s.drop_first().len() && s.drop_first()[m] == w[k];
                assert(s[m + 1] == w[k]);
            }
        }
    } else {
        let w = seq![x] + s;
        if k > 0 {
            assert(w[k] == s[k - 1]);
            assert(s.contains(s[k - 1]));
        }
    }
}

proof fn lemma_insert_desc_sorted(x: EntryView, s: Seq<EntryView>)
    requires
        sorted_newest_first(s),
    ensures
        sorted_newest_first(insert_desc(x, s)),
    decreases s.len(),
{
    lemma_key_cmp_refl(version_key(x.version));
    if s.len() == 0 {
    } else if entry_gt(s[0], x) {
        let t = s.drop_first();
        assert(forall|i: int, j: int| 0 <= i < j < t.len() ==> entry_ge(#[trigger] t[i], #[trigger] t[j]))
            by {
            assert(forall|i: int| 0 <= i < t.len() ==> t[i] == s[i + 1]);
        }
        lemma_insert_desc_sorted(x, t);
        let rest = insert_desc(x, t);
        let w = seq![s[0]] + rest;
        assert(insert_desc(x, s) == w);
        assert forall|i: int, j: int| 0 <= i < j < w.len() implies entry_ge(
            #[trigger] w[i],
            #[trigger] w[j],
        ) by {
            if i == 0 {
                assert(w[j] == rest[j - 1]);
                lemma_insert_desc_members(x, t, j - 1);
                if rest[j - 1] == x {
                    assert(entry_ge(s[0], x));
                } else {
                    let m = choose|m: int| 0 <= m < t.len() && t[m] == rest[j - 1];
                    assert(s[m + 1] == t[m]);
                    assert(entry_ge(s[0], s[m + 1]));
                }
            } else {
                assert(w[i] == rest[i - 1]);
                assert(w[j] == rest[j - 1]);
            }
        }
    } else {
        let w = seq![x] + s;
        assert(entry_ge(x, s[0])) by {
            lemma_key_cmp_flip(version_key(s[0].version), version_key(x.version));
        }
        assert forall|i: int, j: int| 0 <= i < j < w.len() implies entry_ge(
            #[trigger] w[i],
            #[trigger] w[j],
        ) by {
            if i == 0 {
                assert(w[j] == s[j - 1]);
                if j > 1 {
                    assert(entry_ge(s[0], s[j - 1]));
                    lemma_key_cmp_trans_ge(
                        version_key(x.version),
                        version_key(s[0].version),
                        version_key(s[j - 1].version),
                    );
                }
            } else {
                assert(w[i] == s[i - 1]);
                assert(w[j] == s[j - 1]);
            }
        }
    }
}

/// The catalog order is as stated: the sorted entry list is newest-first.
pub proof fn lemma_sort_desc_sorted(s: Seq<EntryView>)
    ensures
        sorted_newest_first(sort_desc(s)),
    decreases s.len(),
{
    if s.len() > 0 {
        lemma_sort_desc_sorted(s.drop_first());
        lemma_insert_desc_sorted(s[0], sort_desc(s.drop_first()));
    }
}

/// The entries that a list of tags yields, in fetch order.
pub open spec fn parsed_entries(tags: Seq<Seq<char>>) -> Seq<EntryView>
    decreases tags.len(),
{
    if tags.len() == 0 {
        Seq::<EntryView>::empty()
    } else if tag_parses(tags[0]) {
        seq![tag_entry(tags[0])] + parsed_entries(tags.drop_first())
    } else {
        parsed_entries(tags.drop_first())
    }
}

/// The views of a list of tag strings.
pub open spec fn tag_views(tags: Seq<String>) -> Seq<Seq<char>> {
    tags.map_values(|t: String| t@)
}

/// Builds the catalog from the fetched release tags: parses each tag,
/// discards unrecognised ones, and sorts the rest newest-first, keeping the
/// fetch order among equal versions.
pub fn catalog_from_tags(tags: &Vec<String>) -> (r: Vec<ReleaseEntry>)
    ensures
        views_of(r@) == sort_desc(parsed_entries(tag_views(tags@))),
        sorted_newest_first(views_of(r@)),
{
    proof {
        lemma_sort_desc_sorted(parsed_entries(tag_views(tags@)));
    }
    let ghost tv = tag_views(tags@);
    let mut entries: Vec<ReleaseEntry> = Vec::new();
    let mut i: usize = 0;
    proof {
        assert(tv.skip(0) =~= tv);
        assert(views_of(entries@) =~= Seq::<EntryView>::empty());
        assert(Seq::<EntryView>::empty() + parsed_entries(tv) =~= parsed_entries(tv));
    }
    while i < tags.len()
        invariant
            i <= tags@.len(),
            tv == tag_views(tags@),
            parsed_entries(tv) == views_of(entries@) + parsed_entries(tv.skip(i as int)),
        decreases tags@.len() - i,
    {
        let ghost rest = tv.skip(i as int);
        proof {
            assert(rest[0] == tags@[i as int]@);
            assert(rest.drop_first() =~= tv.skip(i + 1));
        }
        match parse_tag(tags[i].as_str()) {
            Some(e) => {
                let ghost es = entries@;
                entries.push(e);
                proof {
                    assert(parsed_entries(rest) == seq![tag_entry(rest[0])] + parsed_entries(
                        rest.drop_first(),
                    ));
                    assert(views_of(entries@) =~= views_of(es).push(e@));
                    assert(views_of(es).push(e@) + parsed_entries(tv.skip(i + 1))
                        =~= views_of(es) + (seq![e@] + parsed_entries(tv.skip(i + 1))));
                }
            },
            None => {
                proof {
                    assert(parsed_entries(rest) == parsed_entries(rest.drop_first()));
                }
            },
        }
        i = i + 1;
    }
    proof {
        assert(tv.skip(i as int) =~= Seq::<Seq<char>>::empty());
        assert(views_of(entries@) + parsed_entries(Seq::<Seq<char>>::empty()) =~= views_of(
            entries@,
        ));
    }
    sort_entries(entries)
}

} // verus!
