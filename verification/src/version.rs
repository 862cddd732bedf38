//! Total order over dotted numeric version strings.
//!
//! A version string is split at `.`; each piece that reads as an unsigned
//! 64-bit decimal number (an optional leading `+`, then digits) contributes
//! one numeric component, and pieces that do not are dropped. Components are
//! compared left to right; on a common prefix the shorter component sequence
//! orders as lesser, so `"25.1"` sorts below `"25.1.0.0"`.

use vstd::prelude::*;
use vstd::string::StrSliceExecFns;
use core::cmp::Ordering;

verus! {

/// A decimal digit, stated over the character's scalar value.
pub open spec fn is_digit_char(c: char) -> bool {
    48 <= c as u32 <= 57
}

pub open spec fn digit_of(c: char) -> int {
    c as u32 - 48
}

pub open spec fn all_digits(s: Seq<char>) -> bool {
    forall|i: int| 0 <= i < s.len() ==> is_digit_char(#[trigger] s[i])
}

/// Value of a digit string read as a decimal number.
pub open spec fn dec_value(s: Seq<char>) -> int
    decreases s.len(),
{
    if s.len() == 0 {
        0
    } else {
        10 * dec_value(s.drop_last()) + digit_of(s.last())
    }
}

/// The digits of a decimal literal: everything after an optional leading `+`.
pub open spec fn digits_part(s: Seq<char>) -> Seq<char> {
    if s.len() > 0 && s[0] == '+' {
        s.drop_first()
    } else {
        s
    }
}

/// Whether a piece reads as an unsigned 64-bit decimal number: at least one
/// digit after the optional sign, nothing but digits, and a value in range.
pub open spec fn parses_as_u64(s: Seq<char>) -> bool {
    &&& digits_part(s).len() > 0
    &&& all_digits(digits_part(s))
    &&& dec_value(digits_part(s)) <= u64::MAX
}

pub open spec fn component_value(s: Seq<char>) -> int {
    dec_value(digits_part(s))
}

/// The pieces of a string split at every `.`, dots themselves excluded.
/// An empty string yields one empty piece, as splitting does.
pub open spec fn split_dots(s: Seq<char>) -> Seq<Seq<char>>
    decreases s.len(),
{
    if s.len() == 0 {
        seq![Seq::<char>::empty()]
    } else if s[0] == '.' {
        seq![Seq::<char>::empty()] + split_dots(s.drop_first())
    } else {
        let rest = split_dots(s.drop_first());
        seq![seq![s[0]] + rest[0]] + rest.drop_first()
    }
}

/// The numeric components among a list of pieces, in order.
pub open spec fn numeric_values(pieces: Seq<Seq<char>>) -> Seq<int>
    decreases pieces.len(),
{
    if pieces.len() == 0 {
        Seq::<int>::empty()
    } else if parses_as_u64(pieces[0]) {
        seq![component_value(pieces[0])] + numeric_values(pieces.drop_first())
    } else {
        numeric_values(pieces.drop_first())
    }
}

/// The numeric component sequence that ordering a version string goes by.
pub open spec fn version_key(s: Seq<char>) -> Seq<int> {
    numeric_values(split_dots(s))
}

/// Lexicographic order over component sequences; a strict prefix is lesser.
pub open spec fn key_cmp(a: Seq<int>, b: Seq<int>) -> Ordering
    decreases a.len() + b.len(),
{
    if a.len() == 0 && b.len() == 0 {
        Ordering::Equal
    } else if a.len() == 0 {
        Ordering::Less
    } else if b.len() == 0 {
        Ordering::Greater
    } else if a[0] < b[0] {
        Ordering::Less
    } else if a[0] > b[0] {
        Ordering::Greater
    } else {
        key_cmp(a.drop_first(), b.drop_first())
    }
}

/// The order of two version strings.
pub open spec fn version_cmp(a: Seq<char>, b: Seq<char>) -> Ordering {
    key_cmp(version_key(a), version_key(b))
}

pub proof fn lemma_split_dots_nonempty(s: Seq<char>)
    ensures
        split_dots(s).len() >= 1,
    decreases s.len(),
{
    if s.len() > 0 {
        lemma_split_dots_nonempty(s.drop_first());
    }
}

/// Splitting at the first dot: the piece before it, then the split of the rest.
pub proof fn lemma_split_dots_at_dot(s: Seq<char>, k: int)
    requires
        0 <= k < s.len(),
        s[k] == '.',
        forall|j: int| 0 <= j < k ==> s[j] != '.',
    ensures
        split_dots(s) =~= seq![s.take(k)] + split_dots(s.skip(k + 1)),
    decreases k,
{
    lemma_split_dots_nonempty(s.drop_first());
    if k == 0 {
        assert(s.take(0) =~= Seq::<char>::empty());
        assert(s.skip(1) =~= s.drop_first());
    } else {
        let t = s.drop_first();
        assert(t[k - 1] == '.');
        assert(forall|j: int| 0 <= j < k - 1 ==> t[j] != s[0] || true);
        assert(forall|j: int| 0 <= j < k - 1 ==> #[trigger] t[j] == s[j + 1]);
        lemma_split_dots_at_dot(t, k - 1);
        let rest = split_dots(t);
        assert(rest[0] == t.take(k - 1));
        assert(seq![s[0]] + t.take(k - 1) =~= s.take(k));
        assert(t.skip(k) =~= s.skip(k + 1));
        assert(rest.drop_first() =~= split_dots(t.skip(k)));
    }
}

/// A string without dots is a single piece.
pub proof fn lemma_split_dots_no_dot(s: Seq<char>)
    requires
        forall|j: int| 0 <= j < s.len() ==> s[j] != '.',
    ensures
        split_dots(s) =~= seq![s],
    decreases s.len(),
{
    if s.len() > 0 {
        assert(s[0] != '.');
        assert(forall|j: int| 0 <= j < s.drop_first().len() ==> #[trigger] s.drop_first()[j]
            != '.');
        lemma_split_dots_no_dot(s.drop_first());
        let rest = split_dots(s.drop_first());
        assert(rest =~= seq![s.drop_first()]);
        assert(seq![s[0]] + rest[0] =~= s);
        assert(rest.drop_first() =~= Seq::<Seq<char>>::empty());
        assert(split_dots(s) == seq![seq![s[0]] + rest[0]] + rest.drop_first());
        assert(seq![seq![s[0]] + rest[0]] + rest.drop_first() =~= seq![s]);
    } else {
        assert(Seq::<char>::empty() =~= s);
    }
}

pub proof fn lemma_dec_value_nonneg(s: Seq<char>)
    requires
        all_digits(s),
    ensures
        dec_value(s) >= 0,
    decreases s.len(),
{
    if s.len() > 0 {
        assert(all_digits(s.drop_last())) by {
            assert(forall|i: int| 0 <= i < s.len() - 1 ==> #[trigger] s.drop_last()[i] == s[i]);
        }
        lemma_dec_value_nonneg(s.drop_last());
    }
}

/// Reading more digits never lowers the value.
pub proof fn lemma_dec_value_prefix(s: Seq<char>, k: int)
    requires
        all_digits(s),
        0 <= k <= s.len(),
    ensures
        dec_value(s.take(k)) <= dec_value(s),
    decreases s.len() - k,
{
    if k < s.len() {
        lemma_dec_value_prefix(s, k + 1);
        let p = s.take(k + 1);
        assert(p.drop_last() =~= s.take(k));
        assert(all_digits(s.take(k))) by {
            assert(forall|i: int| 0 <= i < k ==> #[trigger] s.take(k)[i] == s[i]);
        }
        lemma_dec_value_nonneg(s.take(k));
        assert(dec_value(p) == 10 * dec_value(s.take(k)) + digit_of(p.last()));
        assert(is_digit_char(s[k]));
    } else {
        assert(s.take(k) =~= s);
    }
}

/// Parses the piece `s[from..to]` as an unsigned 64-bit decimal number,
/// exactly as the standard unsigned parse accepts it.
fn parse_component(s: &str, from: usize, to: usize) -> (r: Option<u64>)
    requires
        from <= to <= s@.len(),
    ensures
        ({
            let piece = s@.subrange(from as int, to as int);
            match r {
                Some(v) => parses_as_u64(piece) && v as int == component_value(piece),
                None => !parses_as_u64(piece),
            }
        }),
{
    let ghost piece = s@.subrange(from as int, to as int);
    let mut j = from;
    if j < to {
        let c0 = s.get_char(j);
        if c0 == '+' {
            j = j + 1;
        }
    }
    let ghost dstart = j as int;
    proof {
        assert(digits_part(piece) =~= s@.subrange(dstart, to as int));
    }
    if j == to {
        return None;
    }
    let mut val: u64 = 0;
    while j < to
        invariant
            0 <= dstart <= j <= to <= s@.len(),
            dstart < to as int,
            all_digits(s@.subrange(dstart, j as int)),
            val as int == dec_value(s@.subrange(dstart, j as int)),
            digits_part(piece) == s@.subrange(dstart, to as int),
            piece == s@.subrange(from as int, to as int),
        decreases to - j,
    {
        let ghost digits = s@.subrange(dstart, to as int);
        let ghost prefix = s@.subrange(dstart, j as int);
        let c = s.get_char(j);
        let d = c as u32;
        if d < 48 || d > 57 {
            proof {
                assert(0 <= j - dstart < digits.len());
                assert(digits[j - dstart] == s@[j as int]);
                assert(!is_digit_char(c));
                assert(!all_digits(digits)) by {
                    if all_digits(digits) {
                        assert(is_digit_char(digits[j - dstart]));
                    }
                }
            }
            return None;
        }
        let dv = (d - 48) as u64;
        proof {
            assert(prefix.push(c) =~= s@.subrange(dstart, j + 1));
            assert(prefix.push(c).drop_last() =~= prefix);
            assert(dec_value(prefix.push(c)) == 10 * (val as int) + dv);
        }
        if val > (u64::MAX - dv) / 10 {
            proof {
                let m = u64::MAX - dv;
                assert(10 * (val as int) + dv > u64::MAX) by {
                    assert(val as int >= m / 10 + 1);
                    assert(10 * (m / 10) + m % 10 == m);
                    assert(10 * (val as int) >= 10 * (m / 10) + 10) by (nonlinear_arith)
                        requires val as int >= m / 10 + 1;
                }
                if all_digits(digits) {
                    assert(digits.take(j + 1 - dstart) =~= prefix.push(c));
                    lemma_dec_value_prefix(digits, j + 1 - dstart);
                    assert(dec_value(digits) > u64::MAX);
                }
            }
            return None;
        }
        proof {
            let m = u64::MAX - dv;
            assert(10 * (val as int) + dv <= u64::MAX) by {
                assert(val as int <= m / 10);
                assert(10 * (m / 10) <= m) by (nonlinear_arith);
                assert(10 * (val as int) <= 10 * (m / 10)) by (nonlinear_arith)
                    requires val as int <= m / 10;
            }
            assert(all_digits(s@.subrange(dstart, j + 1))) by {
                assert(s@.subrange(dstart, j + 1) =~= prefix.push(c));
                assert(forall|i: int| 0 <= i < prefix.len() ==> #[trigger] prefix.push(c)[i] == prefix[i]);
                assert(prefix.push(c)[prefix.len() as int] == c);
            }
        }
        val = val * 10 + dv;
        j = j + 1;
    }
    proof {
        assert(s@.subrange(dstart, j as int) == digits_part(piece));
    }
    Some(val)
}

/// The numeric components of a version string, in order of appearance.
fn parse_components(s: &str) -> (r: Vec<u64>)
    ensures
        r@.map_values(|x: u64| x as int) == version_key(s@),
{
    let n = s.unicode_len();
    let mut r: Vec<u64> = Vec::new();
    let mut start: usize = 0;
    let mut i: usize = 0;
    proof {
        assert(s@.skip(0) =~= s@);
        assert(r@.map_values(|x: u64| x as int) =~= Seq::<int>::empty());
        assert(Seq::<int>::empty() + version_key(s@) =~= version_key(s@));
    }
    while i < n
        invariant
            start <= i <= n == s@.len(),
            forall|k: int| start <= k < i ==> s@[k] != '.',
            version_key(s@) == r@.map_values(|x: u64| x as int) + numeric_values(
                split_dots(s@.skip(start as int)),
            ),
        decreases n - i,
    {
        let c = s.get_char(i);
        if c == '.' {
            let ghost t = s@.skip(start as int);
            proof {
                assert(t[i - start] == '.');
                assert(forall|j: int| 0 <= j < i - start ==> #[trigger] t[j] != '.');
                lemma_split_dots_at_dot(t, i - start);
                assert(t.take(i - start) =~= s@.subrange(start as int, i as int));
                assert(t.skip(i - start + 1) =~= s@.skip(i + 1));
                lemma_split_dots_nonempty(s@.skip(i + 1));
                let pieces = seq![s@.subrange(start as int, i as int)] + split_dots(s@.skip(i + 1));
                assert(split_dots(t) =~= pieces);
                assert(pieces.len() > 0);
                assert(pieces[0] == s@.subrange(start as int, i as int));
                assert(pieces.drop_first() =~= split_dots(s@.skip(i + 1)));
            }
            let ghost piece = s@.subrange(start as int, i as int);
            let ghost pieces = seq![piece] + split_dots(s@.skip(i + 1));
            let ghost nvrest = numeric_values(split_dots(s@.skip(i + 1)));
            match parse_component(s, start, i) {
                Some(v) => {
                    let ghost old_r = r@;
                    r.push(v);
                    proof {
                        assert(numeric_values(pieces) == seq![v as int] + nvrest);
                        assert(r@.map_values(|x: u64| x as int) =~= old_r.map_values(
                            |x: u64| x as int,
                        ).push(v as int));
                        assert(old_r.map_values(|x: u64| x as int).push(v as int) + nvrest
                            =~= old_r.map_values(|x: u64| x as int) + (seq![v as int] + nvrest));
                    }
                },
                None => {
                    proof {
                        assert(numeric_values(pieces) == nvrest);
                    }
                },
            }
            start = i + 1;
        }
        i = i + 1;
    }
    let ghost t = s@.skip(start as int);
    proof {
        assert(forall|j: int| 0 <= j < t.len() ==> #[trigger] t[j] != '.');
        lemma_split_dots_no_dot(t);
        assert(t =~= s@.subrange(start as int, n as int));
        let pieces = seq![t];
        assert(pieces[0] == t);
        assert(pieces.drop_first() =~= Seq::<Seq<char>>::empty());
        assert(numeric_values(Seq::<Seq<char>>::empty()) =~= Seq::<int>::empty());
    }
    match parse_component(s, start, n) {
        Some(v) => {
            let ghost old_r = r@;
            r.push(v);
            proof {
                assert(r@.map_values(|x: u64| x as int) =~= old_r.map_values(
                    |x: u64| x as int,
                ).push(v as int));
                assert(old_r.map_values(|x: u64| x as int).push(v as int) =~= old_r.map_values(
                    |x: u64| x as int,
                ) + seq![v as int]);
            }
        },
        None => {
            proof {
                assert(r@.map_values(|x: u64| x as int) + Seq::<int>::empty() =~= r@.map_values(
                    |x: u64| x as int,
                ));
            }
        },
    }
    r
}

fn compare_keys(a: &Vec<u64>, b: &Vec<u64>) -> (r: Ordering)
    ensures
        r == key_cmp(a@.map_values(|x: u64| x as int), b@.map_values(|x: u64| x as int)),
{
    let ghost ka = a@.map_values(|x: u64| x as int);
    let ghost kb = b@.map_values(|x: u64| x as int);
    let alen = a.len();
    let blen = b.len();
    let mut i: usize = 0;
    proof {
        assert(ka.skip(0) =~= ka);
        assert(kb.skip(0) =~= kb);
    }
    while i < alen && i < blen
        invariant
            i <= alen == a@.len(),
            i <= blen == b@.len(),
            ka == a@.map_values(|x: u64| x as int),
            kb == b@.map_values(|x: u64| x as int),
            key_cmp(ka, kb) == key_cmp(ka.skip(i as int), kb.skip(i as int)),
        decreases alen - i,
    {
        let x = a[i];
        let y = b[i];
        proof {
            assert(ka.skip(i as int)[0] == x as int);
            assert(kb.skip(i as int)[0] == y as int);
        }
        if x < y {
            return Ordering::Less;
        }
        if x > y {
            return Ordering::Greater;
        }
        proof {
            assert(ka.skip(i as int).drop_first() =~= ka.skip(i + 1));
            assert(kb.skip(i as int).drop_first() =~= kb.skip(i + 1));
        }
        i = i + 1;
    }
    proof {
        if alen == blen {
            assert(ka.skip(i as int) =~= Seq::<int>::empty());
            assert(kb.skip(i as int) =~= Seq::<int>::empty());
        } else if alen < blen {
            assert(ka.skip(i as int) =~= Seq::<int>::empty());
            assert(kb.skip(i as int).len() > 0);
        } else {
            assert(kb.skip(i as int) =~= Seq::<int>::empty());
            assert(ka.skip(i as int).len() > 0);
        }
    }
    if alen == blen {
        Ordering::Equal
    } else if alen < blen {
        Ordering::Less
    } else {
        Ordering::Greater
    }
}

/// Compares two version strings in the order that sorting goes by: numeric
/// components left to right, a strict prefix ordering as lesser.
pub fn compare_versions(a: &str, b: &str) -> (r: Ordering)
    ensures
        r == version_cmp(a@, b@),
{
    let ca = parse_components(a);
    let cb = parse_components(b);
    compare_keys(&ca, &cb)
}

/// Whether version string `a` sorts strictly above `b`.
pub open spec fn version_gt(a: Seq<char>, b: Seq<char>) -> bool {
    version_cmp(a, b) == Ordering::Greater
}

/// The order is reflexive: every component sequence ranks equal to itself.
pub proof fn lemma_key_cmp_refl(a: Seq<int>)
    ensures
        key_cmp(a, a) == Ordering::Equal,
    decreases a.len(),
{
    if a.len() > 0 {
        lemma_key_cmp_refl(a.drop_first());
    }
}

/// The order is antisymmetric: swapping the sides swaps the answer.
pub proof fn lemma_key_cmp_flip(a: Seq<int>, b: Seq<int>)
    ensures
        (key_cmp(a, b) == Ordering::Less) <==> (key_cmp(b, a) == Ordering::Greater),
        (key_cmp(a, b) == Ordering::Equal) <==> (key_cmp(b, a) == Ordering::Equal),
    decreases a.len() + b.len(),
{
    if a.len() > 0 && b.len() > 0 {
        lemma_key_cmp_flip(a.drop_first(), b.drop_first());
    }
}

/// The order is transitive on not-below: a sequence ranking at least as
/// high as a second, which ranks at least as high as a third, ranks at
/// least as high as the third.
pub proof fn lemma_key_cmp_trans_ge(a: Seq<int>, b: Seq<int>, c: Seq<int>)
    requires
        key_cmp(a, b) != Ordering::Less,
        key_cmp(b, c) != Ordering::Less,
    ensures
        key_cmp(a, c) != Ordering::Less,
    decreases a.len() + b.len() + c.len(),
{
    if a.len() == 0 || b.len() == 0 || c.len() == 0 {
    } else {
        if a[0] == b[0] && b[0] == c[0] {
            lemma_key_cmp_trans_ge(a.drop_first(), b.drop_first(), c.drop_first());
        }
    }
}

/// A strict prefix of a component sequence ranks strictly below it: on the
/// common prefix the components agree, and the shorter side is lesser.
pub proof fn lemma_key_cmp_strict_prefix(a: Seq<int>, b: Seq<int>)
    requires
        b.len() < a.len(),
        b == a.take(b.len() as int),
    ensures
        key_cmp(a, b) == Ordering::Greater,
    decreases b.len(),
{
    if b.len() == 0 {
    } else {
        assert(b[0] == a[0]);
        assert(b.drop_first() =~= a.drop_first().take(b.len() - 1)) by {
            assert(forall|i: int| 0 <= i < b.len() - 1 ==> #[trigger] b.drop_first()[i] == b[i
                + 1]);
            assert(forall|i: int|
                0 <= i < b.len() - 1 ==> #[trigger] a.drop_first().take(b.len() - 1)[i] == a[i
                    + 1]);
            assert(forall|i: int| 0 <= i < b.len() ==> b[i] == #[trigger] a.take(
                b.len() as int,
            )[i]);
        }
        lemma_key_cmp_strict_prefix(a.drop_first(), b.drop_first());
    }
}

/// A version string whose component sequence strictly extends another's
/// sorts strictly above it.
pub proof fn lemma_version_cmp_strict_prefix(a: Seq<char>, b: Seq<char>)
    requires
        version_key(b).len() < version_key(a).len(),
        version_key(b) == version_key(a).take(version_key(b).len() as int),
    ensures
        version_cmp(a, b) == Ordering::Greater,
{
    lemma_key_cmp_strict_prefix(version_key(a), version_key(b));
}

/// Insertion into a descending list of version strings: the new string goes
/// behind every string that sorts strictly above it.
pub open spec fn insert_desc_str(x: Seq<char>, s: Seq<Seq<char>>) -> Seq<Seq<char>>
    decreases s.len(),
{
    if s.len() == 0 {
        seq![x]
    } else if version_gt(s[0], x) {
        seq![s[0]] + insert_desc_str(x, s.drop_first())
    } else {
        seq![x] + s
    }
}

/// Stable descending sort of version strings.
pub open spec fn sort_desc_strs(s: Seq<Seq<char>>) -> Seq<Seq<char>>
    decreases s.len(),
{
    if s.len() == 0 {
        Seq::<Seq<char>>::empty()
    } else {
        insert_desc_str(s[0], sort_desc_strs(s.drop_first()))
    }
}

/// The views of a list of strings.
pub open spec fn str_views(s: Seq<String>) -> Seq<Seq<char>> {
    s.map_values(|x: String| x@)
}

/// Whether version string `a` ranks at least as high as `b`.
pub open spec fn version_ge(a: Seq<char>, b: Seq<char>) -> bool {
    version_cmp(a, b) != Ordering::Less
}

/// Newest-first over version strings: every one ranks at least as high as
/// each one after it.
pub open spec fn versions_newest_first(s: Seq<Seq<char>>) -> bool {
    forall|i: int, j: int| 0 <= i < j < s.len() ==> version_ge(s[i], s[j])
}

proof fn lemma_insert_desc_str_members(x: Seq<char>, s: Seq<Seq<char>>, k: int)
    requires
        0 <= k < insert_desc_str(x, s).len(),
    ensures
        insert_desc_str(x, s)[k] == x || s.contains(insert_desc_str(x, s)[k]),
    decreases s.len(),
{
    if s.len() == 0 {
    } else if version_gt(s[0], x) {
        let w = insert_desc_str(x, s);
        assert(w[0] == s[0]);
        if k == 0 {
            assert(s.contains(s[0]));
        } else {
            assert(w[k] == insert_desc_str(x, s.drop_first())[k - 1]);
            lemma_insert_desc_str_members(x, s.drop_first(), k - 1);
            if s.drop_first().contains(w[k]) {
                let m = choose|m: int|
                    0 <= m < s.drop_first().len() && s.drop_first()[m] == w[k];
                assert(s[m + 1] == w[k]);
            }
        }
    } else {
        let w = seq![x] + s;
        if k > 0 {
            assert(w[k] == s[k - 1]);
            assert(s.contains(s[k - 1]));
        }
    }
}

proof fn lemma_insert_desc_str_sorted(x: Seq<char>, s: Seq<Seq<char>>)
    requires
        versions_newest_first(s),
    ensures
        versions_newest_first(insert_desc_str(x, s)),
    decreases s.len(),
{
    lemma_key_cmp_refl(version_key(x));
    if s.len() == 0 {
    } else if version_gt(s[0], x) {
        let t = s.drop_first();
        assert(forall|i: int, j: int|
            0 <= i < j < t.len() ==> version_ge(#[trigger] t[i], #[trigger] t[j])) by {
            assert(forall|i: int| 0 <= i < t.len() ==> t[i] == s[i + 1]);
        }
        lemma_insert_desc_str_sorted(x, t);
        let rest = insert_desc_str(x, t);
        let w = seq![s[0]] + rest;
        assert(insert_desc_str(x, s) == w);
        assert forall|i: int, j: int| 0 <= i < j < w.len() implies version_ge(
            #[trigger] w[i],
            #[trigger] w[j],
        ) by {
            if i == 0 {
                assert(w[j] == rest[j - 1]);
                lemma_insert_desc_str_members(x, t, j - 1);
                if rest[j - 1] == x {
                    assert(version_ge(s[0], x));
                } else {
                    let m = choose|m: int| 0 <= m < t.len() && t[m] == rest[j - 1];
                    assert(s[m + 1] == t[m]);
                    assert(version_ge(s[0], s[m + 1]));
                }
            } else {
                assert(w[i] == rest[i - 1]);
                assert(w[j] == rest[j - 1]);
            }
        }
    } else {
        let w = seq![x] + s;
        assert(version_ge(x, s[0])) by {
            lemma_key_cmp_flip(version_key(s[0]), version_key(x));
        }
        assert forall|i: int, j: int| 0 <= i < j < w.len() implies version_ge(
            #[trigger] w[i],
            #[trigger] w[j],
        ) by {
            if i == 0 {
                assert(w[j] == s[j - 1]);
                if j > 1 {
                    assert(version_ge(s[0], s[j - 1]));
                    lemma_key_cmp_trans_ge(version_key(x), version_key(s[0]), version_key(s[j - 1]));
                }
            } else {
                assert(w[i] == s[i - 1]);
                assert(w[j] == s[j - 1]);
            }
        }
    }
}

/// The installed-versions listing is ordered as stated: sorting version
/// strings leaves them newest-first.
pub proof fn lemma_sort_desc_strs_sorted(s: Seq<Seq<char>>)
    ensures
        versions_newest_first(sort_desc_strs(s)),
    decreases s.len(),
{
    if s.len() > 0 {
        lemma_sort_desc_strs_sorted(s.drop_first());
        lemma_insert_desc_str_sorted(s[0], sort_desc_strs(s.drop_first()));
    }
}

fn insert_version(x: String, v: Vec<String>) -> (r: Vec<String>)
    ensures
        str_views(r@) == insert_desc_str(x@, str_views(v@)),
    decreases v@.len(),
{
    if v.len() == 0 {
        let mut r = v;
        r.push(x);
        proof {
            assert(str_views(r@) =~= seq![x@]);
        }
        r
    } else {
        let c = compare_versions(v[0].as_str(), x.as_str());
        match c {
            Ordering::Greater => {
                let ghost v0 = v@;
                let mut v = v;
                let head = v.remove(0);
                proof {
                    assert(v@ =~= v0.drop_first());
                    assert(str_views(v0)[0] == head@);
                    assert(str_views(v0).drop_first() =~= str_views(v0.drop_first()));
                    assert(version_gt(str_views(v0)[0], x@));
                }
                let mut rest = insert_version(x, v);
                let ghost rest0 = rest@;
                rest.insert(0, head);
                proof {
                    assert(rest@ =~= seq![head] + rest0);
                    assert(str_views(seq![head] + rest0) =~= seq![head@] + str_views(rest0));
                }
                rest
            },
            _ => {
                let ghost v0 = v@;
                proof {
                    assert(str_views(v0)[0] == v0[0]@);
                    assert(!version_gt(str_views(v0)[0], x@));
                }
                let mut v = v;
                v.insert(0, x);
                proof {
                    assert(v@ =~= seq![x] + v0);
                    assert(str_views(seq![x] + v0) =~= seq![x@] + str_views(v0));
                }
                v
            },
        }
    }
}

/// Sorts version strings newest-first; equal strings keep their order.
pub fn sort_versions_desc(v: Vec<String>) -> (r: Vec<String>)
    ensures
        str_views(r@) == sort_desc_strs(str_views(v@)),
    decreases v@.len(),
{
    if v.len() == 0 {
        proof {
            assert(str_views(v@) =~= Seq::<Seq<char>>::empty());
        }
        v
    } else {
        let ghost v0 = v@;
        let mut v = v;
        let head = v.remove(0);
        proof {
            assert(v@ =~= v0.drop_first());
            assert(str_views(v0)[0] == head@);
            assert(str_views(v0).drop_first() =~= str_views(v0.drop_first()));
        }
        let sorted = sort_versions_desc(v);
        insert_version(head, sorted)
    }
}

} // verus!
