//! The version lister: a read-only scan over a detail page that yields one
//! entry per version-marker line, in document order, each paired with the
//! nearest following release date.
//!
//! The pairing is positional, tied to the page markup: a date is the first
//! one found in a bounded window of lines after its version, never from
//! past the next version marker, and a version without a date in its
//! window keeps an unknown date rather than failing.

use vstd::prelude::*;
use crate::scan::{matches_at, is_quote_end, lemma_quote_end_unique, find_from, find_byte, quote_end, copy_range};
use crate::extract::{NL, CR, is_line, line_text};

verus! {

/// One listed version: its name and, where one was found nearby, its
/// release date.
#[derive(Clone, PartialEq, Eq, Debug)]
pub struct VersionEntry {
    /// the version string as the page shows it
    pub version: Vec<u8>,
    /// the release date beside it, or `None` for unknown
    pub release_date: Option<Vec<u8>>,
}

/// `v` is the quoted value that follows the first occurrence of `marker`
/// in `s`, and that value is nonempty.
pub open spec fn marker_value_is(s: Seq<u8>, marker: Seq<u8>, v: Seq<u8>) -> bool {
    exists|p: int| {
        &&& #[trigger] matches_at(s, p, marker)
        &&& forall|p2: int| 0 <= p2 < p ==> !matches_at(s, p2, marker)
        &&& exists|e: int| #[trigger] is_quote_end(s, p + marker.len(), e)
            && e > p + marker.len()
            && v == s.subrange(p + marker.len(), e)
    }
}

/// The first occurrence of `marker` in `s` is followed by a nonempty
/// quoted value.
pub open spec fn marker_has_value(s: Seq<u8>, marker: Seq<u8>) -> bool {
    exists|v: Seq<u8>| marker_value_is(s, marker, v)
}

/// The quoted value after the first occurrence of `marker`, or `None`
/// when the marker is absent or its value is empty.
pub fn extract_marked_value(line: &[u8], marker: &[u8]) -> (r: Option<Vec<u8>>)
    requires
        marker@.len() > 0,
    ensures
        match r {
            Some(v) => marker_value_is(line@, marker@, v@) && marker_has_value(line@, marker@),
            None => !marker_has_value(line@, marker@),
        },
{
    let ghost s = line@;
    let p = match find_from(line, marker, 0) {
        Some(p) => p,
        None => {
            proof {
                assert forall|v: Seq<u8>| !marker_value_is(s, marker@, v) by {
                    if marker_value_is(s, marker@, v) {
                        let p2 = choose|p2: int| #[trigger] matches_at(s, p2, marker@)
                            && (forall|p3: int| 0 <= p3 < p2 ==> !matches_at(s, p3, marker@))
                            && (exists|e: int| #[trigger] is_quote_end(s, p2 + marker@.len(), e)
                                && e > p2 + marker@.len()
                                && v == s.subrange(p2 + marker@.len(), e));
                        assert(!matches_at(s, p2, marker@));
                    }
                }
            }
            return None;
        },
    };
    let n = line.len();
    proof {
        assert(p + marker@.len() <= n);
    }
    let q = p + marker.len();
    let e = quote_end(line, q);
    proof {
        // the first occurrence is the found one, and its quoted value ends
        // where the scan says
        assert forall|p2: int|
            (#[trigger] matches_at(s, p2, marker@)
                && (forall|p3: int| 0 <= p3 < p2 ==> !matches_at(s, p3, marker@)))
                implies p2 == p as int by {
            if p2 < p {
                assert(!matches_at(s, p2, marker@));
            }
            if p2 > p {
                assert(!matches_at(s, p as int, marker@));
            }
        }
        assert forall|e2: int| is_quote_end(s, q as int, e2) implies e2 == e as int by {
            lemma_quote_end_unique(s, q as int, e2, e as int);
        }
    }
    if e > q {
        let v = copy_range(line, q, e);
        proof {
            assert(marker_value_is(s, marker@, v@));
        }
        Some(v)
    } else {
        proof {
            assert forall|v: Seq<u8>| !marker_value_is(s, marker@, v) by {
                if marker_value_is(s, marker@, v) {
                    let p2 = choose|p2: int| #[trigger] matches_at(s, p2, marker@)
                        && (forall|p3: int| 0 <= p3 < p2 ==> !matches_at(s, p3, marker@))
                        && (exists|e2: int| #[trigger] is_quote_end(s, p2 + marker@.len(), e2)
                            && e2 > p2 + marker@.len()
                            && v == s.subrange(p2 + marker@.len(), e2));
                    assert(p2 == p as int);
                }
            }
        }
        None
    }
}

/// `l` is the text of some line of the page `s`.
pub open spec fn line_of_page(s: Seq<u8>, l: Seq<u8>) -> bool {
    exists|a: int, b: int| #[trigger] is_line(s, a, b) && l == line_text(s, a, b)
}

/// Index of the first occurrence of `b` in `s`, or `None`.
pub open spec fn first_byte_idx(s: Seq<u8>, b: u8) -> Option<int>
    decreases s.len(),
{
    if s.len() == 0 {
        None
    } else if s[0] == b {
        Some(0)
    } else {
        match first_byte_idx(s.subrange(1, s.len() as int), b) {
            Some(i) => Some(i + 1),
            None => None,
        }
    }
}

/// `first_byte_idx` names the first occurrence: the byte stands there and
/// nowhere earlier, or nowhere at all.
pub proof fn lemma_first_byte_idx(s: Seq<u8>, b: u8)
    ensures
        match first_byte_idx(s, b) {
            Some(i) => 0 <= i < s.len() && s[i] == b
                && forall|k: int| 0 <= k < i ==> s[k] != b,
            None => forall|k: int| 0 <= k < s.len() ==> s[k] != b,
        },
    decreases s.len(),
{
    if s.len() > 0 && s[0] != b {
        let tail = s.subrange(1, s.len() as int);
        lemma_first_byte_idx(tail, b);
        assert(forall|k: int| 0 <= k < tail.len() ==> #[trigger] tail[k] == s[k + 1]);
        match first_byte_idx(tail, b) {
            Some(i) => {
                assert(tail[i] == b);
                assert(first_byte_idx(s, b) == Some(i + 1));
                assert forall|k: int| 0 <= k < i + 1 implies s[k] != b by {
                    if k > 0 {
                        assert(tail[k - 1] != b);
                        assert(tail[k - 1] == s[k]);
                    }
                }
            },
            None => {
                assert forall|k: int| 0 <= k < s.len() implies s[k] != b by {
                    if k > 0 {
                        assert(tail[k - 1] != b);
                        assert(tail[k - 1] == s[k]);
                    }
                }
            },
        }
    }
}

/// A line with its trailing carriage return stripped.
pub open spec fn strip_cr(l: Seq<u8>) -> Seq<u8> {
    if l.len() > 0 && l[l.len() - 1] == CR {
        l.subrange(0, l.len() - 1)
    } else {
        l
    }
}

/// The lines of a page: split at each newline, each with a trailing
/// carriage return stripped; a final newline opens no further line.
pub open spec fn lines_of(s: Seq<u8>) -> Seq<Seq<u8>>
    decreases s.len(),
    via lines_of_decreases
{
    if s.len() == 0 {
        Seq::<Seq<u8>>::empty()
    } else {
        match first_byte_idx(s, NL) {
            Some(i) => seq![strip_cr(s.subrange(0, i))]
                + lines_of(s.subrange(i + 1, s.len() as int)),
            None => seq![strip_cr(s)],
        }
    }
}

#[via_fn]
proof fn lines_of_decreases(s: Seq<u8>) {
    lemma_first_byte_idx(s, NL);
}

/// Splits a page into its lines, exactly as `lines_of` names them; every
/// element is also the text of a line of the page.
pub fn split_lines(html: &[u8]) -> (r: Vec<Vec<u8>>)
    ensures
        r@.map_values(|l: Vec<u8>| l@) == lines_of(html@),
        forall|k: int| 0 <= k < r@.len() ==> #[trigger] line_of_page(html@, r@[k]@),
{
    let ghost s = html@;
    let n = html.len();
    let mut out: Vec<Vec<u8>> = Vec::new();
    let mut a: usize = 0;
    proof {
        assert(s.subrange(0, n as int) =~= s);
    }
    while a < n
        invariant
            s == html@,
            a <= n,
            n == s.len(),
            n <= usize::MAX,
            a == 0 || s[a - 1] == NL,
            lines_of(s) == out@.map_values(|l: Vec<u8>| l@)
                + lines_of(s.subrange(a as int, n as int)),
            forall|k: int| 0 <= k < out@.len() ==> #[trigger] line_of_page(s, out@[k]@),
        decreases n - a,
    {
        let b = match find_byte(html, NL, a) {
            Some(i) => i,
            None => n,
        };
        let bb = if b > a && html[b - 1] == CR { b - 1 } else { b };
        let line = copy_range(html, a, bb);
        let ghost pre = out@.map_values(|l: Vec<u8>| l@);
        proof {
            let aa = a as int;
            let nn = n as int;
            let suffix = s.subrange(aa, nn);
            lemma_first_byte_idx(suffix, NL);
            assert(forall|k: int| 0 <= k < suffix.len() ==> #[trigger] suffix[k] == s[aa + k]);
            if b < n {
                // the suffix's first newline stands at b - a
                match first_byte_idx(suffix, NL) {
                    Some(i) => {
                        if i < b - aa {
                            assert(suffix[i] == NL);
                            assert(s[aa + i] != NL);
                        }
                        if i > b - aa {
                            assert(suffix[b - aa] != NL);
                        }
                        assert(i == b - aa);
                    },
                    None => {
                        assert(suffix[b - aa] != NL);
                        assert(false);
                    },
                }
                assert(suffix.subrange(0, b - aa) =~= s.subrange(aa, b as int));
                assert(suffix.subrange(b - aa + 1, suffix.len() as int)
                    =~= s.subrange(b + 1, nn));
                assert(lines_of(suffix) == seq![strip_cr(s.subrange(aa, b as int))]
                    + lines_of(s.subrange(b + 1, nn)));
            } else {
                // no newline in the suffix: it is the last line
                match first_byte_idx(suffix, NL) {
                    Some(i) => {
                        assert(suffix[i] == NL);
                        assert(s[aa + i] != NL);
                        assert(false);
                    },
                    None => {},
                }
                assert(lines_of(suffix) == seq![strip_cr(suffix)]);
                assert(suffix =~= s.subrange(aa, b as int));
            }
            // the stripped line is what was copied
            if b > a && s[b - 1] == CR {
                assert(s.subrange(aa, b as int).len() == b - aa);
                assert(s.subrange(aa, b as int)[b - aa - 1] == s[b - 1]);
                assert(strip_cr(s.subrange(aa, b as int))
                    =~= s.subrange(aa, bb as int));
            } else {
                assert(strip_cr(s.subrange(aa, b as int)) == s.subrange(aa, bb as int));
            }
            assert(line@ == strip_cr(s.subrange(aa, b as int)));
            assert(is_line(s, aa, b as int));
            assert(line@ == line_text(s, aa, b as int));
            assert(line_of_page(s, line@));
        }
        out.push(line);
        proof {
            let aa = a as int;
            let nn = n as int;
            assert(out@.map_values(|l: Vec<u8>| l@) =~= pre.push(line@));
            assert(pre.push(line@) =~= pre + seq![line@]);
            if b < n {
                assert(pre + (seq![line@] + lines_of(s.subrange(b + 1, nn)))
                    =~= (pre + seq![line@]) + lines_of(s.subrange(b + 1, nn)));
            } else {
                assert(pre + seq![line@]
                    =~= pre + (seq![line@] + Seq::<Seq<u8>>::empty()));
                assert(s.subrange(nn, nn).len() == 0);
            }
        }
        if b == n {
            proof {
                assert(lines_of(s) =~= out@.map_values(|l: Vec<u8>| l@));
            }
            return out;
        }
        a = b + 1;
    }
    proof {
        assert(s.subrange(n as int, n as int).len() == 0);
        assert(lines_of(s) =~= out@.map_values(|l: Vec<u8>| l@));
    }
    out
}

/// How many of the first `upto` lines carry a version marker with a value.
pub open spec fn count_version_hits(lines: Seq<Vec<u8>>, vm: Seq<u8>, upto: int) -> int
    decreases upto,
{
    if upto <= 0 {
        0
    } else {
        count_version_hits(lines, vm, upto - 1)
            + if marker_has_value(lines[upto - 1]@, vm) {
                1int
            } else {
                0int
            }
    }
}

/// Line `j` may date the version at line `i`: it lies in the window after
/// `i`, carries a date value, and no version marker stands on it or in
/// between.
pub open spec fn eligible_date_line(
    lines: Seq<Vec<u8>>,
    vm: Seq<u8>,
    dm: Seq<u8>,
    window: int,
    i: int,
    j: int,
) -> bool {
    &&& i < j <= i + window
    &&& 0 <= j < lines.len()
    &&& marker_has_value(lines[j]@, dm)
    &&& forall|t: int| i < t <= j ==> !marker_has_value(lines[t]@, vm)
}

/// The date of the version at line `i` is pinned: the value of the first
/// eligible date line, or `None` exactly when no line is eligible.
pub open spec fn entry_date_is(
    lines: Seq<Vec<u8>>,
    vm: Seq<u8>,
    dm: Seq<u8>,
    window: int,
    i: int,
    date: Option<Vec<u8>>,
) -> bool {
    match date {
        Some(d) => exists|j: int| {
            &&& #[trigger] eligible_date_line(lines, vm, dm, window, i, j)
            &&& marker_value_is(lines[j]@, dm, d@)
            &&& forall|t: int| i < t < j ==> !marker_has_value(lines[t]@, dm)
        },
        None => forall|j: int| !eligible_date_line(lines, vm, dm, window, i, j),
    }
}

/// `entry` is the `k`-th listed version: its version is the marked value
/// of the `k`-th version-marker line in document order (the line with
/// exactly `k` marker lines before it), and its date is that line's
/// pinned date.
pub open spec fn entry_at_is(
    lines: Seq<Vec<u8>>,
    vm: Seq<u8>,
    dm: Seq<u8>,
    window: int,
    k: int,
    entry: VersionEntry,
) -> bool {
    exists|i: int| {
        &&& 0 <= i < lines.len()
        &&& #[trigger] marker_value_is(lines[i]@, vm, entry.version@)
        &&& marker_has_value(lines[i]@, vm)
        &&& count_version_hits(lines, vm, i) == k
        &&& entry_date_is(lines, vm, dm, window, i, entry.release_date)
    }
}

/// Scans the lines of a detail page for version markers, one entry per
/// marker line in document order, each paired with the first eligible
/// release date inside the window (or an unknown date when there is
/// none).  An empty result means no versions were found, which is an
/// answer, not an error.
pub fn scan_version_lines(
    lines: &Vec<Vec<u8>>,
    version_marker: &[u8],
    date_marker: &[u8],
    window: usize,
) -> (r: Vec<VersionEntry>)
    requires
        version_marker@.len() > 0,
        date_marker@.len() > 0,
    ensures
        r@.len() == count_version_hits(lines@, version_marker@, lines@.len() as int),
        forall|k: int| 0 <= k < r@.len()
            ==> #[trigger] entry_at_is(lines@, version_marker@, date_marker@, window as int, k,
                r@[k]),
{
    let n = lines.len();
    let mut out: Vec<VersionEntry> = Vec::new();
    let mut i: usize = 0;
    while i < n
        invariant
            i <= n,
            n == lines@.len(),
            version_marker@.len() > 0,
            date_marker@.len() > 0,
            out@.len() == count_version_hits(lines@, version_marker@, i as int),
            forall|k: int| 0 <= k < out@.len()
                ==> #[trigger] entry_at_is(lines@, version_marker@, date_marker@, window as int,
                    k, out@[k]),
        decreases n - i,
    {
        let line = &lines[i];
        match extract_marked_value(line.as_slice(), version_marker) {
            Some(version) => {
                // look for a date on the following lines, stopping at the
                // window's edge or at the next version marker
                let mut date: Option<Vec<u8>> = None;
                let mut j: usize = i + 1;
                let ghost ii = i as int;
                loop
                    invariant_except_break
                        date is None,
                    invariant
                        ii == i as int,
                        i < j,
                        n == lines@.len(),
                        version_marker@.len() > 0,
                        date_marker@.len() > 0,
                        j <= n + 1,
                        forall|t: int| ii < t < j && t < n
                            ==> !marker_has_value(lines@[t]@, version_marker@)
                                && !marker_has_value(lines@[t]@, date_marker@),
                    ensures
                        entry_date_is(lines@, version_marker@, date_marker@, window as int, ii,
                            date),
                    decreases n + 1 - j,
                {
                    if j >= n || j - i > window {
                        proof {
                            // every candidate inside the window was passed
                            // without a date value
                            assert forall|j2: int| !eligible_date_line(lines@, version_marker@,
                                date_marker@, window as int, ii, j2) by {
                                if eligible_date_line(lines@, version_marker@, date_marker@,
                                    window as int, ii, j2) {
                                    assert(ii < j2 < j && j2 < n);
                                    assert(!marker_has_value(lines@[j2]@, date_marker@));
                                }
                            }
                        }
                        break;
                    }
                    let cand = &lines[j];
                    match extract_marked_value(cand.as_slice(), version_marker) {
                        Some(_) => {
                            proof {
                                // the next version marker closes the window
                                assert(marker_has_value(lines@[j as int]@, version_marker@));
                                assert forall|j2: int| !eligible_date_line(lines@,
                                    version_marker@, date_marker@, window as int, ii, j2) by {
                                    if eligible_date_line(lines@, version_marker@, date_marker@,
                                        window as int, ii, j2) {
                                        if j2 < j {
                                            assert(!marker_has_value(lines@[j2]@, date_marker@));
                                        } else {
                                            assert(!marker_has_value(lines@[j as int]@,
                                                version_marker@));
                                        }
                                    }
                                }
                            }
                            break;
                        },
                        None => {},
                    }
                    match extract_marked_value(cand.as_slice(), date_marker) {
                        Some(d) => {
                            proof {
                                assert(marker_value_is(lines@[j as int]@, date_marker@, d@));
                                assert(marker_has_value(lines@[j as int]@, date_marker@));
                                assert forall|t: int| ii < t <= j as int
                                    implies !marker_has_value(lines@[t]@, version_marker@) by {
                                }
                                assert(eligible_date_line(lines@, version_marker@, date_marker@,
                                    window as int, ii, j as int));
                                assert(forall|t: int| ii < t < j as int
                                    ==> !marker_has_value(lines@[t]@, date_marker@));
                            }
                            date = Some(d);
                            break;
                        },
                        None => {},
                    }
                    j = j + 1;
                }
                let ghost pre = out@;
                let entry = VersionEntry { version, release_date: date };
                out.push(entry);
                proof {
                    let w = window as int;
                    assert forall|k: int| 0 <= k < out@.len()
                        implies #[trigger] entry_at_is(lines@, version_marker@, date_marker@, w,
                            k, out@[k]) by {
                        if k < pre.len() {
                            assert(out@[k] == pre[k]);
                        } else {
                            // the new entry belongs to line `i`, the k-th
                            // marker line
                            assert(out@[k] == entry);
                            assert(marker_value_is(lines@[ii]@, version_marker@,
                                entry.version@));
                            assert(marker_has_value(lines@[ii]@, version_marker@));
                            assert(count_version_hits(lines@, version_marker@, ii) == k);
                            assert(entry_date_is(lines@, version_marker@, date_marker@, w, ii,
                                entry.release_date));
                        }
                    }
                }
            },
            None => {},
        }
        i = i + 1;
    }
    out
}

} // verus!
