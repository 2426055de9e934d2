//! Pattern-based link extraction from fetched page bodies.
//!
//! Each catalog page is scanned for a fixed pattern; the first match in
//! document order wins, and any non-match is reported as "not found", never
//! as a partial capture.  The patterns mirror the page grammar of the
//! catalog: an `href="..."` attribute whose quoted value is an app-page
//! path, a download-button anchor, and an absolute binary URL.

use vstd::prelude::*;
use crate::is_ws;
use crate::scan::{
    QUOTE, matches_at, contains_seq, is_quote_end, lemma_quote_end_unique, starts_with_at,
    find_from, find_byte, quote_end, contains_sub, copy_range,
};

verus! {

/// The newline byte: page bodies are scanned line by line where the
/// pattern needs disambiguation among repeated elements.
pub const NL: u8 = 0x0a;

/// The carriage-return byte, stripped from a line end before matching.
pub const CR: u8 = 0x0d;

/// The slash byte, which separates the segments of an app-page path.
pub const SLASH: u8 = 0x2f;

/// The literal `href="`, which opens every quoted link attribute.
pub open spec fn href_lit() -> Seq<u8> {
    seq![0x68u8, 0x72, 0x65, 0x66, 0x3d, 0x22]
}

/// The literal `downloadButton"`, the marker of the download affordance.
pub open spec fn dlbtn_lit() -> Seq<u8> {
    seq![0x64u8, 0x6f, 0x77, 0x6e, 0x6c, 0x6f, 0x61, 0x64, 0x42, 0x75, 0x74, 0x74, 0x6f, 0x6e, 0x22]
}

/// The literal `https://`, which opens an absolute binary URL.
pub open spec fn https_lit() -> Seq<u8> {
    seq![0x68u8, 0x74, 0x74, 0x70, 0x73, 0x3a, 0x2f, 0x2f]
}

/// The literal `.apk`, the binary-resource suffix looked for in a URL.
pub open spec fn apk_lit() -> Seq<u8> {
    seq![0x2eu8, 0x61, 0x70, 0x6b]
}

/// The literal `href="` as an owned byte vector.
pub fn href_needle() -> (v: Vec<u8>)
    ensures
        v@ == href_lit(),
{
    let mut v: Vec<u8> = Vec::new();
    v.push(0x68);
    v.push(0x72);
    v.push(0x65);
    v.push(0x66);
    v.push(0x3d);
    v.push(0x22);
    proof {
        assert(v@ =~= href_lit());
    }
    v
}

/// The literal `downloadButton"` as an owned byte vector.
pub fn dlbtn_needle() -> (v: Vec<u8>)
    ensures
        v@ == dlbtn_lit(),
{
    let mut v: Vec<u8> = Vec::new();
    v.push(0x64);
    v.push(0x6f);
    v.push(0x77);
    v.push(0x6e);
    v.push(0x6c);
    v.push(0x6f);
    v.push(0x61);
    v.push(0x64);
    v.push(0x42);
    v.push(0x75);
    v.push(0x74);
    v.push(0x74);
    v.push(0x6f);
    v.push(0x6e);
    v.push(0x22);
    proof {
        assert(v@ =~= dlbtn_lit());
    }
    v
}

/// The literal `https://` as an owned byte vector.
pub fn https_needle() -> (v: Vec<u8>)
    ensures
        v@ == https_lit(),
{
    let mut v: Vec<u8> = Vec::new();
    v.push(0x68);
    v.push(0x74);
    v.push(0x74);
    v.push(0x70);
    v.push(0x73);
    v.push(0x3a);
    v.push(0x2f);
    v.push(0x2f);
    proof {
        assert(v@ =~= https_lit());
    }
    v
}

/// The literal `.apk` as an owned byte vector.
pub fn apk_needle() -> (v: Vec<u8>)
    ensures
        v@ == apk_lit(),
{
    let mut v: Vec<u8> = Vec::new();
    v.push(0x2e);
    v.push(0x61);
    v.push(0x70);
    v.push(0x6b);
    proof {
        assert(v@ =~= apk_lit());
    }
    v
}

/// `i` and `j` are the second and third slash of `q`, its first two
/// segments are nonempty and slash-free, and a nonempty remainder follows.
pub open spec fn app_path_slashes(q: Seq<u8>, i: int, j: int) -> bool {
    &&& 1 < i
    &&& i + 1 < j
    &&& j + 1 < q.len()
    &&& q[i] == SLASH
    &&& q[j] == SLASH
    &&& forall|k: int| 0 < k < i ==> q[k] != SLASH
    &&& forall|k: int| i < k < j ==> q[k] != SLASH
}

/// `q` is an app-page path: `/seg/seg/rest` with the first two segments
/// nonempty and slash-free and a nonempty remainder.
pub open spec fn app_path_ok(q: Seq<u8>) -> bool {
    &&& q.len() > 0
    &&& q[0] == SLASH
    &&& exists|i: int, j: int| app_path_slashes(q, i, j)
}

/// The search-result pattern matches at `p`: the literal `href="` followed
/// by a quoted span that is an app-page path.
pub open spec fn app_path_match_at(s: Seq<u8>, p: int) -> bool {
    &&& matches_at(s, p, href_lit())
    &&& exists|e: int| #[trigger] is_quote_end(s, p + 6, e) && app_path_ok(s.subrange(p + 6, e))
}

/// `v` is the quoted span that follows the `href="` occurrence at `p`.
pub open spec fn quoted_capture_at(s: Seq<u8>, p: int, v: Seq<u8>) -> bool {
    exists|e: int| #[trigger] is_quote_end(s, p + 6, e) && v == s.subrange(p + 6, e)
}

/// The app-path pattern matches at `p` and at no earlier position.
pub open spec fn first_app_path_match(s: Seq<u8>, p: int) -> bool {
    &&& app_path_match_at(s, p)
    &&& forall|p2: int| 0 <= p2 < p ==> !app_path_match_at(s, p2)
}

/// Decides the app-path pattern at one `href="` occurrence, returning the
/// bounds of the quoted span on success.
fn probe_app_path(line: &[u8], p: usize) -> (r: Option<(usize, usize)>)
    requires
        matches_at(line@, p as int, href_lit()),
    ensures
        match r {
            Some(qe) => {
                &&& qe.0 == p + 6
                &&& is_quote_end(line@, qe.0 as int, qe.1 as int)
                &&& app_path_ok(line@.subrange(qe.0 as int, qe.1 as int))
                &&& app_path_match_at(line@, p as int)
            },
            None => !app_path_match_at(line@, p as int),
        },
{
    let n = line.len();
    let q = p + 6;
    let e = quote_end(line, q);
    let ghost qq = q as int;
    let ghost ee = e as int;
    let ghost s = line@;
    let ghost quoted = s.subrange(qq, ee);
    proof {
        assert forall|e2: int| is_quote_end(s, qq, e2) implies e2 == ee by {
            lemma_quote_end_unique(s, qq, e2, ee);
        }
        assert(quoted.len() == ee - qq);
        assert(forall|k: int| 0 <= k < quoted.len() ==> quoted[k] == s[qq + k]);
    }
    if e == q || line[q] != SLASH {
        proof {
            assert(!app_path_ok(quoted));
        }
        return None;
    }
    // second slash: first slash after the leading one
    let i2 = match find_byte(line, SLASH, q + 1) {
        Some(i) => i,
        None => n,
    };
    if i2 >= e || i2 == q + 1 {
        proof {
            assert forall|i: int, j: int| !app_path_slashes(quoted, i, j) by {
                if app_path_slashes(quoted, i, j) {
                    assert(quoted[i] == s[qq + i]);
                    if i2 >= e {
                        // no slash anywhere in the span after the first byte
                        assert(s[qq + i] != SLASH);
                    } else {
                        // the span's second byte is a slash, so the first
                        // segment is empty
                        assert(quoted[1] == s[qq + 1]);
                        assert(quoted[1] == SLASH);
                        assert(quoted[1] != SLASH);
                    }
                }
            }
            assert(!app_path_ok(quoted));
        }
        return None;
    }
    // third slash: first slash after the second
    let j2 = match find_byte(line, SLASH, i2 + 1) {
        Some(j) => j,
        None => n,
    };
    if j2 >= e || j2 == i2 + 1 || j2 + 1 >= e {
        proof {
            let ghost fi = i2 - qq;
            assert forall|i: int, j: int| !app_path_slashes(quoted, i, j) by {
                if app_path_slashes(quoted, i, j) {
                    assert(quoted[i] == s[qq + i]);
                    // the second slash of the span is forced to i2
                    if qq + i < i2 {
                        assert(s[qq + i] != SLASH);
                    }
                    if qq + i > i2 {
                        assert(quoted[fi] != SLASH);
                        assert(quoted[fi] == s[i2 as int]);
                    }
                    assert(qq + i == i2);
                    assert(quoted[j] == s[qq + j]);
                    if j2 >= e {
                        assert(s[qq + j] != SLASH);
                        assert(false);
                    } else if j2 == i2 + 1 {
                        // the second segment is empty
                        let fj = j2 - qq;
                        assert(quoted[fj] != SLASH);
                        assert(quoted[fj] == s[j2 as int]);
                        assert(false);
                    } else {
                        // the third slash of the span is forced to j2, and
                        // nothing follows it
                        if qq + j < j2 {
                            assert(s[qq + j] != SLASH);
                        }
                        if qq + j > j2 {
                            let fj = j2 - qq;
                            assert(quoted[fj] != SLASH);
                            assert(quoted[fj] == s[j2 as int]);
                        }
                        assert(qq + j == j2);
                        assert(j + 1 < quoted.len());
                        assert(false);
                    }
                }
            }
            assert(!app_path_ok(quoted));
        }
        return None;
    }
    proof {
        let fi = i2 - qq;
        let fj = j2 - qq;
        assert(quoted[0] == s[qq]);
        assert(quoted[fi] == s[i2 as int]);
        assert(quoted[fj] == s[j2 as int]);
        assert forall|k: int| 0 < k < fi implies quoted[k] != SLASH by {
            assert(quoted[k] == s[qq + k]);
        }
        assert forall|k: int| fi < k < fj implies quoted[k] != SLASH by {
            assert(quoted[k] == s[qq + k]);
        }
        assert(app_path_slashes(quoted, fi, fj));
        assert(app_path_ok(quoted));
    }
    Some((q, e))
}

/// First capture of the app-path pattern in one line of a search page, in
/// document order; `None` exactly when no position matches.
pub fn extract_app_path(line: &[u8]) -> (r: Option<Vec<u8>>)
    ensures
        match r {
            Some(v) => exists|p: int|
                first_app_path_match(line@, p) && quoted_capture_at(line@, p, v@),
            None => forall|p: int| !app_path_match_at(line@, p),
        },
{
    let n = line.len();
    let needle = href_needle();
    let mut cur: usize = 0;
    loop
        invariant
            cur <= n + 1,
            n == line@.len(),
            needle@ == href_lit(),
            forall|p: int| p < cur ==> !app_path_match_at(line@, p),
        decreases n + 1 - cur,
    {
        let p = match find_from(line, needle.as_slice(), cur) {
            Some(p) => p,
            None => {
                proof {
                    assert forall|p: int| !app_path_match_at(line@, p) by {
                        if p >= cur {
                            assert(!matches_at(line@, p, href_lit()));
                        }
                    }
                }
                return None;
            },
        };
        match probe_app_path(line, p) {
            Some((q, e)) => {
                let v = copy_range(line, q, e);
                proof {
                    assert forall|p2: int| 0 <= p2 < p implies !app_path_match_at(line@, p2) by {
                        if p2 >= cur {
                            assert(!matches_at(line@, p2, href_lit()));
                        }
                    }
                    assert(first_app_path_match(line@, p as int));
                    assert(quoted_capture_at(line@, p as int, v@));
                }
                return Some(v);
            },
            None => {
                proof {
                    assert forall|p2: int| p2 < p + 1 implies !app_path_match_at(line@, p2) by {
                        if cur <= p2 < p {
                            assert(!matches_at(line@, p2, href_lit()));
                        }
                    }
                }
                cur = p + 1;
            },
        }
    }
}

/// A needle occurrence inside a subrange is one in the whole sequence.
pub proof fn lemma_matches_subrange(s: Seq<u8>, a: int, b: int, i: int, needle: Seq<u8>)
    requires
        0 <= a <= b <= s.len(),
        0 <= i,
        i + needle.len() <= b - a,
    ensures
        matches_at(s.subrange(a, b), i, needle) == matches_at(s, a + i, needle),
{
    let q = s.subrange(a, b);
    assert(forall|k: int| 0 <= k < needle.len() ==> #[trigger] q[i + k] == s[a + i + k]);
}

/// From `m` on: a whitespace run of length `w`, then `href="`, then a
/// nonempty quoted span.
pub open spec fn dl_ws_href(s: Seq<u8>, m: int, w: int) -> bool {
    &&& 1 <= w
    &&& forall|k: int| 0 <= k < w ==> m + k < s.len() && #[trigger] is_ws(s[m + k])
    &&& matches_at(s, m + w, href_lit())
    &&& exists|e: int| #[trigger] is_quote_end(s, m + w + 6, e) && e > m + w + 6
}

/// The download-button pattern matches at `p`: the marker, whitespace, and
/// an `href` attribute with a nonempty value.
pub open spec fn dl_match_at(s: Seq<u8>, p: int) -> bool {
    &&& matches_at(s, p, dlbtn_lit())
    &&& exists|w: int| #[trigger] dl_ws_href(s, p + 15, w)
}

/// `v` is the capture of the download-button pattern at `p`.
pub open spec fn dl_capture_at(s: Seq<u8>, p: int, v: Seq<u8>) -> bool {
    exists|w: int| #[trigger] dl_ws_href(s, p + 15, w) && quoted_capture_at(s, p + 15 + w, v)
}

/// The download-button pattern matches at `p` and at no earlier position.
pub open spec fn first_dl_match(s: Seq<u8>, p: int) -> bool {
    &&& dl_match_at(s, p)
    &&& forall|p2: int| 0 <= p2 < p ==> !dl_match_at(s, p2)
}

/// Decides the download-button pattern at one occurrence of its marker,
/// returning the bounds of the captured span on success.
fn probe_dl(html: &[u8], p: usize) -> (r: Option<(usize, usize)>)
    requires
        matches_at(html@, p as int, dlbtn_lit()),
    ensures
        match r {
            Some(qe) => {
                &&& qe.0 < qe.1 <= html@.len()
                &&& dl_match_at(html@, p as int)
                &&& dl_capture_at(html@, p as int, html@.subrange(qe.0 as int, qe.1 as int))
            },
            None => !dl_match_at(html@, p as int),
        },
{
    let ghost s = html@;
    let n = html.len();
    let m = p + 15;
    let ghost mm = m as int;
    let mut wend: usize = m;
    while wend < n && crate::is_ws_byte(html[wend])
        invariant
            m <= wend <= n,
            n == html@.len(),
            forall|k: int| m <= k < wend ==> #[trigger] is_ws(html@[k]),
        decreases n - wend,
    {
        wend = wend + 1;
    }
    if wend == m {
        proof {
            assert forall|w: int| !(#[trigger] dl_ws_href(s, mm, w)) by {
                if dl_ws_href(s, mm, w) {
                    assert(is_ws(s[mm]));
                    if mm < s.len() {
                        assert(!is_ws(s[mm]));
                    }
                }
            }
        }
        return None;
    }
    let needle = href_needle();
    if !starts_with_at(html, wend, needle.as_slice()) {
        proof {
            assert forall|w: int| !(#[trigger] dl_ws_href(s, mm, w)) by {
                if dl_ws_href(s, mm, w) {
                    if mm + w < wend {
                        assert(is_ws(s[mm + w]));
                        assert(s[mm + w] == href_lit()[0]);
                        assert(href_lit()[0] == 0x68);
                    } else if mm + w == wend {
                        assert(matches_at(s, wend as int, href_lit()));
                    } else {
                        assert(mm + (wend - mm) < s.len() && is_ws(s[mm + (wend - mm)]));
                        assert(wend < n);
                    }
                }
            }
        }
        return None;
    }
    let q = wend + 6;
    let e = quote_end(html, q);
    proof {
        assert forall|e2: int| is_quote_end(s, q as int, e2) implies e2 == e as int by {
            lemma_quote_end_unique(s, q as int, e2, e as int);
        }
    }
    if e == q {
        proof {
            assert forall|w: int| !(#[trigger] dl_ws_href(s, mm, w)) by {
                if dl_ws_href(s, mm, w) {
                    // the run length is forced to wend - m
                    if mm + w < wend {
                        assert(is_ws(s[mm + w]));
                        assert(s[mm + w] == href_lit()[0]);
                        assert(href_lit()[0] == 0x68);
                    } else if mm + w > wend {
                        assert(mm + (wend - mm) < s.len() && is_ws(s[mm + (wend - mm)]));
                        assert(wend < n);
                        assert(s[wend as int] == href_lit()[0]);
                        assert(href_lit()[0] == 0x68);
                    }
                    assert(mm + w == wend);
                    // and its quoted span is empty
                    assert(false);
                }
            }
        }
        return None;
    }
    proof {
        let w = wend - mm;
        assert forall|k: int| 0 <= k < w implies mm + k < s.len() && #[trigger] is_ws(s[mm + k]) by {
            assert(is_ws(s[mm + k]));
        }
        assert(is_quote_end(s, q as int, e as int) && e as int > q as int);
        assert(dl_ws_href(s, mm, w));
        assert(dl_match_at(s, p as int));
        assert(is_quote_end(s, mm + w + 6, e as int));
        assert(quoted_capture_at(s, mm + w, s.subrange(q as int, e as int)));
        assert(dl_capture_at(s, p as int, s.subrange(q as int, e as int)));
    }
    Some((q, e))
}

/// Some position of `s` matches the download-button pattern.
pub open spec fn dl_has_match(s: Seq<u8>) -> bool {
    exists|p: int| dl_match_at(s, p)
}

/// `v` is the capture of the first download-button match of `s`.
pub open spec fn dl_result_is(s: Seq<u8>, v: Seq<u8>) -> bool {
    exists|p: int| #[trigger] first_dl_match(s, p) && dl_capture_at(s, p, v)
}

/// First capture of the download-button pattern in a page, in document
/// order; `None` exactly when no position matches.
pub fn extract_download_href(html: &[u8]) -> (r: Option<Vec<u8>>)
    ensures
        match r {
            Some(v) => dl_result_is(html@, v@) && dl_has_match(html@),
            None => !dl_has_match(html@),
        },
{
    let n = html.len();
    let needle = dlbtn_needle();
    let mut cur: usize = 0;
    loop
        invariant
            cur <= n + 1,
            n == html@.len(),
            needle@ == dlbtn_lit(),
            forall|p: int| p < cur ==> !dl_match_at(html@, p),
        decreases n + 1 - cur,
    {
        let p = match find_from(html, needle.as_slice(), cur) {
            Some(p) => p,
            None => {
                proof {
                    assert forall|p: int| !dl_match_at(html@, p) by {
                        if p >= cur {
                            assert(!matches_at(html@, p, dlbtn_lit()));
                        }
                    }
                    assert(!dl_has_match(html@));
                }
                return None;
            },
        };
        match probe_dl(html, p) {
            Some((q, e)) => {
                let v = copy_range(html, q, e);
                proof {
                    assert forall|p2: int| 0 <= p2 < p implies !dl_match_at(html@, p2) by {
                        if p2 >= cur {
                            assert(!matches_at(html@, p2, dlbtn_lit()));
                        }
                    }
                    assert(first_dl_match(html@, p as int));
                    assert(dl_result_is(html@, v@));
                    assert(dl_match_at(html@, p as int));
                }
                return Some(v);
            },
            None => {
                proof {
                    assert forall|p2: int| p2 < p + 1 implies !dl_match_at(html@, p2) by {
                        if cur <= p2 < p {
                            assert(!matches_at(html@, p2, dlbtn_lit()));
                        }
                    }
                }
                cur = p + 1;
            },
        }
    }
}

/// `q` is an absolute binary URL: `https://`, at least one byte, and
/// `.apk` somewhere after that byte.
pub open spec fn final_url_ok(q: Seq<u8>) -> bool {
    &&& matches_at(q, 0, https_lit())
    &&& exists|i: int| 9 <= i && #[trigger] matches_at(q, i, apk_lit())
}

/// The binary-URL pattern matches at `p`: `href="` followed by a quoted
/// span that is an absolute binary URL.
pub open spec fn final_url_match_at(s: Seq<u8>, p: int) -> bool {
    &&& matches_at(s, p, href_lit())
    &&& exists|e: int| #[trigger] is_quote_end(s, p + 6, e) && final_url_ok(s.subrange(p + 6, e))
}

/// The binary-URL pattern matches at `p` and at no earlier position.
pub open spec fn first_final_url_match(s: Seq<u8>, p: int) -> bool {
    &&& final_url_match_at(s, p)
    &&& forall|p2: int| 0 <= p2 < p ==> !final_url_match_at(s, p2)
}

/// Decides the binary-URL pattern at one `href="` occurrence, returning
/// the bounds of the quoted span on success.
fn probe_final_url(html: &[u8], p: usize) -> (r: Option<(usize, usize)>)
    requires
        matches_at(html@, p as int, href_lit()),
    ensures
        match r {
            Some(qe) => {
                &&& qe.0 == p + 6
                &&& is_quote_end(html@, qe.0 as int, qe.1 as int)
                &&& final_url_ok(html@.subrange(qe.0 as int, qe.1 as int))
                &&& final_url_match_at(html@, p as int)
            },
            None => !final_url_match_at(html@, p as int),
        },
{
    let ghost s = html@;
    let n = html.len();
    let q = p + 6;
    let e = quote_end(html, q);
    let ghost qq = q as int;
    let ghost ee = e as int;
    let ghost quoted = s.subrange(qq, ee);
    proof {
        assert forall|e2: int| is_quote_end(s, qq, e2) implies e2 == ee by {
            lemma_quote_end_unique(s, qq, e2, ee);
        }
        assert(quoted.len() == ee - qq);
        assert(forall|k: int| 0 <= k < quoted.len() ==> quoted[k] == s[qq + k]);
    }
    // https:// (8), a byte, and .apk (4) need at least 13 bytes
    if e - q < 13 {
        proof {
            assert forall|i: int| !(9 <= i && #[trigger] matches_at(quoted, i, apk_lit())) by {
                if 9 <= i && matches_at(quoted, i, apk_lit()) {
                    assert(i + 4 <= quoted.len());
                }
            }
            assert(!final_url_ok(quoted));
        }
        return None;
    }
    let https = https_needle();
    if !starts_with_at(html, q, https.as_slice()) {
        proof {
            lemma_matches_subrange(s, qq, ee, 0, https_lit());
            assert(!final_url_ok(quoted));
        }
        return None;
    }
    let apk = apk_needle();
    let found = match find_from(html, apk.as_slice(), q + 9) {
        Some(i) => {
            if i + 4 <= e {
                Some(i)
            } else {
                proof {
                    // an occurrence cannot straddle the closing quote
                    assert(s[ee] == QUOTE);
                    assert(apk_lit()[1] == 0x61 && apk_lit()[2] == 0x70 && apk_lit()[3] == 0x6b);
                    if i < e {
                        assert(s[i + (ee - i)] == apk_lit()[ee - i]);
                        assert(false);
                    }
                }
                None
            }
        },
        None => None,
    };
    match found {
        Some(i) => {
            proof {
                lemma_matches_subrange(s, qq, ee, 0, https_lit());
                lemma_matches_subrange(s, qq, ee, i - qq, apk_lit());
                assert(9 <= i - qq && matches_at(quoted, i - qq, apk_lit()));
                assert(final_url_ok(quoted));
            }
            Some((q, e))
        },
        None => {
            proof {
                // no occurrence of .apk inside the span
                assert forall|i: int| !(9 <= i && #[trigger] matches_at(quoted, i, apk_lit())) by {
                    if 9 <= i && matches_at(quoted, i, apk_lit()) {
                        lemma_matches_subrange(s, qq, ee, i, apk_lit());
                        assert(matches_at(s, qq + i, apk_lit()));
                        assert(!matches_at(s, qq + i, apk_lit()));
                    }
                }
                assert(!final_url_ok(quoted));
            }
            None
        },
    }
}

/// Some position of `s` matches the binary-URL pattern.
pub open spec fn final_url_has_match(s: Seq<u8>) -> bool {
    exists|p: int| final_url_match_at(s, p)
}

/// `v` is the capture of the first binary-URL match of `s`.
pub open spec fn final_url_result_is(s: Seq<u8>, v: Seq<u8>) -> bool {
    exists|p: int| #[trigger] first_final_url_match(s, p) && quoted_capture_at(s, p, v)
}

/// First capture of the binary-URL pattern in a page, in document order;
/// `None` exactly when no position matches.
pub fn extract_final_url(html: &[u8]) -> (r: Option<Vec<u8>>)
    ensures
        match r {
            Some(v) => final_url_result_is(html@, v@) && final_url_has_match(html@),
            None => !final_url_has_match(html@),
        },
{
    let n = html.len();
    let needle = href_needle();
    let mut cur: usize = 0;
    loop
        invariant
            cur <= n + 1,
            n == html@.len(),
            needle@ == href_lit(),
            forall|p: int| p < cur ==> !final_url_match_at(html@, p),
        decreases n + 1 - cur,
    {
        let p = match find_from(html, needle.as_slice(), cur) {
            Some(p) => p,
            None => {
                proof {
                    assert forall|p: int| !final_url_match_at(html@, p) by {
                        if p >= cur {
                            assert(!matches_at(html@, p, href_lit()));
                        }
                    }
                    assert(!final_url_has_match(html@));
                }
                return None;
            },
        };
        match probe_final_url(html, p) {
            Some((q, e)) => {
                let v = copy_range(html, q, e);
                proof {
                    assert forall|p2: int| 0 <= p2 < p implies !final_url_match_at(html@, p2) by {
                        if p2 >= cur {
                            assert(!matches_at(html@, p2, href_lit()));
                        }
                    }
                    assert(first_final_url_match(html@, p as int));
                    assert(quoted_capture_at(html@, p as int, v@));
                    assert(final_url_result_is(html@, v@));
                    assert(final_url_match_at(html@, p as int));
                }
                return Some(v);
            },
            None => {
                proof {
                    assert forall|p2: int| p2 < p + 1 implies !final_url_match_at(html@, p2) by {
                        if cur <= p2 < p {
                            assert(!matches_at(html@, p2, href_lit()));
                        }
                    }
                }
                cur = p + 1;
            },
        }
    }
}


/// `[a, b)` is one whole line of `s`: it abuts a newline or an end of the
/// text on both sides and holds no newline itself.
pub open spec fn is_line(s: Seq<u8>, a: int, b: int) -> bool {
    &&& 0 <= a <= b <= s.len()
    &&& a == 0 || s[a - 1] == NL
    &&& b == s.len() || s[b] == NL
    &&& forall|k: int| a <= k < b ==> s[k] != NL
}

/// The text of the line `[a, b)` as the line-oriented extractor sees it:
/// a trailing carriage return is stripped.
pub open spec fn line_text(s: Seq<u8>, a: int, b: int) -> Seq<u8> {
    if a < b && s[b - 1] == CR {
        s.subrange(a, b - 1)
    } else {
        s.subrange(a, b)
    }
}

/// The line `[a, b)` passes the search filter (it contains the identifier)
/// and holds a match of the app-path pattern.
pub open spec fn search_line_hit(s: Seq<u8>, a: int, b: int, id: Seq<u8>) -> bool {
    &&& is_line(s, a, b)
    &&& contains_seq(line_text(s, a, b), id)
    &&& exists|p: int| app_path_match_at(line_text(s, a, b), p)
}

/// Between a line start `a` and the next newline `b` lies exactly one line.
pub proof fn lemma_only_line(s: Seq<u8>, a: int, b: int, a2: int, b2: int)
    requires
        0 <= a <= b <= s.len(),
        a == 0 || s[a - 1] == NL,
        b == s.len() || s[b] == NL,
        forall|k: int| a <= k < b ==> s[k] != NL,
        is_line(s, a2, b2),
        a <= a2 <= b,
    ensures
        a2 == a && b2 == b,
{
    if a2 > a {
        assert(s[a2 - 1] != NL);
    }
    if b2 < b {
        assert(s[b2] != NL);
    }
    if b2 > b {
        assert(s[b] != NL);
    }
}

/// Some line of the search page `s` contains `id` and an app-path match.
pub open spec fn search_has_hit(s: Seq<u8>, id: Seq<u8>) -> bool {
    exists|a: int, b: int| #[trigger] search_line_hit(s, a, b, id)
}

/// `v` is the capture of the first app-path match on the first hit line of
/// the search page `s` filtered by `id`.
pub open spec fn search_result_is(s: Seq<u8>, id: Seq<u8>, v: Seq<u8>) -> bool {
    exists|a: int, b: int| {
        &&& #[trigger] search_line_hit(s, a, b, id)
        &&& forall|a2: int, b2: int| is_line(s, a2, b2) && a2 < a
            ==> !search_line_hit(s, a2, b2, id)
        &&& exists|p: int| first_app_path_match(line_text(s, a, b), p)
            && quoted_capture_at(line_text(s, a, b), p, v)
    }
}

/// First capture of the app-path pattern among the lines of a search page
/// that contain the identifier, in document order; `None` exactly when no
/// such line holds a match.
pub fn search_app_path(html: &[u8], id: &[u8]) -> (r: Option<Vec<u8>>)
    requires
        id@.len() > 0,
    ensures
        match r {
            Some(v) => search_result_is(html@, id@, v@) && search_has_hit(html@, id@),
            None => !search_has_hit(html@, id@),
        },
{
    let ghost s = html@;
    let n = html.len();
    let mut a: usize = 0;
    loop
        invariant
            s == html@,
            a <= n,
            n == html@.len(),
            n <= usize::MAX,
            id@.len() > 0,
            a == 0 || html@[a - 1] == NL,
            forall|a2: int, b2: int| is_line(html@, a2, b2) && a2 < a
                ==> !search_line_hit(html@, a2, b2, id@),
        decreases n - a,
    {
        let b = match find_byte(html, NL, a) {
            Some(i) => i,
            None => n,
        };
        // strip a trailing carriage return before matching
        let bb = if b > a && html[b - 1] == CR { b - 1 } else { b };
        let line = vstd::slice::slice_subrange(html, a, bb);
        proof {
            assert(line@ == line_text(s, a as int, b as int));
        }
        let hit = if contains_sub(line, id) {
            extract_app_path(line)
        } else {
            proof {
                assert(!search_line_hit(s, a as int, b as int, id@));
            }
            None
        };
        match hit {
            Some(v) => {
                proof {
                    assert(is_line(s, a as int, b as int));
                    assert(search_line_hit(s, a as int, b as int, id@));
                    assert(search_result_is(s, id@, v@));
                }
                return Some(v);
            },
            None => {
                proof {
                    assert(!search_line_hit(s, a as int, b as int, id@));
                    assert forall|a2: int, b2: int|
                        is_line(s, a2, b2) && a2 < b + 1
                            implies !search_line_hit(s, a2, b2, id@) by {
                        if a <= a2 {
                            lemma_only_line(s, a as int, b as int, a2, b2);
                        }
                    }
                }
                if b == n {
                    proof {
                        assert forall|a2: int, b2: int|
                            !search_line_hit(s, a2, b2, id@) by {
                            if search_line_hit(s, a2, b2, id@) {
                                assert(a2 < b + 1);
                            }
                        }
                        assert(!search_has_hit(s, id@));
                    }
                    return None;
                }
                a = b + 1;
            },
        }
    }
}

/// The line `[a, b)` contains the requested version and a match of the
/// download-button pattern: the version co-occurs with the download
/// affordance on one line.
pub open spec fn versioned_line_hit(s: Seq<u8>, a: int, b: int, ver: Seq<u8>) -> bool {
    &&& is_line(s, a, b)
    &&& contains_seq(line_text(s, a, b), ver)
    &&& exists|p: int| dl_match_at(line_text(s, a, b), p)
}

/// Some line of the version page `s` carries `ver` beside the download
/// affordance.
pub open spec fn versioned_has_hit(s: Seq<u8>, ver: Seq<u8>) -> bool {
    exists|a: int, b: int| #[trigger] versioned_line_hit(s, a, b, ver)
}

/// `v` is the capture of the first download-button match on the first line
/// of `s` that carries `ver`.
pub open spec fn versioned_result_is(s: Seq<u8>, ver: Seq<u8>, v: Seq<u8>) -> bool {
    exists|a: int, b: int| {
        &&& #[trigger] versioned_line_hit(s, a, b, ver)
        &&& forall|a2: int, b2: int| is_line(s, a2, b2) && a2 < a
            ==> !versioned_line_hit(s, a2, b2, ver)
        &&& exists|p: int| first_dl_match(line_text(s, a, b), p)
            && dl_capture_at(line_text(s, a, b), p, v)
    }
}

/// First capture of the download-button pattern among the lines of a page
/// that contain the requested version, in document order; `None` exactly
/// when no such line holds a match.  A version that appears only on lines
/// without the download affordance is not found.
pub fn search_versioned_href(html: &[u8], ver: &[u8]) -> (r: Option<Vec<u8>>)
    requires
        ver@.len() > 0,
    ensures
        match r {
            Some(v) => versioned_result_is(html@, ver@, v@) && versioned_has_hit(html@, ver@),
            None => !versioned_has_hit(html@, ver@),
        },
{
    let ghost s = html@;
    let n = html.len();
    let mut a: usize = 0;
    loop
        invariant
            s == html@,
            a <= n,
            n == html@.len(),
            n <= usize::MAX,
            ver@.len() > 0,
            a == 0 || html@[a - 1] == NL,
            forall|a2: int, b2: int| is_line(html@, a2, b2) && a2 < a
                ==> !versioned_line_hit(html@, a2, b2, ver@),
        decreases n - a,
    {
        let b = match find_byte(html, NL, a) {
            Some(i) => i,
            None => n,
        };
        let bb = if b > a && html[b - 1] == CR { b - 1 } else { b };
        let line = vstd::slice::slice_subrange(html, a, bb);
        proof {
            assert(line@ == line_text(s, a as int, b as int));
        }
        let hit = if contains_sub(line, ver) {
            extract_download_href(line)
        } else {
            proof {
                assert(!versioned_line_hit(s, a as int, b as int, ver@));
            }
            None
        };
        match hit {
            Some(v) => {
                proof {
                    assert(is_line(s, a as int, b as int));
                    assert(versioned_line_hit(s, a as int, b as int, ver@));
                    assert(versioned_result_is(s, ver@, v@));
                }
                return Some(v);
            },
            None => {
                proof {
                    assert(!versioned_line_hit(s, a as int, b as int, ver@));
                    assert forall|a2: int, b2: int|
                        is_line(s, a2, b2) && a2 < b + 1
                            implies !versioned_line_hit(s, a2, b2, ver@) by {
                        if a <= a2 {
                            lemma_only_line(s, a as int, b as int, a2, b2);
                        }
                    }
                }
                if b == n {
                    proof {
                        assert forall|a2: int, b2: int|
                            !versioned_line_hit(s, a2, b2, ver@) by {
                            if versioned_line_hit(s, a2, b2, ver@) {
                                assert(a2 < b + 1);
                            }
                        }
                        assert(!versioned_has_hit(s, ver@));
                    }
                    return None;
                }
                a = b + 1;
            },
        }
    }
}

} // verus!
