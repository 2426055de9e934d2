//! Output-filename resolution.
//!
//! A name taken from the response's content-disposition header wins over a
//! synthesized one, because it reflects the publisher's actual filename;
//! with no usable header the name is synthesized from the identifier and,
//! when known, the version.

use vstd::prelude::*;
use crate::scan::{QUOTE, matches_at, find_from, find_byte, copy_range, append_bytes};
use crate::extract::{apk_lit, apk_needle};

verus! {

/// The semicolon byte, which ends a bare filename parameter.
pub const SEMI: u8 = 0x3b;

/// The dash byte, which joins identifier and version in a synthesized name.
pub const DASH: u8 = 0x2d;

/// The literal `filename=`, which opens the filename parameter.
pub open spec fn filename_lit() -> Seq<u8> {
    seq![0x66u8, 0x69, 0x6c, 0x65, 0x6e, 0x61, 0x6d, 0x65, 0x3d]
}

/// The literal `filename=` as an owned byte vector.
fn filename_needle() -> (v: Vec<u8>)
    ensures
        v@ == filename_lit(),
{
    let mut v: Vec<u8> = Vec::new();
    v.push(0x66);
    v.push(0x69);
    v.push(0x6c);
    v.push(0x65);
    v.push(0x6e);
    v.push(0x61);
    v.push(0x6d);
    v.push(0x65);
    v.push(0x3d);
    proof {
        assert(v@ =~= filename_lit());
    }
    v
}

/// `e` closes a quoted parameter value that opens at `m`: the value is
/// nonempty and quote-free.
pub open spec fn cd_quote_close(s: Seq<u8>, m: int, e: int) -> bool {
    &&& m + 1 < e < s.len()
    &&& s[e] == QUOTE
    &&& forall|k: int| m < k < e ==> s[k] != QUOTE
}

/// The quoted alternative applies at `m`: an opening quote with a closing
/// quote and a nonempty value between them.
pub open spec fn cd_has_quoted(s: Seq<u8>, m: int) -> bool {
    &&& m < s.len()
    &&& s[m] == QUOTE
    &&& exists|e: int| #[trigger] cd_quote_close(s, m, e)
}

/// `v` is the quoted parameter value that opens at `m`.
pub open spec fn cd_quoted_at(s: Seq<u8>, m: int, v: Seq<u8>) -> bool {
    exists|e: int| #[trigger] cd_quote_close(s, m, e) && v == s.subrange(m + 1, e)
}

/// `t` ends the bare parameter value that starts at `m`: the first
/// semicolon at or after `m`, or the end of the header.
pub open spec fn cd_bare_end(s: Seq<u8>, m: int, t: int) -> bool {
    &&& m < t <= s.len()
    &&& t == s.len() || s[t] == SEMI
    &&& forall|k: int| m <= k < t ==> s[k] != SEMI
}

/// `v` is the bare parameter value that starts at `m`.
pub open spec fn cd_bare_at(s: Seq<u8>, m: int, v: Seq<u8>) -> bool {
    exists|t: int| #[trigger] cd_bare_end(s, m, t) && v == s.subrange(m, t)
}

/// The filename parameter matches at `p`: the literal `filename=` and a
/// nonempty value, quoted or bare.
pub open spec fn cd_match_at(s: Seq<u8>, p: int) -> bool {
    &&& matches_at(s, p, filename_lit())
    &&& p + 9 < s.len()
    &&& (cd_has_quoted(s, p + 9) || s[p + 9] != SEMI)
}

/// `v` is the parameter value at `p`: the quoted alternative wins where it
/// applies, else the bare one.
pub open spec fn cd_param_at(s: Seq<u8>, p: int, v: Seq<u8>) -> bool {
    &&& cd_match_at(s, p)
    &&& if cd_has_quoted(s, p + 9) {
        cd_quoted_at(s, p + 9, v)
    } else {
        cd_bare_at(s, p + 9, v)
    }
}

/// The filename parameter matches at `p` and at no earlier position.
pub open spec fn cd_first_match(s: Seq<u8>, p: int) -> bool {
    &&& cd_match_at(s, p)
    &&& forall|p2: int| 0 <= p2 < p ==> !cd_match_at(s, p2)
}

/// The header `s` carries a filename parameter somewhere.
pub open spec fn cd_has_param(s: Seq<u8>) -> bool {
    exists|p: int| cd_match_at(s, p)
}

/// `v` is the value of the first filename parameter of the header `s`.
pub open spec fn cd_result_is(s: Seq<u8>, v: Seq<u8>) -> bool {
    exists|p: int| #[trigger] cd_first_match(s, p) && cd_param_at(s, p, v)
}

/// A quoted parameter value has exactly one closing quote.
pub proof fn lemma_quote_close_unique(s: Seq<u8>, m: int, e1: int, e2: int)
    requires
        cd_quote_close(s, m, e1),
        cd_quote_close(s, m, e2),
    ensures
        e1 == e2,
{
    if e1 < e2 {
        assert(s[e1] != QUOTE);
        assert(s[e1] == QUOTE);
    }
    if e2 < e1 {
        assert(s[e2] != QUOTE);
        assert(s[e2] == QUOTE);
    }
}

/// Value of the first filename parameter of a content-disposition header,
/// in document order; `None` exactly when no position matches.
pub fn parse_content_disposition(h: &[u8]) -> (r: Option<Vec<u8>>)
    ensures
        match r {
            Some(v) => cd_result_is(h@, v@) && cd_has_param(h@),
            None => !cd_has_param(h@),
        },
{
    let ghost s = h@;
    let n = h.len();
    let needle = filename_needle();
    let mut cur: usize = 0;
    loop
        invariant
            s == h@,
            cur <= n + 1,
            n == h@.len(),
            needle@ == filename_lit(),
            forall|p: int| p < cur ==> !cd_match_at(h@, p),
        decreases n + 1 - cur,
    {
        let p = match find_from(h, needle.as_slice(), cur) {
            Some(p) => p,
            None => {
                proof {
                    assert forall|p: int| !cd_match_at(s, p) by {
                        if p >= cur {
                            assert(!matches_at(s, p, filename_lit()));
                        }
                    }
                    assert(!cd_has_param(s));
                }
                return None;
            },
        };
        proof {
            assert forall|p2: int| 0 <= p2 < p implies !cd_match_at(s, p2) by {
                if p2 >= cur {
                    assert(!matches_at(s, p2, filename_lit()));
                }
            }
        }
        let m = p + 9;
        if m == n {
            // the parameter has no value at all
            cur = p + 1;
        } else if h[m] == QUOTE {
            let e = match find_byte(h, QUOTE, m + 1) {
                Some(e) => e,
                None => n,
            };
            if e < n && e > m + 1 {
                let v = copy_range(h, m + 1, e);
                proof {
                    assert(cd_quote_close(s, m as int, e as int));
                    assert(cd_quoted_at(s, m as int, v@));
                    assert(cd_first_match(s, p as int));
                    assert(cd_match_at(s, p as int));
                    assert(cd_result_is(s, v@));
                }
                return Some(v);
            }
            // no closing quote, or an empty quoted value: the bare
            // alternative takes over, starting at the opening quote
            proof {
                assert forall|e2: int| !cd_quote_close(s, m as int, e2) by {
                    if cd_quote_close(s, m as int, e2) {
                        if e2 < e {
                            assert(s[e2] == QUOTE);
                            assert(s[e2] != QUOTE);
                        } else if e2 > e {
                            assert(e < n);
                            assert(s[e as int] != QUOTE);
                        }
                    }
                }
                assert(!cd_has_quoted(s, m as int));
            }
            let t = match find_byte(h, SEMI, m) {
                Some(t) => t,
                None => n,
            };
            let v = copy_range(h, m, t);
            proof {
                assert(cd_bare_end(s, m as int, t as int));
                assert(cd_bare_at(s, m as int, v@));
                assert(s[m as int] != SEMI);
                assert(cd_first_match(s, p as int));
                assert(cd_match_at(s, p as int));
                assert(cd_result_is(s, v@));
            }
            return Some(v);
        } else if h[m] == SEMI {
            // an empty bare value: no parameter here
            proof {
                assert(!cd_has_quoted(s, m as int));
                assert(!cd_match_at(s, p as int));
            }
            cur = p + 1;
        } else {
            let t = match find_byte(h, SEMI, m) {
                Some(t) => t,
                None => n,
            };
            let v = copy_range(h, m, t);
            proof {
                assert(!cd_has_quoted(s, m as int));
                assert(cd_bare_end(s, m as int, t as int));
                assert(cd_bare_at(s, m as int, v@));
                assert(cd_first_match(s, p as int));
                assert(cd_match_at(s, p as int));
                assert(cd_result_is(s, v@));
            }
            return Some(v);
        }
    }
}

/// The literal `attachment; filename="`, the shape of a header that names
/// its attachment.
pub open spec fn attachment_prefix() -> Seq<u8> {
    seq![
        0x61u8, 0x74, 0x74, 0x61, 0x63, 0x68, 0x6d, 0x65, 0x6e, 0x74, 0x3b, 0x20,
        0x66, 0x69, 0x6c, 0x65, 0x6e, 0x61, 0x6d, 0x65, 0x3d, 0x22,
    ]
}

/// A header of the exact form `attachment; filename="X"`, with `X` nonempty
/// and quote-free, has its first filename parameter at the one occurrence
/// of `filename=`, and the parameter's value is exactly `X`.
pub proof fn lemma_attachment_header_parses(h: Seq<u8>, x: Seq<u8>)
    requires
        x.len() > 0,
        forall|k: int| 0 <= k < x.len() ==> x[k] != QUOTE,
        h == attachment_prefix() + x + seq![QUOTE],
    ensures
        cd_first_match(h, 12),
        cd_param_at(h, 12, x),
{
    let xe = 22 + x.len() as int;
    assert(h.len() == xe + 1);
    assert(forall|i: int| 0 <= i < 22 ==> h[i] == attachment_prefix()[i]);
    assert(forall|i: int| 22 <= i < xe ==> h[i] == x[i - 22]);
    assert(h[xe] == QUOTE);
    // the literal `filename=` stands at 12
    assert forall|k: int| 0 <= k < 9 implies h[12 + k] == filename_lit()[k] by {
        assert(h[12 + k] == attachment_prefix()[12 + k]);
    }
    assert(matches_at(h, 12, filename_lit()));
    // the quoted alternative applies at 21 and captures exactly `x`
    assert(h[21] == QUOTE);
    assert forall|k: int| 21 < k < xe implies h[k] != QUOTE by {
        assert(h[k] == x[k - 22]);
    }
    assert(cd_quote_close(h, 21, xe));
    assert(cd_has_quoted(h, 21));
    assert(h.subrange(22, xe) =~= x);
    assert(cd_quoted_at(h, 21, x));
    assert(cd_match_at(h, 12));
    assert(cd_param_at(h, 12, x));
    // no earlier occurrence of the literal: nothing before 12 starts with
    // the byte `f`
    assert forall|p2: int| 0 <= p2 < 12 implies !cd_match_at(h, p2) by {
        if matches_at(h, p2, filename_lit()) {
            assert(h[p2] == filename_lit()[0]);
            assert(h[p2] == attachment_prefix()[p2]);
            assert(attachment_prefix()[p2] != 0x66);
        }
    }
}

/// The resolved name of an `attachment; filename="X"` header is pinned:
/// whatever the resolver returns for such a header equals `X` exactly,
/// overriding synthesis from identifier and version.
pub proof fn lemma_header_name_exact(
    h: Seq<u8>,
    x: Seq<u8>,
    id: Seq<u8>,
    version: Option<Seq<u8>>,
    r: Seq<u8>,
)
    requires
        x.len() > 0,
        forall|k: int| 0 <= k < x.len() ==> x[k] != QUOTE,
        h == attachment_prefix() + x + seq![QUOTE],
        resolved_name_is(Some(h), id, version, r),
    ensures
        r == x,
{
    lemma_attachment_header_parses(h, x);
    assert(cd_match_at(h, 12));
    assert(cd_has_param(h));
    assert(cd_result_is(h, r));
    let p = choose|p: int| #[trigger] cd_first_match(h, p) && cd_param_at(h, p, r);
    // both matches are first matches, so they are the same position
    if p < 12 {
        assert(!cd_match_at(h, p));
    }
    if p > 12 {
        assert(!cd_match_at(h, 12));
    }
    assert(p == 12);
    // and the closing quote is unique, so the value is pinned
    let xe = 22 + x.len() as int;
    assert(cd_quote_close(h, 21, xe));
    let e2 = choose|e2: int| #[trigger] cd_quote_close(h, 21, e2) && r == h.subrange(22, e2);
    assert(cd_has_quoted(h, 21));
    assert(cd_quoted_at(h, 21, r));
    lemma_quote_close_unique(h, 21, e2, xe);
    assert(r == h.subrange(22, xe));
    assert(h.subrange(22, xe) =~= x);
}

/// The view of an optional byte-vector argument.
pub open spec fn view_opt(v: Option<&Vec<u8>>) -> Option<Seq<u8>> {
    match v {
        Some(x) => Some(x@),
        None => None,
    }
}

/// The synthesized output name: `{identifier}.apk`, or
/// `{identifier}-{version}.apk` when the version is known.
pub open spec fn synthesized_name(id: Seq<u8>, version: Option<Seq<u8>>) -> Seq<u8> {
    match version {
        Some(v) => id + seq![DASH] + v + apk_lit(),
        None => id + apk_lit(),
    }
}

/// Builds the synthesized output name.
pub fn synthesize_name(id: &Vec<u8>, version: Option<&Vec<u8>>) -> (r: Vec<u8>)
    ensures
        r@ == synthesized_name(id@, view_opt(version)),
{
    let mut out: Vec<u8> = Vec::new();
    append_bytes(&mut out, id.as_slice());
    match version {
        Some(v) => {
            out.push(DASH);
            append_bytes(&mut out, v.as_slice());
        },
        None => {},
    }
    let apk = apk_needle();
    append_bytes(&mut out, apk.as_slice());
    proof {
        assert(out@ =~= synthesized_name(id@, view_opt(version)));
    }
    out
}

/// `r` is the resolved output filename: the first filename parameter of
/// the header where one is present, else the synthesized name.  The header
/// name overrides synthesis because it reflects the publisher's actual
/// filename.
pub open spec fn resolved_name_is(cd: Option<Seq<u8>>, id: Seq<u8>, version: Option<Seq<u8>>, r: Seq<u8>) -> bool {
    match cd {
        Some(h) => if cd_has_param(h) {
            cd_result_is(h, r)
        } else {
            r == synthesized_name(id, version)
        },
        None => r == synthesized_name(id, version),
    }
}

/// Derives the output filename: the first filename parameter of the
/// content-disposition header where one is present, else the synthesized
/// name from identifier and version.
pub fn resolve_filename(cd: Option<&Vec<u8>>, id: &Vec<u8>, version: Option<&Vec<u8>>) -> (r: Vec<u8>)
    ensures
        resolved_name_is(view_opt(cd), id@, view_opt(version), r@),
{
    match cd {
        Some(h) => {
            match parse_content_disposition(h.as_slice()) {
                Some(name) => name,
                None => synthesize_name(id, version),
            }
        },
        None => synthesize_name(id, version),
    }
}

} // verus!
