//! The resolution chain: a deterministic state machine that turns an
//! application identifier (optionally pinned to a version) into a final
//! binary URL by walking the catalog's page chain.
//!
//! The machine only decides; the caller performs each fetch and feeds the
//! outcome back through [`step`].  Every stage either advances with the
//! next URL to fetch, completes with the binary URL, or fails at exactly
//! that stage — a failed stage never hands out a further fetch.

use vstd::prelude::*;
use crate::scan::{matches_at, starts_with_at, copy_range, append_bytes};
use crate::extract::{
    https_lit, search_has_hit, search_result_is, search_app_path, dl_has_match, dl_result_is,
    extract_download_href, final_url_has_match, final_url_result_is, extract_final_url,
    versioned_has_hit, versioned_result_is, search_versioned_href,
};
use crate::filename::{view_opt, resolved_name_is, resolve_filename};

verus! {

/// One stage of the resolution chain: the page whose response the machine
/// is waiting to classify.
#[derive(Clone, Copy, PartialEq, Eq, Debug)]
pub enum Stage {
    /// awaiting the search page
    Searching,
    /// awaiting the detail page, to locate the requested version or the
    /// latest download affordance
    LocatingVersionOrDownloadPage,
    /// awaiting the download page, to locate the final binary URL
    LocatingFinalBinaryUrl,
    /// awaiting the binary resource itself
    FetchingBinary,
}

/// Why a stage failed.  Not-found failures are distinguished by stage, so
/// a missing app, a missing version and a changed page markup are reported
/// apart.
#[derive(Clone, PartialEq, Eq, Debug)]
pub enum StageError {
    /// the stage's fetch answered with this non-2xx status
    Http(u16),
    /// no search-result line held the identifier beside an app-page path
    AppNotFound,
    /// no line of the page held the requested version beside the download
    /// affordance
    VersionNotFound,
    /// the download-button link is missing from the detail page
    DownloadLinkNotFound,
    /// no absolute binary URL stands on the download page
    FinalUrlNotFound,
    /// the fetch itself failed, with the transport's message
    Transport(Vec<u8>),
}

/// The chain's state between fetches.
#[derive(Clone, Debug)]
pub struct ChainState {
    /// the catalog key of the application; never mutated during resolution
    pub identifier: Vec<u8>,
    /// the requested version, or `None` for the latest
    pub version: Option<Vec<u8>>,
    /// the stage whose response is awaited
    pub stage: Stage,
}

/// What the fetch of one stage's URL produced.
#[derive(Clone, Debug)]
pub enum FetchEvent {
    /// a response: its status and its body
    Response(u16, Vec<u8>),
    /// a network-level failure with its message
    Failure(Vec<u8>),
}

/// What one step of the machine decided.
#[derive(Clone, Debug)]
pub enum StepOutcome {
    /// fetch this URL and feed the outcome back
    Next(ChainState, Vec<u8>),
    /// the chain is complete: the final binary URL
    Resolved(Vec<u8>),
    /// the chain failed at this stage and hands out no further fetch
    Failed(Stage, StageError),
}

/// A chain state is well formed: a nonempty identifier, and a nonempty
/// version where one is requested.
pub open spec fn wf_state(st: ChainState) -> bool {
    &&& st.identifier@.len() > 0
    &&& match st.version {
        Some(v) => v@.len() > 0,
        None => true,
    }
}

/// A status in the 2xx range counts as success; everything else is
/// classified by the chain, not by the fetcher.
pub open spec fn is_success_status(status: u16) -> bool {
    200 <= status < 300
}

/// The catalog's base origin, prefixed to relative links.
pub open spec fn base_origin() -> Seq<u8> {
    seq![
        0x68u8, 0x74, 0x74, 0x70, 0x73, 0x3a, 0x2f, 0x2f, 0x61, 0x70, 0x6b, 0x63, 0x6f, 0x6d,
        0x62, 0x6f, 0x2e, 0x63, 0x6f, 0x6d,
    ]
}

/// The catalog's search path, `/search/`.
pub open spec fn search_path_lit() -> Seq<u8> {
    seq![0x2fu8, 0x73, 0x65, 0x61, 0x72, 0x63, 0x68, 0x2f]
}

/// The literal `http`, which marks an already absolute link.
pub open spec fn http_lit() -> Seq<u8> {
    seq![0x68u8, 0x74, 0x74, 0x70]
}

/// The search URL of an identifier:
/// `{base origin}/search/{identifier}/`.
pub open spec fn search_url_spec(id: Seq<u8>) -> Seq<u8> {
    base_origin() + search_path_lit() + id + seq![0x2fu8]
}

/// An extracted link made absolute: kept as it stands when it already
/// names a scheme, else prefixed with the base origin.
pub open spec fn absolutize_spec(u: Seq<u8>) -> Seq<u8> {
    if matches_at(u, 0, http_lit()) {
        u
    } else {
        base_origin() + u
    }
}

/// The base origin as an owned byte vector.
fn base_needle() -> (v: Vec<u8>)
    ensures
        v@ == base_origin(),
{
    let mut v: Vec<u8> = Vec::new();
    v.push(0x68);
    v.push(0x74);
    v.push(0x74);
    v.push(0x70);
    v.push(0x73);
    v.push(0x3a);
    v.push(0x2f);
    v.push(0x2f);
    v.push(0x61);
    v.push(0x70);
    v.push(0x6b);
    v.push(0x63);
    v.push(0x6f);
    v.push(0x6d);
    v.push(0x62);
    v.push(0x6f);
    v.push(0x2e);
    v.push(0x63);
    v.push(0x6f);
    v.push(0x6d);
    proof {
        assert(v@ =~= base_origin());
    }
    v
}

/// The literal `http` as an owned byte vector.
fn http_needle() -> (v: Vec<u8>)
    ensures
        v@ == http_lit(),
{
    let mut v: Vec<u8> = Vec::new();
    v.push(0x68);
    v.push(0x74);
    v.push(0x74);
    v.push(0x70);
    proof {
        assert(v@ =~= http_lit());
    }
    v
}

/// Makes an extracted link absolute.
pub fn absolutize(u: &Vec<u8>) -> (r: Vec<u8>)
    ensures
        r@ == absolutize_spec(u@),
{
    let http = http_needle();
    if starts_with_at(u.as_slice(), 0, http.as_slice()) {
        let r = copy_range(u.as_slice(), 0, u.len());
        proof {
            assert(u@.subrange(0, u@.len() as int) =~= u@);
        }
        r
    } else {
        let mut out = base_needle();
        append_bytes(&mut out, u.as_slice());
        out
    }
}

/// Begins a resolution chain: the returned state awaits the search page,
/// whose URL is returned beside it.
pub fn start(identifier: Vec<u8>, version: Option<Vec<u8>>) -> (r: (ChainState, Vec<u8>))
    requires
        identifier@.len() > 0,
        (version matches Some(v) ==> v@.len() > 0),
    ensures
        wf_state(r.0),
        r.0.identifier@ == identifier@,
        view_opt_owned(r.0.version) == view_opt_owned(version),
        r.0.stage == Stage::Searching,
        r.1@ == search_url_spec(identifier@),
{
    let mut url = base_needle();
    url.push(0x2f);
    url.push(0x73);
    url.push(0x65);
    url.push(0x61);
    url.push(0x72);
    url.push(0x63);
    url.push(0x68);
    url.push(0x2f);
    append_bytes(&mut url, identifier.as_slice());
    url.push(0x2f);
    proof {
        assert(url@ =~= search_url_spec(identifier@));
    }
    let state = ChainState { identifier, version, stage: Stage::Searching };
    (state, url)
}

/// The view of an owned optional byte vector.
pub open spec fn view_opt_owned(v: Option<Vec<u8>>) -> Option<Seq<u8>> {
    match v {
        Some(x) => Some(x@),
        None => None,
    }
}

/// Feeds one stage's fetch outcome to the machine.
///
/// A transport failure or a non-2xx status fails the stage it arrived at,
/// and the chain does not advance: a failed stage hands out no further
/// fetch.  On a 2xx response the stage's extractor decides: its first
/// capture names the next URL (or, at the last stage, the final binary
/// URL), and no capture fails the stage with its own not-found error.  A
/// version-specific request that finds no line carrying the version beside
/// the download affordance reports the version, not the app, as missing.
pub fn step(state: ChainState, event: FetchEvent) -> (r: StepOutcome)
    requires
        wf_state(state),
        state.stage != Stage::FetchingBinary,
    ensures
        (event matches FetchEvent::Failure(m) ==> r matches StepOutcome::Failed(st, err)
            && st == state.stage
            && (err matches StageError::Transport(mm) && mm@ == m@)),
        (event matches FetchEvent::Response(status, body) ==> {
            if !is_success_status(status) {
                r matches StepOutcome::Failed(st, err)
                    && st == state.stage
                    && (err matches StageError::Http(sc) && sc == status)
            } else {
                match state.stage {
                    Stage::Searching => {
                        if search_has_hit(body@, state.identifier@) {
                            r matches StepOutcome::Next(ns, url)
                                && ns.identifier@ == state.identifier@
                                && view_opt_owned(ns.version) == view_opt_owned(state.version)
                                && ns.stage == Stage::LocatingVersionOrDownloadPage
                                && wf_state(ns)
                                && (exists|path: Seq<u8>|
                                    #[trigger] search_result_is(body@, state.identifier@, path)
                                    && url@ == base_origin() + path)
                        } else {
                            r matches StepOutcome::Failed(st, err)
                                && st == Stage::Searching
                                && err == StageError::AppNotFound
                        }
                    },
                    Stage::LocatingVersionOrDownloadPage => {
                        match state.version {
                            Some(ver) => {
                                if versioned_has_hit(body@, ver@) {
                                    r matches StepOutcome::Next(ns, url)
                                        && ns.identifier@ == state.identifier@
                                        && view_opt_owned(ns.version) == view_opt_owned(state.version)
                                        && ns.stage == Stage::LocatingFinalBinaryUrl
                                        && wf_state(ns)
                                        && (exists|u: Seq<u8>|
                                            #[trigger] versioned_result_is(body@, ver@, u)
                                            && url@ == absolutize_spec(u))
                                } else {
                                    r matches StepOutcome::Failed(st, err)
                                        && st == Stage::LocatingVersionOrDownloadPage
                                        && err == StageError::VersionNotFound
                                }
                            },
                            None => {
                                if dl_has_match(body@) {
                                    r matches StepOutcome::Next(ns, url)
                                        && ns.identifier@ == state.identifier@
                                        && view_opt_owned(ns.version) == view_opt_owned(state.version)
                                        && ns.stage == Stage::LocatingFinalBinaryUrl
                                        && wf_state(ns)
                                        && (exists|u: Seq<u8>| #[trigger] dl_result_is(body@, u)
                                            && url@ == absolutize_spec(u))
                                } else {
                                    r matches StepOutcome::Failed(st, err)
                                        && st == Stage::LocatingVersionOrDownloadPage
                                        && err == StageError::DownloadLinkNotFound
                                }
                            },
                        }
                    },
                    Stage::LocatingFinalBinaryUrl => {
                        if final_url_has_match(body@) {
                            r matches StepOutcome::Resolved(url)
                                && final_url_result_is(body@, url@)
                        } else {
                            r matches StepOutcome::Failed(st, err)
                                && st == Stage::LocatingFinalBinaryUrl
                                && err == StageError::FinalUrlNotFound
                        }
                    },
                    Stage::FetchingBinary => false,
                }
            }
        }),
{
    let ChainState { identifier, version, stage } = state;
    match event {
        FetchEvent::Failure(m) => StepOutcome::Failed(stage, StageError::Transport(m)),
        FetchEvent::Response(status, body) => {
            if status < 200 || status >= 300 {
                return StepOutcome::Failed(stage, StageError::Http(status));
            }
            match stage {
                Stage::Searching => {
                    match search_app_path(body.as_slice(), identifier.as_slice()) {
                        Some(path) => {
                            let mut url = base_needle();
                            append_bytes(&mut url, path.as_slice());
                            let ns = ChainState {
                                identifier,
                                version,
                                stage: Stage::LocatingVersionOrDownloadPage,
                            };
                            StepOutcome::Next(ns, url)
                        },
                        None => StepOutcome::Failed(Stage::Searching, StageError::AppNotFound),
                    }
                },
                Stage::LocatingVersionOrDownloadPage => {
                    let link = match &version {
                        Some(ver) => search_versioned_href(body.as_slice(), ver.as_slice()),
                        None => extract_download_href(body.as_slice()),
                    };
                    match link {
                        Some(u) => {
                            let url = absolutize(&u);
                            let ns = ChainState {
                                identifier,
                                version,
                                stage: Stage::LocatingFinalBinaryUrl,
                            };
                            StepOutcome::Next(ns, url)
                        },
                        None => {
                            match version {
                                Some(_) => StepOutcome::Failed(
                                    Stage::LocatingVersionOrDownloadPage,
                                    StageError::VersionNotFound,
                                ),
                                None => StepOutcome::Failed(
                                    Stage::LocatingVersionOrDownloadPage,
                                    StageError::DownloadLinkNotFound,
                                ),
                            }
                        },
                    }
                },
                Stage::LocatingFinalBinaryUrl => {
                    match extract_final_url(body.as_slice()) {
                        Some(u) => StepOutcome::Resolved(u),
                        None => StepOutcome::Failed(
                            Stage::LocatingFinalBinaryUrl,
                            StageError::FinalUrlNotFound,
                        ),
                    }
                },
                Stage::FetchingBinary => {
                    // unreachable: the binary response goes to
                    // `binary_filename`, and the requires keeps this stage
                    // out of `step`
                    StepOutcome::Failed(Stage::FetchingBinary, StageError::FinalUrlNotFound)
                },
            }
        },
    }
}

/// Classifies the binary response and derives the output filename: a
/// non-2xx status fails the binary-fetch stage; on success the name comes
/// from the content-disposition header where one names a file, else it is
/// synthesized from identifier and version.
pub fn binary_filename(
    status: u16,
    content_disposition: Option<&Vec<u8>>,
    identifier: &Vec<u8>,
    version: Option<&Vec<u8>>,
) -> (r: Result<Vec<u8>, (Stage, StageError)>)
    ensures
        !is_success_status(status) ==> (r matches Err(f)
            && f.0 == Stage::FetchingBinary
            && (f.1 matches StageError::Http(sc) && sc == status)),
        is_success_status(status) ==> (r matches Ok(name)
            && resolved_name_is(view_opt(content_disposition), identifier@, view_opt(version), name@)),
{
    if status < 200 || status >= 300 {
        return Err((Stage::FetchingBinary, StageError::Http(status)));
    }
    Ok(resolve_filename(content_disposition, identifier, version))
}

} // verus!
