use apkfetch::chain::{binary_filename, start, step, FetchEvent, Stage, StageError, StepOutcome};
use apkfetch::filename::resolve_filename;

fn searching_state() -> (apkfetch::chain::ChainState, Vec<u8>) {
    start(b"com.example.app".to_vec(), None)
}

fn versioned_state() -> (apkfetch::chain::ChainState, Vec<u8>) {
    start(b"com.example.app".to_vec(), Some(b"2.0.1".to_vec()))
}

fn detail_state() -> apkfetch::chain::ChainState {
    let (state, _) = searching_state();
    let body = b"<a href=\"/example/app/com.example.app\">x</a>".to_vec();
    match step(state, FetchEvent::Response(200, body)) {
        StepOutcome::Next(ns, _) => ns,
        _ => panic!("search stage should advance"),
    }
}

fn versioned_detail_state() -> apkfetch::chain::ChainState {
    let (state, _) = versioned_state();
    let body = b"<a href=\"/example/app/com.example.app\">x</a>".to_vec();
    match step(state, FetchEvent::Response(200, body)) {
        StepOutcome::Next(ns, _) => ns,
        _ => panic!("search stage should advance"),
    }
}

#[test]
fn synthesized_name_without_version() {
    let id = b"com.example.app".to_vec();
    let name = resolve_filename(None, &id, None);
    assert_eq!(name, b"com.example.app.apk".to_vec());
}

#[test]
fn synthesized_name_with_version() {
    let id = b"com.example.app".to_vec();
    let ver = b"1.2.3".to_vec();
    let name = resolve_filename(None, &id, Some(&ver));
    assert_eq!(name, b"com.example.app-1.2.3.apk".to_vec());
}

#[test]
fn quoted_header_name_wins() {
    let id = b"com.example.app".to_vec();
    let header = b"attachment; filename=\"Foo-1.0-arm64.apk\"".to_vec();
    let name = resolve_filename(Some(&header), &id, None);
    assert_eq!(name, b"Foo-1.0-arm64.apk".to_vec());
}

#[test]
fn quoted_header_overrides_synthesis_with_version() {
    let id = b"com.example.app".to_vec();
    let ver = b"1.2.3".to_vec();
    let header = b"attachment; filename=\"publisher-name.apk\"".to_vec();
    let name = resolve_filename(Some(&header), &id, Some(&ver));
    assert_eq!(name, b"publisher-name.apk".to_vec());
}

#[test]
fn bare_header_name_ends_at_semicolon() {
    let id = b"com.example.app".to_vec();
    let header = b"attachment; filename=foo.apk; size=123".to_vec();
    let name = resolve_filename(Some(&header), &id, None);
    assert_eq!(name, b"foo.apk".to_vec());
}

#[test]
fn header_without_filename_falls_back() {
    let id = b"com.example.app".to_vec();
    let header = b"attachment".to_vec();
    let name = resolve_filename(Some(&header), &id, None);
    assert_eq!(name, b"com.example.app.apk".to_vec());
}

#[test]
fn search_url_shape() {
    let (_, url) = searching_state();
    assert_eq!(url, b"https://apkcombo.com/search/com.example.app/".to_vec());
}

#[test]
fn search_page_hit_resolves_detail_url() {
    let (state, _) = searching_state();
    let body = b"<html>\n<a href=\"/other/app/net.other.app\">other</a>\n<a href=\"/example/app/com.example.app\">the app</a>\n</html>".to_vec();
    match step(state, FetchEvent::Response(200, body)) {
        StepOutcome::Next(ns, url) => {
            assert_eq!(url, b"https://apkcombo.com/example/app/com.example.app".to_vec());
            assert_eq!(ns.stage, Stage::LocatingVersionOrDownloadPage);
            assert_eq!(ns.identifier, b"com.example.app".to_vec());
        }
        _ => panic!("expected the chain to advance"),
    }
}

#[test]
fn search_page_without_hit_is_app_not_found() {
    let (state, _) = searching_state();
    let body = b"<html>\n<a href=\"/other/app/net.other.app\">other</a>\n</html>".to_vec();
    match step(state, FetchEvent::Response(200, body)) {
        StepOutcome::Failed(stage, err) => {
            assert_eq!(stage, Stage::Searching);
            assert_eq!(err, StageError::AppNotFound);
        }
        _ => panic!("expected the chain to fail"),
    }
}

#[test]
fn identifier_on_line_without_link_is_not_found() {
    let (state, _) = searching_state();
    let body = b"<p>com.example.app appears here without any link</p>".to_vec();
    match step(state, FetchEvent::Response(200, body)) {
        StepOutcome::Failed(stage, err) => {
            assert_eq!(stage, Stage::Searching);
            assert_eq!(err, StageError::AppNotFound);
        }
        _ => panic!("expected the chain to fail"),
    }
}

#[test]
fn non_2xx_fails_the_search_stage() {
    let (state, _) = searching_state();
    let body = b"irrelevant".to_vec();
    match step(state, FetchEvent::Response(404, body)) {
        StepOutcome::Failed(stage, err) => {
            assert_eq!(stage, Stage::Searching);
            assert_eq!(err, StageError::Http(404));
        }
        _ => panic!("a non-2xx search response must fail, not advance"),
    }
}

#[test]
fn non_2xx_fails_the_detail_stage_and_hands_out_no_fetch() {
    let state = detail_state();
    let body = b"<a class=\"downloadButton\" href=\"/x\">".to_vec();
    match step(state, FetchEvent::Response(500, body)) {
        StepOutcome::Failed(stage, err) => {
            assert_eq!(stage, Stage::LocatingVersionOrDownloadPage);
            assert_eq!(err, StageError::Http(500));
        }
        _ => panic!("a non-2xx detail response must fail, not advance"),
    }
}

#[test]
fn transport_failure_fails_the_current_stage() {
    let (state, _) = searching_state();
    match step(state, FetchEvent::Failure(b"connection timed out".to_vec())) {
        StepOutcome::Failed(stage, err) => {
            assert_eq!(stage, Stage::Searching);
            assert_eq!(err, StageError::Transport(b"connection timed out".to_vec()));
        }
        _ => panic!("a transport failure must fail the stage"),
    }
}

#[test]
fn latest_download_button_is_followed() {
    let state = detail_state();
    let body = b"<a class=\"downloadButton\" href=\"/download/com.example.app\">Download</a>".to_vec();
    match step(state, FetchEvent::Response(200, body)) {
        StepOutcome::Next(ns, url) => {
            assert_eq!(url, b"https://apkcombo.com/download/com.example.app".to_vec());
            assert_eq!(ns.stage, Stage::LocatingFinalBinaryUrl);
        }
        _ => panic!("expected the chain to advance"),
    }
}

#[test]
fn absolute_download_link_is_kept() {
    let state = detail_state();
    let body =
        b"<a class=\"downloadButton\" href=\"https://dl.example.com/com.example.app\">Download</a>"
            .to_vec();
    match step(state, FetchEvent::Response(200, body)) {
        StepOutcome::Next(_, url) => {
            assert_eq!(url, b"https://dl.example.com/com.example.app".to_vec());
        }
        _ => panic!("expected the chain to advance"),
    }
}

#[test]
fn missing_download_button_is_link_not_found() {
    let state = detail_state();
    let body = b"<html>no affordance here</html>".to_vec();
    match step(state, FetchEvent::Response(200, body)) {
        StepOutcome::Failed(stage, err) => {
            assert_eq!(stage, Stage::LocatingVersionOrDownloadPage);
            assert_eq!(err, StageError::DownloadLinkNotFound);
        }
        _ => panic!("expected the chain to fail"),
    }
}

#[test]
fn version_beside_affordance_is_followed() {
    let state = versioned_detail_state();
    let body = b"<li>2.2.0 <a class=\"downloadButton\" href=\"/d/new\">get</a></li>\n<li>2.0.1 <a class=\"downloadButton\" href=\"/d/old\">get</a></li>".to_vec();
    match step(state, FetchEvent::Response(200, body)) {
        StepOutcome::Next(ns, url) => {
            assert_eq!(url, b"https://apkcombo.com/d/old".to_vec());
            assert_eq!(ns.stage, Stage::LocatingFinalBinaryUrl);
        }
        _ => panic!("expected the chain to advance"),
    }
}

#[test]
fn version_without_affordance_is_version_not_found() {
    let state = versioned_detail_state();
    let body = b"<li>2.0.1 is mentioned here</li>\n<li>2.2.0 <a class=\"downloadButton\" href=\"/d/new\">get</a></li>".to_vec();
    match step(state, FetchEvent::Response(200, body)) {
        StepOutcome::Failed(stage, err) => {
            assert_eq!(stage, Stage::LocatingVersionOrDownloadPage);
            assert_eq!(err, StageError::VersionNotFound);
        }
        _ => panic!("a version without the download affordance must not fall back"),
    }
}

#[test]
fn final_binary_url_is_resolved() {
    let state = versioned_detail_state();
    let body = b"<li>2.0.1 <a class=\"downloadButton\" href=\"/d/old\">get</a></li>".to_vec();
    let ns = match step(state, FetchEvent::Response(200, body)) {
        StepOutcome::Next(ns, _) => ns,
        _ => panic!("expected the chain to advance"),
    };
    let page =
        b"<a href=\"https://cdn.example.com/files/app-2.0.1.apk?token=abc\">direct</a>".to_vec();
    match step(ns, FetchEvent::Response(200, page)) {
        StepOutcome::Resolved(url) => {
            assert_eq!(url, b"https://cdn.example.com/files/app-2.0.1.apk?token=abc".to_vec());
        }
        _ => panic!("expected the chain to resolve"),
    }
}

#[test]
fn download_page_without_binary_url_fails() {
    let state = detail_state();
    let body = b"<a class=\"downloadButton\" href=\"/d/x\">get</a>".to_vec();
    let ns = match step(state, FetchEvent::Response(200, body)) {
        StepOutcome::Next(ns, _) => ns,
        _ => panic!("expected the chain to advance"),
    };
    let page = b"<a href=\"/relative/only\">no apk here</a>".to_vec();
    match step(ns, FetchEvent::Response(200, page)) {
        StepOutcome::Failed(stage, err) => {
            assert_eq!(stage, Stage::LocatingFinalBinaryUrl);
            assert_eq!(err, StageError::FinalUrlNotFound);
        }
        _ => panic!("expected the chain to fail"),
    }
}

#[test]
fn first_match_in_document_order_wins() {
    let (state, _) = searching_state();
    let body =
        b"<a href=\"/first/app/com.example.app\">a</a> <a href=\"/second/app/com.example.app\">b</a>"
            .to_vec();
    match step(state, FetchEvent::Response(200, body)) {
        StepOutcome::Next(_, url) => {
            assert_eq!(url, b"https://apkcombo.com/first/app/com.example.app".to_vec());
        }
        _ => panic!("expected the chain to advance"),
    }
}

#[test]
fn binary_response_names_the_file() {
    let id = b"com.example.app".to_vec();
    let header = b"attachment; filename=\"app-2.0.1-arm64.apk\"".to_vec();
    match binary_filename(200, Some(&header), &id, None) {
        Ok(name) => assert_eq!(name, b"app-2.0.1-arm64.apk".to_vec()),
        Err(_) => panic!("a 2xx binary response must yield a filename"),
    }
}

#[test]
fn binary_response_without_header_synthesizes() {
    let id = b"com.example.app".to_vec();
    let ver = b"2.0.1".to_vec();
    match binary_filename(204, None, &id, Some(&ver)) {
        Ok(name) => assert_eq!(name, b"com.example.app-2.0.1.apk".to_vec()),
        Err(_) => panic!("a 2xx binary response must yield a filename"),
    }
}

#[test]
fn binary_error_status_fails_the_fetch() {
    let id = b"com.example.app".to_vec();
    match binary_filename(403, None, &id, None) {
        Err((stage, err)) => {
            assert_eq!(stage, Stage::FetchingBinary);
            assert_eq!(err, StageError::Http(403));
        }
        Ok(_) => panic!("a non-2xx binary response must fail"),
    }
}

#[test]
fn link_on_line_without_identifier_is_skipped() {
    let (state, _) = searching_state();
    let body = b"<a href=\"/unrelated/app/net.something.else\">first</a>\n<a href=\"/example/app/com.example.app\">ours</a>".to_vec();
    match step(state, FetchEvent::Response(200, body)) {
        StepOutcome::Next(_, url) => {
            assert_eq!(url, b"https://apkcombo.com/example/app/com.example.app".to_vec());
        }
        _ => panic!("expected the chain to advance"),
    }
}

#[test]
fn crlf_line_endings_are_stripped_before_matching() {
    let (state, _) = searching_state();
    let body = b"<p>x</p>\r\n<a href=\"/example/app/com.example.app\">ours</a>\r\n".to_vec();
    match step(state, FetchEvent::Response(200, body)) {
        StepOutcome::Next(_, url) => {
            assert_eq!(url, b"https://apkcombo.com/example/app/com.example.app".to_vec());
        }
        _ => panic!("expected the chain to advance"),
    }
}

