use dprint::downloads::not_found_message;
use dprint::downloads::too_many_redirects_message;
use dprint::downloads::DownloadedFile;
use dprint::downloads::RedirectOutcome;
use dprint::downloads::RedirectState;

fn redirect(location: &str) -> Option<DownloadedFile> {
    Some(DownloadedFile { headers: vec![("location".to_string(), location.to_string())], content: vec![] })
}

fn file(content: &[u8]) -> Option<DownloadedFile> {
    Some(DownloadedFile { headers: vec![("content-type".to_string(), "x".to_string())], content: content.to_vec() })
}

#[test]
fn should_follow_same_origin_redirect_with_auth() {
    let mut state = RedirectState::new("https://plugins.dprint.dev/a/plugin.wasm", Some("token"));
    assert_eq!(state.request(), ("https://plugins.dprint.dev/a/plugin.wasm".to_string(), Some("token".to_string())));
    assert!(matches!(state.on_response(redirect("../b/plugin.wasm")), RedirectOutcome::Follow));
    assert_eq!(state.request(), ("https://plugins.dprint.dev/b/plugin.wasm".to_string(), Some("token".to_string())));
    match state.on_response(file(b"wasm")) {
        RedirectOutcome::Finished { url, file } => {
            assert_eq!(url, "https://plugins.dprint.dev/b/plugin.wasm");
            assert_eq!(file.unwrap().content, b"wasm".to_vec());
        }
        _ => panic!(),
    }
}

#[test]
fn should_drop_auth_on_cross_origin_redirect() {
    let mut state = RedirectState::new("https://plugins.dprint.dev/plugin.wasm", Some("token"));
    assert!(matches!(state.on_response(redirect("https://cdn.example.com/plugin.wasm")), RedirectOutcome::Follow));
    assert_eq!(state.request(), ("https://cdn.example.com/plugin.wasm".to_string(), None));
    // coming back to the original origin does not restore the credentials
    assert!(matches!(state.on_response(redirect("https://plugins.dprint.dev/other.wasm")), RedirectOutcome::Follow));
    assert_eq!(state.request().1, None);
    // a different port is another origin too
    let mut state = RedirectState::new("https://plugins.dprint.dev/plugin.wasm", Some("token"));
    state.on_response(redirect("https://plugins.dprint.dev:8443/plugin.wasm"));
    assert_eq!(state.request().1, None);
}

#[test]
fn should_finish_on_not_found() {
    let mut state = RedirectState::new("https://x.dev/p.wasm", None);
    match state.on_response(None) {
        RedirectOutcome::Finished { url, file } => {
            assert_eq!(url, "https://x.dev/p.wasm");
            assert!(file.is_none());
            assert_eq!(not_found_message(&url), "Error downloading https://x.dev/p.wasm - 404 Not Found");
        }
        _ => panic!(),
    }
}

#[test]
fn should_stop_after_too_many_redirects() {
    let mut state = RedirectState::new("https://x.dev/0", None);
    for i in 1..11 {
        assert!(matches!(state.on_response(redirect(&format!("/{}", i))), RedirectOutcome::Follow));
    }
    match state.on_response(redirect("/11")) {
        RedirectOutcome::TooManyRedirects { url } => {
            assert_eq!(url, "https://x.dev/0");
            assert_eq!(too_many_redirects_message(&url), "Too many redirects for https://x.dev/0");
        }
        _ => panic!(),
    }
}

#[test]
fn should_report_bad_location() {
    let mut state = RedirectState::new("https://x.dev/0", None);
    match state.on_response(redirect("http://[::1")) {
        RedirectOutcome::BadLocation { message } => assert!(!message.is_empty()),
        _ => panic!(),
    }
}
