use simple_pdf_generator::{
    set_no_sandbox, RenderSession, SessionAction, SessionState, SimplePdfGeneratorError,
};

#[test]
fn many_requests_launch_once() {
    let mut s = RenderSession::new();
    let actions: Vec<SessionAction> = (0..10).map(|_| s.acquire()).collect();
    let launches = actions.iter().filter(|a| matches!(a, SessionAction::Launch { .. })).count();
    assert_eq!(launches, 1);
    assert_eq!(actions[0], SessionAction::Launch { no_sandbox: false });
    assert!(actions[1..].iter().all(|a| *a == SessionAction::Wait));
    s.launch_finished(true);
    assert_eq!(s.acquire(), SessionAction::UseExisting);
}

#[test]
fn failed_launch_lets_the_next_request_retry() {
    let mut s = RenderSession::new();
    assert!(matches!(s.acquire(), SessionAction::Launch { .. }));
    s.launch_finished(false);
    assert_eq!(s.state, SessionState::Uninitialized);
    assert!(matches!(s.acquire(), SessionAction::Launch { .. }));
}

#[test]
fn closed_connection_is_relaunched() {
    let mut s = RenderSession::new();
    s.acquire();
    s.launch_finished(true);
    s.connection_closed();
    assert_eq!(s.state, SessionState::Uninitialized);
    assert!(matches!(s.acquire(), SessionAction::Launch { .. }));
}

#[test]
fn no_sandbox_applies_to_launch() {
    let mut s = RenderSession::new();
    set_no_sandbox(&mut s, true);
    assert!(s.no_sandbox);
    assert_eq!(s.acquire(), SessionAction::Launch { no_sandbox: true });
}

#[test]
fn error_messages() {
    let e = SimplePdfGeneratorError::IoError("Cannot read the asset".to_string());
    assert_eq!(e.message(), "IO error: Cannot read the asset");
    let e = SimplePdfGeneratorError::BrowserError("x".to_string());
    assert_eq!(e.message(), "Browser error: x");
    let e = SimplePdfGeneratorError::PdfError("y".to_string());
    assert_eq!(e.message(), "PDF error: y");
}
