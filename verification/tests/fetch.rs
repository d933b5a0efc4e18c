use social_media_downloader::fetch::http_success;
use social_media_downloader::fetch::next_action;
use social_media_downloader::fetch::step_fetch;
use social_media_downloader::fetch::temp_filename;
use social_media_downloader::fetch::FetchAction;
use social_media_downloader::fetch::FetchEvent;
use social_media_downloader::fetch::FetchPhase;
use social_media_downloader::media::FetchError;

/// Drives the protocol over a list of events, recording every action the
/// state machine asks for.
fn drive(events: &[FetchEvent]) -> (FetchPhase, Vec<FetchAction>) {
    let mut phase = FetchPhase::Start;
    let mut actions = Vec::new();
    for e in events {
        actions.push(next_action(&phase));
        phase = step_fetch(&phase, e);
    }
    (phase, actions)
}

#[test]
fn full_run_reaches_done_with_rename_last() {
    let (phase, actions) = drive(&[
        FetchEvent::RequestOk(200),
        FetchEvent::StepOk,
        FetchEvent::StepOk,
        FetchEvent::StepOk,
        FetchEvent::StepOk,
    ]);
    assert_eq!(phase, FetchPhase::Done);
    assert_eq!(
        actions,
        vec![
            FetchAction::SendRequest,
            FetchAction::CreateTemp,
            FetchAction::WriteBody,
            FetchAction::SyncTemp,
            FetchAction::RenameTemp,
        ]
    );
}

#[test]
fn interrupted_write_never_renames() {
    // Failure between temp-file creation and the rename: the rename is
    // never issued, so nothing lands at the destination path.
    let (phase, actions) = drive(&[
        FetchEvent::RequestOk(200),
        FetchEvent::StepOk,
        FetchEvent::StepErr,
        FetchEvent::StepOk,
    ]);
    assert_eq!(phase, FetchPhase::Failed(FetchError::IoFailure));
    assert!(!actions.contains(&FetchAction::RenameTemp));
}

#[test]
fn non_2xx_status_fails_with_that_code() {
    let (phase, actions) = drive(&[FetchEvent::RequestOk(404), FetchEvent::StepOk]);
    assert_eq!(phase, FetchPhase::Failed(FetchError::HttpStatus(404)));
    assert_eq!(actions, vec![FetchAction::SendRequest, FetchAction::Stop]);
    assert!(http_success(200));
    assert!(http_success(299));
    assert!(!http_success(199));
    assert!(!http_success(300));
}

#[test]
fn transport_failure_is_terminal() {
    let (phase, _) = drive(&[FetchEvent::RequestErr]);
    assert_eq!(phase, FetchPhase::Failed(FetchError::TransportFailure));
    assert_eq!(next_action(&phase), FetchAction::Stop);
}

#[test]
fn temp_name_replaces_the_extension() {
    assert_eq!(temp_filename("user_AbC.jpg"), "user_AbC.tmp");
    assert_eq!(temp_filename("noext"), "noext.tmp");
    assert_eq!(temp_filename("a.b.c"), "a.b.tmp");
}
