use social_media_downloader::engine::provider_subdir;
use social_media_downloader::engine::reserve_filenames;
use social_media_downloader::engine::start_event;
use social_media_downloader::engine::terminal_event;
use social_media_downloader::engine::EngineState;
use social_media_downloader::engine::ItemStatus;
use social_media_downloader::media::DownloadRequest;
use social_media_downloader::media::MediaItem;

fn item(id: &str, kind: &str, ext: &str, index: Option<usize>) -> MediaItem {
    MediaItem {
        id: id.to_string(),
        media_type: kind.to_string(),
        preview_url: format!("https://cdn.example/{id}"),
        download_url: format!("https://cdn.example/{id}"),
        extension: ext.to_string(),
        index,
    }
}

#[test]
fn gate_bounds_in_flight_fetches() {
    // Five items, a limit of two: at no point may a third fetch start.
    let mut e = EngineState::new(5, 2);
    assert!(e.can_start());
    e.start_item(0);
    assert!(e.can_start());
    e.start_item(1);
    assert!(!e.can_start());
    assert_eq!(e.in_flight, 2);
    e.finish_item(0, true);
    assert!(e.can_start());
    e.start_item(2);
    assert!(!e.can_start());
    assert_eq!(e.in_flight, 2);
}

#[test]
fn one_failure_leaves_siblings_alone() {
    // Five items; item 1 fails; the others still complete, and every item
    // reaches exactly one terminal state.
    let mut e = EngineState::new(5, 2);
    let mut queued: Vec<usize> = (0..5).collect();
    let mut terminal_events = 0;
    while !e.all_terminal() {
        if e.can_start() && !queued.is_empty() {
            let i = queued.remove(0);
            e.start_item(i);
        } else {
            // finish the lowest in-flight item
            let i = e
                .statuses
                .iter()
                .position(|s| *s == ItemStatus::InProgress)
                .unwrap();
            e.finish_item(i, i != 1);
            terminal_events += 1;
        }
    }
    assert_eq!(terminal_events, 5);
    assert_eq!(
        e.statuses,
        vec![
            ItemStatus::Completed,
            ItemStatus::Failed,
            ItemStatus::Completed,
            ItemStatus::Completed,
            ItemStatus::Completed,
        ]
    );
    assert_eq!(e.in_flight, 0);
}

#[test]
fn progress_events_carry_status_and_name() {
    let id = "AbC_1".to_string();
    let name = "user_AbC_01.jpg".to_string();
    let s = start_event(&id, &name);
    assert_eq!(s.item_id, "AbC_1");
    assert_eq!(s.status, "downloading");
    assert_eq!(s.progress, 0);
    assert_eq!(s.filename.as_deref(), Some("user_AbC_01.jpg"));
    assert!(s.error.is_none());

    let done = terminal_event(&id, &name, None);
    assert_eq!(done.status, "completed");
    assert_eq!(done.progress, 1);
    assert_eq!(done.filename.as_deref(), Some("user_AbC_01.jpg"));
    assert!(done.error.is_none());

    let failed = terminal_event(&id, &name, Some("unreachable".to_string()));
    assert_eq!(failed.status, "failed");
    assert_eq!(failed.progress, 0);
    assert!(failed.filename.is_none());
    assert_eq!(failed.error.as_deref(), Some("unreachable"));
}

#[test]
fn reserved_names_never_collide() {
    // Two items with the same base name (no sequence index) get distinct
    // files even against an empty directory.
    let request = DownloadRequest {
        username: "user".to_string(),
        shortcode: "AbC".to_string(),
        media_items: vec![item("AbC_1", "image", "jpg", None), item("AbC_2", "image", "jpg", None)],
    };
    let mut existing: Vec<String> = vec!["user_AbC.mp4".to_string()];
    let names = reserve_filenames(&request, &mut existing);
    assert_eq!(names, vec!["user_AbC.jpg".to_string(), "user_AbC__dup2.jpg".to_string()]);
    assert_eq!(
        existing,
        vec![
            "user_AbC.mp4".to_string(),
            "user_AbC.jpg".to_string(),
            "user_AbC__dup2.jpg".to_string(),
        ]
    );
}

#[test]
fn files_land_in_the_provider_namespace() {
    assert_eq!(provider_subdir("instagram"), "social-media-downloader/instagram");
}
