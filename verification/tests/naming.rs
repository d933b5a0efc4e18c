use social_media_downloader::naming::ensure_unique_filename;
use social_media_downloader::naming::generate_filename;
use social_media_downloader::naming::sanitize_username;

#[test]
fn sanitize_lowercases_and_filters() {
    assert_eq!(sanitize_username("User.Name!"), "username");
    assert_eq!(sanitize_username("A_b-C9"), "a_b-c9");
    assert_eq!(sanitize_username("...!!!"), "");
    assert_eq!(sanitize_username(""), "");
}

#[test]
fn sanitize_is_idempotent_on_samples() {
    let samples = ["User.Name!", "MiXeD-case_42", "", "ünïcode", "already-clean_1"];
    for s in samples {
        let once = sanitize_username(s);
        let twice = sanitize_username(&once);
        assert_eq!(once, twice);
        assert!(once.chars().all(|c| c.is_ascii_lowercase()
            || c.is_ascii_digit()
            || c == '_'
            || c == '-'));
    }
}

#[test]
fn filename_without_index() {
    assert_eq!(generate_filename("User", "ABC123", "jpg", None), "user_ABC123.jpg");
}

#[test]
fn filename_with_index_is_zero_padded() {
    assert_eq!(generate_filename("user", "ABC123", "jpg", Some(3)), "user_ABC123_03.jpg");
    assert_eq!(generate_filename("user", "ABC123", "mp4", Some(12)), "user_ABC123_12.mp4");
}

#[test]
fn fresh_directory_keeps_the_name() {
    let existing: Vec<String> = Vec::new();
    let r = ensure_unique_filename(&existing, "user_ABC.jpg");
    assert_eq!(r, "user_ABC.jpg");
}

#[test]
fn collision_growth_probes_next_free() {
    let existing = vec!["foo.jpg".to_string(), "foo__dup2.jpg".to_string()];
    let r = ensure_unique_filename(&existing, "foo.jpg");
    assert_eq!(r, "foo__dup3.jpg");
}

#[test]
fn single_collision_takes_first_probe() {
    let existing = vec!["foo.jpg".to_string()];
    let r = ensure_unique_filename(&existing, "foo.jpg");
    assert_eq!(r, "foo__dup2.jpg");
}

#[test]
fn collision_without_extension() {
    let existing = vec!["data".to_string(), "data__dup2".to_string()];
    let r = ensure_unique_filename(&existing, "data");
    assert_eq!(r, "data__dup3");
}
