use social_media_downloader::json::Json;
use social_media_downloader::media::ResolveError;
use social_media_downloader::resolver::build_media_items;
use social_media_downloader::resolver::extract_author;
use social_media_downloader::resolver::InstagramProvider;
use social_media_downloader::resolver::Provider;

const POST_URL: &str = "https://www.instagram.com/p/AbC12xY/";

fn page(block: &str) -> String {
    format!(
        "<html><head><script type=\"application/ld+json\">{}</script></head><body></body></html>",
        block
    )
}

#[test]
fn extracts_shortcode_from_post_url() {
    let p = InstagramProvider::new();
    assert_eq!(p.extract_shortcode(POST_URL).as_deref(), Some("AbC12xY"));
    assert_eq!(
        p.extract_shortcode("https://www.instagram.com/reel/K_y-9/extra").as_deref(),
        Some("K_y-9")
    );
    assert_eq!(p.extract_shortcode("https://example.com/p/AbC/"), None);
    assert_eq!(p.extract_shortcode("https://www.instagram.com/stories/xyz/"), None);
}

#[test]
fn matching_requires_the_host_to_be_the_provider_domain() {
    let p = InstagramProvider::new();
    // The domain must be the URL's host, not a substring anywhere.
    assert!(!p.matches("https://notinstagram.com/p/Abc/"));
    assert!(!p.matches("https://evil.com/instagram.com/p/Abc/"));
    assert!(!p.matches("https://evil.com/?next=instagram.com/p/Abc"));
    // A port, userinfo, uppercase, a subdomain, or no scheme still match.
    assert_eq!(
        p.extract_shortcode("https://instagram.com:443/p/Abc/").as_deref(),
        Some("Abc")
    );
    assert_eq!(
        p.extract_shortcode("https://user@instagram.com/p/Abc").as_deref(),
        Some("Abc")
    );
    assert_eq!(
        p.extract_shortcode("https://Instagram.com/reel/Xy-2/").as_deref(),
        Some("Xy-2")
    );
    assert_eq!(p.extract_shortcode("instagram.com/p/Abc").as_deref(), Some("Abc"));
    // The key must come from the path, not the query.
    assert!(!p.matches("https://instagram.com/?x=/p/Abc"));
    // The path must start with the post prefix.
    assert!(!p.matches("https://instagram.com/x/p/Abc"));
}

#[test]
fn matches_follows_extraction() {
    let p = InstagramProvider::new();
    assert!(p.matches(POST_URL));
    assert!(!p.matches("https://example.com/p/AbC/"));
    assert_eq!(p.id(), "instagram");
}

#[test]
fn post_page_url_is_canonical() {
    let p = InstagramProvider::new();
    assert_eq!(p.post_page_url("AbC12xY"), "https://www.instagram.com/p/AbC12xY/");
}

#[test]
fn carousel_yields_indexed_images() {
    let p = InstagramProvider::new();
    let html = page(
        "{\"@type\":\"ImageObject\",\"author\":{\"identifier\":{\"value\":\"User.Name\"}},\
         \"image\":[\"u1\",\"u2\",\"u3\"]}",
    );
    let r = p.resolve(POST_URL, &html).unwrap();
    assert_eq!(r.username, "username");
    assert_eq!(r.shortcode, "AbC12xY");
    assert_eq!(r.media_items.len(), 3);
    for (k, item) in r.media_items.iter().enumerate() {
        assert_eq!(item.media_type, "image");
        assert_eq!(item.extension, "jpg");
        assert_eq!(item.index, Some(k + 1));
        assert_eq!(item.download_url, format!("u{}", k + 1));
        assert_eq!(item.preview_url, item.download_url);
        assert_eq!(item.id, format!("AbC12xY_{}", k + 1));
    }
}

#[test]
fn mixed_single_image_and_video() {
    let p = InstagramProvider::new();
    let html = page(
        "{\"@type\":\"ImageObject\",\"author\":\"plainuser\",\
         \"image\":\"u1\",\"video\":\"v1\"}",
    );
    let r = p.resolve(POST_URL, &html).unwrap();
    assert_eq!(r.username, "plainuser");
    assert_eq!(r.media_items.len(), 2);
    let img = &r.media_items[0];
    let vid = &r.media_items[1];
    assert_eq!(img.media_type, "image");
    assert_eq!(img.extension, "jpg");
    assert_eq!(img.index, None);
    assert_eq!(img.download_url, "u1");
    assert_eq!(vid.media_type, "video");
    assert_eq!(vid.extension, "mp4");
    assert_eq!(vid.index, None);
    assert_eq!(vid.download_url, "v1");
    assert_ne!(img.id, vid.id);
}

#[test]
fn single_image_uses_bare_post_key_as_id() {
    let p = InstagramProvider::new();
    let html = page("{\"@type\":\"ImageObject\",\"author\":\"u\",\"image\":\"pic\"}");
    let r = p.resolve(POST_URL, &html).unwrap();
    assert_eq!(r.media_items.len(), 1);
    assert_eq!(r.media_items[0].id, "AbC12xY");
    assert_eq!(r.media_items[0].index, None);
}

#[test]
fn missing_block_is_no_structured_data() {
    let p = InstagramProvider::new();
    let html = "<html><head></head><body>nothing here</body></html>";
    assert_eq!(p.resolve(POST_URL, html).unwrap_err(), ResolveError::NoStructuredData);
}

#[test]
fn wrong_type_block_is_no_structured_data() {
    let p = InstagramProvider::new();
    let html = page("{\"@type\":\"VideoObject\",\"author\":\"u\",\"image\":\"pic\"}");
    assert_eq!(p.resolve(POST_URL, &html).unwrap_err(), ResolveError::NoStructuredData);
}

#[test]
fn block_without_media_is_no_media_found() {
    let p = InstagramProvider::new();
    let html = page("{\"@type\":\"ImageObject\",\"author\":\"u\"}");
    assert_eq!(p.resolve(POST_URL, &html).unwrap_err(), ResolveError::NoMediaFound);
}

#[test]
fn block_without_author_is_missing_author() {
    let p = InstagramProvider::new();
    let html = page("{\"@type\":\"ImageObject\",\"image\":\"pic\"}");
    assert_eq!(p.resolve(POST_URL, &html).unwrap_err(), ResolveError::MissingAuthor);
}

#[test]
fn bad_url_is_invalid_url() {
    let p = InstagramProvider::new();
    let html = page("{\"@type\":\"ImageObject\",\"author\":\"u\",\"image\":\"pic\"}");
    assert_eq!(
        p.resolve("https://example.com/p/AbC/", &html).unwrap_err(),
        ResolveError::InvalidUrl
    );
}

#[test]
fn first_image_object_block_wins() {
    let p = InstagramProvider::new();
    let html = format!(
        "<html><head>\
         <script type=\"application/ld+json\">not json at all</script>\
         <script type=\"application/ld+json\">{{\"@type\":\"Other\"}}</script>\
         <script type=\"application/ld+json\">{{\"@type\":\"ImageObject\",\
         \"author\":\"someone\",\"image\":\"first\"}}</script>\
         </head><body></body></html>"
    );
    let r = p.resolve(POST_URL, &html).unwrap();
    assert_eq!(r.media_items.len(), 1);
    assert_eq!(r.media_items[0].download_url, "first");
}

#[test]
fn author_identifier_value_wins_over_fallback() {
    let block = Json::Obj(vec![(
        "author".to_string(),
        Json::Obj(vec![
            (
                "identifier".to_string(),
                Json::Obj(vec![("value".to_string(), Json::Str("deep_name".to_string()))]),
            ),
            ("name".to_string(), Json::Str("shallow".to_string())),
        ]),
    )]);
    assert_eq!(extract_author(&block).map(|s| s.as_str()), Some("deep_name"));

    let plain = Json::Obj(vec![("author".to_string(), Json::Str("plain".to_string()))]);
    assert_eq!(extract_author(&plain).map(|s| s.as_str()), Some("plain"));

    let broken = Json::Obj(vec![("author".to_string(), Json::Num)]);
    assert!(extract_author(&broken).is_none());
}

#[test]
fn media_list_skips_non_string_array_entries() {
    let block = Json::Obj(vec![(
        "image".to_string(),
        Json::Arr(vec![
            Json::Str("u1".to_string()),
            Json::Num,
            Json::Str("u2".to_string()),
        ]),
    )]);
    let items = build_media_items(&block, &"KEY".to_string());
    assert_eq!(items.len(), 2);
    assert_eq!(items[0].download_url, "u1");
    assert_eq!(items[0].index, Some(1));
    assert_eq!(items[1].download_url, "u2");
    assert_eq!(items[1].index, Some(2));
    assert_eq!(items[0].id, "KEY_1");
    assert_eq!(items[1].id, "KEY_2");
}

#[test]
fn image_array_with_video_string_numbers_across_kinds() {
    let block = Json::Obj(vec![
        (
            "image".to_string(),
            Json::Arr(vec![Json::Str("u1".to_string()), Json::Str("u2".to_string())]),
        ),
        ("video".to_string(), Json::Str("v1".to_string())),
    ]);
    let items = build_media_items(&block, &"KEY".to_string());
    assert_eq!(items.len(), 3);
    assert_eq!(items[0].index, Some(1));
    assert_eq!(items[1].index, Some(2));
    assert_eq!(items[2].index, None);
    assert_eq!(items[2].media_type, "video");
    assert_eq!(items[2].id, "KEY_3");
}
