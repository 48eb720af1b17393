use moltis_agents::chat::ContentPart;
use moltis_agents::media::{
    document_absolute_path_from_media_ref, image_url_to_content_part, mime_from_filename,
    parse_data_uri, session_media_image_part, truncate_url, SessionMedia,
};
use moltis_agents::text::{is_blank, str_eq, trimmed};
use moltis_agents::tool_result::{maybe_limit_tool_result_content, sanitize_tool_result};

#[test]
fn mime_types_follow_the_extension() {
    assert_eq!(mime_from_filename("photo.png"), "image/png");
    assert_eq!(mime_from_filename("a.b.JPG"), "image/jpeg");
    assert_eq!(mime_from_filename("x.jpeg"), "image/jpeg");
    assert_eq!(mime_from_filename("anim.GiF"), "image/gif");
    assert_eq!(mime_from_filename("pic.webp"), "image/webp");
    assert_eq!(mime_from_filename("logo.svg"), "image/svg+xml");
    assert_eq!(mime_from_filename("image"), "image/jpeg");
    assert_eq!(mime_from_filename("archive.tar"), "image/jpeg");
    assert_eq!(mime_from_filename("trailing."), "image/jpeg");
    assert_eq!(mime_from_filename("png"), "image/png");
}

#[test]
fn mime_guess_ignores_case_and_is_always_an_image() {
    for name in ["A.PNG", "b.Svg", "c.WebP", "noext", "d.TXT"] {
        assert_eq!(mime_from_filename(name), mime_from_filename(&name.to_ascii_lowercase()));
        assert!(mime_from_filename(name).starts_with("image/"));
    }
}

#[test]
fn urls_are_truncated_to_eighty_characters() {
    let long: String = std::iter::repeat('é').take(100).collect();
    let t = truncate_url(&long);
    assert_eq!(t.chars().count(), 80);
    assert!(long.starts_with(&t));
    assert_eq!(truncate_url("short"), "short");
}

#[test]
fn data_uris_are_split_at_the_first_separator() {
    assert_eq!(
        parse_data_uri("data:image/png;base64,abc123"),
        Some(("image/png".to_string(), "abc123".to_string()))
    );
    assert_eq!(
        parse_data_uri("data:;base64,;base64,x"),
        Some((String::new(), ";base64,x".to_string()))
    );
    assert_eq!(parse_data_uri("data:image/png,abc"), None);
    assert_eq!(parse_data_uri("https://example.com/a.png"), None);
    assert_eq!(parse_data_uri("data:"), None);
}

#[test]
fn data_uri_round_trip() {
    for (mt, data) in [("image/webp", "UklG"), ("", ""), ("text/plain;charset=x", "aGk=")] {
        let url = format!("data:{mt};base64,{data}");
        assert_eq!(parse_data_uri(&url), Some((mt.to_string(), data.to_string())));
    }
}

#[test]
fn session_urls_take_the_loaded_image() {
    let mut media = SessionMedia::new();
    let part = ContentPart::Image { media_type: "image/png".into(), data: "AAAA".into() };
    media.images.push(("/api/sessions/main/media/a.png".to_string(), part));
    assert_eq!(
        image_url_to_content_part("/api/sessions/main/media/a.png", &media),
        Some(ContentPart::Image { media_type: "image/png".into(), data: "AAAA".into() })
    );
    assert_eq!(image_url_to_content_part("/api/sessions/main/media/b.png", &media), None);
}

#[test]
fn session_images_are_base64_encoded() {
    let part = session_media_image_part(Some("photo.PNG"), b"hello", None);
    assert_eq!(part, ContentPart::Image { media_type: "image/png".into(), data: "aGVsbG8=".into() });
    let part = session_media_image_part(None, b"hi", None);
    assert_eq!(part, ContentPart::Image { media_type: "image/jpeg".into(), data: "aGk=".into() });
    let part = session_media_image_part(Some("a.gif"), b"raw", Some((b"opt".to_vec(), "image/webp".into())));
    assert_eq!(part, ContentPart::Image { media_type: "image/webp".into(), data: "b3B0".into() });
}

#[test]
fn document_paths_lie_under_the_sessions_directory() {
    assert_eq!(document_absolute_path_from_media_ref("r/a.pdf", "/data"), "/data/sessions/r/a.pdf");
    assert_eq!(document_absolute_path_from_media_ref("r", "/data/"), "/data/sessions/r");
    assert_eq!(document_absolute_path_from_media_ref("r", ""), "sessions/r");
    assert_eq!(document_absolute_path_from_media_ref("/abs/x", "/data"), "/abs/x");
    let joined = std::path::Path::new("/data").join("sessions").join("r/a.pdf");
    assert_eq!(document_absolute_path_from_media_ref("r/a.pdf", "/data"), joined.to_string_lossy());
}

#[test]
fn sanitize_keeps_whole_characters_within_the_byte_budget() {
    assert_eq!(sanitize_tool_result("abc", 10), "abc");
    assert_eq!(sanitize_tool_result("abc", 2), "ab");
    assert_eq!(sanitize_tool_result("€uro", 2), "");
    assert_eq!(sanitize_tool_result("€uro", 3), "€");
    assert_eq!(sanitize_tool_result("a😀b", 4), "a");
    assert_eq!(sanitize_tool_result("a😀b", 5), "a😀");
    assert!(sanitize_tool_result("ééééé", 7).len() <= 7);
    assert_eq!(maybe_limit_tool_result_content("long text".into(), None), "long text");
    assert_eq!(maybe_limit_tool_result_content("long text".into(), Some(4)), "long");
}

#[test]
fn text_helpers() {
    assert_eq!(trimmed("\u{2003} a b \n"), "a b");
    assert!(is_blank(" \t\n"));
    assert!(!is_blank(" x "));
    assert!(str_eq("é", "é"));
    assert!(!str_eq("é", "e"));
}
