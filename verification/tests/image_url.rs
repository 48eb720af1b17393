use moltis_agents::chat::{ChatMessage, ContentPart, UserContent};
use moltis_agents::json::JsonValue;
use moltis_agents::media::{image_url_to_content_part, SessionMedia};

#[test]
fn image_url_to_content_part_parses_data_uri() {
    let part = image_url_to_content_part("data:image/png;base64,abc123", &SessionMedia::new()).unwrap();
    match part {
        ContentPart::Image { media_type, data } => {
            assert_eq!(media_type, "image/png");
            assert_eq!(data, "abc123");
        },
        ContentPart::Text(_) => panic!("expected image part"),
    }
}

const TINY_PNG: &[u8] = &[
    0x89, 0x50, 0x4E, 0x47, 0x0D, 0x0A, 0x1A, 0x0A, 0x00, 0x00, 0x00, 0x0D, 0x49, 0x48, 0x44,
    0x52, 0x00, 0x00, 0x00, 0x01, 0x00, 0x00, 0x00, 0x01, 0x08, 0x06, 0x00, 0x00, 0x00, 0x1F,
    0x15, 0xC4, 0x89, 0x00, 0x00, 0x00, 0x0A, 0x49, 0x44, 0x41, 0x54, 0x78, 0x9C, 0x63, 0x00,
    0x01, 0x00, 0x00, 0x05, 0x00, 0x01, 0x0D, 0x0A, 0x2D, 0xB4, 0x00, 0x00, 0x00, 0x00, 0x49,
    0x45, 0x4E, 0x44, 0xAE, 0x42, 0x60, 0x82,
];

fn loaded_photo() -> SessionMedia {
    let mut media = SessionMedia::new();
    let part = moltis_agents::media::session_media_image_part(Some("photo.png"), TINY_PNG, None);
    media.images.push(("/api/sessions/main/media/photo.png".to_string(), part));
    media
}

#[test]
fn image_url_to_content_part_loads_session_media() {
    let part = image_url_to_content_part("/api/sessions/main/media/photo.png", &loaded_photo()).unwrap();
    match part {
        ContentPart::Image { media_type, data } => {
            assert!(media_type.starts_with("image/"));
            assert!(!data.is_empty());
            assert!(!data.starts_with("data:"));
        },
        ContentPart::Text(_) => panic!("expected image part"),
    }
}

#[test]
fn values_to_chat_messages_expand_session_media_urls() {
    let text_block = JsonValue::Object(vec![
        ("text".to_string(), JsonValue::Text("what is this".to_string())),
        ("type".to_string(), JsonValue::Text("text".to_string())),
    ]);
    let image_block = JsonValue::Object(vec![
        (
            "image_url".to_string(),
            JsonValue::Object(vec![(
                "url".to_string(),
                JsonValue::Text("/api/sessions/main/media/photo.png".to_string()),
            )]),
        ),
        ("type".to_string(), JsonValue::Text("image_url".to_string())),
    ]);
    let values = vec![JsonValue::Object(vec![
        ("content".to_string(), JsonValue::Array(vec![text_block, image_block])),
        ("role".to_string(), JsonValue::Text("user".to_string())),
    ])];
    let msgs = moltis_agents::convert::values_to_chat_messages(&values, &loaded_photo());
    match &msgs[0] {
        ChatMessage::User { content: UserContent::Multimodal(parts), .. } => {
            assert!(matches!(&parts[0], ContentPart::Text(text) if text == "what is this"));
            assert!(matches!(&parts[1], ContentPart::Image { .. }));
        },
        _ => panic!("expected multimodal user message"),
    }
}
