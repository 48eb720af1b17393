use moltis_agents::chat::{ChatMessage, ContentPart, UserContent};
use moltis_agents::convert::{
    attach_reasoning_to_assistant_tool_call, provider_values_to_chat_messages,
    values_to_chat_messages, values_to_chat_messages_with_tool_result_limit,
};
use moltis_agents::json::{to_json_text, JsonValue};
use moltis_agents::media::SessionMedia;
use moltis_agents::requests::session_media_requests;
use moltis_agents::tool_call::extract_tool_call_metadata;

fn convert(v: serde_json::Value) -> JsonValue {
    match v {
        serde_json::Value::Null => JsonValue::Null,
        serde_json::Value::Bool(b) => JsonValue::Bool(b),
        serde_json::Value::Number(n) => JsonValue::Number(n.to_string()),
        serde_json::Value::String(s) => JsonValue::Text(s),
        serde_json::Value::Array(a) => JsonValue::Array(a.into_iter().map(convert).collect()),
        serde_json::Value::Object(m) => {
            JsonValue::Object(m.into_iter().map(|(k, x)| (k, convert(x))).collect())
        },
    }
}

fn j(text: &str) -> JsonValue {
    convert(serde_json::from_str(text).unwrap())
}

fn values(texts: &[&str]) -> Vec<JsonValue> {
    texts.iter().map(|t| j(t)).collect()
}

fn tool(id: &str, content: &str) -> ChatMessage {
    ChatMessage::Tool { tool_call_id: id.to_string(), content: content.to_string() }
}

fn user_text(m: &ChatMessage) -> String {
    match m {
        ChatMessage::User { content: UserContent::Text(t), .. } => t.clone(),
        other => panic!("expected text user message, got {other:?}"),
    }
}

const ASSISTANT_CALL: &str = r#"{"role":"assistant","content":null,"tool_calls":[
    {"id":"call_1","type":"function","function":{"name":"exec","arguments":"{\"cmd\":\"ls\"}"}}]}"#;

#[test]
fn converts_system_user_assistant_and_tool() {
    let vals = values(&[
        r#"{"role":"system","content":"be nice"}"#,
        r#"{"role":"user","content":"hi","created_at":1}"#,
        ASSISTANT_CALL,
        r#"{"role":"tool","tool_call_id":"call_1","content":"done"}"#,
    ]);
    let msgs = values_to_chat_messages(&vals, &SessionMedia::new());
    assert_eq!(msgs.len(), 4);
    assert_eq!(msgs[0], ChatMessage::System { content: "be nice".to_string() });
    assert_eq!(msgs[1], ChatMessage::User { content: UserContent::Text("hi".to_string()), name: None });
    match &msgs[2] {
        ChatMessage::Assistant { content, tool_calls, reasoning } => {
            assert_eq!(*content, None);
            assert_eq!(*reasoning, None);
            assert_eq!(tool_calls.len(), 1);
            assert_eq!(tool_calls[0].id, "call_1");
            assert_eq!(tool_calls[0].name, "exec");
            assert_eq!(tool_calls[0].arguments, j(r#"{"cmd":"ls"}"#));
            assert_eq!(tool_calls[0].argument_diagnostic, None);
            assert_eq!(tool_calls[0].metadata, None);
        },
        other => panic!("expected assistant, got {other:?}"),
    }
    assert_eq!(msgs[3], tool("call_1", "done"));
}

#[test]
fn system_without_text_content_is_empty() {
    let msgs = values_to_chat_messages(&values(&[r#"{"role":"system","content":5}"#]), &SessionMedia::new());
    assert_eq!(msgs, vec![ChatMessage::System { content: String::new() }]);
}

#[test]
fn orphan_tool_results_are_dropped_for_session_messages() {
    let vals = values(&[
        r#"{"role":"user","content":"run it"}"#,
        r#"{"role":"tool","tool_call_id":"sh_1","content":"orphan"}"#,
        r#"{"role":"tool_result","tool_call_id":"sh_2","result":"orphan too"}"#,
    ]);
    let msgs = values_to_chat_messages(&vals, &SessionMedia::new());
    assert_eq!(msgs.len(), 1);
}

#[test]
fn a_tool_call_is_answered_once_when_filtering() {
    let vals = values(&[
        ASSISTANT_CALL,
        r#"{"role":"tool","tool_call_id":"call_1","content":"first"}"#,
        r#"{"role":"tool","tool_call_id":"call_1","content":"second"}"#,
    ]);
    let msgs = values_to_chat_messages(&vals, &SessionMedia::new());
    assert_eq!(msgs.len(), 2);
    assert_eq!(msgs[1], tool("call_1", "first"));
}

#[test]
fn provider_messages_keep_every_tool_message() {
    let vals = values(&[
        r#"{"role":"tool","tool_call_id":"sh_1","content":"orphan"}"#,
        r#"{"role":"tool_result","tool_call_id":"sh_2","error":"boom"}"#,
    ]);
    let msgs = provider_values_to_chat_messages(&vals, &SessionMedia::new());
    assert_eq!(msgs, vec![tool("sh_1", "orphan"), tool("sh_2", "Error: boom")]);
}

#[test]
fn unknown_roles_notices_and_missing_roles_are_skipped() {
    let vals = values(&[
        r#"{"content":"no role"}"#,
        r#"{"role":7,"content":"bad role"}"#,
        r#"{"role":"notice","content":"ui only"}"#,
        r#"{"role":"moderator","content":"?"}"#,
        r#"{"role":"user","content":"kept"}"#,
    ]);
    let msgs = values_to_chat_messages(&vals, &SessionMedia::new());
    assert_eq!(msgs.len(), 1);
    assert_eq!(user_text(&msgs[0]), "kept");
}

#[test]
fn tool_content_that_is_no_string_is_written_as_json() {
    let vals = values(&[
        r#"{"role":"tool","tool_call_id":"a","content":{"ok":true,"n":[1,2.5,"x\ny"]}}"#,
        r#"{"role":"tool","tool_call_id":"b"}"#,
    ]);
    let msgs = provider_values_to_chat_messages(&vals, &SessionMedia::new());
    assert_eq!(msgs[0], tool("a", r#"{"n":[1,2.5,"x\ny"],"ok":true}"#));
    assert_eq!(msgs[1], tool("b", "null"));
}

#[test]
fn tool_result_contents() {
    let vals = values(&[
        r#"{"role":"tool_result","tool_call_id":"a","error":"failed","result":"ignored"}"#,
        r#"{"role":"tool_result","tool_call_id":"b","result":"plain"}"#,
        r#"{"role":"tool_result","tool_call_id":"c","result":{"exit":0}}"#,
        r#"{"role":"tool_result","tool_call_id":"d","result":null}"#,
        r#"{"role":"tool_result","tool_call_id":"e"}"#,
    ]);
    let msgs = provider_values_to_chat_messages(&vals, &SessionMedia::new());
    assert_eq!(
        msgs,
        vec![
            tool("a", "Error: failed"),
            tool("b", "plain"),
            tool("c", r#"{"exit":0}"#),
            tool("d", "null"),
            tool("e", ""),
        ]
    );
}

#[test]
fn tool_result_reasoning_goes_to_the_asking_assistant() {
    let vals = values(&[
        ASSISTANT_CALL,
        r#"{"role":"tool_result","tool_call_id":"call_1","result":"ok","reasoning":"  because  "}"#,
    ]);
    let msgs = values_to_chat_messages(&vals, &SessionMedia::new());
    match &msgs[0] {
        ChatMessage::Assistant { reasoning, .. } => assert_eq!(reasoning.as_deref(), Some("because")),
        other => panic!("expected assistant, got {other:?}"),
    }
    assert_eq!(msgs[1], tool("call_1", "ok"));
}

#[test]
fn existing_reasoning_is_not_overwritten() {
    let mut msgs = vec![
        ChatMessage::Assistant {
            content: None,
            tool_calls: Vec::new(),
            reasoning: None,
        },
        ChatMessage::Assistant {
            content: Some("x".to_string()),
            tool_calls: vec![moltis_agents::chat::ToolCall {
                id: "t".to_string(),
                name: "n".to_string(),
                arguments: JsonValue::Object(Vec::new()),
                argument_diagnostic: None,
                metadata: None,
            }],
            reasoning: Some("old".to_string()),
        },
    ];
    attach_reasoning_to_assistant_tool_call(&mut msgs, "t", "new".to_string());
    match &msgs[1] {
        ChatMessage::Assistant { reasoning, .. } => assert_eq!(reasoning.as_deref(), Some("old")),
        other => panic!("unexpected {other:?}"),
    }
    match &msgs[0] {
        ChatMessage::Assistant { reasoning, .. } => assert_eq!(*reasoning, None),
        other => panic!("unexpected {other:?}"),
    }
}

#[test]
fn reasoning_attaches_to_the_last_asker_only() {
    let call = |id: &str| moltis_agents::chat::ToolCall {
        id: id.to_string(),
        name: "n".to_string(),
        arguments: JsonValue::Object(Vec::new()),
        argument_diagnostic: None,
        metadata: None,
    };
    let mut msgs = vec![
        ChatMessage::Assistant { content: None, tool_calls: vec![call("t")], reasoning: None },
        ChatMessage::System { content: "s".to_string() },
        ChatMessage::Assistant { content: None, tool_calls: vec![call("u"), call("t")], reasoning: None },
    ];
    attach_reasoning_to_assistant_tool_call(&mut msgs, "t", "why".to_string());
    assert_eq!(msgs.len(), 3);
    match (&msgs[0], &msgs[2]) {
        (
            ChatMessage::Assistant { reasoning: first, .. },
            ChatMessage::Assistant { reasoning: last, .. },
        ) => {
            assert_eq!(*first, None);
            assert_eq!(last.as_deref(), Some("why"));
        },
        other => panic!("unexpected {other:?}"),
    }
    attach_reasoning_to_assistant_tool_call(&mut msgs, "missing", "no".to_string());
    assert_eq!(msgs[1], ChatMessage::System { content: "s".to_string() });
}

#[test]
fn blank_assistant_reasoning_is_dropped_and_text_is_trimmed() {
    let vals = values(&[
        r#"{"role":"assistant","content":"a","reasoning":"   "}"#,
        r#"{"role":"assistant","content":"b","reasoning":"\n think \t"}"#,
    ]);
    let msgs = values_to_chat_messages(&vals, &SessionMedia::new());
    assert_eq!(
        msgs,
        vec![
            ChatMessage::Assistant { content: Some("a".to_string()), tool_calls: Vec::new(), reasoning: None },
            ChatMessage::Assistant {
                content: Some("b".to_string()),
                tool_calls: Vec::new(),
                reasoning: Some("think".to_string()),
            },
        ]
    );
}

#[test]
fn tool_calls_without_id_or_name_are_left_out() {
    let vals = values(&[r#"{"role":"assistant","tool_calls":[
        {"function":{"name":"x"}},
        {"id":"a"},
        {"id":"b","function":{"name":"y","arguments":{"k":1}}},
        {"id":"c","function":{"name":"z","arguments":"not json"}},
        {"id":"d","function":{"name":"w","arguments":"  "}}]}"#]);
    let msgs = values_to_chat_messages(&vals, &SessionMedia::new());
    match &msgs[0] {
        ChatMessage::Assistant { content, tool_calls, .. } => {
            assert_eq!(*content, None);
            assert_eq!(tool_calls.len(), 3);
            assert_eq!(tool_calls[0].id, "b");
            assert_eq!(tool_calls[0].arguments, j(r#"{"k":1}"#));
            assert_eq!(tool_calls[1].id, "c");
            assert_eq!(tool_calls[1].arguments, JsonValue::Object(Vec::new()));
            assert_eq!(
                tool_calls[1].argument_diagnostic.as_deref(),
                Some("tool call arguments are not valid JSON")
            );
            assert_eq!(tool_calls[2].arguments, JsonValue::Object(Vec::new()));
            assert_eq!(tool_calls[2].argument_diagnostic, None);
        },
        other => panic!("expected assistant, got {other:?}"),
    }
}

#[test]
fn tool_result_limit_cuts_at_character_boundaries() {
    let vals = values(&[
        ASSISTANT_CALL,
        r#"{"role":"tool","tool_call_id":"call_1","content":"héllo wörld"}"#,
    ]);
    let msgs = values_to_chat_messages_with_tool_result_limit(&vals, 2, &SessionMedia::new());
    assert_eq!(msgs[1], tool("call_1", "h"));
    let msgs = values_to_chat_messages_with_tool_result_limit(&vals, 3, &SessionMedia::new());
    assert_eq!(msgs[1], tool("call_1", "hé"));
    let msgs = values_to_chat_messages_with_tool_result_limit(&vals, 100, &SessionMedia::new());
    assert_eq!(msgs[1], tool("call_1", "héllo wörld"));
}

#[test]
fn limit_changes_only_tool_contents() {
    let vals = values(&[
        r#"{"role":"user","content":"a long user message that stays"}"#,
        ASSISTANT_CALL,
        r#"{"role":"tool_result","tool_call_id":"call_1","result":"0123456789"}"#,
    ]);
    let limited = values_to_chat_messages_with_tool_result_limit(&vals, 4, &SessionMedia::new());
    let full = values_to_chat_messages(&vals, &SessionMedia::new());
    assert_eq!(limited.len(), full.len());
    assert_eq!(limited[0], full[0]);
    assert_eq!(limited[1], full[1]);
    assert_eq!(limited[2], tool("call_1", "0123"));
    assert_eq!(full[2], tool("call_1", "0123456789"));
}

#[test]
fn at_most_one_message_per_value() {
    let vals = values(&[ASSISTANT_CALL, r#"{"role":"tool_result","tool_call_id":"call_1","reasoning":"r"}"#]);
    let msgs = values_to_chat_messages(&vals, &SessionMedia::new());
    assert!(msgs.len() <= vals.len());
    assert_eq!(msgs.len(), 2);
}

#[test]
fn sender_name_is_the_name_member_and_channel_is_dropped() {
    let vals = values(&[
        r#"{"role":"user","content":"a","name":"n","channel":{"sender_name":"s","username":"u"}}"#,
        r#"{"role":"user","content":"b","channel":{"sender_name":"alice","username":"al"}}"#,
        r#"{"role":"user","content":"c","name":7}"#,
        r#"{"role":"user","content":"d","name":"n"}"#,
    ]);
    let msgs = values_to_chat_messages(&vals, &SessionMedia::new());
    let names: Vec<Option<String>> = msgs
        .iter()
        .map(|m| match m {
            ChatMessage::User { name, .. } => name.clone(),
            _ => panic!("expected user"),
        })
        .collect();
    assert_eq!(names, vec![Some("n".into()), None, None, Some("n".into())]);
}

#[test]
fn metadata_members_are_dropped() {
    let plain = values(&[
        r#"{"role":"user","content":"hi"}"#,
        r#"{"role":"assistant","content":"yo"}"#,
    ]);
    let rich = values(&[
        r#"{"role":"user","content":"hi","created_at":1,"channel":{"sender_name":"alice"}}"#,
        r#"{"role":"assistant","content":"yo","model":"m","provider":"p","inputTokens":3,"outputTokens":4}"#,
    ]);
    assert_eq!(
        values_to_chat_messages(&plain, &SessionMedia::new()),
        values_to_chat_messages(&rich, &SessionMedia::new())
    );
}

const DOCS: &str = r#"[{"display_name":"report.pdf","mime_type":"application/pdf","media_ref":"main/media/report.pdf"},
    {"display_name":"incomplete"}]"#;

fn docs_media() -> SessionMedia {
    let mut media = SessionMedia::new();
    media.data_dir = "/data".to_string();
    media
}

const DOC_CONTEXT: &str = "[Inbound documents available]\n\nfilename: report.pdf\nmime_type: application/pdf\nlocal_path: /data/sessions/main/media/report.pdf\nmedia_ref: main/media/report.pdf";

#[test]
fn documents_are_described_after_the_text() {
    let val = format!(r#"{{"role":"user","content":"read this","documents":{DOCS}}}"#);
    let msgs = values_to_chat_messages(&[j(&val)], &docs_media());
    assert_eq!(user_text(&msgs[0]), format!("read this\n\n{DOC_CONTEXT}"));
}

#[test]
fn blank_text_gives_the_document_description_alone() {
    let val = format!(r#"{{"role":"user","content":"  ","documents":{DOCS}}}"#);
    let msgs = values_to_chat_messages(&[j(&val)], &docs_media());
    assert_eq!(user_text(&msgs[0]), DOC_CONTEXT);
    let val = format!(r#"{{"role":"user","documents":{DOCS}}}"#);
    let msgs = values_to_chat_messages(&[j(&val)], &docs_media());
    assert_eq!(user_text(&msgs[0]), DOC_CONTEXT);
}

#[test]
fn absolute_document_ref_is_its_own_path() {
    let val = r#"{"role":"user","content":"x","documents":[{"display_name":"a","mime_type":"b","media_ref":"/abs/c"}]}"#;
    let msgs = values_to_chat_messages(&[j(val)], &SessionMedia::new());
    assert_eq!(
        user_text(&msgs[0]),
        "x\n\n[Inbound documents available]\n\nfilename: a\nmime_type: b\nlocal_path: /abs/c\nmedia_ref: /abs/c"
    );
}

#[test]
fn user_without_content_or_documents_is_empty_text() {
    let msgs = values_to_chat_messages(&values(&[r#"{"role":"user","documents":[]}"#]), &SessionMedia::new());
    assert_eq!(user_text(&msgs[0]), "");
}

#[test]
fn multimodal_content_keeps_text_and_images_and_adds_documents() {
    let val = format!(
        r#"{{"role":"user","documents":{DOCS},"content":[
        {{"type":"image_url","image_url":{{"url":"data:image/gif;base64,R0lG"}}}},
        {{"type":"text","text":"look"}},
        {{"type":"audio","data":"x"}},
        {{"type":"image_url","image_url":{{"url":"/api/sessions/main/media/missing.png"}}}},
        {{"type":"text","text":"again"}}]}}"#
    );
    let msgs = values_to_chat_messages(&[j(&val)], &docs_media());
    match &msgs[0] {
        ChatMessage::User { content: UserContent::Multimodal(parts), .. } => {
            assert_eq!(
                *parts,
                vec![
                    ContentPart::Image { media_type: "image/gif".into(), data: "R0lG".into() },
                    ContentPart::Text(format!("look\n\n{DOC_CONTEXT}")),
                    ContentPart::Text("again".into()),
                ]
            );
        },
        other => panic!("expected multimodal, got {other:?}"),
    }
}

#[test]
fn multimodal_without_text_gets_a_leading_document_part() {
    let val = format!(
        r#"{{"role":"user","documents":{DOCS},"content":[
        {{"type":"image_url","image_url":{{"url":"/api/sessions/main/media/photo.png"}}}}]}}"#
    );
    let mut media = docs_media();
    media.images.push((
        "/api/sessions/main/media/photo.png".to_string(),
        ContentPart::Image { media_type: "image/png".into(), data: "iVBO".into() },
    ));
    let msgs = values_to_chat_messages(&[j(&val)], &media);
    match &msgs[0] {
        ChatMessage::User { content: UserContent::Multimodal(parts), .. } => {
            assert_eq!(
                *parts,
                vec![
                    ContentPart::Text(DOC_CONTEXT.to_string()),
                    ContentPart::Image { media_type: "image/png".into(), data: "iVBO".into() },
                ]
            );
        },
        other => panic!("expected multimodal, got {other:?}"),
    }
}

#[test]
fn blank_first_text_part_gets_documents_without_break() {
    let val = format!(r#"{{"role":"user","documents":{DOCS},"content":[{{"type":"text","text":" "}}]}}"#);
    let msgs = values_to_chat_messages(&[j(&val)], &docs_media());
    match &msgs[0] {
        ChatMessage::User { content: UserContent::Multimodal(parts), .. } => {
            assert_eq!(*parts, vec![ContentPart::Text(format!(" {DOC_CONTEXT}"))]);
        },
        other => panic!("expected multimodal, got {other:?}"),
    }
}

#[test]
fn metadata_is_taken_from_top_level_then_metadata_then_gemini() {
    let top = j(r#"{"id":"a","thought_signature":"top","metadata":{"thought_signature":"nested"}}"#);
    let nested = j(r#"{"id":"a","metadata":{"thought_signature":"nested"},"extra_content":{"google":{"thought_signature":"g"}}}"#);
    let gemini = j(r#"{"id":"a","extra_content":{"google":{"thought_signature":"g"}}}"#);
    let none = j(r#"{"id":"a","other":"x","metadata":"not an object"}"#);
    let entry = |v: &str| Some(vec![("thought_signature".to_string(), JsonValue::Text(v.to_string()))]);
    assert_eq!(extract_tool_call_metadata(&top), entry("top"));
    assert_eq!(extract_tool_call_metadata(&nested), entry("nested"));
    assert_eq!(extract_tool_call_metadata(&gemini), entry("g"));
    assert_eq!(extract_tool_call_metadata(&none), None);
    assert_eq!(extract_tool_call_metadata(&j("[1]")), None);
}

#[test]
fn tool_call_metadata_reaches_the_message() {
    let vals = values(&[r#"{"role":"assistant","tool_calls":[
        {"id":"a","function":{"name":"f","arguments":"{}"},"extra_content":{"google":{"thought_signature":"sig"}}}]}"#]);
    let msgs = values_to_chat_messages(&vals, &SessionMedia::new());
    match &msgs[0] {
        ChatMessage::Assistant { tool_calls, .. } => {
            assert_eq!(
                tool_calls[0].metadata,
                Some(vec![("thought_signature".to_string(), JsonValue::Text("sig".to_string()))])
            );
        },
        other => panic!("expected assistant, got {other:?}"),
    }
}

#[test]
fn json_text_escapes_like_serde_json() {
    let v = j(r#"{"a":"q\"b\\c\u0001\b\f\n\r\t\u007f é","b":[true,false,null,-1.5e3],"c":{}}"#);
    let expected = serde_json::to_string(&serde_json::from_str::<serde_json::Value>(
        r#"{"a":"q\"b\\c\u0001\b\f\n\r\t\u007f é","b":[true,false,null,-1.5e3],"c":{}}"#,
    ).unwrap())
    .unwrap();
    assert_eq!(to_json_text(&v), expected);
    assert_eq!(to_json_text(&JsonValue::Array(Vec::new())), "[]");
}

#[test]
fn media_requests_list_session_images_of_user_messages() {
    let val = format!(
        r#"{{"role":"user","documents":{DOCS},"content":[
        {{"type":"image_url","image_url":{{"url":"data:image/gif;base64,R0lG"}}}},
        {{"type":"image_url","image_url":{{"url":"/api/sessions/main/media/a.png"}}}},
        {{"type":"text","text":"t"}}]}}"#
    );
    let other = r#"{"role":"assistant","content":[{"type":"image_url","image_url":{"url":"/x.png"}}]}"#;
    let req = session_media_requests(&[j(&val), j(other)]);
    assert_eq!(req, vec!["/api/sessions/main/media/a.png".to_string()]);
}

#[test]
fn filtering_removes_only_orphan_tool_messages() {
    let vals = values(&[
        r#"{"role":"user","content":"go"}"#,
        r#"{"role":"tool","tool_call_id":"sh_1","content":"orphan"}"#,
        ASSISTANT_CALL,
        r#"{"role":"tool_result","tool_call_id":"call_1","result":"ok"}"#,
        r#"{"role":"tool_result","tool_call_id":"call_1","result":"again"}"#,
        r#"{"role":"system","content":"s"}"#,
    ]);
    let mut provider = provider_values_to_chat_messages(&vals, &SessionMedia::new());
    let filtered = values_to_chat_messages(&vals, &SessionMedia::new());
    assert_eq!(provider.len(), 6);
    provider.remove(4);
    provider.remove(1);
    assert_eq!(filtered, provider);
}

#[test]
fn metadata_ignores_keys_outside_the_allowlist() {
    let a = j(r#"{"id":"a","metadata":{"thought_signature":"s","x":1},"extra_content":{"google":{"y":2}}}"#);
    let b = j(r#"{"id":"b","function":{"name":"f"},"metadata":{"thought_signature":"s"},"extra_content":{"google":{}}}"#);
    assert_eq!(extract_tool_call_metadata(&a), extract_tool_call_metadata(&b));
}
