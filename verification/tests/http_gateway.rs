use ixgateway::http_gateway::{
    funccall_url, parse_funccall_path, prompt_call_body, prompt_chunk_pieces, prompt_stream_texts, worker_call_uri,
    LlavaReq, PromptReq,
};
use ixgateway::json::JsonValue;
use std::collections::HashMap;

#[test]
fn llava_default_asks_about_the_sample_image() {
    let r = LlavaReq::default();
    assert_eq!(r.prompt, "What is shown in this image?");
    assert_eq!(r.image, "https://www.ilankelman.org/stopsigns/australia.jpg");
    let p = PromptReq::default();
    assert!(p.image.is_empty());
}

#[test]
fn funccall_path_splits_into_target_and_rest() {
    let (t, n, f, rest) = parse_funccall_path("/funccall/acme/default/llama/v1/completions");
    assert_eq!((t.as_str(), n.as_str(), f.as_str(), rest.as_str()), ("acme", "default", "llama", "/v1/completions"));
    let (_, _, _, rest) = parse_funccall_path("/funccall/acme/default/llama");
    assert_eq!(rest, "");
    assert_eq!(worker_call_uri("/v1/completions"), "http://127.0.0.1/v1/completions");
}

#[test]
fn funccall_url_has_every_segment() {
    assert_eq!(funccall_url("t", "n", "f", "v1/completions"), "http://localhost:4000/funccall/t/n/f/v1/completions");
}

fn req() -> PromptReq {
    PromptReq {
        tenant: "t".to_string(),
        namespace: "n".to_string(),
        funcname: "f".to_string(),
        prompt: "hello".to_string(),
        image: "img".to_string(),
    }
}

#[test]
fn prompt_body_sets_prompt_and_image_for_image_functions() {
    let sample = vec![("prompt".to_string(), "old".to_string()), ("max_tokens".to_string(), "10".to_string())];
    let text: HashMap<String, String> = prompt_call_body(&sample, false, &req()).into_iter().collect();
    assert_eq!(text.len(), 2);
    assert_eq!(text["prompt"], "hello");
    assert_eq!(text["max_tokens"], "10");
    let image: HashMap<String, String> = prompt_call_body(&sample, true, &req()).into_iter().collect();
    assert_eq!(image.len(), 3);
    assert_eq!(image["image"], "img");
}

#[test]
fn completion_chunks_split_on_data_markers() {
    assert_eq!(
        prompt_chunk_pieces("data: {\"a\":1}\n\ndata: {\"b\":2}\n\ndata: [DONE]\n\n"),
        vec![" {\"a\":1}\n\n".to_string(), " {\"b\":2}\n\n".to_string()]
    );
    assert_eq!(prompt_chunk_pieces(""), Vec::<String>::new());
    assert_eq!(prompt_chunk_pieces("data:data:x"), vec!["x".to_string()]);
}

#[test]
fn stream_texts_take_the_first_choice_text() {
    let ok = JsonValue::Object(vec![(
        "choices".to_string(),
        JsonValue::Array(vec![JsonValue::Object(vec![("text".to_string(), JsonValue::String("hi".to_string()))])]),
    )]);
    let bad = JsonValue::Object(vec![]);
    assert_eq!(prompt_stream_texts(&vec![ok, bad], "fail"), vec!["hi".to_string(), "fail".to_string()]);
}
