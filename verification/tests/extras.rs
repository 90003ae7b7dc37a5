use zephost::clock::now_ms;
use zephost::credentials::{uuid_hyphenated, uuid_simple};
use zephost::encryption::{encrypt, generate_key_iv};
use zephost::settings::{admin_credentials_from, public_signup_from};
use zephost::worker::{
    base_url, inference_model, inference_output_json, inference_prompt, job_type, json_string_text, plan_job, report_for,
    JobKind, JsonField, ReportBody,
};

fn hex(bytes: &[u8]) -> String {
    bytes.iter().map(|b| format!("{b:02x}")).collect()
}

fn unhex(s: &str) -> Vec<u8> {
    (0..s.len()).step_by(2).map(|i| u8::from_str_radix(&s[i..i + 2], 16).unwrap()).collect()
}

#[test]
fn aes256_cbc_matches_the_nist_vector() {
    let key = unhex("603deb1015ca71be2b73aef0857d77811f352c073b6108d72d9810a30914dff4");
    let iv = unhex("000102030405060708090a0b0c0d0e0f");
    let plain = unhex("6bc1bee22e409f96e93d7e117393172a");
    let out = encrypt(&plain, &key, &iv);
    assert_eq!(out.len(), 32);
    assert_eq!(hex(&out[..16]), "f58c4c04d6e5f1ba779eabfb5f7bfbd6");
    assert_eq!(encrypt(b"", &key, &iv).len(), 16);
    assert_eq!(encrypt(&[7u8; 17], &key, &iv).len(), 32);
}

#[test]
fn generated_key_and_iv_have_aes_sizes() {
    let (key, iv) = generate_key_iv();
    assert_eq!(key.len(), 32);
    assert_eq!(iv.len(), 16);
}

#[test]
fn clock_reads_milliseconds_since_epoch() {
    assert!(now_ms() > 1_600_000_000_000);
}

#[test]
fn uuid_text_forms() {
    let u: u128 = 0x67e5504410b1426f9247bb680e5fe0c8;
    assert_eq!(uuid_hyphenated(u), "67e55044-10b1-426f-9247-bb680e5fe0c8");
    assert_eq!(uuid_simple(u), "67e5504410b1426f9247bb680e5fe0c8");
    assert_eq!(uuid_simple(1), "00000000000000000000000000000001");
}

#[test]
fn signup_setting_reads_true_in_any_case() {
    assert!(public_signup_from(Some("TRUE".to_string())));
    assert!(!public_signup_from(Some("yes".to_string())));
    assert!(!public_signup_from(None));
}

#[test]
fn admin_credentials_need_both_values() {
    assert_eq!(
        admin_credentials_from(Some(" admin ".to_string()), Some(" pw ".to_string())),
        Some(("admin".to_string(), " pw ".to_string()))
    );
    assert_eq!(admin_credentials_from(Some("admin".to_string()), Some("  ".to_string())), None);
    assert_eq!(admin_credentials_from(None, Some("pw".to_string())), None);
    assert_eq!(admin_credentials_from(Some("  ".to_string()), Some("pw".to_string())), None);
}

#[test]
fn worker_picks_the_job_type() {
    assert_eq!(job_type(JsonField::Text("render".to_string()), JsonField::Text("inference".to_string())), "render");
    assert_eq!(job_type(JsonField::Missing, JsonField::Text("inference".to_string())), "inference");
    assert_eq!(job_type(JsonField::Other, JsonField::Text("inference".to_string())), "ai_inference");
    assert_eq!(job_type(JsonField::Missing, JsonField::Missing), "ai_inference");
    assert_eq!(plan_job("ai_inference").unwrap(), JobKind::AiInference);
    assert_eq!(plan_job("inference").unwrap(), JobKind::AiInference);
    assert_eq!(plan_job("render").unwrap_err(), "unsupported job type: render");
}

#[test]
fn worker_inference_settings() {
    assert_eq!(inference_model(JsonField::Missing), "llama3.2");
    assert_eq!(inference_model(JsonField::Text("mistral".to_string())), "mistral");
    assert_eq!(inference_prompt(JsonField::Other, JsonField::Text("hi".to_string())), "hi");
    assert_eq!(inference_prompt(JsonField::Text("p".to_string()), JsonField::Text("hi".to_string())), "p");
    assert_eq!(
        inference_prompt(JsonField::Missing, JsonField::Missing),
        "Summarize what Zephost should do next in one sentence."
    );
}

#[test]
fn worker_reports_outcomes() {
    let ok = report_for(3, Ok("{\"response\":\"done\"}".to_string()));
    assert!(ok.success);
    assert_eq!(ok.reason, None);
    assert!(matches!(ok.result, ReportBody::Output(ref s) if s == "{\"response\":\"done\"}"));
    let failed = report_for(4, Err("timed out".to_string()));
    assert!(!failed.success);
    assert_eq!(failed.task_id, 4);
    assert_eq!(failed.reason.as_deref(), Some("timed out"));
    assert!(matches!(failed.result, ReportBody::Error(ref s) if s == "timed out"));
}

#[test]
fn base_url_drops_trailing_slashes() {
    assert_eq!(base_url("http://127.0.0.1:11434//"), "http://127.0.0.1:11434");
    assert_eq!(base_url("https://x.dev"), "https://x.dev");
    assert_eq!(base_url("///"), "");
}

#[test]
fn uuid_text_forms_match_the_uuid_crate() {
    for u in [0u128, 1, 0x67e5504410b1426f9247bb680e5fe0c8, u128::MAX] {
        let id = uuid::Uuid::from_u128(u);
        assert_eq!(uuid_hyphenated(u), id.to_string());
        assert_eq!(uuid_simple(u), id.simple().to_string());
    }
}

#[test]
fn json_strings_are_escaped() {
    assert_eq!(json_string_text("plain"), "\"plain\"");
    assert_eq!(json_string_text(""), "\"\"");
    let tricky = "say \"hi\"\\ now\n\tdone\r\u{8}\u{c}\u{1}\u{1f} é";
    let written = json_string_text(tricky);
    assert_eq!(written, "\"say \\\"hi\\\"\\\\ now\\n\\tdone\\r\\b\\f\\u0001\\u001f é\"");
    assert_eq!(written, serde_json::to_string(tricky).unwrap());
    let back: String = serde_json::from_str(&written).unwrap();
    assert_eq!(back, tricky);
}

#[test]
fn inference_output_takes_the_response_member() {
    let out = inference_output_json("llama3.2", "Say \"hi\"", Some("\"hello\""), "{\"response\":\"hello\",\"done\":true}", "{\"prompt\":\"Say \\\"hi\\\"\"}");
    assert_eq!(
        out,
        "{\"job_type\":\"ai_inference\",\"model\":\"llama3.2\",\"prompt\":\"Say \\\"hi\\\"\",\"response\":\"hello\",\"input\":{\"prompt\":\"Say \\\"hi\\\"\"}}"
    );
    let value: serde_json::Value = serde_json::from_str(&out).unwrap();
    assert_eq!(value["job_type"], "ai_inference");
    assert_eq!(value["model"], "llama3.2");
    assert_eq!(value["prompt"], "Say \"hi\"");
    assert_eq!(value["response"], "hello");
    assert_eq!(value["input"]["prompt"], "Say \"hi\"");
}

#[test]
fn inference_output_falls_back_to_the_whole_reply() {
    let out = inference_output_json("m", "p", None, "[1,2]", "null");
    assert_eq!(out, "{\"job_type\":\"ai_inference\",\"model\":\"m\",\"prompt\":\"p\",\"response\":[1,2],\"input\":null}");
}
