use proton_api::diag::{diag_body, rotated_log, scrub, verbose_setting, MAX_BODY_CHARS};
use proton_api::json::{parse_json, Json};

fn json(s: &str) -> Json {
    parse_json(s).unwrap()
}

fn items(j: &Json) -> &Vec<Json> {
    match j {
        Json::Array(a) => a,
        _ => panic!("not a list"),
    }
}

#[test]
fn test_scrub_redacts_nested_secrets() {
    let v = json(
        r#"{
            "Code": 1000,
            "Keys": [{"PrivateKey": "abc", "ID": "k1"}],
            "Passphrase": "hunter2",
            "Name": "Work"
        }"#,
    );
    let s = scrub(&v);
    assert_eq!(s.get("Code"), Some(&json("1000")));
    let key = &items(s.get("Keys").unwrap())[0];
    assert_eq!(key.get("PrivateKey"), Some(&json(r#""***""#)));
    assert_eq!(key.get("ID"), Some(&json(r#""k1""#)));
    assert_eq!(s.get("Passphrase"), Some(&json(r#""***""#)));
    assert_eq!(s.get("Name"), Some(&json(r#""Work""#)));
}

#[test]
fn test_scrub_shortens_long_strings_and_caps_body() {
    let big = "x".repeat(20000);
    let body = diag_body(&Json::Object(vec![("blob".to_string(), Json::Text(big))]));
    assert!(body.contains("[+"));
    assert!(body.contains("chars]"));
    // Many medium keys: no single string trips the shortener, but the
    // whole body trips the cap.
    let mut map = Vec::new();
    for i in 0..200 {
        map.push((format!("k{i:03}"), Json::Text("y".repeat(100))));
    }
    let capped = diag_body(&Json::Object(map));
    assert!(capped.contains("truncated"));
    assert!(capped.chars().count() <= MAX_BODY_CHARS + 100);
}

#[test]
fn test_verbose_defaults_off() {
    assert!(!verbose_setting(None));
    assert!(!verbose_setting(Some("")));
    assert!(!verbose_setting(Some("0")));
    assert!(verbose_setting(Some("1")));
    assert!(verbose_setting(Some("yes")));
}

#[test]
fn test_rotate_missing_and_small_files() {
    assert!(rotated_log(&b"short log\n".to_vec(), 100, 50).is_none());
    // Exactly at the cap: no rotation (`<= max`).
    assert!(rotated_log(&"x".repeat(100).into_bytes(), 100, 50).is_none());
}

#[test]
fn test_rotate_keeps_tail_on_line_boundary() {
    // 200 numbered lines: the cut lands in the middle of one.
    let mut body = String::new();
    for i in 0..200 {
        body.push_str(&format!("line {i:03} padding-pad\n"));
    }
    assert!(body.len() as u64 > 400);
    let out = rotated_log(&body.into_bytes(), 400, 200).expect("over the cap");
    let out = String::from_utf8(out).unwrap();
    let mut lines = out.lines();
    assert!(lines.next().unwrap_or("").contains("log rotated"));
    // Tail intact: last original line survives, kept whole lines only.
    assert!(out.ends_with("line 199 padding-pad\n"));
    assert!(out.len() < 200 + 120, "len={}", out.len());
}
