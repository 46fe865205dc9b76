use hmac::Mac;
use nixbuilder::webhook::{should_trigger_build, signature_valid, Commit, WebhookPayload};

fn tag_hex(secret: &[u8], body: &[u8]) -> String {
    let mut mac = hmac::Hmac::<sha2::Sha256>::new_from_slice(secret).unwrap();
    mac.update(body);
    hex::encode(mac.finalize().into_bytes())
}

#[test]
fn good_signature_is_accepted() {
    let secret = b"SECRET-REDACTED";
    let body = b"{\"ref\":\"refs/heads/main\"}";
    let header = format!("sha256={}", tag_hex(secret, body));
    assert!(signature_valid(secret, body, Some(&header)));
}

#[test]
fn uppercase_hex_signature_is_accepted() {
    let secret = b"k";
    let body = b"payload";
    let header = format!("sha256={}", tag_hex(secret, body).to_uppercase());
    assert!(signature_valid(secret, body, Some(&header)));
}

#[test]
fn wrong_signature_is_rejected() {
    let secret = b"k";
    let body = b"payload";
    let other = format!("sha256={}", tag_hex(secret, b"other body"));
    assert!(!signature_valid(secret, body, Some(&other)));
}

#[test]
fn wrong_secret_is_rejected() {
    let body = b"payload";
    let header = format!("sha256={}", tag_hex(b"theirs", body));
    assert!(!signature_valid(b"ours", body, Some(&header)));
}

#[test]
fn missing_or_short_header_is_rejected() {
    assert!(!signature_valid(b"k", b"payload", None));
    assert!(!signature_valid(b"k", b"payload", Some("")));
    assert!(!signature_valid(b"k", b"payload", Some("sha256")));
}

#[test]
fn undecodable_hex_is_rejected() {
    assert!(!signature_valid(b"k", b"payload", Some("sha256=zz00")));
    // odd length
    assert!(!signature_valid(b"k", b"payload", Some("sha256=abc")));
}

fn payload(ref_field: Option<&str>, with_commits: bool) -> WebhookPayload {
    WebhookPayload {
        ref_field: ref_field.map(|s| s.to_string()),
        before: None,
        after: None,
        repository: None,
        commits: if with_commits {
            Some(vec![Commit {
                id: "abc123".to_string(),
                message: "fix".to_string(),
                url: "https://example.invalid/c/abc123".to_string(),
                distinct: true,
            }])
        } else {
            None
        },
    }
}

#[test]
fn branch_push_with_commits_triggers_build() {
    assert!(should_trigger_build(&payload(Some("refs/heads/main"), true)));
}

#[test]
fn tag_push_does_not_trigger_build() {
    assert!(!should_trigger_build(&payload(Some("refs/tags/v1.0"), true)));
}

#[test]
fn push_without_commits_does_not_trigger_build() {
    assert!(!should_trigger_build(&payload(Some("refs/heads/main"), false)));
    assert!(!should_trigger_build(&payload(None, true)));
}
