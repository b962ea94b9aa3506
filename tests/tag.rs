use pubky_app_specs::error::ModelError;
use pubky_app_specs::tag::{PubkyAppTag, MAX_TAG_LABEL_LENGTH};

fn tag_from_json(json: &str) -> PubkyAppTag {
    let v: serde_json::Value = serde_json::from_str(json).unwrap();
    PubkyAppTag {
        uri: v["uri"].as_str().unwrap().to_string(),
        label: v["label"].as_str().unwrap().to_string(),
        created_at: v["created_at"].as_i64().unwrap(),
    }
}

#[test]
fn test_create_id() {
    let tag = PubkyAppTag {
        uri: "https://example.com/post/1".to_string(),
        created_at: 1627849723000,
        label: "cool".to_string(),
    };

    let tag_id = tag.create_id();
    println!("Generated Tag ID: {}", tag_id);

    assert!(!tag_id.is_empty());
}

#[test]
fn test_new() {
    let uri = "https://example.com/post/1".to_string();
    let label = "interesting".to_string();
    let tag = PubkyAppTag::new(uri.clone(), label.clone());

    assert_eq!(tag.uri, uri);
    assert_eq!(tag.label, label);
    let now = chrono::Utc::now().timestamp_millis();
    assert!(tag.created_at <= now && tag.created_at >= now - 1000);
}

#[test]
fn test_get_path() {
    let tag = PubkyAppTag {
        uri: "https://example.com/post/1".to_string(),
        created_at: 1627849723000,
        label: "cool".to_string(),
    };

    let expected_id = tag.create_id();
    let expected_path = format!("pubky:///pub/pubky.app/tags/{}", expected_id);
    let path = tag.get_path();

    assert_eq!(path, expected_path);
}

#[test]
fn test_sanitize() {
    let tag = PubkyAppTag {
        uri: "https://example.com/post/1".to_string(),
        label: "   CoOl  ".to_string(),
        created_at: 1627849723000,
    };

    let sanitized_tag = tag.sanitize().unwrap();
    assert_eq!(sanitized_tag.label, "cool");
}

#[test]
fn test_validate_valid() {
    let tag = PubkyAppTag {
        uri: "https://example.com/post/1".to_string(),
        label: "cool".to_string(),
        created_at: 1627849723000,
    };

    let id = tag.create_id();
    let result = tag.validate(&id);
    assert!(result.is_ok());
}

#[test]
fn test_validate_invalid_label_length() {
    let tag = PubkyAppTag {
        uri: "https://example.com/post/1".to_string(),
        label: "a".repeat(MAX_TAG_LABEL_LENGTH + 1),
        created_at: 1627849723000,
    };

    let id = tag.create_id();
    let result = tag.validate(&id);
    assert!(result.is_err());
    assert_eq!(result.unwrap_err().message(), "Tag label exceeds maximum length");
}

#[test]
fn test_validate_invalid_id() {
    let tag = PubkyAppTag {
        uri: "https://example.com/post/1".to_string(),
        label: "cool".to_string(),
        created_at: 1627849723000,
    };

    let invalid_id = "INVALIDID";
    let result = tag.validate(invalid_id);
    assert!(result.is_err());
}

#[test]
fn test_try_from_valid() {
    let tag_json = r#"
    {
        "uri": "pubky://user_pubky_id/pub/pubky.app/v1/profile.json",
        "label": "Cool Tag",
        "created_at": 1627849723000
    }
    "#;

    let id = PubkyAppTag::new(
        "pubky://user_pubky_id/pub/pubky.app/v1/profile.json".to_string(),
        "Cool Tag".to_string(),
    )
    .create_id();

    let tag = tag_from_json(tag_json).from_untrusted(&id).unwrap();
    assert_eq!(tag.uri, "pubky://user_pubky_id/pub/pubky.app/v1/profile.json");
    assert_eq!(tag.label, "cool tag");
}

#[test]
fn test_try_from_invalid_uri() {
    let tag_json = r#"
    {
        "uri": "invalid_uri",
        "label": "Cool Tag",
        "created_at": 1627849723000
    }
    "#;

    let id = "SomeID";
    let result = tag_from_json(tag_json).from_untrusted(id);
    assert!(result.is_err());
    assert_eq!(result.unwrap_err().message(), "Invalid URI in tag");
}

fn example_tag(label: &str, created_at: i64) -> PubkyAppTag {
    PubkyAppTag {
        uri: "https://example.com/post/1".to_string(),
        label: label.to_string(),
        created_at,
    }
}

#[test]
fn tag_id_is_half_blake3_in_crockford() {
    let tag = example_tag("cool", 1);
    let digest = blake3::hash(b"https://example.com/post/1:cool");
    let expected = base32::encode(base32::Alphabet::Crockford, &digest.as_bytes()[..16]);
    assert_eq!(tag.create_id(), expected);
    assert_eq!(tag.create_id().len(), 26);
    assert_eq!(tag.get_id_data(), "https://example.com/post/1:cool");
}

#[test]
fn tag_scenario_sanitize_then_validate() {
    let tag = example_tag("   CoOl  ", 5).sanitize().unwrap();
    assert_eq!(tag.label, "cool");
    let id = tag.create_id();
    let accepted = example_tag("   CoOl  ", 5).from_untrusted(&id).unwrap();
    assert_eq!(accepted.label, "cool");
    assert_eq!(accepted.created_at, 5);
    let refused = example_tag("   CoOl  ", 5).from_untrusted("FPB0AM9S93Q3M1GFY1KV09GMQM");
    assert_eq!(refused.unwrap_err(), ModelError::IdentifierMismatch);
}

#[test]
fn tag_id_claim_is_case_insensitive() {
    let tag = example_tag("cool", 5);
    let id = tag.create_id().to_lowercase();
    assert!(tag.validate(&id).is_ok());
}

#[test]
fn tag_tampered_id_is_refused() {
    let tag = example_tag("cool", 5);
    let id = tag.create_id();
    let mut tampered: Vec<char> = id.chars().collect();
    tampered[0] = if tampered[0] == '0' { '1' } else { '0' };
    let tampered: String = tampered.into_iter().collect();
    assert_eq!(tag.validate(&tampered), Err(ModelError::IdentifierMismatch));
    assert_eq!(tag.validate(""), Err(ModelError::IdentifierMismatch));
    assert_eq!(tag.validate(&format!("{}0", id)), Err(ModelError::IdentifierMismatch));
}

#[test]
fn tag_long_label_is_cut_to_twenty() {
    let tag = example_tag(&"a".repeat(21), 5).sanitize().unwrap();
    assert_eq!(tag.label, "a".repeat(20));
    let id = tag.create_id();
    assert!(tag.validate(&id).is_ok());
}

#[test]
fn tag_invalid_uri_is_mandatory() {
    let tag = PubkyAppTag { uri: "invalid_uri".to_string(), label: "x".to_string(), created_at: 0 };
    assert_eq!(tag.sanitize().unwrap_err(), ModelError::MandatoryFieldInvalid);
}

#[test]
fn tag_new_with_invalid_uri_is_empty() {
    let tag = PubkyAppTag::new("invalid_uri".to_string(), "x".to_string());
    assert_eq!(tag.uri, "");
    assert_eq!(tag.label, "");
    assert_eq!(tag.created_at, 0);
}

#[test]
fn tag_id_ignores_created_at() {
    let a = example_tag("cool", 1);
    let b = example_tag("cool", 2_000_000);
    assert_eq!(a.create_id(), b.create_id());
    assert_ne!(a.create_id(), example_tag("cooler", 1).create_id());
}

#[test]
fn tag_sanitize_twice_is_sanitize_once() {
    let once = example_tag("  Rust Lang ", 3).sanitize().unwrap();
    let twice = PubkyAppTag { uri: once.uri.clone(), label: once.label.clone(), created_at: 3 }
        .sanitize()
        .unwrap();
    assert_eq!(once.uri, twice.uri);
    assert_eq!(once.label, twice.label);
}

#[test]
fn tag_uri_is_normalized() {
    let tag = PubkyAppTag { uri: "HTTPS://Example.COM".to_string(), label: "x".to_string(), created_at: 0 };
    assert_eq!(tag.sanitize().unwrap().uri, "https://example.com/");
}

#[test]
fn tag_cut_that_ends_in_space_is_trimmed() {
    let once = example_tag(&format!("{} b", "a".repeat(19)), 1).sanitize().unwrap();
    assert_eq!(once.label, "a".repeat(19));
    let twice = PubkyAppTag { uri: once.uri.clone(), label: once.label.clone(), created_at: 1 }
        .sanitize()
        .unwrap();
    assert_eq!(twice.label, once.label);
    let fresh = PubkyAppTag::new("https://example.com/post/1".to_string(), format!("{} b", "a".repeat(19)));
    assert_eq!(fresh.label, "a".repeat(19));
}

#[test]
fn tag_default_is_empty() {
    let t = PubkyAppTag::default();
    assert_eq!(t.uri, "");
    assert_eq!(t.label, "");
    assert_eq!(t.created_at, 0);
}
