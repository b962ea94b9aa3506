use pubky_app_specs::encoding::encode_timestamp;
use pubky_app_specs::error::ModelError;
use pubky_app_specs::post::{PubkyAppPost, PubkyAppPostEmbed, PubkyAppPostKind};
use pubky_app_specs::ids::IdClock;

fn post(content: &str, kind: PubkyAppPostKind) -> PubkyAppPost {
    PubkyAppPost { content: content.to_string(), kind, parent: None, embed: None, attachments: None }
}

#[test]
fn post_short_content_is_cut_to_limit() {
    let p = post(&"x".repeat(1001), PubkyAppPostKind::Short).sanitize();
    assert_eq!(p.content.chars().count(), 1000);
    let id = encode_timestamp(1_727_740_800_000_000);
    let accepted = post(&"x".repeat(1001), PubkyAppPostKind::Short).from_untrusted(&id).unwrap();
    assert_eq!(accepted.content, "x".repeat(1000));
}

#[test]
fn post_truncation_counts_characters() {
    let p = post(&"é".repeat(1001), PubkyAppPostKind::Short).sanitize();
    assert_eq!(p.content, "é".repeat(1000));
    assert_eq!(p.content.len(), 2000);
    let p = post(&"🦀".repeat(1500), PubkyAppPostKind::Image).sanitize();
    assert_eq!(p.content.chars().count(), 1000);
}

#[test]
fn post_long_content_limit() {
    let p = post(&"y".repeat(50001), PubkyAppPostKind::Long).sanitize();
    assert_eq!(p.content.chars().count(), 50000);
    let p = post(&"y".repeat(2000), PubkyAppPostKind::Long).sanitize();
    assert_eq!(p.content.chars().count(), 2000);
}

#[test]
fn post_deleted_marker_is_replaced() {
    let p = post("[DELETED]", PubkyAppPostKind::Short).sanitize();
    assert_eq!(p.content, "empty");
    let p = post("  [DELETED]  ", PubkyAppPostKind::Short).sanitize();
    assert_eq!(p.content, "empty");
    let p = post("[DELETED] not", PubkyAppPostKind::Short).sanitize();
    assert_eq!(p.content, "[DELETED] not");
}

#[test]
fn post_content_is_trimmed() {
    let p = post("  hello world \n", PubkyAppPostKind::Short).sanitize();
    assert_eq!(p.content, "hello world");
}

#[test]
fn post_uris_are_normalized_or_dropped() {
    let p = PubkyAppPost {
        content: "hi".to_string(),
        kind: PubkyAppPostKind::Short,
        parent: Some("not a uri".to_string()),
        embed: Some(PubkyAppPostEmbed { kind: PubkyAppPostKind::Short, uri: "HTTPS://Example.com".to_string() }),
        attachments: Some(vec![
            "bad".to_string(),
            "pubky://user/pub/pubky.app/files/1".to_string(),
            "HTTP://A.org/x".to_string(),
        ]),
    }
    .sanitize();
    assert!(p.parent.is_none());
    let e = p.embed.unwrap();
    assert_eq!(e.uri, "https://example.com/");
    assert_eq!(e.kind, PubkyAppPostKind::Short);
    assert_eq!(
        p.attachments.unwrap(),
        vec!["pubky://user/pub/pubky.app/files/1".to_string(), "http://a.org/x".to_string()]
    );
}

#[test]
fn post_bad_embed_is_dropped_and_parent_kept() {
    let p = PubkyAppPost {
        content: "hi".to_string(),
        kind: PubkyAppPostKind::Link,
        parent: Some("pubky://u/pub/pubky.app/posts/00321FCW75ZFY".to_string()),
        embed: Some(PubkyAppPostEmbed { kind: PubkyAppPostKind::Video, uri: "::".to_string() }),
        attachments: None,
    }
    .sanitize();
    assert_eq!(p.parent.unwrap(), "pubky://u/pub/pubky.app/posts/00321FCW75ZFY");
    assert!(p.embed.is_none());
    assert!(p.attachments.is_none());
}

#[test]
fn post_sanitize_twice_is_sanitize_once() {
    let once = post("  some words  ", PubkyAppPostKind::Short).sanitize();
    let twice = post(&once.content, PubkyAppPostKind::Short).sanitize();
    assert_eq!(once.content, twice.content);
}

#[test]
fn post_validate_errors() {
    let p = post(&"z".repeat(1001), PubkyAppPostKind::Short);
    assert_eq!(p.validate("INVALIDID"), Err(ModelError::InvalidEncoding));
    assert_eq!(p.validate("00321FCW75ZFY"), Err(ModelError::ContentTooLong));
    let p = post(&"z".repeat(1001), PubkyAppPostKind::Video);
    assert_eq!(p.validate("00321FCW75ZFY"), Err(ModelError::ContentTooLong));
    let p = post("ok", PubkyAppPostKind::Short);
    assert_eq!(p.validate("00321fcw75zfy"), Ok(()));
}

#[test]
fn post_path_and_id() {
    assert_eq!(
        PubkyAppPost::get_path("00321FCW75ZFY").unwrap(),
        "pubky:///pub/pubky.app/posts/00321FCW75ZFY"
    );
    assert!(PubkyAppPost::get_path("INVALIDID").is_none());
    let mut clock = IdClock::new();
    let a = PubkyAppPost::create_id(&mut clock).unwrap();
    let b = PubkyAppPost::create_id(&mut clock).unwrap();
    assert_eq!(a.len(), 13);
    assert!(a < b);
    assert!(post("hi", PubkyAppPostKind::Short).validate(&b).is_ok());
}

#[test]
fn post_kind_names() {
    assert_eq!(PubkyAppPostKind::default(), PubkyAppPostKind::Short);
    assert_eq!(PubkyAppPostKind::Long.as_str(), "long");
    assert_eq!(PubkyAppPostKind::File.as_str(), "file");
    assert_eq!(PubkyAppPostKind::Image.max_content_length(), 1000);
    let d = PubkyAppPost::default();
    assert_eq!(d.content, "");
    assert_eq!(d.kind, PubkyAppPostKind::Short);
}

#[test]
fn post_cut_that_ends_in_space_is_trimmed() {
    let content = format!("{} b", "a".repeat(999));
    let once = post(&content, PubkyAppPostKind::Short).sanitize();
    assert_eq!(once.content, "a".repeat(999));
    let twice = post(&once.content, PubkyAppPostKind::Short).sanitize();
    assert_eq!(twice.content, once.content);
}

#[test]
fn post_marker_revealed_by_the_cut_is_replaced() {
    let content = format!("[DELETED]{}b", " ".repeat(991));
    let p = post(&content, PubkyAppPostKind::Short).sanitize();
    assert_eq!(p.content, "empty");
}

#[test]
fn post_and_embed_clone_and_default() {
    let e = PubkyAppPostEmbed::default();
    assert_eq!(e.kind, PubkyAppPostKind::Short);
    assert_eq!(e.uri, "");
    let p = PubkyAppPost { embed: Some(e.clone()), ..post("hi", PubkyAppPostKind::Link) };
    let q = p.clone();
    assert_eq!(q.content, "hi");
    assert_eq!(q.kind, PubkyAppPostKind::Link);
    assert_eq!(q.embed.unwrap().uri, "");
}
