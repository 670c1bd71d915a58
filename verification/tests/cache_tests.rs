use hn_cli::cache::{decode_snapshot, encode_snapshot};
use hn_cli::errors::HnError;
use hn_cli::story::Story;

fn sample_story() -> Story {
    Story {
        rank: 35,
        id: "123456".to_string(),
        title: "A story about pipes | and more".to_string(),
        url: Some("https://example.com/article".to_string()),
        points: Some(142),
        author: Some("alice".to_string()),
        comments: Some(57),
        age: None,
    }
}

#[test]
fn cache_line_round_trip_with_delimiter() {
    let story = sample_story();
    let line = story.to_cache_line();
    let decoded = Story::from_cache_line(&line).expect("line should decode");
    assert_eq!(decoded, story);
}

#[test]
fn cache_line_exact_encoding() {
    let story = sample_story();
    assert_eq!(
        story.to_cache_line(),
        "35|123456|A story about pipes \u{2223} and more|https://example.com/article|142|alice|57"
    );
}

#[test]
fn cache_line_round_trip_absent_fields() {
    let story = Story {
        rank: 1,
        id: "9".to_string(),
        title: "t".to_string(),
        url: None,
        points: None,
        author: None,
        comments: None,
        age: None,
    };
    let line = story.to_cache_line();
    assert_eq!(line, "1|9|t||||");
    let decoded = Story::from_cache_line(&line).expect("line should decode");
    assert_eq!(decoded, story);
}

#[test]
fn cache_line_wrong_field_count_rejected() {
    assert!(Story::from_cache_line("1|2|3|4|5|6").is_none());
    assert!(Story::from_cache_line("1|2|3|4|5|6|7|8").is_none());
}

#[test]
fn cache_line_bad_rank_rejected() {
    assert!(Story::from_cache_line("abc|id|title|||| ").is_none());
}

#[test]
fn cache_line_bad_optional_numbers_tolerated() {
    let decoded = Story::from_cache_line("3|id|title||junk||junk").expect("should decode");
    assert_eq!(decoded.rank, 3);
    assert_eq!(decoded.points, None);
    assert_eq!(decoded.comments, None);
}

#[test]
fn loaded_story_never_carries_age() {
    let mut story = sample_story();
    story.age = Some("2 hours ago".to_string());
    let decoded = Story::from_cache_line(&story.to_cache_line()).expect("should decode");
    assert_eq!(decoded.age, None);
    // everything but the fetch-time age survives
    story.age = None;
    assert_eq!(decoded, story);
}

#[test]
fn snapshot_ttl_boundary() {
    let stories = vec![sample_story()];
    let written = encode_snapshot(1_000_000, &stories);
    // aged 299 seconds: valid
    assert!(decode_snapshot(&written, 1_000_299).is_ok());
    // aged exactly the TTL: still valid (expiry triggers strictly beyond it)
    assert!(decode_snapshot(&written, 1_000_300).is_ok());
    // aged 301 seconds: expired
    assert!(matches!(
        decode_snapshot(&written, 1_000_301),
        Err(HnError::CacheExpired)
    ));
}

#[test]
fn snapshot_round_trip() {
    let stories = vec![
        sample_story(),
        Story {
            rank: 2,
            id: "777".to_string(),
            title: "second".to_string(),
            url: None,
            points: None,
            author: None,
            comments: None,
            age: None,
        },
    ];
    let written = encode_snapshot(5_000, &stories);
    let loaded = decode_snapshot(&written, 5_100).expect("snapshot should load");
    assert_eq!(loaded, stories);
}

#[test]
fn snapshot_malformed_timestamp_skips_ttl_check() {
    let body = format!("not-a-number\n{}", sample_story().to_cache_line());
    let loaded = decode_snapshot(&body, u64::MAX).expect("should load without TTL check");
    assert_eq!(loaded.len(), 1);
}

#[test]
fn snapshot_malformed_lines_dropped_silently() {
    let good = sample_story().to_cache_line();
    let body = format!("100\nnot a story\n{}\ntoo|few|fields", good);
    let loaded = decode_snapshot(&body, 150).expect("one good line is enough");
    assert_eq!(loaded.len(), 1);
    assert_eq!(loaded[0], sample_story());
}

#[test]
fn snapshot_with_nothing_decodable_is_empty_error() {
    assert!(matches!(
        decode_snapshot("100\ngarbage\nmore garbage", 150),
        Err(HnError::CacheEmpty)
    ));
    assert!(matches!(decode_snapshot("", 0), Err(HnError::CacheEmpty)));
}

#[test]
fn error_messages_name_their_condition() {
    assert_eq!(HnError::CacheExpired.message(), "cache expired");
    assert_eq!(HnError::CacheEmpty.message(), "no stories in cache");
    assert_eq!(
        HnError::EmptyPage(4).message(),
        "no stories found on page 4; the page structure may have changed"
    );
    assert_eq!(HnError::Transport("send failed".to_string()).message(), "send failed");
}
