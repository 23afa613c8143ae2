use archivindex::tweet::{canonical_tweet_url, data, flat, TweetSnapshot};

fn data_snapshot() -> data::TweetSnapshot {
    data::TweetSnapshot {
        data: data::Data { id: 999825423977639936, author_id: 42 },
        includes: data::Includes {
            tweets: None,
            users: vec![
                data::User { id: 7, username: "other".to_string() },
                data::User { id: 42, username: "farleftwatch".to_string() },
            ],
            media: None,
            polls: None,
            places: None,
        },
        errors: None,
    }
}

#[test]
fn lookup_user_finds_by_id() {
    let snapshot = data_snapshot();
    assert_eq!(snapshot.lookup_user(42).unwrap().username, "farleftwatch");
    assert!(snapshot.lookup_user(1).is_none());
}

#[test]
fn canonical_url_shapes() {
    let snapshot = data_snapshot();
    let name = snapshot.user_screen_name().unwrap();
    let url = canonical_tweet_url(name, snapshot.id(), false);
    assert_eq!(url, "https://twitter.com/farleftwatch/status/999825423977639936");
    let url_x = canonical_tweet_url(name, snapshot.id(), true);
    assert_eq!(url_x, "https://x.com/farleftwatch/status/999825423977639936");
}

#[test]
fn flat_snapshot_accessors() {
    let snapshot = flat::TweetSnapshot {
        id_str: 123,
        user: flat::User { id_str: 9, screen_name: "someone".to_string() },
    };
    assert_eq!(snapshot.id(), 123);
    assert_eq!(snapshot.user_id(), 9);
    assert_eq!(snapshot.user_screen_name(), Some("someone"));
    assert_eq!(
        canonical_tweet_url(snapshot.user_screen_name().unwrap(), snapshot.id(), false),
        "https://twitter.com/someone/status/123"
    );
}
