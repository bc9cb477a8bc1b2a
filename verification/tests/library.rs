use znet::peers::{LivelinessKind, PeerTable};
use znet::routing::{dispatch_msg, DispatchError};
use znet::topic::{
    is_wildcard, keyed_topic, liveliness_subscription_key, liveliness_token_key,
    parse_liveliness_key,
};
use znet::{Args, Message, Queryable, Subscriber};

fn table(zids: &[&str]) -> PeerTable {
    let mut t = PeerTable::new(zids[0].to_string());
    for z in &zids[1..] {
        t.peer_alive(z);
    }
    t
}

fn zids(t: &PeerTable) -> Vec<String> {
    (0..t.len()).map(|i| t.zid(i)).collect()
}

#[test]
fn message_new_keeps_topic_and_payload() {
    let m = Message::new("topic", vec![1, 2, 3]);
    assert_eq!(m.topic, "topic");
    assert_eq!(m.payload, vec![1, 2, 3]);
}

#[test]
fn message_from_query_with_and_without_payload() {
    let m = Message::from_query("a/b", Some(vec![9, 8]));
    assert_eq!(m, Message::new("a/b", vec![9, 8]));
    let m = Message::from_query("a/b", None);
    assert_eq!(m.topic, "a/b");
    assert!(m.payload.is_empty());
}

#[test]
fn subscriber_keeps_topic_and_callback() {
    let mut seen = Vec::new();
    let mut s = Subscriber::new("topic", move |m: Message| seen.push(m.payload.len()));
    assert_eq!(s.topic(), "topic");
    (s.callback)(Message::new("topic", vec![0; 4]));
}

#[test]
fn queryable_keeps_topic_and_callback() {
    let mut q = Queryable::new("svc", |m: Message| Message::new("reply", m.payload));
    assert_eq!(q.topic(), "svc");
    let reply = (q.callback)(Message::new("svc", vec![7]));
    assert_eq!(reply, Message::new("reply", vec![7]));
}

#[test]
fn args_default_config_path() {
    assert_eq!(Args::default().config, "config/config.toml");
}

#[test]
fn wildcard_topics() {
    assert!(is_wildcard("topic/*"));
    assert!(is_wildcard("topic/**"));
    assert!(!is_wildcard("topic"));
    assert!(!is_wildcard("topic*"));
    assert!(!is_wildcard("topic/a*"));
    assert!(!is_wildcard(""));
}

#[test]
fn keys_are_formed_with_a_slash() {
    assert_eq!(keyed_topic("topic", "abc"), "topic/abc");
    assert_eq!(liveliness_token_key("abc"), "liveliness/abc");
    assert_eq!(liveliness_subscription_key(), "liveliness/**");
}

#[test]
fn liveliness_key_roundtrip_and_rejection() {
    assert_eq!(parse_liveliness_key(&liveliness_token_key("z1")), Some("z1"));
    assert_eq!(parse_liveliness_key("liveliness/"), Some(""));
    assert_eq!(parse_liveliness_key("other/z1"), None);
    assert_eq!(parse_liveliness_key("liveliness"), None);
}

#[test]
fn new_table_holds_self_only() {
    let t = PeerTable::new("me".to_string());
    assert_eq!(zids(&t), vec!["me"]);
}

#[test]
fn peer_alive_appends_once() {
    let mut t = table(&["me"]);
    assert!(t.peer_alive("a"));
    assert!(t.peer_alive("b"));
    assert!(!t.peer_alive("a"));
    assert!(!t.peer_alive("me"));
    assert_eq!(zids(&t), vec!["me", "a", "b"]);
}

#[test]
fn peer_dropped_keeps_order_and_self() {
    let mut t = table(&["me", "a", "b", "c"]);
    assert!(t.peer_dropped("b"));
    assert_eq!(zids(&t), vec!["me", "a", "c"]);
    assert!(!t.peer_dropped("me"));
    assert!(!t.peer_dropped("zz"));
    assert_eq!(zids(&t), vec!["me", "a", "c"]);
}

#[test]
fn alive_then_dropped_restores_table() {
    let mut t = table(&["me", "a"]);
    t.peer_alive("n");
    t.peer_dropped("n");
    assert_eq!(zids(&t), vec!["me", "a"]);
}

#[test]
fn on_liveliness_applies_samples() {
    let mut t = table(&["me"]);
    assert_eq!(t.on_liveliness("liveliness/p1", LivelinessKind::Put), Some("p1".to_string()));
    assert_eq!(t.on_liveliness("liveliness/p2", LivelinessKind::Put), Some("p2".to_string()));
    assert_eq!(zids(&t), vec!["me", "p1", "p2"]);
    assert_eq!(t.on_liveliness("liveliness/p1", LivelinessKind::Delete), Some("p1".to_string()));
    assert_eq!(zids(&t), vec!["me", "p2"]);
    assert_eq!(t.on_liveliness("liveliness/me", LivelinessKind::Delete), Some("me".to_string()));
    assert_eq!(zids(&t), vec!["me", "p2"]);
    assert_eq!(t.on_liveliness("elsewhere/p3", LivelinessKind::Put), None);
    assert_eq!(zids(&t), vec!["me", "p2"]);
}

#[test]
fn dispatch_wildcard_is_unchanged() {
    let t = table(&["me"]);
    let mut last = 7usize;
    assert_eq!(dispatch_msg("topic/*", &t, &mut last), Ok("topic/*".to_string()));
    assert_eq!(dispatch_msg("topic/**", &t, &mut last), Ok("topic/**".to_string()));
    assert_eq!(last, 7);
}

#[test]
fn dispatch_without_peer_fails() {
    let t = table(&["me"]);
    let mut last = 0usize;
    assert_eq!(dispatch_msg("topic", &t, &mut last), Err(DispatchError::NoAlivePeer));
    assert_eq!(last, 0);
}

#[test]
fn dispatch_round_robin_skips_self() {
    let t = table(&["me", "a", "b", "c"]);
    let mut last = 0usize;
    let mut got = Vec::new();
    for _ in 0..6 {
        got.push(dispatch_msg("topic", &t, &mut last).unwrap());
    }
    assert_eq!(
        got,
        vec!["topic/a", "topic/b", "topic/c", "topic/a", "topic/b", "topic/c"]
    );
    assert_eq!(last, 3);
}

#[test]
fn dispatch_after_peer_left_wraps() {
    let mut t = table(&["me", "a", "b", "c"]);
    let mut last = 3usize;
    t.peer_dropped("c");
    assert_eq!(dispatch_msg("x", &t, &mut last), Ok("x/a".to_string()));
    assert_eq!(last, 1);
    let mut big = usize::MAX;
    assert_eq!(dispatch_msg("x", &t, &mut big), Ok("x/a".to_string()));
    assert_eq!(big, 1);
}

#[test]
fn dispatch_single_peer_always_chosen() {
    let t = table(&["me", "only"]);
    let mut last = 0usize;
    for _ in 0..3 {
        assert_eq!(dispatch_msg("t", &t, &mut last), Ok("t/only".to_string()));
        assert_eq!(last, 1);
    }
}

#[test]
fn distinct_peers_get_distinct_keys() {
    assert_ne!(keyed_topic("topic", "a"), keyed_topic("topic", "b"));
    assert_eq!(keyed_topic("topic", "a"), keyed_topic("topic", "a"));
}

#[test]
fn dispatch_reaches_the_subscription_key_of_the_chosen_peer() {
    let t = table(&["me", "p"]);
    let mut last = 0usize;
    let key = dispatch_msg("sensor", &t, &mut last).unwrap();
    assert_eq!(key, keyed_topic("sensor", &t.zid(last)));
}

#[test]
fn on_liveliness_put_twice_is_once() {
    let mut t = table(&["me"]);
    t.on_liveliness("liveliness/p", LivelinessKind::Put);
    t.on_liveliness("liveliness/p", LivelinessKind::Put);
    assert_eq!(zids(&t), vec!["me", "p"]);
}

#[test]
fn keyed_cache_gives_back_what_was_put() {
    let mut cache = znet::KeyedCache::new();
    assert_eq!(cache.get("t/a"), None);
    cache.insert("t/a".to_string(), 1);
    cache.insert("t/b".to_string(), 2);
    assert_eq!(cache.get("t/a"), Some(&1));
    assert_eq!(cache.get("t/b"), Some(&2));
    cache.insert("t/a".to_string(), 3);
    assert_eq!(cache.get("t/a"), Some(&3));
    assert_eq!(cache.get("t/b"), Some(&2));
    assert_eq!(cache.get("t/c"), None);
}

#[test]
fn dispatch_error_message() {
    assert_eq!(DispatchError::NoAlivePeer.message(), "no alive peer");
}

#[test]
fn keys_with_non_ascii_chars() {
    assert!(is_wildcard("café/*"));
    assert!(!is_wildcard("café"));
    assert_eq!(parse_liveliness_key("liveliness/zé"), Some("zé"));
    assert_eq!(parse_liveliness_key("livéliness/z"), None);
}
