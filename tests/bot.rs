use dcsbot::bot::{
    classify, subscribe_message, Bot, Edit, EditResult, ErrorClass, RemoteError, Sub,
};
use dcsbot::dcs::{Server, Servers};

fn server(name: &str) -> Server {
    Server {
        NAME: name.to_string(),
        MISSION_NAME: "M".to_string(),
        PLAYERS: "1".to_string(),
        IP_ADDRESS: "1.2.3.4".to_string(),
        PORT: "1".to_string(),
        DCS_VERSION: "1".to_string(),
    }
}

fn bot() -> Bot {
    Bot::new("token".to_string(), "subs.json".to_string())
}

#[test]
fn new_uses_default_path() {
    let b = Bot::new("t".to_string(), String::new());
    assert_eq!(b.config_path, "config.json");
    assert!(b.channels.is_empty());
    let b2 = bot();
    assert_eq!(b2.config_path, "subs.json");
    assert_eq!(b2.token, "token");
}

#[test]
fn subscribe_scenario() {
    let mut b = bot();
    let save = b.subscribe_channel(42, "europe".to_string(), Ok(99));
    assert!(save);
    let sub = b.channels.get(&42).unwrap();
    assert_eq!(sub.message_id, 99);
    assert_eq!(sub.filter, "europe");
    assert_eq!(sub.last_content, subscribe_message("europe"));
    assert!(sub.last_content.starts_with("Server listing with filter 'europe' is being prepared..."));
    let records = b.channel_records();
    assert_eq!(records.len(), 1);
    assert_eq!(records[0].0, 42);
    assert_eq!(records[0].1.message_id, 99);
    assert_eq!(records[0].1.filter, "europe");
}

#[test]
fn subscribe_failure_changes_nothing() {
    let mut b = bot();
    let save = b.subscribe_channel(42, "europe".to_string(), Err(RemoteError::Other));
    assert!(!save);
    assert!(b.channels.is_empty());
}

#[test]
fn resubscribe_replaces() {
    let mut b = bot();
    b.subscribe_channel(42, "europe".to_string(), Ok(99));
    b.subscribe_channel(42, "asia".to_string(), Ok(100));
    assert_eq!(b.channels.len(), 1);
    assert_eq!(b.channels[&42].message_id, 100);
    assert_eq!(b.channels[&42].filter, "asia");
}

#[test]
fn unsubscribe_missing_is_noop() {
    let mut b = bot();
    b.subscribe_channel(1, "x".to_string(), Ok(5));
    assert_eq!(b.unsubscribe_channel(2), None);
    assert_eq!(b.channels.len(), 1);
}

#[test]
fn unsubscribe_known_returns_message() {
    let mut b = bot();
    b.subscribe_channel(1, "x".to_string(), Ok(5));
    assert_eq!(b.unsubscribe_channel(1), Some(5));
    assert!(b.channels.is_empty());
}

#[test]
fn classify_codes() {
    assert_eq!(classify(&RemoteError::Api(10008)), ErrorClass::Terminal);
    assert_eq!(classify(&RemoteError::Api(10003)), ErrorClass::Terminal);
    assert_eq!(classify(&RemoteError::Api(50001)), ErrorClass::Terminal);
    assert_eq!(classify(&RemoteError::Api(429)), ErrorClass::Transient);
    assert_eq!(classify(&RemoteError::Other), ErrorClass::Transient);
}

#[test]
fn broadcast_error_handling() {
    let b = bot();
    assert_eq!(b.handle_broadcast_error(&RemoteError::Api(10008), 9, 7), Some(7));
    assert_eq!(b.handle_broadcast_error(&RemoteError::Api(500), 9, 7), None);
}

#[test]
fn plan_skips_unchanged() {
    let mut b = bot();
    b.subscribe_channel(1, "alpha".to_string(), Ok(10));
    b.subscribe_channel(2, "beta".to_string(), Ok(20));
    let servers = Servers { SERVERS: vec![server("alpha base"), server("beta base")] };
    let current = b.render_servers(&servers, &"alpha".to_string());
    b.channels.get_mut(&1).unwrap().last_content = current;
    let edits = b.plan_broadcast(&servers);
    assert_eq!(edits.len(), 1);
    assert_eq!(edits[0].channel_id, 2);
    assert_eq!(edits[0].message_id, 20);
    assert!(edits[0].content.contains("beta base"));
}

#[test]
fn broadcast_updates_last_content() {
    let mut b = bot();
    b.subscribe_channel(1, "alpha".to_string(), Ok(10));
    let servers = Servers { SERVERS: vec![server("alpha base")] };
    let edits = b.plan_broadcast(&servers);
    assert_eq!(edits.len(), 1);
    let results = edits.into_iter().map(|edit| EditResult { edit, outcome: Ok(()) }).collect();
    let removed = b.finish_broadcast(results);
    assert!(removed.is_empty());
    assert!(b.plan_broadcast(&servers).is_empty());
}

#[test]
fn terminal_error_scenario() {
    let mut b = bot();
    b.subscribe_channel(1, "alpha".to_string(), Ok(10));
    b.subscribe_channel(2, "alpha".to_string(), Ok(20));
    b.subscribe_channel(3, "alpha".to_string(), Ok(30));
    let servers = Servers { SERVERS: vec![server("alpha base")] };
    let edits = b.plan_broadcast(&servers);
    assert_eq!(edits.len(), 3);
    let results: Vec<EditResult> = edits
        .into_iter()
        .map(|edit| {
            let outcome = match edit.channel_id {
                1 => Err(RemoteError::Api(10008)),
                2 => Err(RemoteError::Api(10003)),
                _ => Err(RemoteError::Other),
            };
            EditResult { edit, outcome }
        })
        .collect();
    let mut removed = b.finish_broadcast(results);
    removed.sort();
    assert_eq!(removed, vec![(1, 10), (2, 20)]);
    assert_eq!(b.channels.len(), 1);
    assert!(b.channels.contains_key(&3));
}

#[test]
fn finish_ignores_edit_of_replaced_message() {
    let mut b = bot();
    b.subscribe_channel(1, "alpha".to_string(), Ok(10));
    let edit = Edit { channel_id: 1, message_id: 11, content: "new".to_string() };
    let removed = b.finish_broadcast(vec![EditResult { edit, outcome: Ok(()) }]);
    assert!(removed.is_empty());
    assert_eq!(b.channels[&1].last_content, subscribe_message("alpha"));
}

#[test]
fn restart_round_trip() {
    let mut b = bot();
    b.subscribe_channel(1, "alpha".to_string(), Ok(10));
    b.subscribe_channel(2, "beta".to_string(), Ok(20));
    let records = b.channel_records();
    let mut fresh = bot();
    fresh.restore_channels(records);
    assert_eq!(fresh.channels.len(), 2);
    for (ch, sub) in b.channels.iter() {
        let other = &fresh.channels[ch];
        assert_eq!(other.message_id, sub.message_id);
        assert_eq!(other.filter, sub.filter);
        assert_eq!(other.last_content, sub.last_content);
    }
}

#[test]
fn restore_later_record_wins() {
    let mut b = bot();
    let one = Sub { message_id: 1, filter: "a".to_string(), last_content: "x".to_string() };
    let two = Sub { message_id: 2, filter: "b".to_string(), last_content: "y".to_string() };
    b.restore_channels(vec![(5, one), (5, two)]);
    assert_eq!(b.channels.len(), 1);
    assert_eq!(b.channels[&5].message_id, 2);
}

#[test]
fn set_versions_changes_render() {
    let mut b = bot();
    let servers = Servers { SERVERS: vec![server("alpha")] };
    b.set_versions("1".to_string(), "0".to_string());
    assert!(b.render_servers(&servers, &String::new()).contains("Open Beta (1)"));
    b.set_versions("2".to_string(), "1".to_string());
    assert!(b.render_servers(&servers, &String::new()).contains("Stable (1)"));
}
