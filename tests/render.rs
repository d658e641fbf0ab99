use dcsbot::dcs::{Server, Servers};
use dcsbot::render::{
    format_block, format_players, format_version, render, sanitize_name, MAX_BLOCKS,
    MESSAGE_CEILING,
};

fn server(name: &str, version: &str) -> Server {
    Server {
        NAME: name.to_string(),
        MISSION_NAME: "Mission".to_string(),
        PLAYERS: "3".to_string(),
        IP_ADDRESS: "10.0.0.1".to_string(),
        PORT: "10308".to_string(),
        DCS_VERSION: version.to_string(),
    }
}

fn s(x: &str) -> String {
    x.to_string()
}

#[test]
fn sanitize_unescapes_amp() {
    assert_eq!(sanitize_name("Foo &amp; Bar"), "Foo & Bar");
}

#[test]
fn sanitize_unescapes_in_order() {
    assert_eq!(sanitize_name("a &gt; b &lt; c"), "a > b < c");
    assert_eq!(sanitize_name("&amp;gt;"), ">");
}

#[test]
fn sanitize_removes_space_at_wrap_column() {
    let name = "ABCDEFGHIJKLMNOPQRST UVW";
    assert_eq!(name.find(' '), Some(20));
    assert_eq!(sanitize_name(name), "ABCDEFGHIJKLMNOPQRSTUVW");
}

#[test]
fn sanitize_keeps_space_when_an_earlier_one_exists() {
    let name = "AB DEFGHIJKLMNOPQRST UVW";
    assert_eq!(sanitize_name(name), name);
}

#[test]
fn sanitize_strips_non_ascii() {
    assert_eq!(sanitize_name("★ Caucasus ★ Ops"), "Caucasus  Ops");
    assert_eq!(sanitize_name("Ünïcode"), "ncode");
}

#[test]
fn sanitize_trims_whitespace() {
    assert_eq!(sanitize_name("  \tname \n"), "name");
    assert_eq!(sanitize_name(""), "");
}

#[test]
fn players_zero() {
    assert_eq!(format_players("1"), "0 players");
}

#[test]
fn players_one() {
    assert_eq!(format_players("2"), "__1 player__");
}

#[test]
fn players_many() {
    assert_eq!(format_players("5"), "__4 players__");
    assert_eq!(format_players("+12"), "__11 players__");
}

#[test]
fn players_below_one() {
    assert_eq!(format_players("0"), "__-1 players__");
}

#[test]
fn players_not_a_number_is_shown_as_is() {
    assert_eq!(format_players("many"), "many");
    assert_eq!(format_players(""), "");
    assert_eq!(format_players("99999999999"), "99999999999");
}

#[test]
fn version_named_when_current() {
    let beta = s("2.9.1");
    let stable = s("2.8.0");
    assert_eq!(format_version(&s("2.9.1"), &beta, &stable), "Open Beta (2.9.1)");
    assert_eq!(format_version(&s("2.8.0"), &beta, &stable), "Stable (2.8.0)");
    assert_eq!(format_version(&s("2.7.0"), &beta, &stable), "2.7.0");
}

#[test]
fn block_text_exact() {
    let sv = server("My &amp; Server", "2.9.1");
    let b = format_block(&sv, &s("2.9.1"), &s("2.8.0"));
    assert_eq!(b, "**My & Server - Mission**\n__2 players__, Open Beta (2.9.1), 10.0.0.1:10308\n\n");
}

#[test]
fn render_filters_case_insensitively() {
    let servers = Servers {
        SERVERS: vec![server("Europe One", "1"), server("Asia", "1"), server("EUROPE two", "1")],
    };
    let out = render(&servers, &s("europe"), &s(""), &s(""));
    assert!(out.contains("Europe One"));
    assert!(out.contains("EUROPE two"));
    assert!(!out.contains("Asia"));
    let out2 = render(&servers, &s("EuRoPe"), &s(""), &s(""));
    assert_eq!(out, out2);
}

#[test]
fn render_empty_filter_keeps_all() {
    let servers = Servers { SERVERS: vec![server("A", "1"), server("B", "1")] };
    let out = render(&servers, &s(""), &s(""), &s(""));
    assert_eq!(out.matches("**\n").count(), 2);
}

#[test]
fn render_nothing_matches() {
    let servers = Servers { SERVERS: vec![server("A", "1")] };
    assert_eq!(render(&servers, &s("zzz"), &s(""), &s("")), "");
    let empty = Servers { SERVERS: vec![] };
    assert_eq!(render(&empty, &s(""), &s(""), &s("")), "");
}

#[test]
fn render_orders_by_version_latest_first() {
    let servers = Servers {
        SERVERS: vec![
            server("Old", "2.5.0"),
            server("New", "2.9.0"),
            server("Mid", "2.7.0"),
            server("Mid2", "2.7.0"),
        ],
    };
    let out = render(&servers, &s(""), &s(""), &s(""));
    let new = out.find("**New").unwrap();
    let mid2 = out.find("**Mid2").unwrap();
    let mid = out.find("**Mid -").unwrap();
    let old = out.find("**Old").unwrap();
    assert!(new < mid2 && mid2 < mid && mid < old);
}

#[test]
fn render_caps_block_count() {
    let mut list = vec![];
    for i in 0..15 {
        list.push(server(&format!("S{}", i), "1"));
    }
    let servers = Servers { SERVERS: list };
    let out = render(&servers, &s(""), &s(""), &s(""));
    assert_eq!(MAX_BLOCKS, 11);
    assert_eq!(out.matches("**\n").count(), MAX_BLOCKS);
}

#[test]
fn render_is_deterministic() {
    let servers = Servers { SERVERS: vec![server("A", "2"), server("B", "1"), server("C", "2")] };
    let a = render(&servers, &s(""), &s("2"), &s("1"));
    let b = render(&servers, &s(""), &s("2"), &s("1"));
    assert_eq!(a, b);
}

#[test]
fn render_cut_at_ceiling() {
    let long = "N".repeat(400);
    let mut list = vec![];
    for _ in 0..8 {
        list.push(server(&long, "1"));
    }
    let servers = Servers { SERVERS: list };
    let out = render(&servers, &s(""), &s(""), &s(""));
    assert_eq!(MESSAGE_CEILING, 1999);
    assert_eq!(out.chars().count(), MESSAGE_CEILING);
    assert!(out.starts_with("**NNNN"));
}
