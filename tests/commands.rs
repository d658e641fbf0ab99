use dcsbot::dcs::{
    check_login, login_form, parse_cookie, parse_versions, split_all, versions_due, LoginError,
};
use dcsbot::handler::{parse_command, Command};

#[test]
fn command_not_for_us() {
    assert!(matches!(parse_command("hello"), Command::Ignore));
    assert!(matches!(parse_command("!dcsbotx subscribe a"), Command::Ignore));
    assert!(matches!(parse_command(""), Command::Ignore));
}

#[test]
fn command_help() {
    assert!(matches!(parse_command("!dcsbot"), Command::Help));
}

#[test]
fn command_subscribe() {
    match parse_command("!dcsbot subscribe new  zealand") {
        Command::Subscribe(f) => assert_eq!(f, "new  zealand"),
        _ => panic!("expected a subscription"),
    }
}

#[test]
fn command_missing_filter() {
    assert!(matches!(parse_command("!dcsbot subscribe"), Command::MissingFilter));
    assert!(matches!(parse_command("!dcsbot subscribe "), Command::MissingFilter));
}

#[test]
fn command_unsubscribe_and_unknown() {
    assert!(matches!(parse_command("!dcsbot unsubscribe"), Command::Unsubscribe));
    assert!(matches!(parse_command("!dcsbot unsubscribe now"), Command::Unsubscribe));
    assert!(matches!(parse_command("!dcsbot help"), Command::Unknown));
    assert!(matches!(parse_command("!dcsbot "), Command::Unknown));
}

#[test]
fn split_pieces() {
    assert_eq!(split_all("a/b//c", "/"), vec!["a", "b", "", "c"]);
    assert_eq!(split_all("abc", "/"), vec!["abc"]);
    assert_eq!(split_all("xxx", "xx"), vec!["", "x"]);
}

#[test]
fn versions_found() {
    let page = "<a href=\"/en/news/changelog/openbeta/\">x</a>\
        <a href=\"/en/news/changelog/openbeta/2.9.1.123/\">y</a>\
        <a href=\"/en/news/changelog/stable/\">x</a>\
        <a href=\"/en/news/changelog/stable/2.8.7.456/\">y</a>";
    let (beta, stable) = parse_versions(page).unwrap();
    assert_eq!(beta, "2.9.1.123");
    assert_eq!(stable, "2.8.7.456");
}

#[test]
fn versions_missing() {
    assert_eq!(parse_versions("nothing").unwrap_err(), "Beta version not found");
    let page = "/en/news/changelog/openbeta/ /en/news/changelog/openbeta/1/";
    assert_eq!(parse_versions(page).unwrap_err(), "Stable version not found");
}

#[test]
fn cookies_joined() {
    let headers = vec![
        ("set-cookie".to_string(), "A=1".to_string()),
        ("content-type".to_string(), "text/html".to_string()),
        ("set-cookie".to_string(), "BITRIX_SM_UIDL=me".to_string()),
    ];
    let c = parse_cookie(&headers);
    assert_eq!(c, "A=1, BITRIX_SM_UIDL=me");
    assert_eq!(check_login(c.clone()), Ok(c));
    assert_eq!(parse_cookie(&vec![]), "");
}

#[test]
fn login_rejected_without_session_cookie() {
    assert_eq!(check_login("A=1".to_string()), Err(LoginError::Rejected));
    assert_eq!(LoginError::Rejected.message(), "username/password incorrect");
}

#[test]
fn login_form_body() {
    assert_eq!(
        login_form("me", "pw").unwrap(),
        "AUTH_FORM=Y&TYPE=AUTH&backurl=%2Fen%2F&USER_LOGIN=me&USER_PASSWORD=pw&USER_REMEMBER=Y&Login=Authorize"
    );
    assert_eq!(login_form("", "pw"), Err(LoginError::MissingCredentials));
    assert_eq!(login_form("me", ""), Err(LoginError::MissingCredentials));
    assert_eq!(LoginError::MissingCredentials.message(), "No username or password");
}

#[test]
fn versions_due_after_three_hours() {
    assert!(versions_due(10801, 0));
    assert!(!versions_due(10800, 0));
    assert!(!versions_due(5, 10));
}
