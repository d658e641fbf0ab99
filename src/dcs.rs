//! The shapes of the server directory's data, as the poller hands them over.
use vstd::prelude::*;
use vstd::string::*;

use crate::text::{contains, contains_text, copy_text, occurs_at, occurs_at_index};

verus! {

/// One entry of the server directory, with the directory's own field names.
#[allow(non_snake_case)]
#[derive(Clone, Debug)]
pub struct Server {
    pub NAME: String,
    pub MISSION_NAME: String,
    pub PLAYERS: String,
    pub IP_ADDRESS: String,
    pub PORT: String,
    pub DCS_VERSION: String,
}

/// The text of each field of a [`Server`].
pub struct ServerView {
    pub name: Seq<char>,
    pub mission_name: Seq<char>,
    pub players: Seq<char>,
    pub ip: Seq<char>,
    pub port: Seq<char>,
    pub version: Seq<char>,
}

impl View for Server {
    type V = ServerView;

    open spec fn view(&self) -> ServerView {
        ServerView {
            name: self.NAME@,
            mission_name: self.MISSION_NAME@,
            players: self.PLAYERS@,
            ip: self.IP_ADDRESS@,
            port: self.PORT@,
            version: self.DCS_VERSION@,
        }
    }
}

/// One poll of the server directory: the full list, replacing the previous one.
#[allow(non_snake_case)]
#[derive(Clone, Debug)]
pub struct Servers {
    pub SERVERS: Vec<Server>,
}

impl View for Servers {
    type V = Seq<ServerView>;

    open spec fn view(&self) -> Seq<ServerView> {
        self.SERVERS@.map_values(|s: Server| s@)
    }
}

/// What the poller sends: a new server list, or the current
/// (open beta, stable) version labels.
pub enum ServersMessage {
    Servers(Servers),
    Versions((String, String)),
}

/// The pieces of `s[start..]` between occurrences of `pat`, scanning from
/// index `i` on, where the current piece starts at `start`.
pub open spec fn pieces_from(s: Seq<char>, pat: Seq<char>, start: int, i: int) -> Seq<Seq<char>>
    decreases s.len() - i,
{
    if pat.len() == 0 || i + pat.len() > s.len() {
        seq![s.subrange(start, s.len() as int)]
    } else if occurs_at(s, pat, i) {
        seq![s.subrange(start, i)] + pieces_from(s, pat, i + pat.len(), i + pat.len())
    } else {
        pieces_from(s, pat, start, i + 1)
    }
}

/// The pieces of `s` between the non-overlapping occurrences of `pat`, found
/// from the left; an empty pattern gives `s` as the one piece.
pub open spec fn split_text(s: Seq<char>, pat: Seq<char>) -> Seq<Seq<char>> {
    pieces_from(s, pat, 0, 0)
}

/// Splits a text at the occurrences of a pattern (see [`split_text`]).
pub fn split_all(s: &str, pat: &str) -> (r: Vec<String>)
    ensures
        r@.map_values(|x: String| x@) == split_text(s@, pat@),
        r.len() >= 1,
{
    let n = s.unicode_len();
    let p = pat.unicode_len();
    let mut done: Vec<String> = Vec::new();
    if p == 0 {
        done.push(copy_text(s));
        assert(s@.subrange(0, n as int) =~= s@);
        assert(done@.map_values(|x: String| x@) =~= split_text(s@, pat@));
        return done;
    }
    let mut start: usize = 0;
    let mut i: usize = 0;
    while i <= n && p <= n - i
        invariant
            n == s@.len(),
            p == pat@.len(),
            p > 0,
            start <= i <= n,
            done@.map_values(|x: String| x@) + pieces_from(s@, pat@, start as int, i as int)
                == split_text(s@, pat@),
        ensures
            start <= i <= n,
            i + p > n,
            done@.map_values(|x: String| x@) + pieces_from(s@, pat@, start as int, i as int)
                == split_text(s@, pat@),
        decreases n - i,
    {
        let ghost before = done@.map_values(|x: String| x@);
        if occurs_at_index(s, pat, i) {
            let piece = copy_text(s.substring_char(start, i));
            done.push(piece);
            assert(done@.map_values(|x: String| x@) =~= before.push(s@.subrange(start as int, i as int)));
            assert(before + pieces_from(s@, pat@, start as int, i as int) =~= done@.map_values(
                |x: String| x@,
            ) + pieces_from(s@, pat@, (i + p) as int, (i + p) as int));
            i = i + p;
            start = i;
        } else {
            i = i + 1;
        }
    }
    let ghost before = done@.map_values(|x: String| x@);
    done.push(copy_text(s.substring_char(start, n)));
    assert(done@.map_values(|x: String| x@) =~= before + seq![s@.subrange(start as int, n as int)]);
    done
}

/// The text that marks the open beta version on the changelog page.
pub open spec fn beta_marker() -> Seq<char> {
    "/en/news/changelog/openbeta/"@
}

/// The text that marks the stable version on the changelog page.
pub open spec fn stable_marker() -> Seq<char> {
    "/en/news/changelog/stable/"@
}

/// The version label that a changelog page gives after a marker: the text
/// after its second occurrence, up to the next `/`; none when the marker
/// occurs fewer than two times.
pub open spec fn version_label(text: Seq<char>, marker: Seq<char>) -> Option<Seq<char>> {
    let ps = split_text(text, marker);
    if ps.len() > 2 {
        Some(split_text(ps[2], "/"@)[0])
    } else {
        None
    }
}

/// The version label after a marker (see [`version_label`]).
pub fn find_version(text: &str, marker: &str) -> (r: Option<String>)
    ensures
        match r {
            Some(v) => version_label(text@, marker@) == Some(v@),
            None => version_label(text@, marker@) is None,
        },
{
    let pieces = split_all(text, marker);
    if pieces.len() <= 2 {
        return None;
    }
    let parts = split_all(pieces[2].as_str(), "/");
    assert(parts@.map_values(|x: String| x@)[0] == parts@[0]@);
    assert(pieces@.map_values(|x: String| x@)[2] == pieces@[2]@);
    Some(copy_text(parts[0].as_str()))
}

/// The (open beta, stable) version labels of the changelog page, or which
/// one is missing.
pub fn parse_versions(text: &str) -> (r: Result<(String, String), String>)
    ensures
        match r {
            Ok((beta, stable)) => {
                &&& version_label(text@, beta_marker()) == Some(beta@)
                &&& version_label(text@, stable_marker()) == Some(stable@)
            },
            Err(e) => {
                ||| version_label(text@, beta_marker()) is None && e@
                    == "Beta version not found"@
                ||| version_label(text@, beta_marker()) is Some && version_label(
                    text@,
                    stable_marker(),
                ) is None && e@ == "Stable version not found"@
            },
        },
{
    let beta = match find_version(text, "/en/news/changelog/openbeta/") {
        Some(v) => v,
        None => {
            return Err(String::from_str("Beta version not found"));
        },
    };
    let stable = match find_version(text, "/en/news/changelog/stable/") {
        Some(v) => v,
        None => {
            return Err(String::from_str("Stable version not found"));
        },
    };
    Ok((beta, stable))
}

/// The values of the `set-cookie` headers among `hs`, in order.
pub open spec fn cookie_values(hs: Seq<(String, String)>) -> Seq<Seq<char>>
    decreases hs.len(),
{
    if hs.len() == 0 {
        Seq::empty()
    } else if hs.last().0@ == "set-cookie"@ {
        cookie_values(hs.drop_last()).push(hs.last().1@)
    } else {
        cookie_values(hs.drop_last())
    }
}

/// The texts with `sep` between each two.
pub open spec fn join(parts: Seq<Seq<char>>, sep: Seq<char>) -> Seq<char>
    decreases parts.len(),
{
    if parts.len() == 0 {
        Seq::empty()
    } else if parts.len() == 1 {
        parts[0]
    } else {
        join(parts.drop_last(), sep) + sep + parts.last()
    }
}

/// The cookie string of a response: the values of its `set-cookie` headers,
/// given as (name, value) pairs with lowercase names, joined by `, `.
pub fn parse_cookie(headers: &Vec<(String, String)>) -> (r: String)
    ensures
        r@ == join(cookie_values(headers@), ", "@),
{
    let name = String::from_str("set-cookie");
    let mut r = String::new();
    let mut any = false;
    let mut i: usize = 0;
    while i < headers.len()
        invariant
            i <= headers.len(),
            name@ == "set-cookie"@,
            any == (cookie_values(headers@.take(i as int)).len() > 0),
            r@ == join(cookie_values(headers@.take(i as int)), ", "@),
        decreases headers.len() - i,
    {
        assert(headers@.take(i + 1).drop_last() =~= headers@.take(i as int));
        if headers[i].0.eq(&name) {
            let ghost prev = cookie_values(headers@.take(i as int));
            if any {
                r.append(", ");
            } else {
                assert(r@ == Seq::<char>::empty());
            }
            r.append(headers[i].1.as_str());
            assert(prev.push(headers@[i as int].1@).drop_last() =~= prev);
            if !any {
                assert(r@ =~= headers@[i as int].1@);
            }
            any = true;
        }
        i = i + 1;
    }
    assert(headers@.take(headers.len() as int) =~= headers@);
    r
}

/// Why logging in to the directory failed.
#[derive(Clone, Copy, Debug, PartialEq, Eq, Structural)]
pub enum LoginError {
    /// No user name or no password was given.
    MissingCredentials,
    /// The site did not hand out a login cookie.
    Rejected,
}

impl LoginError {
    /// The text that tells the reason.
    pub fn message(&self) -> (r: String)
        ensures
            *self == LoginError::MissingCredentials ==> r@ == "No username or password"@,
            *self == LoginError::Rejected ==> r@ == "username/password incorrect"@,
    {
        match self {
            LoginError::MissingCredentials => String::from_str("No username or password"),
            LoginError::Rejected => String::from_str("username/password incorrect"),
        }
    }
}

/// The form body that logs in with these credentials.
pub open spec fn login_body(username: Seq<char>, password: Seq<char>) -> Seq<char> {
    "AUTH_FORM=Y&TYPE=AUTH&backurl=%2Fen%2F&USER_LOGIN="@ + username + "&USER_PASSWORD="@ + password
        + "&USER_REMEMBER=Y&Login=Authorize"@
}

/// The body of the login request, or an error when a credential is empty.
pub fn login_form(username: &str, password: &str) -> (r: Result<String, LoginError>)
    ensures
        (username@.len() == 0 || password@.len() == 0) <==> r is Err,
        r is Err ==> r == Err::<String, LoginError>(LoginError::MissingCredentials),
        r matches Ok(body) ==> body@ == login_body(username@, password@),
{
    if username.unicode_len() == 0 || password.unicode_len() == 0 {
        return Err(LoginError::MissingCredentials);
    }
    let mut body = String::from_str("AUTH_FORM=Y&TYPE=AUTH&backurl=%2Fen%2F&USER_LOGIN=");
    body.append(username);
    body.append("&USER_PASSWORD=");
    body.append(password);
    body.append("&USER_REMEMBER=Y&Login=Authorize");
    Ok(body)
}

/// The name of the cookie that a successful login sets.
pub open spec fn session_cookie() -> Seq<char> {
    "BITRIX_SM_UIDL="@
}

/// The cookie string of the login response when it holds the session
/// cookie, else the rejection.
pub fn check_login(cookies: String) -> (r: Result<String, LoginError>)
    ensures
        contains(cookies@, session_cookie()) <==> r is Ok,
        r matches Ok(c) ==> c@ == cookies@,
        r is Err ==> r == Err::<String, LoginError>(LoginError::Rejected),
{
    if contains_text(cookies.as_str(), "BITRIX_SM_UIDL=") {
        Ok(cookies)
    } else {
        Err(LoginError::Rejected)
    }
}

/// How often, in seconds, the version labels are fetched again.
pub const VERSION_POLL_SECS: u64 = 10800;

/// Whether the version labels are due again, `now` and `last` being seconds
/// on one clock; a clock that went back makes them not due.
pub fn versions_due(now: u64, last: u64) -> (r: bool)
    ensures
        r == (now >= last && now - last > VERSION_POLL_SECS),
{
    now >= last && now - last > VERSION_POLL_SECS
}

} // verus!
