//! The chat commands that manage subscriptions.
use vstd::prelude::*;
use vstd::string::*;

use crate::text::copy_text;

verus! {

/// A request for the relay, from a channel manager of channel `.0`.
#[derive(Debug)]
pub enum HandlerMessage {
    /// Subscribe the channel with a filter.
    SubscribeChannel(u64, String),
    /// Unsubscribe the channel.
    UnsubscribeChannel(u64),
}

/// What a chat message asks for.
#[derive(Debug)]
pub enum Command {
    /// Not addressed to the relay.
    Ignore,
    /// The prefix alone: show the usage.
    Help,
    /// Subscribe with this filter.
    Subscribe(String),
    /// `subscribe` without a filter.
    MissingFilter,
    /// Unsubscribe.
    Unsubscribe,
    /// Some other word after the prefix.
    Unknown,
}

/// The values a [`Command`] holds.
pub enum CommandView {
    Ignore,
    Help,
    Subscribe(Seq<char>),
    MissingFilter,
    Unsubscribe,
    Unknown,
}

impl View for Command {
    type V = CommandView;

    open spec fn view(&self) -> CommandView {
        match self {
            Command::Ignore => CommandView::Ignore,
            Command::Help => CommandView::Help,
            Command::Subscribe(f) => CommandView::Subscribe(f@),
            Command::MissingFilter => CommandView::MissingFilter,
            Command::Unsubscribe => CommandView::Unsubscribe,
            Command::Unknown => CommandView::Unknown,
        }
    }
}

/// The length of the first word of `s`: the characters before its first space.
pub open spec fn word_end(s: Seq<char>) -> int
    decreases s.len(),
{
    if s.len() == 0 || s[0] == ' ' {
        0
    } else {
        1 + word_end(s.drop_first())
    }
}

/// What a chat message asks for. Words are separated by single spaces: the
/// first must be `!dcsbot`; the second names the command; for `subscribe`,
/// the filter is everything after the space that follows it, and must not
/// be empty.
pub open spec fn command_of(s: Seq<char>) -> CommandView {
    let w = word_end(s);
    if s.take(w) != "!dcsbot"@ {
        CommandView::Ignore
    } else if w == s.len() {
        CommandView::Help
    } else {
        let t = s.skip(w + 1);
        let w2 = word_end(t);
        if t.take(w2) == "subscribe"@ {
            if w2 == t.len() || t.skip(w2 + 1).len() == 0 {
                CommandView::MissingFilter
            } else {
                CommandView::Subscribe(t.skip(w2 + 1))
            }
        } else if t.take(w2) == "unsubscribe"@ {
            CommandView::Unsubscribe
        } else {
            CommandView::Unknown
        }
    }
}

/// The length of the first word of `s`.
pub fn first_word_len(s: &str) -> (r: usize)
    ensures
        r == word_end(s@),
        r <= s@.len(),
{
    let n = s.unicode_len();
    let mut i: usize = 0;
    assert(s@.skip(0) =~= s@);
    while i < n
        invariant
            n == s@.len(),
            i <= n,
            word_end(s@) == i + word_end(s@.skip(i as int)),
        ensures
            i <= n,
            word_end(s@) == i + word_end(s@.skip(i as int)),
            i == n || s@[i as int] == ' ',
        decreases n - i,
    {
        if s.get_char(i) == ' ' {
            break;
        }
        assert(s@.skip(i as int).drop_first() =~= s@.skip(i + 1));
        i = i + 1;
    }
    i
}

/// What a chat message asks for (see [`command_of`]).
pub fn parse_command(content: &str) -> (r: Command)
    ensures
        r@ == command_of(content@),
{
    let n = content.unicode_len();
    let w = first_word_len(content);
    let prefix = copy_text(content.substring_char(0, w));
    assert(content@.subrange(0, w as int) =~= content@.take(w as int));
    if !prefix.eq(&String::from_str("!dcsbot")) {
        return Command::Ignore;
    }
    if w == n {
        return Command::Help;
    }
    let rest = content.substring_char(w + 1, n);
    assert(content@.subrange(w + 1, n as int) =~= content@.skip(w + 1));
    let m = rest.unicode_len();
    let w2 = first_word_len(rest);
    let word = copy_text(rest.substring_char(0, w2));
    assert(rest@.subrange(0, w2 as int) =~= rest@.take(w2 as int));
    if word.eq(&String::from_str("subscribe")) {
        if w2 == m {
            return Command::MissingFilter;
        }
        let filter = copy_text(rest.substring_char(w2 + 1, m));
        assert(rest@.subrange(w2 + 1, m as int) =~= rest@.skip(w2 + 1));
        if filter.as_str().unicode_len() == 0 {
            Command::MissingFilter
        } else {
            Command::Subscribe(filter)
        }
    } else if word.eq(&String::from_str("unsubscribe")) {
        Command::Unsubscribe
    } else {
        Command::Unknown
    }
}

} // verus!
