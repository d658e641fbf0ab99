//! The channel subscription table and the decisions of the broadcast cycle.
//!
//! The messaging calls themselves (send, edit, delete) and the file that
//! holds the table are the caller's: each operation here takes the outcome of
//! a call, or returns what to call, and keeps the table consistent with it.
use vstd::prelude::*;
use vstd::std_specs::iter::IteratorSpec;
use vstd::string::*;
use std::collections::HashMap;

use crate::dcs::Servers;
use crate::render::{render, rendered};

verus! {

/// The subscription of one channel: the one message kept up to date there,
/// the filter on server names, and the text that message was last given.
#[derive(Clone, Debug)]
pub struct Sub {
    pub message_id: u64,
    pub filter: String,
    pub last_content: String,
}

/// The values a [`Sub`] holds.
pub struct SubView {
    pub message_id: u64,
    pub filter: Seq<char>,
    pub last_content: Seq<char>,
}

impl View for Sub {
    type V = SubView;

    open spec fn view(&self) -> SubView {
        SubView { message_id: self.message_id, filter: self.filter@, last_content: self.last_content@ }
    }
}

impl Sub {
    /// A copy with the same values.
    pub fn duplicate(&self) -> (r: Sub)
        ensures
            r@ == self@,
    {
        Sub {
            message_id: self.message_id,
            filter: self.filter.clone(),
            last_content: self.last_content.clone(),
        }
    }
}

/// A failed call to the messaging service: an error that the service answered
/// with its numeric code, or any other failure (network, timeout, ...).
#[derive(Clone, Copy, Debug)]
pub enum RemoteError {
    Api(i64),
    Other,
}

/// What a failed edit means for the subscription.
#[derive(PartialEq, Eq, Structural, Clone, Copy, Debug)]
pub enum ErrorClass {
    /// Try again on the next cycle; keep the subscription.
    Transient,
    /// The message or the channel is gone for good; drop the subscription.
    Terminal,
}

/// The service's code for a message that does not exist.
pub const UNKNOWN_MESSAGE: i64 = 10008;

/// The service's code for a channel that does not exist.
pub const UNKNOWN_CHANNEL: i64 = 10003;

/// The service's code for a channel that may not be accessed.
pub const MISSING_ACCESS: i64 = 50001;

/// Only a message or channel that is gone or out of reach is terminal.
pub open spec fn class_of(e: RemoteError) -> ErrorClass {
    match e {
        RemoteError::Api(code) => if code == UNKNOWN_MESSAGE || code == UNKNOWN_CHANNEL || code
            == MISSING_ACCESS {
            ErrorClass::Terminal
        } else {
            ErrorClass::Transient
        },
        RemoteError::Other => ErrorClass::Transient,
    }
}

/// Classifies a failed call (see [`class_of`]).
pub fn classify(e: &RemoteError) -> (r: ErrorClass)
    ensures
        r == class_of(*e),
{
    match e {
        RemoteError::Api(code) => {
            if *code == UNKNOWN_MESSAGE || *code == UNKNOWN_CHANNEL || *code == MISSING_ACCESS {
                ErrorClass::Terminal
            } else {
                ErrorClass::Transient
            }
        },
        RemoteError::Other => ErrorClass::Transient,
    }
}

/// An edit that a broadcast calls for: give message `message_id` in channel
/// `channel_id` the text `content`.
#[derive(Clone, Debug)]
pub struct Edit {
    pub channel_id: u64,
    pub message_id: u64,
    pub content: String,
}

/// An edit and what the messaging service answered to it.
#[derive(Debug)]
pub struct EditResult {
    pub edit: Edit,
    pub outcome: Result<(), RemoteError>,
}

/// The table after a successful edit: the subscription that owns the edited
/// message records the new text as its last content.
pub open spec fn edit_applied(m: Map<u64, SubView>, e: Edit) -> Map<u64, SubView> {
    let ch = e.channel_id;
    if m.contains_key(ch) && m[ch].message_id == e.message_id {
        m.insert(
            ch,
            SubView { message_id: m[ch].message_id, filter: m[ch].filter, last_content: e.content@ },
        )
    } else {
        m
    }
}

/// The table after the successful edits among `rs`, in order.
pub open spec fn after_edits(m: Map<u64, SubView>, rs: Seq<EditResult>) -> Map<u64, SubView>
    decreases rs.len(),
{
    if rs.len() == 0 {
        m
    } else {
        let prev = after_edits(m, rs.drop_last());
        match rs.last().outcome {
            Ok(_) => edit_applied(prev, rs.last().edit),
            Err(_) => prev,
        }
    }
}

/// The channels of the edits among `rs` that failed terminally, in order.
pub open spec fn terminal_ids(rs: Seq<EditResult>) -> Seq<u64>
    decreases rs.len(),
{
    if rs.len() == 0 {
        Seq::empty()
    } else {
        let prev = terminal_ids(rs.drop_last());
        match rs.last().outcome {
            Err(e) => if class_of(e) == ErrorClass::Terminal {
                prev.push(rs.last().edit.channel_id)
            } else {
                prev
            },
            Ok(_) => prev,
        }
    }
}

/// The table that a list of stored records describes; of two records for
/// one channel, the later wins.
pub open spec fn records_map(rs: Seq<(u64, Sub)>) -> Map<u64, SubView>
    decreases rs.len(),
{
    if rs.len() == 0 {
        Map::empty()
    } else {
        records_map(rs.drop_last()).insert(rs.last().0, rs.last().1@)
    }
}

/// `rs` lists the table `m`: each channel once, with its subscription.
pub open spec fn lists_exactly(rs: Seq<(u64, Sub)>, m: Map<u64, SubView>) -> bool {
    &&& forall|i: int, j: int| 0 <= i < rs.len() && 0 <= j < rs.len() && i != j ==> rs[i].0 != rs[j].0
    &&& forall|i: int| 0 <= i < rs.len() ==> m.contains_key(#[trigger] rs[i].0) && m[rs[i].0] == rs[i].1@
    &&& forall|ch: u64| m.contains_key(ch) ==> exists|i: int| 0 <= i < rs.len() && #[trigger] rs[i].0 == ch
}

/// Saving a table as its records and loading them back gives the same table.
pub proof fn lemma_restart_round_trip(m: Map<u64, SubView>, rs: Seq<(u64, Sub)>)
    requires
        lists_exactly(rs, m),
    ensures
        records_map(rs) == m,
    decreases rs.len(),
{
    if rs.len() == 0 {
        assert(m =~= Map::<u64, SubView>::empty());
    } else {
        let last = rs.last();
        let init = rs.drop_last();
        let m2 = m.remove(last.0);
        assert forall|i: int| 0 <= i < init.len() implies m2.contains_key(#[trigger] init[i].0) && m2[init[i].0] == init[i].1@ by {
            assert(init[i] == rs[i]);
            assert(rs[i].0 != rs[rs.len() - 1].0);
        }
        assert forall|ch: u64| m2.contains_key(ch) implies exists|i: int| 0 <= i < init.len() && #[trigger] init[i].0 == ch by {
            let i = choose|i: int| 0 <= i < rs.len() && #[trigger] rs[i].0 == ch;
            assert(i != rs.len() - 1);
            assert(init[i].0 == ch);
        }
        assert forall|i: int, j: int| 0 <= i < init.len() && 0 <= j < init.len() && i != j implies init[i].0 != init[j].0 by {
            assert(init[i] == rs[i] && init[j] == rs[j]);
        }
        lemma_restart_round_trip(m2, init);
        assert(rs[rs.len() - 1] == last);
        assert(m2.insert(last.0, last.1@) =~= m);
    }
}

/// The placeholder that a new subscription posts before the first listing.
pub open spec fn subscribe_text(filter: Seq<char>) -> Seq<char> {
    "Server listing with filter '"@ + filter
        + "' is being prepared...\n\nServer details will be continuously updated in this message (usually within one minute)\n\nTo stop receiving updates, delete this message or type `!dcsbot unsubscribe`"@
}

/// The placeholder message for a new subscription with this filter.
pub fn subscribe_message(filter: &str) -> (r: String)
    ensures
        r@ == subscribe_text(filter@),
{
    let mut r = String::from_str("Server listing with filter '");
    r.append(filter);
    r.append(
        "' is being prepared...\n\nServer details will be continuously updated in this message (usually within one minute)\n\nTo stop receiving updates, delete this message or type `!dcsbot unsubscribe`",
    );
    r
}

/// The file name used when none is configured.
pub open spec fn default_config_path() -> Seq<char> {
    "config.json"@
}

/// The relay's state: the subscription of each channel, by channel id, and
/// the current version labels.
pub struct Bot {
    pub token: String,
    pub version_beta: String,
    pub version_stable: String,
    pub config_path: String,
    pub channels: HashMap<u64, Sub>,
}

impl Bot {
    /// The subscriptions by channel id.
    pub open spec fn subs(&self) -> Map<u64, SubView> {
        self.channels@.map_values(|s: Sub| s@)
    }

    /// The current open beta version label.
    pub open spec fn beta(&self) -> Seq<char> {
        self.version_beta@
    }

    /// The current stable version label.
    pub open spec fn stable(&self) -> Seq<char> {
        self.version_stable@
    }

    /// Everything but the subscriptions is as in `other`.
    pub open spec fn same_settings(&self, other: &Bot) -> bool {
        &&& self.token@ == other.token@
        &&& self.config_path@ == other.config_path@
        &&& self.beta() == other.beta()
        &&& self.stable() == other.stable()
    }

    /// A relay with no subscriptions and no version labels yet; an empty
    /// configuration path stands for `config.json`.
    pub fn new(token: String, config_path: String) -> (r: Bot)
        ensures
            r.token@ == token@,
            r.config_path@ == if config_path@.len() == 0 {
                default_config_path()
            } else {
                config_path@
            },
            r.subs() == Map::<u64, SubView>::empty(),
            r.beta() == Seq::<char>::empty(),
            r.stable() == Seq::<char>::empty(),
    {
        let path = if config_path.as_str().unicode_len() == 0 {
            String::from_str("config.json")
        } else {
            config_path
        };
        let channels: HashMap<u64, Sub> = HashMap::new();
        let r = Bot {
            token,
            version_beta: String::new(),
            version_stable: String::new(),
            config_path: path,
            channels,
        };
        assert(r.subs() =~= Map::<u64, SubView>::empty());
        r
    }

    /// Replaces the current version labels; the next broadcast uses them.
    pub fn set_versions(&mut self, beta: String, stable: String)
        ensures
            final(self).beta() == beta@,
            final(self).stable() == stable@,
            final(self).subs() == old(self).subs(),
            final(self).token@ == old(self).token@,
            final(self).config_path@ == old(self).config_path@,
    {
        self.version_beta = beta;
        self.version_stable = stable;
    }

    /// The message for a server list and filter, with the current version labels.
    pub fn render_servers(&self, servers: &Servers, filter: &String) -> (r: String)
        ensures
            r@ == rendered(servers@, filter@, self.beta(), self.stable()),
    {
        render(servers, filter, &self.version_beta, &self.version_stable)
    }
    /// Records the outcome of posting the placeholder for a subscription.
    /// When the post succeeded, the channel's subscription becomes (or is
    /// replaced by) one on the posted message, with the placeholder as its
    /// last content, and the table must be saved; when it failed, nothing
    /// changes and nothing is saved. A channel that subscribes again gets a
    /// new message; the earlier one is left as it is, no longer updated.
    pub fn subscribe_channel(&mut self, channel_id: u64, filter: String, sent: Result<u64, RemoteError>) -> (save: bool)
        ensures
            final(self).same_settings(old(self)),
            match sent {
                Ok(message_id) => {
                    &&& save
                    &&& final(self).subs() == old(self).subs().insert(
                        channel_id,
                        SubView {
                            message_id,
                            filter: filter@,
                            last_content: subscribe_text(filter@),
                        },
                    )
                },
                Err(_) => !save && final(self).subs() == old(self).subs(),
            },
    {
        match sent {
            Ok(message_id) => {
                let content = subscribe_message(filter.as_str());
                let sub = Sub { message_id, filter, last_content: content };
                let ghost v = sub@;
                self.channels.insert(channel_id, sub);
                assert(self.subs() =~= old(self).subs().insert(channel_id, v));
                true
            },
            Err(_) => false,
        }
    }

    /// Drops the subscription of a channel. Returns the id of its message,
    /// which the caller deletes (best effort) before saving the table; an
    /// unknown channel changes nothing and needs no call and no save.
    pub fn unsubscribe_channel(&mut self, channel_id: u64) -> (r: Option<u64>)
        ensures
            final(self).same_settings(old(self)),
            old(self).subs().contains_key(channel_id) ==> {
                &&& r == Some(old(self).subs()[channel_id].message_id)
                &&& final(self).subs() == old(self).subs().remove(channel_id)
            },
            !old(self).subs().contains_key(channel_id) ==> {
                &&& r is None
                &&& final(self).subs() == old(self).subs()
            },
    {
        match self.channels.remove(&channel_id) {
            Some(sub) => {
                assert(self.subs() =~= old(self).subs().remove(channel_id));
                Some(sub.message_id)
            },
            None => {
                assert(self.subs() =~= old(self).subs());
                None
            },
        }
    }

    /// What a failed edit of `message_id` in `channel_id` calls for: the
    /// channel to unsubscribe when the failure is terminal, else nothing.
    pub fn handle_broadcast_error(&self, err: &RemoteError, message_id: u64, channel_id: u64) -> (r: Option<u64>)
        ensures
            r == if class_of(*err) == ErrorClass::Terminal {
                Some(channel_id)
            } else {
                None
            },
    {
        match classify(err) {
            ErrorClass::Terminal => Some(channel_id),
            ErrorClass::Transient => None,
        }
    }

    /// The ids of the subscribed channels, each once.
    pub fn channel_ids(&self) -> (r: Vec<u64>)
        ensures
            r@.no_duplicates(),
            r@.to_set() == self.subs().dom(),
    {
        let mut r: Vec<u64> = Vec::new();
        let keys = self.channels.keys();
        let ghost ks = keys.remaining().unref();
        assert(ks.to_set() == self.channels@.dom());
        assert(ks.no_duplicates()) by {
            assert forall|i: int, j: int| 0 <= i < ks.len() && 0 <= j < ks.len() && i != j implies ks[i] != ks[j] by {
                assert(keys.remaining()[i] != keys.remaining()[j]);
            }
        }
        for k in it: keys
            invariant
                ks == it.seq().unref(),
                r@ == ks.take(it.index()),
        {
            assert(ks.take(it.index() + 1) =~= ks.take(it.index()).push(*k));
            r.push(*k);
        }
        assert(ks.take(ks.len() as int) =~= ks);
        assert(self.subs().dom() =~= self.channels@.dom());
        r
    }
    /// The edits that a new server list calls for: one for each subscription
    /// whose rendered text differs from its last content, and none for a
    /// subscription whose text is unchanged.
    pub fn plan_broadcast(&self, servers: &Servers) -> (edits: Vec<Edit>)
        ensures
            forall|i: int, j: int|
                0 <= i < edits.len() && 0 <= j < edits.len() && i != j ==> edits@[i].channel_id
                    != edits@[j].channel_id,
            forall|i: int|
                0 <= i < edits.len() ==> {
                    let e = #[trigger] edits@[i];
                    let sub = self.subs()[e.channel_id];
                    &&& self.subs().contains_key(e.channel_id)
                    &&& e.message_id == sub.message_id
                    &&& e.content@ == rendered(servers@, sub.filter, self.beta(), self.stable())
                    &&& e.content@ != sub.last_content
                },
            forall|ch: u64|
                #![trigger self.subs()[ch]]
                self.subs().contains_key(ch) && rendered(
                    servers@,
                    self.subs()[ch].filter,
                    self.beta(),
                    self.stable(),
                ) != self.subs()[ch].last_content ==> exists|i: int|
                    0 <= i < edits.len() && #[trigger] edits@[i].channel_id == ch,
    {
        let ids = self.channel_ids();
        let mut edits: Vec<Edit> = Vec::new();
        let mut k: usize = 0;
        while k < ids.len()
            invariant
                k <= ids.len(),
                ids@.no_duplicates(),
                ids@.to_set() == self.subs().dom(),
                forall|i: int, j: int|
                    0 <= i < edits.len() && 0 <= j < edits.len() && i != j ==> edits@[i].channel_id
                        != edits@[j].channel_id,
                forall|i: int|
                    #![trigger edits@[i]]
                    0 <= i < edits.len() ==> exists|j: int|
                        #![trigger ids@[j]]
                        0 <= j < k && ids@[j] == edits@[i].channel_id,
                forall|i: int|
                    0 <= i < edits.len() ==> {
                        let e = #[trigger] edits@[i];
                        let sub = self.subs()[e.channel_id];
                        &&& self.subs().contains_key(e.channel_id)
                        &&& e.message_id == sub.message_id
                        &&& e.content@ == rendered(servers@, sub.filter, self.beta(), self.stable())
                        &&& e.content@ != sub.last_content
                    },
                forall|j: int|
                    0 <= j < k && rendered(
                        servers@,
                        self.subs()[#[trigger] ids@[j]].filter,
                        self.beta(),
                        self.stable(),
                    ) != self.subs()[ids@[j]].last_content ==> exists|i: int|
                        0 <= i < edits.len() && edits@[i].channel_id == ids@[j],
            decreases ids.len() - k,
        {
            let ch = ids[k];
            assert(self.subs().dom().contains(ch)) by {
                assert(ids@.contains(ch));
            }
            match self.channels.get(&ch) {
                Some(sub) => {
                    let content = self.render_servers(servers, &sub.filter);
                    if !content.eq(&sub.last_content) {
                        let ghost before = edits@;
                        assert forall|i: int| 0 <= i < before.len() implies before[i].channel_id != ch by {
                            let j = choose|j: int| 0 <= j < k && ids@[j] == before[i].channel_id;
                            assert(ids@[j] != ids@[k as int]);
                        }
                        edits.push(Edit { channel_id: ch, message_id: sub.message_id, content });
                        assert(edits@[edits.len() - 1].channel_id == ids@[k as int]);
                        assert forall|i: int|
                            #![trigger edits@[i]]
                            0 <= i < edits.len() implies exists|j: int|
                            #![trigger ids@[j]]
                            0 <= j < k + 1 && ids@[j] == edits@[i].channel_id by {
                            if i < before.len() {
                                assert(edits@[i] == before[i]);
                            } else {
                                assert(ids@[k as int] == edits@[i].channel_id);
                            }
                        }
                        assert forall|j: int| 0 <= j < k + 1 && rendered(
                            servers@,
                            self.subs()[#[trigger] ids@[j]].filter,
                            self.beta(),
                            self.stable(),
                        ) != self.subs()[ids@[j]].last_content implies exists|i: int|
                            0 <= i < edits.len() && edits@[i].channel_id == ids@[j] by {
                            if j < k {
                                let i = choose|i: int| 0 <= i < before.len() && before[i].channel_id == ids@[j];
                                assert(edits@[i] == before[i]);
                            } else {
                                assert(edits@[edits.len() - 1].channel_id == ids@[j]);
                            }
                        }
                    }
                },
                None => {},
            }
            k = k + 1;
        }
        assert forall|ch: u64|
            #![trigger self.subs()[ch]]
            self.subs().contains_key(ch) && rendered(
                servers@,
                self.subs()[ch].filter,
                self.beta(),
                self.stable(),
            ) != self.subs()[ch].last_content implies exists|i: int|
                0 <= i < edits.len() && #[trigger] edits@[i].channel_id == ch by {
            assert(ids@.to_set().contains(ch));
            let j = choose|j: int| 0 <= j < ids.len() && ids@[j] == ch;
            assert(self.subs()[ids@[j]] == self.subs()[ch]);
        }
        edits
    }
    /// Takes in what the service answered to the edits of a broadcast. A
    /// successful edit records its text as the subscription's last content;
    /// a terminal failure drops the subscription; any other failure leaves it
    /// for the next cycle. Returns the (channel, message) pairs dropped, whose
    /// messages the caller deletes (best effort); the caller then saves the
    /// table once for the whole batch when the list is not empty.
    pub fn finish_broadcast(&mut self, results: Vec<EditResult>) -> (removed: Vec<(u64, u64)>)
        ensures
            final(self).same_settings(old(self)),
            final(self).subs() == after_edits(old(self).subs(), results@).remove_keys(
                terminal_ids(results@).to_set(),
            ),
            forall|i: int, j: int|
                0 <= i < removed.len() && 0 <= j < removed.len() && i != j ==> removed@[i].0
                    != removed@[j].0,
            forall|i: int|
                0 <= i < removed.len() ==> {
                    let after = after_edits(old(self).subs(), results@);
                    let p = #[trigger] removed@[i];
                    &&& terminal_ids(results@).contains(p.0)
                    &&& after.contains_key(p.0)
                    &&& p.1 == after[p.0].message_id
                },
            forall|ch: u64|
                terminal_ids(results@).contains(ch) && after_edits(
                    old(self).subs(),
                    results@,
                ).contains_key(ch) ==> exists|i: int|
                    0 <= i < removed.len() && #[trigger] removed@[i].0 == ch,
    {
        let ghost rs = results@;
        let mut gone: Vec<u64> = Vec::new();
        let mut i: usize = 0;
        while i < results.len()
            invariant
                rs == results@,
                i <= results.len(),
                self.same_settings(old(self)),
                self.subs() == after_edits(old(self).subs(), rs.take(i as int)),
                gone@ == terminal_ids(rs.take(i as int)),
            decreases results.len() - i,
        {
            let r = &results[i];
            assert(rs.take(i + 1).drop_last() =~= rs.take(i as int));
            assert(rs.take(i + 1).last() == *r);
            match &r.outcome {
                Ok(_) => {
                    let ch = r.edit.channel_id;
                    let updated = match self.channels.get(&ch) {
                        Some(sub) => {
                            if sub.message_id == r.edit.message_id {
                                Some(
                                    Sub {
                                        message_id: sub.message_id,
                                        filter: sub.filter.clone(),
                                        last_content: r.edit.content.clone(),
                                    },
                                )
                            } else {
                                None
                            }
                        },
                        None => None,
                    };
                    let ghost before = self.subs();
                    match updated {
                        Some(sub) => {
                            let ghost v = sub@;
                            self.channels.insert(ch, sub);
                            assert(self.subs() =~= before.insert(ch, v));
                        },
                        None => {},
                    }
                },
                Err(e) => {
                    match self.handle_broadcast_error(e, r.edit.message_id, r.edit.channel_id) {
                        Some(ch) => {
                            gone.push(ch);
                        },
                        None => {},
                    }
                },
            }
            i = i + 1;
        }
        assert(rs.take(rs.len() as int) =~= rs);
        let ghost after = self.subs();
        let ghost all_gone = gone@;
        let mut removed: Vec<(u64, u64)> = Vec::new();
        let mut j: usize = 0;
        while j < gone.len()
            invariant
                all_gone == gone@,
                all_gone == terminal_ids(rs),
                after == after_edits(old(self).subs(), rs),
                j <= gone.len(),
                self.same_settings(old(self)),
                self.subs() == after.remove_keys(all_gone.take(j as int).to_set()),
                forall|a: int, b: int|
                    0 <= a < removed.len() && 0 <= b < removed.len() && a != b ==> removed@[a].0
                        != removed@[b].0,
                forall|a: int|
                    0 <= a < removed.len() ==> {
                        let p = #[trigger] removed@[a];
                        &&& all_gone.take(j as int).contains(p.0)
                        &&& after.contains_key(p.0)
                        &&& p.1 == after[p.0].message_id
                    },
                forall|ch: u64|
                    all_gone.take(j as int).contains(ch) && after.contains_key(ch) ==> exists|a: int|
                        0 <= a < removed.len() && #[trigger] removed@[a].0 == ch,
            decreases gone.len() - j,
        {
            let ch = gone[j];
            let ghost prev = all_gone.take(j as int);
            let ghost next = all_gone.take(j + 1);
            assert(next =~= prev.push(ch));
            assert(next.to_set() =~= prev.to_set().insert(ch)) by {
                assert forall|c: u64| next.contains(c) <==> (prev.contains(c) || c == ch) by {
                    if next.contains(c) {
                        let x = choose|x: int| 0 <= x < next.len() && next[x] == c;
                        if x < prev.len() {
                            assert(prev[x] == c);
                        }
                    }
                    if prev.contains(c) {
                        let x = choose|x: int| 0 <= x < prev.len() && prev[x] == c;
                        assert(next[x] == c);
                    }
                    if c == ch {
                        assert(next[j as int] == c);
                    }
                }
            }
            let ghost before = removed@;
            let ghost pre = self.subs();
            match self.unsubscribe_channel(ch) {
                Some(message_id) => {
                    removed.push((ch, message_id));
                    assert forall|a: int| 0 <= a < before.len() implies before[a].0 != ch by {
                        assert(prev.contains(before[a].0));
                    }
                },
                None => {},
            }
            assert(self.subs() =~= after.remove_keys(next.to_set()));
            assert forall|a: int| 0 <= a < removed.len() implies #[trigger] next.contains(removed@[a].0) by {
                if a < before.len() {
                    assert(prev.contains(removed@[a].0));
                    let x = choose|x: int| 0 <= x < prev.len() && prev[x] == removed@[a].0;
                    assert(next[x] == removed@[a].0);
                } else {
                    assert(next[j as int] == ch);
                }
            }
            assert forall|c: u64| next.contains(c) && after.contains_key(c) implies exists|a: int|
                0 <= a < removed.len() && #[trigger] removed@[a].0 == c by {
                if c == ch && !prev.contains(ch) {
                    assert(!prev.to_set().contains(ch));
                    assert(pre.contains_key(ch));
                    assert(removed@[removed.len() - 1].0 == ch);
                } else if c == ch {
                    let a = choose|a: int| 0 <= a < before.len() && #[trigger] before[a].0 == c;
                    assert(removed@[a] == before[a]);
                } else {
                    assert(prev.to_set().insert(ch).contains(c));
                    assert(prev.contains(c));
                    let a = choose|a: int| 0 <= a < before.len() && #[trigger] before[a].0 == c;
                    assert(removed@[a] == before[a]);
                }
            }
            j = j + 1;
        }
        assert(all_gone.take(all_gone.len() as int) =~= all_gone);
        removed
    }

    /// The table as records to store, each channel once.
    pub fn channel_records(&self) -> (r: Vec<(u64, Sub)>)
        ensures
            lists_exactly(r@, self.subs()),
    {
        let ids = self.channel_ids();
        let mut r: Vec<(u64, Sub)> = Vec::new();
        let mut k: usize = 0;
        while k < ids.len()
            invariant
                k <= ids.len(),
                ids@.no_duplicates(),
                ids@.to_set() == self.subs().dom(),
                r.len() == k,
                forall|i: int| 0 <= i < k ==> (#[trigger] r@[i]).0 == ids@[i],
                forall|i: int|
                    0 <= i < k ==> self.subs().contains_key(#[trigger] r@[i].0) && self.subs()[r@[i].0]
                        == r@[i].1@,
            decreases ids.len() - k,
        {
            let ch = ids[k];
            assert(ids@.contains(ch));
            assert(ids@.to_set().contains(ch));
            assert(self.channels@.contains_key(ch));
            match self.channels.get(&ch) {
                Some(sub) => {
                    r.push((ch, sub.duplicate()));
                },
                None => {
                    assert(false);
                },
            }
            k = k + 1;
        }
        assert forall|i: int, j: int| 0 <= i < r.len() && 0 <= j < r.len() && i != j implies r@[i].0 != r@[j].0 by {
            assert(r@[i].0 == ids@[i] && r@[j].0 == ids@[j]);
        }
        assert forall|ch: u64| self.subs().contains_key(ch) implies exists|i: int| 0 <= i < r.len() && #[trigger] r@[i].0 == ch by {
            assert(ids@.to_set().contains(ch));
            let i = choose|i: int| 0 <= i < ids.len() && ids@[i] == ch;
            assert(r@[i].0 == ch);
        }
        r
    }

    /// Replaces the table by the one that stored records describe.
    pub fn restore_channels(&mut self, records: Vec<(u64, Sub)>)
        ensures
            final(self).same_settings(old(self)),
            final(self).subs() == records_map(records@),
    {
        self.channels = HashMap::new();
        assert(self.subs() =~= Map::<u64, SubView>::empty());
        let mut k: usize = 0;
        while k < records.len()
            invariant
                k <= records.len(),
                self.same_settings(old(self)),
                self.subs() == records_map(records@.take(k as int)),
            decreases records.len() - k,
        {
            let ch = records[k].0;
            let sub = records[k].1.duplicate();
            let ghost before = self.subs();
            let ghost v = sub@;
            self.channels.insert(ch, sub);
            assert(records@.take(k + 1).drop_last() =~= records@.take(k as int));
            assert(self.subs() =~= before.insert(ch, v));
            k = k + 1;
        }
        assert(records@.take(records.len() as int) =~= records@);
    }
}

} // verus!
