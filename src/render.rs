//! Rendering of a server list into the text of one chat message.
use vstd::prelude::*;
use vstd::string::*;

use crate::dcs::{Server, ServerView, Servers};
use crate::text::{
    ascii_only, contains, copy_text, contains_text, decimal_text, i32_value, i64_text, lower_of,
    lowercase, parse_i32, replace_all, replace_text, strip_non_ascii, text_less, text_lt, trim,
    trim_text,
};

verus! {

/// The most server blocks one message shows.
pub const MAX_BLOCKS: usize = 11;

/// The most characters one message holds; longer text is cut there.
pub const MESSAGE_CEILING: usize = 1999;

/// The column at which the directory inserts a line-break space into names.
pub const WRAP_COLUMN: usize = 20;

/// The first space of `s` stands at index `k`.
pub open spec fn first_space_at(s: Seq<char>, k: int) -> bool {
    0 <= k < s.len() && s[k] == ' ' && forall|j: int| 0 <= j < k ==> s[j] != ' '
}

/// `s` without the space at the wrap column, when that is its first space.
pub open spec fn drop_wrap_space(s: Seq<char>) -> Seq<char> {
    let k = WRAP_COLUMN as int;
    if first_space_at(s, k) {
        s.take(k) + s.skip(k + 1)
    } else {
        s
    }
}

/// A name from the directory made presentable: non-ASCII characters removed,
/// the entities `&amp;`, `&gt;`, `&lt;` unescaped in that order, the
/// wrap-column space dropped, and surrounding whitespace trimmed.
pub open spec fn sanitized(s: Seq<char>) -> Seq<char> {
    trim(
        drop_wrap_space(
            replace_all(
                replace_all(replace_all(ascii_only(s), "&amp;"@, "&"@), "&gt;"@, ">"@),
                "&lt;"@,
                "<"@,
            ),
        ),
    )
}

/// The player count shown for the directory's count, which includes the host
/// itself: one less, as "0 players", "__1 player__" or "__N players__".
/// A count that is no `i32` is shown as it is.
pub open spec fn players_text(p: Seq<char>) -> Seq<char> {
    match i32_value(p) {
        Some(n) => if n - 1 == 0 {
            "0 players"@
        } else if n - 1 == 1 {
            "__1 player__"@
        } else {
            "__"@ + decimal_text(n - 1) + " players__"@
        },
        None => p,
    }
}

/// The version label, named when it is the current open beta or stable one.
pub open spec fn version_text(v: Seq<char>, beta: Seq<char>, stable: Seq<char>) -> Seq<char> {
    if v == beta {
        "Open Beta ("@ + v + ")"@
    } else if v == stable {
        "Stable ("@ + v + ")"@
    } else {
        v
    }
}

/// The block of text that shows one server.
pub open spec fn block_text(s: ServerView, beta: Seq<char>, stable: Seq<char>) -> Seq<char> {
    "**"@ + sanitized(s.name) + " - "@ + sanitized(s.mission_name) + "**\n"@ + players_text(
        s.players,
    ) + ", "@ + version_text(s.version, beta, stable) + ", "@ + s.ip + ":"@ + s.port + "\n\n"@
}

/// A server is kept when its presentable name, lowercased, contains the
/// lowercased filter.
pub open spec fn keeps(s: ServerView, filter: Seq<char>) -> bool {
    contains(lower_of(sanitized(s.name)), lower_of(filter))
}

/// The servers that the filter keeps, in their order.
pub open spec fn matching(ss: Seq<ServerView>, filter: Seq<char>) -> Seq<ServerView>
    decreases ss.len(),
{
    if ss.len() == 0 {
        ss
    } else if keeps(ss.last(), filter) {
        matching(ss.drop_last(), filter).push(ss.last())
    } else {
        matching(ss.drop_last(), filter)
    }
}

/// `x` placed into `l` just before the first server whose version does not
/// come after the version of `x`.
pub open spec fn insert_desc(x: ServerView, l: Seq<ServerView>) -> Seq<ServerView>
    decreases l.len(),
{
    if l.len() == 0 {
        seq![x]
    } else if !text_lt(x.version, l[0].version) {
        seq![x] + l
    } else {
        seq![l[0]] + insert_desc(x, l.drop_first())
    }
}

/// The servers by version, latest first in lexicographic order; of servers
/// with equal versions, the later in `ss` comes first.
pub open spec fn sort_desc(ss: Seq<ServerView>) -> Seq<ServerView>
    decreases ss.len(),
{
    if ss.len() == 0 {
        ss
    } else {
        insert_desc(ss.last(), sort_desc(ss.drop_last()))
    }
}

/// The servers that a message shows: the first [`MAX_BLOCKS`] after ordering.
pub open spec fn shown(ss: Seq<ServerView>, filter: Seq<char>) -> Seq<ServerView> {
    let s = sort_desc(matching(ss, filter));
    if s.len() > MAX_BLOCKS {
        s.take(MAX_BLOCKS as int)
    } else {
        s
    }
}

/// The blocks of a message, one per shown server.
pub open spec fn blocks(ss: Seq<ServerView>, filter: Seq<char>, beta: Seq<char>, stable: Seq<char>) -> Seq<Seq<char>> {
    shown(ss, filter).map_values(|s: ServerView| block_text(s, beta, stable))
}

/// The texts one after another.
pub open spec fn concat(bs: Seq<Seq<char>>) -> Seq<char>
    decreases bs.len(),
{
    if bs.len() == 0 {
        Seq::empty()
    } else {
        concat(bs.drop_last()) + bs.last()
    }
}

/// The message for a server list and filter: the blocks joined, cut at
/// [`MESSAGE_CEILING`] characters.
pub open spec fn rendered(ss: Seq<ServerView>, filter: Seq<char>, beta: Seq<char>, stable: Seq<char>) -> Seq<char> {
    let j = concat(blocks(ss, filter, beta, stable));
    if j.len() > MESSAGE_CEILING {
        j.take(MESSAGE_CEILING as int)
    } else {
        j
    }
}

/// Drops the space at the wrap column when it is the first space of `s`.
pub fn remove_wrap_space(s: &str) -> (r: String)
    ensures
        r@ == drop_wrap_space(s@),
{
    let n = s.unicode_len();
    let mut j: usize = 0;
    while j < n && j < WRAP_COLUMN
        invariant
            n == s@.len(),
            j <= n,
            j <= WRAP_COLUMN,
            forall|q: int| 0 <= q < j ==> s@[q] != ' ',
        decreases n - j,
    {
        if s.get_char(j) == ' ' {
            assert(!first_space_at(s@, WRAP_COLUMN as int));
            return copy_text(s);
        }
        j = j + 1;
    }
    if j == WRAP_COLUMN && j < n && s.get_char(j) == ' ' {
        let mut r = copy_text(s.substring_char(0, WRAP_COLUMN));
        r.append(s.substring_char(WRAP_COLUMN + 1, n));
        assert(s@.skip(WRAP_COLUMN + 1) =~= s@.subrange(WRAP_COLUMN + 1, n as int));
        assert(s@.take(WRAP_COLUMN as int) =~= s@.subrange(0, WRAP_COLUMN as int));
        r
    } else {
        copy_text(s)
    }
}

/// Makes a name from the directory presentable (see [`sanitized`]).
pub fn sanitize_name(name: &str) -> (r: String)
    ensures
        r@ == sanitized(name@),
{
    let a = strip_non_ascii(name);
    let b = replace_text(a.as_str(), "&amp;", "&");
    let c = replace_text(b.as_str(), "&gt;", ">");
    let d = replace_text(c.as_str(), "&lt;", "<");
    let e = remove_wrap_space(d.as_str());
    trim_text(e.as_str())
}

/// The player count shown for the directory's count (see [`players_text`]).
pub fn format_players(players: &str) -> (r: String)
    ensures
        r@ == players_text(players@),
{
    match parse_i32(players) {
        Some(n) => {
            let x: i64 = n as i64 - 1;
            if x == 0 {
                String::from_str("0 players")
            } else if x == 1 {
                String::from_str("__1 player__")
            } else {
                let mut r = String::from_str("__");
                let t = i64_text(x);
                r.append(t.as_str());
                r.append(" players__");
                r
            }
        },
        None => copy_text(players),
    }
}

/// The version label, named when it is the current open beta or stable one.
pub fn format_version(version: &String, beta: &String, stable: &String) -> (r: String)
    ensures
        r@ == version_text(version@, beta@, stable@),
{
    if version.eq(beta) {
        let mut r = String::from_str("Open Beta (");
        r.append(version.as_str());
        r.append(")");
        r
    } else if version.eq(stable) {
        let mut r = String::from_str("Stable (");
        r.append(version.as_str());
        r.append(")");
        r
    } else {
        version.clone()
    }
}

/// The block of text that shows one server.
pub fn format_block(server: &Server, beta: &String, stable: &String) -> (r: String)
    ensures
        r@ == block_text(server@, beta@, stable@),
{
    let mut r = String::from_str("**");
    r.append(sanitize_name(server.NAME.as_str()).as_str());
    r.append(" - ");
    r.append(sanitize_name(server.MISSION_NAME.as_str()).as_str());
    r.append("**\n");
    r.append(format_players(server.PLAYERS.as_str()).as_str());
    r.append(", ");
    r.append(format_version(&server.DCS_VERSION, beta, stable).as_str());
    r.append(", ");
    r.append(server.IP_ADDRESS.as_str());
    r.append(":");
    r.append(server.PORT.as_str());
    r.append("\n\n");
    r
}

/// Where `insert_desc` puts `x`: after the leading run of servers whose
/// versions come after the version of `x`.
pub proof fn lemma_insert_desc_at(x: ServerView, l: Seq<ServerView>, p: int)
    requires
        0 <= p <= l.len(),
        forall|q: int| 0 <= q < p ==> text_lt(x.version, #[trigger] l[q].version),
        p == l.len() || !text_lt(x.version, l[p].version),
    ensures
        insert_desc(x, l) == l.take(p) + seq![x] + l.skip(p),
    decreases p,
{
    if p == 0 {
        assert(l.take(0) + seq![x] + l.skip(0) =~= seq![x] + l);
        if l.len() == 0 {
            assert(seq![x] + l =~= seq![x]);
        }
    } else {
        let t = l.drop_first();
        assert forall|q: int| 0 <= q < p - 1 implies text_lt(x.version, #[trigger] t[q].version) by {
            assert(t[q] == l[q + 1]);
        }
        if p - 1 < t.len() {
            assert(t[p - 1] == l[p]);
        }
        lemma_insert_desc_at(x, t, p - 1);
        assert(seq![l[0]] + (t.take(p - 1) + seq![x] + t.skip(p - 1)) =~= l.take(p) + seq![x]
            + l.skip(p));
    }
}

/// The message for a server list and filter (see [`rendered`]).
pub fn render(servers: &Servers, filter: &String, beta: &String, stable: &String) -> (r: String)
    ensures
        r@ == rendered(servers@, filter@, beta@, stable@),
{
    let ghost ss = servers@;
    let ghost f = |k: usize| ss[k as int];
    let n = servers.SERVERS.len();
    let folded_filter = lowercase(filter.as_str());
    let mut picked: Vec<usize> = Vec::new();
    for i in 0..n
        invariant
            n == ss.len(),
            ss == servers@,
            f == (|k: usize| ss[k as int]),
            folded_filter@ == lower_of(filter@),
            forall|q: int| 0 <= q < picked.len() ==> picked@[q] < n,
            picked@.map_values(f) == matching(ss.take(i as int), filter@),
    {
        let name = sanitize_name(servers.SERVERS[i].NAME.as_str());
        let folded = lowercase(name.as_str());
        assert(ss.take(i + 1).drop_last() =~= ss.take(i as int));
        assert(ss.take(i + 1).last() == servers.SERVERS@[i as int]@);
        let ghost before = picked@;
        if contains_text(folded.as_str(), folded_filter.as_str()) {
            picked.push(i);
            assert(picked@.map_values(f) =~= before.map_values(f).push(ss[i as int]));
        }
    }
    assert(ss.take(n as int) =~= ss);
    let ghost m = picked@.map_values(f);
    let mut sorted: Vec<usize> = Vec::new();
    assert(m.take(0) =~= Seq::<ServerView>::empty());
    assert(sorted@.map_values(f) =~= Seq::<ServerView>::empty());
    for j in 0..picked.len()
        invariant
            n == ss.len(),
            ss == servers@,
            f == (|k: usize| ss[k as int]),
            m == picked@.map_values(f),
            forall|q: int| 0 <= q < picked.len() ==> picked@[q] < n,
            forall|q: int| 0 <= q < sorted.len() ==> sorted@[q] < n,
            sorted@.map_values(f) == sort_desc(m.take(j as int)),
    {
        let k = picked[j];
        let ghost l = sorted@.map_values(f);
        let mut p: usize = 0;
        while p < sorted.len()
            invariant
                n == ss.len(),
                ss == servers@,
                f == (|k: usize| ss[k as int]),
                k < n,
                l == sorted@.map_values(f),
                forall|q: int| 0 <= q < sorted.len() ==> sorted@[q] < n,
                p <= sorted.len(),
                forall|q: int| 0 <= q < p ==> text_lt(ss[k as int].version, #[trigger] l[q].version),
            ensures
                p <= sorted.len(),
                forall|q: int| 0 <= q < p ==> text_lt(ss[k as int].version, #[trigger] l[q].version),
                p == sorted.len() || !text_lt(ss[k as int].version, l[p as int].version),
            decreases sorted.len() - p,
        {
            let other = sorted[p];
            if !text_less(
                servers.SERVERS[k].DCS_VERSION.as_str(),
                servers.SERVERS[other].DCS_VERSION.as_str(),
            ) {
                break;
            }
            p = p + 1;
        }
        proof {
            lemma_insert_desc_at(ss[k as int], l, p as int);
            assert(m.take(j + 1).drop_last() =~= m.take(j as int));
            assert(m.take(j + 1).last() == ss[k as int]);
        }
        sorted.insert(p, k);
        assert(sorted@.map_values(f) =~= l.take(p as int) + seq![ss[k as int]] + l.skip(p as int));
    }
    assert(m.take(picked.len() as int) =~= m);
    let ghost st = sort_desc(matching(ss, filter@));
    let ghost bs = blocks(ss, filter@, beta@, stable@);
    let count: usize = if sorted.len() > MAX_BLOCKS {
        MAX_BLOCKS
    } else {
        sorted.len()
    };
    assert(bs.len() == count);
    let mut out = String::new();
    assert(bs.take(0) =~= Seq::<Seq<char>>::empty());
    for t in 0..count
        invariant
            n == ss.len(),
            ss == servers@,
            f == (|k: usize| ss[k as int]),
            sorted@.map_values(f) == st,
            st == sort_desc(matching(ss, filter@)),
            bs == blocks(ss, filter@, beta@, stable@),
            bs.len() == count,
            count <= sorted.len(),
            forall|q: int| 0 <= q < sorted.len() ==> sorted@[q] < n,
            out@ == concat(bs.take(t as int)),
    {
        let b = format_block(&servers.SERVERS[sorted[t]], beta, stable);
        assert(bs[t as int] == block_text(st[t as int], beta@, stable@));
        assert(bs.take(t + 1).drop_last() =~= bs.take(t as int));
        out.append(b.as_str());
    }
    assert(bs.take(count as int) =~= bs);
    let len = out.as_str().unicode_len();
    if len > MESSAGE_CEILING {
        copy_text(out.as_str().substring_char(0, MESSAGE_CEILING))
    } else {
        out
    }
}

/// Rendering is a function of its inputs: two texts that render produced
/// for the same server list, filter and version labels are equal.
pub proof fn lemma_render_deterministic(
    s1: Seq<ServerView>,
    s2: Seq<ServerView>,
    filter: Seq<char>,
    beta: Seq<char>,
    stable: Seq<char>,
    r1: Seq<char>,
    r2: Seq<char>,
)
    requires
        s1 == s2,
        r1 == rendered(s1, filter, beta, stable),
        r2 == rendered(s2, filter, beta, stable),
    ensures
        r1 == r2,
{
}

/// Inserting into an ordered list adds one item.
pub proof fn lemma_insert_desc_len(x: ServerView, l: Seq<ServerView>)
    ensures
        insert_desc(x, l).len() == l.len() + 1,
    decreases l.len(),
{
    if l.len() > 0 {
        lemma_insert_desc_len(x, l.drop_first());
    }
}

/// Ordering keeps the number of servers.
pub proof fn lemma_sort_desc_len(ss: Seq<ServerView>)
    ensures
        sort_desc(ss).len() == ss.len(),
    decreases ss.len(),
{
    if ss.len() > 0 {
        lemma_sort_desc_len(ss.drop_last());
        lemma_insert_desc_len(ss.last(), sort_desc(ss.drop_last()));
    }
}

/// A message holds one block per matching server, and never more than
/// [`MAX_BLOCKS`] blocks.
pub proof fn lemma_render_cap(ss: Seq<ServerView>, filter: Seq<char>, beta: Seq<char>, stable: Seq<char>)
    ensures
        blocks(ss, filter, beta, stable).len() <= MAX_BLOCKS,
        matching(ss, filter).len() > MAX_BLOCKS ==> blocks(ss, filter, beta, stable).len()
            == MAX_BLOCKS,
        matching(ss, filter).len() <= MAX_BLOCKS ==> blocks(ss, filter, beta, stable).len()
            == matching(ss, filter).len(),
{
    lemma_sort_desc_len(matching(ss, filter));
}

/// A message never holds more than [`MESSAGE_CEILING`] characters, and holds
/// all the blocks whenever they fit.
pub proof fn lemma_render_within_ceiling(ss: Seq<ServerView>, filter: Seq<char>, beta: Seq<char>, stable: Seq<char>)
    ensures
        rendered(ss, filter, beta, stable).len() <= MESSAGE_CEILING,
        concat(blocks(ss, filter, beta, stable)).len() <= MESSAGE_CEILING ==> rendered(
            ss,
            filter,
            beta,
            stable,
        ) == concat(blocks(ss, filter, beta, stable)),
{
}

} // verus!
