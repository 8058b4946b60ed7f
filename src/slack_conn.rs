//! Decisions of the Slack adapter: building the lookup tables from the
//! session's start data, rewriting message text in both directions, and
//! turning received or backfilled messages into events.
use vstd::prelude::*;
use crate::bimap::{distinct, views, BiMap, BiMapBuilder, BuildError};
use crate::conn::{event_views, ConnError, Event, EventView, Message, MessageView};
use crate::text::{
    concat, contains, contains_seq, lemma_absent_by_first, lemma_replace_absent, lemma_replace_whole,
    replace, replace_all,
};

verus! {

/// A (platform code, human form) pair.
pub type Pattern = (Seq<char>, Seq<char>);

/// The inline code Slack writes for a mention of user `id`.
pub open spec fn user_code(id: Seq<char>) -> Seq<char> {
    seq!['<', '@'] + id + seq!['>']
}

/// The inline code Slack writes for a reference to channel `id` named `name`.
pub open spec fn channel_code(id: Seq<char>, name: Seq<char>) -> Seq<char> {
    seq!['<', '#'] + id + seq!['|'] + name + seq!['>']
}

/// One mention pattern per known user, in table order.
pub open spec fn mention_patterns_of(ids: Seq<Seq<char>>, names: Seq<Seq<char>>) -> Seq<Pattern> {
    Seq::new(ids.len(), |i: int| (user_code(ids[i]), seq!['@'] + names[i]))
}

/// One channel pattern per known channel, in table order.
pub open spec fn channel_patterns_of(ids: Seq<Seq<char>>, names: Seq<Seq<char>>) -> Seq<Pattern> {
    Seq::new(ids.len(), |i: int| (channel_code(ids[i], names[i]), seq!['#'] + names[i]))
}

/// Replaces each pattern's code by its human form, one pattern after another.
pub open spec fn to_human_all(s: Seq<char>, pats: Seq<Pattern>) -> Seq<char>
    decreases pats.len(),
{
    if pats.len() == 0 {
        s
    } else {
        replace_all(to_human_all(s, pats.drop_last()), pats.last().0, pats.last().1)
    }
}

/// Replaces each pattern's human form by its code, one pattern after another.
pub open spec fn to_code_all(s: Seq<char>, pats: Seq<Pattern>) -> Seq<char>
    decreases pats.len(),
{
    if pats.len() == 0 {
        s
    } else {
        replace_all(to_code_all(s, pats.drop_last()), pats.last().1, pats.last().0)
    }
}

/// Slack's three HTML escapes decoded, `&amp;` first.
pub open spec fn unescape(s: Seq<char>) -> Seq<char> {
    replace_all(
        replace_all(
            replace_all(s, seq!['&', 'a', 'm', 'p', ';'], seq!['&']),
            seq!['&', 'l', 't', ';'],
            seq!['<'],
        ),
        seq!['&', 'g', 't', ';'],
        seq!['>'],
    )
}

pub open spec fn pattern_views(v: Seq<(String, String)>) -> Seq<Pattern> {
    v.map_values(|p: (String, String)| (p.0@, p.1@))
}

/// The lookup and rewriting state shared by the live and backfill work of one session.
pub struct Handler {
    channels: BiMap,
    users: BiMap,
    mention_patterns: Vec<(String, String)>,
    channel_patterns: Vec<(String, String)>,
    server_name: String,
    my_name: String,
}

/// What one received Slack message carries.
#[derive(Debug, Clone, PartialEq, Eq)]
pub struct SlackMessage {
    pub user: Option<String>,
    pub text: Option<String>,
    pub channel: Option<String>,
}

/// The message view of an optional message.
pub open spec fn opt_message_view(r: Option<Message>) -> Option<MessageView> {
    match r {
        Some(m) => Some(m@),
        None => None,
    }
}

impl Handler {
    pub closed spec fn channel_map(&self) -> BiMap {
        self.channels
    }

    pub closed spec fn user_map(&self) -> BiMap {
        self.users
    }

    pub closed spec fn mention_table(&self) -> Seq<Pattern> {
        pattern_views(self.mention_patterns@)
    }

    pub closed spec fn channel_table(&self) -> Seq<Pattern> {
        pattern_views(self.channel_patterns@)
    }

    pub closed spec fn server(&self) -> Seq<char> {
        self.server_name@
    }

    /// The session user's display name, whose presence marks a mention.
    pub closed spec fn me(&self) -> Seq<char> {
        self.my_name@
    }

    /// Both maps are well formed and the tables are the ones they induce.
    pub open spec fn wf(&self) -> bool {
        &&& self.channel_map().wf()
        &&& self.user_map().wf()
        &&& self.mention_table() == mention_patterns_of(
            self.user_map().id_seq(),
            self.user_map().human_seq(),
        )
        &&& self.channel_table() == channel_patterns_of(
            self.channel_map().id_seq(),
            self.channel_map().human_seq(),
        )
    }

    /// Incoming text in human syntax.
    pub open spec fn ingress(&self, text: Seq<char>) -> Seq<char> {
        to_human_all(to_human_all(unescape(text), self.mention_table()), self.channel_table())
    }

    /// Outgoing text in Slack's syntax.
    pub open spec fn egress(&self, text: Seq<char>) -> Seq<char> {
        to_code_all(to_code_all(text, self.mention_table()), self.channel_table())
    }

    /// The normalised form of a message, if it has an author, a text and a
    /// known channel.
    pub open spec fn omni_of(&self, m: SlackMessage) -> Option<MessageView> {
        match (m.user, m.text, m.channel) {
            (Some(u), Some(t), Some(c)) => match self.channel_map().human_of(c@) {
                Some(ch) => Some(
                    MessageView {
                        server: self.server(),
                        channel: ch,
                        sender: match self.user_map().human_of(u@) {
                            Some(n) => n,
                            None => u@,
                        },
                        contents: self.ingress(t@),
                        is_mention: contains_seq(self.ingress(t@), self.me()),
                    },
                ),
                None => None,
            },
            _ => None,
        }
    }

    pub fn new(users: BiMap, channels: BiMap, server_name: String, my_name: String) -> (r: Handler)
        requires
            users.wf(),
            channels.wf(),
        ensures
            r.wf(),
            r.user_map() == users,
            r.channel_map() == channels,
            r.server() == server_name@,
            r.me() == my_name@,
    {
        let mention_patterns = mention_table_of(&users);
        let channel_patterns = channel_table_of(&channels);
        Handler { channels, users, mention_patterns, channel_patterns, server_name, my_name }
    }

    pub fn server_name(&self) -> (r: &String)
        ensures
            r@ == self.server(),
    {
        &self.server_name
    }

    pub fn channels(&self) -> (r: &BiMap)
        ensures
            *r == self.channel_map(),
    {
        &self.channels
    }

    pub fn users(&self) -> (r: &BiMap)
        ensures
            *r == self.user_map(),
    {
        &self.users
    }

    /// Rewrites escapes and platform codes of `text` into human syntax.
    pub fn to_human(&self, text: String) -> (r: String)
        requires
            self.wf(),
        ensures
            r@ == self.ingress(text@),
    {
        proof {
            reveal_strlit("&amp;");
            reveal_strlit("&lt;");
            reveal_strlit("&gt;");
            reveal_strlit("&");
            reveal_strlit("<");
            reveal_strlit(">");
            assert("&amp;"@ =~= seq!['&', 'a', 'm', 'p', ';']);
            assert("&lt;"@ =~= seq!['&', 'l', 't', ';']);
            assert("&gt;"@ =~= seq!['&', 'g', 't', ';']);
            assert("&"@ =~= seq!['&']);
            assert("<"@ =~= seq!['<']);
            assert(">"@ =~= seq!['>']);
        }
        let t = replace(text.as_str(), "&amp;", "&");
        let t = replace(t.as_str(), "&lt;", "<");
        let t = replace(t.as_str(), "&gt;", ">");
        proof {
            lemma_tables_nonempty(self);
        }
        let t = apply_to_human(t, &self.mention_patterns);
        apply_to_human(t, &self.channel_patterns)
    }

    /// The normalised form of a Slack message: `None` when it lacks an author,
    /// a text or a channel, or when its channel is not one of the session's.
    pub fn to_omni(&self, message: SlackMessage) -> (r: Option<Message>)
        requires
            self.wf(),
        ensures
            opt_message_view(r) == self.omni_of(message),
    {
        match (message.user, message.text, message.channel) {
            (Some(user), Some(text), Some(channel)) => {
                match self.channels.get_human(&channel) {
                    Some(ch) => {
                        let text = self.to_human(text);
                        let sender = match self.users.get_human(&user) {
                            Some(n) => n.clone(),
                            None => user,
                        };
                        let is_mention = contains(text.as_str(), self.my_name.as_str());
                        Some(
                            Message {
                                server: self.server_name.clone(),
                                channel: ch.clone(),
                                sender,
                                is_mention,
                                contents: text,
                            },
                        )
                    },
                    None => None,
                }
            },
            _ => None,
        }
    }

    /// Rewrites human mention and channel forms of `text` into Slack codes.
    pub fn to_slack(&self, text: String) -> (r: String)
        requires
            self.wf(),
        ensures
            r@ == self.egress(text@),
    {
        proof {
            lemma_tables_nonempty(self);
        }
        let t = apply_to_code(text, &self.mention_patterns);
        apply_to_code(t, &self.channel_patterns)
    }
}

/// Codes and human forms of a handler's tables are never empty.
proof fn lemma_tables_nonempty(h: &Handler)
    requires
        h.wf(),
    ensures
        forall|i: int| 0 <= i < h.mention_patterns@.len() ==> (#[trigger] h.mention_patterns@[i]).0@.len() > 0
            && h.mention_patterns@[i].1@.len() > 0,
        forall|i: int| 0 <= i < h.channel_patterns@.len() ==> (#[trigger] h.channel_patterns@[i]).0@.len() > 0
            && h.channel_patterns@[i].1@.len() > 0,
{
    assert forall|i: int| 0 <= i < h.mention_patterns@.len() implies (#[trigger] h.mention_patterns@[i]).0@.len() > 0
        && h.mention_patterns@[i].1@.len() > 0 by {
        assert(h.mention_table()[i] == (h.mention_patterns@[i].0@, h.mention_patterns@[i].1@));
        assert(h.mention_table()[i] == mention_patterns_of(h.user_map().id_seq(), h.user_map().human_seq())[i]);
        let ids = h.user_map().id_seq();
        let names = h.user_map().human_seq();
        assert(h.mention_table().len() == h.mention_patterns@.len());
        assert(mention_patterns_of(ids, names).len() == ids.len());
        assert(i < ids.len());
        assert(mention_patterns_of(ids, names)[i] == (user_code(ids[i]), seq!['@'] + names[i]));
        assert(user_code(ids[i]).len() == ids[i].len() + 3);
        assert(h.mention_table()[i].0.len() > 0);
        assert(h.mention_table()[i].1.len() > 0);
    }
    assert forall|i: int| 0 <= i < h.channel_patterns@.len() implies (#[trigger] h.channel_patterns@[i]).0@.len() > 0
        && h.channel_patterns@[i].1@.len() > 0 by {
        assert(h.channel_table()[i] == (h.channel_patterns@[i].0@, h.channel_patterns@[i].1@));
        assert(h.channel_table()[i] == channel_patterns_of(h.channel_map().id_seq(), h.channel_map().human_seq())[i]);
        let cids = h.channel_map().id_seq();
        let cnames = h.channel_map().human_seq();
        assert(h.channel_table().len() == h.channel_patterns@.len());
        assert(channel_patterns_of(cids, cnames).len() == cids.len());
        assert(i < cids.len());
        assert(channel_patterns_of(cids, cnames)[i] == (channel_code(cids[i], cnames[i]), seq!['#'] + cnames[i]));
        assert(h.channel_table()[i].0.len() > 0);
        assert(h.channel_table()[i].1.len() > 0);
    }
}

/// The mention patterns of a user map, in table order.
fn mention_table_of(users: &BiMap) -> (r: Vec<(String, String)>)
    requires
        users.wf(),
    ensures
        pattern_views(r@) == mention_patterns_of(users.id_seq(), users.human_seq()),
{
    let mut r: Vec<(String, String)> = Vec::new();
    let mut k: usize = 0;
    while k < users.len()
        invariant
            users.wf(),
            k <= users.id_seq().len(),
            pattern_views(r@) =~= mention_patterns_of(users.id_seq(), users.human_seq()).subrange(0, k as int),
        decreases users.id_seq().len() - k,
    {
        let open = concat("<@", users.id_at(k).as_str());
        let code = concat(open.as_str(), ">");
        let human = concat("@", users.human_at(k).as_str());
        proof {
            reveal_strlit("<@");
            reveal_strlit(">");
            reveal_strlit("@");
            assert("<@"@ =~= seq!['<', '@']);
            assert(">"@ =~= seq!['>']);
            assert("@"@ =~= seq!['@']);
            assert(code@ =~= user_code(users.id_seq()[k as int]));
            assert(human@ =~= seq!['@'] + users.human_seq()[k as int]);
        }
        let ghost before = r@;
        r.push((code, human));
        assert(pattern_views(r@) =~= pattern_views(before).push(
            mention_patterns_of(users.id_seq(), users.human_seq())[k as int],
        ));
        k = k + 1;
    }
    r
}

/// The channel patterns of a channel map, in table order.
fn channel_table_of(channels: &BiMap) -> (r: Vec<(String, String)>)
    requires
        channels.wf(),
    ensures
        pattern_views(r@) == channel_patterns_of(channels.id_seq(), channels.human_seq()),
{
    let mut r: Vec<(String, String)> = Vec::new();
    let mut k: usize = 0;
    while k < channels.len()
        invariant
            channels.wf(),
            k <= channels.id_seq().len(),
            pattern_views(r@) =~= channel_patterns_of(channels.id_seq(), channels.human_seq()).subrange(0, k as int),
        decreases channels.id_seq().len() - k,
    {
        let name = channels.human_at(k);
        let a = concat("<#", channels.id_at(k).as_str());
        let b = concat(a.as_str(), "|");
        let c = concat(b.as_str(), name.as_str());
        let code = concat(c.as_str(), ">");
        let human = concat("#", name.as_str());
        proof {
            reveal_strlit("<#");
            reveal_strlit("|");
            reveal_strlit(">");
            reveal_strlit("#");
            assert("<#"@ =~= seq!['<', '#']);
            assert("|"@ =~= seq!['|']);
            assert(">"@ =~= seq!['>']);
            assert("#"@ =~= seq!['#']);
            assert(code@ =~= channel_code(channels.id_seq()[k as int], channels.human_seq()[k as int]));
            assert(human@ =~= seq!['#'] + channels.human_seq()[k as int]);
        }
        let ghost before = r@;
        r.push((code, human));
        assert(pattern_views(r@) =~= pattern_views(before).push(
            channel_patterns_of(channels.id_seq(), channels.human_seq())[k as int],
        ));
        k = k + 1;
    }
    r
}

/// A channel or private group as the session's start data lists it.
#[derive(Debug, Clone, PartialEq, Eq)]
pub struct SlackChannel {
    pub id: Option<String>,
    pub name: Option<String>,
    pub is_member: Option<bool>,
    pub is_archived: Option<bool>,
    pub is_mpim: Option<bool>,
}

/// A workspace member as the session's start data lists it.
#[derive(Debug, Clone, PartialEq, Eq)]
pub struct SlackUser {
    pub id: Option<String>,
    pub name: Option<String>,
}

pub open spec fn str_of(o: Option<String>) -> Seq<char> {
    match o {
        Some(s) => s@,
        None => Seq::empty(),
    }
}

/// A member listing is usable when it carries both an identifier and a name.
pub open spec fn user_ok(u: SlackUser) -> bool {
    u.id is Some && u.name is Some
}

/// A public channel is kept when the session is a member and it is not archived.
pub open spec fn channel_kept(c: SlackChannel) -> bool {
    c.is_member == Some(true) && c.is_archived == Some(false)
}

/// A private group is kept when it is neither archived nor a multi-party
/// direct message.
pub open spec fn group_kept(g: SlackChannel) -> bool {
    g.is_archived == Some(false) && g.is_mpim == Some(false)
}

/// A channel listing is usable when a kept channel has an identifier and a name.
pub open spec fn channel_ok(c: SlackChannel) -> bool {
    channel_kept(c) ==> c.id is Some && c.name is Some
}

/// A group listing is usable when the flags that decide on it are present and a
/// kept group has an identifier and a name.
pub open spec fn group_ok(g: SlackChannel) -> bool {
    &&& g.is_archived is Some
    &&& g.is_archived == Some(false) ==> g.is_mpim is Some
    &&& group_kept(g) ==> g.id is Some && g.name is Some
}

/// Identifiers and names, in listing order, of the kept entries.
pub open spec fn kept_entries(cs: Seq<SlackChannel>, groups: bool) -> (Seq<Seq<char>>, Seq<Seq<char>>)
    decreases cs.len(),
{
    if cs.len() == 0 {
        (Seq::empty(), Seq::empty())
    } else {
        let (ids, names) = kept_entries(cs.drop_last(), groups);
        let c = cs.last();
        if (if groups { group_kept(c) } else { channel_kept(c) }) {
            (ids.push(str_of(c.id)), names.push(str_of(c.name)))
        } else {
            (ids, names)
        }
    }
}

/// The kept identifiers and names pair up.
proof fn lemma_kept_entries_len(cs: Seq<SlackChannel>, groups: bool)
    ensures
        kept_entries(cs, groups).0.len() == kept_entries(cs, groups).1.len(),
    decreases cs.len(),
{
    if cs.len() > 0 {
        lemma_kept_entries_len(cs.drop_last(), groups);
    }
}

/// The identifier and name tables of a session: users, then channels followed
/// by groups; `None` when a required field is missing.
pub open spec fn start_tables(members: Seq<SlackUser>, channels: Seq<SlackChannel>, groups: Seq<SlackChannel>)
    -> Option<(Seq<Seq<char>>, Seq<Seq<char>>, Seq<Seq<char>>, Seq<Seq<char>>)>
{
    if (forall|i: int| 0 <= i < members.len() ==> user_ok(#[trigger] members[i]))
        && (forall|i: int| 0 <= i < channels.len() ==> listing_ok(#[trigger] channels[i], false))
        && (forall|i: int| 0 <= i < groups.len() ==> listing_ok(#[trigger] groups[i], true)) {
        let uids = Seq::new(members.len(), |i: int| str_of(members[i].id));
        let unames = Seq::new(members.len(), |i: int| str_of(members[i].name));
        let (cids, cnames) = kept_entries(channels, false);
        let (gids, gnames) = kept_entries(groups, true);
        Some((uids, unames, cids + gids, cnames + gnames))
    } else {
        None
    }
}

/// Whether a start response yields a session: every field is present, and
/// neither table holds a value twice.
pub open spec fn start_ok(
    team_name: Option<String>,
    self_name: Option<String>,
    members: Option<Vec<SlackUser>>,
    channels: Option<Vec<SlackChannel>>,
    groups: Option<Vec<SlackChannel>>,
) -> bool {
    match (team_name, self_name, members, channels, groups) {
        (Some(_), Some(_), Some(m), Some(c), Some(g)) => match start_tables(m@, c@, g@) {
            Some((uids, unames, cids, cnames)) => distinct(uids) && distinct(unames) && distinct(cids)
                && distinct(cnames),
            None => false,
        },
        _ => false,
    }
}

/// Identifiers and names of the members; `None` when one lacks either.
fn user_lists(members: &Vec<SlackUser>) -> (r: Option<(Vec<String>, Vec<String>)>)
    ensures
        (forall|i: int| 0 <= i < members@.len() ==> user_ok(#[trigger] members@[i])) <==> r is Some,
        r matches Some((ids, names)) ==> {
            &&& views(ids@) == Seq::new(members@.len(), |i: int| str_of(members@[i].id))
            &&& views(names@) == Seq::new(members@.len(), |i: int| str_of(members@[i].name))
        },
{
    let mut ids: Vec<String> = Vec::new();
    let mut names: Vec<String> = Vec::new();
    let mut k: usize = 0;
    while k < members.len()
        invariant
            k <= members@.len(),
            forall|i: int| 0 <= i < k ==> user_ok(#[trigger] members@[i]),
            views(ids@) =~= Seq::new(k as nat, |i: int| str_of(members@[i].id)),
            views(names@) =~= Seq::new(k as nat, |i: int| str_of(members@[i].name)),
        decreases members@.len() - k,
    {
        let ghost before_ids = views(ids@);
        let ghost before_names = views(names@);
        match (&members[k].id, &members[k].name) {
            (Some(id), Some(name)) => {
                ids.push(id.clone());
                names.push(name.clone());
                assert(views(ids@) =~= before_ids.push(id@));
                assert(views(names@) =~= before_names.push(name@));
            },
            _ => {
                assert(!user_ok(members@[k as int]));
                return None;
            },
        }
        k = k + 1;
    }
    Some((ids, names))
}

/// Whether the listing at hand is usable.
pub open spec fn listing_ok(c: SlackChannel, groups: bool) -> bool {
    if groups {
        group_ok(c)
    } else {
        channel_ok(c)
    }
}

/// Identifiers and names of the kept entries, appended to `ids` and `names`;
/// `false` when a listing is unusable.
fn kept_lists(cs: &Vec<SlackChannel>, groups: bool, ids: &mut Vec<String>, names: &mut Vec<String>) -> (r: bool)
    ensures
        r <==> forall|i: int| 0 <= i < cs@.len() ==> listing_ok(#[trigger] cs@[i], groups),
        r ==> views(final(ids)@) == views(old(ids)@) + kept_entries(cs@, groups).0,
        r ==> views(final(names)@) == views(old(names)@) + kept_entries(cs@, groups).1,
{
    let ghost ids0 = views(ids@);
    let ghost names0 = views(names@);
    let mut k: usize = 0;
    while k < cs.len()
        invariant
            k <= cs@.len(),
            forall|i: int| 0 <= i < k ==> listing_ok(#[trigger] cs@[i], groups),
            views(ids@) == ids0 + kept_entries(cs@.subrange(0, k as int), groups).0,
            views(names@) == names0 + kept_entries(cs@.subrange(0, k as int), groups).1,
        decreases cs@.len() - k,
    {
        let c = &cs[k];
        assert(cs@.subrange(0, k + 1).drop_last() =~= cs@.subrange(0, k as int));
        assert(cs@.subrange(0, k + 1).last() == *c);
        let ghost before_ids = views(ids@);
        let ghost before_names = views(names@);
        let kept = if groups {
            match (c.is_archived, c.is_mpim) {
                (Some(false), Some(false)) => true,
                (Some(false), None) => {
                    assert(!listing_ok(cs@[k as int], groups));
                    return false;
                },
                (None, _) => {
                    assert(!listing_ok(cs@[k as int], groups));
                    return false;
                },
                _ => false,
            }
        } else {
            match (c.is_member, c.is_archived) {
                (Some(true), Some(false)) => true,
                _ => false,
            }
        };
        if kept {
            match (&c.id, &c.name) {
                (Some(id), Some(name)) => {
                    ids.push(id.clone());
                    names.push(name.clone());
                    assert(views(ids@) =~= before_ids.push(id@));
                    assert(views(names@) =~= before_names.push(name@));
                },
                _ => {
                    assert(!listing_ok(cs@[k as int], groups));
                    return false;
                },
            }
        }
        k = k + 1;
    }
    assert(cs@.subrange(0, k as int) =~= cs@);
    true
}

/// Builds the session's lookup and rewriting state from the start data: the team name,
/// the session user's name, the members, the public channels and the private
/// groups. Fails when a field is missing or a table would hold a value twice.
pub fn setup(
    team_name: Option<String>,
    self_name: Option<String>,
    members: Option<Vec<SlackUser>>,
    channels: Option<Vec<SlackChannel>>,
    groups: Option<Vec<SlackChannel>>,
) -> (r: Result<Handler, ConnError>)
    ensures
        r is Ok <==> start_ok(team_name, self_name, members, channels, groups),
        r is Err ==> r == Err::<Handler, ConnError>(ConnError::SlackError),
        r matches Ok(h) ==> {
            &&& h.wf()
            &&& h.server() == str_of(team_name)
            &&& h.me() == str_of(self_name)
            &&& start_tables(members.unwrap()@, channels.unwrap()@, groups.unwrap()@) == Some(
                (
                    h.user_map().id_seq(),
                    h.user_map().human_seq(),
                    h.channel_map().id_seq(),
                    h.channel_map().human_seq(),
                ),
            )
        },
{
    let (team_name, self_name, members, channels, groups) = match (team_name, self_name, members, channels, groups) {
        (Some(t), Some(s), Some(m), Some(c), Some(g)) => (t, s, m, c, g),
        _ => {
            return Err(ConnError::SlackError);
        },
    };
    let (user_ids, user_names) = match user_lists(&members) {
        Some(lists) => lists,
        None => {
            return Err(ConnError::SlackError);
        },
    };
    let mut channel_ids: Vec<String> = Vec::new();
    let mut channel_names: Vec<String> = Vec::new();
    if !kept_lists(&channels, false, &mut channel_ids, &mut channel_names) {
        return Err(ConnError::SlackError);
    }
    if !kept_lists(&groups, true, &mut channel_ids, &mut channel_names) {
        return Err(ConnError::SlackError);
    }
    assert(views(Seq::<String>::empty()) =~= Seq::<Seq<char>>::empty());
    proof {
        lemma_kept_entries_len(channels@, false);
        lemma_kept_entries_len(groups@, true);
    }
    assert(start_tables(members@, channels@, groups@) == Some(
        (views(user_ids@), views(user_names@), views(channel_ids@), views(channel_names@)),
    ));
    let ub = BiMapBuilder { human: user_names, id: user_ids };
    let cb = BiMapBuilder { human: channel_names, id: channel_ids };
    assert(start_tables(members@, channels@, groups@) == Some(
        (views(ub.id@), views(ub.human@), views(cb.id@), views(cb.human@)),
    ));
    let ghost (uid, uname, cid, cname) = (views(ub.id@), views(ub.human@), views(cb.id@), views(cb.human@));
    assert(uid.len() == ub.id@.len() && uname.len() == ub.human@.len());
    assert(cid.len() == cb.id@.len() && cname.len() == cb.human@.len());
    assert(ub.id@.len() == ub.human@.len());
    assert(cb.id@.len() == cb.human@.len());
    let users = match BiMap::new(ub) {
        Ok(m) => m,
        Err(e) => {
            assert(e != BuildError::LengthMismatch);
            assert(e == BuildError::DuplicateId ==> !distinct(uid));
            assert(!distinct(uid) || !distinct(uname));
            return Err(ConnError::SlackError);
        },
    };
    let channels = match BiMap::new(cb) {
        Ok(m) => m,
        Err(e) => {
            assert(e != BuildError::LengthMismatch);
            assert(e == BuildError::DuplicateId ==> !distinct(cid));
            assert(!distinct(cid) || !distinct(cname));
            return Err(ConnError::SlackError);
        },
    };
    Ok(Handler::new(users, channels, team_name, self_name))
}

/// `m` as seen in channel `channel`.
pub open spec fn in_channel(m: SlackMessage, channel: String) -> SlackMessage {
    SlackMessage { user: m.user, text: m.text, channel: Some(channel) }
}

/// The event a received message yields: `Mention` or `Message` on a known
/// channel, an `Error` naming an unknown channel, nothing for a message that
/// lacks an author, a text or a channel.
pub open spec fn live_event_of(h: Handler, m: SlackMessage) -> Option<EventView> {
    match (m.user, m.text, m.channel) {
        (Some(_), Some(_), Some(c)) => match h.omni_of(m) {
            Some(v) => if v.is_mention {
                Some(EventView::Mention(v))
            } else {
                Some(EventView::Message(v))
            },
            None => Some(EventView::Error(unknown_channel_text() + c@)),
        },
        _ => None,
    }
}

pub open spec fn unknown_channel_text() -> Seq<char> {
    "Unknown slack channel: "@
}

/// The history events of a page of messages, which Slack lists newest first:
/// one `HistoryMessage` per normalisable message, oldest first.
pub open spec fn history_of(h: Handler, channel_id: String, page: Seq<SlackMessage>) -> Seq<EventView>
    decreases page.len(),
{
    if page.len() == 0 {
        Seq::empty()
    } else {
        let rest = history_of(h, channel_id, page.drop_first());
        match h.omni_of(in_channel(page[0], channel_id)) {
            Some(v) => rest.push(EventView::HistoryMessage(v)),
            None => rest,
        }
    }
}

pub open spec fn event_view_opt(e: Option<Event>) -> Option<EventView> {
    match e {
        Some(e) => Some(e@),
        None => None,
    }
}

/// What the session does after posting a message: stop, post once more, or
/// report the failure.
#[derive(Debug, Clone, PartialEq, Eq)]
pub enum PostStep {
    Done,
    Retry,
    Report(Event),
}

/// A command verb with the arguments it needs.
#[derive(Debug, Clone, PartialEq, Eq)]
pub enum SlackCommand {
    Join(String),
    Leave(String),
    Delete,
    Update(String),
    Search(String),
    Users,
    Fail(String),
    Ignore,
}

fn is_word(s: &String, w: &str) -> (r: bool)
    ensures
        r == (s@ == w@),
{
    let w = String::from_str(w);
    *s == w
}

impl Handler {
    /// The event for a message received on the live stream.
    pub fn live_event(&self, message: SlackMessage) -> (r: Option<Event>)
        requires
            self.wf(),
        ensures
            event_view_opt(r) == live_event_of(*self, message),
    {
        let ghost m = message;
        let channel = match &message.channel {
            Some(c) => c.clone(),
            None => {
                return None;
            },
        };
        if message.user.is_none() || message.text.is_none() {
            return None;
        }
        match self.to_omni(message) {
            Some(msg) => if msg.is_mention {
                Some(Event::Mention(msg))
            } else {
                Some(Event::Message(msg))
            },
            None => Some(Event::Error(concat("Unknown slack channel: ", channel.as_str()))),
        }
    }

    /// The events of a channel's history: the page's messages oldest first,
    /// then the sentinel; after a failed fetch, the error and then the sentinel.
    pub fn history_events(
        &self,
        channel_id: &String,
        channel_name: &String,
        page: Result<Vec<SlackMessage>, String>,
    ) -> (r: Vec<Event>)
        requires
            self.wf(),
        ensures
            event_views(r@) == match page {
                Ok(p) => history_of(*self, *channel_id, p@),
                Err(e) => seq![EventView::Error(e@)],
            }.push(EventView::HistoryLoaded { server: self.server(), channel: channel_name@ }),
    {
        let mut out: Vec<Event> = Vec::new();
        match page {
            Ok(mut p) => {
                let ghost all = p@;
                while p.len() > 0
                    invariant
                        self.wf(),
                        all.len() >= p@.len(),
                        p@ == all.subrange(0, p@.len() as int),
                        event_views(out@) == history_of(*self, *channel_id, all.subrange(p@.len() as int, all.len() as int)),
                    decreases p@.len(),
                {
                    let m = p.pop().unwrap();
                    let ghost k = p@.len() as int;
                    assert(all.subrange(k, all.len() as int).drop_first() =~= all.subrange(k + 1, all.len() as int));
                    assert(all.subrange(k, all.len() as int)[0] == m);
                    let moved = SlackMessage { user: m.user, text: m.text, channel: Some(channel_id.clone()) };
                    match self.to_omni(moved) {
                        Some(msg) => {
                            let ghost before = out@;
                            out.push(Event::HistoryMessage(msg));
                            assert(event_views(out@) =~= event_views(before).push(out@.last()@));
                        },
                        None => {},
                    }
                }
                assert(all.subrange(0, all.len() as int) =~= all);
            },
            Err(e) => {
                out.push(Event::Error(e));
                assert(event_views(out@) =~= seq![out@[0]@]);
            },
        }
        let ghost before = out@;
        out.push(Event::HistoryLoaded { server: self.server_name.clone(), channel: channel_name.clone() });
        assert(event_views(out@) =~= event_views(before).push(out@.last()@));
        out
    }

    /// The remote call a command asks for; unknown verbs, and known verbs with
    /// the wrong number of arguments, are ignored.
    pub fn plan_command(&self, cmd: &String, args: &Vec<String>) -> (r: SlackCommand)
        requires
            self.wf(),
        ensures
            cmd@ == "join"@ && args@.len() == 1 ==> (r matches SlackCommand::Join(n) && n@ == args@[0]@),
            cmd@ == "leave"@ && args@.len() == 1 ==> match self.channel_map().id_of(args@[0]@) {
                Some(id) => r matches SlackCommand::Leave(i) && i@ == id,
                None => r matches SlackCommand::Fail(e) && e@ == "Unknown channel"@,
            },
            cmd@ == "delete"@ && args@.len() == 0 ==> r is Delete,
            cmd@ == "update"@ && args@.len() == 1 ==> (r matches SlackCommand::Update(t) && t@ == args@[0]@),
            cmd@ == "search"@ && args@.len() == 1 ==> (r matches SlackCommand::Search(q) && q@ == args@[0]@),
            cmd@ == "users"@ && args@.len() == 0 ==> r is Users,
            !(cmd@ == "join"@ && args@.len() == 1) && !(cmd@ == "leave"@ && args@.len() == 1) && !(cmd@
                == "delete"@ && args@.len() == 0) && !(cmd@ == "update"@ && args@.len() == 1) && !(cmd@
                == "search"@ && args@.len() == 1) && !(cmd@ == "users"@ && args@.len() == 0) ==> r is Ignore,
    {
        proof {
            reveal_strlit("join");
            reveal_strlit("leave");
            reveal_strlit("delete");
            reveal_strlit("update");
            reveal_strlit("search");
            reveal_strlit("users");
            assert("users"@.len() == 5 && "delete"@.len() == 6);
            assert("leave"@.len() == 5 && "join"@.len() == 4);
            assert("search"@[0] == 's' && "update"@[0] == 'u');
        }
        let n = args.len();
        if n == 1 && is_word(cmd, "join") {
            SlackCommand::Join(args[0].clone())
        } else if n == 1 && is_word(cmd, "leave") {
            match self.channels.get_id(&args[0]) {
                Some(id) => SlackCommand::Leave(id.clone()),
                None => SlackCommand::Fail(String::from_str("Unknown channel")),
            }
        } else if n == 0 && is_word(cmd, "delete") {
            SlackCommand::Delete
        } else if n == 1 && is_word(cmd, "update") {
            SlackCommand::Update(args[0].clone())
        } else if n == 1 && is_word(cmd, "search") {
            SlackCommand::Search(args[0].clone())
        } else if n == 0 && is_word(cmd, "users") {
            SlackCommand::Users
        } else {
            SlackCommand::Ignore
        }
    }
}

/// The completion for a word, chosen by its first character.
pub fn autocomplete(word: &str) -> (r: Option<String>)
    ensures
        word@.len() > 0 && word@[0] == '#' ==> (r matches Some(s) && s@ == "#channel_auto"@),
        word@.len() > 0 && word@[0] == '@' ==> (r matches Some(s) && s@ == "@user_auto"@),
        word@.len() > 0 && word@[0] == ':' ==> (r matches Some(s) && s@ == ":emoji_auto:"@),
        word@.len() > 0 && word@[0] == '+' ==> (r matches Some(s) && s@ == "+:emoji_auto:"@),
        word@.len() == 0 || !(word@[0] == '#' || word@[0] == '@' || word@[0] == ':' || word@[0] == '+')
            ==> r is None,
{
    if word.unicode_len() == 0 {
        return None;
    }
    let c = word.get_char(0);
    if c == '#' {
        Some(String::from_str("#channel_auto"))
    } else if c == '@' {
        Some(String::from_str("@user_auto"))
    } else if c == ':' {
        Some(String::from_str(":emoji_auto:"))
    } else if c == '+' {
        Some(String::from_str("+:emoji_auto:"))
    } else {
        None
    }
}

/// The step after post attempt number `attempt` (from 0): a failed first
/// attempt is retried once, a failed retry is reported.
pub fn after_post(attempt: u32, outcome: Result<(), String>) -> (r: PostStep)
    ensures
        outcome is Ok ==> r is Done,
        outcome is Err && attempt == 0 ==> r is Retry,
        outcome is Err && attempt > 0 ==> (r matches PostStep::Report(Event::Error(m)) && m@ == outcome->Err_0@),
{
    match outcome {
        Ok(()) => PostStep::Done,
        Err(e) => if attempt == 0 {
            PostStep::Retry
        } else {
            PostStep::Report(Event::Error(e))
        },
    }
}

/// Patterns whose human form does not occur in `s` leave it as it is on the
/// way out.
proof fn lemma_code_all_absent(s: Seq<char>, pats: Seq<Pattern>)
    requires
        forall|k: int| 0 <= k < pats.len() ==> !contains_seq(s, #[trigger] pats[k].1),
    ensures
        to_code_all(s, pats) == s,
    decreases pats.len(),
{
    if pats.len() > 0 {
        lemma_code_all_absent(s, pats.drop_last());
        lemma_replace_absent(s, pats.last().1, pats.last().0);
    }
}

/// Patterns whose code does not occur in `s` leave it as it is on the way in.
proof fn lemma_human_all_absent(s: Seq<char>, pats: Seq<Pattern>)
    requires
        forall|k: int| 0 <= k < pats.len() ==> !contains_seq(s, #[trigger] pats[k].0),
    ensures
        to_human_all(s, pats) == s,
    decreases pats.len(),
{
    if pats.len() > 0 {
        lemma_human_all_absent(s, pats.drop_last());
        lemma_replace_absent(s, pats.last().0, pats.last().1);
    }
}

/// Going out through two tables is going out through the two joined.
proof fn lemma_code_all_join(s: Seq<char>, a: Seq<Pattern>, b: Seq<Pattern>)
    ensures
        to_code_all(to_code_all(s, a), b) == to_code_all(s, a + b),
    decreases b.len(),
{
    if b.len() > 0 {
        lemma_code_all_join(s, a, b.drop_last());
        assert((a + b).drop_last() =~= a + b.drop_last());
        assert((a + b).last() == b.last());
    }
}

/// Coming in through two tables is coming in through the two joined.
proof fn lemma_human_all_join(s: Seq<char>, a: Seq<Pattern>, b: Seq<Pattern>)
    ensures
        to_human_all(to_human_all(s, a), b) == to_human_all(s, a + b),
    decreases b.len(),
{
    if b.len() > 0 {
        lemma_human_all_join(s, a, b.drop_last());
        assert((a + b).drop_last() =~= a + b.drop_last());
        assert((a + b).last() == b.last());
    }
}

/// No other form or code of `pats` occurs in the form or the code at `i`.
pub open spec fn isolated(pats: Seq<Pattern>, i: int) -> bool {
    forall|k: int|
        0 <= k < pats.len() && k != i ==> {
            &&& !contains_seq(pats[i].0, (#[trigger] pats[k]).0)
            &&& !contains_seq(pats[i].0, pats[k].1)
            &&& !contains_seq(pats[i].1, pats[k].0)
            &&& !contains_seq(pats[i].1, pats[k].1)
        }
}

/// The human form at `i` goes out as the code at `i`.
proof fn lemma_code_all_hit(pats: Seq<Pattern>, i: int)
    requires
        0 <= i < pats.len(),
        pats[i].1.len() > 0,
        isolated(pats, i),
    ensures
        to_code_all(pats[i].1, pats) == pats[i].0,
    decreases pats.len(),
{
    let last = pats.len() - 1;
    if i < last {
        lemma_code_all_hit(pats.drop_last(), i);
        assert(!contains_seq(pats[i].0, pats[last].1));
        lemma_replace_absent(pats[i].0, pats.last().1, pats.last().0);
    } else {
        let front = pats.drop_last();
        assert forall|k: int| 0 <= k < front.len() implies !contains_seq(pats[i].1, #[trigger] front[k].1) by {
            assert(front[k] == pats[k]);
        }
        lemma_code_all_absent(pats[i].1, front);
        lemma_replace_whole(pats[i].1, pats[i].0);
    }
}

/// The code at `i` comes in as the human form at `i`.
proof fn lemma_human_all_hit(pats: Seq<Pattern>, i: int)
    requires
        0 <= i < pats.len(),
        pats[i].0.len() > 0,
        isolated(pats, i),
    ensures
        to_human_all(pats[i].0, pats) == pats[i].1,
    decreases pats.len(),
{
    let last = pats.len() - 1;
    if i < last {
        lemma_human_all_hit(pats.drop_last(), i);
        assert(!contains_seq(pats[i].1, pats[last].0));
        lemma_replace_absent(pats[i].1, pats.last().0, pats.last().1);
    } else {
        let front = pats.drop_last();
        assert forall|k: int| 0 <= k < front.len() implies !contains_seq(pats[i].0, #[trigger] front[k].0) by {
            assert(front[k] == pats[k]);
        }
        lemma_human_all_absent(pats[i].0, front);
        lemma_replace_whole(pats[i].0, pats[i].1);
    }
}

/// A session's mention patterns followed by its channel patterns.
pub open spec fn all_patterns(h: Handler) -> Seq<Pattern> {
    h.mention_table() + h.channel_table()
}

/// A human form of the session's tables goes out as its code and comes back
/// in as itself, so that going out again gives the same code, when its code
/// holds no `&` and no other form or code of the tables occurs inside its
/// form or its code.
pub proof fn lemma_form_round_trip(h: Handler, i: int)
    requires
        h.wf(),
        0 <= i < all_patterns(h).len(),
        !all_patterns(h)[i].0.contains('&'),
        isolated(all_patterns(h), i),
    ensures
        h.egress(all_patterns(h)[i].1) == all_patterns(h)[i].0,
        h.ingress(all_patterns(h)[i].0) == all_patterns(h)[i].1,
        h.egress(h.ingress(h.egress(all_patterns(h)[i].1))) == h.egress(all_patterns(h)[i].1),
{
    let pats = all_patterns(h);
    let m = h.mention_table();
    let code = pats[i].0;
    let human = pats[i].1;
    if i < m.len() {
        let ids = h.user_map().id_seq();
        let names = h.user_map().human_seq();
        assert(pats[i] == mention_patterns_of(ids, names)[i]);
        assert(user_code(ids[i]).len() > 0);
    } else {
        let ids = h.channel_map().id_seq();
        let names = h.channel_map().human_seq();
        let k = i - m.len();
        assert(pats[i] == channel_patterns_of(ids, names)[k]);
        assert(channel_code(ids[k], names[k]).len() > 0);
    }
    assert(code.len() > 0 && human.len() > 0);
    lemma_code_all_join(human, m, h.channel_table());
    lemma_code_all_hit(pats, i);
    let amp = seq!['&', 'a', 'm', 'p', ';'];
    let lt = seq!['&', 'l', 't', ';'];
    let gt = seq!['&', 'g', 't', ';'];
    lemma_absent_by_first(code, amp);
    lemma_replace_absent(code, amp, seq!['&']);
    lemma_absent_by_first(code, lt);
    lemma_replace_absent(code, lt, seq!['<']);
    lemma_absent_by_first(code, gt);
    lemma_replace_absent(code, gt, seq!['>']);
    assert(unescape(code) == code);
    lemma_human_all_join(code, m, h.channel_table());
    lemma_human_all_hit(pats, i);
}

/// Applies the patterns of `pats` from code to human form.
fn apply_to_human(text: String, pats: &Vec<(String, String)>) -> (r: String)
    requires
        forall|i: int| 0 <= i < pats@.len() ==> (#[trigger] pats@[i]).0@.len() > 0,
    ensures
        r@ == to_human_all(text@, pattern_views(pats@)),
{
    let ghost start = text@;
    let mut text = text;
    let mut k: usize = 0;
    while k < pats.len()
        invariant
            k <= pats@.len(),
            forall|i: int| 0 <= i < pats@.len() ==> (#[trigger] pats@[i]).0@.len() > 0,
            text@ == to_human_all(start, pattern_views(pats@.subrange(0, k as int))),
        decreases pats@.len() - k,
    {
        assert(pattern_views(pats@.subrange(0, k + 1)).drop_last()
            =~= pattern_views(pats@.subrange(0, k as int)));
        text = replace(text.as_str(), pats[k].0.as_str(), pats[k].1.as_str());
        k = k + 1;
    }
    assert(pats@.subrange(0, k as int) =~= pats@);
    text
}

/// Applies the patterns of `pats` from human form to code.
fn apply_to_code(text: String, pats: &Vec<(String, String)>) -> (r: String)
    requires
        forall|i: int| 0 <= i < pats@.len() ==> (#[trigger] pats@[i]).1@.len() > 0,
    ensures
        r@ == to_code_all(text@, pattern_views(pats@)),
{
    let ghost start = text@;
    let mut text = text;
    let mut k: usize = 0;
    while k < pats.len()
        invariant
            k <= pats@.len(),
            forall|i: int| 0 <= i < pats@.len() ==> (#[trigger] pats@[i]).1@.len() > 0,
            text@ == to_code_all(start, pattern_views(pats@.subrange(0, k as int))),
        decreases pats@.len() - k,
    {
        assert(pattern_views(pats@.subrange(0, k + 1)).drop_last()
            =~= pattern_views(pats@.subrange(0, k as int)));
        text = replace(text.as_str(), pats[k].1.as_str(), pats[k].0.as_str());
        k = k + 1;
    }
    assert(pats@.subrange(0, k as int) =~= pats@);
    text
}

} // verus!
