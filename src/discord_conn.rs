//! Decisions of the Discord adapter: choosing the server and the readable
//! channels, ordering backfilled history, and classifying live messages.
use vstd::prelude::*;
use crate::bimap::{distinct, views, BiMap, BiMapBuilder, BuildError};
use crate::conn::{event_views, ConnError, Event, EventView, Message, MessageView};
use crate::text::{concat, contains, contains_seq};

verus! {

/// A channel of the chosen server, with the session's permissions on it.
#[derive(Debug, Clone, PartialEq, Eq)]
pub struct DiscordChannel {
    pub id: String,
    pub name: String,
    pub is_text: bool,
    pub can_read: bool,
    pub can_send: bool,
}

/// A message of a channel's history.
#[derive(Debug, Clone, PartialEq, Eq)]
pub struct DiscordMessage {
    pub timestamp: i64,
    pub author: String,
    pub content: String,
}

/// A channel is offered when it is a text channel the session may read and
/// post to.
pub open spec fn readable(c: DiscordChannel) -> bool {
    c.is_text && c.can_read && c.can_send
}

/// Identifiers and names, in listing order, of the offered channels.
pub open spec fn readable_entries(cs: Seq<DiscordChannel>) -> (Seq<Seq<char>>, Seq<Seq<char>>)
    decreases cs.len(),
{
    if cs.len() == 0 {
        (Seq::empty(), Seq::empty())
    } else {
        let (ids, names) = readable_entries(cs.drop_last());
        let c = cs.last();
        if readable(c) {
            (ids.push(c.id@), names.push(c.name@))
        } else {
            (ids, names)
        }
    }
}

proof fn lemma_readable_entries_len(cs: Seq<DiscordChannel>)
    ensures
        readable_entries(cs).0.len() == readable_entries(cs).1.len(),
    decreases cs.len(),
{
    if cs.len() > 0 {
        lemma_readable_entries_len(cs.drop_last());
    }
}

/// The server at `i` is online and named `name`.
pub open spec fn server_matches(servers: Seq<Option<String>>, i: int, name: Seq<char>) -> bool {
    servers[i] matches Some(s) && s@ == name
}

/// The position of the first online server named `name`; servers that are
/// offline are `None`.
pub fn select_server(servers: &Vec<Option<String>>, name: &String) -> (r: Result<usize, ConnError>)
    ensures
        r matches Ok(i) ==> i < servers@.len() && server_matches(servers@, i as int, name@) && forall|j: int|
            0 <= j < i ==> !server_matches(servers@, j, name@),
        r is Err ==> r == Err::<usize, ConnError>(ConnError::DiscordError) && forall|j: int|
            0 <= j < servers@.len() ==> !server_matches(servers@, j, name@),
{
    let mut k: usize = 0;
    while k < servers.len()
        invariant
            k <= servers@.len(),
            forall|j: int| 0 <= j < k ==> !server_matches(servers@, j, name@),
        decreases servers@.len() - k,
    {
        match &servers[k] {
            Some(s) => {
                if *s == *name {
                    return Ok(k);
                }
            },
            None => {},
        }
        k = k + 1;
    }
    Err(ConnError::DiscordError)
}

/// The table of offered channels; fails when two of them share an identifier
/// or a name.
pub fn channel_table(chans: &Vec<DiscordChannel>) -> (r: Result<BiMap, ConnError>)
    ensures
        r is Ok <==> distinct(readable_entries(chans@).0) && distinct(readable_entries(chans@).1),
        r is Err ==> r == Err::<BiMap, ConnError>(ConnError::DiscordError),
        r matches Ok(m) ==> {
            &&& m.wf()
            &&& m.id_seq() == readable_entries(chans@).0
            &&& m.human_seq() == readable_entries(chans@).1
        },
{
    let mut ids: Vec<String> = Vec::new();
    let mut names: Vec<String> = Vec::new();
    let mut k: usize = 0;
    assert(views(Seq::<String>::empty()) =~= Seq::<Seq<char>>::empty());
    while k < chans.len()
        invariant
            k <= chans@.len(),
            views(ids@) == readable_entries(chans@.subrange(0, k as int)).0,
            views(names@) == readable_entries(chans@.subrange(0, k as int)).1,
        decreases chans@.len() - k,
    {
        let c = &chans[k];
        assert(chans@.subrange(0, k + 1).drop_last() =~= chans@.subrange(0, k as int));
        assert(chans@.subrange(0, k + 1).last() == *c);
        if c.is_text && c.can_read && c.can_send {
            let ghost before_ids = views(ids@);
            let ghost before_names = views(names@);
            ids.push(c.id.clone());
            names.push(c.name.clone());
            assert(views(ids@) =~= before_ids.push(c.id@));
            assert(views(names@) =~= before_names.push(c.name@));
        }
        k = k + 1;
    }
    assert(chans@.subrange(0, k as int) =~= chans@);
    proof {
        lemma_readable_entries_len(chans@);
    }
    let b = BiMapBuilder { human: names, id: ids };
    let ghost (bid, bname) = (views(b.id@), views(b.human@));
    assert(bid.len() == b.id@.len() && bname.len() == b.human@.len());
    match BiMap::new(b) {
        Ok(m) => Ok(m),
        Err(e) => {
            assert(e != BuildError::LengthMismatch);
            assert(e == BuildError::DuplicateId ==> !distinct(bid));
            Err(ConnError::DiscordError)
        },
    }
}

/// How Discord writes a mention of the user `id` in message text.
pub open spec fn mention_form_of(id: Seq<char>) -> Seq<char> {
    seq!['<', '@', '!'] + id + seq!['>']
}

pub fn mention_form(user_id: &String) -> (r: String)
    ensures
        r@ == mention_form_of(user_id@),
{
    proof {
        reveal_strlit("<@!");
        reveal_strlit(">");
        assert("<@!"@ =~= seq!['<', '@', '!']);
        assert(">"@ =~= seq!['>']);
    }
    let open = concat("<@!", user_id.as_str());
    concat(open.as_str(), ">")
}

/// The normalised form of a message on `channel` of `server`.
pub open spec fn message_of(
    server: Seq<char>,
    channel: Seq<char>,
    sender: Seq<char>,
    contents: Seq<char>,
    my_mention: Seq<char>,
) -> MessageView {
    MessageView { server, channel, sender, contents, is_mention: contains_seq(contents, my_mention) }
}

pub open spec fn unknown_channel_text() -> Seq<char> {
    "Unknown discord channel: "@
}

/// The event for a message received on the live stream: `Mention` when its
/// text holds the session's mention form, else `Message`, on a known channel;
/// an `Error` naming the channel otherwise.
pub fn live_event(
    channels: &BiMap,
    server: &String,
    my_mention: &String,
    channel_id: &String,
    author: String,
    content: String,
) -> (r: Event)
    requires
        channels.wf(),
    ensures
        r@ == match channels.human_of(channel_id@) {
            Some(ch) => if contains_seq(content@, my_mention@) {
                EventView::Mention(message_of(server@, ch, author@, content@, my_mention@))
            } else {
                EventView::Message(message_of(server@, ch, author@, content@, my_mention@))
            },
            None => EventView::Error(unknown_channel_text() + channel_id@),
        },
{
    match channels.get_human(channel_id) {
        Some(ch) => {
            let is_mention = contains(content.as_str(), my_mention.as_str());
            let m = Message {
                server: server.clone(),
                channel: ch.clone(),
                sender: author,
                contents: content,
                is_mention,
            };
            if is_mention {
                Event::Mention(m)
            } else {
                Event::Message(m)
            }
        },
        None => Event::Error(concat("Unknown discord channel: ", channel_id.as_str())),
    }
}

/// The identifier to post to for a channel name; an `Error` event when the
/// name is not one of the session's channels.
pub fn send_target(channels: &BiMap, name: &String) -> (r: Result<String, Event>)
    requires
        channels.wf(),
    ensures
        match channels.id_of(name@) {
            Some(id) => r matches Ok(i) && i@ == id,
            None => r matches Err(e) && e@ == EventView::Error(unknown_channel_text() + name@),
        },
{
    match channels.get_id(name) {
        Some(id) => Ok(id.clone()),
        None => Err(Event::Error(concat("Unknown discord channel: ", name.as_str()))),
    }
}

/// Timestamps never decrease along `s`.
pub open spec fn sorted_by_time(s: Seq<DiscordMessage>) -> bool {
    forall|i: int, j: int| 0 <= i < j < s.len() ==> s[i].timestamp <= s[j].timestamp
}

/// Relies on `slice::sort_by_key`: a stable sort of the messages by timestamp,
/// which reorders them and keeps each one.
#[verifier::external_body]
fn sort_by_timestamp(v: &mut Vec<DiscordMessage>)
    ensures
        sorted_by_time(final(v)@),
        final(v)@.to_multiset() == old(v)@.to_multiset(),
{
    v.sort_by_key(|m| m.timestamp)
}

/// One `HistoryMessage` per message of `s`, in order.
pub open spec fn history_of(server: Seq<char>, channel: Seq<char>, my_mention: Seq<char>, s: Seq<DiscordMessage>) -> Seq<EventView> {
    Seq::new(
        s.len(),
        |k: int| EventView::HistoryMessage(message_of(server, channel, s[k].author@, s[k].content@, my_mention)),
    )
}

/// The events of a channel's history: its messages oldest first, then the
/// sentinel; after a failed fetch, the error and then the sentinel.
pub fn history_events(
    server: &String,
    channel: &String,
    my_mention: &String,
    fetched: Result<Vec<DiscordMessage>, String>,
) -> (r: Vec<Event>)
    ensures
        match fetched {
            Ok(msgs) => exists|s: Seq<DiscordMessage>| {
                &&& s.to_multiset() == msgs@.to_multiset()
                &&& sorted_by_time(s)
                &&& #[trigger] event_views(r@) == history_of(server@, channel@, my_mention@, s).push(
                    EventView::HistoryLoaded { server: server@, channel: channel@ },
                )
            },
            Err(e) => event_views(r@) == seq![
                EventView::Error(e@),
                EventView::HistoryLoaded { server: server@, channel: channel@ },
            ],
        },
{
    let mut out: Vec<Event> = Vec::new();
    match fetched {
        Ok(msgs) => {
            let mut msgs = msgs;
            sort_by_timestamp(&mut msgs);
            let mut k: usize = 0;
            while k < msgs.len()
                invariant
                    k <= msgs@.len(),
                    event_views(out@) =~= history_of(server@, channel@, my_mention@, msgs@.subrange(0, k as int)),
                decreases msgs@.len() - k,
            {
                let m = &msgs[k];
                let is_mention = contains(m.content.as_str(), my_mention.as_str());
                let msg = Message {
                    server: server.clone(),
                    channel: channel.clone(),
                    sender: m.author.clone(),
                    contents: m.content.clone(),
                    is_mention,
                };
                let ghost before = out@;
                out.push(Event::HistoryMessage(msg));
                assert(event_views(out@) =~= event_views(before).push(out@.last()@));
                assert(msgs@.subrange(0, k + 1)[k as int] == msgs@[k as int]);
                k = k + 1;
            }
            assert(msgs@.subrange(0, k as int) =~= msgs@);
            let ghost before = out@;
            out.push(Event::HistoryLoaded { server: server.clone(), channel: channel.clone() });
            assert(event_views(out@) =~= event_views(before).push(out@.last()@));
        },
        Err(e) => {
            out.push(Event::Error(e));
            out.push(Event::HistoryLoaded { server: server.clone(), channel: channel.clone() });
            assert(event_views(out@) =~= seq![out@[0]@, out@[1]@]);
        },
    }
    out
}

} // verus!
