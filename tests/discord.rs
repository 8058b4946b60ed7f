use omnichat::bimap::{BiMap, BiMapBuilder};
use omnichat::conn::{ConnError, Event, Message};
use omnichat::discord_conn::{
    channel_table, history_events, live_event, mention_form, select_server, send_target,
    DiscordChannel, DiscordMessage,
};

fn s(x: &str) -> String {
    x.to_string()
}

fn channels() -> BiMap {
    BiMap::new(BiMapBuilder { human: vec![s("general")], id: vec![s("100")] }).unwrap()
}

fn dm(ts: i64, text: &str) -> DiscordMessage {
    DiscordMessage { timestamp: ts, author: s("ann"), content: s(text) }
}

#[test]
fn first_matching_online_server_is_chosen() {
    let servers = vec![None, Some(s("home")), Some(s("work")), Some(s("work"))];
    assert_eq!(select_server(&servers, &s("work")), Ok(2));
    assert_eq!(select_server(&servers, &s("play")), Err(ConnError::DiscordError));
}

#[test]
fn only_readable_text_channels_are_offered() {
    let c = |id: &str, name: &str, text: bool, read: bool, send: bool| DiscordChannel {
        id: s(id),
        name: s(name),
        is_text: text,
        can_read: read,
        can_send: send,
    };
    let m = channel_table(&vec![
        c("1", "general", true, true, true),
        c("2", "voice", false, true, true),
        c("3", "readonly", true, true, false),
        c("4", "chat", true, true, true),
    ])
    .unwrap();
    assert_eq!(m.len(), 2);
    assert_eq!(m.get_id(&s("chat")).unwrap(), "4");
    assert_eq!(m.get_human(&s("3")), None);
    let dup = channel_table(&vec![c("1", "a", true, true, true), c("2", "a", true, true, true)]);
    assert_eq!(dup.err(), Some(ConnError::DiscordError));
}

#[test]
fn mention_form_has_the_nickname_mark() {
    assert_eq!(mention_form(&s("42")), "<@!42>");
}

#[test]
fn history_is_sorted_by_timestamp() {
    let events = history_events(
        &s("srv"),
        &s("general"),
        &s("<@!42>"),
        Ok(vec![dm(3, "c"), dm(1, "a"), dm(2, "b <@!42>")]),
    );
    let m = |text: &str, mention: bool| {
        Event::HistoryMessage(Message {
            server: s("srv"),
            channel: s("general"),
            sender: s("ann"),
            contents: s(text),
            is_mention: mention,
        })
    };
    assert_eq!(
        events,
        vec![
            m("a", false),
            m("b <@!42>", true),
            m("c", false),
            Event::HistoryLoaded { server: s("srv"), channel: s("general") }
        ]
    );
}

#[test]
fn empty_history_is_just_the_sentinel() {
    let events = history_events(&s("srv"), &s("general"), &s("<@!1>"), Ok(vec![]));
    assert_eq!(events, vec![Event::HistoryLoaded { server: s("srv"), channel: s("general") }]);
}

#[test]
fn failed_history_reports_then_ends() {
    let events = history_events(&s("srv"), &s("general"), &s("<@!1>"), Err(s("403")));
    assert_eq!(
        events,
        vec![Event::Error(s("403")), Event::HistoryLoaded { server: s("srv"), channel: s("general") }]
    );
}

#[test]
fn live_mention_versus_message() {
    let ch = channels();
    let e = live_event(&ch, &s("srv"), &s("<@!42>"), &s("100"), s("bo"), s("hey <@!42>"));
    assert!(matches!(e, Event::Mention(ref m) if m.channel == "general" && m.is_mention));
    let e = live_event(&ch, &s("srv"), &s("<@!42>"), &s("100"), s("bo"), s("hey all"));
    assert!(matches!(e, Event::Message(ref m) if m.sender == "bo" && !m.is_mention));
}

#[test]
fn live_unknown_channel_is_an_error() {
    let e = live_event(&channels(), &s("srv"), &s("<@!42>"), &s("999"), s("bo"), s("<@!42>"));
    assert_eq!(e, Event::Error(s("Unknown discord channel: 999")));
}

#[test]
fn send_target_resolves_names() {
    assert_eq!(send_target(&channels(), &s("general")), Ok(s("100")));
    assert_eq!(
        send_target(&channels(), &s("nope")),
        Err(Event::Error(s("Unknown discord channel: nope")))
    );
}
