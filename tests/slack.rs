use omnichat::bimap::{BiMap, BiMapBuilder};
use omnichat::conn::{ConnError, Event, Message};
use omnichat::slack_conn::{
    after_post, autocomplete, setup, Handler, PostStep, SlackChannel, SlackCommand, SlackMessage,
    SlackUser,
};

fn s(x: &str) -> String {
    x.to_string()
}

fn map(names: &[&str], ids: &[&str]) -> BiMap {
    BiMap::new(BiMapBuilder {
        human: names.iter().map(|x| s(x)).collect(),
        id: ids.iter().map(|x| s(x)).collect(),
    })
    .unwrap()
}

fn handler() -> Handler {
    Handler::new(
        map(&["alice", "bob"], &["U1", "U2"]),
        map(&["general", "random"], &["C1", "C2"]),
        s("team"),
        s("alice"),
    )
}

fn msg(user: &str, text: &str, channel: &str) -> SlackMessage {
    SlackMessage { user: Some(s(user)), text: Some(s(text)), channel: Some(s(channel)) }
}

#[test]
fn ingress_rewrites_codes_and_escapes() {
    let h = handler();
    let m = h.to_omni(msg("U2", "hi <@U1> &amp; <#C2|random> &lt;3 &gt;", "C1")).unwrap();
    assert_eq!(
        m,
        Message {
            server: s("team"),
            channel: s("general"),
            sender: s("bob"),
            contents: s("hi @alice & #random <3 >"),
            is_mention: true,
        }
    );
}

#[test]
fn unknown_author_keeps_its_identifier() {
    let m = handler().to_omni(msg("U9", "plain", "C2")).unwrap();
    assert_eq!(m.sender, "U9");
    assert_eq!(m.channel, "random");
    assert!(!m.is_mention);
}

#[test]
fn incomplete_or_foreign_messages_are_dropped() {
    let h = handler();
    assert_eq!(h.to_omni(msg("U1", "x", "C9")), None);
    let no_text = SlackMessage { user: Some(s("U1")), text: None, channel: Some(s("C1")) };
    assert_eq!(h.to_omni(no_text), None);
}

#[test]
fn egress_rewrites_human_forms() {
    let h = handler();
    assert_eq!(h.to_slack(s("hey @bob see #general")), "hey <@U2> see <#C1|general>");
    assert_eq!(h.to_slack(s("nothing here")), "nothing here");
}

#[test]
fn egress_after_ingress_is_stable() {
    let h = handler();
    let text = s("@alice #general @bob#random");
    let once = h.to_slack(text);
    let again = h.to_slack(h.to_human(once.clone()));
    assert_eq!(once, "<@U1> <#C1|general> <@U2><#C2|random>");
    assert_eq!(again, once);
}

#[test]
fn live_mention_and_plain_message() {
    let h = handler();
    match h.live_event(msg("U2", "ping alice", "C1")) {
        Some(Event::Mention(m)) => assert_eq!(m.contents, "ping alice"),
        other => panic!("expected a mention, got {:?}", other),
    }
    match h.live_event(msg("U2", "ping everyone", "C1")) {
        Some(Event::Message(m)) => assert_eq!(m.contents, "ping everyone"),
        other => panic!("expected a message, got {:?}", other),
    }
}

#[test]
fn live_unknown_channel_is_one_error() {
    let h = handler();
    assert_eq!(
        h.live_event(msg("U2", "ping alice", "C7")),
        Some(Event::Error(s("Unknown slack channel: C7")))
    );
    let no_user = SlackMessage { user: None, text: Some(s("x")), channel: Some(s("C7")) };
    assert_eq!(h.live_event(no_user), None);
}

#[test]
fn history_is_oldest_first_then_sentinel() {
    let h = handler();
    let page = vec![msg("U1", "third", "X"), msg("U2", "second", "X"), msg("U1", "first", "X")];
    let events = h.history_events(&s("C2"), &s("random"), Ok(page));
    let contents: Vec<String> = events
        .iter()
        .filter_map(|e| match e {
            Event::HistoryMessage(m) => Some(m.contents.clone()),
            _ => None,
        })
        .collect();
    assert_eq!(contents, vec![s("first"), s("second"), s("third")]);
    assert_eq!(events.len(), 4);
    assert_eq!(events[3], Event::HistoryLoaded { server: s("team"), channel: s("random") });
}

#[test]
fn failed_history_fetch_reports_and_ends() {
    let events = handler().history_events(&s("C1"), &s("general"), Err(s("timeout")));
    assert_eq!(
        events,
        vec![
            Event::Error(s("timeout")),
            Event::HistoryLoaded { server: s("team"), channel: s("general") }
        ]
    );
}

fn user(id: &str, name: &str) -> SlackUser {
    SlackUser { id: Some(s(id)), name: Some(s(name)) }
}

fn chan(id: &str, name: &str, member: bool, archived: bool) -> SlackChannel {
    SlackChannel {
        id: Some(s(id)),
        name: Some(s(name)),
        is_member: Some(member),
        is_archived: Some(archived),
        is_mpim: None,
    }
}

fn group(id: &str, name: &str, archived: bool, mpim: bool) -> SlackChannel {
    SlackChannel {
        id: Some(s(id)),
        name: Some(s(name)),
        is_member: None,
        is_archived: Some(archived),
        is_mpim: Some(mpim),
    }
}

#[test]
fn setup_keeps_joined_channels_and_plain_groups() {
    let h = setup(
        Some(s("team")),
        Some(s("alice")),
        Some(vec![user("U1", "alice"), user("U2", "bob")]),
        Some(vec![
            chan("C1", "general", true, false),
            chan("C2", "old", true, true),
            chan("C3", "other", false, false),
        ]),
        Some(vec![group("G1", "secret", false, false), group("G2", "dm", false, true)]),
    )
    .unwrap();
    assert_eq!(h.server_name(), "team");
    assert_eq!(h.channels().len(), 2);
    assert_eq!(h.channels().get_human(&s("C1")).unwrap(), "general");
    assert_eq!(h.channels().get_human(&s("G1")).unwrap(), "secret");
    assert_eq!(h.channels().get_human(&s("C2")), None);
    assert_eq!(h.users().get_id(&s("bob")).unwrap(), "U2");
}

#[test]
fn setup_fails_on_missing_fields() {
    let nameless = SlackUser { id: Some(s("U1")), name: None };
    assert_eq!(
        setup(Some(s("t")), Some(s("a")), Some(vec![nameless]), Some(vec![]), Some(vec![])).err(),
        Some(ConnError::SlackError)
    );
    assert_eq!(
        setup(None, Some(s("a")), Some(vec![]), Some(vec![]), Some(vec![])).err(),
        Some(ConnError::SlackError)
    );
    let mut g = group("G1", "g", false, false);
    g.is_archived = None;
    assert_eq!(
        setup(Some(s("t")), Some(s("a")), Some(vec![]), Some(vec![]), Some(vec![g])).err(),
        Some(ConnError::SlackError)
    );
}

#[test]
fn setup_fails_on_duplicate_names() {
    let r = setup(
        Some(s("t")),
        Some(s("a")),
        Some(vec![user("U1", "sam"), user("U2", "sam")]),
        Some(vec![]),
        Some(vec![]),
    );
    assert_eq!(r.err(), Some(ConnError::SlackError));
}

#[test]
fn sessions_keep_their_own_tables() {
    let a = handler();
    let b = Handler::new(map(&["carol"], &["U1"]), map(&["ops"], &["C1"]), s("other"), s("carol"));
    assert_eq!(a.to_omni(msg("U1", "x", "C1")).unwrap().sender, "alice");
    assert_eq!(b.to_omni(msg("U1", "x", "C1")).unwrap().sender, "carol");
    assert_eq!(b.to_omni(msg("U1", "x", "C2")), None);
    assert_eq!(b.to_slack(s("@alice")), "@alice");
}

#[test]
fn commands_are_dispatched_by_verb_and_arity() {
    let h = handler();
    assert_eq!(h.plan_command(&s("join"), &vec![s("dev")]), SlackCommand::Join(s("dev")));
    assert_eq!(h.plan_command(&s("leave"), &vec![s("random")]), SlackCommand::Leave(s("C2")));
    assert_eq!(
        h.plan_command(&s("leave"), &vec![s("nowhere")]),
        SlackCommand::Fail(s("Unknown channel"))
    );
    assert_eq!(h.plan_command(&s("delete"), &vec![]), SlackCommand::Delete);
    assert_eq!(h.plan_command(&s("update"), &vec![s("new")]), SlackCommand::Update(s("new")));
    assert_eq!(h.plan_command(&s("search"), &vec![s("q")]), SlackCommand::Search(s("q")));
    assert_eq!(h.plan_command(&s("users"), &vec![]), SlackCommand::Users);
    assert_eq!(h.plan_command(&s("join"), &vec![]), SlackCommand::Ignore);
    assert_eq!(h.plan_command(&s("dance"), &vec![s("x")]), SlackCommand::Ignore);
}

#[test]
fn autocomplete_by_sigil() {
    assert_eq!(autocomplete("#ge"), Some(s("#channel_auto")));
    assert_eq!(autocomplete("@al"), Some(s("@user_auto")));
    assert_eq!(autocomplete(":smi"), Some(s(":emoji_auto:")));
    assert_eq!(autocomplete("+1"), Some(s("+:emoji_auto:")));
    assert_eq!(autocomplete("word"), None);
    assert_eq!(autocomplete(""), None);
}

#[test]
fn posting_retries_once_then_reports() {
    assert_eq!(after_post(0, Ok(())), PostStep::Done);
    assert_eq!(after_post(0, Err(s("busy"))), PostStep::Retry);
    assert_eq!(after_post(1, Err(s("busy"))), PostStep::Report(Event::Error(s("busy"))));
}
