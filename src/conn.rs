//! The normalised vocabulary that every backend adapter produces.
use vstd::prelude::*;

verus! {

/// A chat message with every platform code already rewritten to human form.
#[derive(Debug, Clone, PartialEq, Eq)]
pub struct Message {
    pub server: String,
    pub channel: String,
    pub sender: String,
    pub contents: String,
    pub is_mention: bool,
}

pub struct MessageView {
    pub server: Seq<char>,
    pub channel: Seq<char>,
    pub sender: Seq<char>,
    pub contents: Seq<char>,
    pub is_mention: bool,
}

impl View for Message {
    type V = MessageView;

    open spec fn view(&self) -> MessageView {
        MessageView {
            server: self.server@,
            channel: self.channel@,
            sender: self.sender@,
            contents: self.contents@,
            is_mention: self.is_mention,
        }
    }
}

/// What adapters push onto the shared sink.
#[derive(Debug, Clone, PartialEq, Eq)]
pub enum Event {
    Message(Message),
    Mention(Message),
    HistoryMessage(Message),
    HistoryLoaded { server: String, channel: String },
    Error(String),
}

pub enum EventView {
    Message(MessageView),
    Mention(MessageView),
    HistoryMessage(MessageView),
    HistoryLoaded { server: Seq<char>, channel: Seq<char> },
    Error(Seq<char>),
}

impl View for Event {
    type V = EventView;

    open spec fn view(&self) -> EventView {
        match self {
            Event::Message(m) => EventView::Message(m@),
            Event::Mention(m) => EventView::Mention(m@),
            Event::HistoryMessage(m) => EventView::HistoryMessage(m@),
            Event::HistoryLoaded { server, channel } => EventView::HistoryLoaded {
                server: server@,
                channel: channel@,
            },
            Event::Error(e) => EventView::Error(e@),
        }
    }
}

/// The views of a list of events.
pub open spec fn event_views(v: Seq<Event>) -> Seq<EventView> {
    v.map_values(|e: Event| e@)
}

/// Why a connection could not be set up.
#[derive(Debug, Clone, Copy, PartialEq, Eq, Structural)]
pub enum ConnError {
    DiscordError,
    SlackError,
}

} // verus!
