//! What a connection's session does with what arrives on it.

use vstd::prelude::*;
use crate::text::{
    collect_trimmed_pieces, each_trimmed, find_char, first_index_of, names_of, range_is, split,
    split_bounds, to_chars, trim_bounds, trimmed,
};

verus! {

/// The word that opens a subscription command.
pub const SUBSCRIBE: &'static str = "/subscribe";

/// The symbols that a line asks for, if the line is a subscription command.
///
/// Such a line, without its surrounding white space, is the word
/// `/subscribe`, one space, and a list that is not empty. The list is cut at
/// each comma, and each piece is stripped of surrounding white space. Any
/// other line asks for nothing.
pub open spec fn subscribe_request(text: Seq<char>) -> Option<Seq<Seq<char>>> {
    let line = trimmed(text);
    let space = first_index_of(line, ' ') as int;
    if line.take(space) == SUBSCRIBE@ && space < line.len() && line.skip(space + 1).len() > 0 {
        Some(each_trimmed(split(line.skip(space + 1), ',')))
    } else {
        None
    }
}

/// Reads a line as a subscription command.
pub fn parse_subscribe(text: &str) -> (symbols: Option<Vec<String>>)
    ensures
        symbols is Some <==> subscribe_request(text@) is Some,
        symbols is Some ==> names_of(symbols.unwrap()@) == subscribe_request(text@).unwrap(),
{
    let chars = to_chars(text);
    let (start, end) = trim_bounds(&chars, 0, chars.len());
    assert(chars@.subrange(0, chars@.len() as int) == chars@);
    let ghost line = chars@.subrange(start as int, end as int);
    let space = find_char(&chars, start, end, ' ');
    assert(line.take(space - start) == chars@.subrange(start as int, space as int));
    if !range_is(&chars, start, space, SUBSCRIBE) {
        return None;
    }
    if space >= end {
        return None;
    }
    assert(line.skip(space - start + 1) == chars@.subrange(space + 1, end as int));
    if space + 1 >= end {
        return None;
    }
    let ranges = split_bounds(&chars, space + 1, end, ',');
    Some(collect_trimmed_pieces(&chars, &ranges))
}

/// A request of one user for more subscriptions.
#[derive(Debug)]
pub struct UpdateUserSubscriptions {
    pub subscriptions: Vec<String>,
    pub user_id: usize,
}

/// What can arrive on a connection.
#[derive(Debug)]
pub enum SessionEvent {
    /// A line of text.
    Text(String),
    /// The peer closes the connection.
    Close,
    /// The peer broke the protocol.
    ProtocolError,
    /// Anything else: binary data, pings and the like.
    Other,
}

/// What the session does about an event.
#[derive(Debug)]
pub enum SessionAction {
    /// Hand the request to the registry.
    Subscribe(UpdateUserSubscriptions),
    /// Answer the close and end the session.
    Close,
    /// End the session.
    Stop,
    /// Do nothing.
    Nothing,
}

/// The session of one connected user.
#[derive(Debug)]
pub struct SocketSession {
    pub user_id: usize,
}

impl SocketSession {
    /// Decides what to do about an event. Only a subscription command, a
    /// close and a protocol error lead to anything.
    pub fn handle(&self, event: &SessionEvent) -> (action: SessionAction)
        ensures
            match event {
                SessionEvent::Text(text) => match subscribe_request(text@) {
                    Some(names) => action matches SessionAction::Subscribe(request)
                        && request.user_id == self.user_id && names_of(request.subscriptions@)
                        == names,
                    None => action is Nothing,
                },
                SessionEvent::Close => action is Close,
                SessionEvent::ProtocolError => action is Stop,
                SessionEvent::Other => action is Nothing,
            },
    {
        match event {
            SessionEvent::Text(text) => {
                match parse_subscribe(text.as_str()) {
                    Some(subscriptions) => SessionAction::Subscribe(
                        UpdateUserSubscriptions { subscriptions, user_id: self.user_id },
                    ),
                    None => SessionAction::Nothing,
                }
            },
            SessionEvent::Close => SessionAction::Close,
            SessionEvent::ProtocolError => SessionAction::Stop,
            SessionEvent::Other => SessionAction::Nothing,
        }
    }
}

} // verus!
