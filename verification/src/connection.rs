//! One client connection, as a state machine.
//!
//! A connection has a read path, which turns inbound frames into messages for
//! the relay, and a write path, which drains the client's outbound queue. The
//! caller runs both and reports what happens as events. Whichever path
//! notices first that the connection is over, and however often that is
//! reported, the client is torn down once.
//!
//! A connection is known under the identity that it was accepted with, and
//! under every name that its client has registered since. Rooms know it by
//! the first; its offers, answers and candidates go out under the name that
//! it registered last; its end removes all of them.

use crate::codec::random_identity;
use crate::keyed::{position, texts};
use crate::message::{
    addressee, is_signal, name_to_register, registered_name, MessageView, SignalingMessage,
};
use crate::registry::ChannelId;
use crate::relay::{action_views, Action, ActionView, RelayView, SignalingRelay};
use vstd::prelude::*;

verus! {

/// What the caller reports of a connection.
#[derive(Clone, Debug, PartialEq, Eq)]
pub enum ConnectionEvent {
    /// A frame arrived. `None` stands for a frame that is not a message of
    /// the protocol.
    Frame(Option<SignalingMessage>),
    /// The socket was closed, or reading from it failed.
    ReadClosed,
    /// Writing to the socket failed.
    WriteFailed,
    /// The outbound queue has lost its producers.
    OutboundDropped,
}

#[verifier::ext_equal]
pub enum EventView {
    Frame(Option<MessageView>),
    ReadClosed,
    WriteFailed,
    OutboundDropped,
}

impl View for ConnectionEvent {
    type V = EventView;

    open spec fn view(&self) -> EventView {
        match *self {
            ConnectionEvent::Frame(Some(message)) => EventView::Frame(Some(message@)),
            ConnectionEvent::Frame(None) => EventView::Frame(None),
            ConnectionEvent::ReadClosed => EventView::ReadClosed,
            ConnectionEvent::WriteFailed => EventView::WriteFailed,
            ConnectionEvent::OutboundDropped => EventView::OutboundDropped,
        }
    }
}

/// The state of a connection, as mathematics.
#[verifier::ext_equal]
pub struct ConnectionView {
    /// The identity that the connection was accepted with.
    pub client_id: Seq<char>,
    pub channel: ChannelId,
    pub open: bool,
    /// The identity that the connection's signals go out under: the name
    /// registered last, or `client_id` as long as none was registered.
    pub origin: Seq<char>,
    /// The names registered over the connection, in order of first
    /// registration.
    pub names: Seq<Seq<char>>,
}

/// Where an event leaves a connection and the relay, what is to be sent, and
/// whether the event tore the client down.
#[verifier::ext_equal]
pub struct Transition {
    pub connection: ConnectionView,
    pub relay: RelayView,
    pub actions: Seq<ActionView>,
    pub torn_down: bool,
}

impl ConnectionView {
    /// A connection that has just been accepted.
    pub open spec fn accepted(client_id: Seq<char>, channel: ChannelId) -> ConnectionView {
        ConnectionView { client_id, channel, open: true, origin: client_id, names: Seq::empty() }
    }

    /// The identity under which the relay takes `message`: a point-to-point
    /// message comes from the connection's origin, any other from the
    /// identity that the connection was accepted with.
    pub open spec fn sender_of(self, message: MessageView) -> Seq<char> {
        if addressee(message) is Some {
            self.origin
        } else {
            self.client_id
        }
    }

    /// The connection after its client has sent `message`: a registration
    /// makes the name that it carries the origin and one of the connection's
    /// names.
    pub open spec fn noting(self, message: MessageView) -> ConnectionView {
        match registered_name(message) {
            Some(name) => ConnectionView {
                origin: name,
                names: if self.names.contains(name) {
                    self.names
                } else {
                    self.names.push(name)
                },
                ..self
            },
            None => self,
        }
    }

    /// A frame goes to the relay if the connection is open and the frame is a
    /// message; otherwise it is dropped.
    pub open spec fn frame(self, relay: RelayView, frame: Option<MessageView>, now: u64) -> Transition {
        match frame {
            Some(message) if self.open => {
                let step = relay.handle(self.sender_of(message), self.channel, message, now);
                Transition {
                    connection: self.noting(message),
                    relay: step.next,
                    actions: step.actions,
                    torn_down: false,
                }
            },
            _ => Transition { connection: self, relay, actions: seq![], torn_down: false },
        }
    }

    /// The end of a connection: an open connection is closed, and its client
    /// is torn down under the identity that it was accepted with and under
    /// every name that it registered; on a closed one nothing happens.
    pub open spec fn close(self, relay: RelayView) -> Transition {
        if self.open {
            Transition {
                connection: ConnectionView { open: false, ..self },
                relay: relay.teardown(self.client_id).teardown_all(self.names),
                actions: seq![],
                torn_down: true,
            }
        } else {
            Transition { connection: self, relay, actions: seq![], torn_down: false }
        }
    }

    pub open spec fn step(self, relay: RelayView, event: EventView, now: u64) -> Transition {
        match event {
            EventView::Frame(frame) => self.frame(relay, frame, now),
            _ => self.close(relay),
        }
    }
}

/// What an event leads to: what is to be sent, and whether the client was
/// torn down by it.
#[derive(Clone, Debug, PartialEq, Eq)]
pub struct Outcome {
    pub actions: Vec<Action>,
    pub torn_down: bool,
}

/// The relay's end of one client connection.
pub struct ConnectionHandler {
    client_id: String,
    channel: ChannelId,
    open: bool,
    origin: String,
    names: Vec<String>,
}

impl View for ConnectionHandler {
    type V = ConnectionView;

    closed spec fn view(&self) -> ConnectionView {
        ConnectionView {
            client_id: self.client_id@,
            channel: self.channel,
            open: self.open,
            origin: self.origin@,
            names: texts(self.names@),
        }
    }
}

impl ConnectionHandler {
    /// A handler for a connection that has just been accepted, under a fresh
    /// random identity.
    pub fn accept(channel: ChannelId) -> (handler: Self)
        ensures
            handler@ == ConnectionView::accepted(handler@.client_id, channel),
    {
        Self::with_identity(random_identity(), channel)
    }

    /// A handler for a connection that has just been accepted, under the
    /// identity given.
    pub fn with_identity(client_id: String, channel: ChannelId) -> (handler: Self)
        ensures
            handler@ == ConnectionView::accepted(client_id@, channel),
    {
        let origin = client_id.clone();
        let handler = ConnectionHandler {
            client_id,
            channel,
            open: true,
            origin,
            names: Vec::new(),
        };
        assert(handler@.names =~= Seq::<Seq<char>>::empty());
        handler
    }

    /// The identity that the connection was accepted with.
    pub fn client_id(&self) -> (client_id: &String)
        ensures
            client_id@ == self@.client_id,
    {
        &self.client_id
    }

    /// The identity that the connection's signals go out under.
    pub fn origin(&self) -> (origin: &String)
        ensures
            origin@ == self@.origin,
    {
        &self.origin
    }

    pub fn channel(&self) -> (channel: ChannelId)
        ensures
            channel == self@.channel,
    {
        self.channel
    }

    pub fn is_open(&self) -> (open: bool)
        ensures
            open == self@.open,
    {
        self.open
    }

    /// Takes one inbound frame. A frame that is not a message is dropped, the
    /// connection stays open and nothing is sent; so is any frame that
    /// arrives after the connection was closed.
    pub fn on_frame(
        &mut self,
        relay: &mut SignalingRelay,
        frame: Option<SignalingMessage>,
        now: u64,
    ) -> (actions: Vec<Action>)
        requires
            old(relay).wf(),
        ensures
            final(relay).wf(),
            final(self)@ == old(self)@.frame(old(relay)@, message_view(frame), now).connection,
            final(relay)@ == old(self)@.frame(old(relay)@, message_view(frame), now).relay,
            action_views(actions@) == old(self)@.frame(
                old(relay)@,
                message_view(frame),
                now,
            ).actions,
    {
        match frame {
            Some(message) => {
                if self.open {
                    let registered = name_to_register(&message);
                    let actions = if is_signal(&message) {
                        relay.handle_message(&self.origin, self.channel, message, now)
                    } else {
                        relay.handle_message(&self.client_id, self.channel, message, now)
                    };
                    match registered {
                        Some(name) => {
                            let ghost before = texts(self.names@);
                            self.origin = name.clone();
                            if position(&self.names, &name).is_none() {
                                self.names.push(name);
                                assert(texts(self.names@) =~= before.push(name@));
                            }
                        },
                        None => {},
                    }
                    return actions;
                }
            },
            None => {},
        }
        let actions: Vec<Action> = Vec::new();
        assert(action_views(actions@) =~= Seq::<ActionView>::empty());
        actions
    }

    /// Ends the connection. The first call tears the client down and returns
    /// `true`; every later call changes nothing and returns `false`.
    pub fn close(&mut self, relay: &mut SignalingRelay) -> (torn_down: bool)
        requires
            old(relay).wf(),
        ensures
            final(relay).wf(),
            final(self)@ == old(self)@.close(old(relay)@).connection,
            final(relay)@ == old(self)@.close(old(relay)@).relay,
            torn_down == old(self)@.close(old(relay)@).torn_down,
    {
        if self.open {
            self.open = false;
            relay.teardown(&self.client_id);
            relay.teardown_all(&self.names);
            true
        } else {
            false
        }
    }

    /// Takes one event of the connection.
    pub fn step(&mut self, relay: &mut SignalingRelay, event: ConnectionEvent, now: u64) -> (outcome:
        Outcome)
        requires
            old(relay).wf(),
        ensures
            final(relay).wf(),
            final(self)@ == old(self)@.step(old(relay)@, event@, now).connection,
            final(relay)@ == old(self)@.step(old(relay)@, event@, now).relay,
            action_views(outcome.actions@) == old(self)@.step(old(relay)@, event@, now).actions,
            outcome.torn_down == old(self)@.step(old(relay)@, event@, now).torn_down,
    {
        match event {
            ConnectionEvent::Frame(frame) => {
                let actions = self.on_frame(relay, frame, now);
                Outcome { actions, torn_down: false }
            },
            _ => {
                let torn_down = self.close(relay);
                let actions: Vec<Action> = Vec::new();
                assert(action_views(actions@) =~= Seq::<ActionView>::empty());
                Outcome { actions, torn_down }
            },
        }
    }
}

/// The view of a frame.
pub open spec fn message_view(frame: Option<SignalingMessage>) -> Option<MessageView> {
    match frame {
        Some(message) => Some(message@),
        None => None,
    }
}

} // verus!
