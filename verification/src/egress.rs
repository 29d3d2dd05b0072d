//! Outbound messages: what one egress pass stages for the SDK, and the order
//! in which the staged messages are handed out.

use std::collections::VecDeque;
use vstd::prelude::*;

verus! {

/// The SDK's per-message send attributes that the transport sets.
#[derive(Clone, Copy, Debug, PartialEq, Eq, Structural)]
pub struct SendFlags {
    /// The SDK retransmits the message until it is acknowledged.
    pub reliable: bool,
    /// The SDK sends the message at once instead of waiting to coalesce it
    /// with later ones.
    pub no_nagle: bool,
}

impl SendFlags {
    /// Unreliable and unbuffered: reliability is the upstream server's own
    /// business, and it would only be slowed down by the SDK's coalescing.
    pub open spec fn spec_unreliable_no_nagle() -> SendFlags {
        SendFlags { reliable: false, no_nagle: true }
    }

    #[verifier::when_used_as_spec(spec_unreliable_no_nagle)]
    pub fn unreliable_no_nagle() -> (flags: SendFlags)
        ensures
            flags == Self::spec_unreliable_no_nagle(),
    {
        SendFlags { reliable: false, no_nagle: true }
    }
}

/// One datagram for the SDK: one upstream packet, addressed to the
/// connection of one client.
#[derive(Debug)]
pub struct OutboundMessage {
    /// The client whose connection the message is sent on.
    pub client_id: u64,
    pub send_flags: SendFlags,
    pub payload: Vec<u8>,
}

/// The mathematical value of an [`OutboundMessage`].
pub ghost struct OutboundMessageView {
    pub client_id: u64,
    pub send_flags: SendFlags,
    pub payload: Seq<u8>,
}

impl View for OutboundMessage {
    type V = OutboundMessageView;

    open spec fn view(&self) -> OutboundMessageView {
        OutboundMessageView {
            client_id: self.client_id,
            send_flags: self.send_flags,
            payload: self.payload@,
        }
    }
}

/// The values of a sequence of messages.
pub open spec fn message_views(messages: Seq<OutboundMessage>) -> Seq<OutboundMessageView> {
    Seq::new(messages.len(), |i: int| messages[i]@)
}

/// The messages that carry `packets` to `client_id`: one per packet, in the
/// packets' order, unreliable and unbuffered.
pub open spec fn messages_for(client_id: u64, packets: Seq<Seq<u8>>) -> Seq<OutboundMessageView> {
    Seq::new(
        packets.len(),
        |i: int|
            OutboundMessageView {
                client_id,
                send_flags: SendFlags::unreliable_no_nagle(),
                payload: packets[i],
            },
    )
}

/// What is staged when the clients are visited in the order `clients`: for
/// each client that has a connection in `table` and is registered upstream,
/// its queued packets; nothing for the others.
pub open spec fn outbound(
    clients: Seq<u64>,
    table: Set<u64>,
    queued: Map<u64, Seq<Seq<u8>>>,
    registered: Set<u64>,
) -> Seq<OutboundMessageView>
    decreases clients.len(),
{
    if clients.len() == 0 {
        Seq::empty()
    } else {
        let client = clients.last();
        let before = outbound(clients.drop_last(), table, queued, registered);
        if table.contains(client) && registered.contains(client) {
            before + messages_for(client, queued[client])
        } else {
            before
        }
    }
}

/// `messages` without its leading run of messages for `client_id`.
pub open spec fn without_leading(messages: Seq<OutboundMessageView>, client_id: u64) -> Seq<
    OutboundMessageView,
>
    decreases messages.len(),
{
    if messages.len() > 0 && messages[0].client_id == client_id {
        without_leading(messages.skip(1), client_id)
    } else {
        messages
    }
}

/// The messages dispatched from `messages` when the n-th message that is
/// tried is staged successfully iff `staged[n]`. A message that cannot be
/// staged takes the rest of its client's run with it. Once `staged` is used
/// up nothing more is tried.
pub open spec fn dispatched(messages: Seq<OutboundMessageView>, staged: Seq<bool>) -> Seq<
    OutboundMessageView,
>
    decreases staged.len(),
{
    if messages.len() == 0 || staged.len() == 0 {
        Seq::empty()
    } else if staged[0] {
        seq![messages[0]] + dispatched(messages.skip(1), staged.skip(1))
    } else {
        dispatched(without_leading(messages.skip(1), messages[0].client_id), staged.skip(1))
    }
}

/// The messages of one egress pass, handed out front to back.
pub struct OutboundBatch {
    queue: VecDeque<OutboundMessage>,
    current: Option<u64>,
}

impl OutboundBatch {
    /// The messages not handed out yet.
    pub closed spec fn remaining(&self) -> Seq<OutboundMessageView> {
        message_views(self.queue@)
    }

    /// The client of the message handed out last.
    pub closed spec fn current(&self) -> Option<u64> {
        self.current
    }

    /// A batch of `messages`, none handed out yet.
    pub fn new(messages: VecDeque<OutboundMessage>) -> (batch: OutboundBatch)
        ensures
            batch.remaining() == message_views(messages@),
            batch.current() is None,
    {
        OutboundBatch { queue: messages, current: None }
    }

    /// How many messages are left.
    pub fn len(&self) -> (n: usize)
        ensures
            n == self.remaining().len(),
    {
        self.queue.len()
    }

    /// Whether no message is left.
    pub fn is_empty(&self) -> (empty: bool)
        ensures
            empty == (self.remaining().len() == 0),
    {
        self.queue.len() == 0
    }

    /// Hands out the next message, if one is left.
    pub fn next_message(&mut self) -> (message: Option<OutboundMessage>)
        ensures
            old(self).remaining().len() == 0 ==> {
                &&& message is None
                &&& final(self).remaining() == old(self).remaining()
                &&& final(self).current() == old(self).current()
            },
            old(self).remaining().len() > 0 ==> {
                &&& message is Some
                &&& message->Some_0@ == old(self).remaining()[0]
                &&& final(self).remaining() == old(self).remaining().skip(1)
                &&& final(self).current() == Some(old(self).remaining()[0].client_id)
            },
    {
        let message = self.queue.pop_front();
        match message {
            Some(m) => {
                proof {
                    assert(message_views(self.queue@) =~= message_views(old(self).queue@).skip(1));
                }
                self.current = Some(m.client_id);
                Some(m)
            },
            None => None,
        }
    }

    /// Gives up on the client of the message handed out last: the messages
    /// that follow for the same client are dropped, and the batch goes on
    /// with the next client. Before the first message is handed out there is
    /// nothing to give up.
    pub fn abandon_client(&mut self)
        ensures
            final(self).current() == old(self).current(),
            final(self).remaining() == match old(self).current() {
                Some(client_id) => without_leading(old(self).remaining(), client_id),
                None => old(self).remaining(),
            },
    {
        if let Some(client_id) = self.current {
            while self.queue.len() > 0 && self.queue[0].client_id == client_id
                invariant
                    self.current == Some(client_id),
                    without_leading(message_views(self.queue@), client_id) == without_leading(
                        message_views(old(self).queue@),
                        client_id,
                    ),
                decreases self.queue.len(),
            {
                let ghost before = self.queue@;
                let _ = self.queue.pop_front();
                proof {
                    assert(message_views(self.queue@) =~= message_views(before).skip(1));
                }
            }
        }
    }
}

} // verus!
