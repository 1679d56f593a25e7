//! Messages: immutable records of one push into a queue.

use vstd::prelude::*;

use crate::client::{copy_clients, ids_of, Client, ClientId};

verus! {

/// How long a message lives, in milliseconds, when its sender names no lifetime.
pub const DEFAULT_TTL_MS: u64 = 6000;

/// What a message holds, as plain values. Times are milliseconds since the
/// Unix epoch.
pub struct MessageView {
    pub sender: ClientId,
    pub recipients: Seq<ClientId>,
    pub created: i64,
    pub expiry: i64,
    pub data: Seq<char>,
    pub active: bool,
    pub priority: usize,
}

/// `created + ttl`, held at the largest time that can be represented.
pub open spec fn expiry_after(created: i64, ttl_ms: u64) -> i64 {
    if created + ttl_ms > i64::MAX {
        i64::MAX
    } else {
        (created + ttl_ms) as i64
    }
}

/// The lifetime that applies: the one given, or the default.
pub open spec fn ttl_or_default(ttl_ms: Option<u64>) -> u64 {
    match ttl_ms {
        Some(t) => t,
        None => DEFAULT_TTL_MS,
    }
}

/// The message that a push creates.
pub open spec fn new_message(
    data: Seq<char>,
    sender: ClientId,
    recipients: Seq<ClientId>,
    created: i64,
    ttl_ms: Option<u64>,
    priority: Option<usize>,
) -> MessageView {
    MessageView {
        sender,
        recipients,
        created,
        expiry: expiry_after(created, ttl_or_default(ttl_ms)),
        data,
        active: true,
        priority: match priority {
            Some(p) => p,
            None => 0,
        },
    }
}

/// One pushed message. Its recipients are the queue's subscribers at the
/// moment of the push; nothing changes a message once it is made.
#[derive(Debug, Clone)]
pub struct MSG {
    sender: Client,
    recipients: Vec<Client>,
    created: i64,
    lifetime: i64,
    data: String,
    active: bool,
    priority: usize,
}

impl View for MSG {
    type V = MessageView;

    closed spec fn view(&self) -> MessageView {
        MessageView {
            sender: self.sender@,
            recipients: ids_of(self.recipients@),
            created: self.created,
            expiry: self.lifetime,
            data: self.data@,
            active: self.active,
            priority: self.priority,
        }
    }
}

/// The views of a sequence of messages, in order.
pub open spec fn messages_view(s: Seq<MSG>) -> Seq<MessageView> {
    s.map_values(|m: MSG| m@)
}

impl MSG {
    /// A message created at `created` (milliseconds since the Unix epoch) that
    /// expires `ttl_ms` later, six seconds later when no lifetime is given.
    pub fn new(
        data: String,
        sender: Client,
        recipients: Vec<Client>,
        created: i64,
        ttl_ms: Option<u64>,
        priority: Option<usize>,
    ) -> (r: MSG)
        ensures
            r@ == new_message(data@, sender@, ids_of(recipients@), created, ttl_ms, priority),
    {
        let ttl: u64 = match ttl_ms {
            Some(t) => t,
            None => DEFAULT_TTL_MS,
        };
        let sum: i128 = created as i128 + ttl as i128;
        let lifetime: i64 = if sum > i64::MAX as i128 {
            i64::MAX
        } else {
            sum as i64
        };
        let priority: usize = match priority {
            Some(p) => p,
            None => 0,
        };
        MSG { sender, recipients, created, lifetime, data, active: true, priority }
    }

    pub fn sender(&self) -> (r: &Client)
        ensures
            r@ == self@.sender,
    {
        &self.sender
    }

    pub fn recipients(&self) -> (r: &Vec<Client>)
        ensures
            ids_of(r@) == self@.recipients,
    {
        &self.recipients
    }

    /// When the message was created, in milliseconds since the Unix epoch.
    pub fn created(&self) -> (r: i64)
        ensures
            r == self@.created,
    {
        self.created
    }

    /// When the message expires, in milliseconds since the Unix epoch.
    pub fn expiry(&self) -> (r: i64)
        ensures
            r == self@.expiry,
    {
        self.lifetime
    }

    pub fn data(&self) -> (r: &String)
        ensures
            r@ == self@.data,
    {
        &self.data
    }

    pub fn active(&self) -> (r: bool)
        ensures
            r == self@.active,
    {
        self.active
    }

    pub fn priority(&self) -> (r: usize)
        ensures
            r == self@.priority,
    {
        self.priority
    }

    /// A copy of this message with the same contents.
    pub fn duplicate(&self) -> (r: MSG)
        ensures
            r@ == self@,
    {
        MSG {
            sender: self.sender.duplicate(),
            recipients: copy_clients(&self.recipients),
            created: self.created,
            lifetime: self.lifetime,
            data: self.data.clone(),
            active: self.active,
            priority: self.priority,
        }
    }
}

/// A copy of a list of messages, with the same contents in the same order.
pub fn copy_messages(v: &Vec<MSG>) -> (r: Vec<MSG>)
    ensures
        messages_view(r@) == messages_view(v@),
{
    let mut r: Vec<MSG> = Vec::new();
    let mut i: usize = 0;
    while i < v.len()
        invariant
            i <= v.len(),
            r.len() == i,
            messages_view(r@) == messages_view(v@.take(i as int)),
        decreases v.len() - i,
    {
        let ghost before = r@;
        let d = v[i].duplicate();
        r.push(d);
        proof {
            let next = v@.take(i + 1);
            assert(next =~= v@.take(i as int).push(v@[i as int]));
            assert forall|k: int| 0 <= k < r@.len() implies #[trigger] messages_view(r@)[k]
                == messages_view(next)[k] by {
                if k < i {
                    assert(messages_view(before)[k] == messages_view(v@.take(i as int))[k]);
                }
            }
            assert(messages_view(r@) =~= messages_view(next));
        }
        i = i + 1;
    }
    assert(v@.take(v.len() as int) =~= v@);
    r
}

} // verus!
