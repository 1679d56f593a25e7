//! One named queue: its publishers, its subscribers and its message log.

use vstd::prelude::*;

use crate::client::{
    copy_clients, ids_of, lemma_ids_push, lemma_ids_remove, lemma_push_keeps_distinct,
    lemma_remove_keeps_distinct, position_of, Client, ClientId,
};
use crate::message::{copy_messages, messages_view, new_message, MessageView, MSG};
use crate::BrokerError;

verus! {

/// What a queue holds, as plain values.
pub struct QueueView {
    pub name: Seq<char>,
    pub publishers: Seq<ClientId>,
    pub subscribers: Seq<ClientId>,
    pub messages: Seq<MessageView>,
}

/// A queue just made by `creator`: it is the one publisher, and nothing else is there.
pub open spec fn fresh_queue(name: Seq<char>, creator: ClientId) -> QueueView {
    QueueView { name, publishers: seq![creator], subscribers: seq![], messages: seq![] }
}

/// Where `c` stands in `s`.
pub open spec fn index_in(s: Seq<ClientId>, c: ClientId) -> int {
    choose|i: int| 0 <= i < s.len() && s[i] == c
}

/// The queue after `c` subscribes: a conflict where it already is a subscriber.
pub open spec fn after_subscribe(q: QueueView, c: ClientId) -> Result<QueueView, BrokerError> {
    if q.subscribers.contains(c) {
        Err(BrokerError::Conflict)
    } else {
        Ok(
            QueueView {
                name: q.name,
                publishers: q.publishers,
                subscribers: q.subscribers.push(c),
                messages: q.messages,
            },
        )
    }
}

/// The queue after `c` unsubscribes: an error where it is no subscriber.
pub open spec fn after_unsubscribe(q: QueueView, c: ClientId) -> Result<QueueView, BrokerError> {
    if !q.subscribers.contains(c) {
        Err(BrokerError::NotSubscribed)
    } else {
        Ok(
            QueueView {
                name: q.name,
                publishers: q.publishers,
                subscribers: q.subscribers.remove(index_in(q.subscribers, c)),
                messages: q.messages,
            },
        )
    }
}

/// The queue after `c` becomes a publisher: a conflict where it already is one.
pub open spec fn after_add_publisher(q: QueueView, c: ClientId) -> Result<QueueView, BrokerError> {
    if q.publishers.contains(c) {
        Err(BrokerError::Conflict)
    } else {
        Ok(
            QueueView {
                name: q.name,
                publishers: q.publishers.push(c),
                subscribers: q.subscribers,
                messages: q.messages,
            },
        )
    }
}

/// The queue after `c` stops publishing: an error where it is no publisher.
pub open spec fn after_remove_publisher(q: QueueView, c: ClientId) -> Result<
    QueueView,
    BrokerError,
> {
    if !q.publishers.contains(c) {
        Err(BrokerError::NotPublisher)
    } else {
        Ok(
            QueueView {
                name: q.name,
                publishers: q.publishers.remove(index_in(q.publishers, c)),
                subscribers: q.subscribers,
                messages: q.messages,
            },
        )
    }
}

/// The queue after `sender` pushes `data` at time `created`: one message is
/// appended, addressed to the subscribers of that moment. Only a publisher
/// may push.
pub open spec fn after_push(
    q: QueueView,
    data: Seq<char>,
    sender: ClientId,
    created: i64,
    ttl_ms: Option<u64>,
    priority: Option<usize>,
) -> Result<QueueView, BrokerError> {
    if !q.publishers.contains(sender) {
        Err(BrokerError::NotPublisher)
    } else {
        Ok(
            QueueView {
                name: q.name,
                publishers: q.publishers,
                subscribers: q.subscribers,
                messages: q.messages.push(
                    new_message(data, sender, q.subscribers, created, ttl_ms, priority),
                ),
            },
        )
    }
}

/// A named queue. No client stands twice among its publishers, nor twice
/// among its subscribers; both lists keep the order in which clients joined.
#[derive(Debug, Clone)]
pub struct Queue {
    name: String,
    publishers: Vec<Client>,
    subscribers: Vec<Client>,
    data: Vec<MSG>,
}

impl View for Queue {
    type V = QueueView;

    closed spec fn view(&self) -> QueueView {
        QueueView {
            name: self.name@,
            publishers: ids_of(self.publishers@),
            subscribers: ids_of(self.subscribers@),
            messages: messages_view(self.data@),
        }
    }
}

/// Relies on chrono::Utc::now and DateTime::timestamp_millis: the time now,
/// in milliseconds since the Unix epoch. Nothing is known of the value. The
/// clock is read from the system; chrono panics only where the system clock
/// stands before the Unix epoch or past the range of its dates (about the
/// year 262000), both of which this library treats as failures of the
/// machine.
#[verifier::external_body]
fn current_time_millis() -> (r: i64) {
    chrono::Utc::now().timestamp_millis()
}

impl Queue {
    /// Neither membership list holds a client twice.
    pub open spec fn wf(&self) -> bool {
        self@.publishers.no_duplicates() && self@.subscribers.no_duplicates()
    }

    pub fn new(name: String, creator: Client) -> (r: Queue)
        ensures
            r@ == fresh_queue(name@, creator@),
            r.wf(),
    {
        let mut publishers: Vec<Client> = Vec::new();
        publishers.push(creator);
        let r = Queue { name, publishers, subscribers: Vec::new(), data: Vec::new() };
        assert(r@.publishers =~= seq![creator@]);
        assert(r@.subscribers =~= Seq::<ClientId>::empty());
        assert(r@.messages =~= Seq::<MessageView>::empty());
        r
    }

    pub fn name(&self) -> (r: &String)
        ensures
            r@ == self@.name,
    {
        &self.name
    }

    pub fn publishers(&self) -> (r: &Vec<Client>)
        ensures
            ids_of(r@) == self@.publishers,
    {
        &self.publishers
    }

    pub fn subscribers(&self) -> (r: &Vec<Client>)
        ensures
            ids_of(r@) == self@.subscribers,
    {
        &self.subscribers
    }

    /// The message log, oldest first.
    pub fn messages(&self) -> (r: &Vec<MSG>)
        ensures
            messages_view(r@) == self@.messages,
    {
        &self.data
    }

    /// A copy of this queue, decoupled from later changes to it.
    pub fn snapshot(&self) -> (r: Queue)
        ensures
            r@ == self@,
    {
        Queue {
            name: self.name.clone(),
            publishers: copy_clients(&self.publishers),
            subscribers: copy_clients(&self.subscribers),
            data: copy_messages(&self.data),
        }
    }

    /// Appends a message from `publisher`, stamped `now` (milliseconds since
    /// the Unix epoch), addressed to the current subscribers.
    pub fn push_at(
        &mut self,
        data: String,
        publisher: Client,
        lifetime: Option<u64>,
        priority: Option<usize>,
        now: i64,
    ) -> (r: Result<MSG, BrokerError>)
        requires
            old(self).wf(),
        ensures
            final(self).wf(),
            match after_push(old(self)@, data@, publisher@, now, lifetime, priority) {
                Ok(q) => final(self)@ == q && r is Ok && r->Ok_0@ == q.messages.last(),
                Err(e) => final(self)@ == old(self)@ && r == Err::<MSG, BrokerError>(e),
            },
    {
        match position_of(&self.publishers, &publisher) {
            None => Err(BrokerError::NotPublisher),
            Some(i) => {
                assert(ids_of(self.publishers@)[i as int] == publisher@);
                let recipients = copy_clients(&self.subscribers);
                let msg = MSG::new(data, publisher, recipients, now, lifetime, priority);
                let kept = msg.duplicate();
                let ghost before = self.data@;
                self.data.push(kept);
                assert(messages_view(self.data@) =~= messages_view(before).push(msg@));
                Ok(msg)
            },
        }
    }

    /// Appends a message from `publisher`, stamped with the time of the call.
    pub fn push(
        &mut self,
        data: String,
        publisher: Client,
        lifetime: Option<u64>,
        priority: Option<usize>,
    ) -> (r: Result<MSG, BrokerError>)
        requires
            old(self).wf(),
        ensures
            final(self).wf(),
            old(self)@.publishers.contains(publisher@) ==> r is Ok && after_push(
                old(self)@,
                data@,
                publisher@,
                r->Ok_0@.created,
                lifetime,
                priority,
            ) == Ok::<QueueView, BrokerError>(final(self)@) && r->Ok_0@ == final(self)@.messages.last(),
            !old(self)@.publishers.contains(publisher@) ==> r == Err::<MSG, BrokerError>(
                BrokerError::NotPublisher,
            ) && final(self)@ == old(self)@,
    {
        let now = current_time_millis();
        self.push_at(data, publisher, lifetime, priority, now)
    }

    /// Adds `subscriber` to the subscribers; returns them all.
    pub fn sub(&mut self, subscriber: Client) -> (r: Result<Vec<Client>, BrokerError>)
        requires
            old(self).wf(),
        ensures
            final(self).wf(),
            match after_subscribe(old(self)@, subscriber@) {
                Ok(q) => final(self)@ == q && r is Ok && ids_of(r->Ok_0@) == q.subscribers,
                Err(e) => final(self)@ == old(self)@ && r == Err::<Vec<Client>, BrokerError>(e),
            },
    {
        match position_of(&self.subscribers, &subscriber) {
            Some(i) => {
                assert(ids_of(self.subscribers@)[i as int] == subscriber@);
                Err(BrokerError::Conflict)
            },
            None => {
                proof {
                    lemma_ids_push(self.subscribers@, subscriber);
                    lemma_push_keeps_distinct(ids_of(self.subscribers@), subscriber@);
                }
                self.subscribers.push(subscriber);
                Ok(copy_clients(&self.subscribers))
            },
        }
    }

    /// Removes `subscriber` from the subscribers; returns those left.
    pub fn unsub(&mut self, subscriber: Client) -> (r: Result<Vec<Client>, BrokerError>)
        requires
            old(self).wf(),
        ensures
            final(self).wf(),
            match after_unsubscribe(old(self)@, subscriber@) {
                Ok(q) => final(self)@ == q && r is Ok && ids_of(r->Ok_0@) == q.subscribers,
                Err(e) => final(self)@ == old(self)@ && r == Err::<Vec<Client>, BrokerError>(e),
            },
    {
        match position_of(&self.subscribers, &subscriber) {
            None => Err(BrokerError::NotSubscribed),
            Some(index) => {
                proof {
                    let s = ids_of(self.subscribers@);
                    assert(s[index as int] == subscriber@);
                    let j = index_in(s, subscriber@);
                    assert(0 <= j < s.len() && s[j] == subscriber@);
                    assert(j == index);
                    lemma_ids_remove(self.subscribers@, index as int);
                    lemma_remove_keeps_distinct(s, index as int);
                }
                self.subscribers.remove(index);
                Ok(copy_clients(&self.subscribers))
            },
        }
    }

    /// Adds `publisher` to the publishers; returns them all.
    pub fn add_publisher(&mut self, publisher: Client) -> (r: Result<Vec<Client>, BrokerError>)
        requires
            old(self).wf(),
        ensures
            final(self).wf(),
            match after_add_publisher(old(self)@, publisher@) {
                Ok(q) => final(self)@ == q && r is Ok && ids_of(r->Ok_0@) == q.publishers,
                Err(e) => final(self)@ == old(self)@ && r == Err::<Vec<Client>, BrokerError>(e),
            },
    {
        match position_of(&self.publishers, &publisher) {
            Some(i) => {
                assert(ids_of(self.publishers@)[i as int] == publisher@);
                Err(BrokerError::Conflict)
            },
            None => {
                proof {
                    lemma_ids_push(self.publishers@, publisher);
                    lemma_push_keeps_distinct(ids_of(self.publishers@), publisher@);
                }
                self.publishers.push(publisher);
                Ok(copy_clients(&self.publishers))
            },
        }
    }

    /// Removes `publisher` from the publishers; returns those left.
    pub fn remove_publisher(&mut self, publisher: Client) -> (r: Result<Vec<Client>, BrokerError>)
        requires
            old(self).wf(),
        ensures
            final(self).wf(),
            match after_remove_publisher(old(self)@, publisher@) {
                Ok(q) => final(self)@ == q && r is Ok && ids_of(r->Ok_0@) == q.publishers,
                Err(e) => final(self)@ == old(self)@ && r == Err::<Vec<Client>, BrokerError>(e),
            },
    {
        match position_of(&self.publishers, &publisher) {
            None => Err(BrokerError::NotPublisher),
            Some(index) => {
                proof {
                    let s = ids_of(self.publishers@);
                    assert(s[index as int] == publisher@);
                    let j = index_in(s, publisher@);
                    assert(0 <= j < s.len() && s[j] == publisher@);
                    assert(j == index);
                    lemma_ids_remove(self.publishers@, index as int);
                    lemma_remove_keeps_distinct(s, index as int);
                }
                self.publishers.remove(index);
                Ok(copy_clients(&self.publishers))
            },
        }
    }
}

/// A new queue has its creator as its one publisher and no subscriber.
pub proof fn lemma_creator_publishes(name: Seq<char>, creator: ClientId)
    ensures
        fresh_queue(name, creator).publishers.contains(creator),
        !fresh_queue(name, creator).subscribers.contains(creator),
        fresh_queue(name, creator).publishers.len() == 1,
{
    assert(fresh_queue(name, creator).publishers[0] == creator);
}

/// Subscribing to a new queue makes the client its one subscriber;
/// subscribing again is a conflict.
pub proof fn lemma_subscribe_twice(name: Seq<char>, creator: ClientId, c: ClientId)
    ensures
        after_subscribe(fresh_queue(name, creator), c) is Ok,
        after_subscribe(fresh_queue(name, creator), c)->Ok_0.subscribers == seq![c],
        after_subscribe(after_subscribe(fresh_queue(name, creator), c)->Ok_0, c) == Err::<
            QueueView,
            BrokerError,
        >(BrokerError::Conflict),
{
    let q1 = after_subscribe(fresh_queue(name, creator), c)->Ok_0;
    assert(q1.subscribers =~= seq![c]);
    assert(q1.subscribers[0] == c);
}

/// Only a publisher may push.
pub proof fn lemma_push_needs_publisher(
    q: QueueView,
    data: Seq<char>,
    sender: ClientId,
    created: i64,
    ttl_ms: Option<u64>,
    priority: Option<usize>,
)
    requires
        !q.publishers.contains(sender),
    ensures
        after_push(q, data, sender, created, ttl_ms, priority) == Err::<QueueView, BrokerError>(
            BrokerError::NotPublisher,
        ),
{
}

/// A push by a publisher appends exactly one message, which carries the
/// payload, the sender, the subscribers of that moment, the priority given
/// and is active; the rest of the log stays as it was.
pub proof fn lemma_push_appends(
    q: QueueView,
    data: Seq<char>,
    sender: ClientId,
    created: i64,
    ttl_ms: Option<u64>,
    priority: usize,
)
    requires
        q.publishers.contains(sender),
    ensures
        after_push(q, data, sender, created, ttl_ms, Some(priority)) is Ok,
        ({
            let after = after_push(q, data, sender, created, ttl_ms, Some(priority))->Ok_0;
            &&& after.messages.len() == q.messages.len() + 1
            &&& after.messages.drop_last() == q.messages
            &&& after.messages.last().data == data
            &&& after.messages.last().sender == sender
            &&& after.messages.last().recipients == q.subscribers
            &&& after.messages.last().priority == priority
            &&& after.messages.last().active
            &&& after.publishers == q.publishers
            &&& after.subscribers == q.subscribers
        }),
{
    let after = after_push(q, data, sender, created, ttl_ms, Some(priority))->Ok_0;
    assert(after.messages.drop_last() =~= q.messages);
}

/// Changes of membership leave the message log, and so the recipients of
/// every message already pushed, as they were.
pub proof fn lemma_membership_keeps_log(q: QueueView, c: ClientId)
    ensures
        after_subscribe(q, c) is Ok ==> after_subscribe(q, c)->Ok_0.messages == q.messages,
        after_unsubscribe(q, c) is Ok ==> after_unsubscribe(q, c)->Ok_0.messages == q.messages,
        after_add_publisher(q, c) is Ok ==> after_add_publisher(q, c)->Ok_0.messages == q.messages,
        after_remove_publisher(q, c) is Ok ==> after_remove_publisher(q, c)->Ok_0.messages
            == q.messages,
{
}

/// Two different clients that subscribe to a queue both succeed, in either
/// order, and the queue ends with both among its subscribers: neither
/// subscription is lost.
pub proof fn lemma_subscribe_both(q: QueueView, a: ClientId, b: ClientId)
    requires
        a != b,
        !q.subscribers.contains(a),
        !q.subscribers.contains(b),
    ensures
        after_subscribe(q, a) is Ok,
        after_subscribe(q, b) is Ok,
        after_subscribe(after_subscribe(q, a)->Ok_0, b) is Ok,
        after_subscribe(after_subscribe(q, b)->Ok_0, a) is Ok,
        after_subscribe(after_subscribe(q, a)->Ok_0, b)->Ok_0.subscribers.to_set()
            == q.subscribers.to_set().insert(a).insert(b),
        after_subscribe(after_subscribe(q, b)->Ok_0, a)->Ok_0.subscribers.to_set()
            == q.subscribers.to_set().insert(a).insert(b),
{
    let s = q.subscribers;
    assert(!s.push(a).contains(b)) by {
        if s.push(a).contains(b) {
            let k = choose|k: int| 0 <= k < s.push(a).len() && s.push(a)[k] == b;
            if k < s.len() {
                assert(s[k] == b);
            }
        }
    }
    assert(!s.push(b).contains(a)) by {
        if s.push(b).contains(a) {
            let k = choose|k: int| 0 <= k < s.push(b).len() && s.push(b)[k] == a;
            if k < s.len() {
                assert(s[k] == a);
            }
        }
    }
    s.push(a).lemma_push_to_set_commute(b);
    s.lemma_push_to_set_commute(a);
    s.push(b).lemma_push_to_set_commute(a);
    s.lemma_push_to_set_commute(b);
    assert(s.to_set().insert(b).insert(a) =~= s.to_set().insert(a).insert(b));
}

} // verus!
