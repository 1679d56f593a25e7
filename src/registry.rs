//! The registry: every queue, in the order of creation, under a unique name.
//!
//! Each operation is one check-then-change step on the registry it is given:
//! a caller that shares a registry between threads holds its lock across the
//! call, so that concurrent calls act as some serial order of them and no
//! update is lost.

use vstd::prelude::*;

use crate::client::{ids_of, Client, ClientId};
use crate::log::{
    messages_of, names_distinct, names_of, publisher_of, queues_view, subscriber_of, ClientLog,
};
use crate::message::{messages_view, MSG};
use crate::queue::{
    after_add_publisher, after_push, after_remove_publisher, after_subscribe, after_unsubscribe,
    fresh_queue, lemma_subscribe_both, Queue, QueueView,
};
use crate::BrokerError;

verus! {

/// A queue's membership lists hold no client twice.
pub open spec fn queue_wf(q: QueueView) -> bool {
    q.publishers.no_duplicates() && q.subscribers.no_duplicates()
}

/// No two queues share a name, and each queue is well formed.
pub open spec fn registry_wf(v: Seq<QueueView>) -> bool {
    &&& names_distinct(v)
    &&& forall|i: int| 0 <= i < v.len() ==> queue_wf(#[trigger] v[i])
}

/// Where the queue named `name` stands.
pub open spec fn position_named(v: Seq<QueueView>, name: Seq<char>) -> int {
    choose|i: int| 0 <= i < v.len() && v[i].name == name
}

/// Whether a queue is named `name`.
pub open spec fn has_queue(v: Seq<QueueView>, name: Seq<char>) -> bool {
    exists|i: int| 0 <= i < v.len() && v[i].name == name
}

/// The queue named `name`.
pub open spec fn queue_named(v: Seq<QueueView>, name: Seq<char>) -> QueueView {
    v[position_named(v, name)]
}

/// The registry after `queue` is registered: a conflict where its name is taken.
pub open spec fn after_create(v: Seq<QueueView>, queue: QueueView) -> Result<
    Seq<QueueView>,
    BrokerError,
> {
    if has_queue(v, queue.name) {
        Err(BrokerError::Conflict)
    } else {
        Ok(v.push(queue))
    }
}

/// A change to one of a queue's two membership lists.
#[derive(Debug, Clone, Copy, PartialEq, Eq, Structural)]
pub enum Membership {
    Subscribe,
    Unsubscribe,
    AddPublisher,
    RemovePublisher,
}

/// The queue after `change` is made for client `c`.
pub open spec fn after_change(change: Membership, q: QueueView, c: ClientId) -> Result<
    QueueView,
    BrokerError,
> {
    match change {
        Membership::Subscribe => after_subscribe(q, c),
        Membership::Unsubscribe => after_unsubscribe(q, c),
        Membership::AddPublisher => after_add_publisher(q, c),
        Membership::RemovePublisher => after_remove_publisher(q, c),
    }
}

/// The membership list that `change` acts on.
pub open spec fn changed_list(change: Membership, q: QueueView) -> Seq<ClientId> {
    match change {
        Membership::Subscribe | Membership::Unsubscribe => q.subscribers,
        Membership::AddPublisher | Membership::RemovePublisher => q.publishers,
    }
}

/// The registry after `change` is made for `c` on the queue named `name`:
/// `NotFound` where there is none, else what the change does to that queue.
pub open spec fn after_registry_change(
    v: Seq<QueueView>,
    name: Seq<char>,
    change: Membership,
    c: ClientId,
) -> Result<Seq<QueueView>, BrokerError> {
    if !has_queue(v, name) {
        Err(BrokerError::NotFound)
    } else {
        match after_change(change, queue_named(v, name), c) {
            Ok(q) => Ok(v.update(position_named(v, name), q)),
            Err(e) => Err(e),
        }
    }
}

/// What a membership change owes: on success the registry becomes
/// `after_registry_change` of the old one and the changed list is returned;
/// on an error nothing changes.
pub open spec fn membership_outcome(
    before: Seq<QueueView>,
    after: Seq<QueueView>,
    r: Result<Vec<Client>, BrokerError>,
    name: Seq<char>,
    change: Membership,
    c: ClientId,
) -> bool {
    match after_registry_change(before, name, change, c) {
        Ok(v) => after == v && r is Ok && ids_of(r->Ok_0@) == changed_list(
            change,
            queue_named(v, name),
        ),
        Err(e) => after == before && r == Err::<Vec<Client>, BrokerError>(e),
    }
}

/// Why a push by `sender` into the queue named `name` is refused, if it is.
pub open spec fn push_refusal(v: Seq<QueueView>, name: Seq<char>, sender: ClientId) -> Option<
    BrokerError,
> {
    if !has_queue(v, name) {
        Some(BrokerError::NotFound)
    } else if !queue_named(v, name).publishers.contains(sender) {
        Some(BrokerError::NotPublisher)
    } else {
        None
    }
}

/// The registry after `sender` pushes `data` at time `created` into the
/// queue named `name`.
pub open spec fn after_registry_push(
    v: Seq<QueueView>,
    name: Seq<char>,
    data: Seq<char>,
    sender: ClientId,
    created: i64,
    ttl_ms: Option<u64>,
    priority: Option<usize>,
) -> Result<Seq<QueueView>, BrokerError> {
    match push_refusal(v, name, sender) {
        Some(e) => Err(e),
        None => Ok(
            v.update(
                position_named(v, name),
                after_push(queue_named(v, name), data, sender, created, ttl_ms, priority)->Ok_0,
            ),
        ),
    }
}

/// In a registry without repeated names, the queue named `name` is the one
/// that stands where that name does.
pub proof fn lemma_position_named(v: Seq<QueueView>, i: int, name: Seq<char>)
    requires
        names_distinct(v),
        0 <= i < v.len(),
        v[i].name == name,
    ensures
        has_queue(v, name),
        position_named(v, name) == i,
{
    let j = position_named(v, name);
    assert(0 <= j < v.len() && v[j].name == name);
}

/// Where the queue named `name` stands, if there is one.
fn find_queue(queues: &Vec<Queue>, name: &String) -> (r: Option<usize>)
    ensures
        match r {
            Some(i) => i < queues.len() && queues@[i as int]@.name == name@,
            None => !has_queue(queues_view(queues@), name@),
        },
{
    let mut i: usize = 0;
    while i < queues.len()
        invariant
            i <= queues.len(),
            forall|j: int| 0 <= j < i ==> queues@[j]@.name != name@,
        decreases queues.len() - i,
    {
        if *queues[i].name() == *name {
            return Some(i);
        }
        i = i + 1;
    }
    proof {
        if has_queue(queues_view(queues@), name@) {
            let k = choose|k: int| 0 <= k < queues.len() && queues_view(queues@)[k].name == name@;
            assert(queues@[k]@.name == name@);
        }
    }
    None
}

/// All queues of the process, in the order of creation. Its view is the
/// queues' contents, in that order.
pub struct Registry {
    queues: Vec<Queue>,
}

impl View for Registry {
    type V = Seq<QueueView>;

    closed spec fn view(&self) -> Seq<QueueView> {
        queues_view(self.queues@)
    }
}

impl Registry {
    /// No two queues share a name, and each queue is well formed.
    pub open spec fn wf(&self) -> bool {
        registry_wf(self@)
    }

    /// A registry with no queues.
    pub fn new() -> (r: Registry)
        ensures
            r.wf(),
            r@ == Seq::<QueueView>::empty(),
    {
        let r = Registry { queues: Vec::new() };
        assert(r@ =~= Seq::<QueueView>::empty());
        r
    }

    /// Puts `q` back where it was taken from.
    fn put_back(&mut self, i: usize, q: Queue)
        requires
            i <= old(self).queues.len(),
        ensures
            final(self).queues@ == old(self).queues@.insert(i as int, q),
    {
        self.queues.insert(i, q);
    }

    /// Registers `queue` under its name, unless a queue of that name exists;
    /// returns a copy of what was registered. On a conflict nothing changes.
    pub fn queue_insert(&mut self, queue: Queue) -> (r: Result<Queue, BrokerError>)
        requires
            old(self).wf(),
            queue.wf(),
        ensures
            final(self).wf(),
            match after_create(old(self)@, queue@) {
                Ok(v) => final(self)@ == v && r is Ok && r->Ok_0@ == queue@,
                Err(e) => *final(self) == *old(self) && r == Err::<Queue, BrokerError>(e),
            },
    {
        match find_queue(&self.queues, queue.name()) {
            Some(i) => {
                assert(queues_view(self.queues@)[i as int].name == queue@.name);
                Err(BrokerError::Conflict)
            },
            None => {
                let copy = queue.snapshot();
                let ghost before = self@;
                self.queues.push(queue);
                proof {
                    assert(self@ =~= before.push(copy@));
                    assert forall|a: int, b: int|
                        0 <= a < self@.len() && 0 <= b < self@.len() && a != b implies self@[a].name
                        != self@[b].name by {
                        if a == before.len() {
                            assert(before[b].name != copy@.name);
                        } else if b == before.len() {
                            assert(before[a].name != copy@.name);
                        }
                    }
                }
                Ok(copy)
            },
        }
    }

    /// Creates a queue named `name` whose one publisher is `creator`; returns
    /// a copy of it. On a conflict nothing changes.
    pub fn new_queue(&mut self, creator: Client, name: String) -> (r: Result<Queue, BrokerError>)
        requires
            old(self).wf(),
        ensures
            final(self).wf(),
            match after_create(old(self)@, fresh_queue(name@, creator@)) {
                Ok(v) => final(self)@ == v && r is Ok && r->Ok_0@ == fresh_queue(name@, creator@),
                Err(e) => *final(self) == *old(self) && r == Err::<Queue, BrokerError>(e),
            },
    {
        self.queue_insert(Queue::new(name, creator))
    }

    /// Makes `change` for `client` on the queue named `name`, as one step of
    /// check and change; returns the list it acted on.
    pub fn change_membership(&mut self, name: &String, client: Client, change: Membership) -> (r:
        Result<Vec<Client>, BrokerError>)
        requires
            old(self).wf(),
        ensures
            final(self).wf(),
            membership_outcome(old(self)@, final(self)@, r, name@, change, client@),
    {
        match find_queue(&self.queues, name) {
            None => Err(BrokerError::NotFound),
            Some(i) => {
                let ghost before = self@;
                proof {
                    lemma_position_named(before, i as int, name@);
                }
                let mut q = self.queues.remove(i);
                let ghost cid = client@;
                let r = match change {
                    Membership::Subscribe => q.sub(client),
                    Membership::Unsubscribe => q.unsub(client),
                    Membership::AddPublisher => q.add_publisher(client),
                    Membership::RemovePublisher => q.remove_publisher(client),
                };
                self.put_back(i, q);
                proof {
                    assert(self@ =~= before.update(i as int, q@));
                    if r is Err {
                        assert(self@ =~= before);
                    } else {
                        assert(queue_named(self@, name@) == q@) by {
                            lemma_position_named(self@, i as int, name@);
                        }
                    }
                    assert(names_distinct(self@)) by {
                        assert forall|a: int, b: int|
                            0 <= a < self@.len() && 0 <= b < self@.len() && a != b implies self@[a].name
                            != self@[b].name by {
                            assert(before[a].name == self@[a].name);
                            assert(before[b].name == self@[b].name);
                        }
                    }
                }
                r
            },
        }
    }

    /// Subscribes `client` to the queue named `name`; returns its subscribers.
    pub fn sub(&mut self, client: Client, name: &String) -> (r: Result<Vec<Client>, BrokerError>)
        requires
            old(self).wf(),
        ensures
            final(self).wf(),
            membership_outcome(old(self)@, final(self)@, r, name@, Membership::Subscribe, client@),
    {
        self.change_membership(name, client, Membership::Subscribe)
    }

    /// Unsubscribes `client` from the queue named `name`; returns the
    /// subscribers left.
    pub fn unsub(&mut self, client: Client, name: &String) -> (r: Result<Vec<Client>, BrokerError>)
        requires
            old(self).wf(),
        ensures
            final(self).wf(),
            membership_outcome(old(self)@, final(self)@, r, name@, Membership::Unsubscribe, client@),
    {
        self.change_membership(name, client, Membership::Unsubscribe)
    }

    /// Makes `client` a publisher of the queue named `name`; returns its
    /// publishers.
    pub fn add_publisher(&mut self, client: Client, name: &String) -> (r: Result<
        Vec<Client>,
        BrokerError,
    >)
        requires
            old(self).wf(),
        ensures
            final(self).wf(),
            membership_outcome(old(self)@, final(self)@, r, name@, Membership::AddPublisher, client@),
    {
        self.change_membership(name, client, Membership::AddPublisher)
    }

    /// Takes `client` off the publishers of the queue named `name`; returns
    /// the publishers left.
    pub fn unpub(&mut self, client: Client, name: &String) -> (r: Result<Vec<Client>, BrokerError>)
        requires
            old(self).wf(),
        ensures
            final(self).wf(),
            membership_outcome(
                old(self)@,
                final(self)@,
                r,
                name@,
                Membership::RemovePublisher,
                client@,
            ),
    {
        self.change_membership(name, client, Membership::RemovePublisher)
    }

    /// Pushes `data` from `client` into the queue named `name`, stamped with
    /// the time of the call; returns the message. On a refusal nothing
    /// changes.
    pub fn push_in_queue(
        &mut self,
        client: Client,
        name: &String,
        data: String,
        lifetime: Option<u64>,
        priority: Option<usize>,
    ) -> (r: Result<MSG, BrokerError>)
        requires
            old(self).wf(),
        ensures
            final(self).wf(),
            match push_refusal(old(self)@, name@, client@) {
                Some(e) => final(self)@ == old(self)@ && r == Err::<MSG, BrokerError>(e),
                None => r is Ok && after_registry_push(
                    old(self)@,
                    name@,
                    data@,
                    client@,
                    r->Ok_0@.created,
                    lifetime,
                    priority,
                ) == Ok::<Seq<QueueView>, BrokerError>(final(self)@) && r->Ok_0@ == queue_named(
                    final(self)@,
                    name@,
                ).messages.last(),
            },
    {
        match find_queue(&self.queues, name) {
            None => Err(BrokerError::NotFound),
            Some(i) => {
                let ghost before = self@;
                proof {
                    lemma_position_named(before, i as int, name@);
                }
                let mut q = self.queues.remove(i);
                let r = q.push(data, client, lifetime, priority);
                self.put_back(i, q);
                proof {
                    assert(self@ =~= before.update(i as int, q@));
                    if r is Err {
                        assert(self@ =~= before);
                    } else {
                        lemma_position_named(self@, i as int, name@);
                    }
                    assert(names_distinct(self@)) by {
                        assert forall|a: int, b: int|
                            0 <= a < self@.len() && 0 <= b < self@.len() && a != b implies self@[a].name
                            != self@[b].name by {
                            assert(before[a].name == self@[a].name);
                            assert(before[b].name == self@[b].name);
                        }
                    }
                }
                r
            },
        }
    }

    /// A copy of the queue named `name`, if there is one.
    pub fn lookup(&self, name: &String) -> (r: Option<Queue>)
        requires
            self.wf(),
        ensures
            r is Some <==> has_queue(self@, name@),
            r is Some ==> r->Some_0@ == queue_named(self@, name@),
    {
        match find_queue(&self.queues, name) {
            None => None,
            Some(i) => {
                proof {
                    lemma_position_named(self@, i as int, name@);
                }
                Some(self.queues[i].snapshot())
            },
        }
    }

    /// A copy of every queue, in the order of creation.
    pub fn full_map(&self) -> (r: Vec<Queue>)
        ensures
            queues_view(r@) == self@,
    {
        let mut r: Vec<Queue> = Vec::new();
        let mut i: usize = 0;
        while i < self.queues.len()
            invariant
                i <= self.queues.len(),
                r.len() == i,
                forall|j: int| 0 <= j < i ==> (#[trigger] r@[j])@ == self.queues@[j]@,
            decreases self.queues.len() - i,
        {
            r.push(self.queues[i].snapshot());
            i = i + 1;
        }
        assert(queues_view(r@) =~= self@);
        r
    }

    /// Everything `client` does across all queues.
    pub fn get_user_log(&self, client: &Client) -> (r: ClientLog)
        ensures
            names_of(r.publisher@) == publisher_of(self@, client@),
            names_of(r.subscriber@) == subscriber_of(self@, client@),
            messages_view(r.messages@) == messages_of(self@, client@),
    {
        Client::get_my_data(client, &self.queues)
    }
}

/// Creating a queue under a free name succeeds and registers it, with its
/// creator as its one publisher and no subscriber, after the queues already
/// there; creating it again, by anyone, is a conflict. Afterwards exactly one
/// queue bears the name.
pub proof fn lemma_create_once(v: Seq<QueueView>, name: Seq<char>, c: ClientId, d: ClientId)
    requires
        registry_wf(v),
        !has_queue(v, name),
    ensures
        after_create(v, fresh_queue(name, c)) is Ok,
        ({
            let v1 = after_create(v, fresh_queue(name, c))->Ok_0;
            &&& registry_wf(v1)
            &&& v1.drop_last() == v
            &&& queue_named(v1, name) == fresh_queue(name, c)
            &&& queue_named(v1, name).publishers == seq![c]
            &&& queue_named(v1, name).subscribers.len() == 0
            &&& after_create(v1, fresh_queue(name, d)) == Err::<Seq<QueueView>, BrokerError>(
                BrokerError::Conflict,
            )
            &&& forall|i: int, j: int|
                0 <= i < v1.len() && 0 <= j < v1.len() && v1[i].name == name && v1[j].name == name
                    ==> i == j
        }),
{
    let q = fresh_queue(name, c);
    let v1 = v.push(q);
    assert(v1.drop_last() =~= v);
    assert(q.publishers.no_duplicates());
    assert(q.subscribers.no_duplicates());
    assert forall|a: int, b: int| 0 <= a < v1.len() && 0 <= b < v1.len() && a != b implies v1[a].name
        != v1[b].name by {
        if a == v.len() {
            assert(!(v[b].name == name));
        } else if b == v.len() {
            assert(!(v[a].name == name));
        }
    }
    lemma_position_named(v1, v.len() as int, name);
}

/// Two different clients that subscribe to a queue holding neither both
/// succeed, in either order, and the queue ends with both among its
/// subscribers; its publishers, its log and every other queue stay as they
/// were. No subscription is lost.
pub proof fn lemma_registry_subscribe_both(
    v: Seq<QueueView>,
    name: Seq<char>,
    a: ClientId,
    b: ClientId,
)
    requires
        registry_wf(v),
        has_queue(v, name),
        a != b,
        !queue_named(v, name).subscribers.contains(a),
        !queue_named(v, name).subscribers.contains(b),
    ensures
        after_registry_change(v, name, Membership::Subscribe, a) is Ok,
        after_registry_change(v, name, Membership::Subscribe, b) is Ok,
        ({
            let ab = after_registry_change(
                after_registry_change(v, name, Membership::Subscribe, a)->Ok_0,
                name,
                Membership::Subscribe,
                b,
            );
            let ba = after_registry_change(
                after_registry_change(v, name, Membership::Subscribe, b)->Ok_0,
                name,
                Membership::Subscribe,
                a,
            );
            let q = queue_named(v, name);
            &&& ab is Ok
            &&& ba is Ok
            &&& queue_named(ab->Ok_0, name).subscribers.to_set() == q.subscribers.to_set().insert(
                a,
            ).insert(b)
            &&& queue_named(ba->Ok_0, name).subscribers.to_set() == q.subscribers.to_set().insert(
                a,
            ).insert(b)
            &&& queue_named(ab->Ok_0, name).publishers == q.publishers
            &&& queue_named(ab->Ok_0, name).messages == q.messages
            &&& forall|k: int|
                0 <= k < v.len() && k != position_named(v, name) ==> (#[trigger] ab->Ok_0[k])
                    == v[k] && ba->Ok_0[k] == v[k]
        }),
{
    let i = position_named(v, name);
    let q = queue_named(v, name);
    lemma_position_named(v, i, name);
    lemma_subscribe_both(q, a, b);
    let qa = after_subscribe(q, a)->Ok_0;
    let qb = after_subscribe(q, b)->Ok_0;
    let va = v.update(i, qa);
    let vb = v.update(i, qb);
    assert(names_distinct(va)) by {
        assert forall|x: int, y: int| 0 <= x < va.len() && 0 <= y < va.len() && x != y implies va[x].name
            != va[y].name by {
            assert(va[x].name == v[x].name && va[y].name == v[y].name);
        }
    }
    assert(names_distinct(vb)) by {
        assert forall|x: int, y: int| 0 <= x < vb.len() && 0 <= y < vb.len() && x != y implies vb[x].name
            != vb[y].name by {
            assert(vb[x].name == v[x].name && vb[y].name == v[y].name);
        }
    }
    lemma_position_named(va, i, name);
    lemma_position_named(vb, i, name);
    let vab = va.update(i, after_subscribe(qa, b)->Ok_0);
    let vba = vb.update(i, after_subscribe(qb, a)->Ok_0);
    assert(names_distinct(vab)) by {
        assert forall|x: int, y: int|
            0 <= x < vab.len() && 0 <= y < vab.len() && x != y implies vab[x].name != vab[y].name by {
            assert(vab[x].name == v[x].name && vab[y].name == v[y].name);
        }
    }
    assert(names_distinct(vba)) by {
        assert forall|x: int, y: int|
            0 <= x < vba.len() && 0 <= y < vba.len() && x != y implies vba[x].name != vba[y].name by {
            assert(vba[x].name == v[x].name && vba[y].name == v[y].name);
        }
    }
    lemma_position_named(vab, i, name);
    lemma_position_named(vba, i, name);
}

/// Two pushes by publishers of a queue both land: its log grows by exactly
/// the two messages, in the order of the pushes, after what it held.
pub proof fn lemma_two_pushes(
    v: Seq<QueueView>,
    name: Seq<char>,
    p1: ClientId,
    d1: Seq<char>,
    t1: i64,
    p2: ClientId,
    d2: Seq<char>,
    t2: i64,
)
    requires
        registry_wf(v),
        has_queue(v, name),
        queue_named(v, name).publishers.contains(p1),
        queue_named(v, name).publishers.contains(p2),
    ensures
        after_registry_push(v, name, d1, p1, t1, None, None) is Ok,
        ({
            let v1 = after_registry_push(v, name, d1, p1, t1, None, None)->Ok_0;
            let v2 = after_registry_push(v1, name, d2, p2, t2, None, None);
            let log = queue_named(v, name).messages;
            &&& v2 is Ok
            &&& queue_named(v2->Ok_0, name).messages.len() == log.len() + 2
            &&& queue_named(v2->Ok_0, name).messages.take(log.len() as int) == log
            &&& queue_named(v2->Ok_0, name).messages[log.len() as int].data == d1
            &&& queue_named(v2->Ok_0, name).messages[log.len() as int + 1].data == d2
        }),
{
    let i = position_named(v, name);
    let q = queue_named(v, name);
    lemma_position_named(v, i, name);
    let q1 = after_push(q, d1, p1, t1, None, None)->Ok_0;
    let v1 = v.update(i, q1);
    assert(names_distinct(v1)) by {
        assert forall|x: int, y: int| 0 <= x < v1.len() && 0 <= y < v1.len() && x != y implies v1[x].name
            != v1[y].name by {
            assert(v1[x].name == v[x].name && v1[y].name == v[y].name);
        }
    }
    lemma_position_named(v1, i, name);
    let q2 = after_push(q1, d2, p2, t2, None, None)->Ok_0;
    let v2 = v1.update(i, q2);
    assert(names_distinct(v2)) by {
        assert forall|x: int, y: int| 0 <= x < v2.len() && 0 <= y < v2.len() && x != y implies v2[x].name
            != v2[y].name by {
            assert(v2[x].name == v[x].name && v2[y].name == v[y].name);
        }
    }
    lemma_position_named(v2, i, name);
    assert(q2.messages.take(q.messages.len() as int) =~= q.messages);
}

} // verus!
