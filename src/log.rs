//! What one client does across all queues: where it publishes, where it
//! subscribes, and what it has sent.

use vstd::prelude::*;

use crate::client::{position_of, Client, ClientId};
use crate::message::{messages_view, MessageView, MSG};
use crate::queue::{Queue, QueueView};

verus! {

/// The views of a sequence of queues, in order.
pub open spec fn queues_view(s: Seq<Queue>) -> Seq<QueueView> {
    s.map_values(|q: Queue| q@)
}

/// No two queues share a name.
pub open spec fn names_distinct(qs: Seq<QueueView>) -> bool {
    forall|i: int, j: int| 0 <= i < qs.len() && 0 <= j < qs.len() && i != j ==> qs[i].name != qs[j].name
}

/// The contents of a sequence of strings, in order.
pub open spec fn names_of(s: Seq<String>) -> Seq<Seq<char>> {
    s.map_values(|x: String| x@)
}

/// Names of the queues, in order, in whose list `c` stands: the list of
/// publishers when `publishing`, else the list of subscribers.
pub open spec fn member_of(qs: Seq<QueueView>, c: ClientId, publishing: bool) -> Seq<Seq<char>>
    decreases qs.len(),
{
    if qs.len() == 0 {
        seq![]
    } else {
        let rest = member_of(qs.drop_last(), c, publishing);
        let list = if publishing {
            qs.last().publishers
        } else {
            qs.last().subscribers
        };
        if list.contains(c) {
            rest.push(qs.last().name)
        } else {
            rest
        }
    }
}

/// Names of the queues, in order, of which `c` is a publisher.
pub open spec fn publisher_of(qs: Seq<QueueView>, c: ClientId) -> Seq<Seq<char>> {
    member_of(qs, c, true)
}

/// Names of the queues, in order, of which `c` is a subscriber.
pub open spec fn subscriber_of(qs: Seq<QueueView>, c: ClientId) -> Seq<Seq<char>> {
    member_of(qs, c, false)
}

/// The messages of a log, in order, that `c` sent.
pub open spec fn sent_by(ms: Seq<MessageView>, c: ClientId) -> Seq<MessageView>
    decreases ms.len(),
{
    if ms.len() == 0 {
        seq![]
    } else {
        let rest = sent_by(ms.drop_last(), c);
        if ms.last().sender == c {
            rest.push(ms.last())
        } else {
            rest
        }
    }
}

/// The messages that `c` sent, queue after queue, each log in its order.
pub open spec fn messages_of(qs: Seq<QueueView>, c: ClientId) -> Seq<MessageView>
    decreases qs.len(),
{
    if qs.len() == 0 {
        seq![]
    } else {
        messages_of(qs.drop_last(), c) + sent_by(qs.last().messages, c)
    }
}

/// One client's activity across a set of queues.
pub struct ClientLog {
    /// Names of the queues it publishes to.
    pub publisher: Vec<String>,
    /// Names of the queues it subscribes to.
    pub subscriber: Vec<String>,
    /// The messages it sent.
    pub messages: Vec<MSG>,
}

proof fn lemma_queues_take(s: Seq<Queue>, i: int)
    requires
        0 <= i < s.len(),
    ensures
        queues_view(s.take(i + 1)).drop_last() == queues_view(s.take(i)),
        queues_view(s.take(i + 1)).last() == s[i]@,
        queues_view(s.take(i + 1)).len() == i + 1,
{
    assert(queues_view(s.take(i + 1)).drop_last() =~= queues_view(s.take(i)));
}

proof fn lemma_messages_take(s: Seq<MSG>, i: int)
    requires
        0 <= i < s.len(),
    ensures
        messages_view(s.take(i + 1)).drop_last() == messages_view(s.take(i)),
        messages_view(s.take(i + 1)).last() == s[i]@,
        messages_view(s.take(i + 1)).len() == i + 1,
{
    assert(messages_view(s.take(i + 1)).drop_last() =~= messages_view(s.take(i)));
}

/// The names of the queues, in order, in whose list (publishers when
/// `publishing`, else subscribers) `c` stands.
fn queues_with_member(c: &Client, queues: &Vec<Queue>, publishing: bool) -> (r: Vec<String>)
    ensures
        names_of(r@) == member_of(queues_view(queues@), c@, publishing),
{
    let mut r: Vec<String> = Vec::new();
    let mut i: usize = 0;
    while i < queues.len()
        invariant
            i <= queues.len(),
            names_of(r@) == member_of(queues_view(queues@.take(i as int)), c@, publishing),
        decreases queues.len() - i,
    {
        let q = &queues[i];
        let members = if publishing {
            q.publishers()
        } else {
            q.subscribers()
        };
        let found = position_of(members, c);
        proof {
            lemma_queues_take(queues@, i as int);
            if let Some(k) = found {
                assert(crate::client::ids_of(members@)[k as int] == c@);
            }
        }
        if found.is_some() {
            let ghost before = r@;
            r.push(q.name().clone());
            assert(names_of(r@) =~= names_of(before).push(q@.name));
        }
        i = i + 1;
    }
    assert(queues@.take(queues.len() as int) =~= queues@);
    r
}

/// The messages of `log`, in order, that `c` sent, appended to `out`.
fn collect_sent(c: &Client, log: &Vec<MSG>, out: &mut Vec<MSG>)
    ensures
        messages_view(final(out)@) == messages_view(old(out)@) + sent_by(messages_view(log@), c@),
{
    let ghost start = messages_view(out@);
    let mut i: usize = 0;
    while i < log.len()
        invariant
            i <= log.len(),
            messages_view(out@) == start + sent_by(messages_view(log@.take(i as int)), c@),
        decreases log.len() - i,
    {
        let m = &log[i];
        proof {
            lemma_messages_take(log@, i as int);
        }
        if m.sender().same(c) {
            let ghost before = out@;
            out.push(m.duplicate());
            assert(messages_view(out@) =~= messages_view(before).push(m@));
            assert(messages_view(out@) =~= start + sent_by(
                messages_view(log@.take(i + 1)),
                c@,
            ));
        }
        i = i + 1;
    }
    assert(log@.take(log.len() as int) =~= log@);
}

impl Client {
    /// The names of the queues, in order, of which `this` is a publisher.
    pub fn get_queue_where_client_publisher(this: &Self, queues: &Vec<Queue>) -> (r: Vec<String>)
        ensures
            names_of(r@) == publisher_of(queues_view(queues@), this@),
    {
        queues_with_member(this, queues, true)
    }

    /// The names of the queues, in order, of which `this` is a subscriber.
    pub fn get_queue_where_client_subscriber(this: &Self, queues: &Vec<Queue>) -> (r: Vec<String>)
        ensures
            names_of(r@) == subscriber_of(queues_view(queues@), this@),
    {
        queues_with_member(this, queues, false)
    }

    /// Every message that `this` sent, queue after queue, each log in its order.
    pub fn get_client_messsages(this: &Self, queues: &Vec<Queue>) -> (r: Vec<MSG>)
        ensures
            messages_view(r@) == messages_of(queues_view(queues@), this@),
    {
        let mut r: Vec<MSG> = Vec::new();
        let mut i: usize = 0;
        while i < queues.len()
            invariant
                i <= queues.len(),
                messages_view(r@) == messages_of(queues_view(queues@.take(i as int)), this@),
            decreases queues.len() - i,
        {
            proof {
                lemma_queues_take(queues@, i as int);
            }
            collect_sent(this, queues[i].messages(), &mut r);
            i = i + 1;
        }
        assert(queues@.take(queues.len() as int) =~= queues@);
        r
    }

    /// Everything `this` does across `queues`.
    pub fn get_my_data(this: &Self, queues: &Vec<Queue>) -> (r: ClientLog)
        ensures
            names_of(r.publisher@) == publisher_of(queues_view(queues@), this@),
            names_of(r.subscriber@) == subscriber_of(queues_view(queues@), this@),
            messages_view(r.messages@) == messages_of(queues_view(queues@), this@),
    {
        ClientLog {
            publisher: Self::get_queue_where_client_publisher(this, queues),
            subscriber: Self::get_queue_where_client_subscriber(this, queues),
            messages: Self::get_client_messsages(this, queues),
        }
    }
}

/// Whether `c` stands in the list of `q` that `publishing` picks.
pub open spec fn is_member(q: QueueView, c: ClientId, publishing: bool) -> bool {
    if publishing {
        q.publishers.contains(c)
    } else {
        q.subscribers.contains(c)
    }
}

/// A name is listed exactly when some queue of that name has `c` as a member.
pub proof fn lemma_member_of_complete(qs: Seq<QueueView>, c: ClientId, publishing: bool)
    ensures
        forall|n: Seq<char>|
            #[trigger] member_of(qs, c, publishing).contains(n) <==> exists|i: int|
                0 <= i < qs.len() && qs[i].name == n && is_member(qs[i], c, publishing),
    decreases qs.len(),
{
    if qs.len() > 0 {
        let init = qs.drop_last();
        lemma_member_of_complete(init, c, publishing);
        let rest = member_of(init, c, publishing);
        assert forall|n: Seq<char>|
            #[trigger] member_of(qs, c, publishing).contains(n) <==> exists|i: int|
                0 <= i < qs.len() && qs[i].name == n && is_member(qs[i], c, publishing) by {
            let last = qs.len() - 1;
            if member_of(qs, c, publishing).contains(n) {
                if rest.contains(n) {
                    let i = choose|i: int|
                        0 <= i < init.len() && init[i].name == n && is_member(init[i], c, publishing);
                    assert(qs[i] == init[i]);
                } else {
                    let k = choose|k: int|
                        0 <= k < member_of(qs, c, publishing).len() && member_of(qs, c, publishing)[k]
                            == n;
                    assert(k == rest.len());
                    assert(qs[last].name == n && is_member(qs[last], c, publishing));
                }
            }
            if exists|i: int| 0 <= i < qs.len() && qs[i].name == n && is_member(qs[i], c, publishing) {
                let i = choose|i: int|
                    0 <= i < qs.len() && qs[i].name == n && is_member(qs[i], c, publishing);
                if i < last {
                    assert(init[i] == qs[i]);
                    assert(rest.contains(n));
                    let k = choose|k: int| 0 <= k < rest.len() && rest[k] == n;
                    assert(member_of(qs, c, publishing)[k] == n);
                } else {
                    assert(member_of(qs, c, publishing)[rest.len() as int] == n);
                }
            }
        }
    }
}

/// Where no two queues share a name, no name is listed twice.
pub proof fn lemma_member_of_distinct(qs: Seq<QueueView>, c: ClientId, publishing: bool)
    requires
        forall|i: int, j: int|
            0 <= i < qs.len() && 0 <= j < qs.len() && i != j ==> qs[i].name != qs[j].name,
    ensures
        member_of(qs, c, publishing).no_duplicates(),
    decreases qs.len(),
{
    if qs.len() > 0 {
        let init = qs.drop_last();
        assert forall|i: int, j: int|
            0 <= i < init.len() && 0 <= j < init.len() && i != j implies init[i].name != init[j].name by {
            assert(init[i] == qs[i] && init[j] == qs[j]);
        }
        lemma_member_of_distinct(init, c, publishing);
        lemma_member_of_complete(init, c, publishing);
        let rest = member_of(init, c, publishing);
        let last = qs.len() - 1;
        if is_member(qs[last], c, publishing) {
            if rest.contains(qs[last].name) {
                let i = choose|i: int|
                    0 <= i < init.len() && init[i].name == qs[last].name && is_member(
                        init[i],
                        c,
                        publishing,
                    );
                assert(qs[i] == init[i]);
            }
            let r = member_of(qs, c, publishing);
            assert(r == rest.push(qs[last].name));
            assert forall|a: int, b: int| 0 <= a < r.len() && 0 <= b < r.len() && a != b implies r[a]
                != r[b] by {
                if a == rest.len() {
                    assert(r[b] == rest[b]);
                } else if b == rest.len() {
                    assert(r[a] == rest[a]);
                } else {
                    assert(r[a] == rest[a] && r[b] == rest[b]);
                }
            }
        }
    }
}

/// The messages of a log that `c` sent are exactly its entries whose sender is `c`.
pub proof fn lemma_sent_by_complete(ms: Seq<MessageView>, c: ClientId)
    ensures
        forall|m: MessageView|
            #[trigger] sent_by(ms, c).contains(m) <==> (ms.contains(m) && m.sender == c),
    decreases ms.len(),
{
    if ms.len() > 0 {
        let init = ms.drop_last();
        lemma_sent_by_complete(init, c);
        let rest = sent_by(init, c);
        assert forall|m: MessageView|
            #[trigger] sent_by(ms, c).contains(m) <==> (ms.contains(m) && m.sender == c) by {
            let last = ms.len() - 1;
            if sent_by(ms, c).contains(m) {
                if rest.contains(m) {
                    let i = choose|i: int| 0 <= i < init.len() && init[i] == m;
                    assert(ms[i] == m);
                } else {
                    let k = choose|k: int| 0 <= k < sent_by(ms, c).len() && sent_by(ms, c)[k] == m;
                    assert(k == rest.len());
                    assert(ms[last] == m);
                }
            }
            if ms.contains(m) && m.sender == c {
                let i = choose|i: int| 0 <= i < ms.len() && ms[i] == m;
                if i < last {
                    assert(init[i] == m);
                    let k = choose|k: int| 0 <= k < rest.len() && rest[k] == m;
                    assert(sent_by(ms, c)[k] == m);
                } else {
                    assert(sent_by(ms, c)[rest.len() as int] == m);
                }
            }
        }
    }
}

/// The messages listed for `c` are exactly those, in any queue, whose
/// sender is `c`.
pub proof fn lemma_messages_of_complete(qs: Seq<QueueView>, c: ClientId)
    ensures
        forall|m: MessageView|
            #[trigger] messages_of(qs, c).contains(m) <==> (m.sender == c && exists|i: int|
                0 <= i < qs.len() && qs[i].messages.contains(m)),
    decreases qs.len(),
{
    if qs.len() > 0 {
        let init = qs.drop_last();
        let last = qs.len() - 1;
        lemma_messages_of_complete(init, c);
        lemma_sent_by_complete(qs[last].messages, c);
        let rest = messages_of(init, c);
        let tail = sent_by(qs[last].messages, c);
        assert forall|m: MessageView|
            #[trigger] messages_of(qs, c).contains(m) <==> (m.sender == c && exists|i: int|
                0 <= i < qs.len() && qs[i].messages.contains(m)) by {
            let all = messages_of(qs, c);
            assert(all == rest + tail);
            if all.contains(m) {
                let k = choose|k: int| 0 <= k < all.len() && all[k] == m;
                if k < rest.len() {
                    assert(rest[k] == m);
                    assert(rest.contains(m));
                    let i = choose|i: int| 0 <= i < init.len() && init[i].messages.contains(m);
                    assert(qs[i] == init[i]);
                } else {
                    assert(tail[k - rest.len()] == m);
                    assert(tail.contains(m));
                }
            }
            if m.sender == c && exists|i: int| 0 <= i < qs.len() && qs[i].messages.contains(m) {
                let i = choose|i: int| 0 <= i < qs.len() && qs[i].messages.contains(m);
                if i < last {
                    assert(init[i] == qs[i]);
                    assert(rest.contains(m));
                    let k = choose|k: int| 0 <= k < rest.len() && rest[k] == m;
                    assert(all[k] == m);
                } else {
                    assert(tail.contains(m));
                    let k = choose|k: int| 0 <= k < tail.len() && tail[k] == m;
                    assert(all[rest.len() + k] == m);
                }
            }
        }
    }
}

/// How many messages, over all the queues, `c` sent.
pub open spec fn sent_count(qs: Seq<QueueView>, c: ClientId) -> nat
    decreases qs.len(),
{
    if qs.len() == 0 {
        0
    } else {
        sent_count(qs.drop_last(), c) + qs.last().messages.filter(|m: MessageView| m.sender == c).len()
    }
}

/// The messages of a log that `c` sent are the log filtered by sender: each
/// one once, in the order of the log.
pub proof fn lemma_sent_by_is_filter(ms: Seq<MessageView>, c: ClientId)
    ensures
        sent_by(ms, c) == ms.filter(|m: MessageView| m.sender == c),
    decreases ms.len(),
{
    reveal(Seq::filter);
    if ms.len() > 0 {
        lemma_sent_by_is_filter(ms.drop_last(), c);
    }
}

/// As many messages are listed for `c` as it sent, over all the queues.
pub proof fn lemma_messages_of_count(qs: Seq<QueueView>, c: ClientId)
    ensures
        messages_of(qs, c).len() == sent_count(qs, c),
    decreases qs.len(),
{
    if qs.len() > 0 {
        lemma_messages_of_count(qs.drop_last(), c);
        lemma_sent_by_is_filter(qs.last().messages, c);
    }
}

/// Across queues with distinct names, a client's log lists every queue it
/// publishes to and every queue it subscribes to, each once, and every
/// message it sent, as many times as it sent it, and nothing else.
pub proof fn lemma_client_log(qs: Seq<QueueView>, c: ClientId)
    requires
        names_distinct(qs),
    ensures
        forall|n: Seq<char>|
            #[trigger] publisher_of(qs, c).contains(n) <==> exists|i: int|
                0 <= i < qs.len() && qs[i].name == n && qs[i].publishers.contains(c),
        forall|n: Seq<char>|
            #[trigger] subscriber_of(qs, c).contains(n) <==> exists|i: int|
                0 <= i < qs.len() && qs[i].name == n && qs[i].subscribers.contains(c),
        publisher_of(qs, c).no_duplicates(),
        subscriber_of(qs, c).no_duplicates(),
        forall|m: MessageView|
            #[trigger] messages_of(qs, c).contains(m) <==> (m.sender == c && exists|i: int|
                0 <= i < qs.len() && qs[i].messages.contains(m)),
        messages_of(qs, c).len() == sent_count(qs, c),
{
    lemma_messages_of_count(qs, c);
    lemma_member_of_complete(qs, c, true);
    lemma_member_of_complete(qs, c, false);
    lemma_member_of_distinct(qs, c, true);
    lemma_member_of_distinct(qs, c, false);
    lemma_messages_of_complete(qs, c);
}

} // verus!
