//! Callers, identified by the network endpoint they speak from.

use vstd::prelude::*;

verus! {

/// What identifies a client: its host and its port.
pub type ClientId = (Seq<char>, u64);

/// A caller, identified by host and port.
#[derive(Debug, Clone)]
pub struct Client {
    host: String,
    port: u64,
}

impl View for Client {
    type V = ClientId;

    closed spec fn view(&self) -> ClientId {
        (self.host@, self.port)
    }
}

/// The identities of a sequence of clients, in order.
pub open spec fn ids_of(s: Seq<Client>) -> Seq<ClientId> {
    s.map_values(|c: Client| c@)
}

impl Client {
    pub fn new(host: String, port: u64) -> (r: Client)
        ensures
            r@ == (host@, port),
    {
        Client { host, port }
    }

    pub fn host(&self) -> (r: &String)
        ensures
            r@ == self@.0,
    {
        &self.host
    }

    pub fn port(&self) -> (r: u64)
        ensures
            r == self@.1,
    {
        self.port
    }

    /// A copy of this client with the same identity.
    pub fn duplicate(&self) -> (r: Client)
        ensures
            r@ == self@,
    {
        Client { host: self.host.clone(), port: self.port }
    }

    /// Whether both clients speak from the same endpoint.
    pub fn same(&self, other: &Client) -> (r: bool)
        ensures
            r == (self@ == other@),
    {
        self.port == other.port && self.host == other.host
    }
}

impl PartialEq for Client {
    fn eq(&self, other: &Client) -> (r: bool) {
        self.same(other)
    }
}

impl vstd::std_specs::cmp::PartialEqSpecImpl for Client {
    open spec fn obeys_eq_spec() -> bool {
        true
    }

    open spec fn eq_spec(&self, other: &Client) -> bool {
        self@ == other@
    }
}

/// A copy of a list of clients, with the same identities in the same order.
pub fn copy_clients(v: &Vec<Client>) -> (r: Vec<Client>)
    ensures
        ids_of(r@) == ids_of(v@),
{
    let mut r: Vec<Client> = Vec::new();
    let mut i: usize = 0;
    while i < v.len()
        invariant
            i <= v.len(),
            r.len() == i,
            ids_of(r@) == ids_of(v@.take(i as int)),
        decreases v.len() - i,
    {
        let ghost before = r@;
        let d = v[i].duplicate();
        r.push(d);
        proof {
            let next = v@.take(i + 1);
            assert(next =~= v@.take(i as int).push(v@[i as int]));
            assert forall|k: int| 0 <= k < r@.len() implies #[trigger] ids_of(r@)[k] == ids_of(
                next,
            )[k] by {
                if k < i {
                    assert(ids_of(before)[k] == ids_of(v@.take(i as int))[k]);
                }
            }
            assert(ids_of(r@) =~= ids_of(next));
        }
        i = i + 1;
    }
    assert(v@.take(v.len() as int) =~= v@);
    r
}

/// The first place at which `c` stands in `v`, if it stands there at all.
pub fn position_of(v: &Vec<Client>, c: &Client) -> (r: Option<usize>)
    ensures
        match r {
            Some(i) => i < v.len() && v@[i as int]@ == c@ && forall|j: int|
                0 <= j < i ==> v@[j]@ != c@,
            None => !ids_of(v@).contains(c@),
        },
{
    let mut i: usize = 0;
    while i < v.len()
        invariant
            i <= v.len(),
            forall|j: int| 0 <= j < i ==> v@[j]@ != c@,
        decreases v.len() - i,
    {
        if v[i].same(c) {
            return Some(i);
        }
        i = i + 1;
    }
    proof {
        if ids_of(v@).contains(c@) {
            let k = choose|k: int| 0 <= k < ids_of(v@).len() && ids_of(v@)[k] == c@;
            assert(v@[k]@ == c@);
        }
    }
    None
}

} // verus!

verus! {

/// Appending a client appends its identity.
pub proof fn lemma_ids_push(s: Seq<Client>, c: Client)
    ensures
        ids_of(s.push(c)) == ids_of(s).push(c@),
{
    assert(ids_of(s.push(c)) =~= ids_of(s).push(c@));
}

/// Removing a client removes its identity from the same place.
pub proof fn lemma_ids_remove(s: Seq<Client>, i: int)
    requires
        0 <= i < s.len(),
    ensures
        ids_of(s.remove(i)) == ids_of(s).remove(i),
{
    assert(ids_of(s.remove(i)) =~= ids_of(s).remove(i));
}

/// A list without repeats has none after a new entry is appended.
pub proof fn lemma_push_keeps_distinct<A>(s: Seq<A>, x: A)
    requires
        s.no_duplicates(),
        !s.contains(x),
    ensures
        s.push(x).no_duplicates(),
{
    let r = s.push(x);
    assert forall|a: int, b: int| 0 <= a < r.len() && 0 <= b < r.len() && a != b implies r[a]
        != r[b] by {
        if a == s.len() {
            assert(r[b] == s[b]);
        } else if b == s.len() {
            assert(r[a] == s[a]);
        }
    }
}

/// A list without repeats has none after one of its entries is removed.
pub proof fn lemma_remove_keeps_distinct<A>(s: Seq<A>, i: int)
    requires
        0 <= i < s.len(),
        s.no_duplicates(),
    ensures
        s.remove(i).no_duplicates(),
{
    let r = s.remove(i);
    assert forall|a: int, b: int| 0 <= a < r.len() && 0 <= b < r.len() && a != b implies r[a]
        != r[b] by {
        let sa = if a < i { a } else { a + 1 };
        let sb = if b < i { b } else { b + 1 };
        assert(r[a] == s[sa]);
        assert(r[b] == s[sb]);
    }
}

} // verus!
