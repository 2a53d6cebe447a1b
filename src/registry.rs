//! The shared roster of identified connections and the broadcast over it.
use vstd::prelude::*;

verus! {

/// Identity of one live connection: the peer's address (IPv4 addresses are
/// held in their IPv6-mapped form) and port.
#[derive(Clone, Copy, PartialEq, Eq, Structural, Hash, Debug)]
pub struct EndpointId {
    pub addr: u128,
    pub port: u16,
}

/// One registered client: its identity, display name and outbound handle.
struct Entry<H> {
    id: EndpointId,
    name: String,
    handle: H,
}

/// The roster of identified connections, at most one entry per identity.
pub struct Registry<H> {
    entries: Vec<Entry<H>>,
}

/// What a broadcast did for one recipient: whom it addressed and whether the
/// send reported success.
#[derive(Clone, Copy, PartialEq, Eq, Structural, Debug)]
pub struct Delivery {
    pub id: EndpointId,
    pub delivered: bool,
}

/// `send`, called on handle `h` with some text whose characters are `msg`,
/// may have returned `ok`.
pub open spec fn sent<H, F: Fn(&H, &str) -> bool>(send: F, h: H, msg: Seq<char>, ok: bool) -> bool {
    exists|m: &str| m@ == msg && #[trigger] send.ensures((&h, m), ok)
}

/// The identities that a report addresses, in its order.
pub open spec fn report_ids(report: Seq<Delivery>) -> Seq<EndpointId> {
    report.map_values(|d: Delivery| d.id)
}

impl<H> Registry<H> {
    /// The identities of the entries, in their order.
    pub closed spec fn ids(&self) -> Seq<EndpointId> {
        self.entries@.map_values(|e: Entry<H>| e.id)
    }

    /// The position of the entry that holds `id`.
    closed spec fn pos_of(&self, id: EndpointId) -> int {
        choose|i: int| 0 <= i < self.entries@.len() && self.entries@[i].id == id
    }

    /// No two entries share an identity.
    pub closed spec fn wf(&self) -> bool {
        self.ids().no_duplicates()
    }

    proof fn lemma_view_at(&self, i: int)
        requires
            self.wf(),
            0 <= i < self.entries@.len(),
        ensures
            self@.contains_key(self.entries@[i].id),
            self@[self.entries@[i].id] == (self.entries@[i].name@, self.entries@[i].handle),
    {
        let id = self.entries@[i].id;
        assert(self.ids()[i] == id);
        let j = self.pos_of(id);
        assert(self.ids()[j] == id);
    }

    proof fn lemma_dom(&self)
        requires
            self.wf(),
        ensures
            self@.dom() == self.ids().to_set(),
            self@.len() == self.entries@.len(),
    {
        assert forall|id: EndpointId| self.ids().contains(id) implies self@.contains_key(id) by {
            let i = choose|i: int| 0 <= i < self.ids().len() && self.ids()[i] == id;
            self.lemma_view_at(i);
        }
        assert(self@.dom() =~= self.ids().to_set());
        self.ids().unique_seq_to_set();
    }

    pub fn new() -> (r: Self)
        ensures
            r.wf(),
            r@ == Map::<EndpointId, (Seq<char>, H)>::empty(),
    {
        let r = Registry { entries: Vec::new() };
        assert(r@ =~= Map::<EndpointId, (Seq<char>, H)>::empty());
        r
    }

    /// The number of registered clients.
    pub fn len(&self) -> (r: usize)
        requires
            self.wf(),
        ensures
            r == self@.len(),
    {
        proof {
            self.lemma_dom();
        }
        self.entries.len()
    }

    fn find(&self, id: EndpointId) -> (r: Option<usize>)
        requires
            self.wf(),
        ensures
            r is None <==> !self@.contains_key(id),
            r matches Some(i) ==> i < self.entries@.len() && self.entries@[i as int].id == id,
    {
        proof {
            self.lemma_dom();
        }
        let mut i: usize = 0;
        while i < self.entries.len()
            invariant
                i <= self.entries@.len(),
                forall|k: int| 0 <= k < i ==> self.ids()[k] != id,
            decreases self.entries@.len() - i,
        {
            if self.entries[i].id == id {
                assert(self.ids()[i as int] == id);
                return Some(i);
            }
            i = i + 1;
        }
        assert(!self.ids().contains(id));
        None
    }

    /// Whether `id` is registered.
    pub fn contains(&self, id: EndpointId) -> (r: bool)
        requires
            self.wf(),
        ensures
            r == self@.contains_key(id),
    {
        self.find(id).is_some()
    }

    /// Adds the client `id`, which must not be registered yet, under `name`
    /// with its outbound `handle`.
    pub fn register(&mut self, id: EndpointId, name: String, handle: H)
        requires
            old(self).wf(),
            !old(self)@.contains_key(id),
        ensures
            final(self).wf(),
            final(self)@ == old(self)@.insert(id, (name@, handle)),
    {
        proof {
            self.lemma_dom();
        }
        let ghost pre = *self;
        self.entries.push(Entry { id, name, handle });
        proof {
            assert(self.ids() =~= pre.ids().push(id));
            let n = pre.entries@.len() as int;
            assert forall|k: EndpointId| #[trigger] self@.contains_key(k) implies pre@.insert(id, (name@, handle)).contains_key(k) by {
                let j = choose|j: int| 0 <= j < self.ids().len() && self.ids()[j] == k;
                if j < n {
                    assert(pre.ids()[j] == k);
                }
            }
            assert forall|k: EndpointId| #[trigger] pre@.insert(id, (name@, handle)).contains_key(k) implies
                self@.contains_key(k) && self@[k] == pre@.insert(id, (name@, handle))[k] by {
                if k == id {
                    self.lemma_view_at(n);
                } else {
                    let j = choose|j: int| 0 <= j < pre.ids().len() && pre.ids()[j] == k;
                    pre.lemma_view_at(j);
                    self.lemma_view_at(j);
                }
            }
            assert(self@ =~= pre@.insert(id, (name@, handle)));
        }
    }

    /// Removes the client `id` and gives back its display name; an identity
    /// that is not registered leaves the roster as it was and gives `None`.
    pub fn unregister(&mut self, id: EndpointId) -> (r: Option<String>)
        requires
            old(self).wf(),
        ensures
            final(self).wf(),
            old(self)@.contains_key(id) ==> (r matches Some(n) && n@ == old(self)@[id].0
                && final(self)@ == old(self)@.remove(id)),
            !old(self)@.contains_key(id) ==> r is None && final(self)@ == old(self)@,
    {
        match self.find(id) {
            None => None,
            Some(i) => {
                let ghost pre = *self;
                proof {
                    pre.lemma_view_at(i as int);
                }
                let e = self.entries.remove(i);
                proof {
                    assert(self.ids() =~= pre.ids().remove(i as int));
                    assert forall|k: EndpointId| #[trigger] self@.contains_key(k) implies pre@.remove(id).contains_key(k)
                        && self@[k] == pre@.remove(id)[k] by {
                        let j = choose|j: int| 0 <= j < self.ids().len() && self.ids()[j] == k;
                        self.lemma_view_at(j);
                        assert(pre.ids()[i as int] == id);
                        if j < i {
                            assert(pre.ids()[j] == k);
                            pre.lemma_view_at(j);
                        } else {
                            assert(pre.ids()[j + 1] == k);
                            pre.lemma_view_at(j + 1);
                        }
                    }
                    assert forall|k: EndpointId| #[trigger] pre@.remove(id).contains_key(k) implies self@.contains_key(k) by {
                        let j = choose|j: int| 0 <= j < pre.ids().len() && pre.ids()[j] == k;
                        if j < i {
                            assert(self.ids()[j] == k);
                        } else {
                            assert(self.ids()[j - 1] == k);
                        }
                    }
                    assert(self@ =~= pre@.remove(id));
                }
                Some(e.name)
            },
        }
    }
}

impl<H> Registry<H> {
    /// The identities registered other than `excluding`, each once.
    pub fn snapshot_others(&self, excluding: EndpointId) -> (r: Vec<EndpointId>)
        requires
            self.wf(),
        ensures
            r@.no_duplicates(),
            r@.to_set() == self@.dom().remove(excluding),
    {
        let mut r: Vec<EndpointId> = Vec::new();
        let mut i: usize = 0;
        let ghost mut pos: Seq<int> = Seq::empty();
        while i < self.entries.len()
            invariant
                self.wf(),
                i <= self.entries@.len(),
                pos.len() == r@.len(),
                forall|k: int| 0 <= k < pos.len() ==> 0 <= #[trigger] pos[k] < i
                    && self.ids()[pos[k]] == r@[k] && r@[k] != excluding,
                forall|a: int, b: int| 0 <= a < b < pos.len() ==> pos[a] < pos[b],
                forall|j: int| 0 <= j < i && #[trigger] self.ids()[j] != excluding
                    ==> exists|k: int| 0 <= k < pos.len() && pos[k] == j,
            decreases self.entries@.len() - i,
        {
            let ghost pos0 = pos;
            let id = self.entries[i].id;
            if id != excluding {
                proof {
                    pos = pos.push(i as int);
                }
                r.push(id);
                assert(pos[pos.len() - 1] == i as int);
            }
            proof {
                assert forall|j: int| 0 <= j < i + 1 && #[trigger] self.ids()[j] != excluding
                    implies exists|k: int| 0 <= k < pos.len() && pos[k] == j by {
                    if j < i {
                        let k = choose|k: int| 0 <= k < pos0.len() && pos0[k] == j;
                        assert(pos[k] == j);
                    } else {
                        assert(pos[pos.len() - 1] == j);
                    }
                }
            }
            i = i + 1;
        }
        proof {
            assert forall|a: int, b: int| 0 <= a < r@.len() && 0 <= b < r@.len() && a != b
                implies r@[a] != r@[b] by {
                if a < b {
                    assert(pos[a] < pos[b]);
                } else {
                    assert(pos[b] < pos[a]);
                }
            }
            self.lemma_dom();
            assert forall|id: EndpointId| #[trigger] r@.to_set().contains(id)
                == self@.dom().remove(excluding).contains(id) by {
                if r@.contains(id) {
                    let k = choose|k: int| 0 <= k < r@.len() && r@[k] == id;
                    assert(self.ids()[pos[k]] == id);
                }
                if self.ids().contains(id) && id != excluding {
                    let j = choose|j: int| 0 <= j < self.ids().len() && self.ids()[j] == id;
                    let k = choose|k: int| 0 <= k < pos.len() && pos[k] == j;
                    assert(r@[k] == id);
                }
            }
            assert(r@.to_set() =~= self@.dom().remove(excluding));
        }
        r
    }

    /// Sends `msg` to every registered client but `excluding`, once each, in
    /// the roster's order, and reports the outcome of each send. A failed
    /// send neither stops the others nor removes its recipient.
    pub fn broadcast<F: Fn(&H, &str) -> bool>(&self, msg: &str, excluding: EndpointId, send: F) -> (report: Vec<Delivery>)
        requires
            self.wf(),
            forall|h: &H, m: &str| send.requires((h, m)),
        ensures
            report_ids(report@).no_duplicates(),
            report_ids(report@).to_set() == self@.dom().remove(excluding),
            report@.len() == self@.dom().remove(excluding).len(),
            forall|k: int| 0 <= k < report@.len()
                ==> sent(send, self@[#[trigger] report@[k].id].1, msg@, report@[k].delivered),
    {
        let mut report: Vec<Delivery> = Vec::new();
        let mut i: usize = 0;
        let ghost mut pos: Seq<int> = Seq::empty();
        while i < self.entries.len()
            invariant
                self.wf(),
                i <= self.entries@.len(),
                forall|h: &H, m: &str| send.requires((h, m)),
                pos.len() == report@.len(),
                forall|k: int| 0 <= k < pos.len() ==> 0 <= #[trigger] pos[k] < i
                    && self.ids()[pos[k]] == report@[k].id && report@[k].id != excluding
                    && sent(send, self.entries@[pos[k]].handle, msg@, report@[k].delivered),
                forall|a: int, b: int| 0 <= a < b < pos.len() ==> pos[a] < pos[b],
                forall|j: int| 0 <= j < i && #[trigger] self.ids()[j] != excluding
                    ==> exists|k: int| 0 <= k < pos.len() && pos[k] == j,
            decreases self.entries@.len() - i,
        {
            let ghost pos0 = pos;
            let e = &self.entries[i];
            if e.id != excluding {
                let delivered = send(&e.handle, msg);
                proof {
                    assert(sent(send, e.handle, msg@, delivered));
                    pos = pos.push(i as int);
                }
                report.push(Delivery { id: e.id, delivered });
            }
            proof {
                assert forall|j: int| 0 <= j < i + 1 && #[trigger] self.ids()[j] != excluding
                    implies exists|k: int| 0 <= k < pos.len() && pos[k] == j by {
                    if j < i {
                        let k = choose|k: int| 0 <= k < pos0.len() && pos0[k] == j;
                        assert(pos[k] == j);
                    } else {
                        assert(pos[pos.len() - 1] == j);
                    }
                }
            }
            i = i + 1;
        }
        proof {
            let ids = report_ids(report@);
            assert forall|a: int, b: int| 0 <= a < ids.len() && 0 <= b < ids.len() && a != b
                implies ids[a] != ids[b] by {
                if a < b {
                    assert(pos[a] < pos[b]);
                } else {
                    assert(pos[b] < pos[a]);
                }
            }
            self.lemma_dom();
            assert forall|id: EndpointId| #[trigger] ids.to_set().contains(id)
                == self@.dom().remove(excluding).contains(id) by {
                if ids.contains(id) {
                    let k = choose|k: int| 0 <= k < ids.len() && ids[k] == id;
                    assert(self.ids()[pos[k]] == id);
                }
                if self.ids().contains(id) && id != excluding {
                    let j = choose|j: int| 0 <= j < self.ids().len() && self.ids()[j] == id;
                    let k = choose|k: int| 0 <= k < pos.len() && pos[k] == j;
                    assert(ids[k] == id);
                }
            }
            assert(ids.to_set() =~= self@.dom().remove(excluding));
            ids.unique_seq_to_set();
            assert forall|k: int| 0 <= k < report@.len()
                implies sent(send, self@[#[trigger] report@[k].id].1, msg@, report@[k].delivered) by {
                self.lemma_view_at(pos[k]);
            }
        }
        report
    }
}

impl<H> View for Registry<H> {
    /// Each registered identity mapped to its display name and handle.
    type V = Map<EndpointId, (Seq<char>, H)>;

    closed spec fn view(&self) -> Map<EndpointId, (Seq<char>, H)> {
        Map::new(
            |id: EndpointId| self.ids().contains(id),
            |id: EndpointId|
                (self.entries@[self.pos_of(id)].name@, self.entries@[self.pos_of(id)].handle),
        )
    }
}

} // verus!
