use vstd::prelude::*;

verus! {

/// Identity of one running service instance.
pub type Sid = u64;

/// What the registry knows of one service, as plain mathematical values.
pub struct ServiceEntry<C> {
    pub sid: Sid,
    pub name: Seq<char>,
    /// `None` for a placeholder entry: whatever is sent to it is discarded.
    pub send: Option<C>,
    pub topics: Set<Seq<char>>,
}

/// The set of topics named in a list of subscriptions.
pub open spec fn topic_set(v: Seq<String>) -> Set<Seq<char>> {
    Set::new(|t: Seq<char>| exists|i: int| 0 <= i < v.len() && v[i]@ == t)
}

/// The topic that exclusive broadcasts go to.
pub open spec fn share_topic() -> Seq<char> {
    "/display"@
}

/// The name a placeholder entry carries until its service registers.
pub open spec fn placeholder_name() -> Seq<char> {
    "no name yet"@
}

/// One registered service: its identity, its outbound channel and the
/// topics it listens to.
pub struct ServiceWrapper<C> {
    pub sid: Sid,
    pub name: String,
    pub send: Option<C>,
    pub subscriptions: Vec<String>,
}

impl<C> View for ServiceWrapper<C> {
    type V = ServiceEntry<C>;

    open spec fn view(&self) -> ServiceEntry<C> {
        ServiceEntry {
            sid: self.sid,
            name: self.name@,
            send: self.send,
            topics: topic_set(self.subscriptions@),
        }
    }
}

/// Some entry of `es` belongs to `sid`.
pub open spec fn has_sid<C>(es: Seq<ServiceEntry<C>>, sid: Sid) -> bool {
    exists|i: int| 0 <= i < es.len() && es[i].sid == sid
}

/// The position of `sid` in `es`; meaningful where `has_sid(es, sid)`.
pub open spec fn index_of<C>(es: Seq<ServiceEntry<C>>, sid: Sid) -> int {
    choose|i: int| 0 <= i < es.len() && es[i].sid == sid
}

/// No two entries share an identity.
pub open spec fn sids_unique<C>(es: Seq<ServiceEntry<C>>) -> bool {
    forall|i: int, j: int| 0 <= i < es.len() && 0 <= j < es.len() && i != j ==> es[i].sid != es[j].sid
}

/// The registry after `Channel(sid, name, send)`: a known service gets the
/// new channel and name and keeps its topics; an unknown one is appended
/// with no topics.
pub open spec fn register_spec<C>(es: Seq<ServiceEntry<C>>, sid: Sid, name: Seq<char>, send: C) -> Seq<ServiceEntry<C>> {
    if has_sid(es, sid) {
        let i = index_of(es, sid);
        es.update(i, ServiceEntry { sid, name, send: Some(send), topics: es[i].topics })
    } else {
        es.push(ServiceEntry { sid, name, send: Some(send), topics: Set::empty() })
    }
}

/// The registry with an entry for `sid`, a placeholder appended if it had none.
pub open spec fn ensure_entry<C>(es: Seq<ServiceEntry<C>>, sid: Sid) -> Seq<ServiceEntry<C>> {
    if has_sid(es, sid) {
        es
    } else {
        es.push(ServiceEntry { sid, name: placeholder_name(), send: None, topics: Set::empty() })
    }
}

/// The registry after `Subscribe(sid, topic)`.
pub open spec fn subscribe_spec<C>(es: Seq<ServiceEntry<C>>, sid: Sid, topic: Seq<char>) -> Seq<ServiceEntry<C>> {
    let es1 = ensure_entry(es, sid);
    let i = index_of(es1, sid);
    es1.update(i, ServiceEntry { topics: es1[i].topics.insert(topic), ..es1[i] })
}

/// The registry after `Unsubscribe(sid, topic)`; an unknown service is ignored.
pub open spec fn unsubscribe_spec<C>(es: Seq<ServiceEntry<C>>, sid: Sid, topic: Seq<char>) -> Seq<ServiceEntry<C>> {
    if has_sid(es, sid) {
        let i = index_of(es, sid);
        es.update(i, ServiceEntry { topics: es[i].topics.remove(topic), ..es[i] })
    } else {
        es
    }
}

/// The services subscribed to `topic`, in registry order.
pub open spec fn subscribers<C>(es: Seq<ServiceEntry<C>>, topic: Seq<char>) -> Seq<Sid>
    decreases es.len(),
{
    if es.len() == 0 {
        Seq::empty()
    } else {
        let rest = subscribers(es.drop_last(), topic);
        if es.last().topics.contains(topic) {
            rest.push(es.last().sid)
        } else {
            rest
        }
    }
}

/// The receiver of an exclusive broadcast: the first subscriber of the share topic.
pub open spec fn share_target<C>(es: Seq<ServiceEntry<C>>) -> Option<Sid> {
    let s = subscribers(es, share_topic());
    if s.len() > 0 {
        Some(s[0])
    } else {
        None
    }
}

/// The registry of services that the broker owns and routes through.
pub struct Broker<C> {
    pub services: Vec<ServiceWrapper<C>>,
}

impl<C> View for Broker<C> {
    type V = Seq<ServiceEntry<C>>;

    open spec fn view(&self) -> Seq<ServiceEntry<C>> {
        self.services@.map_values(|w: ServiceWrapper<C>| w@)
    }
}

proof fn lemma_subscribers_append<C>(a: Seq<ServiceEntry<C>>, b: Seq<ServiceEntry<C>>, topic: Seq<char>)
    ensures
        subscribers(a + b, topic) == subscribers(a, topic) + subscribers(b, topic),
    decreases b.len(),
{
    if b.len() == 0 {
        assert(a + b =~= a);
        assert(subscribers(b, topic) =~= Seq::<Sid>::empty());
        assert(subscribers(a, topic) + subscribers(b, topic) =~= subscribers(a, topic));
    } else {
        lemma_subscribers_append(a, b.drop_last(), topic);
        assert((a + b).drop_last() =~= a + b.drop_last());
        assert((a + b).last() == b.last());
        if b.last().topics.contains(topic) {
            assert(subscribers(a, topic) + subscribers(b.drop_last(), topic).push(b.last().sid)
                =~= (subscribers(a, topic) + subscribers(b.drop_last(), topic)).push(b.last().sid));
        }
    }
}

proof fn lemma_subscribers_prefix<C>(es: Seq<ServiceEntry<C>>, i: int, topic: Seq<char>)
    requires
        0 <= i < es.len(),
    ensures
        subscribers(es.subrange(0, i + 1), topic) == if es[i].topics.contains(topic) {
            subscribers(es.subrange(0, i), topic).push(es[i].sid)
        } else {
            subscribers(es.subrange(0, i), topic)
        },
{
    assert(es.subrange(0, i + 1).drop_last() =~= es.subrange(0, i));
}

/// A publish to `topic` reaches exactly the services subscribed to it,
/// each of them once.
pub proof fn lemma_publish_reaches_exactly_subscribers<C>(es: Seq<ServiceEntry<C>>, topic: Seq<char>)
    requires
        sids_unique(es),
    ensures
        forall|sid: Sid|
            subscribers(es, topic).contains(sid) <==> exists|i: int|
                0 <= i < es.len() && es[i].sid == sid && es[i].topics.contains(topic),
        subscribers(es, topic).no_duplicates(),
    decreases es.len(),
{
    if es.len() > 0 {
        let p = es.drop_last();
        assert forall|i: int, j: int| 0 <= i < p.len() && 0 <= j < p.len() && i != j implies p[i].sid != p[j].sid by {
            assert(es[i].sid != es[j].sid);
        }
        lemma_publish_reaches_exactly_subscribers(p, topic);
        let rest = subscribers(p, topic);
        assert forall|sid: Sid|
            subscribers(es, topic).contains(sid) <==> exists|i: int|
                0 <= i < es.len() && es[i].sid == sid && es[i].topics.contains(topic) by {
            if subscribers(es, topic).contains(sid) {
                if rest.contains(sid) {
                    let i = choose|i: int| 0 <= i < p.len() && p[i].sid == sid && p[i].topics.contains(topic);
                    assert(es[i] == p[i]);
                } else {
                    assert(es.last().topics.contains(topic));
                    assert(sid == es.last().sid) by {
                        let k = choose|k: int| 0 <= k < subscribers(es, topic).len() && subscribers(es, topic)[k] == sid;
                        if k < rest.len() {
                            assert(rest[k] == sid);
                        }
                    }
                    assert(es[es.len() - 1].sid == sid);
                }
            }
            if exists|i: int| 0 <= i < es.len() && es[i].sid == sid && es[i].topics.contains(topic) {
                let i = choose|i: int| 0 <= i < es.len() && es[i].sid == sid && es[i].topics.contains(topic);
                if i < p.len() {
                    assert(p[i] == es[i]);
                    assert(rest.contains(sid));
                    let k = choose|k: int| 0 <= k < rest.len() && rest[k] == sid;
                    assert(subscribers(es, topic)[k] == sid);
                } else {
                    assert(subscribers(es, topic) == rest.push(sid));
                    assert(subscribers(es, topic)[rest.len() as int] == sid);
                }
            }
        }
        if es.last().topics.contains(topic) {
            let last = es.last().sid;
            assert(!rest.contains(last)) by {
                if rest.contains(last) {
                    let i = choose|i: int| 0 <= i < p.len() && p[i].sid == last && p[i].topics.contains(topic);
                    assert(es[i].sid == es[es.len() - 1].sid);
                }
            }
            assert forall|a: int, b: int| 0 <= a < rest.len() + 1 && 0 <= b < rest.len() + 1 && a != b
                implies rest.push(last)[a] != rest.push(last)[b] by {
                if a == rest.len() {
                    assert(rest.contains(rest[b]));
                } else if b == rest.len() {
                    assert(rest.contains(rest[a]));
                }
            }
        }
    }
}

proof fn lemma_register_keeps_unique<C>(es: Seq<ServiceEntry<C>>, sid: Sid, name: Seq<char>, send: C)
    requires
        sids_unique(es),
    ensures
        sids_unique(register_spec(es, sid, name, send)),
        has_sid(register_spec(es, sid, name, send), sid),
{
    let r = register_spec(es, sid, name, send);
    if has_sid(es, sid) {
        let i = index_of(es, sid);
        assert(r[i].sid == sid);
    } else {
        assert(r[es.len() as int].sid == sid);
    }
}

proof fn lemma_subscribe_keeps_unique<C>(es: Seq<ServiceEntry<C>>, sid: Sid, topic: Seq<char>)
    requires
        sids_unique(es),
    ensures
        sids_unique(subscribe_spec(es, sid, topic)),
        has_sid(subscribe_spec(es, sid, topic), sid),
        subscribe_spec(es, sid, topic)[index_of(subscribe_spec(es, sid, topic), sid)].topics.contains(topic),
{
    let es1 = ensure_entry(es, sid);
    if !has_sid(es, sid) {
        assert(es1[es.len() as int].sid == sid);
    }
    assert(has_sid(es1, sid));
    let i = index_of(es1, sid);
    let r = subscribe_spec(es, sid, topic);
    assert(r[i].sid == sid);
    assert(has_sid(r, sid));
    let k = index_of(r, sid);
    assert(k == i);
}

/// A service that registers its channel, subscribes to a topic and then
/// registers a new channel stays among the topic's subscribers, and
/// deliveries go to the new channel.
pub proof fn lemma_reregistration_keeps_interest<C>(
    es: Seq<ServiceEntry<C>>,
    sid: Sid,
    first_name: Seq<char>,
    first: C,
    topic: Seq<char>,
    second_name: Seq<char>,
    second: C,
)
    requires
        sids_unique(es),
    ensures
        ({
            let after = register_spec(
                subscribe_spec(register_spec(es, sid, first_name, first), sid, topic),
                sid,
                second_name,
                second,
            );
            &&& subscribers(after, topic).contains(sid)
            &&& has_sid(after, sid)
            &&& after[index_of(after, sid)].send == Some(second)
        }),
{
    let es1 = register_spec(es, sid, first_name, first);
    lemma_register_keeps_unique(es, sid, first_name, first);
    let es2 = subscribe_spec(es1, sid, topic);
    lemma_subscribe_keeps_unique(es1, sid, topic);
    let i = index_of(es2, sid);
    let after = register_spec(es2, sid, second_name, second);
    lemma_register_keeps_unique(es2, sid, second_name, second);
    assert(after[i].sid == sid);
    assert(index_of(after, sid) == i);
    lemma_publish_reaches_exactly_subscribers(after, topic);
}

impl<C> Broker<C> {
    pub open spec fn wf(&self) -> bool {
        sids_unique(self@)
    }

    pub fn new() -> (r: Broker<C>)
        ensures
            r@ == Seq::<ServiceEntry<C>>::empty(),
            r.wf(),
    {
        let r = Broker { services: Vec::new() };
        assert(r@ =~= Seq::<ServiceEntry<C>>::empty());
        r
    }

    /// The position of the entry for `sid`, if there is one.
    pub fn find(&self, sid: Sid) -> (r: Option<usize>)
        requires
            self.wf(),
        ensures
            match r {
                Some(i) => i < self@.len() && self@[i as int].sid == sid && index_of(self@, sid) == i,
                None => !has_sid(self@, sid),
            },
    {
        let mut i: usize = 0;
        while i < self.services.len()
            invariant
                i <= self.services@.len(),
                self.wf(),
                forall|j: int| 0 <= j < i ==> self@[j].sid != sid,
            decreases self.services@.len() - i,
        {
            if self.services[i].sid == sid {
                proof {
                    assert(self@[i as int].sid == sid);
                    assert(has_sid(self@, sid));
                    let k = index_of(self@, sid);
                    assert(self@[k].sid == sid);
                }
                return Some(i);
            }
            i = i + 1;
        }
        None
    }

    /// Registers `send` as the channel of `sid`. A service that registers
    /// again keeps the topics it subscribed to.
    pub fn register_channel(&mut self, sid: Sid, name: String, send: C)
        requires
            old(self).wf(),
        ensures
            final(self).wf(),
            final(self)@ == register_spec(old(self)@, sid, name@, send),
    {
        let ghost es = self@;
        match self.find(sid) {
            Some(i) => {
                self.services[i].name = name;
                self.services[i].send = Some(send);
                assert(self@ =~= register_spec(es, sid, name@, send));
            },
            None => {
                self.services.push(ServiceWrapper { sid, name, send: Some(send), subscriptions: Vec::new() });
                assert(topic_set(Seq::<String>::empty()) =~= Set::<Seq<char>>::empty());
                assert(self@ =~= register_spec(es, sid, name@, send));
            },
        }
    }

    /// Adds `topic` to the interests of `sid`. A subscription that arrives
    /// before the service's channel creates a placeholder entry, so that it
    /// is not lost; the result says whether that happened, for the caller
    /// to report.
    pub fn subscribe(&mut self, sid: Sid, topic: String) -> (placeholder: bool)
        requires
            old(self).wf(),
        ensures
            final(self).wf(),
            final(self)@ == subscribe_spec(old(self)@, sid, topic@),
            placeholder == !has_sid(old(self)@, sid),
    {
        let mut placeholder = false;
        let ghost es = self@;
        let i = match self.find(sid) {
            Some(i) => i,
            None => {
                let name = String::from_str("no name yet");
                placeholder = true;
                self.services.push(ServiceWrapper { sid, name, send: None, subscriptions: Vec::new() });
                assert(topic_set(Seq::<String>::empty()) =~= Set::<Seq<char>>::empty());
                assert(self@ =~= ensure_entry(es, sid));
                assert(self@[self@.len() - 1].sid == sid);
                self.services.len() - 1
            },
        };
        let ghost es1 = self@;
        assert(es1 == ensure_entry(es, sid));
        assert(index_of(es1, sid) == i) by {
            assert(es1[i as int].sid == sid);
        }
        let ghost before = self.services@[i as int].subscriptions@;
        if !contains_topic(&self.services[i].subscriptions, &topic) {
            let ghost tv = topic@;
            self.services[i].subscriptions.push(topic);
            assert(topic_set(before.push(self.services@[i as int].subscriptions@.last())) =~= topic_set(before).insert(tv)) by {
                let after = before.push(self.services@[i as int].subscriptions@.last());
                assert(after[before.len() as int]@ == tv);
                assert forall|t: Seq<char>| topic_set(before).contains(t) implies topic_set(after).contains(t) by {
                    let j = choose|j: int| 0 <= j < before.len() && before[j]@ == t;
                    assert(after[j] == before[j]);
                }
            }
            assert(self.services@[i as int].subscriptions@ =~= before.push(self.services@[i as int].subscriptions@.last()));
        } else {
            assert(topic_set(before) =~= topic_set(before).insert(topic@));
        }
        assert(self@ =~= subscribe_spec(es, sid, topic@));
        placeholder
    }

    /// Removes `topic` from the interests of `sid`; a service that never
    /// registered is left alone.
    pub fn unsubscribe(&mut self, sid: Sid, topic: &String)
        requires
            old(self).wf(),
        ensures
            final(self).wf(),
            final(self)@ == unsubscribe_spec(old(self)@, sid, topic@),
    {
        let ghost es = self@;
        if let Some(i) = self.find(sid) {
            let kept = without_topic(&self.services[i].subscriptions, topic);
            self.services[i].subscriptions = kept;
            assert(self@ =~= unsubscribe_spec(es, sid, topic@));
        }
    }

    /// The services that a publish to `topic` is delivered to, in registry
    /// order. Delivery to each is independent of the others.
    pub fn publish(&self, topic: &String) -> (r: Vec<Sid>)
        ensures
            r@ == subscribers(self@, topic@),
    {
        let mut r: Vec<Sid> = Vec::new();
        let mut i: usize = 0;
        while i < self.services.len()
            invariant
                i <= self.services@.len(),
                r@ == subscribers(self@.subrange(0, i as int), topic@),
            decreases self.services@.len() - i,
        {
            proof {
                lemma_subscribers_prefix(self@, i as int, topic@);
            }
            if contains_topic(&self.services[i].subscriptions, topic) {
                r.push(self.services[i].sid);
            }
            i = i + 1;
        }
        assert(self@.subrange(0, self@.len() as int) =~= self@);
        r
    }

    /// The single receiver of an exclusive broadcast: the first service,
    /// in registry order, subscribed to the share topic.
    pub fn publish_exclusive(&self) -> (r: Option<Sid>)
        ensures
            r == share_target(self@),
    {
        let topic = String::from_str("/display");
        let mut i: usize = 0;
        while i < self.services.len()
            invariant
                i <= self.services@.len(),
                topic@ == share_topic(),
                subscribers(self@.subrange(0, i as int), share_topic()).len() == 0,
            decreases self.services@.len() - i,
        {
            proof {
                lemma_subscribers_prefix(self@, i as int, share_topic());
            }
            if contains_topic(&self.services[i].subscriptions, &topic) {
                proof {
                    let head = self@.subrange(0, i as int + 1);
                    let tail = self@.subrange(i as int + 1, self@.len() as int);
                    assert(self@ =~= head + tail);
                    lemma_subscribers_append(head, tail, share_topic());
                    assert(subscribers(head, share_topic()) =~= seq![self@[i as int].sid]);
                }
                return Some(self.services[i].sid);
            }
            i = i + 1;
        }
        assert(self@.subrange(0, self@.len() as int) =~= self@);
        None
    }

    /// The outbound channel of `sid`; `None` for an unknown service or a
    /// placeholder.
    pub fn channel_of(&self, sid: Sid) -> (r: Option<&C>)
        requires
            self.wf(),
        ensures
            has_sid(self@, sid) ==> r.is_some() == self@[index_of(self@, sid)].send.is_some(),
            r.is_some() ==> *r.unwrap() == self@[index_of(self@, sid)].send.unwrap(),
            !has_sid(self@, sid) ==> r.is_none(),
    {
        match self.find(sid) {
            Some(i) => match &self.services[i].send {
                Some(c) => Some(c),
                None => None,
            },
            None => None,
        }
    }
}

/// `topic` is among `subs`.
fn contains_topic(subs: &Vec<String>, topic: &String) -> (r: bool)
    ensures
        r == topic_set(subs@).contains(topic@),
{
    let mut i: usize = 0;
    while i < subs.len()
        invariant
            i <= subs@.len(),
            forall|j: int| 0 <= j < i ==> subs@[j]@ != topic@,
        decreases subs@.len() - i,
    {
        if subs[i] == *topic {
            return true;
        }
        i = i + 1;
    }
    false
}

/// `subs` with every occurrence of `topic` left out.
fn without_topic(subs: &Vec<String>, topic: &String) -> (r: Vec<String>)
    ensures
        topic_set(r@) == topic_set(subs@).remove(topic@),
{
    let mut r: Vec<String> = Vec::new();
    let mut i: usize = 0;
    while i < subs.len()
        invariant
            i <= subs@.len(),
            forall|t: Seq<char>| topic_set(r@).contains(t) <==> (t != topic@ && exists|j: int| 0 <= j < i && subs@[j]@ == t),
        decreases subs@.len() - i,
    {
        let ghost before = r@;
        if subs[i] != *topic {
            r.push(subs[i].clone());
            proof {
                assert forall|t: Seq<char>| topic_set(r@).contains(t) <==> (t != topic@ && exists|j: int| 0 <= j < i + 1 && subs@[j]@ == t) by {
                    if topic_set(r@).contains(t) {
                        let k = choose|k: int| 0 <= k < r@.len() && r@[k]@ == t;
                        if k < before.len() {
                            assert(before[k] == r@[k]);
                            assert(topic_set(before).contains(t));
                        }
                    }
                    if t != topic@ && exists|j: int| 0 <= j < i + 1 && subs@[j]@ == t {
                        let j = choose|j: int| 0 <= j < i + 1 && subs@[j]@ == t;
                        if j < i {
                            assert(topic_set(before).contains(t));
                            let k = choose|k: int| 0 <= k < before.len() && before[k]@ == t;
                            assert(r@[k] == before[k]);
                        } else {
                            assert(r@[before.len() as int]@ == t);
                        }
                    }
                }
            }
        } else {
            proof {
                assert forall|t: Seq<char>| topic_set(r@).contains(t) <==> (t != topic@ && exists|j: int| 0 <= j < i + 1 && subs@[j]@ == t) by {
                    if t != topic@ && exists|j: int| 0 <= j < i + 1 && subs@[j]@ == t {
                        let j = choose|j: int| 0 <= j < i + 1 && subs@[j]@ == t;
                        assert(j < i);
                    }
                }
            }
        }
        i = i + 1;
    }
    assert(topic_set(r@) =~= topic_set(subs@).remove(topic@));
    r
}

} // verus!
