//! The event bus: subscriptions in the order in which they were made, and
//! the resolution of a published topic to the subscribers that receive it.

use crate::sequences::{
    lemma_filter_drops_one, lemma_filter_items, lemma_filter_keeps_all, lemma_filter_keeps_order,
    lemma_filter_take_next,
};
use crate::text::same_text;
use crate::value::{Value, ValueModel};
use vstd::prelude::*;
use vstd::string::StringExecFns;

verus! {

/// The name under which a subscription can be cancelled.
#[derive(Clone, Copy, Debug, PartialEq, Eq, Structural)]
pub struct SubscriptionId(pub u64);

/// How a subscription is served.
#[derive(Clone, Copy, Debug, PartialEq, Eq, Structural)]
pub struct SubscriptionOptions {
    /// The subscription ends with the first event that it receives.
    pub once: bool,
}

/// What a subscription is: who subscribed to which topic, and which handler
/// receives the events.
pub struct SubscriptionModel {
    pub id: u64,
    pub topic: Seq<char>,
    pub owner: Option<Seq<char>>,
    pub handler: Seq<char>,
    pub once: bool,
}

/// A topic in its fully-qualified form: the service's path, a slash, and the
/// name of the event.
pub open spec fn qualified(path: Seq<char>, event: Seq<char>) -> Seq<char> {
    path + seq!['/'] + event
}

impl SubscriptionModel {
    /// Whether an event published to `topic` reaches this subscription: the
    /// topic is the one subscribed to, or it is the fully-qualified form of a
    /// topic that the owning service subscribed to in its short form.
    pub open spec fn matches(self, topic: Seq<char>) -> bool {
        self.topic == topic || match self.owner {
            Some(path) => qualified(path, self.topic) == topic,
            None => false,
        }
    }

    /// Whether this is the subscription that `id` names on `topic`.
    pub open spec fn is_named(self, topic: Seq<char>, id: u64) -> bool {
        self.id == id && self.topic == topic
    }

    /// The delivery that an event on `topic` with `payload` makes to this
    /// subscription.
    pub open spec fn delivery(self, topic: Seq<char>, payload: ValueModel) -> DeliveryModel {
        DeliveryModel {
            subscription: self.id,
            owner: self.owner,
            handler: self.handler,
            topic,
            payload,
        }
    }
}

/// The subscriptions that an event on `topic` reaches.
pub open spec fn reaches(topic: Seq<char>) -> spec_fn(SubscriptionModel) -> bool {
    |s: SubscriptionModel| s.matches(topic)
}

/// The subscriptions that stay when an event on `topic` has been published:
/// all but those that it reached and that end with their first event.
pub open spec fn outlasts(topic: Seq<char>) -> spec_fn(SubscriptionModel) -> bool {
    |s: SubscriptionModel| !(s.once && s.matches(topic))
}

/// The subscriptions other than the one that `id` names on `topic`.
pub open spec fn other_than(topic: Seq<char>, id: u64) -> spec_fn(SubscriptionModel) -> bool {
    |s: SubscriptionModel| !s.is_named(topic, id)
}

/// The subscriptions that `owner` does not own.
pub open spec fn not_owned_by(owner: Seq<char>) -> spec_fn(SubscriptionModel) -> bool {
    |s: SubscriptionModel| s.owner != Some(owner)
}

/// One event on its way to one subscriber.
pub struct DeliveryModel {
    pub subscription: u64,
    pub owner: Option<Seq<char>>,
    pub handler: Seq<char>,
    pub topic: Seq<char>,
    pub payload: ValueModel,
}

/// The deliveries that an event on `topic` with `payload` makes to
/// `subscribers`, one each, in their order.
pub open spec fn deliveries_to(
    subscribers: Seq<SubscriptionModel>,
    topic: Seq<char>,
    payload: ValueModel,
) -> Seq<DeliveryModel> {
    Seq::new(subscribers.len(), |i: int| subscribers[i].delivery(topic, payload))
}

/// What an event bus holds.
pub struct BusModel {
    /// The subscriptions, oldest first.
    pub subscriptions: Seq<SubscriptionModel>,
    /// The id that the next subscription gets.
    pub next_id: nat,
}

impl BusModel {
    /// Ids grow with the order of subscription, and none has reached
    /// `next_id`: so no two subscriptions share an id.
    pub open spec fn wf(self) -> bool {
        &&& forall|i: int|
            0 <= i < self.subscriptions.len() ==> (#[trigger] self.subscriptions[i]).id
                < self.next_id
        &&& forall|i: int, j: int|
            0 <= i < j < self.subscriptions.len() ==> (#[trigger] self.subscriptions[i]).id < (
            #[trigger] self.subscriptions[j]).id
    }

    /// The subscribers that an event on `topic` reaches, oldest first.
    pub open spec fn subscribers(self, topic: Seq<char>) -> Seq<SubscriptionModel> {
        self.subscriptions.filter(reaches(topic))
    }

    /// The bus with one more subscription, made last.
    pub open spec fn subscribe(
        self,
        topic: Seq<char>,
        owner: Option<Seq<char>>,
        handler: Seq<char>,
        once: bool,
    ) -> BusModel {
        BusModel {
            subscriptions: self.subscriptions.push(
                SubscriptionModel { id: self.next_id as u64, topic, owner, handler, once },
            ),
            next_id: self.next_id + 1,
        }
    }

    /// The bus without the subscription that `id` names on `topic`.
    pub open spec fn unsubscribe(self, topic: Seq<char>, id: u64) -> BusModel {
        BusModel {
            subscriptions: self.subscriptions.filter(other_than(topic, id)),
            next_id: self.next_id,
        }
    }

    /// The bus after an event on `topic`.
    pub open spec fn publish(self, topic: Seq<char>) -> BusModel {
        BusModel {
            subscriptions: self.subscriptions.filter(outlasts(topic)),
            next_id: self.next_id,
        }
    }

    /// The bus without the subscriptions of `owner`.
    pub open spec fn cancel_owner(self, owner: Seq<char>) -> BusModel {
        BusModel {
            subscriptions: self.subscriptions.filter(not_owned_by(owner)),
            next_id: self.next_id,
        }
    }
}


/// The bus after the handlers `handlers` were subscribed to `topic`, one
/// after the other.
pub open spec fn subscribe_each(
    bus: BusModel,
    topic: Seq<char>,
    owner: Option<Seq<char>>,
    handlers: Seq<Seq<char>>,
    once: bool,
) -> BusModel
    decreases handlers.len(),
{
    if handlers.len() == 0 {
        bus
    } else {
        subscribe_each(bus, topic, owner, handlers.drop_last(), once).subscribe(
            topic,
            owner,
            handlers.last(),
            once,
        )
    }
}

/// The subscriptions that `subscribe_each` makes.
pub open spec fn subscriptions_of(
    first_id: nat,
    topic: Seq<char>,
    owner: Option<Seq<char>>,
    handlers: Seq<Seq<char>>,
    once: bool,
) -> Seq<SubscriptionModel> {
    Seq::new(
        handlers.len(),
        |i: int|
            SubscriptionModel {
                id: (first_id + i) as u64,
                topic,
                owner,
                handler: handlers[i],
                once,
            },
    )
}

/// Handlers that subscribe to a topic one after the other are the last
/// subscribers of that topic, in that order.
pub proof fn lemma_subscribe_each(
    bus: BusModel,
    topic: Seq<char>,
    owner: Option<Seq<char>>,
    handlers: Seq<Seq<char>>,
    once: bool,
)
    requires
        bus.wf(),
        bus.next_id + handlers.len() <= u64::MAX,
    ensures
        subscribe_each(bus, topic, owner, handlers, once).wf(),
        subscribe_each(bus, topic, owner, handlers, once).next_id == bus.next_id + handlers.len(),
        subscribe_each(bus, topic, owner, handlers, once).subscriptions == bus.subscriptions
            + subscriptions_of(bus.next_id, topic, owner, handlers, once),
        subscribe_each(bus, topic, owner, handlers, once).subscribers(topic) == bus.subscribers(
            topic,
        ) + subscriptions_of(bus.next_id, topic, owner, handlers, once),
    decreases handlers.len(),
{
    let after = subscribe_each(bus, topic, owner, handlers, once);
    let made = subscriptions_of(bus.next_id, topic, owner, handlers, once);
    if handlers.len() == 0 {
        assert(after.subscriptions =~= bus.subscriptions + made);
        assert(after.subscribers(topic) =~= bus.subscribers(topic) + made);
    } else {
        let fewer = handlers.drop_last();
        lemma_subscribe_each(bus, topic, owner, fewer, once);
        let before = subscribe_each(bus, topic, owner, fewer, once);
        let made_before = subscriptions_of(bus.next_id, topic, owner, fewer, once);
        let last = SubscriptionModel {
            id: before.next_id as u64,
            topic,
            owner,
            handler: handlers.last(),
            once,
        };
        assert(made =~= made_before.push(last));
        assert(after.subscriptions =~= bus.subscriptions + made);
        before.subscriptions.lemma_filter_push(last, reaches(topic));
        assert(last.matches(topic));
        assert(after.subscribers(topic) =~= bus.subscribers(topic) + made);
    }
}

/// Subscribers are served in the order of subscription, each exactly once:
/// where the handlers `handlers` subscribe to `topic` one after the other, an
/// event published to `topic` makes one delivery to each of them, in that
/// order, behind the deliveries to those that had subscribed before; and
/// where none had, these are all the deliveries.
pub proof fn lemma_publish_serves_in_order(
    bus: BusModel,
    topic: Seq<char>,
    owner: Option<Seq<char>>,
    handlers: Seq<Seq<char>>,
    once: bool,
    payload: ValueModel,
)
    requires
        bus.wf(),
        bus.next_id + handlers.len() <= u64::MAX,
    ensures
        ({
            let after = subscribe_each(bus, topic, owner, handlers, once);
            let made = deliveries_to(after.subscribers(topic), topic, payload);
            let earlier = deliveries_to(bus.subscribers(topic), topic, payload);
            &&& made.len() == earlier.len() + handlers.len()
            &&& made.take(earlier.len() as int) == earlier
            &&& forall|i: int|
                0 <= i < handlers.len() ==> #[trigger] made[earlier.len() + i] == (DeliveryModel {
                    subscription: (bus.next_id + i) as u64,
                    owner,
                    handler: handlers[i],
                    topic,
                    payload,
                })
            &&& bus.subscribers(topic).len() == 0 ==> made.len() == handlers.len()
        }),
{
    lemma_subscribe_each(bus, topic, owner, handlers, once);
    let after = subscribe_each(bus, topic, owner, handlers, once);
    let made = deliveries_to(after.subscribers(topic), topic, payload);
    let earlier = deliveries_to(bus.subscribers(topic), topic, payload);
    assert(made.take(earlier.len() as int) =~= earlier);
}

/// A subscription that a service made in the short form is reached by the
/// fully-qualified form of its topic under the path of that service, and
/// under the path of no other service.
pub proof fn lemma_short_form(subscription: SubscriptionModel, path: Seq<char>)
    requires
        subscription.owner is Some,
    ensures
        subscription.matches(qualified(subscription.owner->0, subscription.topic)),
        subscription.owner->0 != path ==> !subscription.matches(
            qualified(path, subscription.topic),
        ),
{
    let owner = subscription.owner->0;
    let topic = subscription.topic;
    let reached = qualified(path, topic);
    assert(reached.len() == path.len() + 1 + topic.len());
    if qualified(owner, topic) == reached {
        assert(owner.len() == path.len());
        assert(owner =~= qualified(owner, topic).take(owner.len() as int));
        assert(path =~= reached.take(path.len() as int));
    }
}

/// Cancelling a subscription a second time changes nothing, and cancelling
/// one that is not there changes nothing either; a cancellation takes at
/// most one subscription away.
pub proof fn lemma_unsubscribe_twice(bus: BusModel, topic: Seq<char>, id: u64)
    requires
        bus.wf(),
    ensures
        bus.unsubscribe(topic, id).wf(),
        bus.unsubscribe(topic, id).unsubscribe(topic, id) == bus.unsubscribe(topic, id),
        bus.unsubscribe(topic, id).subscriptions.len() + 1 >= bus.subscriptions.len(),
        bus.unsubscribe(topic, id).subscriptions.len() <= bus.subscriptions.len(),
        !(exists|i: int|
            0 <= i < bus.subscriptions.len() && bus.subscriptions[i].is_named(topic, id))
            ==> bus.unsubscribe(topic, id) == bus,
{
    let keep = other_than(topic, id);
    let subs = bus.subscriptions;
    lemma_filter_wf(bus, keep);
    crate::sequences::lemma_filter_twice(subs, keep);
    lemma_filter_items(subs, keep);
    if exists|i: int| 0 <= i < subs.len() && subs[i].is_named(topic, id) {
        let at = choose|i: int| 0 <= i < subs.len() && subs[i].is_named(topic, id);
        assert forall|j: int| 0 <= j < subs.len() && j != at implies keep(#[trigger] subs[j]) by {
            assert(subs[j].id != subs[at].id);
        }
        lemma_filter_drops_one(subs, keep, at);
    } else {
        assert forall|j: int| 0 <= j < subs.len() implies keep(#[trigger] subs[j]) by {}
        lemma_filter_keeps_all(subs, keep);
    }
}

/// The view of an optional text.
pub open spec fn text_of(t: Option<String>) -> Option<Seq<char>> {
    match t {
        Some(s) => Some(s@),
        None => None,
    }
}

/// One subscription on the bus.
pub struct Subscription {
    id: SubscriptionId,
    topic: String,
    owner: Option<String>,
    handler: String,
    options: SubscriptionOptions,
    /// The fully-qualified form of the topic, for a subscription that a
    /// service owns.
    full_topic: Option<String>,
}

impl View for Subscription {
    type V = SubscriptionModel;

    closed spec fn view(&self) -> SubscriptionModel {
        SubscriptionModel {
            id: self.id.0,
            topic: self.topic@,
            owner: text_of(self.owner),
            handler: self.handler@,
            once: self.options.once,
        }
    }
}

impl Subscription {
    #[verifier::type_invariant]
    spec fn inv(&self) -> bool {
        match self.owner {
            Some(path) => self.full_topic matches Some(q) && q@ == qualified(path@, self.topic@),
            None => self.full_topic is None,
        }
    }

    fn new(
        id: SubscriptionId,
        topic: &str,
        owner: Option<&str>,
        handler: &str,
        options: SubscriptionOptions,
    ) -> (r: Subscription)
        ensures
            r@ == (SubscriptionModel {
                id: id.0,
                topic: topic@,
                owner: match owner {
                    Some(p) => Some(p@),
                    None => None,
                },
                handler: handler@,
                once: options.once,
            }),
    {
        match owner {
            Some(path) => {
                let mut q = path.to_owned();
                q.append("/");
                q.append(topic);
                proof {
                    reveal_strlit("/");
                    assert("/"@ =~= seq!['/']);
                }
                Subscription {
                    id,
                    topic: topic.to_owned(),
                    owner: Some(path.to_owned()),
                    handler: handler.to_owned(),
                    options,
                    full_topic: Some(q),
                }
            },
            None => Subscription {
                id,
                topic: topic.to_owned(),
                owner: None,
                handler: handler.to_owned(),
                options,
                full_topic: None,
            },
        }
    }

    /// The id under which the subscription can be cancelled.
    pub fn id(&self) -> (r: SubscriptionId)
        ensures
            r.0 == self@.id,
    {
        self.id
    }

    /// The topic as the subscriber wrote it.
    pub fn topic(&self) -> (r: &str)
        ensures
            r@ == self@.topic,
    {
        self.topic.as_str()
    }

    /// The path of the service that owns the subscription, if one does.
    pub fn owner(&self) -> (r: Option<&str>)
        ensures
            match r {
                Some(p) => self@.owner == Some(p@),
                None => self@.owner is None,
            },
    {
        match &self.owner {
            Some(p) => Some(p.as_str()),
            None => None,
        }
    }

    /// The name of the handler that receives the events.
    pub fn handler(&self) -> (r: &str)
        ensures
            r@ == self@.handler,
    {
        self.handler.as_str()
    }

    /// Whether the subscription ends with its first event.
    pub fn once(&self) -> (r: bool)
        ensures
            r == self@.once,
    {
        self.options.once
    }

    /// Whether an event published to `topic` reaches this subscription.
    pub fn matches(&self, topic: &str) -> (r: bool)
        ensures
            r == self@.matches(topic@),
    {
        proof {
            use_type_invariant(self);
        }
        if same_text(self.topic.as_str(), topic) {
            return true;
        }
        match &self.full_topic {
            Some(q) => same_text(q.as_str(), topic),
            None => false,
        }
    }

    /// Whether `owner` owns this subscription.
    pub fn is_owned_by(&self, owner: &str) -> (r: bool)
        ensures
            r == (self@.owner == Some(owner@)),
    {
        match &self.owner {
            Some(p) => same_text(p.as_str(), owner),
            None => false,
        }
    }

    /// The delivery that an event on `topic` with `payload` makes to this
    /// subscription.
    pub fn deliver(&self, topic: &str, payload: &Value) -> (r: Delivery)
        ensures
            r@ == self@.delivery(topic@, payload@),
    {
        Delivery {
            subscription: self.id,
            owner: self.owner.clone(),
            handler: self.handler.clone(),
            topic: topic.to_owned(),
            payload: payload.clone(),
        }
    }
}

/// One event on its way to one subscriber.
#[derive(Debug)]
pub struct Delivery {
    pub subscription: SubscriptionId,
    pub owner: Option<String>,
    pub handler: String,
    pub topic: String,
    pub payload: Value,
}

impl View for Delivery {
    type V = DeliveryModel;

    open spec fn view(&self) -> DeliveryModel {
        DeliveryModel {
            subscription: self.subscription.0,
            owner: text_of(self.owner),
            handler: self.handler@,
            topic: self.topic@,
            payload: self.payload@,
        }
    }
}

/// The deliveries that a vector holds.
pub open spec fn delivery_models(v: Seq<Delivery>) -> Seq<DeliveryModel> {
    Seq::new(v.len(), |i: int| v[i]@)
}


/// The event bus.
pub struct EventBus {
    subscriptions: Vec<Subscription>,
    next_id: u64,
}

/// The subscriptions that a vector holds.
pub open spec fn subscription_models(v: Seq<Subscription>) -> Seq<SubscriptionModel> {
    Seq::new(v.len(), |i: int| v[i]@)
}

impl View for EventBus {
    type V = BusModel;

    closed spec fn view(&self) -> BusModel {
        BusModel {
            subscriptions: subscription_models(self.subscriptions@),
            next_id: self.next_id as nat,
        }
    }
}

/// Filtering a well-formed bus leaves a well-formed bus.
pub proof fn lemma_filter_wf(bus: BusModel, keep: spec_fn(SubscriptionModel) -> bool)
    requires
        bus.wf(),
    ensures
        (BusModel { subscriptions: bus.subscriptions.filter(keep), next_id: bus.next_id }).wf(),
{
    let s = bus.subscriptions;
    let f = s.filter(keep);
    lemma_filter_items(s, keep);
    lemma_filter_keeps_order(
        s,
        keep,
        |a: SubscriptionModel, b: SubscriptionModel| a.id < b.id,
    );
    assert forall|i: int| 0 <= i < f.len() implies (#[trigger] f[i]).id < bus.next_id by {
        assert(s.contains(f[i]));
        let k = choose|k: int| 0 <= k < s.len() && s[k] == f[i];
        assert(s[k].id < bus.next_id);
    }
}

impl EventBus {
    #[verifier::type_invariant]
    spec fn inv(&self) -> bool {
        self@.wf()
    }

    /// A bus without subscriptions.
    pub fn new() -> (bus: EventBus)
        ensures
            bus@.subscriptions == Seq::<SubscriptionModel>::empty(),
            bus@.next_id == 0,
            bus@.wf(),
    {
        let bus = EventBus { subscriptions: Vec::new(), next_id: 0 };
        assert(bus@.subscriptions =~= Seq::<SubscriptionModel>::empty());
        bus
    }

    /// How many subscriptions the bus holds.
    pub fn len(&self) -> (n: usize)
        ensures
            n == self@.subscriptions.len(),
            self@.wf(),
    {
        proof {
            use_type_invariant(self);
        }
        self.subscriptions.len()
    }

    /// The subscription at position `i`, counted from the oldest.
    pub fn get(&self, i: usize) -> (r: Option<&Subscription>)
        ensures
            match r {
                Some(s) => i < self@.subscriptions.len() && s@ == self@.subscriptions[i as int],
                None => i >= self@.subscriptions.len(),
            },
    {
        if i < self.subscriptions.len() {
            Some(&self.subscriptions[i])
        } else {
            None
        }
    }

    /// Whether the bus can take one more subscription: its ids are not
    /// used up.
    pub fn has_room(&self) -> (r: bool)
        ensures
            r == (self@.next_id < u64::MAX),
    {
        self.next_id < u64::MAX
    }

    /// Subscribes `handler` to `topic` and returns the id of the new
    /// subscription, which is made last. A second subscription of the same
    /// handler to the same topic is a subscription of its own. `owner` is the
    /// path of the service that subscribes, if one does.
    ///
    /// Nothing is subscribed, and nothing returned, where the ids are used up.
    pub fn subscribe(
        &mut self,
        topic: &str,
        owner: Option<&str>,
        handler: &str,
        options: SubscriptionOptions,
    ) -> (r: Option<SubscriptionId>)
        ensures
            old(self)@.wf(),
            final(self)@.wf(),
            match r {
                Some(id) => {
                    &&& old(self)@.next_id < u64::MAX
                    &&& id.0 == old(self)@.next_id
                    &&& final(self)@ == old(self)@.subscribe(
                        topic@,
                        match owner {
                            Some(p) => Some(p@),
                            None => None,
                        },
                        handler@,
                        options.once,
                    )
                },
                None => old(self)@.next_id == u64::MAX && final(self)@ == old(self)@,
            },
    {
        proof {
            use_type_invariant(&*self);
        }
        if self.next_id == u64::MAX {
            return None;
        }
        let id = SubscriptionId(self.next_id);
        let sub = Subscription::new(id, topic, owner, handler, options);
        let ghost before = self@;
        let mut subs: Vec<Subscription> = Vec::new();
        core::mem::swap(&mut self.subscriptions, &mut subs);
        subs.push(sub);
        self.next_id = self.next_id + 1;
        proof {
            assert(subscription_models(subs@) =~= before.subscriptions.push(sub@));
        }
        self.subscriptions = subs;
        Some(id)
    }

    /// Cancels the subscription that `id` names on `topic`, and says whether
    /// there was one. Where there is none, nothing changes.
    pub fn unsubscribe(&mut self, topic: &str, id: SubscriptionId) -> (removed: bool)
        ensures
            old(self)@.wf(),
            final(self)@.wf(),
            final(self)@ == old(self)@.unsubscribe(topic@, id.0),
            removed == exists|i: int|
                0 <= i < old(self)@.subscriptions.len() && old(self)@.subscriptions[i].is_named(
                    topic@,
                    id.0,
                ),
            !removed ==> final(self)@ == old(self)@,
    {
        proof {
            use_type_invariant(&*self);
        }
        let ghost before = self@;
        let ghost keep = other_than(topic@, id.0);
        let mut i: usize = 0;
        while i < self.subscriptions.len()
            invariant
                i <= self.subscriptions.len(),
                self@ == before,
                before == old(self)@,
                before.wf(),
                keep == other_than(topic@, id.0),
                forall|j: int| 0 <= j < i ==> keep(#[trigger] before.subscriptions[j]),
            decreases self.subscriptions.len() - i,
        {
            if self.subscriptions[i].id.0 == id.0 && same_text(
                self.subscriptions[i].topic.as_str(),
                topic,
            ) {
                let mut subs: Vec<Subscription> = Vec::new();
                core::mem::swap(&mut self.subscriptions, &mut subs);
                proof {
                    assert(before.subscriptions[i as int].is_named(topic@, id.0));
                    assert forall|j: int|
                        0 <= j < before.subscriptions.len() && j != i implies keep(
                        #[trigger] before.subscriptions[j],
                    ) by {
                        assert(before.subscriptions[j].id != before.subscriptions[i as int].id);
                    }
                    lemma_filter_drops_one(before.subscriptions, keep, i as int);
                    lemma_filter_wf(before, keep);
                }
                subs.remove(i);
                proof {
                    assert(subscription_models(subs@) =~= before.subscriptions.remove(i as int));
                }
                self.subscriptions = subs;
                return true;
            }
            i += 1;
        }
        proof {
            lemma_filter_keeps_all(before.subscriptions, keep);
        }
        false
    }

    /// Resolves an event on `topic` to the subscribers that receive it and
    /// returns one delivery for each, oldest subscription first. Those among
    /// them that end with their first event are cancelled.
    pub fn publish(&mut self, topic: &str, payload: &Value) -> (deliveries: Vec<Delivery>)
        ensures
            old(self)@.wf(),
            final(self)@.wf(),
            delivery_models(deliveries@) == deliveries_to(
                old(self)@.subscribers(topic@),
                topic@,
                payload@,
            ),
            final(self)@ == old(self)@.publish(topic@),
    {
        proof {
            use_type_invariant(&*self);
        }
        let ghost before = self@;
        let ghost all = before.subscriptions;
        let ghost hit = reaches(topic@);
        let ghost stay = outlasts(topic@);
        let mut deliveries: Vec<Delivery> = Vec::new();
        let mut subs: Vec<Subscription> = Vec::new();
        core::mem::swap(&mut self.subscriptions, &mut subs);
        let mut i: usize = 0;
        let mut done: Ghost<int> = Ghost(0);
        proof {
            assert(all.take(0) =~= Seq::<SubscriptionModel>::empty());
            lemma_filter_keeps_all(all.take(0), hit);
            lemma_filter_keeps_all(all.take(0), stay);
            assert(subscription_models(subs@) =~= all.take(0).filter(stay) + all.skip(0));
            lemma_filter_wf(before, stay);
        }
        while i < subs.len()
            invariant
                before.wf(),
                before == old(self)@,
                self.next_id == before.next_id,
                all == before.subscriptions,
                hit == reaches(topic@),
                stay == outlasts(topic@),
                0 <= done@ <= all.len(),
                i <= subs.len(),
                i == all.take(done@).filter(stay).len(),
                subscription_models(subs@) == all.take(done@).filter(stay) + all.skip(done@),
                delivery_models(deliveries@) == deliveries_to(
                    all.take(done@).filter(hit),
                    topic@,
                    payload@,
                ),
            decreases all.len() - done@,
        {
            let ghost k = done@;
            let ghost cur = subscription_models(subs@);
            proof {
                lemma_filter_take_next(all, hit, k);
                lemma_filter_take_next(all, stay, k);
                assert(cur[i as int] == all[k]);
            }
            let reached = subs[i].matches(topic);
            if reached {
                let d = subs[i].deliver(topic, payload);
                let ghost prev = deliveries@;
                deliveries.push(d);
                proof {
                    assert(delivery_models(deliveries@) =~= delivery_models(prev).push(d@));
                    assert(delivery_models(deliveries@) =~= deliveries_to(
                        all.take(k + 1).filter(hit),
                        topic@,
                        payload@,
                    ));
                }
            }
            if reached && subs[i].options.once {
                subs.remove(i);
                proof {
                    assert(subscription_models(subs@) =~= cur.remove(i as int));
                    assert(cur.remove(i as int) =~= all.take(k + 1).filter(stay) + all.skip(
                        k + 1,
                    ));
                }
            } else {
                proof {
                    assert(cur =~= all.take(k + 1).filter(stay) + all.skip(k + 1));
                }
                i += 1;
            }
            proof {
                done@ = k + 1;
            }
        }
        proof {
            assert(done@ == all.len()) by {
                if done@ < all.len() {
                    assert(subscription_models(subs@).len() == i + (all.len() - done@));
                }
            }
            assert(all.take(all.len() as int) =~= all);
            assert(all.skip(all.len() as int) =~= Seq::<SubscriptionModel>::empty());
            assert(subscription_models(subs@) =~= all.filter(stay));
        }
        self.subscriptions = subs;
        deliveries
    }

    /// Cancels every subscription that the service at `owner` owns.
    pub fn cancel_owner(&mut self, owner: &str)
        ensures
            old(self)@.wf(),
            final(self)@.wf(),
            final(self)@ == old(self)@.cancel_owner(owner@),
    {
        proof {
            use_type_invariant(&*self);
        }
        let ghost before = self@;
        let ghost all = before.subscriptions;
        let ghost stay = not_owned_by(owner@);
        let mut subs: Vec<Subscription> = Vec::new();
        core::mem::swap(&mut self.subscriptions, &mut subs);
        let mut i: usize = 0;
        let mut done: Ghost<int> = Ghost(0);
        proof {
            assert(all.take(0) =~= Seq::<SubscriptionModel>::empty());
            lemma_filter_keeps_all(all.take(0), stay);
            assert(subscription_models(subs@) =~= all.take(0).filter(stay) + all.skip(0));
            lemma_filter_wf(before, stay);
        }
        while i < subs.len()
            invariant
                before.wf(),
                before == old(self)@,
                self.next_id == before.next_id,
                all == before.subscriptions,
                stay == not_owned_by(owner@),
                0 <= done@ <= all.len(),
                i <= subs.len(),
                i == all.take(done@).filter(stay).len(),
                subscription_models(subs@) == all.take(done@).filter(stay) + all.skip(done@),
            decreases all.len() - done@,
        {
            let ghost k = done@;
            let ghost cur = subscription_models(subs@);
            proof {
                lemma_filter_take_next(all, stay, k);
                assert(cur[i as int] == all[k]);
            }
            if subs[i].is_owned_by(owner) {
                subs.remove(i);
                proof {
                    assert(subscription_models(subs@) =~= cur.remove(i as int));
                    assert(cur.remove(i as int) =~= all.take(k + 1).filter(stay) + all.skip(
                        k + 1,
                    ));
                }
            } else {
                proof {
                    assert(cur =~= all.take(k + 1).filter(stay) + all.skip(k + 1));
                }
                i += 1;
            }
            proof {
                done@ = k + 1;
            }
        }
        proof {
            assert(done@ == all.len()) by {
                if done@ < all.len() {
                    assert(subscription_models(subs@).len() == i + (all.len() - done@));
                }
            }
            assert(all.take(all.len() as int) =~= all);
            assert(all.skip(all.len() as int) =~= Seq::<SubscriptionModel>::empty());
            assert(subscription_models(subs@) =~= all.filter(stay));
        }
        self.subscriptions = subs;
    }

    /// Cancels every subscription. Ids that were given out are not given out
    /// again.
    pub fn clear(&mut self)
        ensures
            final(self)@.subscriptions == Seq::<SubscriptionModel>::empty(),
            final(self)@.next_id == old(self)@.next_id,
            final(self)@.wf(),
    {
        self.subscriptions = Vec::new();
        assert(self@.subscriptions =~= Seq::<SubscriptionModel>::empty());
    }
}

} // verus!
