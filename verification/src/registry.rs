//! The registry: the services of a host, each under its own path, in the
//! order in which they were registered.

use crate::event_bus::EventBus;
use crate::lifecycle::{next_state, transition, InvalidTransition, LifecycleEvent, ServiceState};
use crate::service::{
    AbstractService, HandlerError, MetadataModel, RequestContext, ServiceMetadata,
    ServiceRequest, ServiceResponse,
};
use crate::text::{normalize_path, normalized, same_text};
use crate::value::Value;
use vstd::prelude::*;

verus! {

/// What the registry knows of one service.
pub struct EntryModel {
    pub meta: MetadataModel,
    pub state: ServiceState,
}

/// The position of the entry registered under `path`, or -1.
pub open spec fn path_index(entries: Seq<EntryModel>, path: Seq<char>) -> int
    decreases entries.len(),
{
    if entries.len() == 0 {
        -1
    } else if entries.first().meta.path == path {
        0
    } else {
        let rest = path_index(entries.drop_first(), path);
        if rest < 0 {
            -1
        } else {
            rest + 1
        }
    }
}

/// Whether a service is registered under `path`.
pub open spec fn has_path(entries: Seq<EntryModel>, path: Seq<char>) -> bool {
    path_index(entries, path) >= 0
}

/// The entries registered under `path`.
pub open spec fn under(path: Seq<char>) -> spec_fn(EntryModel) -> bool {
    |e: EntryModel| e.meta.path == path
}

/// How many entries are registered under `path`.
pub open spec fn count_path(entries: Seq<EntryModel>, path: Seq<char>) -> nat {
    entries.filter(under(path)).len()
}

/// No two entries share a path, and the metadata of each is well formed.
pub open spec fn registry_wf(entries: Seq<EntryModel>) -> bool {
    &&& forall|i: int| 0 <= i < entries.len() ==> (#[trigger] entries[i]).meta.wf()
    &&& forall|i: int, j: int|
        0 <= i < j < entries.len() ==> (#[trigger] entries[i]).meta.path != (
        #[trigger] entries[j]).meta.path
}

/// Registering under a path: the entries with one more, in state `Created`,
/// or nothing where the path is taken.
pub open spec fn register(entries: Seq<EntryModel>, meta: MetadataModel) -> Option<
    Seq<EntryModel>,
> {
    if has_path(entries, meta.path) {
        None
    } else {
        Some(entries.push(EntryModel { meta, state: ServiceState::Created }))
    }
}

/// The first entry under a path is where `path_index` says.
pub proof fn lemma_path_index(entries: Seq<EntryModel>, path: Seq<char>)
    ensures
        -1 <= path_index(entries, path) < entries.len(),
        path_index(entries, path) >= 0 ==> entries[path_index(entries, path)].meta.path == path,
        forall|i: int|
            0 <= i < entries.len() && (path_index(entries, path) < 0 || i < path_index(
                entries,
                path,
            )) ==> (#[trigger] entries[i]).meta.path != path,
    decreases entries.len(),
{
    if entries.len() > 0 && entries.first().meta.path != path {
        let rest = entries.drop_first();
        lemma_path_index(rest, path);
        assert forall|i: int|
            0 <= i < entries.len() && (path_index(entries, path) < 0 || i < path_index(
                entries,
                path,
            )) implies (#[trigger] entries[i]).meta.path != path by {
            if i > 0 {
                assert(entries[i] == rest[i - 1]);
            }
        }
    }
}

/// An entry under the path with none before it is the one that `path_index`
/// finds.
pub proof fn lemma_path_index_at(entries: Seq<EntryModel>, path: Seq<char>, at: int)
    requires
        -1 <= at < entries.len(),
        at >= 0 ==> entries[at].meta.path == path,
        forall|i: int|
            0 <= i < entries.len() && (at < 0 || i < at) ==> (#[trigger] entries[i]).meta.path
                != path,
    ensures
        path_index(entries, path) == at,
{
    lemma_path_index(entries, path);
}

/// A path is registered where some entry has it.
pub proof fn lemma_has_path(entries: Seq<EntryModel>, path: Seq<char>)
    ensures
        has_path(entries, path) <==> exists|i: int|
            0 <= i < entries.len() && (#[trigger] entries[i]).meta.path == path,
{
    lemma_path_index(entries, path);
    if has_path(entries, path) {
        assert(entries[path_index(entries, path)].meta.path == path);
    }
}

/// A change of the state of one entry leaves the paths where they are.
pub proof fn lemma_state_change(entries: Seq<EntryModel>, at: int, state: ServiceState)
    requires
        0 <= at < entries.len(),
    ensures
        registry_wf(entries) ==> registry_wf(
            entries.update(at, EntryModel { state, ..entries[at] }),
        ),
        forall|path: Seq<char>|
            path_index(entries.update(at, EntryModel { state, ..entries[at] }), path)
                == #[trigger] path_index(entries, path),
{
    let after = entries.update(at, EntryModel { state, ..entries[at] });
    assert forall|path: Seq<char>| path_index(after, path) == #[trigger] path_index(
        entries,
        path,
    ) by {
        lemma_path_index(entries, path);
        lemma_path_index_at(after, path, path_index(entries, path));
    }
}

/// A service in the registry: what it said of itself when it was
/// registered, the state that the host has brought it to, and the service.
pub struct Entry<S> {
    meta: ServiceMetadata,
    state: ServiceState,
    service: S,
}

impl<S> View for Entry<S> {
    type V = EntryModel;

    closed spec fn view(&self) -> EntryModel {
        EntryModel { meta: self.meta@, state: self.state }
    }
}

impl<S> Entry<S> {
    /// The service itself.
    pub closed spec fn spec_service(&self) -> S {
        self.service
    }

    /// The metadata that the service was registered with.
    pub fn meta(&self) -> (r: &ServiceMetadata)
        ensures
            r@ == self@.meta,
    {
        &self.meta
    }

    /// The state that the host has brought the service to.
    pub fn state(&self) -> (r: ServiceState)
        ensures
            r == self@.state,
    {
        self.state
    }

    /// The service itself.
    pub fn service(&self) -> (r: &S)
        ensures
            *r == self.spec_service(),
    {
        &self.service
    }
}

/// One line of the registry's listing.
#[derive(Debug)]
pub struct ServiceSummary {
    pub path: String,
    pub name: String,
    pub state: ServiceState,
}

/// What a line of the listing holds.
pub struct SummaryModel {
    pub path: Seq<char>,
    pub name: Seq<char>,
    pub state: ServiceState,
}

impl View for ServiceSummary {
    type V = SummaryModel;

    open spec fn view(&self) -> SummaryModel {
        SummaryModel { path: self.path@, name: self.name@, state: self.state }
    }
}

/// The listing of a registry: path, name and state of each entry, in the
/// order of registration.
pub open spec fn listing(entries: Seq<EntryModel>) -> Seq<SummaryModel> {
    Seq::new(
        entries.len(),
        |i: int|
            SummaryModel {
                path: entries[i].meta.path,
                name: entries[i].meta.name,
                state: entries[i].state,
            },
    )
}

/// The lines that a vector holds.
pub open spec fn summary_models(v: Seq<ServiceSummary>) -> Seq<SummaryModel> {
    Seq::new(v.len(), |i: int| v[i]@)
}

/// A second service was registered under a path that is taken.
#[derive(Debug)]
pub struct DuplicatePathError {
    /// The path, in normal form.
    pub path: String,
}

impl DuplicatePathError {
    /// A message for a person to read.
    pub fn message(&self) -> (r: String)
        ensures
            r@ == "a service is already registered at "@ + self.path@,
    {
        crate::text::joined("a service is already registered at ", self.path.as_str())
    }
}

/// The registry.
pub struct Registry<S> {
    entries: Vec<Entry<S>>,
}

/// The entries that a vector holds.
pub open spec fn entry_models<S>(v: Seq<Entry<S>>) -> Seq<EntryModel> {
    Seq::new(v.len(), |i: int| v[i]@)
}

/// The services that a vector of entries holds.
pub open spec fn entry_services<S>(v: Seq<Entry<S>>) -> Seq<S> {
    Seq::new(v.len(), |i: int| v[i].spec_service())
}

impl<S> View for Registry<S> {
    type V = Seq<EntryModel>;

    closed spec fn view(&self) -> Seq<EntryModel> {
        entry_models(self.entries@)
    }
}

impl<S> Registry<S> {
    #[verifier::type_invariant]
    spec fn inv(&self) -> bool {
        registry_wf(self@)
    }

    /// The services, in the order of registration.
    pub closed spec fn services(&self) -> Seq<S> {
        entry_services(self.entries@)
    }

    /// A registry without services.
    pub fn new() -> (r: Registry<S>)
        ensures
            r@ == Seq::<EntryModel>::empty(),
            r.services() == Seq::<S>::empty(),
    {
        let r = Registry { entries: Vec::new() };
        assert(r@ =~= Seq::<EntryModel>::empty());
        assert(r.services() =~= Seq::<S>::empty());
        r
    }

    /// How many services are registered.
    pub fn len(&self) -> (n: usize)
        ensures
            n == self@.len(),
            n == self.services().len(),
            registry_wf(self@),
    {
        proof {
            use_type_invariant(self);
        }
        self.entries.len()
    }

    /// The position of the service registered under exactly `path`.
    pub fn find_exact(&self, path: &str) -> (r: Option<usize>)
        ensures
            registry_wf(self@),
            match r {
                Some(i) => i < self@.len() && path_index(self@, path@) == i,
                None => path_index(self@, path@) == -1,
            },
    {
        proof {
            use_type_invariant(self);
        }
        let mut i: usize = 0;
        while i < self.entries.len()
            invariant
                i <= self.entries.len(),
                registry_wf(self@),
                forall|j: int| 0 <= j < i ==> (#[trigger] self@[j]).meta.path != path@,
            decreases self.entries.len() - i,
        {
            if same_text(self.entries[i].meta.path(), path) {
                proof {
                    lemma_path_index_at(self@, path@, i as int);
                }
                return Some(i);
            }
            i += 1;
        }
        proof {
            lemma_path_index_at(self@, path@, -1);
        }
        None
    }

    /// The position of the service registered under `path`. Slashes at the
    /// ends of `path` do not count.
    pub fn find(&self, path: &str) -> (r: Option<usize>)
        ensures
            registry_wf(self@),
            match r {
                Some(i) => i < self@.len() && path_index(self@, normalize_path(path@)) == i,
                None => path_index(self@, normalize_path(path@)) == -1,
            },
    {
        let normal = normalized(path);
        self.find_exact(normal.as_str())
    }

    /// The entry at position `i`.
    pub fn entry(&self, i: usize) -> (r: Option<&Entry<S>>)
        ensures
            match r {
                Some(e) => i < self@.len() && e@ == self@[i as int] && e.spec_service()
                    == self.services()[i as int],
                None => i >= self@.len(),
            },
    {
        if i < self.entries.len() {
            Some(&self.entries[i])
        } else {
            None
        }
    }

    /// The service registered under `path`, if one is.
    pub fn get(&self, path: &str) -> (r: Option<&Entry<S>>)
        ensures
            match r {
                Some(e) => {
                    let i = path_index(self@, normalize_path(path@));
                    0 <= i < self@.len() && e@ == self@[i] && e.spec_service()
                        == self.services()[i]
                },
                None => !has_path(self@, normalize_path(path@)),
            },
    {
        match self.find(path) {
            Some(i) => Some(&self.entries[i]),
            None => None,
        }
    }

    /// Registers `service` under the path of `meta`, as the last entry, in
    /// state `Created`. Where the path is taken, nothing is registered.
    pub fn add(&mut self, meta: ServiceMetadata, service: S) -> (r: Result<
        (),
        DuplicatePathError,
    >)
        ensures
            registry_wf(old(self)@),
            registry_wf(final(self)@),
            match register(old(self)@, meta@) {
                Some(after) => {
                    &&& r is Ok
                    &&& final(self)@ == after
                    &&& final(self).services() == old(self).services().push(service)
                },
                None => {
                    &&& r matches Err(e) && e.path@ == meta@.path
                    &&& final(self)@ == old(self)@
                    &&& final(self).services() == old(self).services()
                },
            },
    {
        proof {
            use_type_invariant(&*self);
            crate::text::lemma_normalize_path(meta@.path);
        }
        let path = meta.path();
        match self.find(path) {
            Some(_) => Err(DuplicatePathError { path: path.to_owned() }),
            None => {
                let ghost before = self@;
                let ghost services = self.services();
                proof {
                    lemma_path_index(before, meta@.path);
                }
                let mut entries: Vec<Entry<S>> = Vec::new();
                core::mem::swap(&mut self.entries, &mut entries);
                let entry = Entry { meta, state: ServiceState::Created, service };
                entries.push(entry);
                proof {
                    assert(entry_models(entries@) =~= before.push(entry@));
                    assert(entry_services(entries@) =~= services.push(service));
                }
                self.entries = entries;
                Ok(())
            },
        }
    }

    /// Takes the service registered under `path` out of the registry and
    /// hands it to the caller, and cancels the subscriptions that it owns on
    /// `bus`. Where no service is registered under `path`, nothing changes.
    pub fn remove(&mut self, path: &str, bus: &mut EventBus) -> (r: Option<S>)
        ensures
            registry_wf(old(self)@),
            registry_wf(final(self)@),
            old(bus)@.wf() ==> final(bus)@.wf(),
            match r {
                Some(service) => {
                    let i = path_index(old(self)@, normalize_path(path@));
                    &&& 0 <= i < old(self)@.len()
                    &&& service == old(self).services()[i]
                    &&& final(self)@ == old(self)@.remove(i)
                    &&& final(self).services() == old(self).services().remove(i)
                    &&& final(bus)@ == old(bus)@.cancel_owner(normalize_path(path@))
                },
                None => {
                    &&& !has_path(old(self)@, normalize_path(path@))
                    &&& final(self)@ == old(self)@
                    &&& final(self).services() == old(self).services()
                    &&& final(bus)@ == old(bus)@
                },
            },
    {
        proof {
            use_type_invariant(&*self);
        }
        match self.find(path) {
            Some(i) => {
                let ghost before = self@;
                let ghost services = self.services();
                let normal = normalized(path);
                proof {
                    lemma_path_index(before, normal@);
                }
                let mut entries: Vec<Entry<S>> = Vec::new();
                core::mem::swap(&mut self.entries, &mut entries);
                let entry = entries.remove(i);
                proof {
                    assert(entry_models(entries@) =~= before.remove(i as int));
                    assert(entry_services(entries@) =~= services.remove(i as int));
                }
                self.entries = entries;
                bus.cancel_owner(normal.as_str());
                Some(entry.service)
            },
            None => None,
        }
    }

    /// The listing: path, name and state of each service, in the order of
    /// registration. It is a copy: later changes of the registry do not
    /// show in it.
    pub fn list(&self) -> (r: Vec<ServiceSummary>)
        ensures
            summary_models(r@) == listing(self@),
    {
        let mut out: Vec<ServiceSummary> = Vec::new();
        let mut i: usize = 0;
        while i < self.entries.len()
            invariant
                i <= self.entries.len(),
                out@.len() == i,
                forall|j: int| 0 <= j < i ==> (#[trigger] out@[j])@ == listing(self@)[j],
            decreases self.entries.len() - i,
        {
            let e = &self.entries[i];
            out.push(
                ServiceSummary {
                    path: e.meta.path().to_owned(),
                    name: e.meta.name().to_owned(),
                    state: e.state,
                },
            );
            i += 1;
        }
        assert(summary_models(out@) =~= listing(self@));
        out
    }

    /// Moves the service at position `i` along its lifecycle: applies
    /// `event` to its state, and says where that led. A transition that the
    /// lifecycle does not have changes nothing.
    pub fn advance(&mut self, i: usize, event: LifecycleEvent) -> (r: Result<
        ServiceState,
        InvalidTransition,
    >)
        requires
            i < old(self)@.len(),
        ensures
            registry_wf(final(self)@),
            final(self).services() == old(self).services(),
            match next_state(old(self)@[i as int].state, event) {
                Some(next) => r == Ok::<ServiceState, InvalidTransition>(next) && final(self)@
                    == old(self)@.update(
                    i as int,
                    EntryModel { state: next, ..old(self)@[i as int] },
                ),
                None => r == Err::<ServiceState, InvalidTransition>(
                    (InvalidTransition { from: old(self)@[i as int].state, event }),
                ) && final(self)@ == old(self)@,
            },
    {
        proof {
            use_type_invariant(&*self);
        }
        let ghost before = self@;
        let ghost services = self.services();
        match transition(self.entries[i].state, event) {
            Ok(next) => {
                let mut entries: Vec<Entry<S>> = Vec::new();
                core::mem::swap(&mut self.entries, &mut entries);
                entries[i].state = next;
                proof {
                    assert(entry_models(entries@) =~= before.update(
                        i as int,
                        EntryModel { state: next, ..before[i as int] },
                    ));
                    assert(entry_services(entries@) =~= services);
                }
                self.entries = entries;
                Ok(next)
            },
            Err(e) => Err(e),
        }
    }

    /// Empties the registry.
    pub fn clear(&mut self)
        ensures
            final(self)@ == Seq::<EntryModel>::empty(),
            final(self).services() == Seq::<S>::empty(),
    {
        self.entries = Vec::new();
        assert(self@ =~= Seq::<EntryModel>::empty());
        assert(self.services() =~= Seq::<S>::empty());
    }
}


/// In a well-formed registry a path that is registered is registered once.
pub proof fn lemma_registered_once(entries: Seq<EntryModel>, path: Seq<char>)
    requires
        registry_wf(entries),
    ensures
        count_path(entries, path) == if has_path(entries, path) {
            1nat
        } else {
            0nat
        },
{
    let same = under(path);
    lemma_path_index(entries, path);
    let at = path_index(entries, path);
    if at >= 0 {
        let left = entries.take(at);
        let right = entries.skip(at + 1);
        assert forall|i: int| 0 <= i < left.len() implies !same(#[trigger] left[i]) by {
            assert(left[i] == entries[i]);
        }
        assert forall|i: int| 0 <= i < right.len() implies !same(#[trigger] right[i]) by {
            assert(right[i] == entries[at + 1 + i]);
        }
        crate::sequences::lemma_filter_keeps_none(left, same);
        crate::sequences::lemma_filter_keeps_none(right, same);
        left.lemma_filter_push(entries[at], same);
        Seq::filter_distributes_over_add(left.push(entries[at]), right, same);
        assert(entries =~= left.push(entries[at]) + right);
        assert(entries.filter(same) =~= seq![entries[at]]);
    } else {
        assert forall|i: int| 0 <= i < entries.len() implies !same(#[trigger] entries[i]) by {}
        crate::sequences::lemma_filter_keeps_none(entries, same);
    }
}

/// A registration keeps the registry well formed, and a second registration
/// under a path fails and leaves exactly one entry under that path.
pub proof fn lemma_second_registration_fails(
    entries: Seq<EntryModel>,
    first: MetadataModel,
    second: MetadataModel,
)
    requires
        registry_wf(entries),
        first.wf(),
        second.wf(),
        first.path == second.path,
    ensures
        ({
            let after = match register(entries, first) {
                Some(a) => a,
                None => entries,
            };
            &&& registry_wf(after)
            &&& register(after, second) is None
            &&& count_path(after, first.path) == 1
        }),
{
    lemma_path_index(entries, first.path);
    let after = match register(entries, first) {
        Some(a) => a,
        None => entries,
    };
    if register(entries, first) is Some {
        lemma_path_index_at(after, first.path, entries.len() as int);
    }
    lemma_registered_once(after, first.path);
}

impl<S: AbstractService> Registry<S> {
    /// Calls the `init` hook of the service at position `i`.
    pub(crate) fn call_init(&mut self, i: usize, ctx: &mut RequestContext) -> (r: Result<
        (),
        HandlerError,
    >)
        requires
            i < old(self)@.len(),
        ensures
            final(self)@ == old(self)@,
            registry_wf(final(self)@),
            final(self).services().len() == old(self).services().len(),
            forall|j: int|
                0 <= j < old(self).services().len() && j != i ==> final(self).services()[j]
                    == old(self).services()[j],
    {
        proof {
            use_type_invariant(&*self);
        }
        let ghost before = self@;
        let ghost services = self.services();
        let mut entries: Vec<Entry<S>> = Vec::new();
        core::mem::swap(&mut self.entries, &mut entries);
        let r = entries[i].service.init(ctx);
        proof {
            assert(entry_models(entries@) =~= before);
            assert forall|j: int| 0 <= j < services.len() && j != i implies entry_services(
                entries@,
            )[j] == services[j] by {}
        }
        self.entries = entries;
        r
    }

    /// Calls the `start` hook of the service at position `i`.
    pub(crate) fn call_start(&mut self, i: usize) -> (r: Result<(), HandlerError>)
        requires
            i < old(self)@.len(),
        ensures
            final(self)@ == old(self)@,
            registry_wf(final(self)@),
            final(self).services().len() == old(self).services().len(),
            forall|j: int|
                0 <= j < old(self).services().len() && j != i ==> final(self).services()[j]
                    == old(self).services()[j],
    {
        proof {
            use_type_invariant(&*self);
        }
        let ghost before = self@;
        let ghost services = self.services();
        let mut entries: Vec<Entry<S>> = Vec::new();
        core::mem::swap(&mut self.entries, &mut entries);
        let r = entries[i].service.start();
        proof {
            assert(entry_models(entries@) =~= before);
            assert forall|j: int| 0 <= j < services.len() && j != i implies entry_services(
                entries@,
            )[j] == services[j] by {}
        }
        self.entries = entries;
        r
    }

    /// Calls the `stop` hook of the service at position `i`.
    pub(crate) fn call_stop(&mut self, i: usize) -> (r: Result<(), HandlerError>)
        requires
            i < old(self)@.len(),
        ensures
            final(self)@ == old(self)@,
            registry_wf(final(self)@),
            final(self).services().len() == old(self).services().len(),
            forall|j: int|
                0 <= j < old(self).services().len() && j != i ==> final(self).services()[j]
                    == old(self).services()[j],
    {
        proof {
            use_type_invariant(&*self);
        }
        let ghost before = self@;
        let ghost services = self.services();
        let mut entries: Vec<Entry<S>> = Vec::new();
        core::mem::swap(&mut self.entries, &mut entries);
        let r = entries[i].service.stop();
        proof {
            assert(entry_models(entries@) =~= before);
            assert forall|j: int| 0 <= j < services.len() && j != i implies entry_services(
                entries@,
            )[j] == services[j] by {}
        }
        self.entries = entries;
        r
    }

    /// Hands a request to the service at position `i`.
    pub(crate) fn call_request(
        &mut self,
        i: usize,
        request: &ServiceRequest,
        ctx: &mut RequestContext,
    ) -> (r: Result<ServiceResponse, HandlerError>)
        requires
            i < old(self)@.len(),
        ensures
            final(self)@ == old(self)@,
            registry_wf(final(self)@),
            final(self).services().len() == old(self).services().len(),
            forall|j: int|
                0 <= j < old(self).services().len() && j != i ==> final(self).services()[j]
                    == old(self).services()[j],
    {
        proof {
            use_type_invariant(&*self);
        }
        let ghost before = self@;
        let ghost services = self.services();
        let mut entries: Vec<Entry<S>> = Vec::new();
        core::mem::swap(&mut self.entries, &mut entries);
        let r = entries[i].service.handle_request(request, ctx);
        proof {
            assert(entry_models(entries@) =~= before);
            assert forall|j: int| 0 <= j < services.len() && j != i implies entry_services(
                entries@,
            )[j] == services[j] by {}
        }
        self.entries = entries;
        r
    }

    /// Hands an event to the handler `handler` of the service at position `i`.
    pub(crate) fn call_event(
        &mut self,
        i: usize,
        handler: &str,
        topic: &str,
        payload: &Value,
        ctx: &mut RequestContext,
    ) -> (r: Result<(), HandlerError>)
        requires
            i < old(self)@.len(),
        ensures
            final(self)@ == old(self)@,
            registry_wf(final(self)@),
            final(self).services().len() == old(self).services().len(),
            forall|j: int|
                0 <= j < old(self).services().len() && j != i ==> final(self).services()[j]
                    == old(self).services()[j],
    {
        proof {
            use_type_invariant(&*self);
        }
        let ghost before = self@;
        let ghost services = self.services();
        let mut entries: Vec<Entry<S>> = Vec::new();
        core::mem::swap(&mut self.entries, &mut entries);
        let r = entries[i].service.handle_event(handler, topic, payload, ctx);
        proof {
            assert(entry_models(entries@) =~= before);
            assert forall|j: int| 0 <= j < services.len() && j != i implies entry_services(
                entries@,
            )[j] == services[j] by {}
        }
        self.entries = entries;
        r
    }
}

} // verus!
