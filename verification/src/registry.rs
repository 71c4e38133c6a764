//! The service registry: named capabilities, looked up by processes.
//!
//! A registry is either immutable, seeded once and closed to registration, or
//! mutable, open to registration under names that are free. Names are listed
//! in the order in which they were first registered.

use vstd::prelude::*;
use crate::capability::Capability;

verus! {

/// Whether a registry takes registrations after it was seeded.
#[derive(Clone, Copy, Debug, PartialEq, Eq, Structural)]
pub enum RegistryPolicy {
    /// Seeded at start; every later registration is refused.
    Immutable,
    /// Takes registrations under names that are free.
    Mutable,
}

/// Why a registry refused a change.
#[derive(Clone, Copy, Debug, PartialEq, Eq, Structural)]
pub enum RegistryError {
    /// The registry is immutable.
    RegistryImmutable,
    /// The name is registered already.
    NameTaken,
    /// No service is registered under the name.
    NotFound,
}

/// The names of the services that an immutable registry is seeded with; the
/// capabilities come beside it, in the same order.
#[derive(Clone, Debug, Default)]
pub struct RegistryConfig {
    pub service_names: Vec<String>,
}

/// What a process asks of a registry.
#[derive(Clone, Debug)]
pub enum RegistryRequest {
    /// The capability registered under `name`.
    Get { name: String },
    /// The registration of the capability that comes with the request under
    /// `name`.
    Register { name: String },
    /// The names of all services.
    List,
}

/// What a registry answers.
#[derive(Clone, Debug)]
pub enum RegistryResponse {
    /// Whether the service was found; where it was, its capability comes with
    /// the response.
    Get(bool),
    /// `None` where the registry takes no registrations; else whether the
    /// service was registered.
    Register(Option<bool>),
    /// The names of all services.
    List(Vec<String>),
}

/// An answer on its way: what is sent, and through which capability.
#[derive(Clone, Debug)]
pub struct Reply {
    /// The reply capability of the request.
    pub to: Capability,
    pub response: RegistryResponse,
    /// The capabilities that go with the response.
    pub caps: Vec<Capability>,
}

/// A registry response as a plain value.
pub enum RegistryResponseModel {
    Get(bool),
    Register(Option<bool>),
    List(Seq<Seq<char>>),
}

/// The views of a sequence of strings.
pub open spec fn string_views(names: Seq<String>) -> Seq<Seq<char>> {
    Seq::new(names.len(), |i: int| names[i]@)
}

impl View for RegistryResponse {
    type V = RegistryResponseModel;

    open spec fn view(&self) -> RegistryResponseModel {
        match self {
            RegistryResponse::Get(found) => RegistryResponseModel::Get(*found),
            RegistryResponse::Register(done) => RegistryResponseModel::Register(*done),
            RegistryResponse::List(names) => RegistryResponseModel::List(string_views(names@)),
        }
    }
}

/// A registry as a plain value.
pub struct RegistryModel {
    /// Whether registrations are taken.
    pub policy: RegistryPolicy,
    /// The names registered, in the order of their first registration.
    pub names: Seq<Seq<char>>,
    /// The capability registered under each name, at the same position.
    pub caps: Seq<Capability>,
}

/// The invariant of a registry: a capability for each name, and no name
/// twice.
pub open spec fn registry_wf(r: RegistryModel) -> bool {
    &&& r.names.len() == r.caps.len()
    &&& r.names.no_duplicates()
}

/// The capability registered under `name`, if there is one.
pub open spec fn lookup_of(r: RegistryModel, name: Seq<char>) -> Option<Capability> {
    if r.names.contains(name) {
        Some(r.caps[r.names.index_of(name)])
    } else {
        None
    }
}

/// The registry with `cap` under `name`: in place of the capability that was
/// registered under the name, or at the end.
pub open spec fn upsert_of(r: RegistryModel, name: Seq<char>, cap: Capability) -> RegistryModel {
    RegistryModel {
        names: upsert_names(r.names, name),
        caps: upsert_caps(r.names, r.caps, name, cap),
        ..r
    }
}

/// The names after a capability was put under `name`.
pub open spec fn upsert_names(names: Seq<Seq<char>>, name: Seq<char>) -> Seq<Seq<char>> {
    if names.contains(name) {
        names
    } else {
        names.push(name)
    }
}

/// The capabilities after `cap` was put under `name`.
pub open spec fn upsert_caps(
    names: Seq<Seq<char>>,
    caps: Seq<Capability>,
    name: Seq<char>,
    cap: Capability,
) -> Seq<Capability> {
    if names.contains(name) {
        caps.update(names.index_of(name), cap)
    } else {
        caps.push(cap)
    }
}

/// The registry after it was seeded with the first `count` names of `names`
/// and the capabilities beside them; of two capabilities under one name the
/// later stays.
pub open spec fn seeded_of(
    policy: RegistryPolicy,
    names: Seq<Seq<char>>,
    caps: Seq<Capability>,
    count: int,
) -> RegistryModel
    decreases count,
{
    if count <= 0 {
        RegistryModel { policy, names: Seq::empty(), caps: Seq::empty() }
    } else {
        upsert_of(seeded_of(policy, names, caps, count - 1), names[count - 1], caps[count - 1])
    }
}

/// What `register` answers.
pub open spec fn register_result(r: RegistryModel, name: Seq<char>) -> Result<(), RegistryError> {
    if r.policy is Immutable {
        Err(RegistryError::RegistryImmutable)
    } else if r.names.contains(name) {
        Err(RegistryError::NameTaken)
    } else {
        Ok(())
    }
}

/// The registry after `register`: changed only where the answer is `Ok`.
pub open spec fn register_of(r: RegistryModel, name: Seq<char>, cap: Capability) -> RegistryModel {
    if register_result(r, name) is Ok {
        upsert_of(r, name, cap)
    } else {
        r
    }
}

/// What `deregister` answers.
pub open spec fn deregister_result(r: RegistryModel, name: Seq<char>) -> Result<(), RegistryError> {
    if r.policy is Immutable {
        Err(RegistryError::RegistryImmutable)
    } else if !r.names.contains(name) {
        Err(RegistryError::NotFound)
    } else {
        Ok(())
    }
}

/// The registry after `deregister`: changed only where the answer is `Ok`.
pub open spec fn deregister_of(r: RegistryModel, name: Seq<char>) -> RegistryModel {
    if deregister_result(r, name) is Ok {
        RegistryModel {
            names: r.names.remove(r.names.index_of(name)),
            caps: r.caps.remove(r.names.index_of(name)),
            ..r
        }
    } else {
        r
    }
}

/// The answer to a request and the capabilities that come with it. A
/// registration by request is never carried out: the request brings no
/// capability in its body, and the registry answers as a closed one.
pub open spec fn respond_of(r: RegistryModel, request: RegistryRequest) -> (
    RegistryResponseModel,
    Seq<Capability>,
) {
    match request {
        RegistryRequest::Get { name } => match lookup_of(r, name@) {
            Some(cap) => (RegistryResponseModel::Get(true), seq![cap]),
            None => (RegistryResponseModel::Get(false), Seq::empty()),
        },
        RegistryRequest::Register { .. } => (RegistryResponseModel::Register(None), Seq::empty()),
        RegistryRequest::List => (RegistryResponseModel::List(r.names), Seq::empty()),
    }
}

/// A directory of named capabilities.
pub struct RegistryServer {
    policy: RegistryPolicy,
    entries: Vec<Service>,
}

struct Service {
    name: String,
    cap: Capability,
}

/// The names of a sequence of services.
spec fn names_of(entries: Seq<Service>) -> Seq<Seq<char>> {
    Seq::new(entries.len(), |i: int| entries[i].name@)
}

/// The capabilities of a sequence of services.
spec fn caps_of(entries: Seq<Service>) -> Seq<Capability> {
    Seq::new(entries.len(), |i: int| entries[i].cap)
}

impl View for RegistryServer {
    type V = RegistryModel;

    closed spec fn view(&self) -> RegistryModel {
        RegistryModel {
            policy: self.policy,
            names: names_of(self.entries@),
            caps: caps_of(self.entries@),
        }
    }
}

impl RegistryServer {
    /// Holds of every registry that this module gives: see [`registry_wf`].
    #[verifier::type_invariant]
    pub closed spec fn wf(&self) -> bool {
        registry_wf(self@)
    }

    /// An empty registry that takes registrations.
    pub fn mutable() -> (registry: RegistryServer)
        ensures
            registry.wf(),
            registry@ == (RegistryModel {
                policy: RegistryPolicy::Mutable,
                names: Seq::empty(),
                caps: Seq::empty(),
            }),
    {
        let registry = RegistryServer { policy: RegistryPolicy::Mutable, entries: Vec::new() };
        assert(registry@.names =~= Seq::<Seq<char>>::empty());
        assert(registry@.caps =~= Seq::<Capability>::empty());
        registry
    }

    /// An immutable registry seeded with `services`. Of two services under one
    /// name the later stays, at the place of the first.
    pub fn init(config: RegistryConfig, service_list: Vec<Capability>) -> (registry: RegistryServer)
        ensures
            registry.wf(),
            registry@ == seeded_of(
                RegistryPolicy::Immutable,
                string_views(config.service_names@),
                service_list@,
                if config.service_names@.len() <= service_list@.len() {
                    config.service_names@.len() as int
                } else {
                    service_list@.len() as int
                },
            ),
    {
        let mut entries: Vec<Service> = Vec::new();
        let count = if config.service_names.len() <= service_list.len() {
            config.service_names.len()
        } else {
            service_list.len()
        };
        let ghost given = string_views(config.service_names@);
        let mut i: usize = 0;
        proof {
            assert(names_of(entries@) =~= Seq::<Seq<char>>::empty());
            assert(caps_of(entries@) =~= Seq::<Capability>::empty());
        }
        while i < count
            invariant
                i <= count,
                count <= config.service_names@.len(),
                count <= service_list@.len(),
                given == string_views(config.service_names@),
                registry_wf(
                    RegistryModel {
                        policy: RegistryPolicy::Immutable,
                        names: names_of(entries@),
                        caps: caps_of(entries@),
                    },
                ),
                (RegistryModel {
                    policy: RegistryPolicy::Immutable,
                    names: names_of(entries@),
                    caps: caps_of(entries@),
                }) == seeded_of(RegistryPolicy::Immutable, given, service_list@, i as int),
            decreases count - i,
        {
            let name = config.service_names[i].clone();
            let cap = service_list[i];
            let ghost before = RegistryModel {
                policy: RegistryPolicy::Immutable,
                names: names_of(entries@),
                caps: caps_of(entries@),
            };
            upsert(&mut entries, name, cap);
            proof {
                assert(given[i as int] == name@);
                lemma_upsert_keeps_wf(before, name@, cap);
            }
            i = i + 1;
        }
        RegistryServer { policy: RegistryPolicy::Immutable, entries }
    }

    /// An immutable registry seeded with pairs of name and capability. Of two
    /// services under one name the later stays, at the place of the first.
    pub fn from_services(services: Vec<(String, Capability)>) -> (registry: RegistryServer)
        ensures
            registry.wf(),
            registry@ == seeded_of(
                RegistryPolicy::Immutable,
                Seq::new(services@.len(), |i: int| services@[i].0@),
                Seq::new(services@.len(), |i: int| services@[i].1),
                services@.len() as int,
            ),
    {
        let mut service_names: Vec<String> = Vec::new();
        let mut caps: Vec<Capability> = Vec::new();
        let mut i: usize = 0;
        while i < services.len()
            invariant
                i <= services@.len(),
                service_names@.len() == i,
                caps@.len() == i,
                forall|k: int| 0 <= k < i ==> service_names@[k]@ == services@[k].0@,
                forall|k: int| 0 <= k < i ==> caps@[k] == services@[k].1,
            decreases services@.len() - i,
        {
            service_names.push(services[i].0.clone());
            caps.push(services[i].1);
            i = i + 1;
        }
        proof {
            assert(string_views(service_names@) =~= Seq::new(
                services@.len(),
                |i: int| services@[i].0@,
            ));
            assert(caps@ =~= Seq::new(services@.len(), |i: int| services@[i].1));
        }
        RegistryServer::init(RegistryConfig { service_names }, caps)
    }

    /// Whether the registry takes registrations.
    pub fn policy(&self) -> (policy: RegistryPolicy)
        ensures
            policy == self@.policy,
    {
        self.policy
    }

    /// The number of services.
    pub fn len(&self) -> (n: usize)
        ensures
            n == self@.names.len(),
    {
        self.entries.len()
    }

    /// The capability registered under `name`, if there is one.
    pub fn get(&self, name: &String) -> (r: Option<Capability>)
        ensures
            r == lookup_of(self@, name@),
    {
        proof {
            use_type_invariant(self);
        }
        match position(&self.entries, name) {
            Some(i) => Some(self.entries[i].cap),
            None => None,
        }
    }

    /// The names of all services, in the order of their first registration.
    pub fn list(&self) -> (names: Vec<String>)
        ensures
            string_views(names@) == self@.names,
    {
        let mut names: Vec<String> = Vec::new();
        let mut i: usize = 0;
        while i < self.entries.len()
            invariant
                i <= self.entries@.len(),
                names@.len() == i,
                forall|k: int| 0 <= k < i ==> names@[k]@ == self.entries@[k].name@,
            decreases self.entries@.len() - i,
        {
            names.push(self.entries[i].name.clone());
            i = i + 1;
        }
        assert(string_views(names@) =~= names_of(self.entries@));
        names
    }

    /// Registers `cap` under `name`. An immutable registry refuses with
    /// `RegistryImmutable`, a mutable one refuses a name that is taken with
    /// `NameTaken`; a registry that refuses is left as it was.
    pub fn register(&mut self, name: String, cap: Capability) -> (r: Result<(), RegistryError>)
        ensures
            final(self).wf(),
            r == register_result(old(self)@, name@),
            final(self)@ == register_of(old(self)@, name@, cap),
            r is Ok ==> final(self)@.names.contains(name@) && lookup_of(final(self)@, name@)
                == Some(cap),
    {
        proof {
            use_type_invariant(&*self);
            lemma_upsert_keeps_wf(self@, name@, cap);
        }
        match self.policy {
            RegistryPolicy::Immutable => Err(RegistryError::RegistryImmutable),
            RegistryPolicy::Mutable => {
                if position(&self.entries, &name).is_some() {
                    Err(RegistryError::NameTaken)
                } else {
                    let ghost before = self@;
                    let mut entries: Vec<Service> = Vec::new();
                    proof {
                        assert(names_of(entries@) =~= Seq::<Seq<char>>::empty());
                    }
                    std::mem::swap(&mut entries, &mut self.entries);
                    upsert(&mut entries, name, cap);
                    proof {
                        lemma_upsert_keeps_wf(before, name@, cap);
                    }
                    self.entries = entries;
                    Ok(())
                }
            },
        }
    }

    /// Removes the service `name`. An immutable registry refuses with
    /// `RegistryImmutable`, a mutable one answers `NotFound` where there is no
    /// such service; a registry that refuses is left as it was.
    pub fn deregister(&mut self, name: &String) -> (r: Result<(), RegistryError>)
        ensures
            final(self).wf(),
            r == deregister_result(old(self)@, name@),
            final(self)@ == deregister_of(old(self)@, name@),
    {
        proof {
            use_type_invariant(&*self);
        }
        match self.policy {
            RegistryPolicy::Immutable => Err(RegistryError::RegistryImmutable),
            RegistryPolicy::Mutable => {
                match position(&self.entries, name) {
                    None => Err(RegistryError::NotFound),
                    Some(i) => {
                        let ghost before = self@;
                        let mut entries: Vec<Service> = Vec::new();
                        proof {
                            assert(names_of(entries@) =~= Seq::<Seq<char>>::empty());
                        }
                        std::mem::swap(&mut entries, &mut self.entries);
                        entries.remove(i);
                        proof {
                            assert(names_of(entries@) =~= before.names.remove(i as int));
                            assert(caps_of(entries@) =~= before.caps.remove(i as int));
                            lemma_remove_keeps_wf(before, i as int);
                        }
                        self.entries = entries;
                        Ok(())
                    },
                }
            },
        }
    }

    /// Serves a request that came with the capabilities `caps`: the answer of
    /// [`RegistryServer::on_request`], to be sent through the first of them.
    /// A request that brings no capability has nowhere to be answered and is
    /// passed over.
    pub fn serve(&self, request: RegistryRequest, caps: &Vec<Capability>) -> (r: Option<Reply>)
        ensures
            r is Some <==> caps@.len() > 0,
            r matches Some(reply) ==> reply.to == caps@[0] && (reply.response@, reply.caps@)
                == respond_of(self@, request),
    {
        if caps.len() == 0 {
            return None;
        }
        let to = caps[0];
        let (response, caps) = self.on_request(request);
        Some(Reply { to, response, caps })
    }

    /// Answers a request: see [`respond_of`].
    pub fn on_request(&self, request: RegistryRequest) -> (r: (RegistryResponse, Vec<Capability>))
        ensures
            (r.0@, r.1@) == respond_of(self@, request),
    {
        match request {
            RegistryRequest::Get { name } => match self.get(&name) {
                Some(cap) => {
                    let mut caps: Vec<Capability> = Vec::new();
                    caps.push(cap);
                    assert(caps@ =~= seq![cap]);
                    (RegistryResponse::Get(true), caps)
                },
                None => (RegistryResponse::Get(false), Vec::new()),
            },
            RegistryRequest::Register { .. } => (RegistryResponse::Register(None), Vec::new()),
            RegistryRequest::List => (RegistryResponse::List(self.list()), Vec::new()),
        }
    }
}

/// The position of the service `name`, if there is one.
fn position(entries: &Vec<Service>, name: &String) -> (r: Option<usize>)
    requires
        names_of(entries@).no_duplicates(),
    ensures
        r is Some <==> names_of(entries@).contains(name@),
        r matches Some(i) ==> i < entries@.len() && i == names_of(entries@).index_of(name@),
{
    let ghost views = names_of(entries@);
    let mut i: usize = 0;
    while i < entries.len()
        invariant
            i <= entries@.len(),
            views == names_of(entries@),
            views.no_duplicates(),
            forall|k: int| 0 <= k < i ==> views[k] != name@,
        decreases entries@.len() - i,
    {
        if entries[i].name == *name {
            proof {
                assert(views[i as int] == name@);
                let j = views.index_of(name@);
                assert(views.contains(name@));
                assert(0 <= j < views.len() && views[j] == name@);
            }
            return Some(i);
        }
        i = i + 1;
    }
    None
}

/// Puts `cap` under `name`: in place of the capability that was there, or at
/// the end.
fn upsert(entries: &mut Vec<Service>, name: String, cap: Capability)
    requires
        names_of(old(entries)@).no_duplicates(),
    ensures
        names_of(final(entries)@) == upsert_names(names_of(old(entries)@), name@),
        caps_of(final(entries)@) == upsert_caps(
            names_of(old(entries)@),
            caps_of(old(entries)@),
            name@,
            cap,
        ),
{
    match position(entries, &name) {
        Some(i) => {
            entries[i].cap = cap;
            assert(names_of(entries@) =~= names_of(old(entries)@));
            assert(caps_of(entries@) =~= caps_of(old(entries)@).update(i as int, cap));
        },
        None => {
            entries.push(Service { name, cap });
            assert(names_of(entries@) =~= names_of(old(entries)@).push(name@));
            assert(caps_of(entries@) =~= caps_of(old(entries)@).push(cap));
        },
    }
}

/// Putting a capability under a name keeps the invariant, and the name then
/// leads to that capability while every other name leads where it led.
pub proof fn lemma_upsert_keeps_wf(r: RegistryModel, name: Seq<char>, cap: Capability)
    requires
        registry_wf(r),
    ensures
        registry_wf(upsert_of(r, name, cap)),
        lookup_of(upsert_of(r, name, cap), name) == Some(cap),
        forall|other: Seq<char>|
            other != name ==> lookup_of(upsert_of(r, name, cap), other) == lookup_of(r, other),
{
    let after = upsert_of(r, name, cap);
    if r.names.contains(name) {
        let i = r.names.index_of(name);
        assert forall|other: Seq<char>| other != name implies lookup_of(after, other) == lookup_of(
            r,
            other,
        ) by {
            if r.names.contains(other) {
                let j = r.names.index_of(other);
                assert(j != i);
            }
        }
    } else {
        let n = r.names.len() as int;
        assert(after.names[n] == name);
        assert(after.names.contains(name));
        assert forall|a: int, b: int|
            0 <= a < after.names.len() && 0 <= b < after.names.len() && a != b implies after.names[a]
            != after.names[b] by {
            if a < n {
                assert(r.names.contains(r.names[a]));
            }
            if b < n {
                assert(r.names.contains(r.names[b]));
            }
        }
        let i = after.names.index_of(name);
        assert(i == n);
        assert forall|other: Seq<char>| other != name implies lookup_of(after, other) == lookup_of(
            r,
            other,
        ) by {
            if r.names.contains(other) {
                let j = r.names.index_of(other);
                assert(after.names[j] == other);
                assert(after.names.contains(other));
                let k = after.names.index_of(other);
                assert(k == j);
            }
            if after.names.contains(other) {
                let k = after.names.index_of(other);
                assert(k < n);
                assert(r.names[k] == other);
            }
        }
    }
}

/// Removing the service at a position keeps the invariant.
pub proof fn lemma_remove_keeps_wf(r: RegistryModel, at: int)
    requires
        registry_wf(r),
        0 <= at < r.names.len(),
    ensures
        registry_wf(RegistryModel { names: r.names.remove(at), caps: r.caps.remove(at), ..r }),
        !r.names.remove(at).contains(r.names[at]),
{
    let names = r.names.remove(at);
    assert forall|a: int, b: int| 0 <= a < names.len() && 0 <= b < names.len() && a != b implies names[a]
        != names[b] by {
        let aa = if a < at {
            a
        } else {
            a + 1
        };
        let bb = if b < at {
            b
        } else {
            b + 1
        };
        assert(names[a] == r.names[aa] && names[b] == r.names[bb]);
    }
    if names.contains(r.names[at]) {
        let k = choose|k: int| 0 <= k < names.len() && names[k] == r.names[at];
        let kk = if k < at {
            k
        } else {
            k + 1
        };
        assert(r.names[kk] == r.names[at]);
    }
}

/// A registration at an immutable registry changes nothing and is refused,
/// whether or not the name is registered.
pub proof fn lemma_immutable_registry_unchanged(r: RegistryModel, name: Seq<char>, cap: Capability)
    requires
        r.policy is Immutable,
    ensures
        register_of(r, name, cap) == r,
        register_result(r, name) is Err,
        respond_of(r, (RegistryRequest::Register { name: arbitrary() })).0
            == RegistryResponseModel::Register(None),
{
}

/// A registration at a mutable registry under a name that is taken changes
/// nothing and is refused; under a free name the service is found afterwards.
pub proof fn lemma_mutable_registry_register(r: RegistryModel, name: Seq<char>, cap: Capability)
    requires
        registry_wf(r),
        r.policy is Mutable,
    ensures
        r.names.contains(name) ==> register_of(r, name, cap) == r && register_result(r, name)
            == Err::<(), RegistryError>(RegistryError::NameTaken),
        !r.names.contains(name) ==> lookup_of(register_of(r, name, cap), name) == Some(cap)
            && register_result(r, name) is Ok,
{
    lemma_upsert_keeps_wf(r, name, cap);
}

} // verus!
