//! The two lookup indexes: IP address to workload and to the object that
//! bound the address last, and pod to its memoized
//! workload. Both are hash maps of the `ahash` crate; what Verus knows of
//! them is what the declarations below state.

use vstd::prelude::*;
use ahash::AHashMap;
use crate::objects::{headless, ObjectKey};
use crate::workload::{text_is, Kind, Workload, WorkloadView};

verus! {

pub struct BindingView {
    pub workload: WorkloadView,
    pub kind: Kind,
    pub key: ObjectKey,
}

impl BindingView {
    /// The object that bound the address: its kind and its key.
    pub open spec fn owner(self) -> (Kind, ObjectKey) {
        (self.kind, self.key)
    }
}

/// What the IP index holds under an address: the workload that the address
/// belongs to, and the object that bound it last.
#[derive(Clone, Debug)]
pub struct Binding {
    pub workload: Workload,
    pub kind: Kind,
    pub namespace: String,
    pub name: String,
}

impl View for Binding {
    type V = BindingView;

    open spec fn view(&self) -> BindingView {
        BindingView {
            workload: self.workload@,
            kind: self.kind,
            key: (self.namespace@, self.name@),
        }
    }
}

impl Binding {
    pub fn new(workload: Workload, kind: Kind, namespace: String, name: String) -> (b: Binding)
        ensures
            b@ == (BindingView { workload: workload@, kind, key: (namespace@, name@) }),
    {
        Binding { workload, kind, namespace, name }
    }

    pub fn duplicate(&self) -> (b: Binding)
        ensures
            b@ == self@,
    {
        Binding {
            workload: self.workload.duplicate(),
            kind: self.kind,
            namespace: self.namespace.clone(),
            name: self.name.clone(),
        }
    }

    /// Whether the object of `kind` under the key is the one that bound the
    /// address.
    pub fn owned_by(&self, kind: Kind, namespace: &str, name: &str) -> (r: bool)
        ensures
            r == (self@.owner() == (kind, (namespace@, name@))),
    {
        self.kind == kind && text_is(self.namespace.as_str(), namespace) && text_is(
            self.name.as_str(),
            name,
        )
    }
}

#[verifier::external_type_specification]
#[verifier::external_body]
#[verifier::reject_recursive_types(K)]
#[verifier::reject_recursive_types(V)]
#[verifier::reject_recursive_types(S)]
pub struct ExAHashMap<K, V, S>(AHashMap<K, V, S>);

#[verifier::external_type_specification]
#[verifier::external_body]
pub struct ExRandomState(ahash::RandomState);

/// What a map from address text to binding holds.
pub uninterp spec fn ip_entries(m: AHashMap<String, Binding>) -> Map<Seq<char>, BindingView>;

/// What a map from pod identity to workload holds.
pub uninterp spec fn pod_entries(m: AHashMap<(String, String), Workload>) -> Map<
    ObjectKey,
    WorkloadView,
>;

/// `AHashMap::new`: the map it returns holds nothing.
#[verifier::external_body]
fn ip_map_new() -> (fresh: AHashMap<String, Binding>)
    ensures
        ip_entries(fresh).dom() == Set::<Seq<char>>::empty(),
{
    AHashMap::new()
}

/// `AHashMap::get`, with the value cloned: the entry under the key, if the
/// map holds one.
#[verifier::external_body]
fn ip_map_get(m: &AHashMap<String, Binding>, key: &str) -> (r: Option<Binding>)
    ensures
        match r {
            Some(w) => ip_entries(*m).contains_key(key@) && ip_entries(*m)[key@] == w@,
            None => !ip_entries(*m).contains_key(key@),
        },
{
    m.get(key).cloned()
}

/// `AHashMap::insert`: the map then holds the value under the key, and every
/// other entry as before.
#[verifier::external_body]
fn ip_map_insert(m: &mut AHashMap<String, Binding>, key: String, value: Binding)
    ensures
        ip_entries(*final(m)) == ip_entries(*old(m)).insert(key@, value@),
{
    m.insert(key, value);
}

/// `AHashMap::remove`: the map then holds nothing under the key, and every
/// other entry as before.
#[verifier::external_body]
fn ip_map_remove(m: &mut AHashMap<String, Binding>, key: &str)
    ensures
        ip_entries(*final(m)) == ip_entries(*old(m)).remove(key@),
{
    m.remove(key);
}

/// `AHashMap::new`: the map it returns holds nothing.
#[verifier::external_body]
fn pod_map_new() -> (fresh: AHashMap<(String, String), Workload>)
    ensures
        pod_entries(fresh).dom() == Set::<ObjectKey>::empty(),
{
    AHashMap::new()
}

/// `AHashMap::get`, with the value cloned: the entry under the key, if the
/// map holds one.
#[verifier::external_body]
fn pod_map_get(m: &AHashMap<(String, String), Workload>, namespace: &str, name: &str) -> (r:
    Option<Workload>)
    ensures
        match r {
            Some(w) => pod_entries(*m).contains_key((namespace@, name@)) && pod_entries(*m)[(
                namespace@,
                name@,
            )] == w@,
            None => !pod_entries(*m).contains_key((namespace@, name@)),
        },
{
    m.get(&(namespace.to_owned(), name.to_owned())).cloned()
}

/// `AHashMap::insert`: the map then holds the value under the key, and every
/// other entry as before.
#[verifier::external_body]
fn pod_map_insert(
    m: &mut AHashMap<(String, String), Workload>,
    namespace: String,
    name: String,
    value: Workload,
)
    ensures
        pod_entries(*final(m)) == pod_entries(*old(m)).insert((namespace@, name@), value@),
{
    m.insert((namespace, name), value);
}

/// `AHashMap::remove`: the map then holds nothing under the key, and every
/// other entry as before.
#[verifier::external_body]
fn pod_map_remove(m: &mut AHashMap<(String, String), Workload>, namespace: &str, name: &str)
    ensures
        pod_entries(*final(m)) == pod_entries(*old(m)).remove((namespace@, name@)),
{
    m.remove(&(namespace.to_owned(), name.to_owned()));
}

/// The hot-path index from an address to the workload it belongs to.
pub struct IpIndex {
    map: AHashMap<String, Binding>,
}

impl View for IpIndex {
    type V = Map<Seq<char>, BindingView>;

    closed spec fn view(&self) -> Map<Seq<char>, BindingView> {
        ip_entries(self.map)
    }
}

impl IpIndex {
    pub fn new() -> (r: IpIndex)
        ensures
            r@ == Map::<Seq<char>, BindingView>::empty(),
    {
        let r = IpIndex { map: ip_map_new() };
        proof {
            assert(r@ =~= Map::<Seq<char>, BindingView>::empty());
        }
        r
    }

    /// The workload that the address is bound to.
    pub fn lookup_ip(&self, ip: &str) -> (r: Option<Workload>)
        ensures
            match r {
                Some(w) => self@.contains_key(ip@) && self@[ip@].workload == w@,
                None => !self@.contains_key(ip@),
            },
    {
        match ip_map_get(&self.map, ip) {
            Some(b) => Some(b.workload),
            None => None,
        }
    }

    /// The binding of the address: its workload and the object that bound
    /// it last.
    pub fn binding(&self, ip: &str) -> (r: Option<Binding>)
        ensures
            match r {
                Some(b) => self@.contains_key(ip@) && self@[ip@] == b@,
                None => !self@.contains_key(ip@),
            },
    {
        ip_map_get(&self.map, ip)
    }

    /// Binds the address; the last writer wins. The headless marker is no
    /// address and is never bound.
    pub fn associate_ip(&mut self, ip: &str, binding: &Binding)
        ensures
            final(self)@ == if ip@ == headless() {
                old(self)@
            } else {
                old(self)@.insert(ip@, binding@)
            },
    {
        if !text_is(ip, "None") {
            ip_map_insert(&mut self.map, ip.to_owned(), binding.duplicate());
        }
    }

    /// Unbinds the address, whoever bound it.
    pub fn dissociate_ip(&mut self, ip: &str)
        ensures
            final(self)@ == old(self)@.remove(ip@),
    {
        ip_map_remove(&mut self.map, ip);
    }

    /// Unbinds the address where the object of `kind` under the key is the
    /// one that bound it last; an address that a distinct object has bound
    /// since stays.
    pub fn release(&mut self, ip: &str, kind: Kind, namespace: &str, name: &str)
        ensures
            final(self)@ == if old(self)@.contains_key(ip@) && old(self)@[ip@].owner() == (
                kind,
                (namespace@, name@),
            ) {
                old(self)@.remove(ip@)
            } else {
                old(self)@
            },
    {
        let held = match ip_map_get(&self.map, ip) {
            Some(b) => b.owned_by(kind, namespace, name),
            None => false,
        };
        if held {
            ip_map_remove(&mut self.map, ip);
        }
    }
}

/// The memoized resolutions, keyed by the pod's namespace and name.
pub struct PodIndex {
    map: AHashMap<(String, String), Workload>,
}

impl View for PodIndex {
    type V = Map<ObjectKey, WorkloadView>;

    closed spec fn view(&self) -> Map<ObjectKey, WorkloadView> {
        pod_entries(self.map)
    }
}

impl PodIndex {
    pub fn new() -> (r: PodIndex)
        ensures
            r@ == Map::<ObjectKey, WorkloadView>::empty(),
    {
        let r = PodIndex { map: pod_map_new() };
        proof {
            assert(r@ =~= Map::<ObjectKey, WorkloadView>::empty());
        }
        r
    }

    pub fn lookup_pod(&self, namespace: &str, name: &str) -> (r: Option<Workload>)
        ensures
            match r {
                Some(w) => self@.contains_key((namespace@, name@)) && self@[(namespace@, name@)]
                    == w@,
                None => !self@.contains_key((namespace@, name@)),
            },
    {
        pod_map_get(&self.map, namespace, name)
    }

    pub fn remember(&mut self, namespace: &str, name: &str, workload: &Workload)
        ensures
            final(self)@ == old(self)@.insert((namespace@, name@), workload@),
    {
        pod_map_insert(&mut self.map, namespace.to_owned(), name.to_owned(), workload.duplicate());
    }

    pub fn forget(&mut self, namespace: &str, name: &str)
        ensures
            final(self)@ == old(self)@.remove((namespace@, name@)),
    {
        pod_map_remove(&mut self.map, namespace, name);
    }
}

} // verus!
