//! What the cache keeps of an observed object: its identity, its owner
//! references and the addresses it carries.

use vstd::prelude::*;
use crate::ip::{is_ip_literal, parses_as_ip};

verus! {

/// The literal that a headless service carries in place of a cluster IP.
pub open spec fn headless() -> Seq<char> {
    "None"@
}

pub struct OwnerRefView {
    pub kind: Seq<char>,
    pub name: Seq<char>,
    pub controller: bool,
}

/// A reference from an object to a parent, as found in its metadata.
#[derive(Debug)]
pub struct OwnerRef {
    pub kind: String,
    pub name: String,
    pub controller: bool,
}

impl View for OwnerRef {
    type V = OwnerRefView;

    open spec fn view(&self) -> OwnerRefView {
        OwnerRefView { kind: self.kind@, name: self.name@, controller: self.controller }
    }
}

impl OwnerRef {
    pub fn new(kind: String, name: String, controller: bool) -> (o: OwnerRef)
        ensures
            o@ == (OwnerRefView { kind: kind@, name: name@, controller }),
    {
        OwnerRef { kind, name, controller }
    }

    pub fn duplicate(&self) -> (o: OwnerRef)
        ensures
            o@ == self@,
    {
        OwnerRef { kind: self.kind.clone(), name: self.name.clone(), controller: self.controller }
    }

    pub fn same_as(&self, other: &OwnerRef) -> (r: bool)
        ensures
            r == (self@ == other@),
    {
        self.kind == other.kind && self.name == other.name && self.controller == other.controller
    }
}

pub struct AddressView {
    pub text: Seq<char>,
}

/// An address as it stands on an object: a pod IP, a node address, or a
/// cluster IP of a service.
#[derive(Debug)]
pub struct Address {
    pub text: String,
}

impl View for Address {
    type V = AddressView;

    open spec fn view(&self) -> AddressView {
        AddressView { text: self.text@ }
    }
}

impl AddressView {
    /// Whether the address enters the IP index: it is not the headless
    /// marker, not empty, and an IPv4 or IPv6 literal.
    pub open spec fn contributes(self) -> bool {
        self.text != headless() && self.text.len() > 0 && is_ip_literal(self.text)
    }
}

impl Address {
    pub fn new(text: String) -> (a: Address)
        ensures
            a@ == (AddressView { text: text@ }),
    {
        Address { text }
    }

    pub fn duplicate(&self) -> (a: Address)
        ensures
            a@ == self@,
    {
        Address { text: self.text.clone() }
    }

    /// The headless marker and the empty text are turned away before the
    /// text is parsed.
    pub fn contributes(&self) -> (r: bool)
        ensures
            r == self@.contributes(),
    {
        if crate::workload::text_is(self.text.as_str(), "None") {
            false
        } else if crate::workload::text_is(self.text.as_str(), "") {
            proof {
                reveal_strlit("");
            }
            false
        } else {
            proof {
                reveal_strlit("");
                assert(self.text@.len() == 0 ==> self.text@ =~= ""@);
            }
            parses_as_ip(self.text.as_str())
        }
    }
}

pub open spec fn owner_views(s: Seq<OwnerRef>) -> Seq<OwnerRefView> {
    Seq::new(s.len(), |i: int| s[i]@)
}

pub open spec fn address_views(s: Seq<Address>) -> Seq<AddressView> {
    Seq::new(s.len(), |i: int| s[i]@)
}

/// The first owner reference at or after `from` that is marked as controller.
pub open spec fn controller_from(owners: Seq<OwnerRefView>, from: int) -> Option<OwnerRefView>
    decreases owners.len() - from,
{
    if from < 0 || from >= owners.len() {
        None
    } else if owners[from].controller {
        Some(owners[from])
    } else {
        controller_from(owners, from + 1)
    }
}

/// The controller owner reference of an object: the first one marked so.
pub open spec fn controller_of(owners: Seq<OwnerRefView>) -> Option<OwnerRefView> {
    controller_from(owners, 0)
}

/// The set of addresses that a list of addresses enters into the IP index.
pub open spec fn contributed(addresses: Seq<AddressView>) -> Set<Seq<char>> {
    Set::new(
        |ip: Seq<char>|
            exists|i: int|
                0 <= i < addresses.len() && #[trigger] addresses[i].text == ip
                    && addresses[i].contributes(),
    )
}

/// Taking one more address into account adds its text where it contributes,
/// and nothing else.
pub proof fn lemma_contributed_step(addresses: Seq<AddressView>, i: int)
    requires
        0 <= i < addresses.len(),
    ensures
        contributed(addresses.take(i + 1)) == if addresses[i].contributes() {
            contributed(addresses.take(i)).insert(addresses[i].text)
        } else {
            contributed(addresses.take(i))
        },
{
    let more = addresses.take(i + 1);
    let less = addresses.take(i);
    let want = if addresses[i].contributes() {
        contributed(less).insert(addresses[i].text)
    } else {
        contributed(less)
    };
    assert forall|ip: Seq<char>| contributed(more).contains(ip) == want.contains(ip) by {
        if contributed(more).contains(ip) {
            let j = choose|j: int|
                0 <= j < more.len() && #[trigger] more[j].text == ip && more[j].contributes();
            if j < i {
                assert(less[j].text == ip && less[j].contributes());
            }
        }
        if contributed(less).contains(ip) {
            let j = choose|j: int|
                0 <= j < less.len() && #[trigger] less[j].text == ip && less[j].contributes();
            assert(more[j].text == ip && more[j].contributes());
        }
        if addresses[i].contributes() && ip == addresses[i].text {
            assert(more[i].text == ip && more[i].contributes());
        }
    }
    assert(contributed(more) =~= want);
}

/// An object without addresses contributes nothing.
pub proof fn lemma_no_addresses()
    ensures
        contributed(Seq::<AddressView>::empty()) == Set::<Seq<char>>::empty(),
{
    assert(contributed(Seq::<AddressView>::empty()) =~= Set::<Seq<char>>::empty());
}

/// Addresses that all read as the headless marker contribute nothing, and
/// the marker itself is never contributed.
pub proof fn lemma_headless_contributes_nothing(addresses: Seq<AddressView>)
    ensures
        !contributed(addresses).contains(headless()),
        (forall|i: int| 0 <= i < addresses.len() ==> (#[trigger] addresses[i]).text == headless())
            ==> contributed(addresses) == Set::<Seq<char>>::empty(),
{
    if forall|i: int| 0 <= i < addresses.len() ==> (#[trigger] addresses[i]).text == headless() {
        assert(contributed(addresses) =~= Set::<Seq<char>>::empty());
    }
}

pub type ObjectKey = (Seq<char>, Seq<char>);

pub struct EnvelopeView {
    pub namespace: Seq<char>,
    pub name: Seq<char>,
    pub owners: Seq<OwnerRefView>,
    pub addresses: Seq<AddressView>,
}

impl EnvelopeView {
    /// The key under which a store holds the object.
    pub open spec fn key(self) -> ObjectKey {
        (self.namespace, self.name)
    }

    /// An object without a name lacks what the cache requires of it.
    pub open spec fn malformed(self) -> bool {
        self.name.len() == 0
    }
}

/// The pruned form of an observed object: identity, owner references, and
/// the addresses from its status (pod IPs, node addresses) or its spec
/// (cluster IPs of a service).
#[derive(Debug)]
pub struct Envelope {
    pub namespace: String,
    pub name: String,
    pub owners: Vec<OwnerRef>,
    pub addresses: Vec<Address>,
}

impl View for Envelope {
    type V = EnvelopeView;

    open spec fn view(&self) -> EnvelopeView {
        EnvelopeView {
            namespace: self.namespace@,
            name: self.name@,
            owners: owner_views(self.owners@),
            addresses: address_views(self.addresses@),
        }
    }
}

impl Envelope {
    pub fn new(namespace: String, name: String, owners: Vec<OwnerRef>, addresses: Vec<Address>) -> (e:
        Envelope)
        ensures
            e@ == (EnvelopeView {
                namespace: namespace@,
                name: name@,
                owners: owner_views(owners@),
                addresses: address_views(addresses@),
            }),
    {
        Envelope { namespace, name, owners, addresses }
    }

    pub fn duplicate(&self) -> (e: Envelope)
        ensures
            e@ == self@,
    {
        let mut owners: Vec<OwnerRef> = Vec::new();
        let mut i: usize = 0;
        while i < self.owners.len()
            invariant
                i <= self.owners.len(),
                owners.len() == i,
                forall|j: int| 0 <= j < i ==> owners[j]@ == self.owners[j]@,
            decreases self.owners.len() - i,
        {
            owners.push(self.owners[i].duplicate());
            i += 1;
        }
        let mut addresses: Vec<Address> = Vec::new();
        let mut k: usize = 0;
        while k < self.addresses.len()
            invariant
                k <= self.addresses.len(),
                addresses.len() == k,
                forall|j: int| 0 <= j < k ==> addresses[j]@ == self.addresses[j]@,
            decreases self.addresses.len() - k,
        {
            addresses.push(self.addresses[k].duplicate());
            k += 1;
        }
        proof {
            assert(owner_views(owners@) =~= owner_views(self.owners@));
            assert(address_views(addresses@) =~= address_views(self.addresses@));
        }
        Envelope {
            namespace: self.namespace.clone(),
            name: self.name.clone(),
            owners,
            addresses,
        }
    }

    pub fn is_malformed(&self) -> (r: bool)
        ensures
            r == self@.malformed(),
    {
        proof {
            reveal_strlit("");
            assert(self.name@.len() == 0 ==> self.name@ =~= ""@);
        }
        crate::workload::text_is(self.name.as_str(), "")
    }

    /// Whether the object is the one that a store holds under this key.
    pub fn has_key(&self, namespace: &str, name: &str) -> (r: bool)
        ensures
            r == (self@.key() == (namespace@, name@)),
    {
        crate::workload::text_is(self.namespace.as_str(), namespace)
            && crate::workload::text_is(self.name.as_str(), name)
    }

    /// The first owner reference that is marked as controller.
    pub fn controller(&self) -> (r: Option<OwnerRef>)
        ensures
            match r {
                Some(o) => controller_of(self@.owners) == Some(o@),
                None => controller_of(self@.owners).is_none(),
            },
    {
        let mut i: usize = 0;
        while i < self.owners.len()
            invariant
                i <= self.owners.len(),
                controller_from(self@.owners, i as int) == controller_of(self@.owners),
            decreases self.owners.len() - i,
        {
            if self.owners[i].controller {
                return Some(self.owners[i].duplicate());
            }
            i += 1;
        }
        None
    }
}

} // verus!
