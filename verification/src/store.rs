//! A typed store: the objects of one kind, keyed by namespace and name, with
//! the flag that says whether the first full listing has been taken in. The
//! objects are held in a hash map of the `ahash` crate; what Verus knows of
//! it is what the declarations below state.

use vstd::prelude::*;
use ahash::AHashMap;
use crate::objects::{Envelope, EnvelopeView, ObjectKey};

verus! {

pub struct StoreView {
    pub objects: Map<ObjectKey, EnvelopeView>,
    pub ready: bool,
    pub degraded: bool,
}

/// The mapping that a full listing stands for: its items taken in one after
/// the other, a later item replacing an earlier one of the same key.
pub open spec fn listing(items: Seq<EnvelopeView>) -> Map<ObjectKey, EnvelopeView>
    decreases items.len(),
{
    if items.len() == 0 {
        Map::empty()
    } else {
        listing(items.drop_last()).insert(items.last().key(), items.last())
    }
}

pub open spec fn envelope_views(s: Seq<Envelope>) -> Seq<EnvelopeView> {
    Seq::new(s.len(), |i: int| s[i]@)
}

/// What a map from object key to object holds.
pub uninterp spec fn store_entries(m: AHashMap<(String, String), Envelope>) -> Map<
    ObjectKey,
    EnvelopeView,
>;

/// `AHashMap::new`: the map it returns holds nothing.
#[verifier::external_body]
fn store_map_new() -> (fresh: AHashMap<(String, String), Envelope>)
    ensures
        store_entries(fresh).dom() == Set::<ObjectKey>::empty(),
{
    AHashMap::new()
}

/// `AHashMap::get`: the entry under the key, if the map holds one.
#[verifier::external_body]
fn store_map_get<'a>(
    m: &'a AHashMap<(String, String), Envelope>,
    namespace: &str,
    name: &str,
) -> (r: Option<&'a Envelope>)
    ensures
        match r {
            Some(e) => store_entries(*m).contains_key((namespace@, name@)) && store_entries(*m)[(
                namespace@,
                name@,
            )] == e@,
            None => !store_entries(*m).contains_key((namespace@, name@)),
        },
{
    m.get(&(namespace.to_owned(), name.to_owned()))
}

/// `AHashMap::insert`: the map then holds the value under the key, and every
/// other entry as before.
#[verifier::external_body]
fn store_map_insert(
    m: &mut AHashMap<(String, String), Envelope>,
    namespace: String,
    name: String,
    value: Envelope,
)
    ensures
        store_entries(*final(m)) == store_entries(*old(m)).insert((namespace@, name@), value@),
{
    m.insert((namespace, name), value);
}

/// `AHashMap::remove`: the map then holds nothing under the key, and every
/// other entry as before.
#[verifier::external_body]
fn store_map_remove(m: &mut AHashMap<(String, String), Envelope>, namespace: &str, name: &str)
    ensures
        store_entries(*final(m)) == store_entries(*old(m)).remove((namespace@, name@)),
{
    m.remove(&(namespace.to_owned(), name.to_owned()));
}

/// `HashMap::keys`, reached through the map's `Deref`, each key cloned:
/// every key handed out is one of the map, and every key of the map is
/// handed out. Nothing is said of their order.
#[verifier::external_body]
fn store_map_keys(m: &AHashMap<(String, String), Envelope>) -> (r: Vec<(String, String)>)
    ensures
        forall|i: int|
            0 <= i < r.len() ==> store_entries(*m).contains_key(((#[trigger] r[i]).0@, r[i].1@)),
        forall|k: ObjectKey| #[trigger]
            store_entries(*m).contains_key(k) ==> exists|i: int|
                0 <= i < r.len() && (#[trigger] r[i]).0@ == k.0 && r[i].1@ == k.1,
{
    m.keys().cloned().collect()
}

/// `HashMap::len`, reached through the map's `Deref`: the number of keys.
#[verifier::external_body]
fn store_map_len(m: &AHashMap<(String, String), Envelope>) -> (n: usize)
    ensures
        n == store_entries(*m).dom().len(),
{
    m.len()
}

pub struct Store {
    map: AHashMap<(String, String), Envelope>,
    ready: bool,
    degraded: bool,
}

impl View for Store {
    type V = StoreView;

    closed spec fn view(&self) -> StoreView {
        StoreView { objects: store_entries(self.map), ready: self.ready, degraded: self.degraded }
    }
}

impl Store {
    /// Every object is held under its own namespace and name.
    pub open spec fn wf(&self) -> bool {
        forall|k: ObjectKey| #[trigger]
            self@.objects.contains_key(k) ==> self@.objects[k].key() == k
    }

    pub fn new() -> (s: Store)
        ensures
            s.wf(),
            s@ == (StoreView { objects: Map::empty(), ready: false, degraded: false }),
    {
        let s = Store { map: store_map_new(), ready: false, degraded: false };
        proof {
            assert(s@.objects =~= Map::empty());
        }
        s
    }

    /// The object held under a key, if there is one.
    pub fn get(&self, namespace: &str, name: &str) -> (r: Option<&Envelope>)
        requires
            self.wf(),
        ensures
            match r {
                Some(e) => self@.objects.contains_key((namespace@, name@)) && self@.objects[(
                    namespace@,
                    name@,
                )] == e@ && e@.key() == (namespace@, name@),
                None => !self@.objects.contains_key((namespace@, name@)),
            },
    {
        let r = store_map_get(&self.map, namespace, name);
        proof {
            if r.is_some() {
                assert(self@.objects.contains_key((namespace@, name@)));
            }
        }
        r
    }

    /// Inserts the object, or replaces the one held under its key.
    pub fn upsert(&mut self, envelope: Envelope)
        requires
            old(self).wf(),
        ensures
            final(self).wf(),
            final(self)@ == (StoreView {
                objects: old(self)@.objects.insert(envelope@.key(), envelope@),
                ..old(self)@
            }),
    {
        let ghost before = self@.objects;
        let ghost key = envelope@.key();
        let ghost value = envelope@;
        let namespace = envelope.namespace.clone();
        let name = envelope.name.clone();
        store_map_insert(&mut self.map, namespace, name, envelope);
        proof {
            assert(self@.objects == before.insert(key, value));
            assert forall|k: ObjectKey| #[trigger] self@.objects.contains_key(k) implies self@.objects[k].key()
                == k by {
                if k != key {
                    assert(before.contains_key(k));
                }
            }
        }
    }

    /// Removes the object held under a key, if there is one.
    pub fn delete(&mut self, namespace: &str, name: &str)
        requires
            old(self).wf(),
        ensures
            final(self).wf(),
            final(self)@ == (StoreView {
                objects: old(self)@.objects.remove((namespace@, name@)),
                ..old(self)@
            }),
    {
        let ghost before = self@.objects;
        store_map_remove(&mut self.map, namespace, name);
        proof {
            assert forall|k: ObjectKey| #[trigger] self@.objects.contains_key(k) implies self@.objects[k].key()
                == k by {
                assert(before.contains_key(k));
            }
        }
    }

    /// Replaces the contents by a full listing: whatever the store held
    /// before, it then holds exactly what the listing stands for.
    pub fn relist(&mut self, snapshot: &Vec<Envelope>)
        requires
            old(self).wf(),
        ensures
            final(self).wf(),
            final(self)@ == (StoreView {
                objects: listing(envelope_views(snapshot@)),
                ..old(self)@
            }),
    {
        let ghost views = envelope_views(snapshot@);
        self.map = store_map_new();
        proof {
            assert(self@.objects =~= listing(views.take(0)));
        }
        let mut i: usize = 0;
        while i < snapshot.len()
            invariant
                i <= snapshot.len(),
                views == envelope_views(snapshot@),
                self.wf(),
                self@.ready == old(self)@.ready,
                self@.degraded == old(self)@.degraded,
                self@.objects == listing(views.take(i as int)),
            decreases snapshot.len() - i,
        {
            self.upsert(snapshot[i].duplicate());
            proof {
                assert(views.take(i + 1).drop_last() =~= views.take(i as int));
                assert(views.take(i + 1).last() == views[i as int]);
            }
            i += 1;
        }
        proof {
            assert(views.take(snapshot.len() as int) =~= views);
        }
    }

    /// The keys of the objects held, in no particular order.
    pub fn keys(&self) -> (r: Vec<(String, String)>)
        ensures
            forall|i: int|
                0 <= i < r.len() ==> self@.objects.contains_key(((#[trigger] r[i]).0@, r[i].1@)),
            forall|k: ObjectKey| #[trigger]
                self@.objects.contains_key(k) ==> exists|i: int|
                    0 <= i < r.len() && (#[trigger] r[i]).0@ == k.0 && r[i].1@ == k.1,
    {
        store_map_keys(&self.map)
    }

    /// The number of objects held.
    pub fn len(&self) -> (n: usize)
        ensures
            n == self@.objects.dom().len(),
    {
        store_map_len(&self.map)
    }

    /// Records that the first full listing has been taken in.
    pub fn mark_ready(&mut self)
        requires
            old(self).wf(),
        ensures
            final(self).wf(),
            final(self)@ == (StoreView { ready: true, ..old(self)@ }),
    {
        self.ready = true;
    }

    /// Records that the store's reflector has ended on a fatal error.
    pub fn mark_degraded(&mut self)
        requires
            old(self).wf(),
        ensures
            final(self).wf(),
            final(self)@ == (StoreView { degraded: true, ..old(self)@ }),
    {
        self.degraded = true;
    }

    pub fn is_ready(&self) -> (r: bool)
        ensures
            r == self@.ready,
    {
        self.ready
    }

    pub fn is_degraded(&self) -> (r: bool)
        ensures
            r == self@.degraded,
    {
        self.degraded
    }
}

} // verus!
