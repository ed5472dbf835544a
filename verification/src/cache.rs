//! The cache manager: the nine stores, the two lookup indexes, and the
//! rules by which an observed event changes them.

use vstd::prelude::*;
use crate::index::{Binding, BindingView, IpIndex, PodIndex};
use crate::objects::{
    address_views, contributed, controller_of, headless, lemma_contributed_step,
    lemma_headless_contributes_nothing, Address, AddressView, Envelope, EnvelopeView, ObjectKey,
    OwnerRef, OwnerRefView,
};
use crate::resolver::{
    lemma_resolution_sound, reaches, resolution, resolve, Resolution, MAX_DEPTH,
};
use crate::store::{envelope_views, listing, Store, StoreView};
use crate::topology::{Stores, StoresView};
use crate::workload::{Kind, Workload, WorkloadView};

verus! {

pub struct CacheView {
    pub stores: StoresView,
    pub pods: Map<ObjectKey, WorkloadView>,
    pub ips: Map<Seq<char>, BindingView>,
    pub limit: nat,
}

/// The index with every address of `come` bound by `binding`.
pub open spec fn bound(
    ips: Map<Seq<char>, BindingView>,
    come: Set<Seq<char>>,
    binding: BindingView,
) -> Map<Seq<char>, BindingView> {
    Map::new(
        |ip: Seq<char>| come.contains(ip) || ips.contains_key(ip),
        |ip: Seq<char>|
            if come.contains(ip) {
                binding
            } else {
                ips[ip]
            },
    )
}

/// The addresses of `gone` that `owner` was the last to bind.
pub open spec fn owned(
    ips: Map<Seq<char>, BindingView>,
    gone: Set<Seq<char>>,
    owner: (Kind, ObjectKey),
) -> Set<Seq<char>> {
    Set::new(|ip: Seq<char>| gone.contains(ip) && ips.contains_key(ip) && ips[ip].owner() == owner)
}

/// The index after `owner` gave up the addresses of `gone`: each leaves
/// the index where `owner` was the last to bind it, and stays where a
/// distinct object has bound it since.
pub open spec fn released(
    ips: Map<Seq<char>, BindingView>,
    gone: Set<Seq<char>>,
    owner: (Kind, ObjectKey),
) -> Map<Seq<char>, BindingView> {
    ips.remove_keys(owned(ips, gone, owner))
}

/// The index after an object's contributions changed from `gone` to `come`.
pub open spec fn rebound(
    ips: Map<Seq<char>, BindingView>,
    gone: Seq<AddressView>,
    come: Seq<AddressView>,
    binding: BindingView,
) -> Map<Seq<char>, BindingView> {
    bound(released(ips, contributed(gone), binding.owner()), contributed(come), binding)
}

/// The binding that an object of `kind` makes for a workload.
pub open spec fn binding_of(kind: Kind, object: EnvelopeView, workload: WorkloadView) -> BindingView {
    BindingView { workload, kind, key: object.key() }
}

/// The addresses of the object that a store holds under a key; none where
/// it holds no such object.
pub open spec fn prior_addresses(store: StoreView, key: ObjectKey) -> Seq<AddressView> {
    if store.objects.contains_key(key) {
        store.objects[key].addresses
    } else {
        Seq::empty()
    }
}

/// Whether a pod's controller owner reference differs from the one of the
/// pod that the store holds under the same key.
pub open spec fn owner_changed(pods: StoreView, pod: EnvelopeView) -> bool {
    pods.objects.contains_key(pod.key()) && controller_of(pods.objects[pod.key()].owners)
        != controller_of(pod.owners)
}

/// The workload that a node stands for.
pub open spec fn node_workload(node: EnvelopeView) -> WorkloadView {
    WorkloadView { name: node.name, namespace: "node"@, kind: Kind::Node.label() }
}

/// The workload that a service stands for.
pub open spec fn service_workload(service: EnvelopeView) -> WorkloadView {
    WorkloadView { name: service.name, namespace: service.namespace, kind: Kind::Service.label() }
}

/// The workload of a pod: the memoized one where there is one, else the
/// result of resolving it now.
pub open spec fn descriptor(
    stores: StoresView,
    pods: Map<ObjectKey, WorkloadView>,
    pod: EnvelopeView,
    limit: nat,
) -> WorkloadView {
    if pods.contains_key(pod.key()) {
        pods[pod.key()]
    } else {
        resolution(stores, pod, limit).workload
    }
}

/// The memoization cache after the pod's workload was asked for: a settled
/// resolution is kept, an entry that exists is never overwritten.
pub open spec fn memoized(
    stores: StoresView,
    pods: Map<ObjectKey, WorkloadView>,
    pod: EnvelopeView,
    limit: nat,
) -> Map<ObjectKey, WorkloadView> {
    if !pods.contains_key(pod.key()) && resolution(stores, pod, limit).settled {
        pods.insert(pod.key(), resolution(stores, pod, limit).workload)
    } else {
        pods
    }
}

/// The cache after an object of `kind` was added or modified; a malformed
/// object is dropped and changes nothing.
pub open spec fn upserted(c: CacheView, kind: Kind, object: EnvelopeView) -> CacheView {
    if object.malformed() {
        c
    } else {
        stored(c, kind, object)
    }
}

/// The cache after a well-formed object of `kind` was taken in.
pub open spec fn stored(c: CacheView, kind: Kind, object: EnvelopeView) -> CacheView {
    let store = c.stores.of(kind);
    let stores = c.stores.with(
        kind,
        StoreView { objects: store.objects.insert(object.key(), object), ..store },
    );
    let gone = prior_addresses(store, object.key());
    match kind {
        Kind::Pod => {
            let pods = if owner_changed(store, object) {
                c.pods.remove(object.key())
            } else {
                c.pods
            };
            CacheView {
                stores,
                pods: memoized(stores, pods, object, c.limit),
                ips: rebound(
                    c.ips,
                    gone,
                    object.addresses,
                    binding_of(kind, object, descriptor(stores, pods, object, c.limit)),
                ),
                limit: c.limit,
            }
        },
        Kind::Node => CacheView {
            stores,
            ips: rebound(
                c.ips,
                gone,
                object.addresses,
                binding_of(kind, object, node_workload(object)),
            ),
            ..c
        },
        Kind::Service => CacheView {
            stores,
            ips: rebound(
                c.ips,
                gone,
                object.addresses,
                binding_of(kind, object, service_workload(object)),
            ),
            ..c
        },
        _ => CacheView { stores, ..c },
    }
}

/// The cache after the object of `kind` under `key` was deleted: the
/// addresses it contributed leave the IP index, but for those that a
/// distinct object has bound since.
pub open spec fn deleted(c: CacheView, kind: Kind, key: ObjectKey) -> CacheView {
    let store = c.stores.of(kind);
    let stores = c.stores.with(kind, StoreView { objects: store.objects.remove(key), ..store });
    let gone = contributed(prior_addresses(store, key));
    match kind {
        Kind::Pod => CacheView {
            stores,
            pods: c.pods.remove(key),
            ips: released(c.ips, gone, (kind, key)),
            limit: c.limit,
        },
        Kind::Node | Kind::Service => CacheView {
            stores,
            ips: released(c.ips, gone, (kind, key)),
            ..c
        },
        _ => CacheView { stores, ..c },
    }
}

/// The keys that the store of `kind` holds and `left` does not.
pub open spec fn doomed(c: CacheView, kind: Kind, left: Map<ObjectKey, EnvelopeView>) -> Set<
    ObjectKey,
> {
    Set::new(|k: ObjectKey| c.stores.of(kind).objects.contains_key(k) && !left.contains_key(k))
}

/// The addresses that the objects under those keys contributed and were
/// the last to bind.
pub open spec fn orphaned(c: CacheView, kind: Kind, left: Map<ObjectKey, EnvelopeView>) -> Set<
    Seq<char>,
> {
    Set::new(
        |ip: Seq<char>|
            exists|k: ObjectKey|
                #![trigger doomed(c, kind, left).contains(k)]
                doomed(c, kind, left).contains(k) && owned(
                    c.ips,
                    contributed(c.stores.of(kind).objects[k].addresses),
                    (kind, k),
                ).contains(ip),
    )
}

/// The cache with the store of `kind` cut down to `left`: each object that
/// left the store has taken the addresses it was the last to bind out of the
/// IP index and, if it was a pod, its memoized workload along.
pub open spec fn swept(c: CacheView, kind: Kind, left: Map<ObjectKey, EnvelopeView>) -> CacheView {
    CacheView {
        stores: c.stores.with(kind, StoreView { objects: left, ..c.stores.of(kind) }),
        pods: if kind == Kind::Pod {
            c.pods.remove_keys(doomed(c, kind, left))
        } else {
            c.pods
        },
        ips: if kind.carries_addresses() {
            c.ips.remove_keys(orphaned(c, kind, left))
        } else {
            c.ips
        },
        limit: c.limit,
    }
}

/// Deleting one more object of the store cuts the store down by its key.
proof fn lemma_sweep_step(c: CacheView, kind: Kind, left: Map<ObjectKey, EnvelopeView>, k: ObjectKey)
    requires
        c.stores.of(kind).objects.contains_key(k),
        forall|x: ObjectKey| #[trigger]
            left.contains_key(x) ==> c.stores.of(kind).objects.contains_key(x)
                && c.stores.of(kind).objects[x] == left[x],
    ensures
        deleted(swept(c, kind, left), kind, k) == swept(c, kind, left.remove(k)),
{
    let held = c.stores.of(kind).objects;
    let next = left.remove(k);
    let got = deleted(swept(c, kind, left), kind, k);
    let want = swept(c, kind, next);
    assert(swept(c, kind, left).stores.of(kind).objects == left);
    assert(got.stores == want.stores);
    let prior = prior_addresses(swept(c, kind, left).stores.of(kind), k);
    if kind == Kind::Pod {
        assert forall|x: ObjectKey| #[trigger]
            doomed(c, kind, next).contains(x) == (doomed(c, kind, left).contains(x) || x == k) by {}
        assert(got.pods =~= want.pods);
    }
    if kind.carries_addresses() {
        let mine = owned(c.ips, contributed(prior), (kind, k));
        assert forall|ip: Seq<char>| #[trigger]
            orphaned(c, kind, next).contains(ip) == (orphaned(c, kind, left).contains(ip)
                || mine.contains(ip)) by {
            if orphaned(c, kind, next).contains(ip) {
                let x = choose|x: ObjectKey|
                    #![trigger doomed(c, kind, next).contains(x)]
                    doomed(c, kind, next).contains(x) && owned(
                        c.ips,
                        contributed(held[x].addresses),
                        (kind, x),
                    ).contains(ip);
                if x == k {
                    if left.contains_key(k) {
                        assert(prior == held[k].addresses);
                    } else {
                        assert(doomed(c, kind, left).contains(k));
                    }
                } else {
                    assert(doomed(c, kind, left).contains(x));
                }
            }
            if orphaned(c, kind, left).contains(ip) {
                let x = choose|x: ObjectKey|
                    #![trigger doomed(c, kind, left).contains(x)]
                    doomed(c, kind, left).contains(x) && owned(
                        c.ips,
                        contributed(held[x].addresses),
                        (kind, x),
                    ).contains(ip);
                assert(doomed(c, kind, next).contains(x));
            }
            if mine.contains(ip) {
                if !left.contains_key(k) {
                    assert(prior == Seq::<AddressView>::empty());
                    assert(contributed(prior) =~= Set::<Seq<char>>::empty());
                }
                assert(prior == held[k].addresses);
                assert(doomed(c, kind, next).contains(k));
            }
        }
        assert(orphaned(c, kind, next) =~= orphaned(c, kind, left).union(mine));
        let before = c.ips.remove_keys(orphaned(c, kind, left));
        assert(got.ips == before.remove_keys(owned(before, contributed(prior), (kind, k))));
        assert(got.ips =~= c.ips.remove_keys(orphaned(c, kind, left).union(mine)));
    }
}

/// The cache after each object of a list was added or modified, in order.
pub open spec fn upserted_each(c: CacheView, kind: Kind, objects: Seq<EnvelopeView>) -> CacheView
    decreases objects.len(),
{
    if objects.len() == 0 {
        c
    } else {
        upserted(upserted_each(c, kind, objects.drop_last()), kind, objects.last())
    }
}

/// The keys of the well-formed items of a listing.
pub open spec fn listed_keys(items: Seq<EnvelopeView>) -> Set<ObjectKey> {
    Set::new(
        |k: ObjectKey|
            exists|i: int|
                0 <= i < items.len() && (#[trigger] items[i]).key() == k && !items[i].malformed(),
    )
}

/// The cache after a full re-listing of `kind`: every object that the
/// listing no longer holds is deleted, then the listing is taken in item by
/// item.
pub open spec fn relisted(c: CacheView, kind: Kind, snapshot: Seq<EnvelopeView>) -> CacheView {
    upserted_each(
        swept(c, kind, c.stores.of(kind).objects.restrict(listed_keys(snapshot))),
        kind,
        snapshot,
    )
}

/// The mapping that a listing stands for once its malformed items are
/// dropped.
pub open spec fn kept(items: Seq<EnvelopeView>) -> Map<ObjectKey, EnvelopeView>
    decreases items.len(),
{
    if items.len() == 0 {
        Map::empty()
    } else if items.last().malformed() {
        kept(items.drop_last())
    } else {
        kept(items.drop_last()).insert(items.last().key(), items.last())
    }
}

/// A listing without malformed items is kept whole.
pub proof fn lemma_kept_whole(items: Seq<EnvelopeView>)
    requires
        forall|i: int| 0 <= i < items.len() ==> !(#[trigger] items[i]).malformed(),
    ensures
        kept(items) == listing(items),
    decreases items.len(),
{
    if items.len() > 0 {
        lemma_kept_whole(items.drop_last());
    }
}

proof fn lemma_kept_keys(items: Seq<EnvelopeView>)
    ensures
        kept(items).dom() == listed_keys(items),
    decreases items.len(),
{
    if items.len() > 0 {
        let fewer = items.drop_last();
        lemma_kept_keys(fewer);
        assert forall|k: ObjectKey| kept(items).dom().contains(k) == listed_keys(items).contains(
            k,
        ) by {
            if listed_keys(fewer).contains(k) {
                let i = choose|i: int|
                    0 <= i < fewer.len() && (#[trigger] fewer[i]).key() == k
                        && !fewer[i].malformed();
                assert(items[i].key() == k && !items[i].malformed());
            }
            if listed_keys(items).contains(k) {
                let i = choose|i: int|
                    0 <= i < items.len() && (#[trigger] items[i]).key() == k
                        && !items[i].malformed();
                if i < items.len() - 1 {
                    assert(fewer[i].key() == k && !fewer[i].malformed());
                }
            }
            if !items.last().malformed() && k == items.last().key() {
                assert(items[items.len() - 1].key() == k);
            }
        }
        assert(kept(items).dom() =~= listed_keys(items));
    } else {
        assert(kept(items).dom() =~= listed_keys(items));
    }
}

proof fn lemma_upserted_each_objects(c: CacheView, kind: Kind, objects: Seq<EnvelopeView>)
    ensures
        upserted_each(c, kind, objects).stores.of(kind).objects == c.stores.of(
            kind,
        ).objects.union_prefer_right(kept(objects)),
    decreases objects.len(),
{
    let base = c.stores.of(kind).objects;
    if objects.len() > 0 {
        lemma_upserted_each_objects(c, kind, objects.drop_last());
        let fewer = base.union_prefer_right(kept(objects.drop_last()));
        if !objects.last().malformed() {
            assert(fewer.insert(objects.last().key(), objects.last())
                =~= base.union_prefer_right(kept(objects)));
        }
    } else {
        assert(base.union_prefer_right(kept(objects)) =~= base);
    }
}

/// A re-listing converges: whatever the cache held, after it the store of
/// the kind holds exactly what the listing stands for.
pub proof fn lemma_relist_converges(c: CacheView, kind: Kind, snapshot: Seq<EnvelopeView>)
    ensures
        relisted(c, kind, snapshot).stores.of(kind).objects == kept(snapshot),
        (forall|i: int| 0 <= i < snapshot.len() ==> !(#[trigger] snapshot[i]).malformed())
            ==> relisted(c, kind, snapshot).stores.of(kind).objects == listing(snapshot),
{
    let left = c.stores.of(kind).objects.restrict(listed_keys(snapshot));
    lemma_upserted_each_objects(swept(c, kind, left), kind, snapshot);
    lemma_kept_keys(snapshot);
    assert(left.union_prefer_right(kept(snapshot)) =~= kept(snapshot));
    if forall|i: int| 0 <= i < snapshot.len() ==> !(#[trigger] snapshot[i]).malformed() {
        lemma_kept_whole(snapshot);
    }
}

/// How far the initial synchronisation has come.
#[derive(Clone, Copy, Debug, PartialEq, Eq, Structural)]
pub enum SyncStatus {
    /// Every store has taken in its first full listing.
    Synced,
    /// The store of this kind, the first in the order of waiting, has not.
    Waiting(Kind),
    /// The reflector of this kind has ended on a fatal error.
    Failed(Kind),
}

/// The first kind at or after place `from` whose reflector is degraded.
pub open spec fn first_degraded(stores: StoresView, from: int) -> Option<Kind>
    decreases 9 - from,
{
    if from < 0 || from >= 9 {
        None
    } else if stores.of(Kind::nth(from)).degraded {
        Some(Kind::nth(from))
    } else {
        first_degraded(stores, from + 1)
    }
}

/// The first kind at or after place `from` whose store is not ready.
pub open spec fn first_unready(stores: StoresView, from: int) -> Option<Kind>
    decreases 9 - from,
{
    if from < 0 || from >= 9 {
        None
    } else if !stores.of(Kind::nth(from)).ready {
        Some(Kind::nth(from))
    } else {
        first_unready(stores, from + 1)
    }
}

pub open spec fn sync_status(stores: StoresView) -> SyncStatus {
    match first_degraded(stores, 0) {
        Some(k) => SyncStatus::Failed(k),
        None => match first_unready(stores, 0) {
            Some(k) => SyncStatus::Waiting(k),
            None => SyncStatus::Synced,
        },
    }
}

proof fn lemma_none_unready(stores: StoresView, from: int, k: Kind)
    requires
        0 <= from <= k.ordinal(),
        first_unready(stores, from).is_none(),
    ensures
        stores.of(k).ready,
    decreases 9 - from,
{
    if from < k.ordinal() {
        lemma_none_unready(stores, from + 1, k);
    }
}

proof fn lemma_none_degraded(stores: StoresView, from: int, k: Kind)
    requires
        0 <= from <= k.ordinal(),
        first_degraded(stores, from).is_none(),
    ensures
        !stores.of(k).degraded,
    decreases 9 - from,
{
    if from < k.ordinal() {
        lemma_none_degraded(stores, from + 1, k);
    }
}

/// Where the status is `Synced`, every store is ready and none is degraded.
pub proof fn lemma_synced_means_ready(stores: StoresView)
    requires
        sync_status(stores) == SyncStatus::Synced,
    ensures
        stores.all_ready(),
        !stores.any_degraded(),
{
    assert forall|k: Kind| (#[trigger] stores.of(k)).ready && !stores.of(k).degraded by {
        lemma_none_unready(stores, 0, k);
        lemma_none_degraded(stores, 0, k);
    }
}

/// What the memoization cache newly holds is sound: the entry that asking
/// for a pod's workload adds is the pod itself where the pod has no
/// controller owner, and else the end of a chain of cached controllers that
/// starts at the pod's controller owner.
pub proof fn lemma_memoized_sound(
    stores: StoresView,
    pods: Map<ObjectKey, WorkloadView>,
    pod: EnvelopeView,
    limit: nat,
)
    requires
        !pods.contains_key(pod.key()),
        memoized(stores, pods, pod, limit).contains_key(pod.key()),
    ensures
        ({
            let w = memoized(stores, pods, pod, limit)[pod.key()];
            (controller_of(pod.owners).is_none() && w == (WorkloadView {
                name: pod.name,
                namespace: pod.namespace,
                kind: Kind::Pod.label(),
            })) || (controller_of(pod.owners).is_some() && reaches(
                stores,
                pod.namespace,
                controller_of(pod.owners).unwrap(),
                w.name,
                w.kind,
                limit,
            ))
        }),
{
    lemma_resolution_sound(stores, pod, limit);
}

/// Taking in the same addition or modification twice leaves the cache as
/// taking it in once does.
pub proof fn lemma_upsert_idempotent(c: CacheView, kind: Kind, object: EnvelopeView)
    ensures
        upserted(upserted(c, kind, object), kind, object) == upserted(c, kind, object),
{
    if !object.malformed() {
        lemma_store_idempotent(c, kind, object);
    }
}

proof fn lemma_store_idempotent(c: CacheView, kind: Kind, object: EnvelopeView)
    ensures
        stored(stored(c, kind, object), kind, object) == stored(c, kind, object),
{
    let once = stored(c, kind, object);
    let twice = stored(once, kind, object);
    let key = object.key();
    let store = c.stores.of(kind);
    let objects = store.objects.insert(key, object);
    assert(once.stores.of(kind).objects == objects);
    assert(objects.insert(key, object) =~= objects);
    assert(twice.stores == once.stores);
    assert(prior_addresses(once.stores.of(kind), key) == object.addresses);
    assert(!owner_changed(once.stores.of(kind), object));
    let gone = prior_addresses(store, key);
    match kind {
        Kind::Pod => {
            let pods = if owner_changed(store, object) {
                c.pods.remove(key)
            } else {
                c.pods
            };
            let w = descriptor(once.stores, pods, object, c.limit);
            assert(descriptor(once.stores, once.pods, object, c.limit) == w);
            assert(memoized(once.stores, once.pods, object, c.limit) =~= once.pods);
            assert(rebound(
                once.ips,
                object.addresses,
                object.addresses,
                binding_of(kind, object, w),
            ) =~= once.ips);
            assert(twice.ips == once.ips);
            assert(twice.pods == once.pods);
        },
        Kind::Node => {
            assert(rebound(
                once.ips,
                object.addresses,
                object.addresses,
                binding_of(kind, object, node_workload(object)),
            ) =~= once.ips);
        },
        Kind::Service => {
            assert(rebound(
                once.ips,
                object.addresses,
                object.addresses,
                binding_of(kind, object, service_workload(object)),
            ) =~= once.ips);
        },
        _ => {},
    }
}

/// Taking in the same deletion twice leaves the cache as taking it in once
/// does.
pub proof fn lemma_delete_idempotent(c: CacheView, kind: Kind, key: ObjectKey)
    ensures
        deleted(deleted(c, kind, key), kind, key) == deleted(c, kind, key),
{
    let once = deleted(c, kind, key);
    let twice = deleted(once, kind, key);
    let objects = c.stores.of(kind).objects.remove(key);
    assert(once.stores.of(kind).objects == objects);
    assert(objects.remove(key) =~= objects);
    assert(twice.stores == once.stores);
    assert(prior_addresses(once.stores.of(kind), key) == Seq::<AddressView>::empty());
    assert(contributed(Seq::<AddressView>::empty()) =~= Set::<Seq<char>>::empty());
    assert(released(once.ips, Set::<Seq<char>>::empty(), (kind, key)) =~= once.ips);
    if kind == Kind::Pod {
        assert(once.pods.remove(key) =~= once.pods);
    }
}

/// After a deletion none of the addresses that the object contributed
/// and was the last to bind is bound in the IP index.
pub proof fn lemma_delete_complete(c: CacheView, kind: Kind, key: ObjectKey, ip: Seq<char>)
    requires
        kind.carries_addresses(),
        c.stores.of(kind).objects.contains_key(key),
        contributed(c.stores.of(kind).objects[key].addresses).contains(ip),
        c.ips.contains_key(ip) ==> c.ips[ip].owner() == (kind, key),
    ensures
        !deleted(c, kind, key).ips.contains_key(ip),
{
}

/// A deletion leaves every address alone that a distinct object was the
/// last to bind.
pub proof fn lemma_delete_spares_others(c: CacheView, kind: Kind, key: ObjectKey, ip: Seq<char>)
    requires
        c.ips.contains_key(ip),
        c.ips[ip].owner() != (kind, key),
    ensures
        deleted(c, kind, key).ips.contains_key(ip),
        deleted(c, kind, key).ips[ip] == c.ips[ip],
{
}

/// After an addition or modification of a pod, a node or a service, each
/// address that the object contributes is bound by it.
pub proof fn lemma_upsert_binds(c: CacheView, kind: Kind, object: EnvelopeView, ip: Seq<char>)
    requires
        kind.carries_addresses(),
        !object.malformed(),
        contributed(object.addresses).contains(ip),
    ensures
        upserted(c, kind, object).ips.contains_key(ip),
        upserted(c, kind, object).ips[ip].owner() == (kind, object.key()),
        kind == Kind::Node ==> upserted(c, kind, object).ips[ip].workload == node_workload(object),
        kind == Kind::Service ==> upserted(c, kind, object).ips[ip].workload == service_workload(
            object,
        ),
{
}

/// An addition or modification leaves every address alone that a distinct
/// object was the last to bind and that the object does not contribute.
pub proof fn lemma_upsert_spares_others(
    c: CacheView,
    kind: Kind,
    object: EnvelopeView,
    ip: Seq<char>,
)
    requires
        c.ips.contains_key(ip),
        c.ips[ip].owner() != (kind, object.key()),
        !contributed(object.addresses).contains(ip),
    ensures
        upserted(c, kind, object).ips.contains_key(ip),
        upserted(c, kind, object).ips[ip] == c.ips[ip],
{
}

/// The objects of a list are well-formed, no two of them share a key, and
/// no two of them contribute the same address.
pub open spec fn separate(items: Seq<EnvelopeView>) -> bool {
    &&& forall|j: int| 0 <= j < items.len() ==> !(#[trigger] items[j]).malformed()
    &&& forall|j: int, k: int|
        0 <= j < items.len() && 0 <= k < items.len() && j != k ==> (#[trigger] items[j]).key() != (
        #[trigger] items[k]).key()
    &&& forall|j: int, k: int, ip: Seq<char>|
        0 <= j < items.len() && 0 <= k < items.len() && j != k && #[trigger] contributed(
            items[j].addresses,
        ).contains(ip) ==> !#[trigger] contributed(items[k].addresses).contains(ip)
}

/// After the objects of such a list were taken in, in order, each address
/// that one of them contributes is bound by that object.
pub proof fn lemma_each_binds(
    c: CacheView,
    kind: Kind,
    items: Seq<EnvelopeView>,
    i: int,
    ip: Seq<char>,
)
    requires
        kind.carries_addresses(),
        separate(items),
        0 <= i < items.len(),
        contributed(items[i].addresses).contains(ip),
    ensures
        upserted_each(c, kind, items).ips.contains_key(ip),
        upserted_each(c, kind, items).ips[ip].owner() == (kind, items[i].key()),
        kind == Kind::Node ==> upserted_each(c, kind, items).ips[ip].workload == node_workload(
            items[i],
        ),
        kind == Kind::Service ==> upserted_each(c, kind, items).ips[ip].workload
            == service_workload(items[i]),
    decreases items.len(),
{
    let fewer = items.drop_last();
    let last_at = items.len() - 1;
    let mid = upserted_each(c, kind, fewer);
    if i == last_at {
        lemma_upsert_binds(mid, kind, items.last(), ip);
    } else {
        assert(separate(fewer)) by {
            assert forall|j: int| 0 <= j < fewer.len() implies fewer[j] == items[j] by {}
        }
        assert(fewer[i] == items[i]);
        lemma_each_binds(c, kind, fewer, i, ip);
        assert(items[i].key() != items[last_at].key());
        assert(!contributed(items[last_at].addresses).contains(ip));
        lemma_upsert_spares_others(mid, kind, items.last(), ip);
    }
}

/// A re-listing converges on the IP index too: where the listing is such
/// a list, each address that one of its objects contributes is bound by
/// that object after it, whatever the cache held before.
pub proof fn lemma_relist_binds(
    c: CacheView,
    kind: Kind,
    snapshot: Seq<EnvelopeView>,
    i: int,
    ip: Seq<char>,
)
    requires
        kind.carries_addresses(),
        separate(snapshot),
        0 <= i < snapshot.len(),
        contributed(snapshot[i].addresses).contains(ip),
    ensures
        relisted(c, kind, snapshot).ips.contains_key(ip),
        relisted(c, kind, snapshot).ips[ip].owner() == (kind, snapshot[i].key()),
        kind == Kind::Node ==> relisted(c, kind, snapshot).ips[ip].workload == node_workload(
            snapshot[i],
        ),
        kind == Kind::Service ==> relisted(c, kind, snapshot).ips[ip].workload
            == service_workload(snapshot[i]),
{
    lemma_each_binds(
        swept(c, kind, c.stores.of(kind).objects.restrict(listed_keys(snapshot))),
        kind,
        snapshot,
        i,
        ip,
    );
}

/// Taking in a list of objects binds no address that none of them
/// contributes.
pub proof fn lemma_each_adds_only(c: CacheView, kind: Kind, items: Seq<EnvelopeView>, ip: Seq<char>)
    requires
        !c.ips.contains_key(ip),
        forall|j: int|
            0 <= j < items.len() ==> !contributed((#[trigger] items[j]).addresses).contains(ip),
    ensures
        !upserted_each(c, kind, items).ips.contains_key(ip),
    decreases items.len(),
{
    if items.len() > 0 {
        let fewer = items.drop_last();
        assert forall|j: int| 0 <= j < fewer.len() implies !contributed(
            (#[trigger] fewer[j]).addresses,
        ).contains(ip) by {
            assert(fewer[j] == items[j]);
        }
        lemma_each_adds_only(c, kind, fewer, ip);
        assert(!contributed(items[items.len() - 1].addresses).contains(ip));
    }
}

/// After a re-listing, an address is bound no longer where the object that
/// was the last to bind it is not listed any more and no listed object
/// contributes it.
pub proof fn lemma_relist_drops(
    c: CacheView,
    kind: Kind,
    snapshot: Seq<EnvelopeView>,
    key: ObjectKey,
    ip: Seq<char>,
)
    requires
        kind.carries_addresses(),
        c.stores.of(kind).objects.contains_key(key),
        !listed_keys(snapshot).contains(key),
        contributed(c.stores.of(kind).objects[key].addresses).contains(ip),
        c.ips.contains_key(ip) ==> c.ips[ip].owner() == (kind, key),
        forall|j: int|
            0 <= j < snapshot.len() ==> !contributed((#[trigger] snapshot[j]).addresses).contains(
                ip,
            ),
    ensures
        !relisted(c, kind, snapshot).ips.contains_key(ip),
{
    let left = c.stores.of(kind).objects.restrict(listed_keys(snapshot));
    if c.ips.contains_key(ip) {
        assert(doomed(c, kind, left).contains(key));
        assert(orphaned(c, kind, left).contains(ip));
    }
    lemma_each_adds_only(swept(c, kind, left), kind, snapshot, ip);
}

/// No event binds the headless marker: where the IP index does not hold it
/// before an addition, a modification or a deletion, it does not after.
pub proof fn lemma_sentinel_excluded(c: CacheView, kind: Kind, object: EnvelopeView)
    requires
        !c.ips.contains_key(headless()),
    ensures
        !upserted(c, kind, object).ips.contains_key(headless()),
        !deleted(c, kind, object.key()).ips.contains_key(headless()),
{
    lemma_headless_contributes_nothing(object.addresses);
}

pub enum WatchEventView {
    Applied(EnvelopeView),
    Deleted(ObjectKey),
    Bookmark,
}

/// What a reflector hands on: an object added or modified, one deleted, or
/// a bookmark, which only advances the version.
pub enum WatchEvent {
    Applied(Envelope),
    Deleted(Envelope),
    Bookmark,
}

impl View for WatchEvent {
    type V = WatchEventView;

    open spec fn view(&self) -> WatchEventView {
        match self {
            WatchEvent::Applied(e) => WatchEventView::Applied(e@),
            WatchEvent::Deleted(e) => WatchEventView::Deleted(e@.key()),
            WatchEvent::Bookmark => WatchEventView::Bookmark,
        }
    }
}

/// The cache after an event on an object of `kind`.
pub open spec fn applied(c: CacheView, kind: Kind, event: WatchEventView) -> CacheView {
    match event {
        WatchEventView::Applied(e) => upserted(c, kind, e),
        WatchEventView::Deleted(k) => deleted(c, kind, k),
        WatchEventView::Bookmark => c,
    }
}

/// Applying the same watch event twice is the same as applying it once.
pub proof fn lemma_event_idempotent(c: CacheView, kind: Kind, event: WatchEventView)
    ensures
        applied(applied(c, kind, event), kind, event) == applied(c, kind, event),
{
    match event {
        WatchEventView::Applied(e) => lemma_upsert_idempotent(c, kind, e),
        WatchEventView::Deleted(k) => lemma_delete_idempotent(c, kind, k),
        WatchEventView::Bookmark => {},
    }
}

/// The keys among the first `n` of a list that a listing does not hold.
spec fn unlisted(keys: Seq<(String, String)>, n: int, items: Seq<EnvelopeView>) -> Set<
    ObjectKey,
> {
    Set::new(
        |k: ObjectKey|
            !listed_keys(items).contains(k) && exists|j: int|
                0 <= j < n && j < keys.len() && (#[trigger] keys[j]).0@ == k.0 && keys[j].1@ == k.1,
    )
}

pub open spec fn owner_view(o: Option<OwnerRef>) -> Option<OwnerRefView> {
    match o {
        Some(r) => Some(r@),
        None => None,
    }
}

fn same_owner(a: &Option<OwnerRef>, b: &Option<OwnerRef>) -> (r: bool)
    ensures
        r == (owner_view(*a) == owner_view(*b)),
{
    match (a, b) {
        (Some(x), Some(y)) => x.same_as(y),
        (None, None) => true,
        _ => false,
    }
}

/// Removes from the index every address that the list contributes and
/// that the object of `kind` under the key was the last to bind.
fn evict(index: &mut IpIndex, addresses: &Vec<Address>, kind: Kind, namespace: &str, name: &str)
    ensures
        final(index)@ == released(
            old(index)@,
            contributed(address_views(addresses@)),
            (kind, (namespace@, name@)),
        ),
{
    let ghost start = index@;
    let ghost views = address_views(addresses@);
    let ghost owner = (kind, (namespace@, name@));
    let mut i: usize = 0;
    proof {
        assert(contributed(views.take(0)) =~= Set::<Seq<char>>::empty());
        assert(index@ =~= released(start, contributed(views.take(0)), owner));
    }
    while i < addresses.len()
        invariant
            i <= addresses.len(),
            views == address_views(addresses@),
            owner == (kind, (namespace@, name@)),
            index@ == released(start, contributed(views.take(i as int)), owner),
        decreases addresses.len() - i,
    {
        proof {
            lemma_contributed_step(views, i as int);
        }
        if addresses[i].contributes() {
            index.release(addresses[i].text.as_str(), kind, namespace, name);
        }
        proof {
            assert(index@ =~= released(start, contributed(views.take(i + 1)), owner));
        }
        i += 1;
    }
    proof {
        assert(views.take(addresses.len() as int) =~= views);
    }
}

/// Binds every address that the list contributes.
fn bind(index: &mut IpIndex, addresses: &Vec<Address>, binding: &Binding)
    ensures
        final(index)@ == bound(old(index)@, contributed(address_views(addresses@)), binding@),
{
    let ghost start = index@;
    let ghost views = address_views(addresses@);
    let mut i: usize = 0;
    proof {
        assert(contributed(views.take(0)) =~= Set::<Seq<char>>::empty());
        assert(index@ =~= bound(start, contributed(views.take(0)), binding@));
    }
    while i < addresses.len()
        invariant
            i <= addresses.len(),
            views == address_views(addresses@),
            index@ == bound(start, contributed(views.take(i as int)), binding@),
        decreases addresses.len() - i,
    {
        proof {
            lemma_contributed_step(views, i as int);
        }
        if addresses[i].contributes() {
            index.associate_ip(addresses[i].text.as_str(), binding);
        }
        proof {
            assert(index@ =~= bound(start, contributed(views.take(i + 1)), binding@));
        }
        i += 1;
    }
    proof {
        assert(views.take(addresses.len() as int) =~= views);
    }
}

pub struct CacheManager {
    stores: Stores,
    pod_descriptors: PodIndex,
    ip_to_workload: IpIndex,
    max_depth: usize,
}

impl View for CacheManager {
    type V = CacheView;

    closed spec fn view(&self) -> CacheView {
        CacheView {
            stores: self.stores@,
            pods: self.pod_descriptors@,
            ips: self.ip_to_workload@,
            limit: self.max_depth as nat,
        }
    }
}

impl CacheManager {
    /// The stores hold no key twice, and the headless marker is no key of
    /// the IP index.
    pub closed spec fn wf(&self) -> bool {
        self.stores.wf() && !self.ip_to_workload@.contains_key(headless())
    }

    /// In a well-formed cache the headless marker is bound to nothing.
    pub proof fn lemma_sentinel_absent(&self)
        requires
            self.wf(),
        ensures
            !self@.ips.contains_key(headless()),
    {
    }

    /// An empty cache that follows ownership chains to the default depth.
    pub fn new() -> (c: CacheManager)
        ensures
            c.wf(),
            c@.limit == MAX_DEPTH,
            c@.pods == Map::<ObjectKey, WorkloadView>::empty(),
            c@.ips == Map::<Seq<char>, BindingView>::empty(),
            forall|k: Kind| #[trigger]
                c@.stores.of(k) == (StoreView {
                    objects: Map::empty(),
                    ready: false,
                    degraded: false,
                }),
    {
        CacheManager::with_max_depth(MAX_DEPTH)
    }

    /// An empty cache that follows ownership chains to the given depth.
    pub fn with_max_depth(max_depth: usize) -> (c: CacheManager)
        ensures
            c.wf(),
            c@.limit == max_depth,
            c@.pods == Map::<ObjectKey, WorkloadView>::empty(),
            c@.ips == Map::<Seq<char>, BindingView>::empty(),
            forall|k: Kind| #[trigger]
                c@.stores.of(k) == (StoreView {
                    objects: Map::empty(),
                    ready: false,
                    degraded: false,
                }),
    {
        CacheManager {
            stores: Stores::new(),
            pod_descriptors: PodIndex::new(),
            ip_to_workload: IpIndex::new(),
            max_depth,
        }
    }

    /// The workload that an address is bound to.
    pub fn lookup_ip(&self, ip: &str) -> (r: Option<Workload>)
        ensures
            match r {
                Some(w) => self@.ips.contains_key(ip@) && self@.ips[ip@].workload == w@,
                None => !self@.ips.contains_key(ip@),
            },
    {
        self.ip_to_workload.lookup_ip(ip)
    }

    /// The memoized workload of a pod.
    pub fn lookup_pod(&self, namespace: &str, name: &str) -> (r: Option<Workload>)
        ensures
            match r {
                Some(w) => self@.pods.contains_key((namespace@, name@)) && self@.pods[(
                    namespace@,
                    name@,
                )] == w@,
                None => !self@.pods.contains_key((namespace@, name@)),
            },
    {
        self.pod_descriptors.lookup_pod(namespace, name)
    }

    /// The object of `kind` held under a key.
    pub fn get(&self, kind: Kind, namespace: &str, name: &str) -> (r: Option<&Envelope>)
        requires
            self.wf(),
        ensures
            match r {
                Some(e) => self@.stores.of(kind).objects.contains_key((namespace@, name@))
                    && self@.stores.of(kind).objects[(namespace@, name@)] == e@,
                None => !self@.stores.of(kind).objects.contains_key((namespace@, name@)),
            },
    {
        self.stores.of(kind).get(namespace, name)
    }

    /// The controller owner reference of the object that an owner reference
    /// names, looked up in the store of the reference's kind. There is none
    /// where the kind is not a controller kind, where the store does not hold
    /// the object, and where the object has no controller owner.
    pub fn get_controller_of_owner(&self, owner: &OwnerRef, namespace: &str) -> (r: Option<
        OwnerRef,
    >)
        requires
            self.wf(),
        ensures
            owner_view(r) == (match Kind::controller_named(owner@.kind) {
                None => None,
                Some(k) => if self@.stores.of(k).objects.contains_key((namespace@, owner@.name)) {
                    controller_of(self@.stores.of(k).objects[(namespace@, owner@.name)].owners)
                } else {
                    None
                },
            }),
    {
        match Kind::controller_kind(owner.kind.as_str()) {
            None => None,
            Some(k) => match self.stores.of(k).get(namespace, owner.name.as_str()) {
                None => None,
                Some(ancestor) => ancestor.controller(),
            },
        }
    }

    /// The resolution of a pod over the stores as they are now, the
    /// memoization cache left aside: the workload, whether it is settled,
    /// how many lookups it took, and whether the walk was cut off at the
    /// bound with an owner reference still to follow.
    pub fn resolution_of(&self, pod: &Envelope) -> (r: Resolution)
        requires
            self.wf(),
        ensures
            r@ == resolution(self@.stores, pod@, self@.limit),
            r.lookups <= self@.limit,
    {
        resolve(&self.stores, pod, self.max_depth)
    }

    /// The binding of an address: its workload and the object that bound it
    /// last.
    pub fn binding(&self, ip: &str) -> (r: Option<Binding>)
        ensures
            match r {
                Some(b) => self@.ips.contains_key(ip@) && self@.ips[ip@] == b@,
                None => !self@.ips.contains_key(ip@),
            },
    {
        self.ip_to_workload.binding(ip)
    }

    /// The workload of a pod: the memoized one, or else the one resolved
    /// now, which is memoized where the resolution is settled.
    pub fn resolve_pod_descriptor(&mut self, pod: &Envelope) -> (w: Workload)
        requires
            old(self).wf(),
        ensures
            final(self).wf(),
            w@ == descriptor(old(self)@.stores, old(self)@.pods, pod@, old(self)@.limit),
            final(self)@ == (CacheView {
                pods: memoized(old(self)@.stores, old(self)@.pods, pod@, old(self)@.limit),
                ..old(self)@
            }),
    {
        match self.pod_descriptors.lookup_pod(pod.namespace.as_str(), pod.name.as_str()) {
            Some(w) => w,
            None => {
                let r = resolve(&self.stores, pod, self.max_depth);
                if r.settled {
                    self.pod_descriptors.remember(
                        pod.namespace.as_str(),
                        pod.name.as_str(),
                        &r.workload,
                    );
                }
                r.workload
            },
        }
    }

    /// Takes in an added or modified object: the store holds it, and for a
    /// pod, a node or a service the addresses that its earlier version was
    /// the last to bind leave the IP index, and those it contributes are
    /// bound to its workload. An address that a distinct object has bound
    /// since stays with that object.
    pub fn apply_upsert(&mut self, kind: Kind, object: Envelope)
        requires
            old(self).wf(),
        ensures
            final(self).wf(),
            final(self)@ == upserted(old(self)@, kind, object@),
    {
        if object.is_malformed() {
            return ;
        }
        let held = object.duplicate();
        let mut changed = false;
        if kind.has_addresses() {
            match self.stores.of(kind).get(held.namespace.as_str(), held.name.as_str()) {
                Some(prior) => {
                    evict(
                        &mut self.ip_to_workload,
                        &prior.addresses,
                        kind,
                        held.namespace.as_str(),
                        held.name.as_str(),
                    );
                    let before = prior.controller();
                    let after = held.controller();
                    changed = !same_owner(&before, &after);
                },
                None => {
                    proof {
                        assert(contributed(Seq::<AddressView>::empty()) =~= Set::<
                            Seq<char>,
                        >::empty());
                        assert(self.ip_to_workload@ =~= released(
                            self.ip_to_workload@,
                            contributed(Seq::<AddressView>::empty()),
                            (kind, (held.namespace@, held.name@)),
                        ));
                    }
                },
            }
        }
        self.stores.upsert(kind, object);
        match kind {
            Kind::Pod => {
                if changed {
                    self.pod_descriptors.forget(held.namespace.as_str(), held.name.as_str());
                }
                let w = self.resolve_pod_descriptor(&held);
                let b = Binding::new(w, kind, held.namespace.clone(), held.name.clone());
                bind(&mut self.ip_to_workload, &held.addresses, &b);
            },
            Kind::Node => {
                let w = Workload::new(held.name.clone(), "node".to_owned(), Kind::Node.name());
                let b = Binding::new(w, kind, held.namespace.clone(), held.name.clone());
                bind(&mut self.ip_to_workload, &held.addresses, &b);
            },
            Kind::Service => {
                let w = Workload::new(
                    held.name.clone(),
                    held.namespace.clone(),
                    Kind::Service.name(),
                );
                let b = Binding::new(w, kind, held.namespace.clone(), held.name.clone());
                bind(&mut self.ip_to_workload, &held.addresses, &b);
            },
            _ => {},
        }
        proof {
            lemma_headless_contributes_nothing(held@.addresses);
        }
    }

    /// Takes in a deletion: the store no longer holds the object, each
    /// address that it contributed and was the last to bind leaves the IP
    /// index, an address that a distinct object has bound since stays, and a
    /// pod's memoized workload is dropped.
    pub fn apply_delete(&mut self, kind: Kind, namespace: &str, name: &str)
        requires
            old(self).wf(),
        ensures
            final(self).wf(),
            final(self)@ == deleted(old(self)@, kind, (namespace@, name@)),
            kind.carries_addresses() ==> forall|ip: Seq<char>| #[trigger]
                contributed(
                    prior_addresses(old(self)@.stores.of(kind), (namespace@, name@)),
                ).contains(ip) ==> (final(self)@.ips.contains_key(ip) <==> old(
                    self,
                )@.ips.contains_key(ip) && old(self)@.ips[ip].owner() != (
                    kind,
                    (namespace@, name@),
                )),
    {
        if kind.has_addresses() {
            match self.stores.of(kind).get(namespace, name) {
                Some(prior) => {
                    evict(&mut self.ip_to_workload, &prior.addresses, kind, namespace, name);
                },
                None => {
                    proof {
                        assert(contributed(Seq::<AddressView>::empty()) =~= Set::<
                            Seq<char>,
                        >::empty());
                        assert(self.ip_to_workload@ =~= released(
                            self.ip_to_workload@,
                            contributed(Seq::<AddressView>::empty()),
                            (kind, (namespace@, name@)),
                        ));
                    }
                },
            }
        }
        self.stores.delete(kind, namespace, name);
        if let Kind::Pod = kind {
            self.pod_descriptors.forget(namespace, name);
        }
    }

    /// Takes in a full re-listing of `kind`: the objects held before are
    /// deleted, with their addresses and memoized workloads, and the
    /// listing is taken in item by item.
    pub fn relist(&mut self, kind: Kind, snapshot: &Vec<Envelope>)
        requires
            old(self).wf(),
        ensures
            final(self).wf(),
            final(self)@ == relisted(old(self)@, kind, envelope_views(snapshot@)),
            final(self)@.stores.of(kind).objects == kept(envelope_views(snapshot@)),
    {
        let ghost start = self@;
        let ghost held = start.stores.of(kind).objects;
        let ghost views = envelope_views(snapshot@);
        let mut listed = Store::new();
        let mut m: usize = 0;
        while m < snapshot.len()
            invariant
                m <= snapshot.len(),
                views == envelope_views(snapshot@),
                listed.wf(),
                listed@.objects == kept(views.take(m as int)),
            decreases snapshot.len() - m,
        {
            if !snapshot[m].is_malformed() {
                listed.upsert(snapshot[m].duplicate());
            }
            proof {
                assert(views.take(m + 1).drop_last() =~= views.take(m as int));
                assert(views.take(m + 1).last() == views[m as int]);
            }
            m += 1;
        }
        proof {
            assert(views.take(snapshot.len() as int) =~= views);
            lemma_kept_keys(views);
        }
        let keys = self.stores.of(kind).keys();
        let mut i: usize = 0;
        proof {
            assert(held.remove_keys(unlisted(keys@, 0, views)) =~= held);
            let c = swept(start, kind, held);
            assert(c.pods =~= start.pods);
            assert(c.ips =~= start.ips);
            assert(c.stores == start.stores);
        }
        while i < keys.len()
            invariant
                i <= keys.len(),
                self.wf(),
                views == envelope_views(snapshot@),
                listed.wf(),
                listed@.objects.dom() == listed_keys(views),
                held == start.stores.of(kind).objects,
                forall|j: int|
                    0 <= j < keys.len() ==> held.contains_key(((#[trigger] keys[j]).0@, keys[j].1@)),
                self@ == swept(start, kind, held.remove_keys(unlisted(keys@, i as int, views))),
            decreases keys.len() - i,
        {
            let ghost k = (keys[i as int].0@, keys[i as int].1@);
            let ghost left = held.remove_keys(unlisted(keys@, i as int, views));
            let ghost next = held.remove_keys(unlisted(keys@, i + 1, views));
            let still = listed.get(keys[i].0.as_str(), keys[i].1.as_str()).is_some();
            proof {
                assert(still == listed@.objects.dom().contains(k));
            }
            if !still {
                self.apply_delete(kind, keys[i].0.as_str(), keys[i].1.as_str());
                proof {
                    assert(unlisted(keys@, i + 1, views).contains(k));
                    assert(next =~= left.remove(k));
                    lemma_sweep_step(start, kind, left, k);
                }
            } else {
                proof {
                    assert(next =~= left);
                }
            }
            i += 1;
        }
        proof {
            let left = held.remove_keys(unlisted(keys@, keys.len() as int, views));
            assert forall|k: ObjectKey| #[trigger]
                left.contains_key(k) == held.restrict(listed_keys(views)).contains_key(k) by {
                if held.contains_key(k) && !listed_keys(views).contains(k) {
                    let j = choose|j: int|
                        0 <= j < keys.len() && (#[trigger] keys[j]).0@ == k.0 && keys[j].1@ == k.1;
                    assert(unlisted(keys@, keys.len() as int, views).contains(k));
                }
            }
            assert(left =~= held.restrict(listed_keys(views)));
        }
        let ghost mid = self@;
        let mut n: usize = 0;
        while n < snapshot.len()
            invariant
                n <= snapshot.len(),
                self.wf(),
                views == envelope_views(snapshot@),
                self@ == upserted_each(mid, kind, views.take(n as int)),
            decreases snapshot.len() - n,
        {
            self.apply_upsert(kind, snapshot[n].duplicate());
            proof {
                assert(views.take(n + 1).drop_last() =~= views.take(n as int));
                assert(views.take(n + 1).last() == views[n as int]);
            }
            n += 1;
        }
        proof {
            assert(views.take(snapshot.len() as int) =~= views);
            lemma_relist_converges(start, kind, views);
        }
    }

    /// Takes in one event of the reflector of `kind`.
    pub fn apply(&mut self, kind: Kind, event: WatchEvent)
        requires
            old(self).wf(),
        ensures
            final(self).wf(),
            final(self)@ == applied(old(self)@, kind, event@),
    {
        match event {
            WatchEvent::Applied(e) => self.apply_upsert(kind, e),
            WatchEvent::Deleted(e) => self.apply_delete(kind, e.namespace.as_str(), e.name.as_str()),
            WatchEvent::Bookmark => {},
        }
    }

    /// One event of the pod reflector: the pod is stored and resolved, and
    /// its IPs are bound to its workload.
    pub fn watching_pods(&mut self, event: WatchEvent)
        requires
            old(self).wf(),
        ensures
            final(self).wf(),
            final(self)@ == applied(old(self)@, Kind::Pod, event@),
    {
        self.apply(Kind::Pod, event)
    }

    /// One event of the node reflector: the node is stored and its addresses
    /// are bound to it, under the namespace `node`.
    pub fn watching_nodes(&mut self, event: WatchEvent)
        requires
            old(self).wf(),
        ensures
            final(self).wf(),
            final(self)@ == applied(old(self)@, Kind::Node, event@),
    {
        self.apply(Kind::Node, event)
    }

    /// One event of the service reflector: the service is stored and its
    /// cluster IPs are bound to it.
    pub fn watching_services(&mut self, event: WatchEvent)
        requires
            old(self).wf(),
        ensures
            final(self).wf(),
            final(self)@ == applied(old(self)@, Kind::Service, event@),
    {
        self.apply(Kind::Service, event)
    }

    /// One event of the replica-set reflector: only the store changes.
    pub fn watching_replicasets(&mut self, event: WatchEvent)
        requires
            old(self).wf(),
        ensures
            final(self).wf(),
            final(self)@ == applied(old(self)@, Kind::ReplicaSet, event@),
    {
        self.apply(Kind::ReplicaSet, event)
    }

    /// One event of the deployment reflector: only the store changes.
    pub fn watching_deployments(&mut self, event: WatchEvent)
        requires
            old(self).wf(),
        ensures
            final(self).wf(),
            final(self)@ == applied(old(self)@, Kind::Deployment, event@),
    {
        self.apply(Kind::Deployment, event)
    }

    /// One event of the daemon-set reflector: only the store changes.
    pub fn watching_daemonsets(&mut self, event: WatchEvent)
        requires
            old(self).wf(),
        ensures
            final(self).wf(),
            final(self)@ == applied(old(self)@, Kind::DaemonSet, event@),
    {
        self.apply(Kind::DaemonSet, event)
    }

    /// One event of the stateful-set reflector: only the store changes.
    pub fn watching_statefulsets(&mut self, event: WatchEvent)
        requires
            old(self).wf(),
        ensures
            final(self).wf(),
            final(self)@ == applied(old(self)@, Kind::StatefulSet, event@),
    {
        self.apply(Kind::StatefulSet, event)
    }

    /// One event of the job reflector: only the store changes.
    pub fn watching_jobs(&mut self, event: WatchEvent)
        requires
            old(self).wf(),
        ensures
            final(self).wf(),
            final(self)@ == applied(old(self)@, Kind::Job, event@),
    {
        self.apply(Kind::Job, event)
    }

    /// One event of the cron-job reflector: only the store changes.
    pub fn watching_cronjobs(&mut self, event: WatchEvent)
        requires
            old(self).wf(),
        ensures
            final(self).wf(),
            final(self)@ == applied(old(self)@, Kind::CronJob, event@),
    {
        self.apply(Kind::CronJob, event)
    }

    /// One look at the initial synchronisation: whether every store has
    /// taken in its first full listing, which one is still waited for, or
    /// which reflector has failed. It never suspends: the caller waits
    /// between two looks.
    pub fn wait_for_cache_sync(&self) -> (r: SyncStatus)
        ensures
            r == sync_status(self@.stores),
            r == SyncStatus::Synced ==> self@.stores.all_ready(),
    {
        let mut i: usize = 0;
        while i < 9
            invariant
                i <= 9,
                first_degraded(self@.stores, i as int) == first_degraded(self@.stores, 0),
            decreases 9 - i,
        {
            let k = Kind::at(i);
            if self.stores.of(k).is_degraded() {
                return SyncStatus::Failed(k);
            }
            i += 1;
        }
        let mut j: usize = 0;
        while j < 9
            invariant
                j <= 9,
                first_degraded(self@.stores, 0).is_none(),
                first_unready(self@.stores, j as int) == first_unready(self@.stores, 0),
            decreases 9 - j,
        {
            let k = Kind::at(j);
            if !self.stores.of(k).is_ready() {
                return SyncStatus::Waiting(k);
            }
            j += 1;
        }
        proof {
            lemma_synced_means_ready(self@.stores);
        }
        SyncStatus::Synced
    }

    /// Records that the first full listing of `kind` has been taken in.
    pub fn mark_ready(&mut self, kind: Kind)
        requires
            old(self).wf(),
        ensures
            final(self).wf(),
            final(self)@ == (CacheView {
                stores: old(self)@.stores.with(
                    kind,
                    StoreView { ready: true, ..old(self)@.stores.of(kind) },
                ),
                ..old(self)@
            }),
    {
        self.stores.mark_ready(kind);
    }

    /// Records that the reflector of `kind` has ended on a fatal error.
    pub fn mark_degraded(&mut self, kind: Kind)
        requires
            old(self).wf(),
        ensures
            final(self).wf(),
            final(self)@ == (CacheView {
                stores: old(self)@.stores.with(
                    kind,
                    StoreView { degraded: true, ..old(self)@.stores.of(kind) },
                ),
                ..old(self)@
            }),
    {
        self.stores.mark_degraded(kind);
    }
}

} // verus!
