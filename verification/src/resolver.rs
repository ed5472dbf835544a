//! The ownership resolver: from a pod, along controller owner references
//! through the cached ancestors, to the workload that the pod belongs to.

use vstd::prelude::*;
use crate::objects::{controller_of, Envelope, EnvelopeView, OwnerRef, OwnerRefView};
use crate::topology::{Stores, StoresView};
use crate::workload::{Kind, Workload, WorkloadView};

verus! {

/// The default bound on the number of ancestors that a resolution follows.
pub const MAX_DEPTH: usize = 8;

pub struct ResolutionView {
    pub workload: WorkloadView,
    pub settled: bool,
    pub truncated: bool,
    pub lookups: nat,
}

/// What a resolution found: the workload, whether the answer may be
/// memoized, whether the walk was cut off at the bound with an owner
/// reference still to follow, and how many store lookups it took.
pub struct Resolution {
    pub workload: Workload,
    pub settled: bool,
    pub truncated: bool,
    pub lookups: usize,
}

impl View for Resolution {
    type V = ResolutionView;

    open spec fn view(&self) -> ResolutionView {
        ResolutionView {
            workload: self.workload@,
            settled: self.settled,
            truncated: self.truncated,
            lookups: self.lookups as nat,
        }
    }
}

/// The walk along the chain. `name` and `kind` are the best answer so far,
/// `owner` the reference still to follow, `hops` the lookups made. The walk
/// ends where there is no reference left, where `limit` lookups are made,
/// where the reference names no controller kind, or where the ancestor is
/// not in its store; only the last leaves the answer unsettled, as does an
/// end before any ancestor was found although the pod names a controller.
/// The walk is truncated exactly where it ends at the limit with a
/// reference left.
pub open spec fn walk(
    stores: StoresView,
    namespace: Seq<char>,
    owner: Option<OwnerRefView>,
    name: Seq<char>,
    kind: Seq<char>,
    hops: nat,
    limit: nat,
) -> ResolutionView
    decreases limit - hops,
{
    let here = WorkloadView { name, namespace, kind };
    match owner {
        None => ResolutionView { workload: here, settled: true, truncated: false, lookups: hops },
        Some(o) => {
            if hops >= limit {
                ResolutionView { workload: here, settled: hops > 0, truncated: true, lookups: hops }
            } else {
                match Kind::controller_named(o.kind) {
                    None => ResolutionView {
                        workload: here,
                        settled: hops > 0,
                        truncated: false,
                        lookups: hops,
                    },
                    Some(k) => {
                        if stores.of(k).objects.contains_key((namespace, o.name)) {
                            walk(
                                stores,
                                namespace,
                                controller_of(stores.of(k).objects[(namespace, o.name)].owners),
                                o.name,
                                o.kind,
                                hops + 1,
                                limit,
                            )
                        } else {
                            ResolutionView {
                                workload: here,
                                settled: false,
                                truncated: false,
                                lookups: hops + 1,
                            }
                        }
                    },
                }
            }
        },
    }
}

/// The resolution of a pod: the walk from the pod itself along its
/// controller owner reference.
pub open spec fn resolution(stores: StoresView, pod: EnvelopeView, limit: nat) -> ResolutionView {
    walk(stores, pod.namespace, controller_of(pod.owners), pod.name, Kind::Pod.label(), 0, limit)
}

/// There is a chain of cached controllers from the one that `from` names
/// to the one called `name` of kind `kind`, of at most `steps` links, each
/// the controller owner of the one before.
pub open spec fn reaches(
    stores: StoresView,
    namespace: Seq<char>,
    from: OwnerRefView,
    name: Seq<char>,
    kind: Seq<char>,
    steps: nat,
) -> bool
    decreases steps,
{
    match Kind::controller_named(from.kind) {
        None => false,
        Some(k) => stores.of(k).objects.contains_key((namespace, from.name)) && ((from.name == name
            && from.kind == kind) || (steps > 0 && match controller_of(
            stores.of(k).objects[(namespace, from.name)].owners,
        ) {
            None => false,
            Some(next) => reaches(stores, namespace, next, name, kind, (steps - 1) as nat),
        })),
    }
}

fn walk_from(
    stores: &Stores,
    namespace: &str,
    owner: Option<OwnerRef>,
    name: String,
    kind: String,
    hops: usize,
    max_depth: usize,
) -> (r: Resolution)
    requires
        stores.wf(),
        hops <= max_depth,
    ensures
        r@ == walk(
            stores@,
            namespace@,
            match owner {
                Some(o) => Some(o@),
                None => None,
            },
            name@,
            kind@,
            hops as nat,
            max_depth as nat,
        ),
    decreases max_depth - hops,
{
    match owner {
        None => Resolution {
            workload: Workload::new(name, namespace.to_owned(), kind),
            settled: true,
            truncated: false,
            lookups: hops,
        },
        Some(o) => {
            if hops >= max_depth {
                Resolution {
                    workload: Workload::new(name, namespace.to_owned(), kind),
                    settled: hops > 0,
                    truncated: true,
                    lookups: hops,
                }
            } else {
                match Kind::controller_kind(o.kind.as_str()) {
                    None => Resolution {
                        workload: Workload::new(name, namespace.to_owned(), kind),
                        settled: hops > 0,
                        truncated: false,
                        lookups: hops,
                    },
                    Some(k) => match stores.of(k).get(namespace, o.name.as_str()) {
                        None => Resolution {
                            workload: Workload::new(name, namespace.to_owned(), kind),
                            settled: false,
                            truncated: false,
                            lookups: hops + 1,
                        },
                        Some(ancestor) => {
                            let next = ancestor.controller();
                            walk_from(stores, namespace, next, o.name, o.kind, hops + 1, max_depth)
                        },
                    },
                }
            }
        },
    }
}

/// Resolves a pod to its workload over the cached ancestors, without any
/// I/O and in at most `max_depth` store lookups.
pub fn resolve(stores: &Stores, pod: &Envelope, max_depth: usize) -> (r: Resolution)
    requires
        stores.wf(),
    ensures
        r@ == resolution(stores@, pod@, max_depth as nat),
        r.lookups <= max_depth,
        r@.workload.namespace == pod@.namespace,
{
    proof {
        lemma_walk_bounded(
            stores@,
            pod@.namespace,
            controller_of(pod@.owners),
            pod@.name,
            Kind::Pod.label(),
            0,
            max_depth as nat,
        );
    }
    walk_from(
        stores,
        pod.namespace.as_str(),
        pod.controller(),
        pod.name.clone(),
        Kind::Pod.name(),
        0,
        max_depth,
    )
}

/// A walk makes no more than `limit` lookups and never leaves the namespace.
pub proof fn lemma_walk_bounded(
    stores: StoresView,
    namespace: Seq<char>,
    owner: Option<OwnerRefView>,
    name: Seq<char>,
    kind: Seq<char>,
    hops: nat,
    limit: nat,
)
    requires
        hops <= limit,
    ensures
        hops <= walk(stores, namespace, owner, name, kind, hops, limit).lookups <= limit,
        walk(stores, namespace, owner, name, kind, hops, limit).workload.namespace == namespace,
    decreases limit - hops,
{
    if let Some(o) = owner {
        if hops < limit {
            if let Some(k) = Kind::controller_named(o.kind) {
                if stores.of(k).objects.contains_key((namespace, o.name)) {
                    lemma_walk_bounded(
                        stores,
                        namespace,
                        controller_of(stores.of(k).objects[(namespace, o.name)].owners),
                        o.name,
                        o.kind,
                        hops + 1,
                        limit,
                    );
                }
            }
        }
    }
}

/// Every resolution ends within the bound on lookups, whatever the stores
/// hold, cycles among the owner references included.
pub proof fn lemma_resolution_terminates(stores: StoresView, pod: EnvelopeView, limit: nat)
    ensures
        resolution(stores, pod, limit).lookups <= limit,
{
    lemma_walk_bounded(
        stores,
        pod.namespace,
        controller_of(pod.owners),
        pod.name,
        Kind::Pod.label(),
        0,
        limit,
    );
}

proof fn lemma_walk_reaches(
    stores: StoresView,
    namespace: Seq<char>,
    o: OwnerRefView,
    hops: nat,
    limit: nat,
)
    requires
        hops < limit,
        Kind::controller_named(o.kind).is_some(),
        stores.of(Kind::controller_named(o.kind).unwrap()).objects.contains_key(
            (namespace, o.name),
        ),
    ensures
        ({
            let k = Kind::controller_named(o.kind).unwrap();
            let r = walk(
                stores,
                namespace,
                controller_of(stores.of(k).objects[(namespace, o.name)].owners),
                o.name,
                o.kind,
                hops + 1,
                limit,
            );
            reaches(stores, namespace, o, r.workload.name, r.workload.kind, (limit - hops - 1) as nat)
        }),
    decreases limit - hops,
{
    let k = Kind::controller_named(o.kind).unwrap();
    let next = controller_of(stores.of(k).objects[(namespace, o.name)].owners);
    if let Some(n) = next {
        if hops + 1 < limit {
            if let Some(k2) = Kind::controller_named(n.kind) {
                if stores.of(k2).objects.contains_key((namespace, n.name)) {
                    lemma_walk_reaches(stores, namespace, n, hops + 1, limit);
                }
            }
        }
    }
}

/// A settled resolution is sound: either the pod has no controller owner
/// and the workload is the pod itself, or a chain of cached controllers
/// leads from the pod's controller owner to a controller with the
/// workload's name and kind.
pub proof fn lemma_resolution_sound(stores: StoresView, pod: EnvelopeView, limit: nat)
    requires
        resolution(stores, pod, limit).settled,
    ensures
        ({
            let w = resolution(stores, pod, limit).workload;
            (controller_of(pod.owners).is_none() && w == (WorkloadView {
                name: pod.name,
                namespace: pod.namespace,
                kind: Kind::Pod.label(),
            })) || (controller_of(pod.owners).is_some() && reaches(
                stores,
                pod.namespace,
                controller_of(pod.owners).unwrap(),
                w.name,
                w.kind,
                limit,
            ))
        }),
{
    if let Some(o) = controller_of(pod.owners) {
        if 0 < limit {
            if let Some(k) = Kind::controller_named(o.kind) {
                if stores.of(k).objects.contains_key((pod.namespace, o.name)) {
                    lemma_walk_reaches(stores, pod.namespace, o, 0, limit);
                    let w = resolution(stores, pod, limit).workload;
                    lemma_reaches_longer(stores, pod.namespace, o, w.name, w.kind, (limit - 1) as nat);
                }
            }
        }
    }
}

/// A chain of at most `steps` links is one of at most `steps + 1`.
pub proof fn lemma_reaches_longer(
    stores: StoresView,
    namespace: Seq<char>,
    from: OwnerRefView,
    name: Seq<char>,
    kind: Seq<char>,
    steps: nat,
)
    requires
        reaches(stores, namespace, from, name, kind, steps),
    ensures
        reaches(stores, namespace, from, name, kind, steps + 1),
    decreases steps,
{
    let k = Kind::controller_named(from.kind).unwrap();
    if !(from.name == name && from.kind == kind) {
        let next = controller_of(stores.of(k).objects[(namespace, from.name)].owners).unwrap();
        lemma_reaches_longer(stores, namespace, next, name, kind, (steps - 1) as nat);
    }
}

} // verus!
