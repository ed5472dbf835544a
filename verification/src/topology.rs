//! The nine stores, one per resource kind.

use vstd::prelude::*;
use crate::objects::Envelope;
use crate::store::{Store, StoreView};
use crate::workload::Kind;

verus! {

pub struct StoresView {
    pub pods: StoreView,
    pub nodes: StoreView,
    pub services: StoreView,
    pub replicasets: StoreView,
    pub deployments: StoreView,
    pub statefulsets: StoreView,
    pub daemonsets: StoreView,
    pub jobs: StoreView,
    pub cronjobs: StoreView,
}

impl StoresView {
    pub open spec fn of(self, kind: Kind) -> StoreView {
        match kind {
            Kind::Pod => self.pods,
            Kind::Node => self.nodes,
            Kind::Service => self.services,
            Kind::ReplicaSet => self.replicasets,
            Kind::Deployment => self.deployments,
            Kind::StatefulSet => self.statefulsets,
            Kind::DaemonSet => self.daemonsets,
            Kind::Job => self.jobs,
            Kind::CronJob => self.cronjobs,
        }
    }

    /// The same stores, but for the one of `kind`.
    pub open spec fn with(self, kind: Kind, store: StoreView) -> StoresView {
        match kind {
            Kind::Pod => StoresView { pods: store, ..self },
            Kind::Node => StoresView { nodes: store, ..self },
            Kind::Service => StoresView { services: store, ..self },
            Kind::ReplicaSet => StoresView { replicasets: store, ..self },
            Kind::Deployment => StoresView { deployments: store, ..self },
            Kind::StatefulSet => StoresView { statefulsets: store, ..self },
            Kind::DaemonSet => StoresView { daemonsets: store, ..self },
            Kind::Job => StoresView { jobs: store, ..self },
            Kind::CronJob => StoresView { cronjobs: store, ..self },
        }
    }

    pub open spec fn all_ready(self) -> bool {
        forall|k: Kind| (#[trigger] self.of(k)).ready
    }

    pub open spec fn any_degraded(self) -> bool {
        exists|k: Kind| (#[trigger] self.of(k)).degraded
    }
}

pub struct Stores {
    pub pods: Store,
    pub nodes: Store,
    pub services: Store,
    pub replicasets: Store,
    pub deployments: Store,
    pub statefulsets: Store,
    pub daemonsets: Store,
    pub jobs: Store,
    pub cronjobs: Store,
}

impl View for Stores {
    type V = StoresView;

    open spec fn view(&self) -> StoresView {
        StoresView {
            pods: self.pods@,
            nodes: self.nodes@,
            services: self.services@,
            replicasets: self.replicasets@,
            deployments: self.deployments@,
            statefulsets: self.statefulsets@,
            daemonsets: self.daemonsets@,
            jobs: self.jobs@,
            cronjobs: self.cronjobs@,
        }
    }
}

impl Stores {
    pub open spec fn wf(&self) -> bool {
        &&& self.pods.wf()
        &&& self.nodes.wf()
        &&& self.services.wf()
        &&& self.replicasets.wf()
        &&& self.deployments.wf()
        &&& self.statefulsets.wf()
        &&& self.daemonsets.wf()
        &&& self.jobs.wf()
        &&& self.cronjobs.wf()
    }

    pub open spec fn store(&self, kind: Kind) -> Store {
        match kind {
            Kind::Pod => self.pods,
            Kind::Node => self.nodes,
            Kind::Service => self.services,
            Kind::ReplicaSet => self.replicasets,
            Kind::Deployment => self.deployments,
            Kind::StatefulSet => self.statefulsets,
            Kind::DaemonSet => self.daemonsets,
            Kind::Job => self.jobs,
            Kind::CronJob => self.cronjobs,
        }
    }

    /// Nine empty stores, none of them ready.
    pub fn new() -> (s: Stores)
        ensures
            s.wf(),
            forall|k: Kind| #[trigger]
                s@.of(k) == (StoreView { objects: Map::empty(), ready: false, degraded: false }),
    {
        Stores {
            pods: Store::new(),
            nodes: Store::new(),
            services: Store::new(),
            replicasets: Store::new(),
            deployments: Store::new(),
            statefulsets: Store::new(),
            daemonsets: Store::new(),
            jobs: Store::new(),
            cronjobs: Store::new(),
        }
    }

    pub fn of(&self, kind: Kind) -> (s: &Store)
        ensures
            *s == self.store(kind),
            s@ == self@.of(kind),
    {
        match kind {
            Kind::Pod => &self.pods,
            Kind::Node => &self.nodes,
            Kind::Service => &self.services,
            Kind::ReplicaSet => &self.replicasets,
            Kind::Deployment => &self.deployments,
            Kind::StatefulSet => &self.statefulsets,
            Kind::DaemonSet => &self.daemonsets,
            Kind::Job => &self.jobs,
            Kind::CronJob => &self.cronjobs,
        }
    }

    pub fn upsert(&mut self, kind: Kind, envelope: Envelope)
        requires
            old(self).wf(),
        ensures
            final(self).wf(),
            final(self)@ == old(self)@.with(
                kind,
                StoreView {
                    objects: old(self)@.of(kind).objects.insert(envelope@.key(), envelope@),
                    ..old(self)@.of(kind)
                },
            ),
    {
        match kind {
            Kind::Pod => self.pods.upsert(envelope),
            Kind::Node => self.nodes.upsert(envelope),
            Kind::Service => self.services.upsert(envelope),
            Kind::ReplicaSet => self.replicasets.upsert(envelope),
            Kind::Deployment => self.deployments.upsert(envelope),
            Kind::StatefulSet => self.statefulsets.upsert(envelope),
            Kind::DaemonSet => self.daemonsets.upsert(envelope),
            Kind::Job => self.jobs.upsert(envelope),
            Kind::CronJob => self.cronjobs.upsert(envelope),
        }
    }

    pub fn delete(&mut self, kind: Kind, namespace: &str, name: &str)
        requires
            old(self).wf(),
        ensures
            final(self).wf(),
            final(self)@ == old(self)@.with(
                kind,
                StoreView {
                    objects: old(self)@.of(kind).objects.remove((namespace@, name@)),
                    ..old(self)@.of(kind)
                },
            ),
    {
        match kind {
            Kind::Pod => self.pods.delete(namespace, name),
            Kind::Node => self.nodes.delete(namespace, name),
            Kind::Service => self.services.delete(namespace, name),
            Kind::ReplicaSet => self.replicasets.delete(namespace, name),
            Kind::Deployment => self.deployments.delete(namespace, name),
            Kind::StatefulSet => self.statefulsets.delete(namespace, name),
            Kind::DaemonSet => self.daemonsets.delete(namespace, name),
            Kind::Job => self.jobs.delete(namespace, name),
            Kind::CronJob => self.cronjobs.delete(namespace, name),
        }
    }

    pub fn mark_ready(&mut self, kind: Kind)
        requires
            old(self).wf(),
        ensures
            final(self).wf(),
            final(self)@ == old(self)@.with(
                kind,
                StoreView { ready: true, ..old(self)@.of(kind) },
            ),
    {
        match kind {
            Kind::Pod => self.pods.mark_ready(),
            Kind::Node => self.nodes.mark_ready(),
            Kind::Service => self.services.mark_ready(),
            Kind::ReplicaSet => self.replicasets.mark_ready(),
            Kind::Deployment => self.deployments.mark_ready(),
            Kind::StatefulSet => self.statefulsets.mark_ready(),
            Kind::DaemonSet => self.daemonsets.mark_ready(),
            Kind::Job => self.jobs.mark_ready(),
            Kind::CronJob => self.cronjobs.mark_ready(),
        }
    }

    pub fn mark_degraded(&mut self, kind: Kind)
        requires
            old(self).wf(),
        ensures
            final(self).wf(),
            final(self)@ == old(self)@.with(
                kind,
                StoreView { degraded: true, ..old(self)@.of(kind) },
            ),
    {
        match kind {
            Kind::Pod => self.pods.mark_degraded(),
            Kind::Node => self.nodes.mark_degraded(),
            Kind::Service => self.services.mark_degraded(),
            Kind::ReplicaSet => self.replicasets.mark_degraded(),
            Kind::Deployment => self.deployments.mark_degraded(),
            Kind::StatefulSet => self.statefulsets.mark_degraded(),
            Kind::DaemonSet => self.daemonsets.mark_degraded(),
            Kind::Job => self.jobs.mark_degraded(),
            Kind::CronJob => self.cronjobs.mark_degraded(),
        }
    }
}

} // verus!
