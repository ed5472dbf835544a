//! The workload descriptor and the nine resource kinds.

use vstd::prelude::*;

verus! {

/// Mathematical value of a [`Workload`].
pub struct WorkloadView {
    pub name: Seq<char>,
    pub namespace: Seq<char>,
    pub kind: Seq<char>,
}

/// The unit of identity that lookups return: the outermost controller of a
/// pod, the pod itself, a node or a service.
#[derive(Clone, Debug, PartialEq, Eq, Hash)]
pub struct Workload {
    pub name: String,
    pub namespace: String,
    pub kind: String,
}

impl View for Workload {
    type V = WorkloadView;

    open spec fn view(&self) -> WorkloadView {
        WorkloadView { name: self.name@, namespace: self.namespace@, kind: self.kind@ }
    }
}

impl Workload {
    pub fn new(name: String, namespace: String, kind: String) -> (w: Workload)
        ensures
            w@ == (WorkloadView { name: name@, namespace: namespace@, kind: kind@ }),
    {
        Workload { name, namespace, kind }
    }

    /// A copy with the same name, namespace and kind.
    pub fn duplicate(&self) -> (w: Workload)
        ensures
            w@ == self@,
    {
        Workload {
            name: self.name.clone(),
            namespace: self.namespace.clone(),
            kind: self.kind.clone(),
        }
    }

    /// Whether two descriptors name the same workload.
    pub fn same_as(&self, other: &Workload) -> (r: bool)
        ensures
            r == (self@ == other@),
    {
        self.name == other.name && self.namespace == other.namespace && self.kind == other.kind
    }
}

/// The resource kinds that are mirrored.
#[derive(Clone, Copy, Debug, PartialEq, Eq, Structural)]
pub enum Kind {
    Pod,
    ReplicaSet,
    Deployment,
    StatefulSet,
    DaemonSet,
    Job,
    CronJob,
    Service,
    Node,
}

impl Kind {
    /// The kind's name as it stands in object metadata.
    pub open spec fn label(self) -> Seq<char> {
        match self {
            Kind::Pod => "Pod"@,
            Kind::ReplicaSet => "ReplicaSet"@,
            Kind::Deployment => "Deployment"@,
            Kind::StatefulSet => "StatefulSet"@,
            Kind::DaemonSet => "DaemonSet"@,
            Kind::Job => "Job"@,
            Kind::CronJob => "CronJob"@,
            Kind::Service => "Service"@,
            Kind::Node => "Node"@,
        }
    }

    pub fn name(self) -> (s: String)
        ensures
            s@ == self.label(),
    {
        match self {
            Kind::Pod => "Pod".to_owned(),
            Kind::ReplicaSet => "ReplicaSet".to_owned(),
            Kind::Deployment => "Deployment".to_owned(),
            Kind::StatefulSet => "StatefulSet".to_owned(),
            Kind::DaemonSet => "DaemonSet".to_owned(),
            Kind::Job => "Job".to_owned(),
            Kind::CronJob => "CronJob".to_owned(),
            Kind::Service => "Service".to_owned(),
            Kind::Node => "Node".to_owned(),
        }
    }

    /// The kinds in the order in which their stores are waited for.
    pub open spec fn nth(i: int) -> Kind {
        if i == 0 {
            Kind::Pod
        } else if i == 1 {
            Kind::Node
        } else if i == 2 {
            Kind::Service
        } else if i == 3 {
            Kind::ReplicaSet
        } else if i == 4 {
            Kind::Deployment
        } else if i == 5 {
            Kind::StatefulSet
        } else if i == 6 {
            Kind::DaemonSet
        } else if i == 7 {
            Kind::Job
        } else {
            Kind::CronJob
        }
    }

    /// The place of the kind in that order.
    pub open spec fn ordinal(self) -> int {
        match self {
            Kind::Pod => 0,
            Kind::Node => 1,
            Kind::Service => 2,
            Kind::ReplicaSet => 3,
            Kind::Deployment => 4,
            Kind::StatefulSet => 5,
            Kind::DaemonSet => 6,
            Kind::Job => 7,
            Kind::CronJob => 8,
        }
    }

    pub fn at(i: usize) -> (k: Kind)
        ensures
            k == Kind::nth(i as int),
    {
        if i == 0 {
            Kind::Pod
        } else if i == 1 {
            Kind::Node
        } else if i == 2 {
            Kind::Service
        } else if i == 3 {
            Kind::ReplicaSet
        } else if i == 4 {
            Kind::Deployment
        } else if i == 5 {
            Kind::StatefulSet
        } else if i == 6 {
            Kind::DaemonSet
        } else if i == 7 {
            Kind::Job
        } else {
            Kind::CronJob
        }
    }

    /// Whether objects of the kind enter addresses into the IP index.
    pub open spec fn carries_addresses(self) -> bool {
        self == Kind::Pod || self == Kind::Node || self == Kind::Service
    }

    pub fn has_addresses(self) -> (r: bool)
        ensures
            r == self.carries_addresses(),
    {
        match self {
            Kind::Pod | Kind::Node | Kind::Service => true,
            _ => false,
        }
    }

    /// The controller kind that an owner reference names, if it is one of the
    /// six through which an ownership chain is followed.
    pub open spec fn controller_named(label: Seq<char>) -> Option<Kind> {
        if label == "ReplicaSet"@ {
            Some(Kind::ReplicaSet)
        } else if label == "Deployment"@ {
            Some(Kind::Deployment)
        } else if label == "DaemonSet"@ {
            Some(Kind::DaemonSet)
        } else if label == "StatefulSet"@ {
            Some(Kind::StatefulSet)
        } else if label == "Job"@ {
            Some(Kind::Job)
        } else if label == "CronJob"@ {
            Some(Kind::CronJob)
        } else {
            None
        }
    }

    pub fn controller_kind(label: &str) -> (k: Option<Kind>)
        ensures
            k == Kind::controller_named(label@),
    {
        if text_is(label, "ReplicaSet") {
            Some(Kind::ReplicaSet)
        } else if text_is(label, "Deployment") {
            Some(Kind::Deployment)
        } else if text_is(label, "DaemonSet") {
            Some(Kind::DaemonSet)
        } else if text_is(label, "StatefulSet") {
            Some(Kind::StatefulSet)
        } else if text_is(label, "Job") {
            Some(Kind::Job)
        } else if text_is(label, "CronJob") {
            Some(Kind::CronJob)
        } else {
            None
        }
    }
}

/// Whether two texts hold the same characters.
pub fn text_is(a: &str, b: &str) -> (r: bool)
    ensures
        r == (a@ == b@),
{
    let x = a.to_owned();
    let y = b.to_owned();
    x == y
}

} // verus!
