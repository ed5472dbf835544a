use workload_cache::cache::{CacheManager, SyncStatus, WatchEvent};
use workload_cache::index::Binding;
use workload_cache::objects::{Address, Envelope, OwnerRef};
use workload_cache::resolver::{resolve, MAX_DEPTH};
use workload_cache::store::Store;
use workload_cache::topology::Stores;
use workload_cache::workload::{Kind, Workload};

fn s(text: &str) -> String {
    text.to_string()
}

fn ip(text: &str) -> Address {
    Address::new(s(text))
}

fn controller(kind: &str, name: &str) -> OwnerRef {
    OwnerRef::new(s(kind), s(name), true)
}

fn object(ns: &str, name: &str, owners: Vec<OwnerRef>, ips: &[&str]) -> Envelope {
    Envelope::new(s(ns), s(name), owners, ips.iter().map(|t| ip(t)).collect())
}

fn workload(name: &str, ns: &str, kind: &str) -> Workload {
    Workload { name: s(name), namespace: s(ns), kind: s(kind) }
}

#[test]
fn deployment_rollout() {
    let mut c = CacheManager::new();
    c.apply_upsert(Kind::Deployment, object("prod", "web", vec![], &[]));
    c.apply_upsert(
        Kind::ReplicaSet,
        object("prod", "web-abc", vec![controller("Deployment", "web")], &[]),
    );
    c.apply_upsert(
        Kind::Pod,
        object("prod", "web-abc-1", vec![controller("ReplicaSet", "web-abc")], &["10.0.0.5"]),
    );
    assert_eq!(c.lookup_ip("10.0.0.5"), Some(workload("web", "prod", "Deployment")));
    assert_eq!(c.lookup_pod("prod", "web-abc-1"), Some(workload("web", "prod", "Deployment")));
}

#[test]
fn cronjob_hierarchy() {
    let mut c = CacheManager::new();
    c.watching_cronjobs(WatchEvent::Applied(object("batch", "nightly", vec![], &[])));
    c.watching_jobs(WatchEvent::Applied(object(
        "batch",
        "nightly-27",
        vec![controller("CronJob", "nightly")],
        &[],
    )));
    c.watching_pods(WatchEvent::Applied(object(
        "batch",
        "nightly-27-x",
        vec![controller("Job", "nightly-27")],
        &["10.0.0.9"],
    )));
    assert_eq!(c.lookup_ip("10.0.0.9"), Some(workload("nightly", "batch", "CronJob")));
}

#[test]
fn bare_pod() {
    let mut c = CacheManager::new();
    c.apply_upsert(Kind::Pod, object("default", "debug", vec![], &["10.0.0.1"]));
    assert_eq!(c.lookup_ip("10.0.0.1"), Some(workload("debug", "default", "Pod")));
    assert_eq!(c.lookup_pod("default", "debug"), Some(workload("debug", "default", "Pod")));
}

#[test]
fn service_with_headless_marker() {
    let mut c = CacheManager::new();
    c.watching_services(WatchEvent::Applied(object("prod", "api", vec![], &["10.1.0.10", "None"])));
    assert_eq!(c.lookup_ip("10.1.0.10"), Some(workload("api", "prod", "Service")));
    assert_eq!(c.lookup_ip("None"), None);
}

#[test]
fn node_address() {
    let mut c = CacheManager::new();
    c.watching_nodes(WatchEvent::Applied(object("", "worker-1", vec![], &["192.168.1.7"])));
    assert_eq!(c.lookup_ip("192.168.1.7"), Some(workload("worker-1", "node", "Node")));
}

#[test]
fn ancestor_before_child_race() {
    let mut c = CacheManager::new();
    let pod = || object("prod", "web-abc-1", vec![controller("ReplicaSet", "web-abc")], &["10.0.0.5"]);
    c.apply_upsert(Kind::Pod, pod());
    assert_eq!(c.lookup_ip("10.0.0.5"), Some(workload("web-abc-1", "prod", "Pod")));
    assert_eq!(c.lookup_pod("prod", "web-abc-1"), None);
    c.apply_upsert(
        Kind::ReplicaSet,
        object("prod", "web-abc", vec![controller("Deployment", "web")], &[]),
    );
    c.apply_upsert(Kind::Deployment, object("prod", "web", vec![], &[]));
    c.apply_upsert(Kind::Pod, pod());
    assert_eq!(c.lookup_ip("10.0.0.5"), Some(workload("web", "prod", "Deployment")));
    assert_eq!(c.lookup_pod("prod", "web-abc-1"), Some(workload("web", "prod", "Deployment")));
}

#[test]
fn pod_observed_before_its_controller() {
    let mut c = CacheManager::new();
    let pod = object("prod", "web-abc-1", vec![controller("ReplicaSet", "web-abc")], &[]);
    c.apply_upsert(
        Kind::ReplicaSet,
        object("prod", "web-abc", vec![controller("Deployment", "web")], &[]),
    );
    let first = c.resolve_pod_descriptor(&pod);
    assert_eq!(first, workload("web-abc", "prod", "ReplicaSet"));
    assert_eq!(c.lookup_pod("prod", "web-abc-1"), None);
    c.apply_upsert(Kind::Deployment, object("prod", "web", vec![], &[]));
    let second = c.resolve_pod_descriptor(&pod);
    assert_eq!(second, workload("web", "prod", "Deployment"));
    assert_eq!(c.lookup_pod("prod", "web-abc-1"), Some(workload("web", "prod", "Deployment")));
}

#[test]
fn chain_longer_than_the_bound_ends_at_the_bound() {
    let mut stores = Stores::new();
    for i in 1..=10 {
        let owners = if i < 10 {
            vec![controller("ReplicaSet", &format!("r{}", i + 1))]
        } else {
            vec![]
        };
        stores.upsert(Kind::ReplicaSet, object("ns", &format!("r{}", i), owners, &[]));
    }
    let pod = object("ns", "p", vec![controller("ReplicaSet", "r1")], &[]);
    let r = resolve(&stores, &pod, MAX_DEPTH);
    assert_eq!(MAX_DEPTH, 8);
    assert_eq!(r.workload, workload("r8", "ns", "ReplicaSet"));
    assert_eq!(r.lookups, 8);
    assert!(r.settled);
    let short = resolve(&stores, &pod, 3);
    assert_eq!(short.workload, workload("r3", "ns", "ReplicaSet"));
    assert_eq!(short.lookups, 3);
    let full = resolve(&stores, &pod, 20);
    assert_eq!(full.workload, workload("r10", "ns", "ReplicaSet"));
    assert_eq!(full.lookups, 10);
}

#[test]
fn cyclic_owners_end_within_the_bound() {
    let mut stores = Stores::new();
    stores.upsert(Kind::ReplicaSet, object("ns", "a", vec![controller("ReplicaSet", "b")], &[]));
    stores.upsert(Kind::ReplicaSet, object("ns", "b", vec![controller("ReplicaSet", "a")], &[]));
    let pod = object("ns", "p", vec![controller("ReplicaSet", "a")], &[]);
    let r = resolve(&stores, &pod, MAX_DEPTH);
    assert!(r.lookups <= MAX_DEPTH);
    assert_eq!(r.lookups, 8);
    assert_eq!(r.workload, workload("b", "ns", "ReplicaSet"));
}

#[test]
fn resolution_with_depth_zero_is_the_pod_and_is_not_settled() {
    let mut stores = Stores::new();
    stores.upsert(Kind::ReplicaSet, object("ns", "a", vec![], &[]));
    let pod = object("ns", "p", vec![controller("ReplicaSet", "a")], &[]);
    let r = resolve(&stores, &pod, 0);
    assert_eq!(r.workload, workload("p", "ns", "Pod"));
    assert_eq!(r.lookups, 0);
    assert!(!r.settled);
}

#[test]
fn owner_of_unknown_kind_ends_the_walk() {
    let mut c = CacheManager::new();
    c.apply_upsert(Kind::Pod, object("ns", "p", vec![controller("Rollout", "x")], &["10.2.0.1"]));
    assert_eq!(c.lookup_ip("10.2.0.1"), Some(workload("p", "ns", "Pod")));
    assert_eq!(c.lookup_pod("ns", "p"), None);
    c.apply_upsert(Kind::ReplicaSet, object("ns", "rs", vec![controller("Rollout", "x")], &[]));
    c.apply_upsert(Kind::Pod, object("ns", "q", vec![controller("ReplicaSet", "rs")], &["10.2.0.2"]));
    assert_eq!(c.lookup_ip("10.2.0.2"), Some(workload("rs", "ns", "ReplicaSet")));
    assert_eq!(c.lookup_pod("ns", "q"), Some(workload("rs", "ns", "ReplicaSet")));
}

#[test]
fn first_controller_reference_is_followed() {
    let mut c = CacheManager::new();
    c.apply_upsert(Kind::ReplicaSet, object("ns", "one", vec![], &[]));
    c.apply_upsert(Kind::ReplicaSet, object("ns", "two", vec![], &[]));
    let owners = vec![
        OwnerRef::new(s("ReplicaSet"), s("zero"), false),
        controller("ReplicaSet", "one"),
        controller("ReplicaSet", "two"),
    ];
    let pod = object("ns", "p", owners, &["10.3.0.1"]);
    assert_eq!(pod.controller().map(|o| o.name), Some(s("one")));
    c.apply_upsert(Kind::Pod, pod);
    assert_eq!(c.lookup_ip("10.3.0.1"), Some(workload("one", "ns", "ReplicaSet")));
}

#[test]
fn ancestor_is_looked_up_in_the_pods_namespace() {
    let mut c = CacheManager::new();
    c.apply_upsert(Kind::ReplicaSet, object("other", "rs", vec![], &[]));
    c.apply_upsert(Kind::Pod, object("ns", "p", vec![controller("ReplicaSet", "rs")], &["10.3.0.2"]));
    assert_eq!(c.lookup_ip("10.3.0.2"), Some(workload("p", "ns", "Pod")));
    assert_eq!(c.lookup_pod("ns", "p"), None);
}

#[test]
fn controller_of_owner_is_read_from_the_matching_store() {
    let mut c = CacheManager::new();
    c.apply_upsert(Kind::Deployment, object("prod", "web", vec![], &[]));
    c.apply_upsert(
        Kind::ReplicaSet,
        object("prod", "web-abc", vec![controller("Deployment", "web")], &[]),
    );
    let up = c.get_controller_of_owner(&controller("ReplicaSet", "web-abc"), "prod");
    assert_eq!(up.map(|o| (o.kind, o.name, o.controller)), Some((s("Deployment"), s("web"), true)));
    assert!(c.get_controller_of_owner(&controller("Deployment", "web"), "prod").is_none());
    assert!(c.get_controller_of_owner(&controller("ReplicaSet", "missing"), "prod").is_none());
    assert!(c.get_controller_of_owner(&controller("Widget", "web-abc"), "prod").is_none());
}

#[test]
fn headless_service_contributes_nothing() {
    let mut c = CacheManager::new();
    c.apply_upsert(Kind::Service, object("prod", "db", vec![], &["None"]));
    assert_eq!(c.lookup_ip("None"), None);
    assert!(c.get(Kind::Service, "prod", "db").is_some());
    assert!(!ip("None").contributes());
}

#[test]
fn node_without_addresses_contributes_nothing() {
    let mut c = CacheManager::new();
    c.apply_upsert(Kind::Node, object("", "worker-2", vec![], &[]));
    assert!(c.get(Kind::Node, "", "worker-2").is_some());
    assert_eq!(c.lookup_ip(""), None);
    assert_eq!(c.lookup_ip("worker-2"), None);
}

#[test]
fn malformed_and_empty_addresses_are_skipped() {
    let mut c = CacheManager::new();
    c.apply_upsert(Kind::Pod, object("ns", "p", vec![], &["", "not-an-ip", "10.4.0.1", "fd00::1"]));
    assert_eq!(c.lookup_ip(""), None);
    assert_eq!(c.lookup_ip("not-an-ip"), None);
    assert_eq!(c.lookup_ip("10.4.0.1"), Some(workload("p", "ns", "Pod")));
    assert_eq!(c.lookup_ip("fd00::1"), Some(workload("p", "ns", "Pod")));
    assert!(!ip("").contributes());
    assert!(!ip("10.4.0.256").contributes());
    assert!(ip("10.4.0.1").contributes());
}

#[test]
fn deletion_removes_every_contributed_address() {
    let mut c = CacheManager::new();
    c.apply_upsert(Kind::Pod, object("ns", "p", vec![], &["10.5.0.1", "fd00::5"]));
    c.apply_upsert(Kind::Node, object("", "n", vec![], &["192.168.5.1"]));
    c.apply_upsert(Kind::Service, object("ns", "svc", vec![], &["10.96.0.5"]));
    c.watching_pods(WatchEvent::Deleted(object("ns", "p", vec![], &[])));
    assert_eq!(c.lookup_ip("10.5.0.1"), None);
    assert_eq!(c.lookup_ip("fd00::5"), None);
    assert_eq!(c.lookup_pod("ns", "p"), None);
    assert!(c.get(Kind::Pod, "ns", "p").is_none());
    assert!(c.lookup_ip("192.168.5.1").is_some());
    c.apply_delete(Kind::Node, "", "n");
    assert_eq!(c.lookup_ip("192.168.5.1"), None);
    c.apply_delete(Kind::Service, "ns", "svc");
    assert_eq!(c.lookup_ip("10.96.0.5"), None);
}

#[test]
fn modified_object_gives_up_the_addresses_it_lost() {
    let mut c = CacheManager::new();
    c.apply_upsert(Kind::Pod, object("ns", "p", vec![], &["10.6.0.1", "10.6.0.2"]));
    c.apply_upsert(Kind::Pod, object("ns", "p", vec![], &["10.6.0.2", "10.6.0.3"]));
    assert_eq!(c.lookup_ip("10.6.0.1"), None);
    assert_eq!(c.lookup_ip("10.6.0.2"), Some(workload("p", "ns", "Pod")));
    assert_eq!(c.lookup_ip("10.6.0.3"), Some(workload("p", "ns", "Pod")));
}

#[test]
fn last_writer_wins_on_an_address() {
    let mut c = CacheManager::new();
    c.apply_upsert(Kind::Pod, object("ns", "p", vec![], &["10.7.0.1"]));
    c.apply_upsert(Kind::Service, object("ns", "svc", vec![], &["10.7.0.1"]));
    assert_eq!(c.lookup_ip("10.7.0.1"), Some(workload("svc", "ns", "Service")));
}

#[test]
fn same_event_twice_is_as_once() {
    let mut once = CacheManager::new();
    let mut twice = CacheManager::new();
    let rs = || object("ns", "rs", vec![], &[]);
    let pod = || object("ns", "p", vec![controller("ReplicaSet", "rs")], &["10.8.0.1"]);
    once.apply_upsert(Kind::ReplicaSet, rs());
    once.apply_upsert(Kind::Pod, pod());
    twice.apply_upsert(Kind::ReplicaSet, rs());
    twice.apply_upsert(Kind::ReplicaSet, rs());
    twice.apply_upsert(Kind::Pod, pod());
    twice.apply_upsert(Kind::Pod, pod());
    for probe in ["10.8.0.1", "10.8.0.2", "None"] {
        assert_eq!(once.lookup_ip(probe), twice.lookup_ip(probe));
    }
    assert_eq!(once.lookup_pod("ns", "p"), twice.lookup_pod("ns", "p"));
    assert_eq!(twice.lookup_ip("10.8.0.1"), Some(workload("rs", "ns", "ReplicaSet")));
    once.apply_delete(Kind::Pod, "ns", "p");
    twice.apply_delete(Kind::Pod, "ns", "p");
    twice.apply_delete(Kind::Pod, "ns", "p");
    assert_eq!(once.lookup_ip("10.8.0.1"), None);
    assert_eq!(twice.lookup_ip("10.8.0.1"), None);
}

#[test]
fn memoized_workload_stays_until_the_owner_changes() {
    let mut c = CacheManager::new();
    c.apply_upsert(Kind::ReplicaSet, object("ns", "rs", vec![], &[]));
    c.apply_upsert(Kind::Pod, object("ns", "p", vec![controller("ReplicaSet", "rs")], &["10.9.0.1"]));
    assert_eq!(c.lookup_pod("ns", "p"), Some(workload("rs", "ns", "ReplicaSet")));
    c.apply_upsert(Kind::Deployment, object("ns", "d", vec![], &[]));
    c.apply_upsert(Kind::ReplicaSet, object("ns", "rs", vec![controller("Deployment", "d")], &[]));
    c.apply_upsert(Kind::Pod, object("ns", "p", vec![controller("ReplicaSet", "rs")], &["10.9.0.1"]));
    assert_eq!(c.lookup_pod("ns", "p"), Some(workload("rs", "ns", "ReplicaSet")));
    c.apply_upsert(Kind::StatefulSet, object("ns", "ss", vec![], &[]));
    c.apply_upsert(Kind::Pod, object("ns", "p", vec![controller("StatefulSet", "ss")], &["10.9.0.1"]));
    assert_eq!(c.lookup_pod("ns", "p"), Some(workload("ss", "ns", "StatefulSet")));
    assert_eq!(c.lookup_ip("10.9.0.1"), Some(workload("ss", "ns", "StatefulSet")));
}

#[test]
fn daemonset_pod_resolves_to_the_daemonset() {
    let mut c = CacheManager::new();
    c.watching_daemonsets(WatchEvent::Applied(object("kube-system", "proxy", vec![], &[])));
    c.watching_pods(WatchEvent::Applied(object(
        "kube-system",
        "proxy-x",
        vec![controller("DaemonSet", "proxy")],
        &["10.10.0.1"],
    )));
    assert_eq!(c.lookup_ip("10.10.0.1"), Some(workload("proxy", "kube-system", "DaemonSet")));
}

#[test]
fn sync_waits_for_every_store() {
    let mut c = CacheManager::new();
    assert_eq!(c.wait_for_cache_sync(), SyncStatus::Waiting(Kind::Pod));
    c.mark_ready(Kind::Pod);
    assert_eq!(c.wait_for_cache_sync(), SyncStatus::Waiting(Kind::Node));
    for k in [
        Kind::Node,
        Kind::Service,
        Kind::ReplicaSet,
        Kind::Deployment,
        Kind::StatefulSet,
        Kind::DaemonSet,
        Kind::Job,
    ] {
        c.mark_ready(k);
    }
    assert_eq!(c.wait_for_cache_sync(), SyncStatus::Waiting(Kind::CronJob));
    c.mark_ready(Kind::CronJob);
    assert_eq!(c.wait_for_cache_sync(), SyncStatus::Synced);
}

#[test]
fn sync_fails_on_a_degraded_kind() {
    let mut c = CacheManager::new();
    c.mark_degraded(Kind::Job);
    assert_eq!(c.wait_for_cache_sync(), SyncStatus::Failed(Kind::Job));
    for i in 0..9 {
        c.mark_ready(Kind::at(i));
    }
    assert_eq!(c.wait_for_cache_sync(), SyncStatus::Failed(Kind::Job));
}

#[test]
fn store_replaces_by_key_and_deletes() {
    let mut st = Store::new();
    assert!(!st.is_ready());
    st.upsert(object("ns", "a", vec![], &["10.0.0.1"]));
    st.upsert(object("ns", "b", vec![], &[]));
    st.upsert(object("ns", "a", vec![], &["10.0.0.2"]));
    assert_eq!(st.len(), 2);
    assert_eq!(st.get("ns", "a").map(|e| e.addresses[0].text.clone()), Some(s("10.0.0.2")));
    assert!(st.get("other", "a").is_none());
    st.delete("ns", "a");
    st.delete("ns", "a");
    assert!(st.get("ns", "a").is_none());
    assert!(st.get("ns", "b").is_some());
    assert_eq!(st.len(), 1);
    st.mark_ready();
    assert!(st.is_ready());
    assert!(!st.is_degraded());
}

#[test]
fn kinds_are_named_as_in_metadata() {
    assert_eq!(Kind::Pod.name(), "Pod");
    assert_eq!(Kind::CronJob.name(), "CronJob");
    assert_eq!(Kind::controller_kind("StatefulSet"), Some(Kind::StatefulSet));
    assert_eq!(Kind::controller_kind("Pod"), None);
    assert_eq!(Kind::controller_kind("Service"), None);
    assert_eq!(Kind::controller_kind("replicaset"), None);
    assert!(Kind::Service.has_addresses());
    assert!(!Kind::Job.has_addresses());
}

#[test]
fn relist_leaves_exactly_the_listing() {
    let mut c = CacheManager::new();
    c.apply_upsert(Kind::Pod, object("ns", "old", vec![], &["10.11.0.1"]));
    c.apply_upsert(Kind::Pod, object("ns", "kept", vec![], &["10.11.0.2"]));
    c.apply_delete(Kind::Pod, "ns", "never-there");
    c.apply_upsert(Kind::Node, object("", "n", vec![], &["192.168.11.1"]));
    let snapshot = vec![
        object("ns", "kept", vec![], &["10.11.0.3"]),
        object("ns", "new", vec![], &["10.11.0.4"]),
    ];
    c.relist(Kind::Pod, &snapshot);
    assert!(c.get(Kind::Pod, "ns", "old").is_none());
    assert!(c.get(Kind::Pod, "ns", "kept").is_some());
    assert!(c.get(Kind::Pod, "ns", "new").is_some());
    assert_eq!(c.lookup_ip("10.11.0.1"), None);
    assert_eq!(c.lookup_ip("10.11.0.2"), None);
    assert_eq!(c.lookup_ip("10.11.0.3"), Some(workload("kept", "ns", "Pod")));
    assert_eq!(c.lookup_ip("10.11.0.4"), Some(workload("new", "ns", "Pod")));
    assert_eq!(c.lookup_pod("ns", "old"), None);
    assert_eq!(c.lookup_ip("192.168.11.1"), Some(workload("n", "node", "Node")));
}

#[test]
fn store_relist_replaces_the_contents() {
    let mut st = Store::new();
    st.upsert(object("ns", "a", vec![], &[]));
    st.upsert(object("ns", "b", vec![], &[]));
    st.delete("ns", "b");
    let snapshot = vec![
        object("ns", "c", vec![], &["10.12.0.1"]),
        object("ns", "d", vec![], &[]),
        object("ns", "c", vec![], &["10.12.0.2"]),
    ];
    st.relist(&snapshot);
    assert_eq!(st.len(), 2);
    assert!(st.get("ns", "a").is_none());
    assert_eq!(st.get("ns", "c").map(|e| e.addresses[0].text.clone()), Some(s("10.12.0.2")));
    assert!(st.get("ns", "d").is_some());
    let mut keys = st.keys();
    keys.sort();
    assert_eq!(keys, vec![(s("ns"), s("c")), (s("ns"), s("d"))]);
}

#[test]
fn object_without_a_name_is_dropped() {
    let mut c = CacheManager::new();
    c.apply_upsert(Kind::Pod, object("ns", "", vec![], &["10.13.0.1"]));
    assert!(c.get(Kind::Pod, "ns", "").is_none());
    assert_eq!(c.lookup_ip("10.13.0.1"), None);
    assert!(object("ns", "", vec![], &[]).is_malformed());
    assert!(!object("", "n", vec![], &[]).is_malformed());
    let snapshot = vec![object("ns", "", vec![], &["10.13.0.2"]), object("ns", "p", vec![], &["10.13.0.3"])];
    c.relist(Kind::Pod, &snapshot);
    assert_eq!(c.lookup_ip("10.13.0.2"), None);
    assert_eq!(c.lookup_ip("10.13.0.3"), Some(workload("p", "ns", "Pod")));
}

#[test]
fn bookmark_changes_nothing() {
    let mut c = CacheManager::new();
    c.apply_upsert(Kind::Pod, object("ns", "p", vec![], &["10.14.0.1"]));
    c.apply(Kind::Pod, WatchEvent::Bookmark);
    c.watching_statefulsets(WatchEvent::Bookmark);
    assert_eq!(c.lookup_ip("10.14.0.1"), Some(workload("p", "ns", "Pod")));
    assert!(c.get(Kind::Pod, "ns", "p").is_some());
}

#[test]
fn statefulset_and_replicaset_events_fill_their_stores() {
    let mut c = CacheManager::new();
    c.watching_statefulsets(WatchEvent::Applied(object("ns", "db", vec![], &[])));
    c.watching_replicasets(WatchEvent::Applied(object("ns", "rs", vec![controller("Deployment", "d")], &[])));
    c.watching_deployments(WatchEvent::Applied(object("ns", "d", vec![], &[])));
    c.watching_pods(WatchEvent::Applied(object("ns", "db-0", vec![controller("StatefulSet", "db")], &["10.15.0.1"])));
    c.watching_pods(WatchEvent::Applied(object("ns", "rs-1", vec![controller("ReplicaSet", "rs")], &["10.15.0.2"])));
    assert_eq!(c.lookup_ip("10.15.0.1"), Some(workload("db", "ns", "StatefulSet")));
    assert_eq!(c.lookup_ip("10.15.0.2"), Some(workload("d", "ns", "Deployment")));
    c.watching_deployments(WatchEvent::Deleted(object("ns", "d", vec![], &[])));
    assert!(c.get(Kind::Deployment, "ns", "d").is_none());
    assert_eq!(c.lookup_ip("10.15.0.2"), Some(workload("d", "ns", "Deployment")));
}

#[test]
fn index_binds_and_unbinds() {
    let by = |w: Workload, kind: Kind, name: &str| Binding::new(w, kind, s("ns"), s(name));
    let mut ips = workload_cache::index::IpIndex::new();
    ips.associate_ip("10.16.0.1", &by(workload("a", "ns", "Pod"), Kind::Pod, "a"));
    ips.associate_ip("10.16.0.1", &by(workload("b", "ns", "Pod"), Kind::Pod, "b"));
    ips.associate_ip("None", &by(workload("c", "ns", "Service"), Kind::Service, "c"));
    assert_eq!(ips.lookup_ip("10.16.0.1"), Some(workload("b", "ns", "Pod")));
    let held = ips.binding("10.16.0.1").unwrap();
    assert_eq!((held.kind, held.namespace, held.name), (Kind::Pod, s("ns"), s("b")));
    assert!(ips.binding("10.16.0.2").is_none());
    assert_eq!(ips.lookup_ip("None"), None);
    ips.dissociate_ip("10.16.0.1");
    assert_eq!(ips.lookup_ip("10.16.0.1"), None);
    let mut pods = workload_cache::index::PodIndex::new();
    pods.remember("ns", "p", &workload("d", "ns", "Deployment"));
    assert_eq!(pods.lookup_pod("ns", "p"), Some(workload("d", "ns", "Deployment")));
    assert_eq!(pods.lookup_pod("p", "ns"), None);
    pods.forget("ns", "p");
    assert_eq!(pods.lookup_pod("ns", "p"), None);
}

#[test]
fn release_unbinds_only_what_the_object_bound_last() {
    let mut ips = workload_cache::index::IpIndex::new();
    let b = Binding::new(workload("b", "ns", "Service"), Kind::Service, s("ns"), s("b"));
    assert!(b.owned_by(Kind::Service, "ns", "b"));
    assert!(!b.owned_by(Kind::Pod, "ns", "b"));
    assert!(!b.owned_by(Kind::Service, "other", "b"));
    assert!(!b.owned_by(Kind::Service, "ns", "a"));
    ips.associate_ip("10.18.0.1", &b);
    ips.release("10.18.0.1", Kind::Service, "ns", "a");
    ips.release("10.18.0.1", Kind::Pod, "ns", "b");
    ips.release("10.18.0.2", Kind::Service, "ns", "b");
    assert_eq!(ips.lookup_ip("10.18.0.1"), Some(workload("b", "ns", "Service")));
    ips.release("10.18.0.1", Kind::Service, "ns", "b");
    assert_eq!(ips.lookup_ip("10.18.0.1"), None);
}

#[test]
fn relist_keeps_the_memo_of_a_pod_that_stays() {
    let mut c = CacheManager::new();
    c.apply_upsert(Kind::ReplicaSet, object("ns", "rs", vec![], &[]));
    c.apply_upsert(Kind::Pod, object("ns", "p", vec![controller("ReplicaSet", "rs")], &["10.17.0.1"]));
    c.apply_upsert(Kind::Pod, object("ns", "gone", vec![], &["10.17.0.2"]));
    assert_eq!(c.lookup_pod("ns", "gone"), Some(workload("gone", "ns", "Pod")));
    c.apply_delete(Kind::ReplicaSet, "ns", "rs");
    let snapshot = vec![object("ns", "p", vec![controller("ReplicaSet", "rs")], &["10.17.0.1"])];
    c.relist(Kind::Pod, &snapshot);
    assert_eq!(c.lookup_pod("ns", "p"), Some(workload("rs", "ns", "ReplicaSet")));
    assert_eq!(c.lookup_ip("10.17.0.1"), Some(workload("rs", "ns", "ReplicaSet")));
    assert_eq!(c.lookup_pod("ns", "gone"), None);
    assert_eq!(c.lookup_ip("10.17.0.2"), None);
    assert!(c.get(Kind::Pod, "ns", "gone").is_none());
}

#[test]
fn relist_keeps_an_address_that_a_listed_object_has_taken_over() {
    for order in [["a", "b"], ["b", "a"]] {
        let mut c = CacheManager::new();
        c.apply_upsert(Kind::Service, object("prod", "b", vec![], &["10.1.0.10"]));
        c.apply_upsert(Kind::Service, object("prod", "s", vec![], &["10.0.0.1"]));
        let item = |name: &str| {
            if name == "a" {
                object("prod", "a", vec![], &["10.1.0.10"])
            } else {
                object("prod", "b", vec![], &["10.0.0.5"])
            }
        };
        let snapshot = vec![item(order[0]), item(order[1])];
        c.relist(Kind::Service, &snapshot);
        assert_eq!(c.lookup_ip("10.1.0.10"), Some(workload("a", "prod", "Service")));
        assert_eq!(c.lookup_ip("10.0.0.5"), Some(workload("b", "prod", "Service")));
        assert_eq!(c.lookup_ip("10.0.0.1"), None);
        assert!(c.get(Kind::Service, "prod", "s").is_none());
        assert!(c.get(Kind::Service, "prod", "a").is_some());
        assert!(c.get(Kind::Service, "prod", "b").is_some());
    }
}

#[test]
fn modified_object_leaves_an_address_that_another_has_bound_since() {
    let mut c = CacheManager::new();
    c.apply_upsert(Kind::Service, object("prod", "b", vec![], &["10.1.0.10"]));
    c.apply_upsert(Kind::Service, object("prod", "a", vec![], &["10.1.0.10"]));
    c.apply_upsert(Kind::Service, object("prod", "b", vec![], &["10.0.0.5"]));
    assert_eq!(c.lookup_ip("10.1.0.10"), Some(workload("a", "prod", "Service")));
    assert_eq!(c.lookup_ip("10.0.0.5"), Some(workload("b", "prod", "Service")));
    let held = c.binding("10.1.0.10").unwrap();
    assert_eq!((held.kind, held.namespace, held.name), (Kind::Service, s("prod"), s("a")));
}

#[test]
fn deleted_object_leaves_an_address_that_another_has_bound_since() {
    let mut c = CacheManager::new();
    c.apply_upsert(Kind::Service, object("prod", "b", vec![], &["10.1.0.10", "10.1.0.11"]));
    c.apply_upsert(Kind::Service, object("prod", "a", vec![], &["10.1.0.10"]));
    c.apply_delete(Kind::Service, "prod", "b");
    assert_eq!(c.lookup_ip("10.1.0.10"), Some(workload("a", "prod", "Service")));
    assert_eq!(c.lookup_ip("10.1.0.11"), None);
    assert!(c.get(Kind::Service, "prod", "a").is_some());
    c.apply_delete(Kind::Service, "prod", "a");
    assert_eq!(c.lookup_ip("10.1.0.10"), None);
}

#[test]
fn address_taken_over_by_another_kind_outlives_the_first_owner() {
    let mut c = CacheManager::new();
    c.apply_upsert(Kind::Pod, object("ns", "x", vec![], &["10.19.0.1"]));
    c.apply_upsert(Kind::Service, object("ns", "x", vec![], &["10.19.0.1"]));
    c.apply_delete(Kind::Pod, "ns", "x");
    assert_eq!(c.lookup_ip("10.19.0.1"), Some(workload("x", "ns", "Service")));
    c.apply_delete(Kind::Service, "ns", "x");
    assert_eq!(c.lookup_ip("10.19.0.1"), None);
}

#[test]
fn walk_reports_when_it_was_cut_off() {
    let chain = |n: usize| {
        let mut c = CacheManager::new();
        for i in 1..=n {
            let owners = if i < n { vec![controller("ReplicaSet", &format!("r{}", i + 1))] } else { vec![] };
            c.apply_upsert(Kind::ReplicaSet, object("ns", &format!("r{}", i), owners, &[]));
        }
        c
    };
    let pod = object("ns", "p", vec![controller("ReplicaSet", "r1")], &[]);
    let eight = chain(8).resolution_of(&pod);
    assert_eq!(eight.workload, workload("r8", "ns", "ReplicaSet"));
    assert_eq!(eight.lookups, 8);
    assert!(eight.settled);
    assert!(!eight.truncated);
    let nine = chain(9).resolution_of(&pod);
    assert_eq!(nine.workload, workload("r8", "ns", "ReplicaSet"));
    assert_eq!(nine.lookups, 8);
    assert!(nine.settled);
    assert!(nine.truncated);
    let missing = chain(0).resolution_of(&pod);
    assert!(!missing.truncated);
    assert!(!missing.settled);
    let bare = chain(0).resolution_of(&object("ns", "q", vec![], &[]));
    assert!(!bare.truncated);
    assert!(bare.settled);
    let zero = resolve(&Stores::new(), &pod, 0);
    assert!(zero.truncated);
}
