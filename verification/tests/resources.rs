//! Who may use what at the same time.

use smartzip::resources::{
    paths_overlap, AdmissionFailure, DomainUnits, ResourceBroker, ResourceCapacity, ResourceRequest,
};

fn domains(entries: &[(&str, u32)]) -> DomainUnits {
    let mut units = DomainUnits::new();
    for (name, amount) in entries {
        units.set(name, *amount);
    }
    units
}

fn assert_nothing_used(broker: &ResourceBroker) {
    let used = broker.used();
    assert_eq!(used.cpu_units, 0);
    assert_eq!(used.memory_bytes, 0);
    assert_eq!(used.backend_processes, 0);
    assert_eq!(used.temporary_bytes, 0);
    assert_eq!(used.io_domains.len(), 0);
    assert!(used.artifact_reads.is_empty());
    assert!(used.target_paths.is_empty());
}

#[test]
fn admission_is_atomic_and_release_restores_all_dimensions() {
    let mut broker = ResourceBroker::new(ResourceCapacity {
        cpu_units: 2,
        memory_bytes: 20,
        backend_processes: 1,
        temporary_bytes: 30,
        io_domains: domains(&[("disk", 1)]),
    });
    let request = ResourceRequest {
        cpu_units: 2,
        memory_bytes: 20,
        backend_processes: 1,
        temporary_bytes: 30,
        io_domains: domains(&[("disk", 1)]),
        ..Default::default()
    };
    let lease = broker.try_acquire(&request).unwrap();
    assert_eq!(
        broker.try_acquire(&request).unwrap_err(),
        AdmissionFailure::TemporarilyUnavailable
    );
    broker.release(lease);
    assert_nothing_used(&broker);
}

#[test]
fn write_lease_conflicts_with_ancestor_read() {
    let mut broker = ResourceBroker::new(ResourceCapacity::default());
    let read =
        ResourceRequest { artifact_reads: vec!["/root/tree/file".into()], ..Default::default() };
    let lease = broker.try_acquire(&read).unwrap();
    let write = ResourceRequest { target_paths: vec!["/root/tree".into()], ..Default::default() };
    assert_eq!(
        broker.try_acquire(&write).unwrap_err(),
        AdmissionFailure::TemporarilyUnavailable
    );
    broker.release(lease);
    assert!(broker.try_acquire(&write).is_ok());
}

#[test]
fn readers_share_and_writers_do_not() {
    let mut broker = ResourceBroker::new(ResourceCapacity::default());
    let read = ResourceRequest { artifact_reads: vec!["/a".into()], ..Default::default() };
    let _first = broker.try_acquire(&read).unwrap();
    assert!(broker.admits(&read));
    let write = ResourceRequest { target_paths: vec!["/b".into()], ..Default::default() };
    let _second = broker.try_acquire(&write).unwrap();
    assert!(!broker.admits(&write));
}

#[test]
fn more_than_there_is_never_fits() {
    let mut broker = ResourceBroker::new(ResourceCapacity { cpu_units: 2, ..Default::default() });
    let request = ResourceRequest { cpu_units: 3, ..Default::default() };
    assert_eq!(broker.try_acquire(&request).unwrap_err(), AdmissionFailure::ExceedsCapacity);
    let unknown_domain =
        ResourceRequest { io_domains: domains(&[("disk", 1)]), ..Default::default() };
    assert_eq!(broker.try_acquire(&unknown_domain).unwrap_err(), AdmissionFailure::ExceedsCapacity);
    broker.set_io_domain_capacity("disk".to_string(), 1);
    assert!(broker.try_acquire(&unknown_domain).is_ok());
}

#[test]
fn use_is_the_sum_of_what_was_granted() {
    let mut broker = ResourceBroker::new(ResourceCapacity { cpu_units: 5, ..Default::default() });
    let two = ResourceRequest { cpu_units: 2, ..Default::default() };
    let first = broker.try_acquire(&two).unwrap();
    let _second = broker.try_acquire(&two).unwrap();
    assert_eq!(broker.used().cpu_units, 4);
    assert!(broker.try_acquire(&two).is_err());
    broker.release(first);
    assert_eq!(broker.used().cpu_units, 2);
}

#[test]
fn paths_overlap_by_whole_names() {
    assert!(paths_overlap("/a/b", "/a"));
    assert!(paths_overlap("/a", "/a/b"));
    assert!(paths_overlap("/a", "/a"));
    assert!(!paths_overlap("/a/b", "/a/bc"));
}

#[test]
fn domain_units_are_a_map() {
    let mut units = domains(&[("a", 1), ("b", 2)]);
    assert_eq!(units.len(), 2);
    assert_eq!(units.get("b"), 2);
    assert_eq!(units.get("c"), 0);
    units.set("a", 7);
    assert_eq!(units.get("a"), 7);
    let copy = units.copy();
    units.remove("a");
    assert!(!units.has("a"));
    assert!(copy.has("a"));
}

#[test]
fn lease_gives_back_what_it_took_beside_others() {
    let mut broker = ResourceBroker::new(ResourceCapacity {
        cpu_units: 5,
        io_domains: domains(&[("a", 4), ("b", 4)]),
        ..Default::default()
    });
    let other =
        ResourceRequest { cpu_units: 1, io_domains: domains(&[("a", 1)]), ..Default::default() };
    let held = broker.try_acquire(&other).unwrap();
    let request = ResourceRequest {
        cpu_units: 2,
        io_domains: domains(&[("a", 2), ("b", 3)]),
        target_paths: vec!["/out".into()],
        ..Default::default()
    };
    let blocked = ResourceRequest { artifact_reads: vec!["/out/x".into()], ..Default::default() };
    let lease = broker.try_acquire(&request).unwrap();
    assert_eq!(broker.used().io_domains.get("a"), 3);
    assert_eq!(broker.used().io_domains.get("b"), 3);
    assert!(!broker.admits(&blocked));
    broker.release(lease);
    assert_eq!(broker.used().cpu_units, 1);
    assert_eq!(broker.used().io_domains.len(), 1);
    assert_eq!(broker.used().io_domains.get("a"), 1);
    assert!(broker.admits(&blocked));
    broker.release(held);
    assert_nothing_used(&broker);
}

#[test]
fn idle_broker_uses_nothing_whatever_was_asked_for() {
    let mut broker = ResourceBroker::new(ResourceCapacity {
        io_domains: domains(&[("a", 4)]),
        ..Default::default()
    });
    let nothing = ResourceRequest { io_domains: domains(&[("a", 0)]), ..Default::default() };
    let some = ResourceRequest { io_domains: domains(&[("a", 2)]), ..Default::default() };
    let first = broker.try_acquire(&nothing).unwrap();
    let second = broker.try_acquire(&some).unwrap();
    let third = broker.try_acquire(&nothing).unwrap();
    broker.release(second);
    broker.release(first);
    broker.release(third);
    assert_nothing_used(&broker);
}
