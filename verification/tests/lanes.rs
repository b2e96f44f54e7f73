//! Lanes of striped engines.
use fabric_lib::api::{DomainAddress, MemoryRegionDescriptor, MemoryRegionRemoteKey};
use fabric_lib::fabric_engine::lanes::{host_write_lane, narrow_host_descriptor};

#[test]
fn every_worker_and_hca_is_addressable() {
    let descriptor = MemoryRegionDescriptor {
        ptr: 4096,
        addr_rkey_list: (0..6u8)
            .map(|i| (DomainAddress(vec![i]), MemoryRegionRemoteKey(i as u64)))
            .collect(),
    };
    for lane in 0..6 {
        let (worker, domain) = host_write_lane(lane, 3, 2).unwrap();
        let mut narrowed = descriptor.clone();
        narrow_host_descriptor(&mut narrowed, worker, 3, 2).unwrap();
        assert_eq!(narrowed.addr_rkey_list.len(), 2);
        assert_eq!(narrowed.addr_rkey_list[domain], descriptor.addr_rkey_list[lane]);
    }
    assert!(host_write_lane(6, 3, 2).is_err());
    assert!(host_write_lane(0, 3, 0).is_err());
    assert!(narrow_host_descriptor(&mut descriptor.clone(), 0, 3, 1).is_err());
    assert!(narrow_host_descriptor(&mut descriptor.clone(), 3, 3, 2).is_err());
}

#[test]
fn single_hca_layout_is_unchanged() {
    for lane in 0..4 {
        assert_eq!(host_write_lane(lane, 4, 1).unwrap(), (lane, 0));
    }
}
