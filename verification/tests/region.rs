use demand_paging::errors::AllocationError;
use demand_paging::errors::ResolutionError;
use demand_paging::region::Region;
use demand_paging::region::TouchOutcome;
use demand_paging::event::FaultKind;
use demand_paging::PAGE_SIZE;

const REGION_SIZE: usize = 4 * PAGE_SIZE;

fn read_bytes(region: &Region, offset: usize, len: usize) -> Vec<u8> {
    match region.touch_guarded(offset, len) {
        TouchOutcome::Read(d) => d,
        TouchOutcome::Blocked { offset, .. } => {
            panic!("touch blocked at offset {}", offset);
        }
    }
}

#[test]
fn create_rejects_invalid_sizes() {
    assert!(matches!(Region::create(0), Err(AllocationError::InvalidSize)));
    assert!(matches!(Region::create(1000), Err(AllocationError::InvalidSize)));
    assert!(matches!(
        Region::create(PAGE_SIZE + 1),
        Err(AllocationError::InvalidSize)
    ));
    assert!(Region::create(PAGE_SIZE).is_ok());
    assert!(Region::create(REGION_SIZE).is_ok());
}

#[test]
fn created_region_has_requested_size() {
    let region = Region::create(REGION_SIZE).unwrap();
    assert_eq!(region.size(), 16384);
}

#[test]
fn first_touch_blocks_with_missing_fault_then_zero_fill_reads_zeros() {
    let mut region = Region::create(REGION_SIZE).unwrap();
    assert!(matches!(
        region.touch_guarded(0, 16),
        TouchOutcome::Blocked { offset: 0, kind: FaultKind::Missing }
    ));
    assert!(matches!(
        region.touch_guarded(2 * PAGE_SIZE + 7, 1),
        TouchOutcome::Blocked { offset: 8199, kind: FaultKind::Missing }
    ));
    assert!(region.zero_fill(0, REGION_SIZE).is_ok());
    assert_eq!(read_bytes(&region, 0, 16), vec![0u8; 16]);
    assert_eq!(read_bytes(&region, 2 * PAGE_SIZE + 7, 5), vec![0u8; 5]);
}

#[test]
fn shadow_write_then_continue_round_trip() {
    let mut region = Region::create(REGION_SIZE).unwrap();
    region.write_shadow(0, &[1, 2, 3]);
    assert!(matches!(
        region.touch_guarded(0, 3),
        TouchOutcome::Blocked { offset: 0, kind: FaultKind::Minor }
    ));
    assert!(region.continue_range(0, REGION_SIZE).is_ok());
    assert_eq!(read_bytes(&region, 0, 3), vec![1, 2, 3]);
    assert_eq!(read_bytes(&region, 3, 13), vec![0u8; 13]);
}

#[test]
fn shadow_write_at_offset_round_trip() {
    let mut region = Region::create(REGION_SIZE).unwrap();
    region.write_shadow(PAGE_SIZE + 904, &[7, 8, 9]);
    assert!(region.continue_range(PAGE_SIZE, PAGE_SIZE).is_ok());
    assert_eq!(read_bytes(&region, PAGE_SIZE + 904, 3), vec![7, 8, 9]);
    // the rest of the region is still unresolved
    assert!(matches!(
        region.touch_guarded(0, 1),
        TouchOutcome::Blocked { offset: 0, kind: FaultKind::Missing }
    ));
}

#[test]
fn touch_faults_on_first_unresolved_byte() {
    let mut region = Region::create(REGION_SIZE).unwrap();
    assert!(region.continue_range(0, PAGE_SIZE).is_ok());
    // the first page is readable, the second still blocks
    assert!(matches!(
        region.touch_guarded(0, 2 * PAGE_SIZE),
        TouchOutcome::Blocked { offset: 4096, kind: FaultKind::Missing }
    ));
}

#[test]
fn fault_kind_tracks_staged_content_per_page() {
    let mut region = Region::create(REGION_SIZE).unwrap();
    region.write_shadow(2 * PAGE_SIZE, &[5]);
    assert!(matches!(
        region.touch_guarded(2 * PAGE_SIZE, 1),
        TouchOutcome::Blocked { kind: FaultKind::Minor, .. }
    ));
    assert!(matches!(
        region.touch_guarded(0, 1),
        TouchOutcome::Blocked { kind: FaultKind::Missing, .. }
    ));
}

#[test]
fn second_resolution_on_resolved_range_is_invalid_not_a_crash() {
    let mut region = Region::create(REGION_SIZE).unwrap();
    assert!(region.zero_fill(0, REGION_SIZE).is_ok());
    assert!(matches!(
        region.zero_fill(0, REGION_SIZE),
        Err(ResolutionError::Invalid)
    ));
    assert!(matches!(
        region.continue_range(0, REGION_SIZE),
        Err(ResolutionError::Invalid)
    ));
    // the rejected attempts re-blocked nothing
    assert_eq!(read_bytes(&region, 0, 8), vec![0u8; 8]);
}

#[test]
fn resolution_rejects_unaligned_or_out_of_bounds_ranges() {
    let mut region = Region::create(REGION_SIZE).unwrap();
    assert!(matches!(region.zero_fill(1, PAGE_SIZE), Err(ResolutionError::Invalid)));
    assert!(matches!(region.zero_fill(0, 100), Err(ResolutionError::Invalid)));
    assert!(matches!(region.zero_fill(0, 0), Err(ResolutionError::Invalid)));
    assert!(matches!(
        region.zero_fill(0, 2 * REGION_SIZE),
        Err(ResolutionError::Invalid)
    ));
    assert!(matches!(
        region.continue_range(REGION_SIZE, PAGE_SIZE),
        Err(ResolutionError::Invalid)
    ));
}

#[test]
fn zero_fill_rejected_where_content_is_staged() {
    let mut region = Region::create(REGION_SIZE).unwrap();
    region.write_shadow(0, &[9]);
    // the first page has backing content: zero-fill would discard it
    assert!(matches!(
        region.zero_fill(0, REGION_SIZE),
        Err(ResolutionError::Invalid)
    ));
    // a continue resolution exposes it instead
    assert!(region.continue_range(0, REGION_SIZE).is_ok());
    assert_eq!(read_bytes(&region, 0, 2), vec![9, 0]);
}
