use osboot::params::{init_uefi_rt_table, kmain, ErrorType, KernelParameters, MemMap};
use uefi::mem::memory_map::MemoryMap;

fn params(system_table: usize) -> KernelParameters {
    KernelParameters {
        system_table,
        memory_map: MemMap { ptr: 0x1000, size: 80, desc_size: 40, desc_version: 1 },
    }
}

#[test]
fn null_system_table_is_refused() {
    assert_eq!(init_uefi_rt_table(0), Err(ErrorType::NullParameter));
    assert_eq!(init_uefi_rt_table(0x7000_0000), Ok(()));
}

#[test]
fn kmain_decisions() {
    assert_eq!(kmain(Ok(()), &params(0xdead_0000)), Ok(0xdead_0000));
    assert_eq!(kmain(Ok(()), &params(0)), Err(ErrorType::NullParameter));
    assert_eq!(kmain(Err(ErrorType::InvalidData), &params(0xdead_0000)), Err(ErrorType::InvalidData));
}

#[test]
fn memory_map_with_bad_sizes_is_invalid_data() {
    let buffer = vec![0u8; 80];
    // descriptor smaller than a uefi memory descriptor
    let small = MemMap { ptr: 0, size: 80, desc_size: 16, desc_version: 1 };
    assert!(matches!(small.as_ref(&buffer), Err(ErrorType::InvalidData)));
    // map size not a multiple of the descriptor size
    let ragged = MemMap { ptr: 0, size: 80, desc_size: 48, desc_version: 1 };
    assert!(matches!(ragged.as_ref(&buffer), Err(ErrorType::InvalidData)));
    // descriptor size not a multiple of 8
    let odd = MemMap { ptr: 0, size: 82, desc_size: 41, desc_version: 1 };
    let buffer82 = vec![0u8; 82];
    assert!(matches!(odd.as_ref(&buffer82), Err(ErrorType::InvalidData)));
}

#[test]
fn memory_map_over_aligned_buffer_is_accepted() {
    // take 80 bytes that start at an address aligned to 8
    let backing = vec![0u8; 96];
    let offset = (8 - backing.as_ptr() as usize % 8) % 8;
    let bytes = &backing[offset..offset + 80];
    assert_eq!(bytes.as_ptr() as usize % 8, 0);
    let map = MemMap { ptr: bytes.as_ptr() as usize, size: 80, desc_size: 40, desc_version: 3 };
    let view = map.as_ref(bytes).unwrap();
    assert_eq!(view.meta().map_size, 80);
    assert_eq!(view.meta().desc_size, 40);
    assert_eq!(view.meta().desc_version, 3);
    assert_eq!(view.key(), uefi::mem::memory_map::MemoryMapKey::default());
    assert_eq!(view.buffer().as_ptr(), bytes.as_ptr());
    assert_eq!(view.buffer().len(), 80);
    assert_eq!(view.len(), 2);
}

#[test]
fn memory_map_over_misaligned_buffer_is_invalid_data() {
    let backing = vec![0u8; 96];
    let offset = (8 - backing.as_ptr() as usize % 8) % 8 + 1;
    let bytes = &backing[offset..offset + 80];
    let map = MemMap { ptr: bytes.as_ptr() as usize, size: 80, desc_size: 40, desc_version: 3 };
    assert!(matches!(map.as_ref(bytes), Err(ErrorType::InvalidData)));
}
