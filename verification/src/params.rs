//! What the bootloader hands the kernel, and the kernel's checks on it.
use vstd::prelude::*;
use uefi::mem::memory_map::{MemoryMapError, MemoryMapRef};

verus! {

/// Why the kernel cannot take what it was handed.
#[derive(Debug, Clone, Copy, PartialEq, Eq, Structural)]
pub enum ErrorType {
    NullParameter,
    InvalidData,
}

/// The firmware's memory map as the bootloader passes it on: the address and
/// size in bytes of the buffer that holds the descriptors, the size of one
/// descriptor, and the descriptors' version.
#[derive(Debug, Clone, Copy)]
pub struct MemMap {
    pub ptr: usize,
    pub size: usize,
    pub desc_size: usize,
    pub desc_version: u32,
}

/// What the bootloader hands the kernel: the address of the UEFI system table
/// and the memory map.
#[derive(Debug, Clone, Copy)]
pub struct KernelParameters {
    pub system_table: usize,
    pub memory_map: MemMap,
}

#[verifier::external_type_specification]
#[verifier::external_body]
pub struct ExMemoryMapRef<'a>(MemoryMapRef<'a>);

#[verifier::external_type_specification]
#[verifier::external_body]
pub struct ExMemoryMapError(MemoryMapError);

/// Size in bytes of one UEFI memory descriptor as `uefi` lays it out.
pub open spec fn descriptor_size() -> int {
    40
}

/// The sizes of a memory map are sound: a descriptor is no smaller than the
/// `uefi` descriptor and a multiple of its alignment of 8, and the map holds
/// a whole number of descriptors.
pub open spec fn sizes_valid(map_size: usize, desc_size: usize) -> bool {
    &&& desc_size >= descriptor_size()
    &&& desc_size % 8 == 0
    &&& map_size % desc_size == 0
}

/// The map size, descriptor size and descriptor version that
/// `MemoryMap::meta` gives for a memory map view.
pub uninterp spec fn memory_map_ref_meta(map: MemoryMapRef) -> (usize, usize, u32);

/// The bytes that `MemoryMap::buffer` gives for a memory map view: the
/// buffer the view reads its descriptors from.
pub uninterp spec fn memory_map_ref_buffer(map: MemoryMapRef) -> Seq<u8>;

/// Whether `MemoryMap::key` gives `MemoryMapKey::default()` for a memory map view.
pub uninterp spec fn memory_map_ref_default_key(map: MemoryMapRef) -> bool;

/// Calls `uefi::mem::memory_map::MemoryMapRef::new` on `buffer` with the
/// given sizes and version, and the default map key.
///
/// Trusted: `new` fails unless the buffer holds `map_size` bytes and the sizes
/// are sound (`validate_meta` in its source; `MemoryDescriptor` is 40 bytes,
/// aligned to 8). It also fails when the buffer does not start at an address
/// aligned to 8, which nothing here can state; so success is never promised.
/// On success the view stores the buffer and the meta data it was given, as
/// `buffer`, `meta` and `key` return them.
#[verifier::external_body]
fn memory_map_ref_new<'a>(
    buffer: &'a [u8],
    map_size: usize,
    desc_size: usize,
    desc_version: u32,
) -> (r: Result<MemoryMapRef<'a>, MemoryMapError>)
    ensures
        r is Ok ==> buffer@.len() >= map_size && sizes_valid(map_size, desc_size),
        r matches Ok(m) ==> memory_map_ref_meta(m) == (map_size, desc_size, desc_version),
        r matches Ok(m) ==> memory_map_ref_buffer(m) == buffer@,
        r matches Ok(m) ==> memory_map_ref_default_key(m),
{
    MemoryMapRef::new(
        buffer,
        uefi::mem::memory_map::MemoryMapMeta {
            map_size,
            desc_size,
            map_key: Default::default(),
            desc_version,
        },
    )
}

impl MemMap {
    /// A view of the memory map over `buffer`, the `size` bytes at `ptr`,
    /// with this map's sizes and version and the default map key; the view
    /// reads its descriptors from `buffer` and no other bytes. Fails with `InvalidData` where
    /// `uefi` refuses the map: always where the sizes are unsound, and also
    /// where the buffer is not aligned to 8 bytes.
    pub fn as_ref<'a>(&self, buffer: &'a [u8]) -> (r: Result<MemoryMapRef<'a>, ErrorType>)
        requires
            buffer@.len() == self.size,
        ensures
            r is Ok ==> sizes_valid(self.size, self.desc_size),
            r matches Ok(m) ==> memory_map_ref_meta(m) == (self.size, self.desc_size, self.desc_version),
            r matches Ok(m) ==> memory_map_ref_buffer(m) == buffer@,
            r matches Ok(m) ==> memory_map_ref_default_key(m),
            !sizes_valid(self.size, self.desc_size) ==> r == Err::<MemoryMapRef<'a>, ErrorType>(
                ErrorType::InvalidData,
            ),
            r is Err ==> r == Err::<MemoryMapRef<'a>, ErrorType>(ErrorType::InvalidData),
    {
        match memory_map_ref_new(buffer, self.size, self.desc_size, self.desc_version) {
            Ok(map) => Ok(map),
            Err(_) => Err(ErrorType::InvalidData),
        }
    }
}

/// Checks the address of the UEFI system table that the kernel is to install.
pub fn init_uefi_rt_table(system_table: usize) -> (r: Result<(), ErrorType>)
    ensures
        system_table != 0 ==> r is Ok,
        system_table == 0 ==> r == Err::<(), ErrorType>(ErrorType::NullParameter),
{
    if system_table != 0 {
        Ok(())
    } else {
        Err(ErrorType::NullParameter)
    }
}

/// The kernel's start-up decisions: stop with the logger's error if it could
/// not be set up, then with `NullParameter` if no system table was handed
/// over; otherwise go on with the system table at the address returned.
pub fn kmain(logger: Result<(), ErrorType>, params: &KernelParameters) -> (r: Result<
    usize,
    ErrorType,
>)
    ensures
        r == match logger {
            Err(e) => Err(e),
            Ok(_) => if params.system_table == 0 {
                Err(ErrorType::NullParameter)
            } else {
                Ok(params.system_table)
            },
        },
{
    match logger {
        Err(e) => Err(e),
        Ok(()) => match init_uefi_rt_table(params.system_table) {
            Err(e) => Err(e),
            Ok(()) => Ok(params.system_table),
        },
    }
}

} // verus!
