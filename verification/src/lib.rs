//! Verified core of a small UEFI bootloader and kernel: the physical frame
//! allocator over the firmware memory map, the framebuffer text console, the
//! log line format and the checks on the parameters handed to the kernel.
pub mod font;
pub mod framebuffer;
pub mod memory;
pub mod log_line;
pub mod params;
