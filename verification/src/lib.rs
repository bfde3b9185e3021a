//! The logic of a stage-2 loader that takes a higher-half kernel from the
//! firmware's boot services to its entry point.
//!
//! - [`addr`]: the physical and the kernel-virtual address domain.
//! - [`mem`]: the record of claimed physical ranges, and the classification
//!   of the firmware memory map against it.
//! - [`parse_elf`]: validation and placement of the kernel image.
//! - [`paging`]: page-table entries and the huge-page mappings of the higher
//!   half.
//! - [`fb`], [`setup`]: the framebuffer descriptor, the ACPI root pointer
//!   and the preparation of the page tables.
//! - [`bootinfo`]: the boot information block.
//! - [`handoff`]: the kernel stack and the exit from the boot services.
//! - [`kaboom`]: the first revision of the boot protocol.
//!
//! The library touches no memory and calls no firmware: it is handed plain
//! values and says what to do with them.

pub mod addr;
pub mod bootinfo;
pub mod fb;
pub mod handoff;
pub mod kaboom;
pub mod mem;
pub mod paging;
pub mod parse_elf;
pub mod setup;
