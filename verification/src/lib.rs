//! Startup-time initializer for named linker-defined memory regions.
//!
//! On embedded targets, a linker script places the initial image of a
//! writable memory region in read-only storage (its load address) and the
//! region itself in RAM (its run-time address).  Before any code that reads
//! the region runs, the image must be copied, word by word, from the load
//! range to the run-time range.
//!
//! This crate models that mechanism over an explicit address space:
//! [`memory::Memory`] is a set of word-granular banks, [`region::Region`] is
//! one region's three link-time addresses, [`init::section_init`] is the raw
//! copy primitive, and [`init::init_regions`] runs a whole declaration table
//! in order.  [`symbols`] adds the symbol-naming layer: a region named `R`
//! is bound to the three linker symbols derived from a prefix convention,
//! looked up in a [`symbols::SymbolTable`].
//!
//! The whole facility is single-shot: boot code runs one initialization
//! call once, before anything reads the regions.  Running it again, or
//! after the regions are in use, is a usage error the facility does not
//! detect, and keeping distinct regions' ranges apart from one another is
//! the linker script author's burden — only single-region validation is
//! ever performed.

pub mod init;
pub mod memory;
pub mod region;
pub mod symbols;
