//! Region descriptors and their validation.
//!
//! A region is the link-time contract between the linker script and the
//! initializer: a run-time (destination) range given by its start and
//! one-past-the-end addresses, and a load-time (source) start address.  The
//! validation checks mirror the ones the copy primitive may run before
//! copying: destination ordered, all three addresses word-aligned, and the
//! source and destination ranges apart.

use vstd::prelude::*;

verus! {

/// One region's three link-time addresses.
#[derive(Clone, Copy, Debug, PartialEq, Eq, Structural)]
pub struct Region {
    /// Byte address of the first word to write (run-time range start).
    pub dest_start: u32,
    /// Byte address one past the last word to write (run-time range end).
    pub dest_end: u32,
    /// Byte address of the first word to read (load-time range start).
    pub src_start: u32,
}

/// Why a region fails validation.
#[derive(Clone, Copy, Debug, PartialEq, Eq, Structural)]
pub enum InitError {
    /// The destination end address lies before the destination start.
    EndBeforeStart,
    /// The source start address is not 4-byte aligned.
    SrcNotAligned,
    /// The destination start address is not 4-byte aligned.
    StartNotAligned,
    /// The destination end address is not 4-byte aligned.
    EndNotAligned,
    /// The source and destination ranges overlap.
    RangesOverlap,
    /// Two declared sections carry the same name.
    DuplicateSection,
    /// A section's boundary symbol is missing from the symbol table.
    UnresolvedSymbol,
}

/// The region's length in bytes.
pub open spec fn region_len(r: Region) -> int {
    r.dest_end - r.dest_start
}

/// The destination range is a well-ordered half-open interval.
pub open spec fn region_ordered(r: Region) -> bool {
    r.dest_start <= r.dest_end
}

/// All three addresses are 4-byte aligned.
pub open spec fn region_aligned(r: Region) -> bool {
    r.dest_start % 4 == 0 && r.dest_end % 4 == 0 && r.src_start % 4 == 0
}

/// The separation test the validating mode runs: the source range starts
/// strictly past the destination range, or ends strictly before it.
pub open spec fn region_separate(r: Region) -> bool {
    r.src_start > r.dest_start + region_len(r) || r.src_start + region_len(r) < r.dest_start
}

/// The half-open byte ranges `[src_start, src_start + len)` and
/// `[dest_start, dest_end)` do not intersect.  This is what the copy
/// primitive itself needs; `region_separate` is slightly stronger.
pub open spec fn ranges_disjoint(r: Region) -> bool {
    r.src_start + region_len(r) <= r.dest_start || r.dest_end <= r.src_start
}

/// Every word of the region's destination and source ranges is mapped.
pub open spec fn region_in_mem(mm: Map<int, u32>, r: Region) -> bool {
    (forall|a: int|
        r.dest_start <= a < r.dest_end && a % 4 == 0 ==> #[trigger] mm.dom().contains(a))
        && (forall|a: int|
        r.src_start <= a < r.src_start + region_len(r) && a % 4 == 0 ==> #[trigger] mm.dom().contains(
            a,
        ))
}

/// What validation returns, with the checks run in the order the copy
/// primitive asserts them: ordering, source alignment, destination start
/// alignment, destination end alignment, separation.
pub open spec fn spec_check_region(r: Region) -> Result<(), InitError> {
    if !region_ordered(r) {
        Err(InitError::EndBeforeStart)
    } else if r.src_start % 4 != 0 {
        Err(InitError::SrcNotAligned)
    } else if r.dest_start % 4 != 0 {
        Err(InitError::StartNotAligned)
    } else if r.dest_end % 4 != 0 {
        Err(InitError::EndNotAligned)
    } else if !region_separate(r) {
        Err(InitError::RangesOverlap)
    } else {
        Ok(())
    }
}

/// The region passes every validation check.
pub open spec fn region_checks(r: Region) -> bool {
    spec_check_region(r) is Ok
}

/// What the copy primitive itself demands of a region.
pub open spec fn region_valid(r: Region) -> bool {
    region_ordered(r) && region_aligned(r) && ranges_disjoint(r)
}

/// A region that passes validation meets the copy primitive's demands.
pub proof fn lemma_checks_imply_valid(r: Region)
    requires
        region_checks(r),
    ensures
        region_valid(r),
{
}

/// Run the validation checks on one region, in the order the validating
/// copy mode asserts them.
pub fn check_region(r: Region) -> (res: Result<(), InitError>)
    ensures
        res == spec_check_region(r),
{
    if r.dest_start > r.dest_end {
        return Err(InitError::EndBeforeStart);
    }
    if r.src_start % 4 != 0 {
        return Err(InitError::SrcNotAligned);
    }
    if r.dest_start % 4 != 0 {
        return Err(InitError::StartNotAligned);
    }
    if r.dest_end % 4 != 0 {
        return Err(InitError::EndNotAligned);
    }
    let len = r.dest_end - r.dest_start;
    if !(r.src_start > r.dest_end || (r.src_start as u64) + (len as u64) < (r.dest_start as u64)) {
        return Err(InitError::RangesOverlap);
    }
    Ok(())
}

impl InitError {
    /// A short description of the failed check.
    pub fn describe(&self) -> (s: &'static str)
    {
        match self {
            InitError::EndBeforeStart => "destination end lies before destination start",
            InitError::SrcNotAligned => "source start is not 4-byte aligned",
            InitError::StartNotAligned => "destination start is not 4-byte aligned",
            InitError::EndNotAligned => "destination end is not 4-byte aligned",
            InitError::RangesOverlap => "source and destination ranges overlap",
            InitError::DuplicateSection => "two sections carry the same name",
            InitError::UnresolvedSymbol => "a boundary symbol is missing",
        }
    }
}

} // verus!
