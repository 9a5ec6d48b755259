//! The copy-and-validate primitive and the region sequencer.
//!
//! [`section_init`] copies one region's load-time image to its run-time
//! range, word by word; [`section_init_checked`] first runs the validation
//! checks and refuses a bad region instead of touching memory.
//! [`init_regions`] and [`init_regions_checked`] run a whole declaration
//! table strictly in declaration order.
//!
//! The primitive validates a single region only; keeping distinct regions'
//! ranges apart from one another is the linker script author's burden.  The
//! laws [`lemma_independent_regions`] and [`lemma_declaration_order`] say
//! exactly what declaration order does and does not decide.

use crate::memory::lemma_memory_bounds;
use crate::memory::Memory;
use crate::region::check_region;
use crate::region::lemma_checks_imply_valid;
use crate::region::ranges_disjoint;
use crate::region::region_aligned;
use crate::region::region_checks;
use crate::region::region_in_mem;
use crate::region::region_len;
use crate::region::region_ordered;
use crate::region::region_valid;
use crate::region::spec_check_region;
use crate::region::InitError;
use crate::region::Region;
use vstd::prelude::*;

verus! {

/// The memory map after one region's copy: every word of the destination
/// range takes the source word at the matching offset; every other mapped
/// address keeps its word.
pub open spec fn region_image(mm: Map<int, u32>, r: Region) -> Map<int, u32> {
    Map::new(
        |a: int| mm.dom().contains(a),
        |a: int|
            if r.dest_start <= a < r.dest_end {
                mm[a - r.dest_start + r.src_start]
            } else {
                mm[a]
            },
    )
}

/// The memory map after a list of regions is copied in declaration order.
pub open spec fn regions_image(mm: Map<int, u32>, rs: Seq<Region>) -> Map<int, u32>
    decreases rs.len(),
{
    if rs.len() == 0 {
        mm
    } else {
        regions_image(region_image(mm, rs.first()), rs.drop_first())
    }
}

/// A region's copy maps exactly the addresses that were mapped before.
pub proof fn lemma_region_image_dom(mm: Map<int, u32>, r: Region)
    ensures
        region_image(mm, r).dom() == mm.dom(),
{
    assert(region_image(mm, r).dom() =~= mm.dom());
}

/// A list of copies maps exactly the addresses that were mapped before.
pub proof fn lemma_regions_image_dom(mm: Map<int, u32>, rs: Seq<Region>)
    ensures
        regions_image(mm, rs).dom() == mm.dom(),
    decreases rs.len(),
{
    if rs.len() > 0 {
        lemma_region_image_dom(mm, rs.first());
        lemma_regions_image_dom(region_image(mm, rs.first()), rs.drop_first());
    }
}

/// Running one more region after a list equals extending the list.
pub proof fn lemma_regions_image_push(mm: Map<int, u32>, rs: Seq<Region>, r: Region)
    ensures
        regions_image(mm, rs.push(r)) == region_image(regions_image(mm, rs), r),
    decreases rs.len(),
{
    if rs.len() == 0 {
        assert(rs.push(r).first() == r);
        assert(rs.push(r).drop_first() =~= Seq::<Region>::empty());
        assert(regions_image(mm, rs.push(r)) == regions_image(
            region_image(mm, r),
            Seq::<Region>::empty(),
        ));
        assert(regions_image(region_image(mm, r), Seq::<Region>::empty()) == region_image(mm, r));
        assert(regions_image(mm, rs) == mm);
    } else {
        let mid = region_image(mm, rs.first());
        assert(rs.push(r).first() == rs.first());
        assert(rs.push(r).drop_first() =~= rs.drop_first().push(r));
        assert(regions_image(mm, rs.push(r)) == regions_image(mid, rs.drop_first().push(r)));
        lemma_regions_image_push(mid, rs.drop_first(), r);
        assert(regions_image(mm, rs) == regions_image(mid, rs.drop_first()));
    }
}

/// A zero-length region's copy is a no-op: no mapped address changes.
pub proof fn lemma_empty_region_noop(mm: Map<int, u32>, r: Region)
    requires
        region_len(r) == 0,
    ensures
        region_image(mm, r) == mm,
{
    assert(region_image(mm, r) =~= mm);
}

/// A mapped address outside every region's destination range keeps its word.
pub proof fn lemma_regions_image_frame(mm: Map<int, u32>, rs: Seq<Region>, a: int)
    requires
        mm.dom().contains(a),
        forall|i: int|
            0 <= i < rs.len() ==> !((#[trigger] rs[i]).dest_start <= a < rs[i].dest_end),
    ensures
        regions_image(mm, rs).dom().contains(a),
        regions_image(mm, rs)[a] == mm[a],
    decreases rs.len(),
{
    if rs.len() > 0 {
        let mm1 = region_image(mm, rs.first());
        lemma_region_image_dom(mm, rs.first());
        lemma_regions_image_frame(mm1, rs.drop_first(), a);
    }
}

/// Region `x`'s destination range meets neither region `y`'s destination
/// range nor `y`'s source range.
pub open spec fn dest_apart(x: Region, y: Region) -> bool {
    (x.dest_end <= y.dest_start || y.dest_end <= x.dest_start) && (x.dest_end <= y.src_start
        || y.src_start + region_len(y) <= x.dest_start)
}

/// Every two distinct declared regions keep out of each other's way: no
/// destination range meets another region's destination or source range.
pub open spec fn regions_independent(rs: Seq<Region>) -> bool {
    forall|i: int, j: int|
        0 <= i < rs.len() && 0 <= j < rs.len() && i != j ==> #[trigger] dest_apart(rs[i], rs[j])
}

/// A word-aligned step from a word-aligned address is word-aligned.
proof fn lemma_mod4_linear(x: int, y: int, z: int)
    requires
        x % 4 == 0,
        y % 4 == 0,
        z % 4 == 0,
    ensures
        (x - y + z) % 4 == 0,
{
    assert((x - y + z) % 4 == 0) by (nonlinear_arith)
        requires
            x % 4 == 0,
            y % 4 == 0,
            z % 4 == 0,
    ;
}

/// Independence law: when every two declared regions keep out of each
/// other's way, each region's destination words equal its own source's
/// original words once the whole list has run — whatever the declaration
/// order put between them.
pub proof fn lemma_independent_regions(mm: Map<int, u32>, rs: Seq<Region>, i: int, a: int)
    requires
        forall|k: int| 0 <= k < rs.len() ==> region_valid(#[trigger] rs[k]),
        forall|k: int| 0 <= k < rs.len() ==> region_in_mem(mm, #[trigger] rs[k]),
        regions_independent(rs),
        0 <= i < rs.len(),
        rs[i].dest_start <= a < rs[i].dest_end,
        a % 4 == 0,
    ensures
        regions_image(mm, rs).dom().contains(a),
        regions_image(mm, rs)[a] == mm[a - rs[i].dest_start + rs[i].src_start],
    decreases rs.len(),
{
    let r0 = rs.first();
    let rest = rs.drop_first();
    let mm1 = region_image(mm, r0);
    lemma_region_image_dom(mm, r0);
    lemma_regions_image_dom(mm, rs);
    assert(mm.dom().contains(a));
    if i == 0 {
        assert(mm1[a] == mm[a - r0.dest_start + r0.src_start]);
        assert forall|j: int|
            0 <= j < rest.len() implies !((#[trigger] rest[j]).dest_start <= a
            < rest[j].dest_end) by {
            assert(dest_apart(rs[j + 1], rs[0]));
        }
        lemma_regions_image_frame(mm1, rest, a);
    } else {
        let s = a - rs[i].dest_start + rs[i].src_start;
        lemma_mod4_linear(a, rs[i].dest_start as int, rs[i].src_start as int);
        assert(rs[i].src_start <= s < rs[i].src_start + region_len(rs[i]));
        assert(mm.dom().contains(s));
        assert forall|k: int|
            0 <= k < rest.len() implies region_valid(#[trigger] rest[k]) && region_in_mem(
            mm1,
            rest[k],
        ) by {
            assert(rest[k] == rs[k + 1]);
        }
        assert forall|p: int, q: int|
            0 <= p < rest.len() && 0 <= q < rest.len() && p != q implies #[trigger] dest_apart(
            rest[p],
            rest[q],
        ) by {
            assert(dest_apart(rs[p + 1], rs[q + 1]));
        }
        lemma_independent_regions(mm1, rest, i - 1, a);
        assert(dest_apart(rs[0], rs[i]));
        assert(!(r0.dest_start <= s < r0.dest_end));
        assert(mm1[s] == mm[s]);
    }
}

/// Ordering law: let region `snd`'s source range coincide with region
/// `fst`'s destination range, with `snd`'s destination apart from both of
/// `fst`'s ranges.  Then `snd` observes what `fst` wrote exactly when `fst`
/// ran first: after `[fst, snd]`, `snd`'s destination holds `fst`'s source
/// image; after `[snd, fst]`, it holds the coinciding range's original
/// contents.
pub proof fn lemma_declaration_order(mm: Map<int, u32>, fst: Region, snd: Region, a: int)
    requires
        region_valid(fst),
        region_valid(snd),
        region_in_mem(mm, fst),
        region_in_mem(mm, snd),
        snd.src_start == fst.dest_start,
        region_len(snd) == region_len(fst),
        dest_apart(snd, fst),
        snd.dest_start <= a < snd.dest_end,
        a % 4 == 0,
    ensures
        regions_image(mm, seq![fst, snd])[a] == mm[a - snd.dest_start + fst.src_start],
        regions_image(mm, seq![snd, fst])[a] == mm[a - snd.dest_start + snd.src_start],
{
    let off = a - snd.dest_start;
    let s = snd.src_start + off;
    lemma_mod4_linear(a, snd.dest_start as int, snd.src_start as int);
    assert(mm.dom().contains(a));
    assert(mm.dom().contains(s));
    // Declaration order [fst, snd]: fst writes the coinciding range, then
    // snd reads it.
    let fs = seq![fst, snd];
    let m1 = region_image(mm, fst);
    lemma_region_image_dom(mm, fst);
    assert(fs.first() == fst);
    assert(fs.drop_first() =~= seq![snd]);
    assert(seq![snd].first() == snd);
    assert(seq![snd].drop_first() =~= Seq::<Region>::empty());
    assert(regions_image(mm, fs) == regions_image(m1, seq![snd]));
    assert(regions_image(m1, seq![snd]) == regions_image(
        region_image(m1, snd),
        Seq::<Region>::empty(),
    ));
    assert(regions_image(region_image(m1, snd), Seq::<Region>::empty()) == region_image(m1, snd));
    assert(regions_image(mm, fs) == region_image(m1, snd));
    assert(fst.dest_start <= s < fst.dest_end);
    assert(m1[s] == mm[s - fst.dest_start + fst.src_start]);
    assert(region_image(m1, snd)[a] == m1[s]);
    assert(s - fst.dest_start + fst.src_start == a - snd.dest_start + fst.src_start);
    // Declaration order [snd, fst]: snd reads the coinciding range first.
    let sf = seq![snd, fst];
    let m2 = region_image(mm, snd);
    lemma_region_image_dom(mm, snd);
    assert(sf.first() == snd);
    assert(sf.drop_first() =~= seq![fst]);
    assert(seq![fst].first() == fst);
    assert(seq![fst].drop_first() =~= Seq::<Region>::empty());
    assert(regions_image(mm, sf) == regions_image(m2, seq![fst]));
    assert(regions_image(m2, seq![fst]) == regions_image(
        region_image(m2, fst),
        Seq::<Region>::empty(),
    ));
    assert(regions_image(region_image(m2, fst), Seq::<Region>::empty()) == region_image(m2, fst));
    assert(regions_image(mm, sf) == region_image(m2, fst));
    assert(m2[a] == mm[a - snd.dest_start + snd.src_start]);
    assert(!(fst.dest_start <= a < fst.dest_end));
    assert(region_image(m2, fst)[a] == m2[a]);
}

/// Copy one region's load-time image to its run-time range, word by word.
///
/// After the call the destination range holds, byte for byte, what the
/// source range held at the time of the call, and no other mapped address
/// changes.
pub fn section_init(mem: &mut Memory, r: Region)
    requires
        old(mem).wf(),
        region_ordered(r),
        region_aligned(r),
        ranges_disjoint(r),
        region_in_mem(old(mem)@, r),
    ensures
        final(mem).wf(),
        final(mem)@ == region_image(old(mem)@, r),
        final(mem)@.dom() == old(mem)@.dom(),
        forall|a: int|
            r.dest_start <= a < r.dest_end && #[trigger] old(mem)@.dom().contains(a)
                ==> final(mem)@[a] == old(mem)@[a - r.dest_start + r.src_start],
        forall|a: int|
            #[trigger] old(mem)@.dom().contains(a) && !(r.dest_start <= a < r.dest_end)
                ==> final(mem)@[a] == old(mem)@[a],
{
    proof {
        lemma_memory_bounds(*old(mem));
    }
    let ghost mm0 = old(mem)@;
    let len = r.dest_end - r.dest_start;
    proof {
        assert(len as int % 4 == 0) by (nonlinear_arith)
            requires
                r.dest_start % 4 == 0,
                r.dest_end % 4 == 0,
                r.dest_start <= r.dest_end,
                len == r.dest_end - r.dest_start,
        ;
    }
    let mut off: u32 = 0;
    while off < len
        invariant
            mem.wf(),
            len == region_len(r),
            len % 4 == 0,
            off <= len,
            off % 4 == 0,
            region_ordered(r),
            region_aligned(r),
            ranges_disjoint(r),
            region_in_mem(mm0, r),
            mem@.dom() == mm0.dom(),
            forall|a: int|
                #[trigger] mm0.dom().contains(a) ==> 0 <= a < 0x1_0000_0000 && a % 4 == 0,
            forall|a: int|
                r.dest_start <= a < r.dest_start + off && #[trigger] mm0.dom().contains(a)
                    ==> mem@[a] == mm0[a - r.dest_start + r.src_start],
            forall|a: int|
                #[trigger] mm0.dom().contains(a) && !(r.dest_start <= a < r.dest_start + off)
                    ==> mem@[a] == mm0[a],
        decreases len - off,
    {
        proof {
            lemma_mod4_linear(r.src_start as int, 0, off as int);
            lemma_mod4_linear(r.dest_start as int, 0, off as int);
            assert(mm0.dom().contains(r.src_start + off as int));
            assert(mm0.dom().contains(r.dest_start + off as int));
        }
        let s = r.src_start + off;
        let d = r.dest_start + off;
        let v = mem.read_word(s);
        proof {
            assert(!(r.dest_start <= (s as int) < r.dest_start + off));
            assert(v == mm0[s as int]);
        }
        let ghost before = mem@;
        mem.write_word(d, v);
        proof {
            assert(mem@ == before.insert(d as int, v));
            assert(mem@.dom() =~= mm0.dom());
            assert forall|a: int|
                r.dest_start <= a < r.dest_start + off + 4 && #[trigger] mm0.dom().contains(
                a,
            ) implies mem@[a] == mm0[a - r.dest_start + r.src_start] by {
                if a < r.dest_start + off {
                    assert(before[a] == mm0[a - r.dest_start + r.src_start]);
                    assert(a != d as int);
                } else {
                    assert(a == d as int);
                    assert(a - r.dest_start == off);
                }
            }
            assert forall|a: int|
                #[trigger] mm0.dom().contains(a) && !(r.dest_start <= a < r.dest_start + off
                    + 4) implies mem@[a] == mm0[a] by {
                assert(a != d as int);
            }
        }
        proof {
            assert(len as int - off as int >= 4) by (nonlinear_arith)
                requires
                    off % 4 == 0,
                    len % 4 == 0,
                    off < len,
            ;
        }
        off = off + 4;
    }
    proof {
        assert(mem@ =~= region_image(mm0, r));
    }
}

/// Validate one region, then copy it; a region that fails a check leaves
/// memory untouched and names the first failed check.
pub fn section_init_checked(mem: &mut Memory, r: Region) -> (res: Result<(), InitError>)
    requires
        old(mem).wf(),
        region_checks(r) ==> region_in_mem(old(mem)@, r),
    ensures
        final(mem).wf(),
        res == spec_check_region(r),
        res is Ok ==> final(mem)@ == region_image(old(mem)@, r) && final(mem)@.dom() == old(
            mem,
        )@.dom(),
        res is Err ==> final(mem)@ == old(mem)@,
{
    match check_region(r) {
        Ok(()) => {
            proof {
                lemma_checks_imply_valid(r);
            }
            section_init(mem, r);
            Ok(())
        },
        Err(e) => Err(e),
    }
}

/// Run every declared region's copy, strictly in declaration order.
pub fn init_regions(mem: &mut Memory, regions: &Vec<Region>)
    requires
        old(mem).wf(),
        forall|i: int| 0 <= i < regions@.len() ==> region_valid(#[trigger] regions@[i]),
        forall|i: int| 0 <= i < regions@.len() ==> region_in_mem(old(mem)@, #[trigger] regions@[i]),
    ensures
        final(mem).wf(),
        final(mem)@ == regions_image(old(mem)@, regions@),
        final(mem)@.dom() == old(mem)@.dom(),
{
    let ghost mm0 = old(mem)@;
    let n = regions.len();
    let mut i: usize = 0;
    proof {
        assert(regions@.take(0) =~= Seq::<Region>::empty());
    }
    while i < n
        invariant
            mem.wf(),
            n == regions@.len(),
            i <= n,
            forall|k: int| 0 <= k < regions@.len() ==> region_valid(#[trigger] regions@[k]),
            forall|k: int| 0 <= k < regions@.len() ==> region_in_mem(mm0, #[trigger] regions@[k]),
            mem@ == regions_image(mm0, regions@.take(i as int)),
            mem@.dom() == mm0.dom(),
        decreases n - i,
    {
        let r = regions[i];
        proof {
            assert(region_in_mem(mem@, r));
        }
        let ghost before = mem@;
        section_init(mem, r);
        proof {
            lemma_regions_image_push(mm0, regions@.take(i as int), r);
            assert(regions@.take(i as int + 1) =~= regions@.take(i as int).push(r));
        }
        i = i + 1;
    }
    proof {
        assert(regions@.take(n as int) =~= regions@);
    }
}

/// The position of the first declared region that fails validation, or the
/// list's length when every region passes.
pub open spec fn first_bad(rs: Seq<Region>) -> int
    decreases rs.len(),
{
    if rs.len() == 0 {
        0
    } else if !region_checks(rs.first()) {
        0
    } else {
        1 + first_bad(rs.drop_first())
    }
}

/// `first_bad` points past every passing region and at a failing one.
pub proof fn lemma_first_bad_bounds(rs: Seq<Region>)
    ensures
        0 <= first_bad(rs) <= rs.len(),
        forall|k: int| 0 <= k < first_bad(rs) ==> region_checks(#[trigger] rs[k]),
        first_bad(rs) < rs.len() ==> !region_checks(rs[first_bad(rs)]),
    decreases rs.len(),
{
    if rs.len() > 0 && region_checks(rs.first()) {
        lemma_first_bad_bounds(rs.drop_first());
        assert forall|k: int| 0 <= k < first_bad(rs) implies region_checks(#[trigger] rs[k]) by {
            if k > 0 {
                assert(rs.drop_first()[k - 1] == rs[k]);
                assert(region_checks(rs.drop_first()[k - 1]));
            }
        }
    }
}

/// A position past every passing region and at a failing one is `first_bad`.
proof fn lemma_first_bad_at(rs: Seq<Region>, i: int)
    requires
        0 <= i <= rs.len(),
        forall|k: int| 0 <= k < i ==> region_checks(#[trigger] rs[k]),
        i < rs.len() ==> !region_checks(rs[i]),
    ensures
        first_bad(rs) == i,
    decreases rs.len(),
{
    if rs.len() > 0 && i > 0 {
        assert(region_checks(rs.first()));
        assert forall|k: int| 0 <= k < i - 1 implies region_checks(
            #[trigger] rs.drop_first()[k],
        ) by {
            assert(rs.drop_first()[k] == rs[k + 1]);
        }
        lemma_first_bad_at(rs.drop_first(), i - 1);
    }
}

/// Validate and copy each declared region in declaration order, stopping at
/// the first region that fails a check.  Regions declared before the failing
/// one have already been copied when the error is reported, as in the
/// assertion-checking copy mode this models.
pub fn init_regions_checked(mem: &mut Memory, regions: &Vec<Region>) -> (res: Result<
    (),
    InitError,
>)
    requires
        old(mem).wf(),
        forall|i: int|
            0 <= i < regions@.len() && region_checks(#[trigger] regions@[i]) ==> region_in_mem(
                old(mem)@,
                regions@[i],
            ),
    ensures
        final(mem).wf(),
        final(mem)@ == regions_image(old(mem)@, regions@.take(first_bad(regions@))),
        final(mem)@.dom() == old(mem)@.dom(),
        res is Ok <==> first_bad(regions@) == regions@.len(),
        res is Ok ==> final(mem)@ == regions_image(old(mem)@, regions@),
        res is Err ==> res == spec_check_region(regions@[first_bad(regions@)]),
{
    let ghost mm0 = old(mem)@;
    let n = regions.len();
    let mut i: usize = 0;
    proof {
        assert(regions@.take(0) =~= Seq::<Region>::empty());
    }
    while i < n
        invariant
            mem.wf(),
            mm0 == old(mem)@,
            n == regions@.len(),
            i <= n,
            forall|k: int|
                0 <= k < regions@.len() && region_checks(#[trigger] regions@[k]) ==> region_in_mem(
                    mm0,
                    regions@[k],
                ),
            forall|k: int| 0 <= k < i ==> region_checks(#[trigger] regions@[k]),
            mem@ == regions_image(mm0, regions@.take(i as int)),
            mem@.dom() == mm0.dom(),
        decreases n - i,
    {
        let r = regions[i];
        match check_region(r) {
            Ok(()) => {
                proof {
                    lemma_checks_imply_valid(r);
                    assert(region_in_mem(mem@, r));
                }
                section_init(mem, r);
                proof {
                    lemma_regions_image_push(mm0, regions@.take(i as int), r);
                    assert(regions@.take(i as int + 1) =~= regions@.take(i as int).push(r));
                }
            },
            Err(e) => {
                proof {
                    lemma_first_bad_at(regions@, i as int);
                }
                return Err(e);
            },
        }
        i = i + 1;
    }
    proof {
        lemma_first_bad_at(regions@, n as int);
        assert(regions@.take(n as int) =~= regions@);
    }
    Ok(())
}

} // verus!

