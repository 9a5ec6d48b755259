//! A word-granular model of the target's address space.
//!
//! The address space is a set of disjoint banks.  Each bank is a contiguous
//! run of 4-byte words starting at a word-aligned byte address.  The whole
//! memory is viewed as a map from word-aligned byte addresses to the 32-bit
//! words stored there; reads and writes are word-granular, as on the targets
//! this mechanism is meant for.

use vstd::prelude::*;

verus! {

/// One contiguous run of 4-byte words starting at a word-aligned byte
/// address.
pub struct Bank {
    /// Byte address of the bank's first word.
    pub base: u32,
    /// The bank's words, in address order.
    pub words: Vec<u32>,
}

impl Bank {
    /// The bank starts word-aligned and ends within the 32-bit address space.
    pub open spec fn wf(self) -> bool {
        self.base % 4 == 0 && self.base + 4 * self.words@.len() <= 0x1_0000_0000
    }

    /// Whether the word-aligned byte address `addr` falls inside the bank.
    pub open spec fn covers(self, addr: int) -> bool {
        self.base <= addr < self.base + 4 * self.words@.len() && addr % 4 == 0
    }
}

impl View for Bank {
    type V = Map<int, u32>;

    /// The bank's contents, as a map from word-aligned byte address to word.
    open spec fn view(&self) -> Map<int, u32> {
        Map::new(|a: int| self.covers(a), |a: int| self.words@[(a - self.base) / 4])
    }
}

/// The contents of a sequence of banks as one map.  An address held by
/// several banks reads from the earliest one.
pub open spec fn banks_view(banks: Seq<Bank>) -> Map<int, u32>
    decreases banks.len(),
{
    if banks.len() == 0 {
        Map::empty()
    } else {
        banks_view(banks.drop_first()).union_prefer_right(banks.first()@)
    }
}

/// No two banks hold a common address.
pub open spec fn banks_separate(banks: Seq<Bank>) -> bool {
    forall|i: int, j: int|
        0 <= i < j < banks.len() ==> (#[trigger] banks[i]).base + 4 * banks[i].words@.len()
            <= (#[trigger] banks[j]).base || banks[j].base + 4 * banks[j].words@.len()
            <= banks[i].base
}

/// The modelled address space: a set of disjoint, well-formed banks.
pub struct Memory {
    /// The banks making up the address space.
    pub banks: Vec<Bank>,
}

impl View for Memory {
    type V = Map<int, u32>;

    /// The whole memory as a map from word-aligned byte address to word.
    open spec fn view(&self) -> Map<int, u32> {
        banks_view(self.banks@)
    }
}

impl Memory {
    /// Every bank is well-formed and no two banks overlap.
    pub open spec fn wf(self) -> bool {
        (forall|i: int|
            0 <= i < self.banks@.len() ==> (#[trigger] self.banks@[i]).wf())
            && banks_separate(self.banks@)
    }
}

/// A word-aligned offset from a word-aligned base determines the word index,
/// and distinct aligned addresses have distinct word indices.
proof fn lemma_word_index_injective(base: int, x: int, a: int)
    requires
        base % 4 == 0,
        x % 4 == 0,
        a % 4 == 0,
        base <= x,
        base <= a,
        (x - base) / 4 == (a - base) / 4,
    ensures
        x == a,
{
    assert(x - base == 4 * ((x - base) / 4)) by (nonlinear_arith)
        requires
            base % 4 == 0,
            x % 4 == 0,
            base <= x,
    ;
    assert(a - base == 4 * ((a - base) / 4)) by (nonlinear_arith)
        requires
            base % 4 == 0,
            a % 4 == 0,
            base <= a,
    ;
}

/// An aligned offset below the bank's span gives a word index below the
/// bank's length.
proof fn lemma_word_index_in_range(base: int, a: int, n: int)
    requires
        base % 4 == 0,
        a % 4 == 0,
        base <= a < base + 4 * n,
    ensures
        0 <= (a - base) / 4 < n,
        a == base + 4 * ((a - base) / 4),
{
    assert(a - base == 4 * ((a - base) / 4)) by (nonlinear_arith)
        requires
            base % 4 == 0,
            a % 4 == 0,
            base <= a,
    ;
}

/// Every address a sequence of well-formed banks maps is word-aligned and
/// lies in the 32-bit address space.
pub proof fn lemma_banks_view_bounds(banks: Seq<Bank>, a: int)
    requires
        forall|i: int| 0 <= i < banks.len() ==> (#[trigger] banks[i]).wf(),
        banks_view(banks).dom().contains(a),
    ensures
        0 <= a < 0x1_0000_0000,
        a % 4 == 0,
    decreases banks.len(),
{
    if banks.len() > 0 {
        if !banks.first()@.dom().contains(a) {
            lemma_banks_view_bounds(banks.drop_first(), a);
        }
    }
}

/// Every address a well-formed memory maps is word-aligned and lies in the
/// 32-bit address space.
pub proof fn lemma_memory_bounds(m: Memory)
    requires
        m.wf(),
    ensures
        forall|a: int|
            #[trigger] m@.dom().contains(a) ==> 0 <= a < 0x1_0000_0000 && a % 4 == 0,
{
    assert forall|a: int| #[trigger] m@.dom().contains(a) implies 0 <= a < 0x1_0000_0000 && a % 4
        == 0 by {
        lemma_banks_view_bounds(m.banks@, a);
    }
}

/// An address no bank covers is not mapped.
proof fn lemma_not_covered_not_mapped(banks: Seq<Bank>, a: int)
    requires
        forall|k: int| 0 <= k < banks.len() ==> !(#[trigger] banks[k]).covers(a),
    ensures
        !banks_view(banks).dom().contains(a),
    decreases banks.len(),
{
    if banks.len() > 0 {
        assert(!banks.first().covers(a));
        lemma_not_covered_not_mapped(banks.drop_first(), a);
    }
}

/// At an address whose earliest covering bank is `banks[i]`, the memory
/// reads that bank's word.
proof fn lemma_first_covering_bank(banks: Seq<Bank>, i: int, a: int)
    requires
        0 <= i < banks.len(),
        banks[i].covers(a),
        forall|k: int| 0 <= k < i ==> !(#[trigger] banks[k]).covers(a),
    ensures
        banks_view(banks).dom().contains(a),
        banks_view(banks)[a] == banks[i].words@[(a - banks[i].base) / 4],
    decreases i,
{
    if i == 0 {
        assert(banks.first()@.dom().contains(a));
    } else {
        assert(!banks.first().covers(a));
        lemma_first_covering_bank(banks.drop_first(), i - 1, a);
    }
}

/// Replacing, in the earliest bank covering `a`, the word at `a` by `val`
/// turns the memory's view into the view with `a` remapped to `val`.
proof fn lemma_write_first_covering(banks: Seq<Bank>, b1: Bank, i: int, a: int, val: u32)
    requires
        0 <= i < banks.len(),
        banks[i].base % 4 == 0,
        banks[i].covers(a),
        forall|k: int| 0 <= k < i ==> !(#[trigger] banks[k]).covers(a),
        b1.base == banks[i].base,
        b1.words@ == banks[i].words@.update((a - banks[i].base) / 4, val),
    ensures
        banks_view(banks.update(i, b1)) == banks_view(banks).insert(a, val),
    decreases i,
{
    let b0 = banks[i];
    let j = (a - b0.base) / 4;
    lemma_word_index_in_range(b0.base as int, a, b0.words@.len() as int);
    assert(forall|x: int| b1.covers(x) <==> b0.covers(x));
    if i == 0 {
        let rest = banks.drop_first();
        assert(banks.update(0, b1).drop_first() =~= rest);
        assert(banks.update(0, b1).first() == b1);
        let lhs = banks_view(rest).union_prefer_right(b1@);
        let rhs = banks_view(rest).union_prefer_right(b0@).insert(a, val);
        assert forall|x: int| lhs.dom().contains(x) <==> rhs.dom().contains(x) by {
            assert(b1@.dom().contains(x) <==> b1.covers(x));
            assert(b0@.dom().contains(x) <==> b0.covers(x));
        }
        assert forall|x: int| lhs.dom().contains(x) implies lhs[x] == rhs[x] by {
            if x == a {
                assert(b1@[x] == b1.words@[j]);
                assert(lhs[x] == val);
            } else if b0.covers(x) {
                lemma_word_index_in_range(b0.base as int, x, b0.words@.len() as int);
                assert((x - b0.base) / 4 != j) by {
                    if (x - b0.base) / 4 == j {
                        lemma_word_index_injective(b0.base as int, x, a);
                    }
                }
                assert(b1@[x] == b0@[x]);
            } else {
                assert(!b1.covers(x));
                assert(lhs[x] == banks_view(rest)[x]);
                assert(rhs[x] == banks_view(rest)[x]);
            }
        }
        assert(lhs =~= rhs);
    } else {
        let rest = banks.drop_first();
        let updated = banks.update(i, b1);
        assert(updated.drop_first() =~= rest.update(i - 1, b1));
        assert(updated.first() == banks.first());
        lemma_write_first_covering(rest, b1, i - 1, a, val);
        let head = banks.first()@;
        let m = banks_view(rest);
        assert(!banks.first().covers(a));
        assert(!head.dom().contains(a));
        assert(m.insert(a, val).union_prefer_right(head) =~= m.union_prefer_right(head).insert(
            a,
            val,
        ));
    }
}

impl Memory {
    /// Index of the earliest bank covering `addr`.
    fn find_bank(&self, addr: u32) -> (i: usize)
        requires
            self.wf(),
            self@.dom().contains(addr as int),
        ensures
            i < self.banks@.len(),
            self.banks@[i as int].covers(addr as int),
            forall|k: int| 0 <= k < i ==> !(#[trigger] self.banks@[k]).covers(addr as int),
    {
        proof {
            lemma_banks_view_bounds(self.banks@, addr as int);
        }
        let n = self.banks.len();
        let mut i: usize = 0;
        while i < n
            invariant
                self.wf(),
                self@.dom().contains(addr as int),
                n == self.banks@.len(),
                i <= n,
                addr as int % 4 == 0,
                forall|k: int| 0 <= k < i ==> !(#[trigger] self.banks@[k]).covers(addr as int),
            decreases n - i,
        {
            let bank = &self.banks[i];
            let span: u64 = 4u64 * (bank.words.len() as u64);
            if bank.base <= addr && ((addr - bank.base) as u64) < span {
                assert(self.banks@[i as int].covers(addr as int));
                return i;
            }
            assert(!self.banks@[i as int].covers(addr as int));
            i = i + 1;
        }
        proof {
            lemma_not_covered_not_mapped(self.banks@, addr as int);
            assert(false);
        }
        0
    }

    /// Read the word stored at the word-aligned byte address `addr`.
    pub fn read_word(&self, addr: u32) -> (w: u32)
        requires
            self.wf(),
            self@.dom().contains(addr as int),
        ensures
            w == self@[addr as int],
    {
        let i = self.find_bank(addr);
        let bank = &self.banks[i];
        proof {
            lemma_banks_view_bounds(self.banks@, addr as int);
            lemma_word_index_in_range(bank.base as int, addr as int, bank.words@.len() as int);
            lemma_first_covering_bank(self.banks@, i as int, addr as int);
        }
        let j = ((addr - bank.base) / 4) as usize;
        bank.words[j]
    }

    /// Write `val` to the word at the word-aligned byte address `addr`.
    /// Every other mapped address keeps its word.
    pub fn write_word(&mut self, addr: u32, val: u32)
        requires
            old(self).wf(),
            old(self)@.dom().contains(addr as int),
        ensures
            final(self).wf(),
            final(self)@ == old(self)@.insert(addr as int, val),
    {
        let i = self.find_bank(addr);
        proof {
            lemma_banks_view_bounds(self.banks@, addr as int);
            lemma_word_index_in_range(
                self.banks@[i as int].base as int,
                addr as int,
                self.banks@[i as int].words@.len() as int,
            );
        }
        let bank = &mut self.banks[i];
        let j = ((addr - bank.base) / 4) as usize;
        let w = &mut bank.words[j];
        *w = val;
        proof {
            let banks0 = old(self).banks@;
            let b1 = self.banks@[i as int];
            assert(self.banks@ =~= banks0.update(i as int, b1));
            assert(b1.words@ =~= banks0[i as int].words@.update(
                (addr as int - banks0[i as int].base) / 4,
                val,
            ));
            lemma_write_first_covering(banks0, b1, i as int, addr as int, val);
            assert forall|p: int, q: int| 0 <= p < q < self.banks@.len() implies (
            #[trigger] self.banks@[p]).base + 4 * self.banks@[p].words@.len() <= (
            #[trigger] self.banks@[q]).base || self.banks@[q].base + 4
                * self.banks@[q].words@.len() <= self.banks@[p].base by {
                assert(banks0[p].base + 4 * banks0[p].words@.len() <= banks0[q].base
                    || banks0[q].base + 4 * banks0[q].words@.len() <= banks0[p].base);
            }
        }
    }
}

} // verus!
