//! The symbol-naming layer.
//!
//! A region named `R` under the naming convention `(P_start, P_end, P_src)`
//! is bounded by the three linker symbols `P_start ++ R`, `P_end ++ R` and
//! `P_src ++ R`.  A [`SymbolTable`] stands for what the linker script
//! defined; resolving a declared section against it yields the three
//! addresses of a [`Region`].  The default convention uses the prefixes
//! `__s`, `__e` and `__si`, so a section `custom_data` is bounded by
//! `__scustom_data`, `__ecustom_data` and `__sicustom_data`.
//!
//! [`init_sections_with_prefixes`] is the declarative entry point: it
//! refuses duplicate section names and unresolved symbols (the analogues of
//! what a real build's toolchain would refuse), then validates and copies
//! every section's region in declaration order.  [`init_sections`] is the
//! same under the default convention.

use crate::init::first_bad;
use crate::init::init_regions_checked;
use crate::init::regions_image;
use crate::memory::Memory;
use crate::region::region_checks;
use crate::region::region_in_mem;
use crate::region::spec_check_region;
use crate::region::InitError;
use crate::region::Region;
use vstd::prelude::*;

verus! {

/// The three symbol-name prefixes of a naming convention, in the order
/// destination start, destination end, source start.
pub type ConvViews = (Seq<char>, Seq<char>, Seq<char>);

/// A declared section as its contracts see it: the section name and the
/// three prefixes.
pub type DeclViews = (Seq<char>, ConvViews);

/// A symbol-naming convention: the three prefixes put before a section's
/// name to form its boundary symbols.
pub struct NamingConvention {
    /// Prefix of the symbol naming the destination range's start.
    pub start_prefix: String,
    /// Prefix of the symbol naming the destination range's end.
    pub end_prefix: String,
    /// Prefix of the symbol naming the source range's start.
    pub src_prefix: String,
}

impl View for NamingConvention {
    type V = ConvViews;

    open spec fn view(&self) -> ConvViews {
        (self.start_prefix@, self.end_prefix@, self.src_prefix@)
    }
}

/// The default convention's prefixes: `__s`, `__e`, `__si`.
pub open spec fn default_convention_views() -> ConvViews {
    ("__s"@, "__e"@, "__si"@)
}

/// The default naming convention.
pub fn default_convention() -> (conv: NamingConvention)
    ensures
        conv@ == default_convention_views(),
{
    NamingConvention {
        start_prefix: String::from_str("__s"),
        end_prefix: String::from_str("__e"),
        src_prefix: String::from_str("__si"),
    }
}

/// A boundary symbol's name: the convention's prefix followed by the
/// section's name.
pub fn symbol_name(prefix: &str, section: &str) -> (name: String)
    ensures
        name@ == prefix@ + section@,
{
    let p = String::from_str(prefix);
    p.concat(section)
}

/// One linker-defined symbol: a name bound to an address.
pub struct Symbol {
    /// The symbol's name.
    pub name: String,
    /// The address the linker bound the name to.
    pub address: u32,
}

/// The symbols the linker script defined.
pub struct SymbolTable {
    /// The defined symbols; an earlier definition wins a name clash.
    pub symbols: Vec<Symbol>,
}

/// The address bound to `name`, from the earliest matching symbol.
pub open spec fn spec_lookup(symbols: Seq<Symbol>, name: Seq<char>) -> Option<u32>
    decreases symbols.len(),
{
    if symbols.len() == 0 {
        None
    } else if symbols.first().name@ == name {
        Some(symbols.first().address)
    } else {
        spec_lookup(symbols.drop_first(), name)
    }
}

impl SymbolTable {
    /// Look a symbol name up, as the linker would when binding a reference.
    pub fn lookup(&self, name: &String) -> (r: Option<u32>)
        ensures
            r == spec_lookup(self.symbols@, name@),
    {
        let n = self.symbols.len();
        let mut i: usize = 0;
        proof {
            assert(self.symbols@.skip(0) =~= self.symbols@);
        }
        while i < n
            invariant
                n == self.symbols@.len(),
                i <= n,
                spec_lookup(self.symbols@, name@) == spec_lookup(
                    self.symbols@.skip(i as int),
                    name@,
                ),
            decreases n - i,
        {
            let sym = &self.symbols[i];
            proof {
                assert(self.symbols@.skip(i as int).first() == self.symbols@[i as int]);
                assert(self.symbols@.skip(i as int).drop_first() =~= self.symbols@.skip(
                    i as int + 1,
                ));
            }
            if sym.name == *name {
                return Some(sym.address);
            }
            i = i + 1;
        }
        proof {
            assert(self.symbols@.skip(n as int) =~= Seq::<Symbol>::empty());
        }
        None
    }
}

/// The region a declared section resolves to: the addresses bound to its
/// three boundary symbols, or nothing when any of the three is undefined.
pub open spec fn spec_resolve(symbols: Seq<Symbol>, name: Seq<char>, conv: ConvViews) -> Option<
    Region,
> {
    match (
        spec_lookup(symbols, conv.0 + name),
        spec_lookup(symbols, conv.1 + name),
        spec_lookup(symbols, conv.2 + name),
    ) {
        (Some(ds), Some(de), Some(ss)) => Some(
            Region { dest_start: ds, dest_end: de, src_start: ss },
        ),
        _ => None,
    }
}

/// Resolve one section's three boundary symbols to a region.
pub fn resolve_section(table: &SymbolTable, name: &str, conv: &NamingConvention) -> (r: Option<
    Region,
>)
    ensures
        r == spec_resolve(table.symbols@, name@, conv@),
{
    let sname = symbol_name(conv.start_prefix.as_str(), name);
    let ename = symbol_name(conv.end_prefix.as_str(), name);
    let lname = symbol_name(conv.src_prefix.as_str(), name);
    let ds = table.lookup(&sname);
    let de = table.lookup(&ename);
    let ss = table.lookup(&lname);
    match (ds, de, ss) {
        (Some(dest_start), Some(dest_end), Some(src_start)) => Some(
            Region { dest_start, dest_end, src_start },
        ),
        _ => None,
    }
}

/// One declared section: its name and the convention naming its symbols.
pub struct SectionDecl {
    /// The section's name.
    pub name: String,
    /// The convention its boundary symbols follow.
    pub convention: NamingConvention,
}

impl View for SectionDecl {
    type V = DeclViews;

    open spec fn view(&self) -> DeclViews {
        (self.name@, self.convention@)
    }
}

/// A declaration list as its contracts see it.
pub open spec fn decl_views(decls: Seq<SectionDecl>) -> Seq<DeclViews> {
    Seq::new(decls.len(), |i: int| decls[i]@)
}

/// Declarations `p` and `q` name different sections.
pub open spec fn names_differ(dvs: Seq<DeclViews>, p: int, q: int) -> bool {
    dvs[p].0 != dvs[q].0
}

/// No two declarations name the same section.
pub open spec fn distinct_names(dvs: Seq<DeclViews>) -> bool {
    forall|p: int, q: int| 0 <= p < q < dvs.len() ==> #[trigger] names_differ(dvs, p, q)
}

/// Every declared section's three boundary symbols are defined.
pub open spec fn all_resolve(symbols: Seq<Symbol>, dvs: Seq<DeclViews>) -> bool {
    forall|i: int|
        0 <= i < dvs.len() ==> spec_resolve(symbols, (#[trigger] dvs[i]).0, dvs[i].1) is Some
}

/// The regions a declaration list resolves to, in declaration order.
pub open spec fn resolved_regions(symbols: Seq<Symbol>, dvs: Seq<DeclViews>) -> Seq<Region> {
    Seq::new(dvs.len(), |i: int| spec_resolve(symbols, dvs[i].0, dvs[i].1)->0)
}

/// What running a declaration list reports: the build-time refusals first
/// (a duplicate name, an undefined symbol), then the first failed
/// validation check, and success only past all of them.
pub open spec fn sections_outcome(symbols: Seq<Symbol>, dvs: Seq<DeclViews>) -> Result<
    (),
    InitError,
> {
    if !distinct_names(dvs) {
        Err(InitError::DuplicateSection)
    } else if !all_resolve(symbols, dvs) {
        Err(InitError::UnresolvedSymbol)
    } else {
        let rs = resolved_regions(symbols, dvs);
        if first_bad(rs) == rs.len() {
            Ok(())
        } else {
            spec_check_region(rs[first_bad(rs)])
        }
    }
}

/// The memory a declaration list leaves behind: untouched on a build-time
/// refusal, else the resolved regions' images up to the first region that
/// fails validation.
pub open spec fn sections_final_mem(
    mm: Map<int, u32>,
    symbols: Seq<Symbol>,
    dvs: Seq<DeclViews>,
) -> Map<int, u32> {
    if !distinct_names(dvs) || !all_resolve(symbols, dvs) {
        mm
    } else {
        let rs = resolved_regions(symbols, dvs);
        regions_image(mm, rs.take(first_bad(rs)))
    }
}

/// Every declared section whose region resolves and passes validation lies
/// in the memory.
pub open spec fn decls_in_mem(
    mm: Map<int, u32>,
    symbols: Seq<Symbol>,
    dvs: Seq<DeclViews>,
) -> bool {
    forall|i: int|
        0 <= i < dvs.len() ==> match spec_resolve(symbols, (#[trigger] dvs[i]).0, dvs[i].1) {
            Some(r) => region_checks(r) ==> region_in_mem(mm, r),
            None => true,
        }
}

/// Resolve a whole declaration list, refusing duplicate section names and
/// undefined boundary symbols as a real build's toolchain would.
pub fn resolve_sections(table: &SymbolTable, decls: &Vec<SectionDecl>) -> (res: Result<
    Vec<Region>,
    InitError,
>)
    ensures
        res is Ok <==> distinct_names(decl_views(decls@)) && all_resolve(
            table.symbols@,
            decl_views(decls@),
        ),
        res is Ok ==> res->Ok_0@ == resolved_regions(table.symbols@, decl_views(decls@)),
        !distinct_names(decl_views(decls@)) ==> res == Err::<Vec<Region>, InitError>(
            InitError::DuplicateSection,
        ),
        distinct_names(decl_views(decls@)) && !all_resolve(table.symbols@, decl_views(decls@))
            ==> res == Err::<Vec<Region>, InitError>(InitError::UnresolvedSymbol),
{
    let ghost dvs = decl_views(decls@);
    let n = decls.len();
    let mut i: usize = 0;
    while i < n
        invariant
            n == decls@.len(),
            i <= n,
            dvs == decl_views(decls@),
            forall|p: int, q: int|
                0 <= p < q < dvs.len() && p < i ==> #[trigger] names_differ(dvs, p, q),
        decreases n - i,
    {
        let mut j: usize = i + 1;
        while j < n
            invariant
                n == decls@.len(),
                i < n,
                i < j <= n,
                dvs == decl_views(decls@),
                forall|p: int, q: int|
                    0 <= p < q < dvs.len() && p < i ==> #[trigger] names_differ(dvs, p, q),
                forall|q: int| i < q < j ==> #[trigger] names_differ(dvs, i as int, q),
            decreases n - j,
        {
            let a = &decls[i];
            let b = &decls[j];
            if a.name == b.name {
                proof {
                    assert(!names_differ(dvs, i as int, j as int));
                    assert(!distinct_names(dvs));
                }
                return Err(InitError::DuplicateSection);
            }
            proof {
                assert(names_differ(dvs, i as int, j as int));
            }
            j = j + 1;
        }
        i = i + 1;
    }
    proof {
        assert(distinct_names(dvs));
    }
    let mut regions: Vec<Region> = Vec::new();
    let mut k: usize = 0;
    while k < n
        invariant
            n == decls@.len(),
            k <= n,
            dvs == decl_views(decls@),
            distinct_names(dvs),
            regions@.len() == k,
            forall|t: int|
                0 <= t < k ==> spec_resolve(table.symbols@, (#[trigger] dvs[t]).0, dvs[t].1)
                    is Some,
            forall|t: int|
                0 <= t < k ==> #[trigger] regions@[t] == spec_resolve(
                    table.symbols@,
                    dvs[t].0,
                    dvs[t].1,
                )->0,
        decreases n - k,
    {
        let d = &decls[k];
        match resolve_section(table, d.name.as_str(), &d.convention) {
            Some(r) => {
                regions.push(r);
            },
            None => {
                proof {
                    assert(spec_resolve(table.symbols@, dvs[k as int].0, dvs[k as int].1)
                        is None);
                    assert(!all_resolve(table.symbols@, dvs));
                }
                return Err(InitError::UnresolvedSymbol);
            },
        }
        k = k + 1;
    }
    proof {
        assert(regions@ =~= resolved_regions(table.symbols@, dvs));
    }
    Ok(regions)
}

/// Resolve, validate and copy every declared section, strictly in
/// declaration order: the table-driven form of a declarative section list
/// with per-section symbol prefixes.
pub fn init_sections_with_prefixes(
    mem: &mut Memory,
    table: &SymbolTable,
    decls: &Vec<SectionDecl>,
) -> (res: Result<(), InitError>)
    requires
        old(mem).wf(),
        decls_in_mem(old(mem)@, table.symbols@, decl_views(decls@)),
    ensures
        final(mem).wf(),
        res == sections_outcome(table.symbols@, decl_views(decls@)),
        final(mem)@ == sections_final_mem(old(mem)@, table.symbols@, decl_views(decls@)),
{
    let ghost dvs = decl_views(decls@);
    match resolve_sections(table, decls) {
        Ok(regions) => {
            proof {
                assert forall|t: int|
                    0 <= t < regions@.len() && region_checks(
                        #[trigger] regions@[t],
                    ) implies region_in_mem(old(mem)@, regions@[t]) by {
                    assert(regions@[t] == spec_resolve(table.symbols@, dvs[t].0, dvs[t].1)->0);
                }
            }
            let res = init_regions_checked(mem, &regions);
            proof {
                let rs = resolved_regions(table.symbols@, dvs);
                assert(regions@ == rs);
                if res is Ok {
                    assert(res->Ok_0 == ());
                    assert(res == Ok::<(), InitError>(()));
                }
                assert(res == sections_outcome(table.symbols@, dvs));
            }
            res
        },
        Err(e) => Err(e),
    }
}

/// The declaration views a plain name list stands for under the default
/// convention.
pub open spec fn default_decl_views(names: Seq<String>) -> Seq<DeclViews> {
    Seq::new(names.len(), |i: int| (names[i]@, default_convention_views()))
}

/// Resolve, validate and copy every named section under the default
/// convention: the shorthand form of [`init_sections_with_prefixes`].
pub fn init_sections(mem: &mut Memory, table: &SymbolTable, names: &Vec<String>) -> (res: Result<
    (),
    InitError,
>)
    requires
        old(mem).wf(),
        decls_in_mem(old(mem)@, table.symbols@, default_decl_views(names@)),
    ensures
        final(mem).wf(),
        res == sections_outcome(table.symbols@, default_decl_views(names@)),
        final(mem)@ == sections_final_mem(old(mem)@, table.symbols@, default_decl_views(names@)),
{
    let n = names.len();
    let mut decls: Vec<SectionDecl> = Vec::new();
    let mut i: usize = 0;
    while i < n
        invariant
            n == names@.len(),
            i <= n,
            decls@.len() == i,
            forall|k: int|
                0 <= k < i ==> (#[trigger] decls@[k])@ == (names@[k]@, default_convention_views()),
        decreases n - i,
    {
        let name = names[i].clone();
        let conv = default_convention();
        decls.push(SectionDecl { name, convention: conv });
        i = i + 1;
    }
    proof {
        assert(decl_views(decls@) =~= default_decl_views(names@));
    }
    init_sections_with_prefixes(mem, table, &decls)
}

} // verus!
