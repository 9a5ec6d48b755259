use linker_sections::memory::{Bank, Memory};
use linker_sections::region::{InitError, Region};
use linker_sections::symbols::{
    default_convention, init_sections, init_sections_with_prefixes, resolve_section,
    resolve_sections, symbol_name, NamingConvention, SectionDecl, Symbol, SymbolTable,
};

fn sym(name: &str, address: u32) -> Symbol {
    Symbol { name: name.to_string(), address }
}

fn filled(n: usize, value: u32) -> Vec<u32> {
    let mut v = Vec::new();
    for _ in 0..n {
        v.push(value);
    }
    v
}

fn custom_data_table() -> SymbolTable {
    SymbolTable {
        symbols: vec![
            sym("__scustom_data", 0x2000_4000),
            sym("__ecustom_data", 0x2000_4400),
            sym("__sicustom_data", 0x0800_1000),
        ],
    }
}

#[test]
fn symbol_name_concatenates() {
    assert_eq!(symbol_name("__s", "custom_data"), "__scustom_data");
    assert_eq!(symbol_name("__si", "custom_data"), "__sicustom_data");
    assert_eq!(symbol_name("", "x"), "x");
}

#[test]
fn lookup_finds_earliest_match() {
    let table = SymbolTable {
        symbols: vec![sym("a", 1), sym("b", 2), sym("a", 3)],
    };
    assert_eq!(table.lookup(&"a".to_string()), Some(1));
    assert_eq!(table.lookup(&"b".to_string()), Some(2));
    assert_eq!(table.lookup(&"c".to_string()), None);
}

#[test]
fn resolve_section_binds_three_symbols() {
    let table = custom_data_table();
    let conv = default_convention();
    let r = resolve_section(&table, "custom_data", &conv);
    assert_eq!(
        r,
        Some(Region {
            dest_start: 0x2000_4000,
            dest_end: 0x2000_4400,
            src_start: 0x0800_1000,
        })
    );
    assert_eq!(resolve_section(&table, "other", &conv), None);
}

#[test]
fn resolve_sections_rejects_duplicate_names() {
    let table = custom_data_table();
    let decls = vec![
        SectionDecl { name: "custom_data".to_string(), convention: default_convention() },
        SectionDecl { name: "custom_data".to_string(), convention: default_convention() },
    ];
    assert_eq!(resolve_sections(&table, &decls), Err(InitError::DuplicateSection));
}

#[test]
fn resolve_sections_rejects_missing_symbol() {
    let table = SymbolTable {
        symbols: vec![sym("__sa", 0x100), sym("__ea", 0x110)],
    };
    let decls = vec![SectionDecl { name: "a".to_string(), convention: default_convention() }];
    assert_eq!(resolve_sections(&table, &decls), Err(InitError::UnresolvedSymbol));
}

#[test]
fn custom_data_pattern_is_copied() {
    // The worked scenario: a 1024-byte section whose image is the repeating
    // word 0xDEAD_BEEF, loaded at 0x0800_1000 and running at 0x2000_4000.
    let mut mem = Memory {
        banks: vec![
            Bank { base: 0x0800_1000, words: filled(256, 0xDEAD_BEEF) },
            Bank { base: 0x2000_4000, words: filled(256, 0) },
        ],
    };
    let table = custom_data_table();
    let names = vec!["custom_data".to_string()];
    assert_eq!(init_sections(&mut mem, &table, &names), Ok(()));
    for k in 0..256u32 {
        assert_eq!(mem.read_word(0x2000_4000 + 4 * k), 0xDEAD_BEEF);
    }
}

#[test]
fn two_sections_fill_independently() {
    // Section `a` is 256 bytes, section `b` is 1024 bytes; each destination
    // takes its own image and nothing spills past either range.
    let mut flash = filled(64, 0xAAAA_5555);
    flash.extend(filled(256, 0x1234_5678));
    let mut mem = Memory {
        banks: vec![
            Bank { base: 0x0800_0000, words: flash },
            Bank { base: 0x2000_0000, words: filled(384, 0) },
        ],
    };
    let table = SymbolTable {
        symbols: vec![
            sym("__sa", 0x2000_0000),
            sym("__ea", 0x2000_0100),
            sym("__sia", 0x0800_0000),
            sym("__sb", 0x2000_0100),
            sym("__eb", 0x2000_0500),
            sym("__sib", 0x0800_0100),
        ],
    };
    let names = vec!["a".to_string(), "b".to_string()];
    assert_eq!(init_sections(&mut mem, &table, &names), Ok(()));
    for k in 0..64u32 {
        assert_eq!(mem.read_word(0x2000_0000 + 4 * k), 0xAAAA_5555);
    }
    for k in 0..256u32 {
        assert_eq!(mem.read_word(0x2000_0100 + 4 * k), 0x1234_5678);
    }
    // Words past section `b`'s end are untouched.
    assert_eq!(mem.read_word(0x2000_0500), 0);
    assert_eq!(mem.read_word(0x2000_05FC), 0);
}

#[test]
fn custom_prefixes_resolve() {
    let table = SymbolTable {
        symbols: vec![
            sym("start_of_buffers", 0x3000),
            sym("end_of_buffers", 0x3010),
            sym("load_of_buffers", 0x2000),
        ],
    };
    let mut mem = Memory {
        banks: vec![Bank { base: 0x2000, words: filled(8, 5) }, Bank {
            base: 0x3000,
            words: filled(4, 0),
        }],
    };
    let decls = vec![SectionDecl {
        name: "buffers".to_string(),
        convention: NamingConvention {
            start_prefix: "start_of_".to_string(),
            end_prefix: "end_of_".to_string(),
            src_prefix: "load_of_".to_string(),
        },
    }];
    assert_eq!(init_sections_with_prefixes(&mut mem, &table, &decls), Ok(()));
    for k in 0..4u32 {
        assert_eq!(mem.read_word(0x3000 + 4 * k), 5);
    }
}

#[test]
fn declared_sections_validate_before_copying() {
    // The destination range of `bad` overlaps its source: the run reports
    // the failed check and leaves the misdeclared section's memory alone.
    let mut mem = Memory { banks: vec![Bank { base: 0x1000, words: filled(16, 3) }] };
    let table = SymbolTable {
        symbols: vec![
            sym("__sbad", 0x1010),
            sym("__ebad", 0x1030),
            sym("__sibad", 0x1000),
        ],
    };
    let names = vec!["bad".to_string()];
    assert_eq!(init_sections(&mut mem, &table, &names), Err(InitError::RangesOverlap));
    for k in 0..16u32 {
        assert_eq!(mem.read_word(0x1000 + 4 * k), 3);
    }
}
