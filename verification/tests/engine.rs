//! Scenario tests for the verified engine, driving the model builder, the
//! extent estimator, the relocation resolver and the decoder with raw
//! records built by hand.

use objview::container::build_container;
use objview::loader::ContainerList;
use objview::model::{
    Container, FmtToken, FormatTag, RawSection, RawSymbol, RelocTarget, TokenKind,
};

fn code_section(index: usize, name: &str, address: u64, data: Vec<u8>) -> RawSection {
    RawSection { index, name: Some(name.as_bytes().to_vec()), address, data: Some(data) }
}

fn code_symbol(index: usize, name: &str, address: u64, section: Option<usize>) -> RawSymbol {
    RawSymbol {
        index,
        is_code: true,
        name: Some(name.as_bytes().to_vec()),
        address,
        size: 0,
        section,
    }
}

fn build(sections: Vec<RawSection>, relocs: Vec<Vec<(u64, RelocTarget)>>, symbols: Vec<RawSymbol>) -> Container {
    build_container(
        FormatTag::Elf,
        sections,
        relocs,
        symbols,
        String::from("test.o"),
        String::from("/tmp/test.o"),
    )
}

fn symbol_pos(c: &Container, name: &str) -> usize {
    let mut i = 0;
    while i < c.symbols.len() {
        if c.symbols[i].name == name {
            return i;
        }
        i += 1;
    }
    panic!("symbol not found: {}", name);
}

#[test]
fn two_symbols_extents() {
    let c = build(
        vec![code_section(1, ".text", 0x1000, vec![0u8; 0x80])],
        vec![vec![]],
        vec![code_symbol(0, "foo", 0x1000, Some(1)), code_symbol(1, "bar", 0x1040, Some(1))],
    );
    assert_eq!(c.estimate_size(symbol_pos(&c, "foo")), Some(0x40));
    assert_eq!(c.estimate_size(symbol_pos(&c, "bar")), Some(0x40));
}

#[test]
fn single_symbol_extent() {
    let c = build(
        vec![code_section(1, ".text", 0x2000, vec![0u8; 0x20])],
        vec![vec![]],
        vec![code_symbol(0, "only", 0x2000, Some(1))],
    );
    assert_eq!(c.estimate_size(symbol_pos(&c, "only")), Some(0x20));
}

#[test]
fn addresses_sorted_any_order() {
    let c = build(
        vec![code_section(1, ".text", 0x0, vec![0u8; 0x100])],
        vec![vec![]],
        vec![
            code_symbol(0, "c", 0x30, Some(1)),
            code_symbol(1, "a", 0x10, Some(1)),
            code_symbol(2, "b", 0x20, Some(1)),
            code_symbol(3, "a_again", 0x10, Some(1)),
        ],
    );
    assert_eq!(c.sections.len(), 1);
    assert_eq!(c.sections[0].symbol_addrs, vec![0x10, 0x20, 0x30]);
}

#[test]
fn extent_rejects_beyond_section_end() {
    let c = build(
        vec![code_section(1, ".text", 0x1000, vec![0u8; 0x10])],
        vec![vec![]],
        vec![code_symbol(0, "astray", 0x2000, Some(1))],
    );
    assert_eq!(c.estimate_size(symbol_pos(&c, "astray")), None);
    assert!(c.data(symbol_pos(&c, "astray")).is_none());
}

#[test]
fn extent_rejects_overflowing_section_end() {
    let c = build(
        vec![code_section(1, ".text", u64::MAX - 5, vec![0u8; 16])],
        vec![vec![]],
        vec![code_symbol(0, "edge", u64::MAX - 5, Some(1))],
    );
    assert_eq!(c.estimate_size(symbol_pos(&c, "edge")), None);
    assert!(c.data(symbol_pos(&c, "edge")).is_none());
    assert!(c.assembly(symbol_pos(&c, "edge")).is_none());
}

#[test]
fn data_exact_slice() {
    let bytes: Vec<u8> = (0u8..0x20u8).collect();
    let c = build(
        vec![code_section(1, ".text", 0x100, bytes)],
        vec![vec![]],
        vec![code_symbol(0, "head", 0x104, Some(1)), code_symbol(1, "tail", 0x108, Some(1))],
    );
    let d = c.data(symbol_pos(&c, "head")).expect("span available");
    assert_eq!(d, &[4u8, 5, 6, 7]);
}

#[test]
fn unlinked_symbol_has_no_extent() {
    let c = build(
        vec![code_section(1, ".text", 0x0, vec![0u8; 8])],
        vec![vec![]],
        vec![code_symbol(0, "loose", 0x0, None)],
    );
    let p = symbol_pos(&c, "loose");
    assert_eq!(c.estimate_size(p), None);
    assert!(c.data(p).is_none());
    assert!(c.assembly(p).is_none());
}

#[test]
fn dropped_section_leaves_symbol_unlinked() {
    let dropped = RawSection { index: 2, name: None, address: 0x0, data: Some(vec![0u8; 8]) };
    let c = build(
        vec![dropped],
        vec![vec![]],
        vec![code_symbol(0, "ghostly", 0x0, Some(2))],
    );
    assert_eq!(c.sections.len(), 0);
    let p = symbol_pos(&c, "ghostly");
    assert!(c.symbols[p].section.is_none());
    assert_eq!(c.estimate_size(p), None);
}

#[test]
fn non_code_symbols_excluded() {
    let data_sym = RawSymbol {
        index: 5,
        is_code: false,
        name: Some(b"datum".to_vec()),
        address: 0x4,
        size: 0,
        section: Some(1),
    };
    let c = build(
        vec![code_section(1, ".text", 0x0, vec![0u8; 8])],
        vec![vec![]],
        vec![code_symbol(0, "f", 0x0, Some(1)), data_sym],
    );
    assert_eq!(c.symbols.len(), 1);
    assert_eq!(c.symbols[0].name, "f");
    assert_eq!(c.sections[0].symbol_addrs, vec![0x0]);
}

#[test]
fn symbols_sorted_by_name() {
    let c = build(
        vec![code_section(1, ".text", 0x0, vec![0u8; 0x30])],
        vec![vec![]],
        vec![
            code_symbol(0, "zed", 0x20, Some(1)),
            code_symbol(1, "alpha", 0x0, Some(1)),
            code_symbol(2, "mid", 0x10, Some(1)),
        ],
    );
    let names: Vec<&str> = c.symbols.iter().map(|s| s.name.as_str()).collect();
    assert_eq!(names, vec!["alpha", "mid", "zed"]);
}

#[test]
fn lossy_name_replacement() {
    let bad = RawSymbol {
        index: 0,
        is_code: true,
        name: Some(vec![0xffu8, b'x']),
        address: 0x0,
        size: 0,
        section: Some(1),
    };
    let c = build(vec![code_section(1, ".text", 0x0, vec![0u8; 4])], vec![vec![]], vec![bad]);
    assert_eq!(c.symbols.len(), 1);
    assert!(c.symbols[0].name.contains('\u{FFFD}'));
    assert!(c.symbols[0].name.contains('x'));
}

#[test]
fn demangles_cpp_name() {
    let c = build(
        vec![code_section(1, ".text", 0x0, vec![0u8; 4])],
        vec![vec![]],
        vec![code_symbol(0, "_ZN3foo3barEv", 0x0, Some(1))],
    );
    let d = c.symbols[0].demangled.as_ref().expect("demangles");
    assert!(d.contains("foo::bar"));
}

#[test]
fn plain_name_demangles_to_none() {
    let c = build(
        vec![code_section(1, ".text", 0x0, vec![0u8; 4])],
        vec![vec![]],
        vec![code_symbol(0, "plain_name", 0x0, Some(1))],
    );
    assert!(c.symbols[0].demangled.is_none());
}

#[test]
fn zero_length_assembly_empty() {
    // A symbol sitting exactly at the end of its section spans zero bytes:
    // decoding yields an empty sequence, not a failure.
    let c = build(
        vec![code_section(1, ".text", 0x1000, vec![0x90u8; 0x10])],
        vec![vec![]],
        vec![code_symbol(0, "terminal", 0x1010, Some(1))],
    );
    let p = symbol_pos(&c, "terminal");
    assert_eq!(c.estimate_size(p), Some(0));
    let a = c.assembly(p).expect("empty assembly, not a failure");
    assert_eq!(a.instructions.len(), 0);
}

#[test]
fn decode_nop_ret() {
    let c = build(
        vec![code_section(1, ".text", 0x1000, vec![0x90u8, 0xC3])],
        vec![vec![]],
        vec![code_symbol(0, "f", 0x1000, Some(1))],
    );
    let a = c.assembly(symbol_pos(&c, "f")).expect("assembly");
    assert_eq!(a.instructions.len(), 2);
    assert_eq!(a.instructions[0].address, 0x1000);
    assert_eq!(a.instructions[1].address, 0x1001);
    assert_eq!(a.instructions[0].bytes, vec![0x90]);
    assert_eq!(a.instructions[1].bytes, vec![0xC3]);
    assert_eq!(a.instructions[0].tokens[0].kind, TokenKind::Mnemonic);
    assert!(a.instructions[0].tokens[0].text.contains("nop"));
    assert!(a.instructions[1].tokens[0].text.contains("ret"));
    assert!(a.instructions[0].relocation.is_none());
}

fn mov_rip_relative() -> Vec<u8> {
    // mov eax, dword ptr [rip + 0x10]
    vec![0x8Bu8, 0x05, 0x10, 0x00, 0x00, 0x00]
}

#[test]
fn relocation_substitutes_display_name() {
    let baz = RawSymbol {
        index: 7,
        is_code: true,
        name: Some(b"baz".to_vec()),
        address: 0x2000,
        size: 0,
        section: None,
    };
    let c = build(
        vec![code_section(1, ".text", 0x1000, mov_rip_relative())],
        vec![vec![(0x1000, RelocTarget::Symbol(7))]],
        vec![code_symbol(0, "quux", 0x1000, Some(1)), baz],
    );
    let a = c.assembly(symbol_pos(&c, "quux")).expect("assembly");
    assert_eq!(a.instructions.len(), 1);
    let inst = &a.instructions[0];
    assert_eq!(inst.relocation, Some(symbol_pos(&c, "baz")));
    assert!(inst.tokens.iter().any(|t| t.text == "baz"));
    assert!(inst.tokens.iter().all(|t| t.kind != TokenKind::Number));
    let joined: String = inst.tokens.iter().map(|t| t.text.as_str()).collect();
    assert!(!joined.contains("10"));
}

#[test]
fn unresolved_relocation_keeps_raw_number() {
    let c = build(
        vec![code_section(1, ".text", 0x1000, mov_rip_relative())],
        vec![vec![(0x1000, RelocTarget::Symbol(99))]],
        vec![code_symbol(0, "quux", 0x1000, Some(1))],
    );
    let a = c.assembly(symbol_pos(&c, "quux")).expect("assembly");
    let inst = &a.instructions[0];
    assert!(inst.relocation.is_none());
    assert!(inst.tokens.iter().any(|t| t.kind == TokenKind::Number));
}

#[test]
fn non_symbol_relocation_gives_no_substitution() {
    let c = build(
        vec![code_section(1, ".text", 0x1000, mov_rip_relative())],
        vec![vec![(0x1000, RelocTarget::Section(1)), (0x1002, RelocTarget::Symbol(0))]],
        vec![code_symbol(0, "quux", 0x1000, Some(1))],
    );
    // The first fixup in ascending offset order wins, and its target is not
    // a symbol, so nothing is substituted.
    let a = c.assembly(symbol_pos(&c, "quux")).expect("assembly");
    let inst = &a.instructions[0];
    assert!(inst.relocation.is_none());
    assert!(inst.tokens.iter().any(|t| t.kind == TokenKind::Number));
}

#[test]
fn substitute_tokens_scenario() {
    let toks = vec![
        FmtToken { text: String::from("mov"), kind: TokenKind::Mnemonic },
        FmtToken { text: String::from(" "), kind: TokenKind::Other },
        FmtToken { text: String::from("eax"), kind: TokenKind::Register },
        FmtToken { text: String::from(", "), kind: TokenKind::Other },
        FmtToken { text: String::from("5"), kind: TokenKind::Number },
    ];
    let out = objview::disasm::substitute_tokens(toks, &String::from("baz"));
    let texts: Vec<&str> = out.iter().map(|t| t.text.as_str()).collect();
    assert_eq!(texts, vec!["mov", " ", "eax", ", ", "baz"]);
    assert_eq!(out[4].kind, TokenKind::Other);
}

#[test]
fn truncated_tail_ends_sequence() {
    // A full instruction followed by a lone, incomplete opcode: the decoded
    // sequence ends after the last fully decoded instruction.
    let c = build(
        vec![code_section(1, ".text", 0x1000, vec![0x90u8, 0x8B])],
        vec![vec![]],
        vec![code_symbol(0, "f", 0x1000, Some(1))],
    );
    let a = c.assembly(symbol_pos(&c, "f")).expect("assembly");
    assert_eq!(a.instructions.len(), 1);
    assert_eq!(a.instructions[0].bytes, vec![0x90]);
}

#[test]
fn duplicate_addresses_share_extent() {
    let c = build(
        vec![code_section(1, ".text", 0x0, vec![0u8; 0x40])],
        vec![vec![]],
        vec![
            code_symbol(0, "first_alias", 0x10, Some(1)),
            code_symbol(1, "second_alias", 0x10, Some(1)),
            code_symbol(2, "after", 0x20, Some(1)),
        ],
    );
    assert_eq!(c.sections[0].symbol_addrs, vec![0x10, 0x20]);
    assert_eq!(c.estimate_size(symbol_pos(&c, "first_alias")), Some(0x10));
    assert_eq!(c.estimate_size(symbol_pos(&c, "second_alias")), Some(0x10));
}

#[test]
fn later_relocation_record_replaces_earlier() {
    let baz = RawSymbol {
        index: 7,
        is_code: true,
        name: Some(b"baz".to_vec()),
        address: 0x2000,
        size: 0,
        section: None,
    };
    let c = build(
        vec![code_section(1, ".text", 0x1000, mov_rip_relative())],
        vec![vec![(0x1000, RelocTarget::Symbol(99)), (0x1000, RelocTarget::Symbol(7))]],
        vec![code_symbol(0, "quux", 0x1000, Some(1)), baz],
    );
    let a = c.assembly(symbol_pos(&c, "quux")).expect("assembly");
    assert_eq!(a.instructions[0].relocation, Some(symbol_pos(&c, "baz")));
}

#[test]
fn open_object_rejects_garbage() {
    let mut list = ContainerList::new();
    let added = list.open_object(
        &vec![1u8, 2, 3, 4],
        String::from("junk"),
        String::from("/tmp/junk"),
    );
    assert!(!added);
    assert_eq!(list.containers.len(), 0);
}
