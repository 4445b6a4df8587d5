//! Tests that drive the loader with real object-file and archive bytes,
//! exercising the container parser, the demanglers and the decoder end to
//! end.

use objview::loader::ContainerList;
use objview::model::FormatTag;

/// Builds a small relocatable ELF object with one code section holding a
/// `nop; ret` body and the given code symbols at the given offsets.
fn little_elf(symbols: &[(&str, u64)]) -> Vec<u8> {
    let mut obj = object::write::Object::new(
        object::BinaryFormat::Elf,
        object::Architecture::X86_64,
        object::Endianness::Little,
    );
    let text = obj.add_section(Vec::new(), b".text".to_vec(), object::SectionKind::Text);
    obj.append_section_data(text, &[0x90u8, 0x90, 0x90, 0xC3], 1);
    for (name, value) in symbols {
        obj.add_symbol(object::write::Symbol {
            name: name.as_bytes().to_vec(),
            value: *value,
            size: 0,
            kind: object::SymbolKind::Text,
            scope: object::SymbolScope::Linkage,
            weak: false,
            section: object::write::SymbolSection::Section(text),
            flags: object::SymbolFlags::None,
        });
    }
    obj.write().expect("a valid object")
}

/// Lays out one member of a Unix archive.
fn archive_member(name: &str, data: &[u8]) -> Vec<u8> {
    let mut out = Vec::new();
    let mut header = format!("{:<16}", name);
    header.push_str(&format!("{:<12}", 0));
    header.push_str(&format!("{:<6}", 0));
    header.push_str(&format!("{:<6}", 0));
    header.push_str(&format!("{:<8}", 644));
    header.push_str(&format!("{:<10}", data.len()));
    header.push_str("`\n");
    out.extend_from_slice(header.as_bytes());
    out.extend_from_slice(data);
    if data.len() % 2 == 1 {
        out.push(b'\n');
    }
    out
}

fn archive(members: &[(&str, &[u8])]) -> Vec<u8> {
    let mut out = b"!<arch>\n".to_vec();
    for (name, data) in members {
        out.extend_from_slice(&archive_member(name, data));
    }
    out
}

#[test]
fn parse_elf_extracts_symbols() {
    let bytes = little_elf(&[("alpha", 0), ("omega", 3)]);
    let mut list = ContainerList::new();
    let added = list.open_object(&bytes, String::from("t.o"), String::from("/tmp/t.o"));
    assert!(added);
    assert_eq!(list.containers.len(), 1);
    let c = &list.containers[0];
    assert_eq!(c.format, FormatTag::Elf);
    assert_eq!(c.name, "t.o");
    let names: Vec<&str> = c.symbols.iter().map(|s| s.name.as_str()).collect();
    assert_eq!(names, vec!["alpha", "omega"]);
    let alpha = &c.symbols[0];
    assert_eq!(alpha.address, 0);
    assert!(alpha.section.is_some());
}

#[test]
fn parse_elf_extents_and_decode() {
    let bytes = little_elf(&[("alpha", 0), ("omega", 3)]);
    let mut list = ContainerList::new();
    list.open_object(&bytes, String::from("t.o"), String::from("/tmp/t.o"));
    let c = &list.containers[0];
    assert_eq!(c.estimate_size(0), Some(3));
    assert_eq!(c.estimate_size(1), Some(1));
    assert_eq!(c.data(0).expect("span"), &[0x90u8, 0x90, 0x90]);
    let a = c.assembly(1).expect("assembly");
    assert_eq!(a.instructions.len(), 1);
    assert!(a.instructions[0].tokens[0].text.contains("ret"));
}

#[test]
fn reparse_is_deterministic() {
    let bytes = little_elf(&[("one", 0), ("two", 2)]);
    let mut list = ContainerList::new();
    list.open_object(&bytes, String::from("a.o"), String::from("/p"));
    list.open_object(&bytes, String::from("a.o"), String::from("/p"));
    assert_eq!(list.containers.len(), 2);
    let c1 = &list.containers[0];
    let c2 = &list.containers[1];
    assert_eq!(c1.symbols.len(), c2.symbols.len());
    for (s1, s2) in c1.symbols.iter().zip(c2.symbols.iter()) {
        assert_eq!(s1.address, s2.address);
        assert_eq!(s1.name, s2.name);
        assert_eq!(s1.demangled, s2.demangled);
    }
}

#[test]
fn archive_with_corrupt_member_yields_one_container() {
    let good = little_elf(&[("member_fn", 0)]);
    let junk = [0xDEu8, 0xAD, 0xBE, 0xEF, 0x00, 0x01, 0x02];
    let ar = archive(&[("good.o/", &good), ("bad.o/", &junk)]);
    let mut list = ContainerList::new();
    list.open_buffer(&ar, String::from("lib.a"), String::from("/tmp/lib.a"));
    assert_eq!(list.containers.len(), 1);
    assert_eq!(list.containers[0].symbols.len(), 1);
    assert_eq!(list.containers[0].symbols[0].name, "member_fn");
}

#[test]
fn open_buffer_plain_object() {
    let bytes = little_elf(&[("f", 0)]);
    let mut list = ContainerList::new();
    list.open_buffer(&bytes, String::from("t.o"), String::from("/tmp/t.o"));
    assert_eq!(list.containers.len(), 1);
}

#[test]
fn open_buffer_garbage_yields_nothing() {
    let mut list = ContainerList::new();
    list.open_buffer(&vec![0u8; 64], String::from("zeros"), String::from("/tmp/zeros"));
    assert_eq!(list.containers.len(), 0);
}

#[test]
fn elf_relocation_resolves_and_substitutes() {
    // A RIP-relative load whose displacement carries a real ELF relocation
    // against a code symbol defined in another section: the decoder must
    // render the target's name instead of the raw displacement.
    let mut obj = object::write::Object::new(
        object::BinaryFormat::Elf,
        object::Architecture::X86_64,
        object::Endianness::Little,
    );
    let text = obj.add_section(Vec::new(), b".text".to_vec(), object::SectionKind::Text);
    // mov eax, dword ptr [rip + 0]
    obj.append_section_data(text, &[0x8Bu8, 0x05, 0x00, 0x00, 0x00, 0x00], 1);
    obj.add_symbol(object::write::Symbol {
        name: b"loader_fn".to_vec(),
        value: 0,
        size: 0,
        kind: object::SymbolKind::Text,
        scope: object::SymbolScope::Linkage,
        weak: false,
        section: object::write::SymbolSection::Section(text),
        flags: object::SymbolFlags::None,
    });
    let other = obj.add_section(Vec::new(), b".text.other".to_vec(), object::SectionKind::Text);
    obj.append_section_data(other, &[0xC3u8], 1);
    let ext = obj.add_symbol(object::write::Symbol {
        name: b"ext_target".to_vec(),
        value: 0,
        size: 0,
        kind: object::SymbolKind::Text,
        scope: object::SymbolScope::Linkage,
        weak: false,
        section: object::write::SymbolSection::Section(other),
        flags: object::SymbolFlags::None,
    });
    obj.add_relocation(
        text,
        object::write::Relocation {
            offset: 2,
            symbol: ext,
            addend: -4,
            flags: object::RelocationFlags::Generic {
                kind: object::RelocationKind::Relative,
                encoding: object::RelocationEncoding::Generic,
                size: 32,
            },
        },
    )
    .expect("relocation accepted");
    let bytes = obj.write().expect("a valid object");

    let mut list = ContainerList::new();
    assert!(list.open_object(&bytes, String::from("r.o"), String::from("/tmp/r.o")));
    let c = &list.containers[0];
    let loader_pos = c
        .symbols
        .iter()
        .position(|s| s.name == "loader_fn")
        .expect("defined symbol present");
    let target_pos = c
        .symbols
        .iter()
        .position(|s| s.name == "ext_target")
        .expect("target code symbol present");
    let a = c.assembly(loader_pos).expect("assembly");
    assert_eq!(a.instructions.len(), 1);
    let inst = &a.instructions[0];
    assert_eq!(inst.relocation, Some(target_pos));
    assert!(inst.tokens.iter().any(|t| t.text == "ext_target"));
    assert!(inst.tokens.iter().all(|t| t.kind != objview::model::TokenKind::Number));
}

#[test]
fn demangled_rust_symbol_from_elf() {
    let bytes = little_elf(&[("_ZN4core3fmt5write17h0123456789abcdefE", 0)]);
    let mut list = ContainerList::new();
    list.open_object(&bytes, String::from("t.o"), String::from("/tmp/t.o"));
    let sym = &list.containers[0].symbols[0];
    let d = sym.demangled.as_ref().expect("demangles");
    assert!(d.contains("core::fmt::write"));
}
