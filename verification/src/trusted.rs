//! The trusted boundary: the few places where the engine calls into the
//! container parser (`object`), the demanglers (`symbolic`), the instruction
//! decoder and formatter (`iced_x86`), and the two std conversions that vstd
//! gives no specification. Everything else in the crate is verified against
//! the contracts stated here.
//!
//! Parsing, lossy decoding and demangling are functions of their byte or
//! string argument alone, so their results are named by uninterpreted spec
//! functions: the contracts of the verified model builder then pin its result
//! to those names, which makes re-parsing the same buffer provably
//! deterministic.

use vstd::prelude::*;

use crate::model::{FmtToken, FormatTag, RawMember, RawSection, RawSymbol, RelocTarget, TokenKind, TokenModel};
use object::{Object, ObjectSection, ObjectSymbol};
use symbolic_demangle::Demangle;
use iced_x86::Formatter;
use iced_x86::OpKind;

verus! {

/// What parsing a buffer as an object file reports as its format, or `None`
/// when the buffer is not a valid object file.
pub uninterp spec fn parsed_format(data: Seq<u8>) -> Option<FormatTag>;

/// The raw section records that parsing a buffer as an object file yields,
/// in the order the file reports them, or `None` when parsing fails.
pub uninterp spec fn parsed_sections(data: Seq<u8>) -> Option<Seq<crate::model::RawSectionModel>>;

/// The raw symbol records that parsing a buffer as an object file yields,
/// in the order the file reports them, or `None` when parsing fails.
pub uninterp spec fn parsed_symbols(data: Seq<u8>) -> Option<Seq<crate::model::RawSymbolModel>>;

/// The `(address, target)` relocation records of the section with the given
/// native index, in the order the file reports them; `None` when the buffer
/// does not parse or has no such section.
pub uninterp spec fn parsed_relocations(data: Seq<u8>, section_index: usize) -> Option<
    Seq<(u64, RelocTarget)>,
>;

/// The member records that parsing a buffer as a Unix archive yields, one
/// entry per member in archive order (`None` for a member that cannot be
/// read), or `None` when the buffer is not an archive.
pub uninterp spec fn parsed_members(data: Seq<u8>) -> Option<Seq<Option<crate::model::MemberModel>>>;

/// The lossy UTF-8 decoding of a byte sequence: invalid byte sequences are
/// replaced, never an error.
pub uninterp spec fn lossy_utf8(bytes: Seq<u8>) -> Seq<char>;

/// The best-effort demangling of a symbol name, or `None` when no supported
/// mangling scheme applies.
pub uninterp spec fn demangled_of(name: Seq<char>) -> Option<Seq<char>>;

/// Spec view of an optional vector of records.
pub open spec fn opt_records_view<T: View>(v: Option<Vec<T>>) -> Option<Seq<T::V>> {
    match v {
        Some(x) => Some(x@.map_values(|t: T| t@)),
        None => None,
    }
}

/// Spec view of an optional vector of optional records.
pub open spec fn opt_entries_view<T: View>(v: Option<Vec<Option<T>>>) -> Option<
    Seq<Option<T::V>>,
> {
    match v {
        Some(x) => Some(
            x@.map_values(
                |t: Option<T>|
                    match t {
                        Some(m) => Some(m@),
                        None => None,
                    },
            ),
        ),
        None => None,
    }
}

/// Spec view of an optional string.
pub open spec fn opt_string_view(v: Option<String>) -> Option<Seq<char>> {
    match v {
        Some(s) => Some(s@),
        None => None,
    }
}

/// Relies on `object::File::parse` and `File::format`: the detected format of
/// the buffer, a function of the bytes alone.
#[verifier::external_body]
pub(crate) fn parse_format(data: &Vec<u8>) -> (r: Option<FormatTag>)
    ensures
        r == parsed_format(data@),
{
    match object::File::parse(data.as_slice()).ok().map(|f| f.format()) {
        None => None,
        Some(object::BinaryFormat::Coff) => Some(FormatTag::Coff),
        Some(object::BinaryFormat::Elf) => Some(FormatTag::Elf),
        Some(object::BinaryFormat::MachO) => Some(FormatTag::MachO),
        Some(object::BinaryFormat::Pe) => Some(FormatTag::Pe),
        Some(object::BinaryFormat::Wasm) => Some(FormatTag::Wasm),
        Some(object::BinaryFormat::Xcoff) => Some(FormatTag::Xcoff),
        Some(_) => Some(FormatTag::Unknown),
    }
}

/// Relies on `object::File::parse` and `ObjectSection`'s accessors: one raw
/// record per section, in file order, with `None` for a name or content that
/// the file does not yield.
#[verifier::external_body]
pub(crate) fn parse_sections(data: &Vec<u8>) -> (r: Option<Vec<RawSection>>)
    ensures
        opt_records_view(r) == parsed_sections(data@),
{
    let f = object::File::parse(data.as_slice()).ok()?;
    Some(
        f.sections().map(
            |s| RawSection {
                index: s.index().0,
                name: s.name_bytes().ok().map(|b| b.to_vec()),
                address: s.address(),
                data: s.uncompressed_data().ok().map(|d| d.into_owned()),
            },
        ).collect(),
    )
}

/// Relies on `object::File::parse` and `ObjectSymbol`'s accessors: one raw
/// record per symbol, in symbol-table order; `is_code` reports whether the
/// symbol's kind is executable code (`SymbolKind::Text`).
#[verifier::external_body]
pub(crate) fn parse_symbols(data: &Vec<u8>) -> (r: Option<Vec<RawSymbol>>)
    ensures
        opt_records_view(r) == parsed_symbols(data@),
{
    let f = object::File::parse(data.as_slice()).ok()?;
    Some(
        f.symbols().map(
            |s| RawSymbol {
                index: s.index().0,
                is_code: s.kind() == object::SymbolKind::Text,
                name: s.name_bytes().ok().map(|b| b.to_vec()),
                address: s.address(),
                size: s.size(),
                section: s.section().index().map(|i| i.0),
            },
        ).collect(),
    )
}

/// Relies on `object::File::section_by_index` and
/// `ObjectSection::relocations`: the fixup records of one section, in the
/// order the file reports them, with each target told apart by kind.
#[verifier::external_body]
pub(crate) fn parse_relocations(data: &Vec<u8>, section_index: usize) -> (r: Option<
    Vec<(u64, RelocTarget)>,
>)
    ensures
        (match r {
            Some(v) => Some(v@),
            None => None,
        }) == parsed_relocations(data@, section_index),
{
    let f = object::File::parse(data.as_slice()).ok()?;
    let s = f.section_by_index(object::SectionIndex(section_index)).ok()?;
    Some(
        s.relocations().map(
            |(a, r)| (
                a,
                match r.target() {
                    object::RelocationTarget::Symbol(i) => RelocTarget::Symbol(i.0),
                    object::RelocationTarget::Section(i) => RelocTarget::Section(i.0),
                    _ => RelocTarget::Other,
                },
            ),
        ).collect(),
    )
}

/// Relies on `object::read::archive::ArchiveFile`: the named members of a
/// Unix archive in order, each with its bytes when they can be read; an
/// unreadable member yields `None` in its place.
#[verifier::external_body]
pub(crate) fn parse_archive(data: &Vec<u8>) -> (r: Option<Vec<Option<RawMember>>>)
    ensures
        opt_entries_view(r) == parsed_members(data@),
{
    let a = object::read::archive::ArchiveFile::parse(data.as_slice()).ok()?;
    Some(
        a.members().map(
            |m| m.ok().map(
                |m| RawMember {
                    name: m.name().to_vec(),
                    data: m.data(data.as_slice()).ok().map(|d| d.to_vec()),
                },
            ),
        ).collect(),
    )
}

/// Relies on `String::from_utf8_lossy`: invalid byte sequences are replaced,
/// the result depends on the bytes alone.
#[verifier::external_body]
pub(crate) fn lossy_string(bytes: &[u8]) -> (r: String)
    ensures
        r@ == lossy_utf8(bytes@),
{
    String::from_utf8_lossy(bytes).into_owned()
}

/// Relies on `symbolic_demangle::Demangle::demangle` with complete options:
/// best-effort demangling, a function of the name alone, `None` on failure.
#[verifier::external_body]
pub(crate) fn demangle_name(name: &str) -> (r: Option<String>)
    ensures
        opt_string_view(r) == demangled_of(name@),
{
    symbolic_common::Name::from(name).demangle(symbolic_demangle::DemangleOptions::complete())
}

/// What decoding and Intel-formatting one instruction yields from the given
/// code bytes with the given instruction pointer: the count of bytes it
/// consumes and its classified token stream, or `None` when the bytes are
/// exhausted or do not begin with a valid encoding. Decoder and formatter
/// read nothing but their arguments, so the result is a function of the two
/// alone.
pub uninterp spec fn step_of(code: Seq<u8>, ip: u64) -> Option<(usize, Seq<TokenModel>)>;

/// Spec view of an optional decode-and-format step result.
pub open spec fn step_view(r: Option<(usize, Vec<FmtToken>)>) -> Option<(usize, Seq<TokenModel>)> {
    match r {
        Some(p) => Some((p.0, p.1@.map_values(|t: FmtToken| t@))),
        None => None,
    }
}

/// Relies on `iced_x86::Decoder` and `iced_x86::IntelFormatter`: decodes one
/// instruction at `pos` and renders its tokens (mnemonic, separators, and
/// each formatter operand classified by the helpers below). The result is
/// the named step of the remaining bytes; a decoded instruction consumes at
/// least one byte and never bytes beyond the end of the buffer.
#[verifier::external_body]
pub(crate) fn decode_format_step(bytes: &[u8], pos: usize, ip: u64) -> (r: Option<
    (usize, Vec<FmtToken>),
>)
    requires
        pos <= bytes@.len(),
    ensures
        step_view(r) == step_of(bytes@.skip(pos as int), ip),
        match r {
            Some(p) => 1 <= p.0 && pos + p.0 <= bytes@.len(),
            None => true,
        },
{
    let mut d = iced_x86::Decoder::with_ip(64, &bytes[pos..], ip, iced_x86::DecoderOptions::NONE);
    if !d.can_decode() { return None; }
    let inst = d.decode();
    if inst.is_invalid() { return None; }
    let mut toks = vec![FmtToken { text: mnemonic_text(&inst), kind: TokenKind::Mnemonic }];
    for i in 0..operand_count_of(&inst) {
        let sep = if i == 0 { " " } else { ", " };
        toks.push(FmtToken { text: sep.to_owned(), kind: TokenKind::Other });
        if let Some(t) = operand_text(&inst, i) {
            toks.push(FmtToken { text: t, kind: operand_kind(&inst, i) });
        }
    }
    Some((d.position(), toks))
}

/// Relies on `iced_x86::IntelFormatter::format_mnemonic`: the Intel-syntax
/// text of the instruction's prefixes and mnemonic. Serves the body of
/// `decode_format_step`.
#[verifier::external_body]
pub(crate) fn mnemonic_text(instr: &iced_x86::Instruction) -> (r: String) {
    let mut f = iced_x86::IntelFormatter::new();
    let mut s = String::new();
    f.format_mnemonic(instr, &mut s);
    s
}

/// Relies on `iced_x86::Formatter::operand_count`: how many operands the
/// formatter would show for this instruction. Serves the body of
/// `decode_format_step`.
#[verifier::external_body]
pub(crate) fn operand_count_of(instr: &iced_x86::Instruction) -> (r: u32) {
    let mut f = iced_x86::IntelFormatter::new();
    f.operand_count(instr)
}

/// Relies on `iced_x86::Formatter::format_operand`: the Intel-syntax text of
/// one formatter operand, or `None` when the index is out of range. Serves
/// the body of `decode_format_step`.
#[verifier::external_body]
pub(crate) fn operand_text(instr: &iced_x86::Instruction, operand: u32) -> (r: Option<String>) {
    let mut f = iced_x86::IntelFormatter::new();
    let mut s = String::new();
    match f.format_operand(instr, &mut s, operand) {
        Ok(_) => Some(s),
        Err(_) => None,
    }
}

/// Relies on `iced_x86::Formatter::get_instruction_operand`,
/// `Instruction::op_kind` and `Instruction::memory_displ_size`: classifies a
/// formatter operand as a register, as one whose rendering carries a numeric
/// literal (immediate, branch target, or memory operand with a displacement),
/// or as other text. Serves the body of `decode_format_step`; the engine's
/// numeric-token suppression rests on this classification.
#[verifier::external_body]
pub(crate) fn operand_kind(instr: &iced_x86::Instruction, operand: u32) -> (r: TokenKind) {
    let mut f = iced_x86::IntelFormatter::new();
    let oi = match f.get_instruction_operand(instr, operand) {
        Ok(Some(i)) => i,
        _ => return TokenKind::Other,
    };
    let k = instr.op_kind(oi);
    if matches!(k, OpKind::Register) {
        return TokenKind::Register;
    }
    if matches!(k, OpKind::Memory) {
        return if instr.memory_displ_size() > 0 { TokenKind::Number } else { TokenKind::Other };
    }
    let numeric = matches!(k, OpKind::NearBranch16 | OpKind::NearBranch32 | OpKind::NearBranch64 | OpKind::FarBranch16 | OpKind::FarBranch32 | OpKind::Immediate8 | OpKind::Immediate8_2nd | OpKind::Immediate16 | OpKind::Immediate32 | OpKind::Immediate64 | OpKind::Immediate8to16 | OpKind::Immediate8to32 | OpKind::Immediate8to64 | OpKind::Immediate32to64);
    if numeric { TokenKind::Number } else { TokenKind::Other }
}

/// Declares the decoder's instruction type so that a decoded instruction
/// can be handed from `decode_format_step`'s body to the formatting helpers
/// above; the engine never looks inside a value of it.
#[verifier::external_type_specification]
#[verifier::external_body]
pub struct ExInstruction(iced_x86::Instruction);

} // verus!
