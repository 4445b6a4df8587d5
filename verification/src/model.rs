//! Data model: raw records as a container parser reports them, and the
//! normalized object / section / symbol model that the engine builds from
//! them, together with the spec-level views that the contracts speak of.

use vstd::prelude::*;

verus! {

/// Kind of a format token, classifying a piece of rendered assembly text by
/// its syntactic role. Used for presentation only, never for semantics.
#[derive(Clone, Copy, PartialEq, Eq, Structural, Debug)]
pub enum TokenKind {
    /// The instruction mnemonic (with its prefixes).
    Mnemonic,
    /// An operand that is a plain register.
    Register,
    /// An operand whose rendering carries a numeric literal
    /// (an immediate, a branch target, or a displacement).
    Number,
    /// Anything else: separators, memory operands without a displacement.
    Other,
}

/// Detected container format of a parsed object file.
#[derive(Clone, Copy, PartialEq, Eq, Structural, Debug)]
pub enum FormatTag {
    Coff,
    Elf,
    MachO,
    Pe,
    Wasm,
    Xcoff,
    Unknown,
}

/// Target of a relocation record: only symbol-targeted relocations are
/// resolved by the engine; the other kinds yield no symbolic substitution.
#[derive(Clone, Copy, PartialEq, Eq, Structural, Debug)]
pub enum RelocTarget {
    /// The fixup refers to the symbol with this native symbol-table index.
    Symbol(usize),
    /// The fixup refers to the section with this native section index.
    Section(usize),
    /// An absolute or otherwise untracked target.
    Other,
}

/// One piece of rendered assembly text with its syntactic role.
pub struct FmtToken {
    pub text: String,
    pub kind: TokenKind,
}

/// Spec-level view of a format token.
#[verifier::ext_equal]
pub struct TokenModel {
    pub text: Seq<char>,
    pub kind: TokenKind,
}

impl View for FmtToken {
    type V = TokenModel;

    open spec fn view(&self) -> TokenModel {
        TokenModel { text: self.text@, kind: self.kind }
    }
}

/// A section as the container parser reports it, before the model is built.
/// A field is `None` when the underlying file does not yield it; such a
/// section is dropped silently during model building.
pub struct RawSection {
    /// The format's native section index.
    pub index: usize,
    /// Raw name bytes, if the name could be read.
    pub name: Option<Vec<u8>>,
    /// Base virtual address.
    pub address: u64,
    /// Fully decompressed byte content, if it could be read.
    pub data: Option<Vec<u8>>,
}

/// Spec-level view of a raw section record.
#[verifier::ext_equal]
pub struct RawSectionModel {
    pub index: usize,
    pub name: Option<Seq<u8>>,
    pub address: u64,
    pub data: Option<Seq<u8>>,
}

impl View for RawSection {
    type V = RawSectionModel;

    open spec fn view(&self) -> RawSectionModel {
        RawSectionModel {
            index: self.index,
            name: match self.name {
                Some(n) => Some(n@),
                None => None,
            },
            address: self.address,
            data: match self.data {
                Some(d) => Some(d@),
                None => None,
            },
        }
    }
}

/// A symbol as the container parser reports it.
pub struct RawSymbol {
    /// The format's native symbol-table index.
    pub index: usize,
    /// Whether the symbol is classified as executable code.
    pub is_code: bool,
    /// Raw name bytes, if the name could be read.
    pub name: Option<Vec<u8>>,
    /// Virtual address.
    pub address: u64,
    /// Declared size; may be zero or unreliable.
    pub size: u64,
    /// The native index of the defining section, if any.
    pub section: Option<usize>,
}

/// Spec-level view of a raw symbol record.
#[verifier::ext_equal]
pub struct RawSymbolModel {
    pub index: usize,
    pub is_code: bool,
    pub name: Option<Seq<u8>>,
    pub address: u64,
    pub size: u64,
    pub section: Option<usize>,
}

impl View for RawSymbol {
    type V = RawSymbolModel;

    open spec fn view(&self) -> RawSymbolModel {
        RawSymbolModel {
            index: self.index,
            is_code: self.is_code,
            name: match self.name {
                Some(n) => Some(n@),
                None => None,
            },
            address: self.address,
            size: self.size,
            section: self.section,
        }
    }
}

/// One member of an archive: its name bytes and, if they could be read, its
/// bytes. A member whose bytes are unavailable is skipped during loading.
pub struct RawMember {
    pub name: Vec<u8>,
    pub data: Option<Vec<u8>>,
}

/// Spec-level view of an archive member record.
#[verifier::ext_equal]
pub struct MemberModel {
    pub name: Seq<u8>,
    pub data: Option<Seq<u8>>,
}

impl View for RawMember {
    type V = MemberModel;

    open spec fn view(&self) -> MemberModel {
        MemberModel {
            name: self.name@,
            data: match self.data {
                Some(d) => Some(d@),
                None => None,
            },
        }
    }
}

/// A contiguous loaded region of a container: name, base address, raw bytes,
/// its relocation records, and the ascending list of code-symbol addresses
/// that fall within it.
pub struct Section {
    pub name: String,
    /// Base virtual address.
    pub address: u64,
    /// Raw byte content.
    pub data: Vec<u8>,
    /// Fixup records as `(address, target)` pairs in the order the format
    /// reports them; for one address, a later record replaces an earlier one.
    pub relocations: Vec<(u64, RelocTarget)>,
    /// Addresses of the code symbols inside this section, strictly ascending.
    pub symbol_addrs: Vec<u64>,
    /// The format's native section index.
    pub index: usize,
}

/// Spec-level view of a section.
#[verifier::ext_equal]
pub struct SectionModel {
    pub name: Seq<char>,
    pub address: u64,
    pub data: Seq<u8>,
    pub relocations: Seq<(u64, RelocTarget)>,
    pub symbol_addrs: Seq<u64>,
    pub index: usize,
}

impl View for Section {
    type V = SectionModel;

    open spec fn view(&self) -> SectionModel {
        SectionModel {
            name: self.name@,
            address: self.address,
            data: self.data@,
            relocations: self.relocations@,
            symbol_addrs: self.symbol_addrs@,
            index: self.index,
        }
    }
}

/// One executable-code symbol of a container.
pub struct Symbol {
    /// Raw name bytes as found in the symbol table.
    pub name_bytes: Vec<u8>,
    /// The name decoded as UTF-8, lossily.
    pub name: String,
    /// Best-effort demangled display name; `None` when demangling fails.
    pub demangled: Option<String>,
    /// Virtual address.
    pub address: u64,
    /// Declared size; may be zero or unreliable.
    pub size: u64,
    /// Position of the owning section in the container's section list, or
    /// `None` if the symbol's section was not retained.
    pub section: Option<usize>,
    /// The format's native symbol-table index.
    pub index: usize,
}

/// Spec-level view of a symbol.
#[verifier::ext_equal]
pub struct SymbolModel {
    pub name_bytes: Seq<u8>,
    pub name: Seq<char>,
    pub demangled: Option<Seq<char>>,
    pub address: u64,
    pub size: u64,
    pub section: Option<usize>,
    pub index: usize,
}

impl View for Symbol {
    type V = SymbolModel;

    open spec fn view(&self) -> SymbolModel {
        SymbolModel {
            name_bytes: self.name_bytes@,
            name: self.name@,
            demangled: match self.demangled {
                Some(d) => Some(d@),
                None => None,
            },
            address: self.address,
            size: self.size,
            section: self.section,
            index: self.index,
        }
    }
}

/// The display name of a symbol: the demangled name when demangling
/// succeeded, the raw name otherwise.
pub open spec fn display_name(s: SymbolModel) -> Seq<char> {
    match s.demangled {
        Some(d) => d,
        None => s.name,
    }
}

/// One parsed binary: its sections and its code symbols, immutable after
/// construction.
pub struct Container {
    /// Display name.
    pub name: String,
    /// Originating path.
    pub path: String,
    /// Detected format.
    pub format: FormatTag,
    /// Sections, in the order the container reports them.
    pub sections: Vec<Section>,
    /// Code symbols, sorted by raw name (byte-lexicographically).
    pub symbols: Vec<Symbol>,
}

/// Spec-level view of a container.
#[verifier::ext_equal]
pub struct ContainerModel {
    pub name: Seq<char>,
    pub path: Seq<char>,
    pub format: FormatTag,
    pub sections: Seq<SectionModel>,
    pub symbols: Seq<SymbolModel>,
}

impl View for Container {
    type V = ContainerModel;

    open spec fn view(&self) -> ContainerModel {
        ContainerModel {
            name: self.name@,
            path: self.path@,
            format: self.format,
            sections: self.sections@.map_values(|s: Section| s@),
            symbols: self.symbols@.map_values(|s: Symbol| s@),
        }
    }
}

/// A sequence of `u64` is strictly ascending.
pub open spec fn strictly_sorted(s: Seq<u64>) -> bool {
    forall|i: int, j: int| 0 <= i < j < s.len() ==> s[i] < s[j]
}

/// Strict byte-lexicographic order on byte sequences.
pub open spec fn bytes_lt(a: Seq<u8>, b: Seq<u8>) -> bool
    decreases a.len(),
{
    if b.len() == 0 {
        false
    } else if a.len() == 0 {
        true
    } else if a[0] < b[0] {
        true
    } else if a[0] > b[0] {
        false
    } else {
        bytes_lt(a.drop_first(), b.drop_first())
    }
}

/// A symbol sequence is sorted by raw name, byte-lexicographically.
pub open spec fn sorted_by_name(s: Seq<SymbolModel>) -> bool {
    forall|i: int, j: int|
        0 <= i < j < s.len() ==> !bytes_lt(#[trigger] s[j].name_bytes, #[trigger] s[i].name_bytes)
}

impl ContainerModel {
    /// Well-formedness: every section's symbol-address list is strictly
    /// ascending, every symbol's section link is in range, and the symbol
    /// sequence is name-sorted.
    pub open spec fn wf(self) -> bool {
        &&& forall|k: int|
            0 <= k < self.sections.len() ==> strictly_sorted(#[trigger] self.sections[k].symbol_addrs)
        &&& forall|i: int|
            0 <= i < self.symbols.len() ==> match #[trigger] self.symbols[i].section {
                Some(k) => k < self.sections.len(),
                None => true,
            }
        &&& sorted_by_name(self.symbols)
    }
}

} // verus!
