//! The engine's general guarantees, stated and proved once over the spec
//! model: ordering of the recorded symbol addresses, exactness and
//! non-wrapping of extent arithmetic, containment of extracted byte spans,
//! the shape of symbolic substitution, and determinism of re-parsing.

use vstd::prelude::*;

use crate::container::built_container;
use crate::disasm::{
    assembly_covers, assembly_decoded, assembly_resolved, decode_ended, lemma_substitute_no_numbers,
    spec_resolve, spec_substitute, step_matches, strip_numbers, InstructionModel,
};
use crate::extent::{first_index_of, spec_data, spec_estimate_size};
use crate::loader::spec_parse_container;
use crate::model::{
    ContainerModel, RawSectionModel, RawSymbolModel, RelocTarget, TokenKind, TokenModel,
    strictly_sorted,
};

verus! {

/// Every section of a built container records its code-symbol addresses in
/// strictly ascending order, for any input ordering of the raw symbols.
pub proof fn law_section_addrs_strictly_ascending(
    format: crate::model::FormatTag,
    rsecs: Seq<RawSectionModel>,
    rel: Seq<Seq<(u64, RelocTarget)>>,
    rsyms: Seq<RawSymbolModel>,
    name: Seq<char>,
    path: Seq<char>,
    k: int,
)
    requires
        rsecs.len() <= usize::MAX,
        0 <= k < built_container(format, rsecs, rel, rsyms, name, path).sections.len(),
    ensures
        strictly_sorted(
            built_container(format, rsecs, rel, rsyms, name, path).sections[k].symbol_addrs,
        ),
{
    crate::container::lemma_built_container_wf(format, rsecs, rel, rsyms, name, path);
}

/// Extent arithmetic is exact and never wraps: when an extent is estimated,
/// it satisfies, as unbounded integers, the distance equation to the next
/// recorded address, or to the section's end for the last one; an
/// inconsistent layout (a symbol address beyond the section end, or an
/// unrepresentable section end) yields no extent instead of a wrapped one.
pub proof fn law_estimate_size_exact(c: ContainerModel, i: int)
    requires
        spec_estimate_size(c, i) is Some,
    ensures
        ({
            let v = spec_estimate_size(c, i)->Some_0;
            let sym = c.symbols[i];
            let sec = c.sections[sym.section->Some_0 as int];
            let j = first_index_of(sec.symbol_addrs, sym.address);
            &&& 0 <= i < c.symbols.len()
            &&& sym.section is Some
            &&& (sym.section->Some_0 as int) < c.sections.len()
            &&& sec.symbol_addrs.contains(sym.address)
            &&& if j + 1 == sec.symbol_addrs.len() {
                sym.address + v == sec.address + sec.data.len()
            } else {
                sym.address + v == sec.symbol_addrs[j + 1]
            }
        }),
{
}

/// An extracted byte span never extends beyond its section: it is exactly
/// the section's bytes from the symbol's offset for the estimated extent,
/// and ends within the section's byte length.
pub proof fn law_data_within_section(c: ContainerModel, i: int)
    requires
        spec_data(c, i) is Some,
    ensures
        ({
            let b = spec_data(c, i)->Some_0;
            let sym = c.symbols[i];
            let sec = c.sections[sym.section->Some_0 as int];
            let off = sym.address - sec.address;
            &&& spec_estimate_size(c, i) == Some(b.len() as u64)
            &&& sec.address <= sym.address
            &&& off + b.len() <= sec.data.len()
            &&& b == sec.data.subrange(off, off + b.len())
        }),
{
    let size = spec_estimate_size(c, i)->Some_0;
    let sym = c.symbols[i];
    let sec = c.sections[sym.section->Some_0 as int];
    let off = sym.address - sec.address;
    assert(spec_data(c, i)->Some_0 == sec.data.subrange(off, off + size));
}

/// Symbolic substitution suppresses every numeric token and shows the
/// resolved symbol's display name in its place: when the token stream
/// renders any numeric literal, the substituted stream contains the display
/// name, contains no numeric token, and every one of its tokens is either
/// the display name or a non-numeric token of the original stream.
pub proof fn law_substitution_suppresses_numbers(toks: Seq<TokenModel>, name: Seq<char>)
    requires
        exists|t: int| 0 <= t < toks.len() && (#[trigger] toks[t].kind) == TokenKind::Number,
    ensures
        exists|t: int|
            0 <= t < spec_substitute(toks, name).len() && (#[trigger] spec_substitute(toks, name)[t])
                == (TokenModel { text: name, kind: TokenKind::Other }),
        forall|t: int|
            0 <= t < spec_substitute(toks, name).len() ==> (#[trigger] spec_substitute(
                toks,
                name,
            )[t].kind) != TokenKind::Number,
        forall|t: int|
            0 <= t < spec_substitute(toks, name).len() ==> ((#[trigger] spec_substitute(
                toks,
                name,
            )[t]) == (TokenModel { text: name, kind: TokenKind::Other }) || toks.contains(
                spec_substitute(toks, name)[t],
            )),
{
    assert forall|t: int|
        0 <= t < spec_substitute(toks, name).len() implies (#[trigger] spec_substitute(
        toks,
        name,
    )[t].kind) != TokenKind::Number by {
        lemma_substitute_no_numbers(toks, name, t);
    }
    lemma_substitute_name_present(toks, name);
    assert forall|t: int|
        0 <= t < spec_substitute(toks, name).len() implies ((#[trigger] spec_substitute(
        toks,
        name,
    )[t]) == (TokenModel { text: name, kind: TokenKind::Other }) || toks.contains(
        spec_substitute(toks, name)[t],
    )) by {
        lemma_substitute_from(toks, name, t);
    }
}

/// A token stream with no numeric token is left unchanged by substitution.
pub proof fn law_substitution_keeps_clean_streams(toks: Seq<TokenModel>, name: Seq<char>)
    requires
        forall|t: int| 0 <= t < toks.len() ==> (#[trigger] toks[t].kind) != TokenKind::Number,
    ensures
        spec_substitute(toks, name) == toks,
    decreases toks.len(),
{
    if toks.len() == 0 {
    } else {
        assert(toks[0].kind != TokenKind::Number);
        assert(forall|t: int|
            0 <= t < toks.drop_first().len() ==> (#[trigger] toks.drop_first()[t]) == toks[t + 1]);
        law_substitution_keeps_clean_streams(toks.drop_first(), name);
        assert(seq![toks[0]] + toks.drop_first() =~= toks);
    }
}

/// Substitution of a stream with a numeric token yields the name token.
proof fn lemma_substitute_name_present(toks: Seq<TokenModel>, name: Seq<char>)
    requires
        exists|t: int| 0 <= t < toks.len() && (#[trigger] toks[t].kind) == TokenKind::Number,
    ensures
        exists|t: int|
            0 <= t < spec_substitute(toks, name).len() && (#[trigger] spec_substitute(toks, name)[t])
                == (TokenModel { text: name, kind: TokenKind::Other }),
    decreases toks.len(),
{
    if toks.len() == 0 {
    } else if toks[0].kind == TokenKind::Number {
        assert(spec_substitute(toks, name)[0] == (TokenModel {
            text: name,
            kind: TokenKind::Other,
        }));
    } else {
        let w = choose|t: int| 0 <= t < toks.len() && (#[trigger] toks[t].kind) == TokenKind::Number;
        assert(toks.drop_first()[w - 1].kind == TokenKind::Number);
        lemma_substitute_name_present(toks.drop_first(), name);
        let v = choose|t: int|
            0 <= t < spec_substitute(toks.drop_first(), name).len() && (#[trigger] spec_substitute(
                toks.drop_first(),
                name,
            )[t]) == (TokenModel { text: name, kind: TokenKind::Other });
        assert(spec_substitute(toks, name)[v + 1] == (TokenModel {
            text: name,
            kind: TokenKind::Other,
        }));
    }
}

/// Every token that survives stripping occurs in the original stream.
proof fn lemma_strip_from(toks: Seq<TokenModel>, t: int)
    requires
        0 <= t < strip_numbers(toks).len(),
    ensures
        toks.contains(strip_numbers(toks)[t]),
    decreases toks.len(),
{
    if toks.len() == 0 {
    } else if toks[0].kind == TokenKind::Number {
        lemma_strip_from(toks.drop_first(), t);
        let x = strip_numbers(toks)[t];
        let w = choose|w: int| 0 <= w < toks.drop_first().len() && toks.drop_first()[w] == x;
        assert(toks[w + 1] == x);
    } else {
        if t == 0 {
            assert(toks[0] == strip_numbers(toks)[0]);
        } else {
            lemma_strip_from(toks.drop_first(), t - 1);
            let x = strip_numbers(toks)[t];
            assert(strip_numbers(toks.drop_first())[t - 1] == x);
            let w = choose|w: int| 0 <= w < toks.drop_first().len() && toks.drop_first()[w] == x;
            assert(toks[w + 1] == x);
        }
    }
}

/// Every token of a substituted stream is the name token or an original.
proof fn lemma_substitute_from(toks: Seq<TokenModel>, name: Seq<char>, t: int)
    requires
        0 <= t < spec_substitute(toks, name).len(),
    ensures
        spec_substitute(toks, name)[t] == (TokenModel { text: name, kind: TokenKind::Other })
            || toks.contains(spec_substitute(toks, name)[t]),
    decreases toks.len(),
{
    if toks.len() == 0 {
    } else if toks[0].kind == TokenKind::Number {
        if t == 0 {
        } else {
            lemma_strip_from(toks.drop_first(), t - 1);
            let x = spec_substitute(toks, name)[t];
            assert(strip_numbers(toks.drop_first())[t - 1] == x);
            if x != (TokenModel { text: name, kind: TokenKind::Other }) {
                let w = choose|w: int|
                    0 <= w < toks.drop_first().len() && toks.drop_first()[w] == x;
                assert(toks[w + 1] == x);
            }
        }
    } else {
        if t == 0 {
            assert(toks[0] == spec_substitute(toks, name)[0]);
        } else {
            lemma_substitute_from(toks.drop_first(), name, t - 1);
            let x = spec_substitute(toks, name)[t];
            assert(spec_substitute(toks.drop_first(), name)[t - 1] == x);
            if x != (TokenModel { text: name, kind: TokenKind::Other }) {
                let w = choose|w: int|
                    0 <= w < toks.drop_first().len() && toks.drop_first()[w] == x;
                assert(toks[w + 1] == x);
            }
        }
    }
}

/// Two decoded sequences for the same span agree on their shared prefix:
/// addresses chain identically, so at each position both carry the same
/// named step, the same byte slice, the same resolved relocation and the
/// same tokens.
proof fn lemma_decode_prefix_agrees(
    a: Seq<InstructionModel>,
    b: Seq<InstructionModel>,
    c: ContainerModel,
    relocs: Seq<(u64, RelocTarget)>,
    start: u64,
    data: Seq<u8>,
    k: int,
)
    requires
        assembly_covers(a, start, data),
        assembly_resolved(a, c, relocs),
        assembly_decoded(a, c, start, data),
        assembly_covers(b, start, data),
        assembly_resolved(b, c, relocs),
        assembly_decoded(b, c, start, data),
        0 <= k <= a.len(),
        k <= b.len(),
    ensures
        forall|j: int| 0 <= j < k ==> a[j] == b[j],
    decreases k,
{
    if k > 0 {
        lemma_decode_prefix_agrees(a, b, c, relocs, start, data, k - 1);
        let m1 = a[k - 1];
        let m2 = b[k - 1];
        if k - 1 == 0 {
            assert(m1.address == start && m2.address == start);
        } else {
            assert(a[k - 2] == b[k - 2]);
            assert(m1.address == a[k - 2].address + a[k - 2].bytes.len());
            assert(m2.address == b[k - 2].address + b[k - 2].bytes.len());
        }
        assert(m1.address == m2.address);
        assert(step_matches(m1, c, start, data));
        assert(step_matches(m2, c, start, data));
        assert(m1.bytes.len() == m2.bytes.len());
        assert(m1.bytes == data.subrange(
            m1.address - start,
            m1.address - start + m1.bytes.len(),
        ));
        assert(m2.bytes == data.subrange(
            m2.address - start,
            m2.address - start + m2.bytes.len(),
        ));
        assert(m1.relocation == spec_resolve(c, relocs, m1.address, m1.bytes.len() as nat));
        assert(m2.relocation == spec_resolve(c, relocs, m2.address, m2.bytes.len() as nat));
        assert(m1.tokens == m2.tokens);
        assert(m1 =~= m2);
        assert forall|j: int| 0 <= j < k implies a[j] == b[j] by {
            if j < k - 1 {
            } else {
                assert(a[j] == m1 && b[j] == m2);
            }
        }
    }
}

/// A decoded sequence that satisfies `decode_ended` cannot be a proper
/// prefix of another decoded sequence for the same span: where the shorter
/// one stopped, the longer one would show a successful step inside the
/// span, which no permitted ending allows.
proof fn lemma_decode_not_shorter(
    a: Seq<InstructionModel>,
    b: Seq<InstructionModel>,
    c: ContainerModel,
    relocs: Seq<(u64, RelocTarget)>,
    start: u64,
    data: Seq<u8>,
)
    requires
        assembly_covers(a, start, data),
        assembly_resolved(a, c, relocs),
        assembly_decoded(a, c, start, data),
        assembly_covers(b, start, data),
        assembly_resolved(b, c, relocs),
        assembly_decoded(b, c, start, data),
    ensures
        b.len() <= a.len(),
{
    if a.len() < b.len() {
        lemma_decode_prefix_agrees(a, b, c, relocs, start, data, a.len() as int);
        let nxt = b[a.len() as int];
        let end: int = if a.len() == 0 {
            0
        } else {
            a.last().address - start + a.last().bytes.len()
        };
        if a.len() == 0 {
            assert(nxt.address == start);
        } else {
            assert(a[a.len() - 1] == b[a.len() - 1]);
            assert(nxt.address == b[a.len() - 1].address + b[a.len() - 1].bytes.len());
        }
        assert(nxt.address == start + end);
        assert(1 <= nxt.bytes.len());
        assert(end + nxt.bytes.len() <= data.len());
        assert(step_matches(nxt, c, start, data));
        assert(nxt.address == (start + end) as u64);
        assert(decode_ended(start, data, end));
    }
}

/// Decoding is deterministic: two instruction sequences that both satisfy
/// the decoder's full contract over the same container, relocation records,
/// start address and byte span are structurally equal — two calls on the
/// same symbol yield the same assembly.
pub proof fn law_assembly_deterministic(
    a: Seq<InstructionModel>,
    b: Seq<InstructionModel>,
    c: ContainerModel,
    relocs: Seq<(u64, RelocTarget)>,
    start: u64,
    data: Seq<u8>,
)
    requires
        assembly_covers(a, start, data),
        assembly_resolved(a, c, relocs),
        assembly_decoded(a, c, start, data),
        assembly_covers(b, start, data),
        assembly_resolved(b, c, relocs),
        assembly_decoded(b, c, start, data),
    ensures
        a == b,
{
    lemma_decode_not_shorter(a, b, c, relocs, start, data);
    lemma_decode_not_shorter(b, a, c, relocs, start, data);
    lemma_decode_prefix_agrees(a, b, c, relocs, start, data, a.len() as int);
    assert(a =~= b);
}

/// Re-parsing the same buffer is deterministic: two containers parsed from
/// the same bytes, display name and path agree on their symbol count and,
/// symbol by symbol, on address, raw name and demangled name (indeed on the
/// whole model).
pub proof fn law_reparse_deterministic(
    data: Seq<u8>,
    name: Seq<char>,
    path: Seq<char>,
    c1: ContainerModel,
    c2: ContainerModel,
)
    requires
        spec_parse_container(data, name, path) == Some(c1),
        spec_parse_container(data, name, path) == Some(c2),
    ensures
        c1 == c2,
        c1.symbols.len() == c2.symbols.len(),
        forall|i: int|
            0 <= i < c1.symbols.len() ==> (#[trigger] c1.symbols[i].address) == c2.symbols[i].address
                && c1.symbols[i].name == c2.symbols[i].name && c1.symbols[i].demangled
                == c2.symbols[i].demangled,
{
}

} // verus!
