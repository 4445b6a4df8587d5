//! Decoding a symbol's byte span into an address-ordered sequence of
//! classified instruction tokens, with relocation resolution: a fixup found
//! at an instruction's addresses (first match in ascending offset order)
//! whose target is a known symbol suppresses the instruction's numeric
//! tokens and substitutes the symbol's display name.

use vstd::prelude::*;

use crate::extent::spec_data;
use crate::model::{
    Container, ContainerModel, FmtToken, RelocTarget, SymbolModel, TokenKind, TokenModel,
};
use crate::trusted::{decode_format_step, step_of};

verus! {

/// One decoded machine instruction: its address, its exact consumed bytes,
/// its classified format tokens, and the position in the container's symbol
/// list of the relocation target resolved for it, if any.
pub struct DecodedInstruction {
    pub address: u64,
    pub bytes: Vec<u8>,
    pub tokens: Vec<FmtToken>,
    pub relocation: Option<usize>,
}

/// Spec-level view of an instruction.
#[verifier::ext_equal]
pub struct InstructionModel {
    pub address: u64,
    pub bytes: Seq<u8>,
    pub tokens: Seq<TokenModel>,
    pub relocation: Option<usize>,
}

impl View for DecodedInstruction {
    type V = InstructionModel;

    open spec fn view(&self) -> InstructionModel {
        InstructionModel {
            address: self.address,
            bytes: self.bytes@,
            tokens: self.tokens@.map_values(|t: FmtToken| t@),
            relocation: self.relocation,
        }
    }
}

/// The address-ordered instruction sequence spanning one symbol's estimated
/// byte extent.
pub struct Assembly {
    pub instructions: Vec<DecodedInstruction>,
}

impl View for Assembly {
    type V = Seq<InstructionModel>;

    open spec fn view(&self) -> Seq<InstructionModel> {
        self.instructions@.map_values(|i: DecodedInstruction| i@)
    }
}

/// The relocation record at exactly this address: the last record the
/// format reports for it replaces any earlier one.
pub open spec fn reloc_at(relocs: Seq<(u64, RelocTarget)>, a: u64) -> Option<RelocTarget>
    decreases relocs.len(),
{
    if relocs.len() == 0 {
        None
    } else if relocs.last().0 == a {
        Some(relocs.last().1)
    } else {
        reloc_at(relocs.drop_last(), a)
    }
}

/// The first relocation within `len` bytes from `start`, in ascending
/// offset order; addresses past the end of the address space hold none.
pub open spec fn first_reloc_in(
    relocs: Seq<(u64, RelocTarget)>,
    start: u64,
    len: nat,
) -> Option<RelocTarget>
    decreases len,
{
    if len == 0 {
        None
    } else {
        match reloc_at(relocs, start) {
            Some(t) => Some(t),
            None => {
                if start == u64::MAX {
                    None
                } else {
                    first_reloc_in(relocs, (start + 1) as u64, (len - 1) as nat)
                }
            },
        }
    }
}

/// The position of the first symbol with native symbol-table index `si`.
pub open spec fn sym_slot(syms: Seq<SymbolModel>, si: usize) -> Option<usize>
    decreases syms.len(),
{
    if syms.len() == 0 {
        None
    } else if syms[0].index == si {
        Some(0usize)
    } else {
        match sym_slot(syms.drop_first(), si) {
            Some(k) => Some((k + 1) as usize),
            None => None,
        }
    }
}

/// A found symbol position is in range and hits the index.
pub proof fn lemma_sym_slot_in_range(syms: Seq<SymbolModel>, si: usize)
    requires
        syms.len() <= usize::MAX,
    ensures
        match sym_slot(syms, si) {
            Some(k) => k < syms.len() && syms[k as int].index == si,
            None => true,
        },
    decreases syms.len(),
{
    if syms.len() == 0 {
    } else if syms[0].index == si {
    } else {
        lemma_sym_slot_in_range(syms.drop_first(), si);
        match sym_slot(syms.drop_first(), si) {
            Some(k) => {
                assert(syms.drop_first()[k as int] == syms[k + 1]);
            },
            None => {},
        }
    }
}

/// How `sym_slot` relates to the position a forward scan finds.
pub proof fn lemma_sym_slot_at(syms: Seq<SymbolModel>, si: usize, i: int)
    requires
        syms.len() <= usize::MAX,
        0 <= i <= syms.len(),
        forall|j: int| 0 <= j < i ==> (#[trigger] syms[j].index) != si,
        i < syms.len() ==> syms[i].index == si,
    ensures
        sym_slot(syms, si) == if i < syms.len() {
            Some(i as usize)
        } else {
            Option::<usize>::None
        },
    decreases syms.len(),
{
    if syms.len() == 0 {
    } else if i == 0 {
    } else {
        assert(syms[0].index != si);
        assert(forall|j: int|
            0 <= j < i - 1 ==> (#[trigger] syms.drop_first()[j]).index == syms[j + 1].index);
        if i - 1 < syms.drop_first().len() {
            assert(syms.drop_first()[i - 1] == syms[i]);
        }
        lemma_sym_slot_at(syms.drop_first(), si, i - 1);
    }
}

/// What the resolver yields for an instruction spanning `len` bytes at
/// `start`: the position of the targeted symbol when the first relocation
/// found targets a symbol the container knows, and nothing otherwise.
pub open spec fn spec_resolve(
    c: ContainerModel,
    relocs: Seq<(u64, RelocTarget)>,
    start: u64,
    len: nat,
) -> Option<usize> {
    match first_reloc_in(relocs, start, len) {
        Some(RelocTarget::Symbol(si)) => sym_slot(c.symbols, si),
        _ => None,
    }
}

/// Last-match lookup of a relocation record at one address.
pub fn lookup_reloc(relocs: &Vec<(u64, RelocTarget)>, a: u64) -> (r: Option<RelocTarget>)
    ensures
        r == reloc_at(relocs@, a),
{
    let mut i: usize = relocs.len();
    proof {
        assert(relocs@.take(i as int) =~= relocs@);
    }
    while i > 0
        invariant
            i <= relocs@.len(),
            reloc_at(relocs@, a) == reloc_at(relocs@.take(i as int), a),
        decreases i,
    {
        i = i - 1;
        let entry = relocs[i];
        proof {
            assert(relocs@.take(i + 1).last() == relocs@[i as int]);
            assert(relocs@.take(i + 1).drop_last() =~= relocs@.take(i as int));
        }
        if entry.0 == a {
            return Some(entry.1);
        }
    }
    proof {
        assert(relocs@.take(0) =~= Seq::<(u64, RelocTarget)>::empty());
    }
    None
}

/// The first relocation within an instruction's byte span, scanning its
/// addresses in ascending order.
pub fn first_reloc(relocs: &Vec<(u64, RelocTarget)>, start: u64, len: usize) -> (r: Option<
    RelocTarget,
>)
    ensures
        r == first_reloc_in(relocs@, start, len as nat),
    decreases len,
{
    if len == 0 {
        return None;
    }
    match lookup_reloc(relocs, start) {
        Some(t) => Some(t),
        None => {
            if start == u64::MAX {
                None
            } else {
                first_reloc(relocs, start + 1, len - 1)
            }
        },
    }
}

/// The position of the first symbol with native index `si`, by forward
/// scan.
pub fn find_symbol(syms: &Vec<crate::model::Symbol>, si: usize) -> (r: Option<usize>)
    ensures
        r == sym_slot(syms@.map_values(|s: crate::model::Symbol| s@), si),
{
    let ghost gs = syms@.map_values(|s: crate::model::Symbol| s@);
    let mut i: usize = 0;
    while i < syms.len()
        invariant
            i <= syms@.len(),
            gs == syms@.map_values(|s: crate::model::Symbol| s@),
            forall|j: int| 0 <= j < i ==> (#[trigger] gs[j].index) != si,
        decreases syms@.len() - i,
    {
        proof {
            assert(gs[i as int] == syms@[i as int]@);
        }
        if syms[i].index == si {
            proof {
                lemma_sym_slot_at(gs, si, i as int);
            }
            return Some(i);
        }
        i = i + 1;
    }
    proof {
        lemma_sym_slot_at(gs, si, syms@.len() as int);
    }
    None
}

/// Spec view of a token vector.
pub open spec fn tok_views(v: Seq<FmtToken>) -> Seq<TokenModel> {
    v.map_values(|t: FmtToken| t@)
}

/// A token stream with every numeric token removed.
pub open spec fn strip_numbers(toks: Seq<TokenModel>) -> Seq<TokenModel>
    decreases toks.len(),
{
    if toks.len() == 0 {
        toks
    } else if toks[0].kind == TokenKind::Number {
        strip_numbers(toks.drop_first())
    } else {
        seq![toks[0]] + strip_numbers(toks.drop_first())
    }
}

/// Symbolic substitution: the first numeric token is replaced by the
/// resolved symbol's display name, every later numeric token is suppressed,
/// and all other tokens are kept unchanged in order.
pub open spec fn spec_substitute(toks: Seq<TokenModel>, name: Seq<char>) -> Seq<TokenModel>
    decreases toks.len(),
{
    if toks.len() == 0 {
        toks
    } else if toks[0].kind == TokenKind::Number {
        seq![TokenModel { text: name, kind: TokenKind::Other }] + strip_numbers(toks.drop_first())
    } else {
        seq![toks[0]] + spec_substitute(toks.drop_first(), name)
    }
}

/// No token survives `strip_numbers` with the numeric kind.
pub proof fn lemma_strip_no_numbers(toks: Seq<TokenModel>, j: int)
    requires
        0 <= j < strip_numbers(toks).len(),
    ensures
        strip_numbers(toks)[j].kind != TokenKind::Number,
    decreases toks.len(),
{
    if toks.len() == 0 {
    } else if toks[0].kind == TokenKind::Number {
        lemma_strip_no_numbers(toks.drop_first(), j);
    } else {
        if j == 0 {
        } else {
            lemma_strip_no_numbers(toks.drop_first(), j - 1);
        }
    }
}

/// No token survives substitution with the numeric kind.
pub proof fn lemma_substitute_no_numbers(toks: Seq<TokenModel>, name: Seq<char>, j: int)
    requires
        0 <= j < spec_substitute(toks, name).len(),
    ensures
        spec_substitute(toks, name)[j].kind != TokenKind::Number,
    decreases toks.len(),
{
    if toks.len() == 0 {
    } else if toks[0].kind == TokenKind::Number {
        if j == 0 {
        } else {
            lemma_strip_no_numbers(toks.drop_first(), j - 1);
        }
    } else {
        if j == 0 {
        } else {
            lemma_substitute_no_numbers(toks.drop_first(), name, j - 1);
        }
    }
}

/// Applies symbolic substitution to one instruction's token stream.
pub fn substitute_tokens(toks: Vec<FmtToken>, name: &String) -> (r: Vec<FmtToken>)
    ensures
        tok_views(r@) == spec_substitute(tok_views(toks@), name@),
{
    let ghost orig = tok_views(toks@);
    let mut rest = toks;
    let mut out: Vec<FmtToken> = Vec::new();
    let mut replaced = false;
    proof {
        assert(tok_views(rest@) =~= orig);
        assert(spec_substitute(orig, name@) =~= tok_views(out@) + spec_substitute(
            tok_views(rest@),
            name@,
        ));
    }
    loop
        invariant
            !replaced ==> spec_substitute(orig, name@) == tok_views(out@) + spec_substitute(
                tok_views(rest@),
                name@,
            ),
            replaced ==> spec_substitute(orig, name@) == tok_views(out@) + strip_numbers(
                tok_views(rest@),
            ),
        ensures
            tok_views(out@) == spec_substitute(orig, name@),
        decreases rest@.len(),
    {
        let ghost before_rest = tok_views(rest@);
        let ghost before_out = tok_views(out@);
        if rest.len() == 0 {
            proof {
                assert(before_rest.len() == 0);
                assert(tok_views(out@) + before_rest =~= tok_views(out@));
                if replaced {
                    assert(strip_numbers(before_rest) =~= before_rest);
                } else {
                    assert(spec_substitute(before_rest, name@) =~= before_rest);
                }
            }
            break;
        }
        let t = rest.remove(0);
        proof {
            assert(t@ == before_rest[0]);
            assert(tok_views(rest@) =~= before_rest.drop_first());
        }
        let is_number = match t.kind {
            TokenKind::Number => true,
            _ => false,
        };
        if replaced {
            if !is_number {
                out.push(t);
                proof {
                    assert(tok_views(out@) =~= before_out + seq![before_rest[0]]);
                    assert(strip_numbers(before_rest) == seq![before_rest[0]] + strip_numbers(
                        before_rest.drop_first(),
                    ));
                }
            } else {
                proof {
                    assert(strip_numbers(before_rest) == strip_numbers(before_rest.drop_first()));
                }
            }
        } else {
            if is_number {
                let sub = FmtToken { text: crate::loader::clone_string(name), kind: TokenKind::Other };
                proof {
                    assert(sub@ == (TokenModel { text: name@, kind: TokenKind::Other }));
                }
                out.push(sub);
                replaced = true;
                proof {
                    assert(tok_views(out@) =~= before_out + seq![
                        TokenModel { text: name@, kind: TokenKind::Other },
                    ]);
                    assert(spec_substitute(before_rest, name@) == seq![
                        TokenModel { text: name@, kind: TokenKind::Other },
                    ] + strip_numbers(before_rest.drop_first()));
                }
            } else {
                out.push(t);
                proof {
                    assert(tok_views(out@) =~= before_out + seq![before_rest[0]]);
                    assert(spec_substitute(before_rest, name@) == seq![before_rest[0]]
                        + spec_substitute(before_rest.drop_first(), name@));
                }
            }
        }
    }
    out
}

/// Structural coverage of a decoded sequence: instruction addresses start at
/// the symbol's address and increase consecutively by each instruction's
/// byte length, and every instruction's bytes are the exact slice of the
/// symbol's byte span at its address.
pub open spec fn assembly_covers(ins: Seq<InstructionModel>, start: u64, data: Seq<u8>) -> bool {
    &&& (ins.len() > 0 ==> ins[0].address == start)
    &&& (forall|k: int|
        0 < k < ins.len() ==> (#[trigger] ins[k].address) == ins[k - 1].address + ins[
            k - 1
        ].bytes.len())
    &&& (forall|k: int| 0 <= k < ins.len() ==> 1 <= (#[trigger] ins[k].bytes.len()))
    &&& (forall|k: int|
        0 <= k < ins.len() ==> start <= (#[trigger] ins[k].address) && ins[k].address - start + ins[
            k
        ].bytes.len() <= data.len() && ins[k].bytes == data.subrange(
            ins[k].address - start,
            ins[k].address - start + ins[k].bytes.len(),
        ))
}

/// Spec view of an instruction vector.
pub open spec fn instr_views(v: Seq<DecodedInstruction>) -> Seq<InstructionModel> {
    v.map_values(|x: DecodedInstruction| x@)
}

/// Relocation discipline of a decoded sequence: every instruction carries
/// exactly what the resolver yields for its byte span, and an instruction
/// with a resolved relocation shows no numeric token.
pub open spec fn assembly_resolved(
    ins: Seq<InstructionModel>,
    c: ContainerModel,
    relocs: Seq<(u64, RelocTarget)>,
) -> bool {
    forall|k: int|
        0 <= k < ins.len() ==> {
            &&& (#[trigger] ins[k].relocation) == spec_resolve(
                c,
                relocs,
                ins[k].address,
                ins[k].bytes.len() as nat,
            )
            &&& match ins[k].relocation {
                Some(s) => s < c.symbols.len() && forall|t: int|
                    0 <= t < ins[k].tokens.len() ==> (#[trigger] ins[k].tokens[t].kind)
                        != TokenKind::Number,
                None => true,
            }
        }
}

/// One instruction of a decoded sequence agrees with the named
/// decode-and-format step at its position: the step succeeds there, the
/// instruction spans exactly the step's byte count, and its tokens are the
/// step's tokens, symbolically substituted when its relocation resolved.
pub open spec fn step_matches(
    m: InstructionModel,
    c: ContainerModel,
    start: u64,
    data: Seq<u8>,
) -> bool {
    let st = step_of(data.skip(m.address - start), m.address);
    &&& st is Some
    &&& m.bytes.len() == st->Some_0.0
    &&& m.tokens == (match m.relocation {
        Some(s) => spec_substitute(st->Some_0.1, crate::model::display_name(c.symbols[s as int])),
        None => st->Some_0.1,
    })
}

/// Decoding may stop at byte offset `pos` of the span only because the span
/// is exhausted, the next instruction pointer would leave the address
/// space, or the named step fails there (malformed trailing bytes).
pub open spec fn decode_ended(start: u64, data: Seq<u8>, pos: int) -> bool {
    ||| pos == data.len()
    ||| start + pos > u64::MAX
    ||| step_of(data.skip(pos), (start + pos) as u64) is None
}

/// A decoded sequence is exactly the maximal chain of named steps: every
/// instruction is the step at its position, and the sequence ends only
/// where `decode_ended` allows. Together with `assembly_covers` and
/// `assembly_resolved` this determines the sequence: two decodes of the
/// same span yield structurally equal results.
pub open spec fn assembly_decoded(
    ins: Seq<InstructionModel>,
    c: ContainerModel,
    start: u64,
    data: Seq<u8>,
) -> bool {
    &&& forall|k: int| 0 <= k < ins.len() ==> step_matches(#[trigger] ins[k], c, start, data)
    &&& decode_ended(
        start,
        data,
        if ins.len() == 0 {
            0
        } else {
            ins.last().address - start + ins.last().bytes.len()
        },
    )
}

impl Container {
    /// Decodes the symbol's estimated byte span, starting the instruction
    /// pointer at the symbol's address, until the span is exhausted or
    /// decoding cannot proceed (malformed trailing bytes truncate the
    /// sequence). Yields nothing exactly when the symbol's byte span is
    /// unavailable; an empty span yields an empty sequence, not a failure.
    pub fn assembly(&self, i: usize) -> (r: Option<Assembly>)
        requires
            self@.wf(),
        ensures
            match r {
                None => spec_data(self@, i as int) is None,
                Some(a) => {
                    &&& spec_data(self@, i as int) is Some
                    &&& assembly_covers(
                        a@,
                        self@.symbols[i as int].address,
                        spec_data(self@, i as int)->Some_0,
                    )
                    &&& assembly_resolved(
                        a@,
                        self@,
                        self@.sections[
                            self@.symbols[i as int].section->Some_0 as int
                        ].relocations,
                    )
                    &&& assembly_decoded(
                        a@,
                        self@,
                        self@.symbols[i as int].address,
                        spec_data(self@, i as int)->Some_0,
                    )
                    &&& (spec_data(self@, i as int)->Some_0.len() == 0 ==> a@.len() == 0)
                },
            },
    {
        let bytes = match self.data(i) {
            Some(b) => b,
            None => {
                return None;
            },
        };
        let ghost gdata = spec_data(self@, i as int)->Some_0;
        proof {
            assert(bytes@ == gdata);
            assert(0 <= (i as int) && (i as int) < self@.symbols.len());
            assert(self@.symbols[i as int] == self.symbols@[i as int]@);
        }
        let start = self.symbols[i].address;
        let k = match self.symbols[i].section {
            Some(k) => k,
            None => {
                proof {
                    assert(false);
                }
                return None;
            },
        };
        proof {
            assert(self@.sections[k as int] == self.sections@[k as int]@);
        }
        let ghost grelocs = self@.sections[k as int].relocations;
        let total_syms = self.symbols.len();
        proof {
            assert(self@.symbols.len() == total_syms as int);
        }
        let mut out: Vec<DecodedInstruction> = Vec::new();
        let mut pos: usize = 0;
        let n = bytes.len();
        proof {
            assert(instr_views(out@) =~= Seq::<InstructionModel>::empty());
        }
        while pos < n
            invariant
                self@.wf(),
                pos <= n,
                n == bytes@.len(),
                bytes@ == gdata,
                self@.symbols.len() <= usize::MAX,
                0 <= (i as int) && (i as int) < self@.symbols.len(),
                start == self@.symbols[i as int].address,
                self@.symbols[i as int].section == Some(k),
                (k as int) < self@.sections.len(),
                grelocs == self@.sections[k as int].relocations,
                self.sections@[k as int]@ == self@.sections[k as int],
                assembly_covers(instr_views(out@), start, gdata),
                assembly_resolved(instr_views(out@), self@, grelocs),
                forall|q: int|
                    0 <= q < instr_views(out@).len() ==> step_matches(
                        #[trigger] instr_views(out@)[q],
                        self@,
                        start,
                        gdata,
                    ),
                instr_views(out@).len() > 0 ==> (instr_views(out@).last().address - start)
                    + instr_views(out@).last().bytes.len() == pos,
                instr_views(out@).len() == 0 ==> pos == 0,
            ensures
                assembly_covers(instr_views(out@), start, gdata),
                assembly_resolved(instr_views(out@), self@, grelocs),
                forall|q: int|
                    0 <= q < instr_views(out@).len() ==> step_matches(
                        #[trigger] instr_views(out@)[q],
                        self@,
                        start,
                        gdata,
                    ),
                instr_views(out@).len() > 0 ==> (instr_views(out@).last().address - start)
                    + instr_views(out@).last().bytes.len() == pos,
                instr_views(out@).len() == 0 ==> pos == 0,
                decode_ended(start, gdata, pos as int),
                gdata.len() == 0 ==> instr_views(out@).len() == 0,
            decreases n - pos,
        {
            let ip = match start.checked_add(pos as u64) {
                Some(v) => v,
                None => {
                    proof {
                        assert(start + pos > u64::MAX);
                    }
                    break;
                },
            };
            let step = decode_format_step(bytes, pos, ip);
            let (ilen, raw_toks) = match step {
                Some(p) => p,
                None => {
                    proof {
                        assert(step_of(gdata.skip(pos as int), (start + pos) as u64) is None);
                    }
                    break;
                },
            };
            let ghost graw = tok_views(raw_toks@);
            proof {
                assert(step_of(gdata.skip(pos as int), ip) is Some);
                assert(step_of(gdata.skip(pos as int), ip)->Some_0.0 == ilen);
                assert(step_of(gdata.skip(pos as int), ip)->Some_0.1 == graw);
            }
            let fr = first_reloc(&self.sections[k].relocations, ip, ilen);
            let rel = match fr {
                Some(target) => {
                    match target {
                        RelocTarget::Symbol(si) => {
                            let ro = find_symbol(&self.symbols, si);
                            proof {
                                assert(self.symbols@.map_values(
                                    |s: crate::model::Symbol| s@,
                                ) =~= self@.symbols);
                                lemma_sym_slot_in_range(self@.symbols, si);
                            }
                            ro
                        },
                        _ => None,
                    }
                },
                None => None,
            };
            proof {
                assert(rel == spec_resolve(self@, grelocs, ip, ilen as nat));
                match rel {
                    Some(s) => {
                        assert((s as int) < self@.symbols.len());
                        assert(self@.symbols[s as int] == self.symbols@[s as int]@);
                    },
                    None => {},
                }
            }
            let toks2 = match rel {
                Some(s) => {
                    let nm: &String = match &self.symbols[s].demangled {
                        Some(d) => d,
                        None => &self.symbols[s].name,
                    };
                    proof {
                        assert(nm@ == crate::model::display_name(self@.symbols[s as int]));
                    }
                    substitute_tokens(raw_toks, nm)
                },
                None => raw_toks,
            };
            proof {
                match rel {
                    Some(s) => {
                        let gname = crate::model::display_name(self@.symbols[s as int]);
                        assert(tok_views(toks2@) == spec_substitute(graw, gname));
                        assert forall|t: int|
                            0 <= t < tok_views(toks2@).len() implies (#[trigger] tok_views(
                            toks2@,
                        )[t].kind) != TokenKind::Number by {
                            lemma_substitute_no_numbers(graw, gname, t);
                        }
                    },
                    None => {},
                }
            }
            let ib = vstd::slice::slice_to_vec(vstd::slice::slice_subrange(bytes, pos, pos + ilen));
            let rec = DecodedInstruction { address: ip, bytes: ib, tokens: toks2, relocation: rel };
            let ghost gm = rec@;
            let ghost before = instr_views(out@);
            out.push(rec);
            proof {
                assert(instr_views(out@) =~= before.push(gm));
                assert(gm.bytes == gdata.subrange(pos as int, pos + ilen));
                assert(gm.bytes.len() == ilen);
                assert(gm.address == start + pos);
                let cur = instr_views(out@);
                assert forall|q: int| 0 < q < cur.len() implies (#[trigger] cur[q].address) == cur[
                    q - 1
                ].address + cur[q - 1].bytes.len() by {
                    if q < cur.len() - 1 + 1 && q == cur.len() - 1 {
                        if before.len() > 0 {
                            assert(cur[q - 1] == before.last());
                        }
                    } else {
                        assert(cur[q] == before[q] && cur[q - 1] == before[q - 1]);
                    }
                }
                assert(assembly_covers(cur, start, gdata));
                assert forall|q: int| 0 <= q < cur.len() implies {
                    &&& (#[trigger] cur[q].relocation) == spec_resolve(
                        self@,
                        grelocs,
                        cur[q].address,
                        cur[q].bytes.len() as nat,
                    )
                    &&& match cur[q].relocation {
                        Some(s) => s < self@.symbols.len() && forall|t: int|
                            0 <= t < cur[q].tokens.len() ==> (#[trigger] cur[q].tokens[t].kind)
                                != TokenKind::Number,
                        None => true,
                    }
                } by {
                    if q < cur.len() - 1 {
                        assert(cur[q] == before[q]);
                    }
                }
                assert(assembly_resolved(cur, self@, grelocs));
                assert(step_matches(gm, self@, start, gdata)) by {
                    assert(gm.address - start == pos as int);
                    assert(gm.tokens == tok_views(toks2@));
                }
                assert forall|q: int| 0 <= q < cur.len() implies step_matches(
                    #[trigger] cur[q],
                    self@,
                    start,
                    gdata,
                ) by {
                    if q < cur.len() - 1 {
                        assert(cur[q] == before[q]);
                    } else {
                        assert(cur[q] == gm);
                    }
                }
            }
            pos = pos + ilen;
        }
        proof {
            let fin = instr_views(out@);
            if fin.len() == 0 {
                assert(decode_ended(start, gdata, 0));
            } else {
                assert(fin.last().address - start + fin.last().bytes.len() == pos as int);
            }
            assert(assembly_decoded(fin, self@, start, gdata));
        }
        let a = Assembly { instructions: out };
        Some(a)
    }
}

} // verus!
