//! Building the normalized container model from raw section and symbol
//! records: dropping sections whose name or content the file does not yield,
//! collecting each retained section's code-symbol addresses in strictly
//! ascending order, retaining code symbols only, linking them to their
//! sections, and sorting them by name.

use vstd::prelude::*;

use crate::model::{
    Container, ContainerModel, FormatTag, RawSection, RawSectionModel, RawSymbol, RawSymbolModel,
    RelocTarget, Section, SectionModel, Symbol, SymbolModel,
};
use crate::order::{
    insert_addr, lemma_insert_addr_sorted, lemma_insert_sym_contains, lemma_sort_syms_sorted,
    push_addr, sort_symbols, sort_syms, sym_views,
};
use crate::trusted::{demangle_name, demangled_of, lossy_string, lossy_utf8};

verus! {

/// A raw section is retained exactly when both its name and its content
/// could be read.
pub open spec fn keep_section(r: RawSectionModel) -> bool {
    r.name is Some && r.data is Some
}

/// A raw symbol enters the model exactly when it is executable code and its
/// name could be read.
pub open spec fn keep_symbol(r: RawSymbolModel) -> bool {
    r.is_code && r.name is Some
}

/// The section a retained raw section becomes, before its symbol-address
/// list is filled in.
pub open spec fn make_sec(r: RawSectionModel, rl: Seq<(u64, RelocTarget)>) -> SectionModel {
    SectionModel {
        name: lossy_utf8(r.name->Some_0),
        address: r.address,
        data: r.data->Some_0,
        relocations: rl,
        symbol_addrs: Seq::empty(),
        index: r.index,
    }
}

/// The retained sections, in file order, with empty symbol-address lists;
/// `rel` gives each raw section's relocation records, positionally.
pub open spec fn build_secs(
    rsecs: Seq<RawSectionModel>,
    rel: Seq<Seq<(u64, RelocTarget)>>,
) -> Seq<SectionModel>
    decreases rsecs.len(),
{
    if rsecs.len() == 0 {
        Seq::empty()
    } else {
        (if keep_section(rsecs[0]) {
            seq![make_sec(rsecs[0], rel[0])]
        } else {
            Seq::empty()
        }) + build_secs(rsecs.drop_first(), rel.drop_first())
    }
}

/// There are no more retained sections than raw ones.
pub proof fn lemma_build_secs_len(rsecs: Seq<RawSectionModel>, rel: Seq<Seq<(u64, RelocTarget)>>)
    ensures
        build_secs(rsecs, rel).len() <= rsecs.len(),
    decreases rsecs.len(),
{
    if rsecs.len() == 0 {
    } else {
        lemma_build_secs_len(rsecs.drop_first(), rel.drop_first());
    }
}

/// Every section that `build_secs` yields starts with an empty
/// symbol-address list.
pub proof fn lemma_build_secs_empty_addrs(
    rsecs: Seq<RawSectionModel>,
    rel: Seq<Seq<(u64, RelocTarget)>>,
    k: int,
)
    requires
        0 <= k < build_secs(rsecs, rel).len(),
    ensures
        build_secs(rsecs, rel)[k].symbol_addrs == Seq::<u64>::empty(),
    decreases rsecs.len(),
{
    if rsecs.len() == 0 {
    } else if keep_section(rsecs[0]) {
        if k == 0 {
        } else {
            lemma_build_secs_empty_addrs(rsecs.drop_first(), rel.drop_first(), k - 1);
        }
    } else {
        lemma_build_secs_empty_addrs(rsecs.drop_first(), rel.drop_first(), k);
    }
}

/// The strictly ascending, duplicate-free address list of the code symbols
/// that the symbol table links to the section with native index `si`, built
/// by ordered insertion in symbol-table order.
pub open spec fn addrs_for(rsyms: Seq<RawSymbolModel>, si: usize) -> Seq<u64>
    decreases rsyms.len(),
{
    if rsyms.len() == 0 {
        Seq::empty()
    } else {
        let rest = addrs_for(rsyms.drop_last(), si);
        if rsyms.last().is_code && rsyms.last().section == Some(si) {
            insert_addr(rest, rsyms.last().address)
        } else {
            rest
        }
    }
}

/// Fills every section's symbol-address list from the symbol table.
pub open spec fn fill_addrs(
    secs: Seq<SectionModel>,
    rsyms: Seq<RawSymbolModel>,
) -> Seq<SectionModel> {
    secs.map_values(
        |s: SectionModel| SectionModel { symbol_addrs: addrs_for(rsyms, s.index), ..s },
    )
}

/// The position of the first section with native index `si`, if any.
pub open spec fn find_sec(secs: Seq<SectionModel>, si: usize) -> Option<usize>
    decreases secs.len(),
{
    if secs.len() == 0 {
        None
    } else if secs[0].index == si {
        Some(0usize)
    } else {
        match find_sec(secs.drop_first(), si) {
            Some(k) => Some((k + 1) as usize),
            None => None,
        }
    }
}

/// A found section position is in range.
pub proof fn lemma_find_sec_in_range(secs: Seq<SectionModel>, si: usize)
    requires
        secs.len() <= usize::MAX,
    ensures
        match find_sec(secs, si) {
            Some(k) => k < secs.len() && secs[k as int].index == si,
            None => true,
        },
    decreases secs.len(),
{
    if secs.len() == 0 {
    } else if secs[0].index == si {
    } else {
        lemma_find_sec_in_range(secs.drop_first(), si);
        match find_sec(secs.drop_first(), si) {
            Some(k) => {
                assert(secs.drop_first()[k as int] == secs[k + 1]);
            },
            None => {},
        }
    }
}

/// How `find_sec` relates to the position a forward scan finds: up to `i`
/// no section has the index, and `i` (when in range) does.
pub proof fn lemma_find_sec_at(secs: Seq<SectionModel>, si: usize, i: int)
    requires
        secs.len() <= usize::MAX,
        0 <= i <= secs.len(),
        forall|j: int| 0 <= j < i ==> (#[trigger] secs[j].index) != si,
        i < secs.len() ==> secs[i].index == si,
    ensures
        find_sec(secs, si) == if i < secs.len() {
            Some(i as usize)
        } else {
            Option::<usize>::None
        },
    decreases secs.len(),
{
    if secs.len() == 0 {
    } else if i == 0 {
    } else {
        assert(secs[0].index != si);
        assert(forall|j: int|
            0 <= j < i - 1 ==> (#[trigger] secs.drop_first()[j]).index == secs[j + 1].index);
        if i - 1 < secs.drop_first().len() {
            assert(secs.drop_first()[i - 1] == secs[i]);
        }
        lemma_find_sec_at(secs.drop_first(), si, i - 1);
    }
}

/// The symbol a retained raw symbol becomes, linked against the retained
/// sections.
pub open spec fn make_sym(r: RawSymbolModel, secs: Seq<SectionModel>) -> SymbolModel {
    SymbolModel {
        name_bytes: r.name->Some_0,
        name: lossy_utf8(r.name->Some_0),
        demangled: demangled_of(lossy_utf8(r.name->Some_0)),
        address: r.address,
        size: r.size,
        section: match r.section {
            Some(si) => find_sec(secs, si),
            None => None,
        },
        index: r.index,
    }
}

/// The retained symbols in symbol-table order, before sorting by name.
pub open spec fn build_syms(
    rsyms: Seq<RawSymbolModel>,
    secs: Seq<SectionModel>,
) -> Seq<SymbolModel>
    decreases rsyms.len(),
{
    if rsyms.len() == 0 {
        Seq::empty()
    } else {
        (if keep_symbol(rsyms[0]) {
            seq![make_sym(rsyms[0], secs)]
        } else {
            Seq::empty()
        }) + build_syms(rsyms.drop_first(), secs)
    }
}

/// The container that the model builder yields from raw records: retained
/// sections with their relocations and filled, strictly ascending
/// symbol-address lists, and the retained code symbols sorted by raw name.
pub open spec fn built_container(
    format: FormatTag,
    rsecs: Seq<RawSectionModel>,
    rel: Seq<Seq<(u64, RelocTarget)>>,
    rsyms: Seq<RawSymbolModel>,
    name: Seq<char>,
    path: Seq<char>,
) -> ContainerModel {
    let secs = fill_addrs(build_secs(rsecs, rel), rsyms);
    ContainerModel {
        name: name,
        path: path,
        format: format,
        sections: secs,
        symbols: sort_syms(build_syms(rsyms, secs)),
    }
}

/// Spec view of a raw section vector.
pub open spec fn raw_sec_views(v: Seq<RawSection>) -> Seq<RawSectionModel> {
    v.map_values(|r: RawSection| r@)
}

/// Spec view of a raw symbol vector.
pub open spec fn raw_sym_views(v: Seq<RawSymbol>) -> Seq<RawSymbolModel> {
    v.map_values(|r: RawSymbol| r@)
}

/// Spec view of a section vector.
pub open spec fn sec_views(v: Seq<Section>) -> Seq<SectionModel> {
    v.map_values(|s: Section| s@)
}

/// Spec view of a relocation-list vector.
pub open spec fn rel_views(v: Seq<Vec<(u64, RelocTarget)>>) -> Seq<Seq<(u64, RelocTarget)>> {
    v.map_values(|r: Vec<(u64, RelocTarget)>| r@)
}

/// Every address list of a built container's sections is strictly ascending.
pub proof fn lemma_addrs_for_sorted(rsyms: Seq<RawSymbolModel>, si: usize)
    ensures
        crate::model::strictly_sorted(addrs_for(rsyms, si)),
    decreases rsyms.len(),
{
    if rsyms.len() == 0 {
    } else {
        lemma_addrs_for_sorted(rsyms.drop_last(), si);
        if rsyms.last().is_code && rsyms.last().section == Some(si) {
            lemma_insert_addr_sorted(addrs_for(rsyms.drop_last(), si), rsyms.last().address);
        }
    }
}

/// Every symbol of the insertion sort's result occurs in its input.
pub proof fn lemma_sort_syms_from(s: Seq<SymbolModel>, j: int)
    requires
        0 <= j < sort_syms(s).len(),
    ensures
        s.contains(sort_syms(s)[j]),
    decreases s.len(),
{
    if s.len() == 0 {
    } else {
        lemma_insert_sym_contains(sort_syms(s.drop_first()), s[0], j);
        let x = sort_syms(s)[j];
        if x == s[0] {
            assert(s[0] == x);
        } else {
            assert(sort_syms(s.drop_first()).contains(x));
            let k = choose|k: int|
                0 <= k < sort_syms(s.drop_first()).len() && sort_syms(s.drop_first())[k] == x;
            lemma_sort_syms_from(s.drop_first(), k);
            let m = choose|m: int| 0 <= m < s.drop_first().len() && s.drop_first()[m] == x;
            assert(s[m + 1] == x);
        }
    }
}

/// Every symbol that `build_syms` yields has an in-range section link.
pub proof fn lemma_build_syms_linked(
    rsyms: Seq<RawSymbolModel>,
    secs: Seq<SectionModel>,
    j: int,
)
    requires
        secs.len() <= usize::MAX,
        0 <= j < build_syms(rsyms, secs).len(),
    ensures
        match build_syms(rsyms, secs)[j].section {
            Some(k) => k < secs.len(),
            None => true,
        },
    decreases rsyms.len(),
{
    if rsyms.len() == 0 {
    } else {
        let head_len: int = if keep_symbol(rsyms[0]) {
            1
        } else {
            0
        };
        if j < head_len {
            match rsyms[0].section {
                Some(si) => {
                    lemma_find_sec_in_range(secs, si);
                },
                None => {},
            }
        } else {
            lemma_build_syms_linked(rsyms.drop_first(), secs, j - head_len);
        }
    }
}

/// A built container is well formed: its address lists are strictly
/// ascending, its symbols are name-sorted, and every section link is in
/// range.
pub proof fn lemma_built_container_wf(
    format: FormatTag,
    rsecs: Seq<RawSectionModel>,
    rel: Seq<Seq<(u64, RelocTarget)>>,
    rsyms: Seq<RawSymbolModel>,
    name: Seq<char>,
    path: Seq<char>,
)
    requires
        rsecs.len() <= usize::MAX,
    ensures
        built_container(format, rsecs, rel, rsyms, name, path).wf(),
{
    lemma_build_secs_len(rsecs, rel);
    let secs = fill_addrs(build_secs(rsecs, rel), rsyms);
    let c = built_container(format, rsecs, rel, rsyms, name, path);
    assert forall|k: int|
        0 <= k < c.sections.len() implies crate::model::strictly_sorted(
        #[trigger] c.sections[k].symbol_addrs,
    ) by {
        lemma_addrs_for_sorted(rsyms, build_secs(rsecs, rel)[k].index);
    }
    assert forall|i: int|
        0 <= i < c.symbols.len() implies match #[trigger] c.symbols[i].section {
        Some(k) => k < c.sections.len(),
        None => true,
    } by {
        lemma_sort_syms_from(build_syms(rsyms, secs), i);
        let x = c.symbols[i];
        let m = choose|m: int|
            0 <= m < build_syms(rsyms, secs).len() && build_syms(rsyms, secs)[m] == x;
        lemma_build_syms_linked(rsyms, secs, m);
    }
    lemma_sort_syms_sorted(build_syms(rsyms, secs));
}

/// The position of the first section with native index `si`, by forward
/// scan.
pub fn find_section(secs: &Vec<Section>, si: usize) -> (r: Option<usize>)
    ensures
        r == find_sec(sec_views(secs@), si),
{
    let ghost s = sec_views(secs@);
    let mut i: usize = 0;
    while i < secs.len()
        invariant
            i <= secs@.len(),
            s == sec_views(secs@),
            forall|j: int| 0 <= j < i ==> (#[trigger] s[j].index) != si,
        decreases secs@.len() - i,
    {
        proof {
            assert(s[i as int] == secs@[i as int]@);
        }
        if secs[i].index == si {
            proof {
                lemma_find_sec_at(s, si, i as int);
            }
            return Some(i);
        }
        i = i + 1;
    }
    proof {
        lemma_find_sec_at(s, si, secs@.len() as int);
    }
    None
}

/// Builds a container from raw records: the verified core of the loader.
/// `relocations` gives, positionally for each raw section, its relocation
/// records.
pub fn build_container(
    format: FormatTag,
    raw_sections: Vec<RawSection>,
    relocations: Vec<Vec<(u64, RelocTarget)>>,
    raw_symbols: Vec<RawSymbol>,
    name: String,
    path: String,
) -> (r: Container)
    requires
        relocations@.len() == raw_sections@.len(),
    ensures
        r@ == built_container(
            format,
            raw_sec_views(raw_sections@),
            rel_views(relocations@),
            raw_sym_views(raw_symbols@),
            name@,
            path@,
        ),
        r@.wf(),
{
    let ghost grsecs = raw_sec_views(raw_sections@);
    let ghost grel = rel_views(relocations@);
    let ghost grsyms = raw_sym_views(raw_symbols@);
    let section_count = raw_sections.len();
    proof {
        assert(grsecs.len() == section_count as int);
    }

    // Phase one: retained sections, in file order, with empty address lists.
    let mut rsecs = raw_sections;
    let mut rels = relocations;
    let mut secs: Vec<Section> = Vec::new();
    proof {
        assert(grsecs.skip(grsecs.len() as int) =~= Seq::<RawSectionModel>::empty());
        assert(grel.skip(grel.len() as int) =~= Seq::<Seq<(u64, RelocTarget)>>::empty());
        assert(sec_views(secs@) =~= build_secs(
            grsecs.skip(grsecs.len() as int),
            grel.skip(grel.len() as int),
        ));
        assert(raw_sec_views(rsecs@) =~= grsecs.take(grsecs.len() as int));
        assert(rel_views(rels@) =~= grel.take(grel.len() as int));
    }
    loop
        invariant
            rsecs@.len() == rels@.len(),
            rsecs@.len() <= grsecs.len(),
            grel.len() == grsecs.len(),
            raw_sec_views(rsecs@) == grsecs.take(rsecs@.len() as int),
            rel_views(rels@) == grel.take(rels@.len() as int),
            sec_views(secs@) == build_secs(
                grsecs.skip(rsecs@.len() as int),
                grel.skip(rels@.len() as int),
            ),
        ensures
            sec_views(secs@) == build_secs(grsecs, grel),
        decreases rsecs@.len(),
    {
        let n = rsecs.len();
        if n == 0 {
            proof {
                assert(grsecs.skip(0) =~= grsecs);
                assert(grel.skip(0) =~= grel);
            }
            break;
        }
        let rs = match rsecs.pop() {
            Some(x) => x,
            None => {
                proof {
                    assert(false);
                }
                break;
            },
        };
        let rl = match rels.pop() {
            Some(x) => x,
            None => {
                proof {
                    assert(false);
                }
                break;
            },
        };
        proof {
            assert(rs@ == grsecs.take(n as int)[n - 1]);
            assert(rs@ == grsecs[n - 1]);
            assert(rl@ == grel.take(n as int)[n - 1]);
            assert(rl@ == grel[n - 1]);
            assert(raw_sec_views(rsecs@) =~= grsecs.take(n - 1));
            assert(rel_views(rels@) =~= grel.take(n - 1));
            assert(grsecs.skip(n - 1)[0] == grsecs[n - 1]);
            assert(grel.skip(n - 1)[0] == grel[n - 1]);
            assert(grsecs.skip(n - 1).drop_first() =~= grsecs.skip(n as int));
            assert(grel.skip(n - 1).drop_first() =~= grel.skip(n as int));
        }
        let ghost before = sec_views(secs@);
        match rs {
            RawSection { index, name: sname, address, data } => {
                match (sname, data) {
                    (Some(nb), Some(db)) => {
                        let sec = Section {
                            name: lossy_string(nb.as_slice()),
                            address: address,
                            data: db,
                            relocations: rl,
                            symbol_addrs: Vec::new(),
                            index: index,
                        };
                        proof {
                            assert(sec@ == make_sec(grsecs[n - 1], grel[n - 1]));
                        }
                        secs.insert(0, sec);
                        proof {
                            assert(sec_views(secs@) =~= seq![
                                make_sec(grsecs[n - 1], grel[n - 1]),
                            ] + before);
                        }
                    },
                    _ => {
                        proof {
                            assert(!keep_section(grsecs[n - 1]));
                        }
                    },
                }
            },
        }
    }

    // Phase two: fill each section's symbol-address list from the symbol
    // table, in symbol-table order.
    let ghost base = build_secs(grsecs, grel);
    let mut j: usize = 0;
    proof {
        assert(grsyms.take(0) =~= Seq::<RawSymbolModel>::empty());
        assert forall|k: int| 0 <= k < secs@.len() implies #[trigger] sec_views(secs@)[k]
            == (SectionModel { symbol_addrs: addrs_for(grsyms.take(0), base[k].index), ..base[k] }) by {
            assert(addrs_for(grsyms.take(0), base[k].index) =~= Seq::<u64>::empty());
            assert(sec_views(secs@)[k] == base[k]);
            lemma_build_secs_empty_addrs(grsecs, grel, k);
            assert(base[k] =~= (SectionModel {
                symbol_addrs: addrs_for(grsyms.take(0), base[k].index),
                ..base[k]
            }));
        }
    }
    while j < raw_symbols.len()
        invariant
            j <= raw_symbols@.len(),
            grsyms == raw_sym_views(raw_symbols@),
            secs@.len() == base.len(),
            forall|k: int|
                0 <= k < secs@.len() ==> #[trigger] sec_views(secs@)[k] == (SectionModel {
                    symbol_addrs: addrs_for(grsyms.take(j as int), base[k].index),
                    ..base[k]
                }),
        decreases raw_symbols@.len() - j,
    {
        let rs_is_code = raw_symbols[j].is_code;
        let rs_section = raw_symbols[j].section;
        let rs_address = raw_symbols[j].address;
        proof {
            assert(grsyms[j as int] == raw_symbols@[j as int]@);
            assert(grsyms.take(j + 1).drop_last() =~= grsyms.take(j as int));
            assert(grsyms.take(j + 1).last() == grsyms[j as int]);
        }
        match (rs_is_code, rs_section) {
            (true, Some(si)) => {
                let mut k: usize = 0;
                while k < secs.len()
                    invariant
                        k <= secs@.len(),
                        secs@.len() == base.len(),
                        rs_is_code == grsyms[j as int].is_code,
                        Some(si) == grsyms[j as int].section,
                        rs_address == grsyms[j as int].address,
                        grsyms[j as int].is_code,
                        j < grsyms.len(),
                        forall|m: int|
                            0 <= m < k ==> #[trigger] sec_views(secs@)[m] == (SectionModel {
                                symbol_addrs: addrs_for(grsyms.take(j + 1), base[m].index),
                                ..base[m]
                            }),
                        forall|m: int|
                            k <= m < secs@.len() ==> #[trigger] sec_views(secs@)[m]
                                == (SectionModel {
                                symbol_addrs: addrs_for(grsyms.take(j as int), base[m].index),
                                ..base[m]
                            }),
                    decreases secs@.len() - k,
                {
                    proof {
                        assert(sec_views(secs@)[k as int] == secs@[k as int]@);
                        assert(grsyms.take(j + 1).drop_last() =~= grsyms.take(j as int));
                        assert(grsyms.take(j + 1).last() == grsyms[j as int]);
                    }
                    let ghost secs_before = secs@;
                    if secs[k].index == si {
                        push_addr(&mut secs[k].symbol_addrs, rs_address);
                    }
                    proof {
                        assert(sec_views(secs@)[k as int] == secs@[k as int]@);
                        if secs_before[k as int]@.index == si {
                            assert(secs@[k as int]@.symbol_addrs == insert_addr(
                                addrs_for(grsyms.take(j as int), base[k as int].index),
                                rs_address,
                            ));
                            assert(secs@[k as int]@ =~= (SectionModel {
                                symbol_addrs: addrs_for(grsyms.take(j + 1), base[k as int].index),
                                ..base[k as int]
                            }));
                        } else {
                            assert(addrs_for(grsyms.take(j + 1), base[k as int].index)
                                == addrs_for(grsyms.take(j as int), base[k as int].index));
                            assert(secs@[k as int] == secs_before[k as int]);
                        }
                        assert forall|m: int|
                            0 <= m < k + 1 implies #[trigger] sec_views(secs@)[m] == (SectionModel {
                            symbol_addrs: addrs_for(grsyms.take(j + 1), base[m].index),
                            ..base[m]
                        }) by {
                            assert(sec_views(secs@)[m] == secs@[m]@);
                            if m < k {
                                assert(secs@[m] == secs_before[m]);
                                assert(sec_views(secs_before)[m] == secs_before[m]@);
                            }
                        }
                        assert forall|m: int|
                            k + 1 <= m < secs@.len() implies #[trigger] sec_views(secs@)[m]
                            == (SectionModel {
                            symbol_addrs: addrs_for(grsyms.take(j as int), base[m].index),
                            ..base[m]
                        }) by {
                            assert(secs@[m] == secs_before[m]);
                            assert(sec_views(secs@)[m] == secs@[m]@);
                            assert(sec_views(secs_before)[m] == secs_before[m]@);
                        }
                    }
                    k = k + 1;
                }
            },
            _ => {
                proof {
                    assert forall|k: int|
                        0 <= k < secs@.len() implies #[trigger] sec_views(secs@)[k]
                        == (SectionModel {
                        symbol_addrs: addrs_for(grsyms.take(j + 1), base[k].index),
                        ..base[k]
                    }) by {
                        assert(addrs_for(grsyms.take(j + 1), base[k].index) == addrs_for(
                            grsyms.take(j as int),
                            base[k].index,
                        ));
                    }
                }
            },
        }
        j = j + 1;
    }
    proof {
        assert(grsyms.take(grsyms.len() as int) =~= grsyms);
        assert(sec_views(secs@) =~= fill_addrs(base, grsyms));
    }

    // Phase three: retained code symbols, then sorted by raw name.
    let ghost gsecs = fill_addrs(base, grsyms);
    let mut rsyms = raw_symbols;
    let mut syms: Vec<Symbol> = Vec::new();
    proof {
        assert(grsyms.skip(grsyms.len() as int) =~= Seq::<RawSymbolModel>::empty());
        assert(sym_views(syms@) =~= build_syms(grsyms.skip(grsyms.len() as int), gsecs));
        assert(raw_sym_views(rsyms@) =~= grsyms.take(grsyms.len() as int));
    }
    loop
        invariant
            rsyms@.len() <= grsyms.len(),
            raw_sym_views(rsyms@) == grsyms.take(rsyms@.len() as int),
            sym_views(syms@) == build_syms(grsyms.skip(rsyms@.len() as int), gsecs),
            sec_views(secs@) == gsecs,
        ensures
            sym_views(syms@) == build_syms(grsyms, gsecs),
            sec_views(secs@) == gsecs,
        decreases rsyms@.len(),
    {
        let n = rsyms.len();
        if n == 0 {
            proof {
                assert(grsyms.skip(0) =~= grsyms);
            }
            break;
        }
        let rs = match rsyms.pop() {
            Some(x) => x,
            None => {
                proof {
                    assert(false);
                }
                break;
            },
        };
        proof {
            assert(rs@ == grsyms.take(n as int)[n - 1]);
            assert(rs@ == grsyms[n - 1]);
            assert(raw_sym_views(rsyms@) =~= grsyms.take(n - 1));
            assert(grsyms.skip(n - 1)[0] == grsyms[n - 1]);
            assert(grsyms.skip(n - 1).drop_first() =~= grsyms.skip(n as int));
        }
        let ghost before = sym_views(syms@);
        match rs {
            RawSymbol { index, is_code, name: sname, address, size, section } => {
                match (is_code, sname) {
                    (true, Some(nb)) => {
                        let display = lossy_string(nb.as_slice());
                        let demangled = demangle_name(display.as_str());
                        let slot = match section {
                            Some(si) => find_section(&secs, si),
                            None => None,
                        };
                        let sym = Symbol {
                            name_bytes: nb,
                            name: display,
                            demangled: demangled,
                            address: address,
                            size: size,
                            section: slot,
                            index: index,
                        };
                        proof {
                            assert(sym@ == make_sym(grsyms[n - 1], gsecs));
                        }
                        syms.insert(0, sym);
                        proof {
                            assert(sym_views(syms@) =~= seq![
                                make_sym(grsyms[n - 1], gsecs),
                            ] + before);
                        }
                    },
                    _ => {
                        proof {
                            assert(!keep_symbol(grsyms[n - 1]));
                        }
                    },
                }
            },
        }
    }
    let sorted = sort_symbols(syms);
    let c = Container { name: name, path: path, format: format, sections: secs, symbols: sorted };
    proof {
        lemma_built_container_wf(format, grsecs, grel, grsyms, name@, path@);
    }
    c
}

} // verus!
