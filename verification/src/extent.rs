//! Extent estimation: a symbol's byte span runs until the next known code
//! symbol in its section, or to the end of the section for the last one.
//! All address arithmetic is checked: an inconsistent layout yields no
//! extent rather than a wrapped value, and `data` never yields bytes beyond
//! its section.

use vstd::prelude::*;

use crate::model::{Container, ContainerModel, strictly_sorted};

verus! {

/// The position of the first occurrence of `a`, meaningful when `s`
/// contains `a`.
pub open spec fn first_index_of(s: Seq<u64>, a: u64) -> int
    decreases s.len(),
{
    if s.len() == 0 {
        0
    } else if s[0] == a {
        0
    } else {
        1 + first_index_of(s.drop_first(), a)
    }
}

/// The first occurrence of a contained value is in range, hits the value,
/// and nothing before it does.
pub proof fn lemma_first_index_of(s: Seq<u64>, a: u64)
    requires
        s.contains(a),
    ensures
        0 <= first_index_of(s, a) < s.len(),
        s[first_index_of(s, a)] == a,
    decreases s.len(),
{
    if s.len() == 0 {
    } else if s[0] == a {
    } else {
        assert(s.drop_first().contains(a)) by {
            let i = choose|i: int| 0 <= i < s.len() && s[i] == a;
            assert(s.drop_first()[i - 1] == a);
        }
        lemma_first_index_of(s.drop_first(), a);
        assert(s[1 + first_index_of(s.drop_first(), a)] == s.drop_first()[first_index_of(
            s.drop_first(),
            a,
        )]);
    }
}

/// In a strictly ascending sequence a value occurs at most once.
pub proof fn lemma_strict_unique(s: Seq<u64>, i: int, j: int)
    requires
        strictly_sorted(s),
        0 <= i < s.len(),
        0 <= j < s.len(),
        s[i] == s[j],
    ensures
        i == j,
{
    if i < j {
        assert(s[i] < s[j]);
    }
    if j < i {
        assert(s[j] < s[i]);
    }
}

/// Exact-match binary search over a strictly ascending address list.
pub fn bsearch(v: &Vec<u64>, x: u64) -> (r: Option<usize>)
    requires
        strictly_sorted(v@),
    ensures
        match r {
            Some(i) => i < v@.len() && v@[i as int] == x,
            None => !v@.contains(x),
        },
{
    let mut lo: usize = 0;
    let mut hi: usize = v.len();
    while lo < hi
        invariant
            lo <= hi <= v@.len(),
            strictly_sorted(v@),
            forall|j: int| 0 <= j < lo ==> v@[j] < x,
            forall|j: int| hi <= j < v@.len() ==> v@[j] > x,
        decreases hi - lo,
    {
        let mid = lo + (hi - lo) / 2;
        let y = v[mid];
        if y == x {
            return Some(mid);
        } else if y < x {
            lo = mid + 1;
        } else {
            hi = mid;
        }
    }
    proof {
        if v@.contains(x) {
            let j = choose|j: int| 0 <= j < v@.len() && v@[j] == x;
            if j < lo {
                assert(v@[j] < x);
            } else {
                assert(v@[j] > x);
            }
        }
    }
    None
}

/// The estimated byte extent of the symbol at position `i` of the
/// container's symbol list: the distance to the next code-symbol address in
/// its section, or to the section's end for the last one; `None` when the
/// symbol has no retained section, its address is not in the section's
/// address list, or the arithmetic would wrap.
pub open spec fn spec_estimate_size(c: ContainerModel, i: int) -> Option<u64> {
    if !(0 <= i < c.symbols.len()) {
        None
    } else {
        let sym = c.symbols[i];
        match sym.section {
            None => None,
            Some(k) => {
                if k >= c.sections.len() {
                    None
                } else {
                    let sec = c.sections[k as int];
                    if !sec.symbol_addrs.contains(sym.address) {
                        None
                    } else {
                        let j = first_index_of(sec.symbol_addrs, sym.address);
                        if j + 1 == sec.symbol_addrs.len() {
                            let sec_end = sec.address + sec.data.len();
                            if sec_end > u64::MAX {
                                None
                            } else if sec_end < sym.address {
                                None
                            } else {
                                Some((sec_end - sym.address) as u64)
                            }
                        } else {
                            let next = sec.symbol_addrs[j + 1];
                            if next < sym.address {
                                None
                            } else {
                                Some((next - sym.address) as u64)
                            }
                        }
                    }
                }
            },
        }
    }
}

/// The exact byte span of the symbol at position `i`: its section's bytes
/// from its address for its estimated extent; `None` when the extent cannot
/// be estimated, the address precedes the section base, the offsets do not
/// fit the machine, or the span would leave the section.
pub open spec fn spec_data(c: ContainerModel, i: int) -> Option<Seq<u8>> {
    match spec_estimate_size(c, i) {
        None => None,
        Some(size) => {
            let sym = c.symbols[i];
            let sec = c.sections[sym.section->Some_0 as int];
            if sym.address < sec.address {
                None
            } else {
                let off = sym.address - sec.address;
                if off > usize::MAX {
                    None
                } else if size > usize::MAX {
                    None
                } else if off + size > sec.data.len() {
                    None
                } else {
                    Some(sec.data.subrange(off, off + size))
                }
            }
        },
    }
}

impl Container {
    /// Estimates the byte extent of the symbol at position `i` of the
    /// symbol list.
    pub fn estimate_size(&self, i: usize) -> (r: Option<u64>)
        requires
            self@.wf(),
        ensures
            r == spec_estimate_size(self@, i as int),
    {
        if i >= self.symbols.len() {
            return None;
        }
        proof {
            assert(self@.symbols[i as int] == self.symbols@[i as int]@);
        }
        let k = match self.symbols[i].section {
            Some(k) => k,
            None => {
                return None;
            },
        };
        if k >= self.sections.len() {
            return None;
        }
        proof {
            assert(self@.sections[k as int] == self.sections@[k as int]@);
        }
        let addr = self.symbols[i].address;
        let j = match bsearch(&self.sections[k].symbol_addrs, addr) {
            Some(j) => j,
            None => {
                return None;
            },
        };
        proof {
            let addrs = self@.sections[k as int].symbol_addrs;
            assert(addrs.contains(addrs[j as int]));
            lemma_first_index_of(addrs, addr);
            lemma_strict_unique(addrs, j as int, first_index_of(addrs, addr));
        }
        let alen = self.sections[k].symbol_addrs.len();
        if j + 1 == alen {
            let dlen: u64 = self.sections[k].data.len() as u64;
            let sec_end = match self.sections[k].address.checked_add(dlen) {
                Some(e) => e,
                None => {
                    return None;
                },
            };
            sec_end.checked_sub(addr)
        } else {
            let next = self.sections[k].symbol_addrs[j + 1];
            next.checked_sub(addr)
        }
    }

    /// The exact byte span of the symbol at position `i`, as a slice of its
    /// section's bytes.
    pub fn data(&self, i: usize) -> (r: Option<&[u8]>)
        requires
            self@.wf(),
        ensures
            match r {
                Some(b) => spec_data(self@, i as int) == Some(b@),
                None => spec_data(self@, i as int) is None,
            },
    {
        let size64 = match self.estimate_size(i) {
            Some(s) => s,
            None => {
                return None;
            },
        };
        proof {
            assert(0 <= (i as int) && (i as int) < self@.symbols.len());
            assert(self@.symbols[i as int] == self.symbols@[i as int]@);
        }
        let k = match self.symbols[i].section {
            Some(k) => k,
            None => {
                return None;
            },
        };
        proof {
            assert(self@.sections[k as int] == self.sections@[k as int]@);
        }
        let addr = self.symbols[i].address;
        let off64 = match addr.checked_sub(self.sections[k].address) {
            Some(o) => o,
            None => {
                return None;
            },
        };
        if off64 > (usize::MAX as u64) {
            return None;
        }
        if size64 > (usize::MAX as u64) {
            return None;
        }
        let off = off64 as usize;
        let size = size64 as usize;
        let dl = self.sections[k].data.len();
        let sec_end = match off.checked_add(size) {
            Some(e) => e,
            None => {
                return None;
            },
        };
        if sec_end > dl {
            return None;
        }
        let b = vstd::slice::slice_subrange(self.sections[k].data.as_slice(), off, sec_end);
        Some(b)
    }
}

} // verus!
