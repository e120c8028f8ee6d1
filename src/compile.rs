use vstd::prelude::*;

use crate::address::AccountAddress;
use crate::dialect::{resolve, resolve_address, AddressError, DialectName};
use crate::rewrite::{
    records_from, rewrite, rewritten_from, translate_position, OffsetMap, Rewrite,
};

verus! {

/// A byte range of one source unit that a compiler diagnostic points at.
#[derive(Debug, Clone, Copy, PartialEq, Eq, Structural)]
pub struct Span {
    pub file: usize,
    pub start: usize,
    pub end: usize,
}

/// Sources rewritten for the compiler, with the resolved sender.
pub struct Prepared {
    pub units: Vec<Rewrite>,
    pub sender: AccountAddress,
}

/// Rewrites every source unit and resolves the sender, or fails on the sender.
pub fn prepare_compilation(d: DialectName, sources: &Vec<Vec<u8>>, sender: &[u8]) -> (r: Result<
    Prepared,
    AddressError,
>)
    ensures
        resolve(d, sender@) is Some <==> r is Ok,
        r matches Err(e) ==> e.literal@ == sender@ && e.dialect == d,
        r matches Ok(p) ==> {
            &&& Some(p.sender@) == resolve(d, sender@)
            &&& p.units@.len() == sources@.len()
            &&& forall|k: int|
                0 <= k < sources@.len() ==> (#[trigger] p.units@[k]).text@ == rewritten_from(
                    d,
                    sources@[k]@,
                    0,
                ) && p.units@[k].map.records@ == records_from(d, sources@[k]@, 0, 0)
                    && p.units@[k].map.wf()
        },
{
    let sender = match resolve_address(d, sender) {
        Ok(a) => a,
        Err(e) => {
            return Err(e);
        },
    };
    let mut units: Vec<Rewrite> = Vec::new();
    let mut k: usize = 0;
    while k < sources.len()
        invariant
            k <= sources@.len(),
            units@.len() == k,
            forall|j: int|
                0 <= j < k ==> (#[trigger] units@[j]).text@ == rewritten_from(d, sources@[j]@, 0)
                    && units@[j].map.records@ == records_from(d, sources@[j]@, 0, 0)
                    && units@[j].map.wf(),
        decreases sources@.len() - k,
    {
        units.push(rewrite(d, sources[k].as_slice()));
        k = k + 1;
    }
    Ok(Prepared { units, sender })
}

/// Where rewritten position `p` of a unit with records `recs` came from; a
/// position whose origin does not fit in `usize` is kept.
pub open spec fn original_position(map: OffsetMap, p: int) -> int {
    let t = translate_position(map.records@, p);
    if t <= usize::MAX {
        t
    } else {
        p
    }
}

/// A span moved from rewritten text back into the original text of its unit;
/// a span of a unit that `maps` does not cover is kept.
pub open spec fn original_span(maps: Seq<OffsetMap>, s: Span) -> Span {
    if s.file < maps.len() {
        Span {
            file: s.file,
            start: original_position(maps[s.file as int], s.start as int) as usize,
            end: original_position(maps[s.file as int], s.end as int) as usize,
        }
    } else {
        s
    }
}

fn translate_or_keep(map: &OffsetMap, p: usize) -> (r: usize)
    requires
        map.wf(),
    ensures
        r == original_position(*map, p as int),
{
    match map.translate(p) {
        Some(t) => t,
        None => p,
    }
}

/// Moves the spans of compiler diagnostics from rewritten text back into the
/// sources that the caller gave.
pub fn translate_spans(maps: &Vec<OffsetMap>, spans: &Vec<Span>) -> (r: Vec<Span>)
    requires
        forall|k: int| 0 <= k < maps@.len() ==> (#[trigger] maps@[k]).wf(),
    ensures
        r@.len() == spans@.len(),
        forall|k: int|
            0 <= k < spans@.len() ==> #[trigger] r@[k] == original_span(maps@, spans@[k]),
{
    let mut out: Vec<Span> = Vec::new();
    let mut k: usize = 0;
    while k < spans.len()
        invariant
            k <= spans@.len(),
            out@.len() == k,
            forall|j: int| 0 <= j < maps@.len() ==> (#[trigger] maps@[j]).wf(),
            forall|j: int|
                0 <= j < k ==> #[trigger] out@[j] == original_span(maps@, spans@[j]),
        decreases spans@.len() - k,
    {
        let s = spans[k];
        if s.file < maps.len() {
            let m = &maps[s.file];
            let start = translate_or_keep(m, s.start);
            let end = translate_or_keep(m, s.end);
            out.push(Span { file: s.file, start, end });
        } else {
            out.push(s);
        }
        k = k + 1;
    }
    out
}

/// A unit that the compiler produced.
#[derive(Debug, PartialEq, Eq)]
pub enum CompiledUnit {
    Module { address: AccountAddress, name: Vec<u8>, bytecode: Vec<u8> },
    Script { bytecode: Vec<u8> },
}

pub open spec fn is_module(u: CompiledUnit) -> bool {
    u is Module
}

/// Splits compiled units into modules and scripts, each in the order given.
pub fn partition_units(units: Vec<CompiledUnit>) -> (r: (Vec<CompiledUnit>, Vec<CompiledUnit>))
    ensures
        r.0@ == units@.filter(|u: CompiledUnit| is_module(u)),
        r.1@ == units@.filter(|u: CompiledUnit| !is_module(u)),
{
    let ghost all = units@;
    let ghost modp = |u: CompiledUnit| is_module(u);
    let ghost scrp = |u: CompiledUnit| !is_module(u);
    let mut rest = units;
    let n = rest.len();
    let mut modules: Vec<CompiledUnit> = Vec::new();
    let mut scripts: Vec<CompiledUnit> = Vec::new();
    let mut k: usize = 0;
    assert(all.subrange(0, 0).filter(modp) =~= Seq::<CompiledUnit>::empty());
    assert(all.subrange(0, 0).filter(scrp) =~= Seq::<CompiledUnit>::empty());
    assert(rest@ =~= all.subrange(0, all.len() as int));
    while rest.len() > 0
        invariant
            k + rest@.len() == all.len(),
            all.len() == n,
            rest@ == all.subrange(k as int, all.len() as int),
            modp == (|u: CompiledUnit| is_module(u)),
            scrp == (|u: CompiledUnit| !is_module(u)),
            modules@ == all.subrange(0, k as int).filter(modp),
            scripts@ == all.subrange(0, k as int).filter(scrp),
        decreases rest@.len(),
    {
        let u = rest.remove(0);
        proof {
            assert(all.subrange(0, k + 1) =~= all.subrange(0, k as int).push(u));
            all.subrange(0, k as int).lemma_filter_push(u, modp);
            all.subrange(0, k as int).lemma_filter_push(u, scrp);
        }
        match u {
            CompiledUnit::Module { .. } => modules.push(u),
            CompiledUnit::Script { .. } => scripts.push(u),
        }
        k = k + 1;
    }
    assert(all.subrange(0, k as int) =~= all);
    (modules, scripts)
}

} // verus!
