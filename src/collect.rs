use vstd::prelude::*;
use crate::module::{
    as_ints, candidate_indices, declared_candidates_from, imported_candidates,
    lemma_globals_after_imports_fit, entries, import_candidates, import_globals, imported_globals,
    lemma_entries_prefix, lemma_import_globals_le, lemma_take_step, local_candidates,
    memory_present, section_has_memory, within_limits, accesses, op_tally, tally,
    lemma_tally_le_entries, lemma_op_tally_le, GlobalDecl, ImportKind, Operator, Section,
};
use crate::classify::Candidate;

verus! {

/// Appends to `out` the indices of the candidate globals among the imports
/// `v`, numbering imported globals from `base`.  Returns the number of
/// imported globals and whether a memory is imported.
fn scan_imports(v: &Vec<ImportKind>, base: u32, out: &mut Vec<u32>) -> (r: (u32, bool))
    requires
        base + v@.len() <= u32::MAX,
    ensures
        as_ints(final(out)@) == as_ints(old(out)@) + import_candidates(v@, base as int),
        r.0 as int == import_globals(v@),
        r.1 == exists|j: int| 0 <= j < v@.len() && v@[j] is Memory,
{
    let mut count: u32 = 0;
    let mut memory = false;
    let mut j: usize = 0;
    while j < v.len()
        invariant
            j <= v@.len(),
            base + v@.len() <= u32::MAX,
            as_ints(out@) == as_ints(old(out)@) + import_candidates(v@.take(j as int), base as int),
            count as int == import_globals(v@.take(j as int)),
            memory == exists|m: int| 0 <= m < j && v@[m] is Memory,
        decreases v@.len() - j,
    {
        proof {
            lemma_take_step(v@, j as int);
            lemma_import_globals_le(v@.take(j as int));
        }
        let ghost before = out@;
        match v[j] {
            ImportKind::Global(g) => {
                if g.mutable && g.i32_typed {
                    out.push(base + count);
                    assert(as_ints(out@) =~= as_ints(before).push(base + count));
                }
                count += 1;
            },
            ImportKind::Memory => {
                memory = true;
            },
            ImportKind::Other => {},
        }
        proof {
            if v@[j as int] is Memory {
                assert(memory);
            }
        }
        j += 1;
    }
    assert(v@.take(v@.len() as int) =~= v@);
    (count, memory)
}

/// Appends to `out` the indices of the candidates among the local globals
/// `v`, whose index space starts at `base`.
fn scan_globals(v: &Vec<GlobalDecl>, base: u32, out: &mut Vec<u32>)
    requires
        base + v@.len() <= u32::MAX,
    ensures
        as_ints(final(out)@) == as_ints(old(out)@) + local_candidates(v@, base as int),
{
    let mut j: usize = 0;
    while j < v.len()
        invariant
            j <= v@.len(),
            base + v@.len() <= u32::MAX,
            as_ints(out@) == as_ints(old(out)@) + local_candidates(v@.take(j as int), base as int),
        decreases v@.len() - j,
    {
        proof {
            lemma_take_step(v@, j as int);
        }
        let ghost before = out@;
        let g = v[j];
        if g.mutable && g.i32_typed {
            out.push(base + j as u32);
            assert(as_ints(out@) =~= as_ints(before).push(base + j));
        }
        j += 1;
    }
    assert(v@.take(v@.len() as int) =~= v@);
}

/// Walks the import, global and memory sections among the first `n`
/// sections: the candidate indices (imported ones first, then local ones
/// numbered after all imported globals), and whether a memory is present.
pub fn declared_candidates(sections: &Vec<Section>, n: usize) -> (r: (Vec<u32>, bool))
    requires
        n <= sections@.len(),
        within_limits(sections@.take(n as int)),
    ensures
        as_ints(r.0@) == candidate_indices(sections@.take(n as int)),
        r.1 == memory_present(sections@.take(n as int)),
{
    let ghost t = sections@.take(n as int);
    let mut out: Vec<u32> = Vec::new();
    let mut imported: u32 = 0;
    let mut memory = false;
    let mut i: usize = 0;
    assert(as_ints(out@) =~= Seq::<int>::empty());
    while i < n
        invariant
            n <= sections@.len(),
            t == sections@.take(n as int),
            i <= n,
            entries(t) <= u32::MAX,
            as_ints(out@) == imported_candidates(t.take(i as int)),
            imported as int == imported_globals(t.take(i as int)),
            imported <= entries(t.take(i as int)),
            memory == memory_present(t.take(i as int)),
        decreases n - i,
    {
        proof {
            lemma_take_step(t, i as int);
            lemma_entries_prefix(t, i as int + 1);
            assert(t[i as int] == sections@[i as int]);
        }
        let ghost prefix = t.take(i as int + 1);
        match &sections[i] {
            Section::Imports(v) => {
                let (k, m) = scan_imports(v, imported, &mut out);
                proof {
                    lemma_import_globals_le(v@);
                }
                imported = imported + k;
                memory = memory || m;
            },
            Section::Memories(c) => {
                memory = memory || *c > 0;
            },
            _ => {},
        }
        proof {
            assert(memory == memory_present(prefix)) by {
                if memory_present(prefix) {
                    let w = choose|w: int| 0 <= w < prefix.len() && section_has_memory(prefix[w]);
                    if w < i {
                        assert(t.take(i as int)[w] == prefix[w]);
                    }
                }
                if memory_present(t.take(i as int)) {
                    let w = choose|w: int| 0 <= w < i && section_has_memory(t.take(i as int)[w]);
                    assert(prefix[w] == t.take(i as int)[w]);
                }
                if section_has_memory(t[i as int]) {
                    assert(prefix[i as int] == t[i as int]);
                }
            }
        }
        i += 1;
    }
    assert(t.take(n as int) =~= t);
    let ghost imports = out@;
    let base = imported;
    i = 0;
    assert(declared_candidates_from(t.take(0), base as int) =~= Seq::<int>::empty());
    assert(as_ints(imports) + Seq::<int>::empty() =~= as_ints(imports));
    while i < n
        invariant
            n <= sections@.len(),
            t == sections@.take(n as int),
            i <= n,
            base as int == imported_globals(t),
            entries(t) <= u32::MAX,
            as_ints(out@) == as_ints(imports) + declared_candidates_from(t.take(i as int), base as int),
        decreases n - i,
    {
        proof {
            lemma_take_step(t, i as int);
            assert(t[i as int] == sections@[i as int]);
        }
        if let Section::Globals(v) = &sections[i] {
            proof {
                lemma_globals_after_imports_fit(t, i as int);
            }
            let ghost before = out@;
            scan_globals(v, base, &mut out);
            proof {
                assert(as_ints(imports) + declared_candidates_from(t.take(i as int), base as int)
                    + local_candidates(v@, base as int) =~= as_ints(imports) + (
                declared_candidates_from(t.take(i as int), base as int) + local_candidates(
                    v@,
                    base as int,
                )));
            }
        } else {
            proof {
                let d = declared_candidates_from(t.take(i as int), base as int);
                assert(d + Seq::<int>::empty() =~= d);
            }
        }
        i += 1;
    }
    assert(t.take(n as int) =~= t);
    (out, memory)
}

/// The tallies the collector owes for the sections `t`: one per candidate,
/// in declaration order.
pub open spec fn expected_candidates(t: Seq<Section>) -> Seq<Candidate> {
    candidate_indices(t).map_values(
        |g: int|
            Candidate { index: g as u32, reads: tally(t, g, false) as u64, writes: tally(t, g, true) as u64 },
    )
}

pub open spec fn one_if(b: bool) -> int {
    if b { 1 } else { 0 }
}

/// Counts `op` towards every candidate that it reads or writes.
fn record(cands: &mut Vec<Candidate>, op: Operator)
    requires
        forall|k: int| 0 <= k < old(cands)@.len() ==> (#[trigger] old(cands)@[k]).reads < u64::MAX
            && old(cands)@[k].writes < u64::MAX,
    ensures
        final(cands)@.len() == old(cands)@.len(),
        forall|k: int| 0 <= k < final(cands)@.len() ==> {
            let (a, b) = (#[trigger] final(cands)@[k], old(cands)@[k]);
            &&& a.index == b.index
            &&& a.reads == b.reads + one_if(accesses(op, b.index as int, false))
            &&& a.writes == b.writes + one_if(accesses(op, b.index as int, true))
        },
{
    let mut k: usize = 0;
    while k < cands.len()
        invariant
            k <= cands@.len(),
            cands@.len() == old(cands)@.len(),
            forall|m: int| k <= m < cands@.len() ==> #[trigger] cands@[m] == old(cands)@[m],
            forall|m: int| 0 <= m < k ==> {
                let (a, b) = (#[trigger] cands@[m], old(cands)@[m]);
                &&& a.index == b.index
                &&& a.reads == b.reads + one_if(accesses(op, b.index as int, false))
                &&& a.writes == b.writes + one_if(accesses(op, b.index as int, true))
            },
            forall|m: int| 0 <= m < old(cands)@.len() ==> (#[trigger] old(cands)@[m]).reads < u64::MAX
                && old(cands)@[m].writes < u64::MAX,
        decreases cands@.len() - k,
    {
        let c = cands[k];
        assert(c == old(cands)@[k as int]);
        match op {
            Operator::GlobalGet(x) => {
                if x == c.index {
                    cands.set(k, Candidate { reads: c.reads + 1, ..c });
                }
            },
            Operator::GlobalSet(x) => {
                if x == c.index {
                    cands.set(k, Candidate { writes: c.writes + 1, ..c });
                }
            },
            _ => {},
        }
        k += 1;
    }
}

/// Tallies, over the function bodies among the first `n` sections, the reads
/// and writes of each global of `indices`.
fn tally_candidates(sections: &Vec<Section>, n: usize, indices: &Vec<u32>) -> (r: Vec<Candidate>)
    requires
        n <= sections@.len(),
        within_limits(sections@.take(n as int)),
    ensures
        r@.len() == indices@.len(),
        forall|k: int| 0 <= k < r@.len() ==> {
            let c = #[trigger] r@[k];
            &&& c.index == indices@[k]
            &&& c.reads == tally(sections@.take(n as int), indices@[k] as int, false)
            &&& c.writes == tally(sections@.take(n as int), indices@[k] as int, true)
        },
{
    let ghost t = sections@.take(n as int);
    let mut cands: Vec<Candidate> = Vec::new();
    let mut k: usize = 0;
    while k < indices.len()
        invariant
            k <= indices@.len(),
            cands@.len() == k,
            forall|m: int| 0 <= m < k ==> (#[trigger] cands@[m]) == (Candidate {
                index: indices@[m],
                reads: 0,
                writes: 0,
            }),
        decreases indices@.len() - k,
    {
        cands.push(Candidate { index: indices[k], reads: 0, writes: 0 });
        k += 1;
    }
    assert(t.take(0) =~= Seq::<Section>::empty());
    let mut i: usize = 0;
    while i < n
        invariant
            n <= sections@.len(),
            t == sections@.take(n as int),
            i <= n,
            entries(t) <= u32::MAX,
            cands@.len() == indices@.len(),
            forall|m: int| 0 <= m < cands@.len() ==> {
                let c = #[trigger] cands@[m];
                &&& c.index == indices@[m]
                &&& c.reads == tally(t.take(i as int), indices@[m] as int, false)
                &&& c.writes == tally(t.take(i as int), indices@[m] as int, true)
            },
        decreases n - i,
    {
        proof {
            lemma_take_step(t, i as int);
            lemma_entries_prefix(t, i as int + 1);
            assert(t[i as int] == sections@[i as int]);
        }
        if let Section::Code(ops) = &sections[i] {
            let ghost pre = t.take(i as int);
            let mut j: usize = 0;
            while j < ops.len()
                invariant
                    j <= ops@.len(),
                    entries(pre) + ops@.len() <= u32::MAX,
                    cands@.len() == indices@.len(),
                    forall|m: int| 0 <= m < cands@.len() ==> {
                        let c = #[trigger] cands@[m];
                        &&& c.index == indices@[m]
                        &&& c.reads == tally(pre, indices@[m] as int, false) + op_tally(
                            ops@.take(j as int),
                            indices@[m] as int,
                            false,
                        )
                        &&& c.writes == tally(pre, indices@[m] as int, true) + op_tally(
                            ops@.take(j as int),
                            indices@[m] as int,
                            true,
                        )
                    },
                decreases ops@.len() - j,
            {
                proof {
                    lemma_take_step(ops@, j as int);
                    assert forall|m: int| 0 <= m < cands@.len() implies (#[trigger] cands@[m]).reads
                        < u64::MAX && cands@[m].writes < u64::MAX by {
                        let g = indices@[m] as int;
                        lemma_tally_le_entries(pre, g, false);
                        lemma_tally_le_entries(pre, g, true);
                        lemma_op_tally_le(ops@.take(j as int), g, false);
                        lemma_op_tally_le(ops@.take(j as int), g, true);
                    }
                }
                record(&mut cands, ops[j]);
                j += 1;
            }
            assert(ops@.take(ops@.len() as int) =~= ops@);
        }
        i += 1;
    }
    assert(t.take(n as int) =~= t);
    cands
}

/// Memory presence and candidate tallies of a module.
pub struct Usage {
    pub has_memory: bool,
    pub candidates: Vec<Candidate>,
}

/// Collects the usage tallies of the first `n` sections, which all decoded.
/// When the module has no candidate, its function bodies are not scanned.
pub fn collect_usage(sections: &Vec<Section>, n: usize) -> (r: Usage)
    requires
        n <= sections@.len(),
        within_limits(sections@.take(n as int)),
    ensures
        r.has_memory == memory_present(sections@.take(n as int)),
        r.candidates@ == expected_candidates(sections@.take(n as int)),
{
    let ghost t = sections@.take(n as int);
    let (indices, has_memory) = declared_candidates(sections, n);
    let candidates = if indices.len() == 0 {
        Vec::new()
    } else {
        tally_candidates(sections, n, &indices)
    };
    assert(candidates@ =~= expected_candidates(t)) by {
        assert(as_ints(indices@).len() == indices@.len());
        assert forall|k: int| 0 <= k < indices@.len() implies candidate_indices(t)[k]
            == indices@[k] as int by {
            assert(as_ints(indices@)[k] == indices@[k] as int);
        }
    }
    Usage { has_memory, candidates }
}

} // verus!
