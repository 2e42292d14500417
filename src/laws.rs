use vstd::prelude::*;
use crate::module::{
    candidate_indices, declared_candidates_from, decoded, import_candidates, import_globals,
    imported_candidates, imported_globals, is_candidate, local_candidates, memory_present,
    GlobalDecl, ImportKind, Section,
};
use crate::classify::{
    area, best, classification, qualifies, Candidate, Failure, StackPointer, MIN_USES,
};
use crate::collect::expected_candidates;
use crate::analyze::expected_record;

verus! {

/// The chosen position holds a qualifying candidate whose area no other
/// qualifying candidate exceeds, and which every earlier qualifying
/// candidate falls short of; nothing is chosen only when nothing qualifies.
pub proof fn lemma_best_is_first_maximum(cs: Seq<Candidate>, min_uses: u64)
    ensures
        best(cs, min_uses) is None <==> forall|j: int| 0 <= j < cs.len() ==> !qualifies(
            #[trigger] cs[j],
            min_uses,
        ),
        best(cs, min_uses) matches Some(k) ==> {
            &&& 0 <= k < cs.len()
            &&& qualifies(cs[k], min_uses)
            &&& forall|j: int| 0 <= j < cs.len() && qualifies(#[trigger] cs[j], min_uses) ==> area(cs[j]) <= area(cs[k])
            &&& forall|j: int| 0 <= j < k && qualifies(#[trigger] cs[j], min_uses) ==> area(cs[j]) < area(cs[k])
        },
    decreases cs.len(),
{
    if cs.len() > 0 {
        let p = cs.drop_last();
        lemma_best_is_first_maximum(p, min_uses);
        assert forall|j: int| 0 <= j < p.len() implies #[trigger] p[j] == cs[j] by {}
        let n = cs.len() - 1;
        if best(cs, min_uses) == Some(n) {
            assert forall|j: int| 0 <= j < cs.len() && qualifies(#[trigger] cs[j], min_uses) implies area(cs[j])
                <= area(cs[n]) && (j < n ==> area(cs[j]) < area(cs[n])) by {
                if j < n {
                    assert(p[j] == cs[j]);
                }
            }
        } else if best(p, min_uses) is Some {
            let k = best(p, min_uses)->0;
            assert(p[k] == cs[k]);
            assert forall|j: int| 0 <= j < cs.len() && qualifies(#[trigger] cs[j], min_uses) implies area(cs[j])
                <= area(cs[k]) && (j < k ==> area(cs[j]) < area(cs[k])) by {
                if j < n {
                    assert(p[j] == cs[j]);
                }
            }
        } else {
            assert forall|j: int| 0 <= j < cs.len() implies !qualifies(#[trigger] cs[j], min_uses) by {
                if j < n {
                    assert(p[j] == cs[j]);
                }
            }
        }
    }
}

/// When the qualifying candidates all have different areas, the result does
/// not depend on their order: the winner is the one qualifying candidate
/// whose area exceeds that of every other qualifying candidate.
pub proof fn lemma_distinct_areas_unique_winner(has_memory: bool, cs: Seq<Candidate>, min_uses: u64)
    requires
        forall|i: int, j: int|
            0 <= i < cs.len() && 0 <= j < cs.len() && i != j && qualifies(#[trigger] cs[i], min_uses)
                && qualifies(#[trigger] cs[j], min_uses) ==> area(cs[i]) != area(cs[j]),
    ensures
        classification(has_memory, cs, min_uses) matches Ok(sp) ==> exists|k: int|
            0 <= k < cs.len() && qualifies(#[trigger] cs[k], min_uses) && sp.index == cs[k].index
                && sp.reads == cs[k].reads && sp.writes == cs[k].writes && forall|j: int|
                0 <= j < cs.len() && j != k && qualifies(#[trigger] cs[j], min_uses) ==> area(cs[j])
                    < area(cs[k]),
{
    lemma_best_is_first_maximum(cs, min_uses);
    if let Ok(sp) = classification(has_memory, cs, min_uses) {
        let k = best(cs, min_uses)->0;
        assert forall|j: int| 0 <= j < cs.len() && j != k && qualifies(#[trigger] cs[j], min_uses) implies area(cs[j])
            < area(cs[k]) by {
            assert(area(cs[j]) <= area(cs[k]));
            assert(area(cs[j]) != area(cs[k]));
        }
    }
}

/// A candidate read or written no more than [`MIN_USES`] times is never
/// chosen; once memory is present, one read and written more often than
/// that guarantees a stack pointer.
pub proof fn lemma_threshold(has_memory: bool, cs: Seq<Candidate>)
    ensures
        classification(has_memory, cs, MIN_USES) matches Ok(sp) ==> sp.reads > MIN_USES
            && sp.writes > MIN_USES,
        has_memory && (exists|k: int| 0 <= k < cs.len() && #[trigger] cs[k].reads > MIN_USES && cs[k].writes > MIN_USES)
            ==> classification(has_memory, cs, MIN_USES) is Ok,
{
    lemma_best_is_first_maximum(cs, MIN_USES);
    if has_memory && (exists|k: int| 0 <= k < cs.len() && #[trigger] cs[k].reads > MIN_USES && cs[k].writes > MIN_USES) {
        let k = choose|k: int| 0 <= k < cs.len() && #[trigger] cs[k].reads > MIN_USES && cs[k].writes > MIN_USES;
        assert(qualifies(cs[k], MIN_USES));
    }
}

/// Candidates met after the winner change nothing unless one of them
/// qualifies with an area strictly above the winner's.
pub proof fn lemma_later_candidates_keep_winner(
    has_memory: bool,
    cs: Seq<Candidate>,
    extra: Seq<Candidate>,
    min_uses: u64,
)
    requires
        classification(has_memory, cs, min_uses) is Ok,
        forall|j: int| 0 <= j < extra.len() && qualifies(#[trigger] extra[j], min_uses) ==> area(extra[j])
            <= classification(has_memory, cs, min_uses)->Ok_0.area,
        forall|k: int| 0 <= k < cs.len() ==> area(#[trigger] cs[k]) <= u64::MAX,
    ensures
        classification(has_memory, cs + extra, min_uses) == classification(has_memory, cs, min_uses),
{
    lemma_best_is_first_maximum(cs, min_uses);
    let k = best(cs, min_uses)->0;
    lemma_best_kept(cs, extra, min_uses);
    assert((cs + extra)[k] == cs[k]);
}

proof fn lemma_best_kept(cs: Seq<Candidate>, extra: Seq<Candidate>, min_uses: u64)
    requires
        best(cs, min_uses) is Some,
        forall|j: int| 0 <= j < extra.len() && qualifies(#[trigger] extra[j], min_uses) ==> area(extra[j])
            <= area(cs[best(cs, min_uses)->0]),
    ensures
        best(cs + extra, min_uses) == best(cs, min_uses),
    decreases extra.len(),
{
    lemma_best_is_first_maximum(cs, min_uses);
    if extra.len() == 0 {
        assert(cs + extra =~= cs);
    } else {
        let e = extra.drop_last();
        assert forall|j: int| 0 <= j < e.len() && qualifies(#[trigger] e[j], min_uses) implies area(e[j])
            <= area(cs[best(cs, min_uses)->0]) by {
            assert(e[j] == extra[j]);
        }
        lemma_best_kept(cs, e, min_uses);
        let all = cs + extra;
        assert(all.drop_last() =~= cs + e);
        assert(all.last() == extra[extra.len() - 1]);
        let k = best(cs, min_uses)->0;
        assert((cs + e)[k] == cs[k]);
    }
}

/// A module without memory is classified "no memory", whatever its globals.
pub proof fn lemma_no_memory_first(sections: Seq<Section>)
    requires
        !memory_present(decoded(sections)),
    ensures
        expected_record(decoded(sections)).stack_pointer == Err::<StackPointer, Failure>(Failure::NoMemory),
        expected_record(decoded(sections)).functions_using_stack_pointer is None,
{
}

/// A module with memory but no mutable `i32` global has no tallies at all
/// and is classified "no mutable i32 global", never "insufficient uses".
pub proof fn lemma_no_candidates(sections: Seq<Section>)
    requires
        memory_present(decoded(sections)),
        candidate_indices(decoded(sections)).len() == 0,
    ensures
        expected_candidates(decoded(sections)).len() == 0,
        expected_record(decoded(sections)).stack_pointer == Err::<StackPointer, Failure>(
            Failure::NoMutableI32Global,
        ),
{
}

/// The globals brought in by the imports `v`, in order.
pub open spec fn import_decls(v: Seq<ImportKind>) -> Seq<GlobalDecl>
    decreases v.len(),
{
    if v.len() == 0 {
        Seq::empty()
    } else {
        match v.last() {
            ImportKind::Global(g) => import_decls(v.drop_last()).push(g),
            _ => import_decls(v.drop_last()),
        }
    }
}

/// The globals imported by `t`, in order.
pub open spec fn all_import_decls(t: Seq<Section>) -> Seq<GlobalDecl>
    decreases t.len(),
{
    if t.len() == 0 {
        Seq::empty()
    } else {
        all_import_decls(t.drop_last()) + match t.last() {
            Section::Imports(v) => import_decls(v@),
            _ => Seq::empty(),
        }
    }
}

/// The globals declared by `t` itself, in order.
pub open spec fn all_local_decls(t: Seq<Section>) -> Seq<GlobalDecl>
    decreases t.len(),
{
    if t.len() == 0 {
        Seq::empty()
    } else {
        all_local_decls(t.drop_last()) + match t.last() {
            Section::Globals(v) => v@,
            _ => Seq::empty(),
        }
    }
}

/// Every global of `t` in the order of the index space: imported globals
/// first, then local ones.
pub open spec fn global_decls(t: Seq<Section>) -> Seq<GlobalDecl> {
    all_import_decls(t) + all_local_decls(t)
}

/// Positions in `d` of the candidate globals.
pub open spec fn candidate_positions(d: Seq<GlobalDecl>) -> Seq<int>
    decreases d.len(),
{
    if d.len() == 0 {
        Seq::empty()
    } else if is_candidate(d.last()) {
        candidate_positions(d.drop_last()).push(d.len() - 1)
    } else {
        candidate_positions(d.drop_last())
    }
}

pub open spec fn shift(s: Seq<int>, by: int) -> Seq<int> {
    s.map_values(|x: int| x + by)
}

/// The module has at most one global section, as the format requires.
pub open spec fn single_global_section(t: Seq<Section>) -> bool {
    forall|i: int, j: int|
        0 <= i < j < t.len() && #[trigger] t[i] is Globals ==> !(#[trigger] t[j] is Globals)
}

proof fn lemma_positions_append(d: Seq<GlobalDecl>, e: Seq<GlobalDecl>)
    ensures
        candidate_positions(d + e) == candidate_positions(d) + shift(candidate_positions(e), d.len() as int),
    decreases e.len(),
{
    if e.len() == 0 {
        assert(d + e =~= d);
        assert(shift(candidate_positions(e), d.len() as int) =~= Seq::<int>::empty());
        assert(candidate_positions(d) + Seq::<int>::empty() =~= candidate_positions(d));
    } else {
        lemma_positions_append(d, e.drop_last());
        assert((d + e).drop_last() =~= d + e.drop_last());
        assert((d + e).last() == e.last());
        let pe = candidate_positions(e.drop_last());
        if is_candidate(e.last()) {
            assert(shift(pe.push(e.len() - 1), d.len() as int) =~= shift(pe, d.len() as int).push(
                d.len() + e.len() - 1,
            ));
            assert(candidate_positions(d) + shift(pe, d.len() as int).push(d.len() + e.len() - 1)
                =~= (candidate_positions(d) + shift(pe, d.len() as int)).push(d.len() + e.len() - 1));
        }
    }
}

proof fn lemma_import_indices(v: Seq<ImportKind>, base: int)
    ensures
        import_candidates(v, base) == shift(candidate_positions(import_decls(v)), base),
        import_globals(v) == import_decls(v).len(),
    decreases v.len(),
{
    if v.len() == 0 {
        assert(shift(Seq::<int>::empty(), base) =~= Seq::<int>::empty());
    } else {
        lemma_import_indices(v.drop_last(), base);
        let d = import_decls(v.drop_last());
        if let ImportKind::Global(g) = v.last() {
            assert(d.push(g).drop_last() =~= d);
            if is_candidate(g) {
                assert(shift(candidate_positions(d).push(d.len() as int), base) =~= shift(
                    candidate_positions(d),
                    base,
                ).push(base + d.len()));
            }
        }
    }
}

proof fn lemma_local_indices(v: Seq<GlobalDecl>, base: int)
    ensures
        local_candidates(v, base) == shift(candidate_positions(v), base),
    decreases v.len(),
{
    if v.len() == 0 {
        assert(shift(Seq::<int>::empty(), base) =~= Seq::<int>::empty());
    } else {
        lemma_local_indices(v.drop_last(), base);
        if is_candidate(v.last()) {
            assert(shift(candidate_positions(v.drop_last()).push(v.len() - 1), base) =~= shift(
                candidate_positions(v.drop_last()),
                base,
            ).push(base + v.len() - 1));
        }
    }
}

proof fn lemma_imported_indices(t: Seq<Section>)
    ensures
        imported_candidates(t) == candidate_positions(all_import_decls(t)),
        imported_globals(t) == all_import_decls(t).len(),
    decreases t.len(),
{
    if t.len() > 0 {
        let p = t.drop_last();
        lemma_imported_indices(p);
        let d = all_import_decls(p);
        if let Section::Imports(v) = t.last() {
            lemma_import_indices(v@, imported_globals(p) as int);
            lemma_positions_append(d, import_decls(v@));
        } else {
            assert(d + Seq::<GlobalDecl>::empty() =~= d);
            assert(imported_candidates(p) + Seq::<int>::empty() =~= imported_candidates(p));
        }
    }
}

proof fn lemma_no_global_section(t: Seq<Section>, base: int)
    requires
        forall|i: int| 0 <= i < t.len() ==> !(#[trigger] t[i] is Globals),
    ensures
        declared_candidates_from(t, base) == Seq::<int>::empty(),
        all_local_decls(t) == Seq::<GlobalDecl>::empty(),
    decreases t.len(),
{
    if t.len() > 0 {
        let p = t.drop_last();
        assert forall|i: int| 0 <= i < p.len() implies !(#[trigger] p[i] is Globals) by {
            assert(p[i] == t[i]);
        }
        lemma_no_global_section(p, base);
        assert(t[t.len() - 1] == t.last());
        assert(Seq::<int>::empty() + Seq::<int>::empty() =~= Seq::<int>::empty());
        assert(Seq::<GlobalDecl>::empty() + Seq::<GlobalDecl>::empty() =~= Seq::<GlobalDecl>::empty());
    }
}

proof fn lemma_local_indices_all(t: Seq<Section>, base: int)
    requires
        single_global_section(t),
    ensures
        declared_candidates_from(t, base) == shift(candidate_positions(all_local_decls(t)), base),
    decreases t.len(),
{
    if t.len() == 0 {
        assert(shift(Seq::<int>::empty(), base) =~= Seq::<int>::empty());
    } else {
        let p = t.drop_last();
        if let Section::Globals(v) = t.last() {
            assert forall|i: int| 0 <= i < p.len() implies !(#[trigger] p[i] is Globals) by {
                assert(p[i] == t[i]);
                assert(t[t.len() - 1] is Globals);
            }
            lemma_no_global_section(p, base);
            lemma_local_indices(v@, base);
            assert(Seq::<GlobalDecl>::empty() + v@ =~= v@);
            assert(Seq::<int>::empty() + local_candidates(v@, base) =~= local_candidates(v@, base));
        } else {
            assert forall|i: int, j: int|
                0 <= i < j < p.len() && #[trigger] p[i] is Globals implies !(#[trigger] p[j] is Globals) by {
                assert(p[i] == t[i] && p[j] == t[j]);
            }
            lemma_local_indices_all(p, base);
            let d = all_local_decls(p);
            assert(d + Seq::<GlobalDecl>::empty() =~= d);
            let c = declared_candidates_from(p, base);
            assert(c + Seq::<int>::empty() =~= c);
        }
    }
}

/// Global indices form one dense, zero-based space, imported globals first:
/// in a module with at most one global section, the index given to each
/// candidate global is its position among all the module's globals.  So an
/// imported global's index counts the globals imported before it, a local
/// global's index is the number of imported globals plus its position in
/// the global section, and every imported global's index is below every
/// local global's.
pub proof fn lemma_index_space(t: Seq<Section>)
    requires
        single_global_section(t),
    ensures
        candidate_indices(t) == candidate_positions(global_decls(t)),
{
    lemma_imported_indices(t);
    lemma_local_indices_all(t, imported_globals(t) as int);
    lemma_positions_append(all_import_decls(t), all_local_decls(t));
}

} // verus!
