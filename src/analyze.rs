use vstd::prelude::*;
use crate::module::{
    accesses, candidate_indices, decoded, entries, function_count, functions_using, lemma_entries_prefix,
    lemma_take_step, lemma_tally_le_entries, memory_present, section_entries, tally, uses_global, within_limits,
    Operator, Section,
};
use crate::classify::{area, areas_fit, classification, classify, Failure, StackPointer, MIN_USES};
use crate::collect::{collect_usage, expected_candidates};

verus! {

/// The analysis of one module.
#[derive(Clone, Copy, Debug, PartialEq, Eq)]
pub struct FileRecord {
    pub stack_pointer: Result<StackPointer, Failure>,
    /// Functions that read or write the stack pointer; absent when none was
    /// inferred.
    pub functions_using_stack_pointer: Option<usize>,
    /// Locally defined functions.
    pub functions_all_local: usize,
}

/// The record owed for the decoded sections `t`.
pub open spec fn expected_record(t: Seq<Section>) -> FileRecord {
    let c = classification(memory_present(t), expected_candidates(t), MIN_USES);
    FileRecord {
        stack_pointer: c,
        functions_using_stack_pointer: match c {
            Ok(sp) => Some(functions_using(t, sp.index as int) as usize),
            Err(_) => None,
        },
        functions_all_local: function_count(t) as usize,
    }
}

/// The stream cannot be read at all: it is empty, or its first section
/// failed to decode.
pub open spec fn undecodable(s: Seq<Section>) -> bool {
    s.len() == 0 || s[0] is Malformed
}

/// Number of sections before the first one that failed to decode.
pub fn decoded_len(sections: &Vec<Section>) -> (n: usize)
    ensures
        n <= sections@.len(),
        forall|j: int| 0 <= j < n ==> !(#[trigger] sections@[j] is Malformed),
        n < sections@.len() ==> sections@[n as int] is Malformed,
        decoded(sections@) == sections@.take(n as int),
{
    let mut n: usize = 0;
    while n < sections.len()
        invariant
            n <= sections@.len(),
            forall|j: int| 0 <= j < n ==> !(#[trigger] sections@[j] is Malformed),
        ensures
            n <= sections@.len(),
            forall|j: int| 0 <= j < n ==> !(#[trigger] sections@[j] is Malformed),
            n < sections@.len() ==> sections@[n as int] is Malformed,
        decreases sections@.len() - n,
    {
        if let Section::Malformed = &sections[n] {
            break;
        }
        n += 1;
    }
    proof {
        lemma_decoded_prefix(sections@, n as int);
    }
    n
}

proof fn lemma_decoded_prefix(s: Seq<Section>, n: int)
    requires
        0 <= n <= s.len(),
        forall|j: int| 0 <= j < n ==> !(#[trigger] s[j] is Malformed),
        n < s.len() ==> s[n] is Malformed,
    ensures
        decoded(s) == s.take(n),
    decreases s.len(),
{
    if s.len() == 0 {
        assert(s.take(n) =~= s);
    } else if n == 0 {
        assert(s.take(0) =~= Seq::<Section>::empty());
    } else {
        let r = s.skip(1);
        assert forall|j: int| 0 <= j < n - 1 implies !(#[trigger] r[j] is Malformed) by {
            assert(r[j] == s[j + 1]);
        }
        if n - 1 < r.len() {
            assert(r[n - 1] == s[n]);
        }
        lemma_decoded_prefix(r, n - 1);
        assert(seq![s[0]] + r.take(n - 1) =~= s.take(n));
    }
}

/// Whether the first `n` sections stay within the format's 32-bit index
/// space.
pub fn fits_limits(sections: &Vec<Section>, n: usize) -> (r: bool)
    requires
        n <= sections@.len(),
    ensures
        r == within_limits(sections@.take(n as int)),
{
    let ghost t = sections@.take(n as int);
    let mut total: u32 = 0;
    let mut i: usize = 0;
    while i < n
        invariant
            n <= sections@.len(),
            t == sections@.take(n as int),
            i <= n,
            total as int == entries(t.take(i as int)),
        decreases n - i,
    {
        proof {
            lemma_take_step(t, i as int);
            assert(t[i as int] == sections@[i as int]);
        }
        let len: usize = match &sections[i] {
            Section::Imports(v) => v.len(),
            Section::Globals(v) => v.len(),
            Section::Code(v) => v.len(),
            _ => 0,
        };
        assert(len == section_entries(t[i as int]));
        if len > (u32::MAX - total) as usize {
            proof {
                lemma_entries_prefix(t, i as int + 1);
            }
            return false;
        }
        total = total + len as u32;
        i += 1;
    }
    assert(t.take(n as int) =~= t);
    true
}

/// Whether some instruction of `ops` reads or writes global `g`; stops at
/// the first one that does.
fn body_uses(ops: &Vec<Operator>, g: u32) -> (r: bool)
    ensures
        r == uses_global(ops@, g as int),
{
    let mut j: usize = 0;
    while j < ops.len()
        invariant
            j <= ops@.len(),
            forall|m: int| 0 <= m < j ==> !(accesses(#[trigger] ops@[m], g as int, false)
                || accesses(ops@[m], g as int, true)),
        decreases ops@.len() - j,
    {
        match ops[j] {
            Operator::GlobalGet(x) | Operator::GlobalSet(x) => {
                if x == g {
                    return true;
                }
            },
            _ => {},
        }
        j += 1;
    }
    false
}

/// Counts the function bodies among the first `n` sections (the first
/// component of the result) and those among them that read or write
/// global `g` (the second).
pub fn count_functions(sections: &Vec<Section>, n: usize, g: u32) -> (r: (usize, usize))
    requires
        n <= sections@.len(),
    ensures
        r.0 == function_count(sections@.take(n as int)),
        r.1 == functions_using(sections@.take(n as int), g as int),
{
    let ghost t = sections@.take(n as int);
    let mut all: usize = 0;
    let mut using: usize = 0;
    let mut i: usize = 0;
    while i < n
        invariant
            n <= sections@.len(),
            t == sections@.take(n as int),
            i <= n,
            all == function_count(t.take(i as int)),
            using == functions_using(t.take(i as int), g as int),
            using <= all <= i,
        decreases n - i,
    {
        proof {
            lemma_take_step(t, i as int);
            assert(t[i as int] == sections@[i as int]);
        }
        if let Section::Code(ops) = &sections[i] {
            all += 1;
            if body_uses(ops, g) {
                using += 1;
            }
        }
        i += 1;
    }
    assert(t.take(n as int) =~= t);
    (all, using)
}

/// Analyses one module given as its stream of sections.  Nothing is
/// returned when the stream cannot be read at all or its global index space
/// overflows 32 bits; otherwise the sections before the first malformed one
/// are analysed.
pub fn analyze_module(sections: &Vec<Section>) -> (r: Option<FileRecord>)
    ensures
        r is None <==> undecodable(sections@) || !within_limits(decoded(sections@)),
        r matches Some(rec) ==> rec == expected_record(decoded(sections@)),
{
    let n = decoded_len(sections);
    if n == 0 || !fits_limits(sections, n) {
        return None;
    }
    let ghost t = sections@.take(n as int);
    let usage = collect_usage(sections, n);
    proof {
        lemma_areas_fit(t);
    }
    let stack_pointer = classify(usage.has_memory, &usage.candidates);
    let g: u32 = match stack_pointer {
        Ok(sp) => sp.index,
        Err(_) => 0,
    };
    let (functions_all_local, using) = count_functions(sections, n, g);
    let functions_using_stack_pointer = match stack_pointer {
        Ok(_) => Some(using),
        Err(_) => None,
    };
    Some(FileRecord { stack_pointer, functions_using_stack_pointer, functions_all_local })
}

proof fn lemma_areas_fit(t: Seq<Section>)
    requires
        within_limits(t),
    ensures
        areas_fit(expected_candidates(t)),
{
    let cs = expected_candidates(t);
    assert forall|k: int| 0 <= k < cs.len() implies area(#[trigger] cs[k])
        <= u64::MAX by {
        let g = candidate_indices(t)[k];
        lemma_tally_le_entries(t, g, false);
        lemma_tally_le_entries(t, g, true);
        let a = tally(t, g, false) as int;
        let b = tally(t, g, true) as int;
        assert(a * b <= u32::MAX * u32::MAX) by (nonlinear_arith)
            requires
                a <= u32::MAX,
                b <= u32::MAX,
                0 <= a,
                0 <= b,
        ;
    }
}

} // verus!
