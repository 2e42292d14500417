use vstd::prelude::*;

verus! {

/// Reads and writes of a global must each exceed this count for the global
/// to be taken for a stack pointer: fewer uses look incidental.
pub const MIN_USES: u64 = 3;

/// Usage tally of one candidate global.
#[derive(Clone, Copy, Debug, PartialEq, Eq, Structural)]
pub struct Candidate {
    pub index: u32,
    pub reads: u64,
    pub writes: u64,
}

/// The global chosen as the stack pointer, with its tally.
#[derive(Clone, Copy, Debug, PartialEq, Eq, Structural)]
pub struct StackPointer {
    pub index: u32,
    pub reads: u64,
    pub writes: u64,
    /// `reads * writes`.
    pub area: u64,
}

/// Why no stack pointer was inferred.
#[derive(Clone, Copy, Debug, PartialEq, Eq, Structural)]
pub enum Failure {
    /// The module neither imports nor declares a memory.
    NoMemory,
    /// The module has no mutable `i32` global.
    NoMutableI32Global,
    /// No candidate is read and written often enough.
    InsufficientUses,
}

pub open spec fn qualifies(c: Candidate, min_uses: u64) -> bool {
    c.reads > min_uses && c.writes > min_uses
}

pub open spec fn area(c: Candidate) -> int {
    c.reads * c.writes
}

/// Position of the qualifying candidate with the largest area; among equal
/// areas the earliest one.
pub open spec fn best(cs: Seq<Candidate>, min_uses: u64) -> Option<int>
    decreases cs.len(),
{
    if cs.len() == 0 {
        None
    } else {
        let prev = best(cs.drop_last(), min_uses);
        let c = cs.last();
        if qualifies(c, min_uses) && (prev is None || area(c) > area(cs[prev->0])) {
            Some(cs.len() - 1)
        } else {
            prev
        }
    }
}

/// The classification of a module with memory present or not and the
/// candidate tallies `cs`, in declaration order.
pub open spec fn classification(has_memory: bool, cs: Seq<Candidate>, min_uses: u64) -> Result<
    StackPointer,
    Failure,
> {
    if !has_memory {
        Err(Failure::NoMemory)
    } else if cs.len() == 0 {
        Err(Failure::NoMutableI32Global)
    } else {
        match best(cs, min_uses) {
            None => Err(Failure::InsufficientUses),
            Some(k) => Ok(
                StackPointer {
                    index: cs[k].index,
                    reads: cs[k].reads,
                    writes: cs[k].writes,
                    area: area(cs[k]) as u64,
                },
            ),
        }
    }
}

/// Tallies whose products fit the area's type.
pub open spec fn areas_fit(cs: Seq<Candidate>) -> bool {
    forall|k: int| 0 <= k < cs.len() ==> area(#[trigger] cs[k]) <= u64::MAX
}

pub proof fn lemma_best_in_range(cs: Seq<Candidate>, min_uses: u64)
    ensures
        best(cs, min_uses) matches Some(k) ==> 0 <= k < cs.len() && qualifies(cs[k], min_uses),
    decreases cs.len(),
{
    if cs.len() > 0 {
        lemma_best_in_range(cs.drop_last(), min_uses);
    }
}

/// Classifies with a usage threshold of `min_uses`.
pub fn classify_with(has_memory: bool, candidates: &Vec<Candidate>, min_uses: u64) -> (r: Result<
    StackPointer,
    Failure,
>)
    requires
        areas_fit(candidates@),
    ensures
        r == classification(has_memory, candidates@, min_uses),
{
    if !has_memory {
        return Err(Failure::NoMemory);
    }
    if candidates.len() == 0 {
        return Err(Failure::NoMutableI32Global);
    }
    let mut chosen: Option<usize> = None;
    let mut best_area: u64 = 0;
    let mut i: usize = 0;
    while i < candidates.len()
        invariant
            0 <= i <= candidates@.len(),
            areas_fit(candidates@),
            chosen matches Some(k) ==> k < i && k as int == best(candidates@.take(i as int), min_uses)->0
                && best_area as int == area(candidates@[k as int]),
            chosen is None <==> best(candidates@.take(i as int), min_uses) is None,
        decreases candidates@.len() - i,
    {
        let c = candidates[i];
        proof {
            let p = candidates@.take(i as int + 1);
            assert(p.drop_last() =~= candidates@.take(i as int));
            assert(p.last() == c);
            lemma_best_in_range(candidates@.take(i as int), min_uses);
            assert(area(candidates@[i as int]) <= u64::MAX);
        }
        if c.reads > min_uses && c.writes > min_uses {
            let a = c.reads * c.writes;
            if chosen.is_none() || a > best_area {
                chosen = Some(i);
                best_area = a;
            }
        }
        i += 1;
    }
    assert(candidates@.take(candidates@.len() as int) =~= candidates@);
    match chosen {
        None => Err(Failure::InsufficientUses),
        Some(k) => {
            let c = candidates[k];
            Ok(StackPointer { index: c.index, reads: c.reads, writes: c.writes, area: best_area })
        },
    }
}

/// Classifies with the usage threshold [`MIN_USES`].
pub fn classify(has_memory: bool, candidates: &Vec<Candidate>) -> (r: Result<StackPointer, Failure>)
    requires
        areas_fit(candidates@),
    ensures
        r == classification(has_memory, candidates@, MIN_USES),
{
    classify_with(has_memory, candidates, MIN_USES)
}

} // verus!
