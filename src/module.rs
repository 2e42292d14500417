use vstd::prelude::*;

verus! {

/// Type and mutability of one global, imported or declared locally.
#[derive(Clone, Copy, Debug, PartialEq, Eq, Structural)]
pub struct GlobalDecl {
    pub mutable: bool,
    /// The global holds a 32-bit integer.
    pub i32_typed: bool,
}

/// What one entry of an import section brings in.
#[derive(Clone, Copy, Debug, PartialEq, Eq, Structural)]
pub enum ImportKind {
    Global(GlobalDecl),
    Memory,
    Other,
}

/// One decoded instruction of a function body, as far as the analysis
/// distinguishes instructions.
#[derive(Clone, Copy, Debug, PartialEq, Eq, Structural)]
pub enum Operator {
    GlobalGet(u32),
    GlobalSet(u32),
    Other,
    /// An instruction that could not be decoded; it is skipped.
    Undecodable,
}

/// One item of a module's section stream, in the order of the binary.
#[derive(Debug)]
pub enum Section {
    Imports(Vec<ImportKind>),
    /// The module's own globals.
    Globals(Vec<GlobalDecl>),
    /// The module's own memories: how many it declares.
    Memories(u32),
    /// The body of one locally defined function.
    Code(Vec<Operator>),
    Other,
    /// A section that failed to decode: nothing from here on is read.
    Malformed,
}

/// A global whose type makes it a possible stack pointer.
pub open spec fn is_candidate(g: GlobalDecl) -> bool {
    g.mutable && g.i32_typed
}

/// The sections read before the first one that failed to decode.
pub open spec fn decoded(s: Seq<Section>) -> Seq<Section>
    decreases s.len(),
{
    if s.len() == 0 {
        s
    } else if s[0] is Malformed {
        Seq::empty()
    } else {
        seq![s[0]] + decoded(s.skip(1))
    }
}

/// Number of entries a section carries (imports, globals or instructions).
pub open spec fn section_entries(s: Section) -> nat {
    match s {
        Section::Imports(v) => v@.len(),
        Section::Globals(v) => v@.len(),
        Section::Code(v) => v@.len(),
        _ => 0,
    }
}

pub open spec fn entries(t: Seq<Section>) -> nat
    decreases t.len(),
{
    if t.len() == 0 {
        0
    } else {
        entries(t.drop_last()) + section_entries(t.last())
    }
}

/// The global index space of the module fits the format's 32-bit indices,
/// and so do all usage counts.
pub open spec fn within_limits(t: Seq<Section>) -> bool {
    entries(t) <= u32::MAX
}

/// Number of globals among the imports `v`.
pub open spec fn import_globals(v: Seq<ImportKind>) -> nat
    decreases v.len(),
{
    if v.len() == 0 {
        0
    } else {
        import_globals(v.drop_last()) + if v.last() is Global { 1nat } else { 0nat }
    }
}

/// Indices of the candidate globals among the imports `v`, when `base`
/// globals were imported before them.
pub open spec fn import_candidates(v: Seq<ImportKind>, base: int) -> Seq<int>
    decreases v.len(),
{
    if v.len() == 0 {
        Seq::empty()
    } else {
        let prev = import_candidates(v.drop_last(), base);
        match v.last() {
            ImportKind::Global(g) => if is_candidate(g) {
                prev.push(base + import_globals(v.drop_last()))
            } else {
                prev
            },
            _ => prev,
        }
    }
}

/// Indices of the candidates among the local globals `v`: a local global's
/// index is its position plus the number `base` of imported globals.
pub open spec fn local_candidates(v: Seq<GlobalDecl>, base: int) -> Seq<int>
    decreases v.len(),
{
    if v.len() == 0 {
        Seq::empty()
    } else {
        let prev = local_candidates(v.drop_last(), base);
        if is_candidate(v.last()) {
            prev.push(base + v.len() - 1)
        } else {
            prev
        }
    }
}

/// Number of globals imported in the sections `t`.
pub open spec fn imported_globals(t: Seq<Section>) -> nat
    decreases t.len(),
{
    if t.len() == 0 {
        0
    } else {
        imported_globals(t.drop_last()) + match t.last() {
            Section::Imports(v) => import_globals(v@),
            _ => 0,
        }
    }
}

/// Indices of the candidates among the imports of `t`: each counts the
/// globals imported before it.
pub open spec fn imported_candidates(t: Seq<Section>) -> Seq<int>
    decreases t.len(),
{
    if t.len() == 0 {
        Seq::empty()
    } else {
        imported_candidates(t.drop_last()) + match t.last() {
            Section::Imports(v) => import_candidates(v@, imported_globals(t.drop_last()) as int),
            _ => Seq::empty(),
        }
    }
}

/// Indices of the candidates among the local globals of `t`, numbered from
/// `base`, the number of imported globals.
pub open spec fn declared_candidates_from(t: Seq<Section>, base: int) -> Seq<int>
    decreases t.len(),
{
    if t.len() == 0 {
        Seq::empty()
    } else {
        declared_candidates_from(t.drop_last(), base) + match t.last() {
            Section::Globals(v) => local_candidates(v@, base),
            _ => Seq::empty(),
        }
    }
}

/// Indices of all candidate globals of `t`, in the order the collector meets
/// them: the imported ones, then the local ones, whose indices start after
/// all imported globals.
pub open spec fn candidate_indices(t: Seq<Section>) -> Seq<int> {
    imported_candidates(t) + declared_candidates_from(t, imported_globals(t) as int)
}

pub open spec fn section_has_memory(s: Section) -> bool {
    match s {
        Section::Imports(v) => exists|j: int| 0 <= j < v@.len() && v@[j] is Memory,
        Section::Memories(n) => n > 0,
        _ => false,
    }
}

/// The module imports or declares a linear memory.
pub open spec fn memory_present(t: Seq<Section>) -> bool {
    exists|i: int| 0 <= i < t.len() && section_has_memory(t[i])
}

/// `op` reads (`write == false`) or writes (`write == true`) global `g`.
pub open spec fn accesses(op: Operator, g: int, write: bool) -> bool {
    match op {
        Operator::GlobalGet(x) => !write && x == g,
        Operator::GlobalSet(x) => write && x == g,
        _ => false,
    }
}

pub open spec fn op_tally(ops: Seq<Operator>, g: int, write: bool) -> nat
    decreases ops.len(),
{
    if ops.len() == 0 {
        0
    } else {
        op_tally(ops.drop_last(), g, write) + if accesses(ops.last(), g, write) {
            1nat
        } else {
            0nat
        }
    }
}

/// How many instructions of all function bodies in `t` read (or write) `g`.
pub open spec fn tally(t: Seq<Section>, g: int, write: bool) -> nat
    decreases t.len(),
{
    if t.len() == 0 {
        0
    } else {
        tally(t.drop_last(), g, write) + match t.last() {
            Section::Code(ops) => op_tally(ops@, g, write),
            _ => 0,
        }
    }
}

/// Number of locally defined function bodies in `t`.
pub open spec fn function_count(t: Seq<Section>) -> nat
    decreases t.len(),
{
    if t.len() == 0 {
        0
    } else {
        function_count(t.drop_last()) + if t.last() is Code { 1nat } else { 0nat }
    }
}

/// Some instruction of `ops` reads or writes global `g`.
pub open spec fn uses_global(ops: Seq<Operator>, g: int) -> bool {
    exists|j: int| 0 <= j < ops.len() && (accesses(ops[j], g, false) || accesses(ops[j], g, true))
}

/// Number of function bodies in `t` that read or write `g` at least once.
pub open spec fn functions_using(t: Seq<Section>, g: int) -> nat
    decreases t.len(),
{
    if t.len() == 0 {
        0
    } else {
        functions_using(t.drop_last(), g) + match t.last() {
            Section::Code(ops) => if uses_global(ops@, g) { 1nat } else { 0nat },
            _ => 0,
        }
    }
}

pub proof fn lemma_take_step<A>(s: Seq<A>, i: int)
    requires
        0 <= i < s.len(),
    ensures
        s.take(i + 1).drop_last() == s.take(i),
        s.take(i + 1).last() == s[i],
        s.take(i + 1).len() == i + 1,
{
    assert(s.take(i + 1).drop_last() =~= s.take(i));
}

pub proof fn lemma_entries_prefix(t: Seq<Section>, i: int)
    requires
        0 <= i <= t.len(),
    ensures
        entries(t.take(i)) <= entries(t),
    decreases t.len(),
{
    if i == t.len() {
        assert(t.take(i) =~= t);
    } else {
        assert(t.drop_last().take(i) =~= t.take(i));
        lemma_entries_prefix(t.drop_last(), i);
    }
}

pub proof fn lemma_import_globals_le(v: Seq<ImportKind>)
    ensures
        import_globals(v) <= v.len(),
    decreases v.len(),
{
    if v.len() > 0 {
        lemma_import_globals_le(v.drop_last());
    }
}

pub proof fn lemma_op_tally_le(ops: Seq<Operator>, g: int, write: bool)
    ensures
        op_tally(ops, g, write) <= ops.len(),
    decreases ops.len(),
{
    if ops.len() > 0 {
        lemma_op_tally_le(ops.drop_last(), g, write);
    }
}

pub proof fn lemma_tally_le_entries(t: Seq<Section>, g: int, write: bool)
    ensures
        tally(t, g, write) <= entries(t),
    decreases t.len(),
{
    if t.len() > 0 {
        lemma_tally_le_entries(t.drop_last(), g, write);
        if let Section::Code(ops) = t.last() {
            lemma_op_tally_le(ops@, g, write);
        }
    }
}

pub proof fn lemma_imported_le_entries(t: Seq<Section>)
    ensures
        imported_globals(t) <= entries(t),
    decreases t.len(),
{
    if t.len() > 0 {
        lemma_imported_le_entries(t.drop_last());
        if let Section::Imports(v) = t.last() {
            lemma_import_globals_le(v@);
        }
    }
}

/// A global section fits in the index space after all imported globals.
pub proof fn lemma_globals_after_imports_fit(t: Seq<Section>, i: int)
    requires
        0 <= i < t.len(),
        t[i] is Globals,
    ensures
        imported_globals(t) + section_entries(t[i]) <= entries(t),
    decreases t.len(),
{
    let p = t.drop_last();
    if i == t.len() - 1 {
        lemma_imported_le_entries(p);
    } else {
        assert(p[i] == t[i]);
        lemma_globals_after_imports_fit(p, i);
        if let Section::Imports(v) = t.last() {
            lemma_import_globals_le(v@);
        }
    }
}

pub open spec fn as_ints(v: Seq<u32>) -> Seq<int> {
    v.map_values(|x: u32| x as int)
}

} // verus!
