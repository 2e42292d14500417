use wasm_stack_pointer::{
    analyze_module, classify, classify_with, collect_usage, count_functions, declared_candidates,
    decoded_len, fits_limits, Candidate, Failure, FileRecord, GlobalDecl, ImportKind, Operator,
    Section, StackPointer,
};

const MUT_I32: GlobalDecl = GlobalDecl { mutable: true, i32_typed: true };
const CONST_I32: GlobalDecl = GlobalDecl { mutable: false, i32_typed: true };
const MUT_I64: GlobalDecl = GlobalDecl { mutable: true, i32_typed: false };

fn body(gets: usize, sets: usize, g: u32) -> Section {
    let mut ops = vec![Operator::Other];
    for _ in 0..gets {
        ops.push(Operator::GlobalGet(g));
        ops.push(Operator::Other);
    }
    for _ in 0..sets {
        ops.push(Operator::GlobalSet(g));
    }
    Section::Code(ops)
}

fn cand(index: u32, reads: u64, writes: u64) -> Candidate {
    Candidate { index, reads, writes }
}

#[test]
fn unreferenced_global_gives_insufficient_uses() {
    let mut sections = vec![
        Section::Imports(vec![ImportKind::Memory]),
        Section::Globals(vec![MUT_I32]),
    ];
    for _ in 0..5 {
        sections.push(Section::Code(vec![Operator::Other, Operator::GlobalGet(7)]));
    }
    let rec = analyze_module(&sections).unwrap();
    assert_eq!(rec.stack_pointer, Err(Failure::InsufficientUses));
    assert_eq!(rec.functions_all_local, 5);
    assert_eq!(rec.functions_using_stack_pointer, None);
}

#[test]
fn busy_global_is_inferred() {
    let sections = vec![
        Section::Memories(1),
        Section::Globals(vec![CONST_I32, MUT_I32]),
        body(4, 3, 1),
        body(0, 0, 1),
        body(3, 3, 1),
        body(0, 0, 1),
        body(3, 2, 1),
        body(0, 0, 1),
    ];
    let rec = analyze_module(&sections).unwrap();
    assert_eq!(
        rec,
        FileRecord {
            stack_pointer: Ok(StackPointer { index: 1, reads: 10, writes: 8, area: 80 }),
            functions_using_stack_pointer: Some(3),
            functions_all_local: 6,
        }
    );
}

#[test]
fn missing_memory_is_reported_first() {
    let sections = vec![Section::Globals(vec![MUT_I32]), body(20, 20, 0), Section::Memories(0)];
    let rec = analyze_module(&sections).unwrap();
    assert_eq!(rec.stack_pointer, Err(Failure::NoMemory));
    assert_eq!(rec.functions_using_stack_pointer, None);
    assert_eq!(rec.functions_all_local, 1);
}

#[test]
fn no_candidate_global_is_reported() {
    let sections = vec![
        Section::Memories(1),
        Section::Globals(vec![CONST_I32, MUT_I64]),
        body(20, 20, 0),
        body(20, 20, 1),
    ];
    let usage = collect_usage(&sections, sections.len());
    assert!(usage.has_memory);
    assert!(usage.candidates.is_empty());
    let rec = analyze_module(&sections).unwrap();
    assert_eq!(rec.stack_pointer, Err(Failure::NoMutableI32Global));
    assert_eq!(rec.functions_all_local, 2);
}

#[test]
fn threshold_is_strict() {
    let three = vec![cand(0, 3, 100), cand(1, 100, 3)];
    assert_eq!(classify(true, &three), Err(Failure::InsufficientUses));
    let four = vec![cand(0, 3, 100), cand(1, 4, 4)];
    assert_eq!(classify(true, &four), Ok(StackPointer { index: 1, reads: 4, writes: 4, area: 16 }));
    assert_eq!(classify(false, &four), Err(Failure::NoMemory));
    assert_eq!(classify(true, &vec![]), Err(Failure::NoMutableI32Global));
}

#[test]
fn threshold_can_be_chosen() {
    let cs = vec![cand(0, 4, 4), cand(1, 9, 2)];
    assert_eq!(classify_with(true, &cs, 4), Err(Failure::InsufficientUses));
    assert_eq!(classify_with(true, &cs, 1), Ok(StackPointer { index: 1, reads: 9, writes: 2, area: 18 }));
}

#[test]
fn classification_is_repeatable() {
    let cs = vec![cand(2, 5, 6), cand(3, 7, 7), cand(5, 10, 4)];
    let first = classify(true, &cs);
    assert_eq!(first, classify(true, &cs));
    assert_eq!(first, Ok(StackPointer { index: 3, reads: 7, writes: 7, area: 49 }));
    let reversed = vec![cand(5, 10, 4), cand(3, 7, 7), cand(2, 5, 6)];
    assert_eq!(classify(true, &reversed), first);
}

#[test]
fn equal_area_keeps_earlier_winner() {
    let cs = vec![cand(0, 5, 8), cand(1, 8, 5)];
    assert_eq!(classify(true, &cs), Ok(StackPointer { index: 0, reads: 5, writes: 8, area: 40 }));
    let more = vec![cand(0, 5, 8), cand(1, 8, 5), cand(2, 10, 4), cand(3, 1, 1000)];
    assert_eq!(classify(true, &more), classify(true, &cs));
    let larger = vec![cand(0, 5, 8), cand(1, 8, 5), cand(2, 10, 5)];
    assert_eq!(classify(true, &larger), Ok(StackPointer { index: 2, reads: 10, writes: 5, area: 50 }));
}

#[test]
fn imported_globals_come_first_in_index_space() {
    let sections = vec![
        Section::Imports(vec![
            ImportKind::Global(CONST_I32),
            ImportKind::Other,
            ImportKind::Global(MUT_I32),
            ImportKind::Memory,
        ]),
        Section::Globals(vec![MUT_I64, MUT_I32, CONST_I32, MUT_I32]),
    ];
    let (indices, memory) = declared_candidates(&sections, sections.len());
    assert_eq!(indices, vec![1, 3, 5]);
    assert!(memory);
}

#[test]
fn imported_candidate_can_be_the_stack_pointer() {
    let sections = vec![
        Section::Imports(vec![ImportKind::Memory, ImportKind::Global(MUT_I32)]),
        Section::Globals(vec![MUT_I32]),
        body(5, 5, 0),
        body(2, 0, 1),
    ];
    let rec = analyze_module(&sections).unwrap();
    assert_eq!(rec.stack_pointer, Ok(StackPointer { index: 0, reads: 5, writes: 5, area: 25 }));
    assert_eq!(rec.functions_using_stack_pointer, Some(1));
}

#[test]
fn malformed_section_truncates_the_module() {
    let sections = vec![
        Section::Memories(1),
        Section::Globals(vec![MUT_I32]),
        body(5, 5, 0),
        Section::Malformed,
        body(50, 50, 0),
        body(50, 50, 0),
    ];
    assert_eq!(decoded_len(&sections), 3);
    let rec = analyze_module(&sections).unwrap();
    assert_eq!(rec.stack_pointer, Ok(StackPointer { index: 0, reads: 5, writes: 5, area: 25 }));
    assert_eq!(rec.functions_all_local, 1);
}

#[test]
fn undecodable_module_is_skipped() {
    assert_eq!(analyze_module(&vec![]), None);
    assert_eq!(analyze_module(&vec![Section::Malformed, Section::Memories(1)]), None);
}

#[test]
fn undecodable_instructions_are_skipped() {
    let ops = vec![
        Operator::GlobalGet(0),
        Operator::Undecodable,
        Operator::GlobalSet(0),
        Operator::Undecodable,
    ];
    let mut sections = vec![Section::Memories(1), Section::Globals(vec![MUT_I32])];
    for _ in 0..4 {
        sections.push(Section::Code(ops.clone()));
    }
    let rec = analyze_module(&sections).unwrap();
    assert_eq!(rec.stack_pointer, Ok(StackPointer { index: 0, reads: 4, writes: 4, area: 16 }));
    assert_eq!(rec.functions_using_stack_pointer, Some(4));
}

#[test]
fn function_counts() {
    let sections = vec![
        body(1, 0, 3),
        Section::Other,
        body(0, 1, 3),
        body(2, 2, 4),
        Section::Code(vec![]),
    ];
    assert_eq!(count_functions(&sections, sections.len(), 3), (4, 2));
    assert_eq!(count_functions(&sections, 2, 3), (1, 1));
}

#[test]
fn limits_of_index_space() {
    let sections = vec![Section::Globals(vec![MUT_I32; 3]), body(1, 1, 0)];
    assert!(fits_limits(&sections, sections.len()));
    assert!(fits_limits(&sections, 0));
}

#[test]
fn local_globals_are_numbered_after_all_imports() {
    let sections = vec![
        Section::Globals(vec![MUT_I32]),
        Section::Imports(vec![ImportKind::Global(MUT_I32), ImportKind::Global(CONST_I32)]),
        Section::Memories(1),
        body(6, 6, 2),
    ];
    let (indices, memory) = declared_candidates(&sections, sections.len());
    assert_eq!(indices, vec![0, 2]);
    assert!(memory);
    let rec = analyze_module(&sections).unwrap();
    assert_eq!(rec.stack_pointer, Ok(StackPointer { index: 2, reads: 6, writes: 6, area: 36 }));
}
