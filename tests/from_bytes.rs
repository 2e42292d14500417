use wasm_stack_pointer::{
    analyze_bytes, decode_module, Failure, GlobalDecl, ImportKind, Operator, Section, StackPointer,
};

const GLOBAL_GET: u8 = 0x23;
const GLOBAL_SET: u8 = 0x24;
const END: u8 = 0x0b;

fn section(id: u8, payload: Vec<u8>) -> Vec<u8> {
    assert!(payload.len() < 128);
    let mut out = vec![id, payload.len() as u8];
    out.extend(payload);
    out
}

/// A module with `globals` (mutability, `i32` or not) declared locally, an
/// optional memory, and one function per entry of `bodies`, each body given
/// as its instruction bytes.
fn module(memory: bool, imports: Vec<u8>, globals: &[(bool, bool)], bodies: &[Vec<u8>]) -> Vec<u8> {
    let mut out = vec![0x00, 0x61, 0x73, 0x6d, 0x01, 0x00, 0x00, 0x00];
    out.extend(section(1, vec![1, 0x60, 0, 0]));
    if !imports.is_empty() {
        out.extend(section(2, imports));
    }
    let mut funcs = vec![bodies.len() as u8];
    funcs.extend(vec![0u8; bodies.len()]);
    out.extend(section(3, funcs));
    if memory {
        out.extend(section(5, vec![1, 0, 1]));
    }
    if !globals.is_empty() {
        let mut g = vec![globals.len() as u8];
        for (mutable, is_i32) in globals {
            if *is_i32 {
                g.extend([0x7f, *mutable as u8, 0x41, 0, END]);
            } else {
                g.extend([0x7e, *mutable as u8, 0x42, 0, END]);
            }
        }
        out.extend(section(6, g));
    }
    let mut code = vec![bodies.len() as u8];
    for ops in bodies {
        let mut body = vec![0u8];
        body.extend(ops);
        body.push(END);
        code.push(body.len() as u8);
        code.extend(body);
    }
    out.extend(section(10, code));
    out
}

fn uses(gets: usize, sets: usize, g: u8) -> Vec<u8> {
    let mut ops = Vec::new();
    for _ in 0..gets {
        ops.extend([GLOBAL_GET, g]);
    }
    for _ in 0..sets {
        ops.extend([GLOBAL_SET, g]);
    }
    ops
}

#[test]
fn binary_with_busy_global() {
    let bodies = vec![uses(4, 3, 1), vec![], uses(3, 3, 1), vec![0x01], uses(3, 2, 1), vec![]];
    let bytes = module(true, vec![], &[(false, true), (true, true)], &bodies);
    let rec = analyze_bytes(&bytes).unwrap();
    assert_eq!(rec.stack_pointer, Ok(StackPointer { index: 1, reads: 10, writes: 8, area: 80 }));
    assert_eq!(rec.functions_using_stack_pointer, Some(3));
    assert_eq!(rec.functions_all_local, 6);
}

#[test]
fn binary_with_idle_global() {
    let bodies = vec![vec![0x01]; 5];
    let imports = vec![1, 1, b'e', 1, b'm', 0x02, 0x00, 0x01];
    let bytes = module(false, imports, &[(true, true)], &bodies);
    let sections = decode_module(&bytes);
    assert!(sections.iter().any(|s| matches!(s, Section::Imports(v) if v == &vec![ImportKind::Memory])));
    let rec = analyze_bytes(&bytes).unwrap();
    assert_eq!(rec.stack_pointer, Err(Failure::InsufficientUses));
    assert_eq!(rec.functions_using_stack_pointer, None);
    assert_eq!(rec.functions_all_local, 5);
}

#[test]
fn binary_without_memory() {
    let bytes = module(false, vec![], &[(true, true)], &[uses(9, 9, 0)]);
    assert_eq!(analyze_bytes(&bytes).unwrap().stack_pointer, Err(Failure::NoMemory));
}

#[test]
fn binary_without_candidate() {
    let bytes = module(true, vec![], &[(false, true), (true, false)], &[uses(9, 9, 0), uses(9, 9, 1)]);
    assert_eq!(analyze_bytes(&bytes).unwrap().stack_pointer, Err(Failure::NoMutableI32Global));
}

#[test]
fn binary_decodes_globals_and_operators() {
    let imports = vec![1, 1, b'e', 1, b'g', 0x03, 0x7f, 0x01];
    let bytes = module(true, imports, &[(true, false), (true, true)], &[vec![GLOBAL_GET, 0, GLOBAL_SET, 2]]);
    let sections = decode_module(&bytes);
    let globals = sections.iter().find_map(|s| match s {
        Section::Globals(v) => Some(v.clone()),
        _ => None,
    });
    assert_eq!(
        globals,
        Some(vec![GlobalDecl { mutable: true, i32_typed: false }, GlobalDecl { mutable: true, i32_typed: true }])
    );
    let imported = sections.iter().find_map(|s| match s {
        Section::Imports(v) => Some(v.clone()),
        _ => None,
    });
    assert_eq!(imported, Some(vec![ImportKind::Global(GlobalDecl { mutable: true, i32_typed: true })]));
    let code = sections.iter().find_map(|s| match s {
        Section::Code(v) => Some(v.clone()),
        _ => None,
    });
    assert_eq!(code, Some(vec![Operator::GlobalGet(0), Operator::GlobalSet(2), Operator::Other]));
    assert!(sections.iter().any(|s| matches!(s, Section::Memories(1))));
}

#[test]
fn garbage_is_skipped() {
    assert_eq!(analyze_bytes(b"not a module"), None);
    assert_eq!(analyze_bytes(&[]), None);
}

#[test]
fn truncated_binary_keeps_earlier_sections() {
    let bodies = vec![uses(5, 5, 0)];
    let mut bytes = module(true, vec![], &[(true, true)], &bodies);
    bytes.extend([11, 40, 1, 2]);
    let rec = analyze_bytes(&bytes).unwrap();
    assert_eq!(rec.stack_pointer, Ok(StackPointer { index: 0, reads: 5, writes: 5, area: 25 }));
    assert_eq!(rec.functions_all_local, 1);
}
