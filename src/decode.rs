use vstd::prelude::*;
use wasmparser::{
    FunctionBody, GlobalSectionReader, ImportSectionEntryType, ImportSectionReader, Parser,
    Payload, Type,
};
use crate::module::{decoded, within_limits, GlobalDecl, ImportKind, Operator, Section};
use crate::analyze::{analyze_module, expected_record, undecodable, FileRecord};

verus! {

#[verifier::external_type_specification]
#[verifier::external_body]
pub struct ExImportSectionReader<'a>(ImportSectionReader<'a>);

#[verifier::external_type_specification]
#[verifier::external_body]
pub struct ExGlobalSectionReader<'a>(GlobalSectionReader<'a>);

#[verifier::external_type_specification]
#[verifier::external_body]
pub struct ExPayload<'a>(Payload<'a>);

#[verifier::external_type_specification]
#[verifier::external_body]
pub struct ExFunctionBody<'a>(FunctionBody<'a>);

/// The sections wasmparser decodes from a module's bytes: one per payload,
/// in order, ending with `Malformed` where a payload fails to decode.  The
/// decoding depends on the bytes alone.
pub uninterp spec fn sections_of(bytes: Seq<u8>) -> Seq<Section>;

/// Relies on wasmparser's `ImportSectionReader::get_count` and `read`: each
/// import in order, as one `ImportKind`; `Malformed` where one fails to
/// decode.
#[verifier::external_body]
fn imports_of(mut r: ImportSectionReader) -> Section {
    let mut v = Vec::new();
    for _ in 0..r.get_count() {
        match r.read() {
            Ok(i) => v.push(match i.ty {
                ImportSectionEntryType::Global(g) => ImportKind::Global(
                    GlobalDecl { mutable: g.mutable, i32_typed: matches!(g.content_type, Type::I32) },
                ),
                ImportSectionEntryType::Memory(_) => ImportKind::Memory,
                _ => ImportKind::Other,
            }),
            Err(_) => return Section::Malformed,
        }
    }
    Section::Imports(v)
}

/// Relies on wasmparser's `GlobalSectionReader::get_count` and `read`: each
/// global's type in order; `Malformed` where one fails to decode.
#[verifier::external_body]
fn globals_of(mut r: GlobalSectionReader) -> Section {
    let mut v = Vec::new();
    for _ in 0..r.get_count() {
        match r.read() {
            Ok(g) => v.push(
                GlobalDecl { mutable: g.ty.mutable, i32_typed: matches!(g.ty.content_type, Type::I32) },
            ),
            Err(_) => return Section::Malformed,
        }
    }
    Section::Globals(v)
}

/// Relies on wasmparser's `FunctionBody::get_operators_reader` and
/// `OperatorsReader::eof` and `read`: each instruction in order, one that
/// fails to decode as `Undecodable` (a read consumes at least one byte);
/// `Malformed` where the locals fail to decode.
#[verifier::external_body]
fn body_of(b: FunctionBody) -> Section {
    let mut r = match b.get_operators_reader() {
        Ok(r) => r,
        Err(_) => return Section::Malformed,
    };
    let mut ops = Vec::new();
    while !r.eof() {
        ops.push(match r.read() {
            Ok(wasmparser::Operator::GlobalGet { global_index }) => Operator::GlobalGet(global_index),
            Ok(wasmparser::Operator::GlobalSet { global_index }) => Operator::GlobalSet(global_index),
            Ok(_) => Operator::Other,
            Err(_) => Operator::Undecodable,
        });
    }
    Section::Code(ops)
}

/// One payload as one `Section`: relies on wasmparser's
/// `MemorySectionReader::get_count` for a memory section; the entries of the
/// other sections are decoded by the wrappers above.
#[verifier::external_body]
fn section_of(p: Payload) -> Section {
    match p {
        Payload::ImportSection(r) => imports_of(r),
        Payload::GlobalSection(r) => globals_of(r),
        Payload::MemorySection(r) => Section::Memories(r.get_count()),
        Payload::CodeSectionEntry(b) => body_of(b),
        _ => Section::Other,
    }
}

/// Relies on wasmparser's `Parser::parse_all`: the module's payloads in
/// order, each as one `Section`.  That iterator yields its first error again
/// and again, so the list ends with the first `Malformed`.
#[verifier::external_body]
pub fn decode_module(bytes: &[u8]) -> (r: Vec<Section>)
    ensures
        r@ == sections_of(bytes@),
{
    let mut out = Vec::new();
    for payload in Parser::new(0).parse_all(bytes) {
        match payload {
            Ok(p) => out.push(section_of(p)),
            Err(_) => {
                out.push(Section::Malformed);
                break;
            },
        }
    }
    out
}

/// Analyses a module given as its bytes: the analysis of the sections
/// wasmparser decodes from them.
pub fn analyze_bytes(bytes: &[u8]) -> (r: Option<FileRecord>)
    ensures
        r == if undecodable(sections_of(bytes@)) || !within_limits(decoded(sections_of(bytes@))) {
            None
        } else {
            Some(expected_record(decoded(sections_of(bytes@))))
        },
{
    let sections = decode_module(bytes);
    analyze_module(&sections)
}

} // verus!
