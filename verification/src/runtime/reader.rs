//! What the instrumenter reads of a module through `wasmparser`: whether
//! the module is valid, where its sections lie, and the entries that only a
//! full parser can take apart.

use vstd::prelude::*;
use wasmparser::{Element, ElementItems, Parser, Payload, TypeRef, Validator, WasmFeatures};

verus! {

/// Why a module failed validation.
#[derive(Debug, Clone, PartialEq, Eq)]
pub struct ValidationFault {
    /// What the validator objected to.
    pub message: String,
    /// The offset in the module at which it did.
    pub offset: u64,
}

/// A fault of validation as a plain value.
pub struct FaultView {
    pub message: Seq<char>,
    pub offset: u64,
}

impl View for ValidationFault {
    type V = FaultView;

    open spec fn view(&self) -> FaultView {
        FaultView { message: self.message@, offset: self.offset }
    }
}

/// An optional fault as a plain value.
pub open spec fn fault_option_view(fault: Option<ValidationFault>) -> Option<FaultView> {
    match fault {
        Some(f) => Some(f@),
        None => None,
    }
}

/// What an import brings into the module.
#[derive(Debug, Clone, Copy, PartialEq, Eq)]
pub enum ImportKind {
    Func,
    Table,
    Memory,
    Global,
    Tag,
    FuncExact,
}

impl ImportKind {
    /// Whether the import is a function, which takes a place among the
    /// function indices of the module.
    pub open spec fn is_function(self) -> bool {
        self is Func || self is FuncExact
    }

    /// Whether the import is a function.
    pub fn imports_function(self) -> (function: bool)
        ensures
            function == self.is_function(),
    {
        match self {
            ImportKind::Func => true,
            ImportKind::FuncExact => true,
            ImportKind::Table => false,
            ImportKind::Memory => false,
            ImportKind::Global => false,
            ImportKind::Tag => false,
        }
    }
}

/// One import, as far as instrumentation reads it.
#[derive(Debug, Clone, PartialEq, Eq)]
pub struct ImportRead {
    pub module: String,
    pub name: String,
    /// What is imported.
    pub kind: ImportKind,
}

/// An import as a plain value.
pub struct ImportView {
    pub module: Seq<char>,
    pub name: Seq<char>,
    pub kind: ImportKind,
}

impl View for ImportRead {
    type V = ImportView;

    open spec fn view(&self) -> ImportView {
        ImportView { module: self.module@, name: self.name@, kind: self.kind }
    }
}

/// The imports as plain values.
pub open spec fn import_views(imports: Seq<ImportRead>) -> Seq<ImportView> {
    Seq::new(imports.len(), |i: int| imports[i]@)
}

/// The imports that were read, as plain values.
pub open spec fn import_option_views(imports: Seq<Option<ImportRead>>) -> Seq<Option<ImportView>> {
    Seq::new(
        imports.len(),
        |i: int|
            match imports[i] {
                Some(import) => Some(import@),
                None => None,
            },
    )
}

/// One function body.
#[derive(Debug, Clone, PartialEq, Eq)]
pub struct BodyRead {
    /// The offset of the body in the module.
    pub start: u64,
    /// The body: its local declarations and its code.
    pub bytes: Vec<u8>,
    /// The offsets in the module at which its instructions begin, in
    /// order.
    pub operators: Vec<u64>,
}

/// A function body as a plain value.
pub struct BodyView {
    pub start: u64,
    pub bytes: Seq<u8>,
    pub operators: Seq<u64>,
}

impl View for BodyRead {
    type V = BodyView;

    open spec fn view(&self) -> BodyView {
        BodyView { start: self.start, bytes: self.bytes@, operators: self.operators@ }
    }
}

/// An optional body as a plain value.
pub open spec fn body_option_view(body: Option<BodyRead>) -> Option<BodyView> {
    match body {
        Some(b) => Some(b@),
        None => None,
    }
}

/// The offsets of the segments as plain values.
pub open spec fn site_views(segments: Seq<Option<Vec<u64>>>) -> Seq<Option<Seq<u64>>> {
    Seq::new(
        segments.len(),
        |i: int|
            match segments[i] {
                Some(sites) => Some(sites@),
                None => None,
            },
    )
}

/// The fault that `wasmparser`'s validator finds in `wasm` with its
/// default features; `None` for a valid module.
pub uninterp spec fn validation_fault(wasm: Seq<u8>) -> Option<FaultView>;

/// The fault that `wasmparser`'s validator finds in `wasm` where only the
/// features of `WasmFeatures::LIME1` are admitted: the first release of
/// the format with mutable globals, multiple values, sign extension,
/// saturating conversions, bulk copies of memory and extended constants.
/// `None` for a module that is valid within these features.
pub uninterp spec fn feature_fault(wasm: Seq<u8>) -> Option<FaultView>;

/// The imports of the import section announced by event number `index`,
/// `None` in the place of one that could not be decoded.
pub uninterp spec fn import_entries(wasm: Seq<u8>, index: nat) -> Seq<Option<ImportView>>;

/// The number of parameters of each type of the type section announced by
/// event number `index`, `None` in the place of a type that is no plain
/// function type.
pub uninterp spec fn type_params(wasm: Seq<u8>, index: nat) -> Seq<Option<u32>>;

/// For each segment of the element section announced by event number
/// `index`, the offsets of the function indices it lists; `None` for a
/// segment that lists expressions or could not be decoded.
pub uninterp spec fn element_sites(wasm: Seq<u8>, index: nat) -> Seq<Option<Seq<u64>>>;

/// The function body that event number `index` hands out; `None` for any
/// other event and for a body whose instructions could not be decoded.
pub uninterp spec fn code_body(wasm: Seq<u8>, index: nat) -> Option<BodyView>;

/// Runs `wasmparser::validate` and converts the error, if there is one.
/// The validator reads nothing but the bytes.
#[verifier::external_body]
pub(crate) fn validate(wasm: &[u8]) -> (fault: Option<ValidationFault>)
    ensures
        fault_option_view(fault) == validation_fault(wasm@),
{
    wasmparser::validate(wasm).err().map(|e| ValidationFault {
        message: e.message().to_string(),
        offset: e.offset(),
    })
}

/// Runs `wasmparser::Validator::validate_all` with the features
/// `WasmFeatures::LIME1` and converts the error, if there is one.
#[verifier::external_body]
pub(crate) fn validate_features(wasm: &[u8]) -> (fault: Option<ValidationFault>)
    ensures
        fault_option_view(fault) == feature_fault(wasm@),
{
    Validator::new_with_features(WasmFeatures::LIME1).validate_all(wasm).err().map(|e| ValidationFault {
        message: e.message().to_string(),
        offset: e.offset(),
    })
}

/// Iterates `ImportSectionReader::into_imports` of event number `index`
/// and converts each `wasmparser::Import`: its two names, and which
/// variant of `TypeRef` its type is.
#[verifier::external_body]
pub(crate) fn read_imports(wasm: &[u8], index: usize) -> (imports: Vec<Option<ImportRead>>)
    ensures
        import_option_views(imports@) == import_entries(wasm@, index as nat),
{
    match Parser::new(0).parse_all(wasm).nth(index) {
        Some(Ok(Payload::ImportSection(reader))) => reader.into_imports().map(|import| import.ok().map(|i| ImportRead {
            module: i.module.to_string(),
            name: i.name.to_string(),
            kind: match i.ty {
                TypeRef::Func(_) => ImportKind::Func, TypeRef::Table(_) => ImportKind::Table,
                TypeRef::Memory(_) => ImportKind::Memory, TypeRef::Global(_) => ImportKind::Global,
                TypeRef::Tag(_) => ImportKind::Tag, TypeRef::FuncExact(_) => ImportKind::FuncExact,
            },
        })).collect(),
        _ => Vec::new(),
    }
}

/// Iterates `TypeSectionReader::into_iter_err_on_gc_types` of event number
/// `index` and takes the length of `FuncType::params` of each type.
#[verifier::external_body]
pub(crate) fn read_type_params(wasm: &[u8], index: usize) -> (params: Vec<Option<u32>>)
    ensures
        params@ == type_params(wasm@, index as nat),
{
    let mut params = Vec::new();
    if let Some(Ok(Payload::TypeSection(reader))) = Parser::new(0).parse_all(wasm).nth(index) {
        for ty in reader.into_iter_err_on_gc_types() {
            params.push(ty.ok().and_then(|f| u32::try_from(f.params().len()).ok()));
        }
    }
    params
}

/// Iterates the `ElementSectionReader` of event number `index` and, for
/// each segment whose items are `ElementItems::Functions`, collects the
/// offsets that `into_iter_with_offsets` gives.
#[verifier::external_body]
pub(crate) fn read_element_sites(wasm: &[u8], index: usize) -> (sites: Vec<Option<Vec<u64>>>)
    ensures
        site_views(sites@) == element_sites(wasm@, index as nat),
{
    let mut sites = Vec::new();
    if let Some(Ok(Payload::ElementSection(reader))) = Parser::new(0).parse_all(wasm).nth(index) {
        for element in reader {
            sites.push(match element {
                Ok(Element { items: ElementItems::Functions(f), .. }) => {
                    f.into_iter_with_offsets().map(|item| item.ok().map(|(at, _)| at)).collect()
                },
                _ => None,
            });
        }
    }
    sites
}

/// Takes the `wasmparser::FunctionBody` of event number `index`: its
/// offset from `range`, its bytes from `as_bytes`, and the offsets of its
/// instructions from `get_operators_reader` and `into_iter_with_offsets`.
#[verifier::external_body]
pub(crate) fn read_body(wasm: &[u8], index: usize) -> (body: Option<BodyRead>)
    ensures
        body_option_view(body) == code_body(wasm@, index as nat),
{
    match Parser::new(0).parse_all(wasm).nth(index) {
        Some(Ok(Payload::CodeSectionEntry(body))) => Some(BodyRead {
            start: body.range().start,
            bytes: body.as_bytes().to_vec(),
            operators: body.get_operators_reader().ok()?.into_iter_with_offsets().map(|op| {
                op.ok().map(|(_, at)| at)
            }).collect::<Option<Vec<u64>>>()?,
        }),
        _ => None,
    }
}

} // verus!
