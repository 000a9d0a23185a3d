//! Introspection of a module's binary: its exported functions and the sizes
//! of its type, function and export sections.

use crate::error::{DebuggerError, ErrorView};
use crate::text::string_views;
use vstd::prelude::*;
use wasmparser::{ExternalKind, Parser, Payload};

verus! {

/// What an export refers to.
#[derive(Debug, Clone, Copy, PartialEq, Eq)]
pub enum ExportKind {
    Func,
    Table,
    Memory,
    Global,
    Tag,
    FuncExact,
}

/// One entry of an export section, as the parser read it.
#[derive(Debug, Clone, PartialEq, Eq)]
pub enum ExportRead {
    /// A well-formed export.
    Entry { name: String, kind: ExportKind, index: u32 },
    /// The entry could not be decoded; nothing follows it in its section.
    Malformed { message: String, offset: u64 },
}

/// Where the content of a section lies in the module.
#[derive(Debug, Clone, Copy, PartialEq, Eq)]
pub struct SectionSpan {
    /// The identifier of the section.
    pub id: u8,
    /// The offset of the first byte of the content.
    pub start: u64,
    /// The offset after the last byte of the content.
    pub end: u64,
}

/// The number of entries that a section announces, for the sections that
/// the parser hands out as a type, a function or an export section.
#[derive(Debug, Clone, Copy, PartialEq, Eq)]
pub enum SectionCount {
    Types(u32),
    Functions(u32),
    Exports(u32),
    /// Another section.
    Uncounted,
}

/// What one event of the parser says of the module.
#[derive(Debug, Clone, PartialEq, Eq)]
pub enum EventRead {
    /// A section: where it lies and, for a type, function or export
    /// section, the number of entries that it announces.
    Section { span: SectionSpan, count: SectionCount },
    /// Something else: the header, a function body, the end of the module.
    Other,
    /// The bytes could not be parsed further; no event follows.
    Malformed { message: String, offset: u64 },
}

/// An export entry as a plain value.
pub enum ExportReadView {
    Entry { name: Seq<char>, kind: ExportKind, index: u32 },
    Malformed { message: Seq<char>, offset: u64 },
}

impl View for ExportRead {
    type V = ExportReadView;

    open spec fn view(&self) -> ExportReadView {
        match *self {
            ExportRead::Entry { name, kind, index } => ExportReadView::Entry {
                name: name@,
                kind,
                index,
            },
            ExportRead::Malformed { message, offset } => ExportReadView::Malformed {
                message: message@,
                offset,
            },
        }
    }
}

/// The export entries as plain values.
pub open spec fn export_read_views(entries: Seq<ExportRead>) -> Seq<ExportReadView> {
    Seq::new(entries.len(), |i: int| entries[i]@)
}

/// An event as a plain value.
pub enum EventReadView {
    Section { span: SectionSpan, count: SectionCount },
    Other,
    Malformed { message: Seq<char>, offset: u64 },
}

impl View for EventRead {
    type V = EventReadView;

    open spec fn view(&self) -> EventReadView {
        match *self {
            EventRead::Section { span, count } => EventReadView::Section { span, count },
            EventRead::Other => EventReadView::Other,
            EventRead::Malformed { message, offset } => EventReadView::Malformed {
                message: message@,
                offset,
            },
        }
    }
}

/// The events as plain values.
pub open spec fn event_read_views(events: Seq<EventRead>) -> Seq<EventReadView> {
    Seq::new(events.len(), |i: int| events[i]@)
}

/// Information about a module: the entry counts that its type, function and
/// export sections announce.
#[derive(Debug, Default, Clone, Copy, PartialEq, Eq)]
pub struct ModuleInfo {
    pub type_count: u32,
    pub function_count: u32,
    pub export_count: u32,
}

/// The events that `wasmparser` yields for the bytes `wasm`, in order.
pub uninterp spec fn module_events(wasm: Seq<u8>) -> Seq<EventReadView>;

/// The entries that `wasmparser` reads from the export section announced by
/// event number `index` of `wasm`; empty where that event is no export
/// section.
pub uninterp spec fn export_entries(wasm: Seq<u8>, index: nat) -> Seq<ExportReadView>;

/// Runs `wasmparser::Parser::new(0).parse_all` over `wasm` and converts each
/// event: a section to what `Payload::as_section` says of it, with the
/// `count` of its reader where the payload is a `TypeSection`, a
/// `FunctionSection` or an `ExportSection`; an error to its message and
/// offset. The parser reads nothing but the bytes, so the result has a
/// name; nothing else is claimed of it.
#[verifier::external_body]
pub(crate) fn read_events(wasm: &[u8]) -> (events: Vec<EventRead>)
    ensures
        event_read_views(events@) == module_events(wasm@),
{
    Parser::new(0).parse_all(wasm).map(|payload| match payload {
        Ok(p) => match p.as_section() {
            Some((id, range)) => EventRead::Section {
                span: SectionSpan { id, start: range.start, end: range.end },
                count: match &p {
                    Payload::TypeSection(r) => SectionCount::Types(r.count()),
                    Payload::FunctionSection(r) => SectionCount::Functions(r.count()),
                    Payload::ExportSection(r) => SectionCount::Exports(r.count()),
                    _ => SectionCount::Uncounted,
                },
            },
            None => EventRead::Other,
        },
        Err(e) => EventRead::Malformed { message: e.message().to_string(), offset: e.offset() },
    }).collect()
}

/// Iterates the `wasmparser::ExportSectionReader` of event number `index`
/// and converts each `wasmparser::Export`, or the error in its place, to an
/// `ExportRead`. An event that is no export section gives no entries.
#[verifier::external_body]
pub(crate) fn read_exports(wasm: &[u8], index: usize) -> (entries: Vec<ExportRead>)
    ensures
        export_read_views(entries@) == export_entries(wasm@, index as nat),
{
    let mut entries = Vec::new();
    if let Some(Ok(Payload::ExportSection(reader))) = Parser::new(0).parse_all(wasm).nth(index) {
        for export in reader {
            entries.push(match export {
                Ok(e) => ExportRead::Entry { name: e.name.to_string(), index: e.index, kind: match e.kind {
                    ExternalKind::Func => ExportKind::Func, ExternalKind::Table => ExportKind::Table,
                    ExternalKind::Memory => ExportKind::Memory, ExternalKind::Global => ExportKind::Global,
                    ExternalKind::Tag => ExportKind::Tag, ExternalKind::FuncExact => ExportKind::FuncExact,
                } },
                Err(e) => ExportRead::Malformed { message: e.message().to_string(), offset: e.offset() },
            });
        }
    }
    entries
}

/// The names of the function exports among `entries`, in their order, or the
/// fault of the first entry that could not be decoded.
pub open spec fn function_names(entries: Seq<ExportReadView>) -> Result<Seq<Seq<char>>, ErrorView>
    decreases entries.len(),
{
    if entries.len() == 0 {
        Ok(Seq::empty())
    } else {
        match function_names(entries.drop_last()) {
            Err(e) => Err(e),
            Ok(names) => match entries.last() {
                ExportReadView::Malformed { message, offset } => Err(
                    ErrorView::MalformedModule { message, offset },
                ),
                ExportReadView::Entry { name, kind, index } => if kind is Func {
                    Ok(names.push(name))
                } else {
                    Ok(names)
                },
            },
        }
    }
}

/// The exported functions that the first `n` events of `wasm` announce.
pub open spec fn exported_functions_upto(wasm: Seq<u8>, n: nat) -> Result<
    Seq<Seq<char>>,
    ErrorView,
>
    decreases n,
{
    if n == 0 {
        Ok(Seq::empty())
    } else {
        match exported_functions_upto(wasm, (n - 1) as nat) {
            Err(e) => Err(e),
            Ok(names) => match module_events(wasm)[n - 1] {
                EventReadView::Malformed { message, offset } => Err(
                    ErrorView::MalformedModule { message, offset },
                ),
                EventReadView::Section { count, .. } => if count is Exports {
                    match function_names(export_entries(wasm, (n - 1) as nat)) {
                        Err(e) => Err(e),
                        Ok(more) => Ok(names + more),
                    }
                } else {
                    Ok(names)
                },
                EventReadView::Other => Ok(names),
            },
        }
    }
}

/// The exported functions of the module `wasm`: the function exports of
/// every export section, in the order in which the parser meets them, or the
/// first fault that the parser reports on the way.
pub open spec fn exported_functions(wasm: Seq<u8>) -> Result<Seq<Seq<char>>, ErrorView> {
    exported_functions_upto(wasm, module_events(wasm).len())
}

/// The section counts with the count `count` taken in.
pub open spec fn with_count(info: ModuleInfo, count: SectionCount) -> ModuleInfo {
    match count {
        SectionCount::Types(n) => ModuleInfo { type_count: n, ..info },
        SectionCount::Functions(n) => ModuleInfo { function_count: n, ..info },
        SectionCount::Exports(n) => ModuleInfo { export_count: n, ..info },
        SectionCount::Uncounted => info,
    }
}

/// The section counts after the events `events`: of the type, function and
/// export sections the count of the last one seen, zero where none was, or
/// the first fault.
pub open spec fn module_info(events: Seq<EventReadView>) -> Result<ModuleInfo, ErrorView>
    decreases events.len(),
{
    if events.len() == 0 {
        Ok(ModuleInfo { type_count: 0, function_count: 0, export_count: 0 })
    } else {
        match module_info(events.drop_last()) {
            Err(e) => Err(e),
            Ok(info) => match events.last() {
                EventReadView::Malformed { message, offset } => Err(
                    ErrorView::MalformedModule { message, offset },
                ),
                EventReadView::Section { count, .. } => Ok(with_count(info, count)),
                EventReadView::Other => Ok(info),
            },
        }
    }
}

/// Collects the names of the function exports of one export section.
pub fn function_names_of(entries: &Vec<ExportRead>) -> (r: Result<Vec<String>, DebuggerError>)
    ensures
        match r {
            Ok(names) => function_names(export_read_views(entries@)) == Ok::<
                Seq<Seq<char>>,
                ErrorView,
            >(string_views(names@)),
            Err(e) => function_names(export_read_views(entries@)) == Err::<
                Seq<Seq<char>>,
                ErrorView,
            >(e@),
        },
{
    let ghost views = export_read_views(entries@);
    let mut names: Vec<String> = Vec::new();
    let mut i: usize = 0;
    assert(string_views(names@) =~= Seq::<Seq<char>>::empty());
    while i < entries.len()
        invariant
            i <= entries.len(),
            views == export_read_views(entries@),
            function_names(views.take(i as int)) == Ok::<Seq<Seq<char>>, ErrorView>(
                string_views(names@),
            ),
        decreases entries.len() - i,
    {
        proof {
            assert(views.take(i + 1).drop_last() == views.take(i as int));
            assert(views.take(i + 1).last() == entries@[i as int]@);
        }
        match &entries[i] {
            ExportRead::Malformed { message, offset } => {
                let e = DebuggerError::MalformedModule { message: message.clone(), offset: *offset };
                proof {
                    lemma_function_names_fault(views, i + 1);
                }
                return Err(e);
            },
            ExportRead::Entry { name, kind, index } => {
                match kind {
                    ExportKind::Func => {
                        let ghost before = string_views(names@);
                        names.push(name.clone());
                        assert(string_views(names@) =~= before.push(name@));
                    },
                    _ => {},
                }
            },
        }
        i += 1;
    }
    proof {
        assert(views.take(i as int) == views);
    }
    Ok(names)
}

/// A fault among the first `n` entries is the fault of the whole section.
proof fn lemma_function_names_fault(entries: Seq<ExportReadView>, n: int)
    requires
        0 <= n <= entries.len(),
        function_names(entries.take(n)) is Err,
    ensures
        function_names(entries) == function_names(entries.take(n)),
    decreases entries.len() - n,
{
    if n < entries.len() {
        assert(entries.take(n + 1).drop_last() == entries.take(n));
        lemma_function_names_fault(entries, n + 1);
    } else {
        assert(entries.take(n) == entries);
    }
}

/// Parses the exported functions of a module.
///
/// Returns the names of the function exports in the order in which the
/// parser meets them. Fails with `MalformedModule` on the first fault that
/// the parser reports, in an event or in an entry of an export section.
pub fn parse_functions(wasm_bytes: &[u8]) -> (r: Result<Vec<String>, DebuggerError>)
    ensures
        match r {
            Ok(names) => exported_functions(wasm_bytes@) == Ok::<Seq<Seq<char>>, ErrorView>(
                string_views(names@),
            ),
            Err(e) => exported_functions(wasm_bytes@) == Err::<Seq<Seq<char>>, ErrorView>(e@),
        },
{
    let mut functions: Vec<String> = Vec::new();
    let items = read_events(wasm_bytes);
    let mut i: usize = 0;
    assert(string_views(functions@) =~= Seq::<Seq<char>>::empty());
    while i < items.len()
        invariant
            i <= items.len(),
            event_read_views(items@) == module_events(wasm_bytes@),
            exported_functions_upto(wasm_bytes@, i as nat) == Ok::<Seq<Seq<char>>, ErrorView>(
                string_views(functions@),
            ),
        decreases items.len() - i,
    {
        assert(module_events(wasm_bytes@)[i as int] == items@[i as int]@);
        match &items[i] {
            EventRead::Malformed { message, offset } => {
                let e = DebuggerError::MalformedModule { message: message.clone(), offset: *offset };
                proof {
                    lemma_exported_functions_fault(wasm_bytes@, (i + 1) as nat);
                }
                return Err(e);
            },
            EventRead::Section { count, .. } => {
                if let SectionCount::Exports(_) = count {
                    let entries = read_exports(wasm_bytes, i);
                    match function_names_of(&entries) {
                        Err(e) => {
                            proof {
                                lemma_exported_functions_fault(wasm_bytes@, (i + 1) as nat);
                            }
                            return Err(e);
                        },
                        Ok(mut more) => {
                            let ghost before = string_views(functions@);
                            let ghost added = string_views(more@);
                            functions.append(&mut more);
                            assert(string_views(functions@) =~= before + added);
                        },
                    }
                }
            },
            EventRead::Other => {},
        }
        i += 1;
    }
    Ok(functions)
}

/// A fault among the first `n` events is the fault of the whole module.
proof fn lemma_exported_functions_fault(wasm: Seq<u8>, n: nat)
    requires
        n <= module_events(wasm).len(),
        exported_functions_upto(wasm, n) is Err,
    ensures
        exported_functions(wasm) == exported_functions_upto(wasm, n),
    decreases module_events(wasm).len() - n,
{
    if n < module_events(wasm).len() {
        lemma_exported_functions_fault(wasm, n + 1);
    }
}

/// Reduces the events of a module to its section counts.
pub fn summarize(items: &Vec<EventRead>) -> (r: Result<ModuleInfo, DebuggerError>)
    ensures
        match r {
            Ok(info) => module_info(event_read_views(items@)) == Ok::<ModuleInfo, ErrorView>(
                info,
            ),
            Err(e) => module_info(event_read_views(items@)) == Err::<ModuleInfo, ErrorView>(e@),
        },
{
    let ghost views = event_read_views(items@);
    let mut info = ModuleInfo { type_count: 0, function_count: 0, export_count: 0 };
    let mut i: usize = 0;
    while i < items.len()
        invariant
            i <= items.len(),
            views == event_read_views(items@),
            module_info(views.take(i as int)) == Ok::<ModuleInfo, ErrorView>(info),
        decreases items.len() - i,
    {
        proof {
            assert(views.take(i + 1).drop_last() == views.take(i as int));
            assert(views.take(i + 1).last() == items@[i as int]@);
        }
        match &items[i] {
            EventRead::Malformed { message, offset } => {
                let e = DebuggerError::MalformedModule { message: message.clone(), offset: *offset };
                proof {
                    lemma_module_info_fault(views, i + 1);
                }
                return Err(e);
            },
            EventRead::Section { count, .. } => {
                match count {
                    SectionCount::Types(n) => {
                        info.type_count = *n;
                    },
                    SectionCount::Functions(n) => {
                        info.function_count = *n;
                    },
                    SectionCount::Exports(n) => {
                        info.export_count = *n;
                    },
                    SectionCount::Uncounted => {},
                }
            },
            EventRead::Other => {},
        }
        i += 1;
    }
    proof {
        assert(views.take(i as int) == views);
    }
    Ok(info)
}

/// A fault among the first `n` events is the fault of the whole module.
proof fn lemma_module_info_fault(items: Seq<EventReadView>, n: int)
    requires
        0 <= n <= items.len(),
        module_info(items.take(n)) is Err,
    ensures
        module_info(items) == module_info(items.take(n)),
    decreases items.len() - n,
{
    if n < items.len() {
        assert(items.take(n + 1).drop_last() == items.take(n));
        lemma_module_info_fault(items, n + 1);
    } else {
        assert(items.take(n) == items);
    }
}

/// Gets the section counts of a module.
///
/// Fails with `MalformedModule` on the first fault that the parser reports
/// in an event. The entries of the sections are not decoded.
pub fn get_module_info(wasm_bytes: &[u8]) -> (r: Result<ModuleInfo, DebuggerError>)
    ensures
        match r {
            Ok(info) => module_info(module_events(wasm_bytes@)) == Ok::<ModuleInfo, ErrorView>(
                info,
            ),
            Err(e) => module_info(module_events(wasm_bytes@)) == Err::<ModuleInfo, ErrorView>(e@),
        },
{
    let items = read_events(wasm_bytes);
    summarize(&items)
}

} // verus!
