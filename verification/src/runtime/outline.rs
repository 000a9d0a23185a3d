//! The outline of a module: its sections as the instrumenter rewrites
//! them, with every function index set apart from the bytes around it.

use crate::runtime::leb::{read_u32, read_u32_at};
use crate::runtime::reader::{
    code_body, element_sites, import_entries, import_option_views, import_views, read_body,
    read_element_sites, read_imports, read_type_params, site_views, type_params, BodyRead, BodyView,
    ImportRead, ImportView,
};
use crate::utils::wasm::{
    event_read_views, export_entries, export_read_views, module_events, read_events,
    read_exports, EventRead,
    EventReadView, ExportKind, ExportRead, ExportReadView, SectionSpan,
};
use vstd::prelude::*;
use vstd::slice::slice_subrange;
use vstd::string::*;

verus! {

/// Why a module cannot be instrumented.
#[derive(Debug, Clone, Copy, PartialEq, Eq, Structural)]
pub enum Obstacle {
    /// The parser gave up on the module.
    Malformed,
    /// A section or a function index lies outside the module, or out of
    /// order.
    Layout,
    /// A count or an index could not be decoded where one is expected.
    Encoding,
    /// A type is no plain function type.
    TypeForm,
    /// An import could not be decoded.
    ImportForm,
    /// An export could not be decoded.
    ExportForm,
    /// An element segment lists expressions instead of function indices.
    ElementForm,
    /// The module has no functions to hook: a type, function or code
    /// section is missing, or two of them disagree.
    NoFunctions,
    /// The module already imports the hook.
    AlreadyInstrumented,
    /// A count, an index or a section would exceed what the format holds.
    TooLarge,
    /// The instrumented module, read again, does not show the hook among
    /// its imports.
    HookNotShown,
}

impl Obstacle {
    /// The obstacle in words.
    pub open spec fn text(self) -> Seq<char> {
        match self {
            Obstacle::Malformed => "the module could not be parsed"@,
            Obstacle::Layout => "a section or function index lies outside the module"@,
            Obstacle::Encoding => "a count or index could not be decoded"@,
            Obstacle::TypeForm => "a type is no plain function type"@,
            Obstacle::ImportForm => "an import could not be decoded"@,
            Obstacle::ExportForm => "an export could not be decoded"@,
            Obstacle::ElementForm => "an element segment lists expressions"@,
            Obstacle::NoFunctions => "the module has no function table to hook"@,
            Obstacle::AlreadyInstrumented => "the module already imports the hook"@,
            Obstacle::TooLarge => "the instrumented module would exceed the limits of the format"@,
            Obstacle::HookNotShown => "the instrumented module does not show the hook"@,
        }
    }

    /// The obstacle in words.
    pub fn message(&self) -> (text: String)
        ensures
            text@ == self.text(),
    {
        match self {
            Obstacle::Malformed => String::from_str("the module could not be parsed"),
            Obstacle::Layout => String::from_str(
                "a section or function index lies outside the module",
            ),
            Obstacle::Encoding => String::from_str("a count or index could not be decoded"),
            Obstacle::TypeForm => String::from_str("a type is no plain function type"),
            Obstacle::ImportForm => String::from_str("an import could not be decoded"),
            Obstacle::ExportForm => String::from_str("an export could not be decoded"),
            Obstacle::ElementForm => String::from_str("an element segment lists expressions"),
            Obstacle::NoFunctions => String::from_str("the module has no function table to hook"),
            Obstacle::AlreadyInstrumented => String::from_str(
                "the module already imports the hook",
            ),
            Obstacle::TooLarge => String::from_str(
                "the instrumented module would exceed the limits of the format",
            ),
            Obstacle::HookNotShown => String::from_str(
                "the instrumented module does not show the hook",
            ),
        }
    }
}

/// A stretch of a section or body: bytes that are kept as they are, the
/// index of a function, or the place where a block begins, with its offset
/// in the body.
#[derive(Debug, Clone, PartialEq, Eq)]
pub enum Piece {
    Raw(Vec<u8>),
    Function(u32),
    Block(u32),
}

/// A piece as a plain value.
pub enum PieceView {
    Raw(Seq<u8>),
    Function(u32),
    Block(u32),
}

/// A place at which a section or body is cut.
#[derive(Debug, Clone, Copy, PartialEq, Eq)]
pub struct Mark {
    /// The offset of the place in the module.
    pub at: u64,
    /// Whether a block begins there; a function index stands there
    /// otherwise.
    pub block: bool,
}

/// The largest offset of a block in its body that is passed to the hook,
/// as a signed 32-bit constant.
pub const MAX_OFFSET: u64 = 0x7fff_ffff;

impl View for Piece {
    type V = PieceView;

    open spec fn view(&self) -> PieceView {
        match *self {
            Piece::Raw(bytes) => PieceView::Raw(bytes@),
            Piece::Function(index) => PieceView::Function(index),
            Piece::Block(offset) => PieceView::Block(offset),
        }
    }
}

/// The pieces as plain values.
pub open spec fn piece_views(pieces: Seq<Piece>) -> Seq<PieceView> {
    Seq::new(pieces.len(), |i: int| pieces[i]@)
}

/// An export, ready to be encoded again.
#[derive(Debug, Clone, PartialEq, Eq)]
pub struct ExportItem {
    /// The name.
    pub name: String,
    /// The byte that encodes the kind; zero for a function.
    pub kind: u8,
    /// The index of what is exported.
    pub index: u32,
}

/// An export as a plain value.
pub struct ExportView {
    pub name: Seq<char>,
    pub kind: u8,
    pub index: u32,
}

impl View for ExportItem {
    type V = ExportView;

    open spec fn view(&self) -> ExportView {
        ExportView { name: self.name@, kind: self.kind, index: self.index }
    }
}

/// The exports as plain values.
pub open spec fn export_views(exports: Seq<ExportItem>) -> Seq<ExportView> {
    Seq::new(exports.len(), |i: int| exports[i]@)
}

/// What one event of the parser contributes to the outline.
#[derive(Debug, Clone, PartialEq, Eq)]
pub enum Item {
    /// The type section: its count, its entries as bytes, and the number
    /// of parameters of each type.
    Types { count: u32, entries: Vec<u8>, params: Vec<u32> },
    /// The import section: its count, its entries as bytes, and the
    /// imports.
    Imports { count: u32, entries: Vec<u8>, imports: Vec<ImportRead> },
    /// The function section: the type index of each function.
    Functions { types: Vec<u32> },
    /// The export section.
    Exports { exports: Vec<ExportItem> },
    /// The start section.
    Start { function: u32 },
    /// The element section, cut at the function indices it lists.
    Elements { pieces: Vec<Piece> },
    /// The head of the code section; the bodies follow as items.
    CodeStart,
    /// A function body, cut at the function indices in its code.
    Body { pieces: Vec<Piece> },
    /// Any other section, kept as it is.
    Plain { id: u8, content: Vec<u8> },
    /// Nothing that the instrumented module keeps: the header, the end, or
    /// the name section, whose function indices would no longer hold.
    Nothing,
}

/// An item as a plain value.
pub enum ItemView {
    Types { count: u32, entries: Seq<u8>, params: Seq<u32> },
    Imports { count: u32, entries: Seq<u8>, imports: Seq<ImportView> },
    Functions { types: Seq<u32> },
    Exports { exports: Seq<ExportView> },
    Start { function: u32 },
    Elements { pieces: Seq<PieceView> },
    CodeStart,
    Body { pieces: Seq<PieceView> },
    Plain { id: u8, content: Seq<u8> },
    Nothing,
}

impl View for Item {
    type V = ItemView;

    open spec fn view(&self) -> ItemView {
        match *self {
            Item::Types { count, entries, params } => ItemView::Types {
                count,
                entries: entries@,
                params: params@,
            },
            Item::Imports { count, entries, imports } => ItemView::Imports {
                count,
                entries: entries@,
                imports: import_views(imports@),
            },
            Item::Functions { types } => ItemView::Functions { types: types@ },
            Item::Exports { exports } => ItemView::Exports { exports: export_views(exports@) },
            Item::Start { function } => ItemView::Start { function },
            Item::Elements { pieces } => ItemView::Elements { pieces: piece_views(pieces@) },
            Item::CodeStart => ItemView::CodeStart,
            Item::Body { pieces } => ItemView::Body { pieces: piece_views(pieces@) },
            Item::Plain { id, content } => ItemView::Plain { id, content: content@ },
            Item::Nothing => ItemView::Nothing,
        }
    }
}

/// The items as plain values.
pub open spec fn item_views(items: Seq<Item>) -> Seq<ItemView> {
    Seq::new(items.len(), |i: int| items[i]@)
}

/// The values of `options`, or `None` where one of them is `None`.
pub open spec fn all_present<T>(options: Seq<Option<T>>) -> Option<Seq<T>>
    decreases options.len(),
{
    if options.len() == 0 {
        Some(Seq::empty())
    } else {
        match (all_present(options.drop_last()), options.last()) {
            (Some(values), Some(value)) => Some(values.push(value)),
            _ => None,
        }
    }
}

/// The offsets of `segments` in one sequence, or `None` where a segment is
/// `None`.
pub open spec fn flat_sites(segments: Seq<Option<Seq<u64>>>) -> Option<Seq<u64>>
    decreases segments.len(),
{
    if segments.len() == 0 {
        Some(Seq::empty())
    } else {
        match (flat_sites(segments.drop_last()), segments.last()) {
            (Some(sites), Some(more)) => Some(sites + more),
            _ => None,
        }
    }
}

/// The marks for function indices at the offsets `sites`.
pub open spec fn index_marks(sites: Seq<u64>) -> Seq<Mark> {
    Seq::new(sites.len(), |i: int| Mark { at: sites[i], block: false })
}

/// Whether an instruction with this first byte names a function in its
/// immediate: `call`, `return_call` and `ref.func`.
pub open spec fn names_function(opcode: u8) -> bool {
    opcode == 0x10 || opcode == 0x12 || opcode == 0xd2
}

/// Whether an instruction with this first byte opens a block: `block`,
/// `loop`, `if` and `else`.
pub open spec fn opens_block(opcode: u8) -> bool {
    0x02 <= opcode <= 0x05
}

/// The first byte of the instruction at offset `at` of the module, in a
/// body whose bytes lie at offset `start`; `None` for an offset outside
/// the body.
pub open spec fn opcode_at(bytes: Seq<u8>, start: u64, at: u64) -> Option<u8> {
    if start <= at && at - start < bytes.len() {
        Some(bytes[at - start])
    } else {
        None
    }
}

/// The marks of a body whose bytes lie at offset `start` and whose
/// instructions begin at the offsets `operators`, in the order of the
/// offsets: a block begins at the instruction after one that opens a
/// block, and a function index stands one byte after the first byte of an
/// instruction that names a function. `None` where an offset lies outside
/// the body.
pub open spec fn body_marks(bytes: Seq<u8>, start: u64, operators: Seq<u64>) -> Option<
    Seq<Mark>,
>
    decreases operators.len(),
{
    if operators.len() == 0 {
        Some(Seq::empty())
    } else {
        match (body_marks(bytes, start, operators.drop_last()), opcode_at(
            bytes,
            start,
            operators.last(),
        )) {
            (Some(marks), Some(opcode)) => {
                let last = operators.last();
                let begun = if operators.len() >= 2 && opened_by(
                    bytes,
                    start,
                    operators[operators.len() - 2],
                ) {
                    marks.push(Mark { at: last, block: true })
                } else {
                    marks
                };
                if !names_function(opcode) {
                    Some(begun)
                } else if last < u64::MAX {
                    Some(begun.push(Mark { at: (last + 1) as u64, block: false }))
                } else {
                    None
                }
            },
            _ => None,
        }
    }
}

/// Whether the instruction at offset `at` opens a block.
pub open spec fn opened_by(bytes: Seq<u8>, start: u64, at: u64) -> bool {
    match opcode_at(bytes, start, at) {
        Some(opcode) => opens_block(opcode),
        None => false,
    }
}

/// The pieces of `content`, which lies at offset `base` of the module, cut
/// at the marks `marks` from number `k` on, starting at position `cursor`:
/// before each mark the bytes up to it, then the function index that
/// stands there or the block that begins there, and in the end the bytes
/// that are left. `None` where a mark lies before the cursor or outside
/// the content, no index can be decoded at the mark of one, or a block
/// begins past `MAX_OFFSET`.
pub open spec fn split_pieces(
    content: Seq<u8>,
    base: u64,
    marks: Seq<Mark>,
    k: int,
    cursor: int,
) -> Option<Seq<PieceView>>
    decreases marks.len() - k,
{
    if k < 0 || k >= marks.len() {
        Some(seq![PieceView::Raw(content.subrange(cursor, content.len() as int))])
    } else {
        let at = marks[k].at - base;
        if at < cursor || at > content.len() {
            None
        } else if marks[k].block {
            if at > MAX_OFFSET {
                None
            } else {
                match split_pieces(content, base, marks, k + 1, at) {
                    None => None,
                    Some(rest) => Some(
                        seq![
                            PieceView::Raw(content.subrange(cursor, at)),
                            PieceView::Block(at as u32),
                        ] + rest,
                    ),
                }
            }
        } else {
            match read_u32_at(content, at) {
                None => None,
                Some((index, next)) => match split_pieces(content, base, marks, k + 1, next) {
                    None => None,
                    Some(rest) => Some(
                        seq![PieceView::Raw(content.subrange(cursor, at)), PieceView::Function(index)]
                            + rest,
                    ),
                },
            }
        }
    }
}

/// The `n` indices encoded in `content` from position `at`, and the
/// position after them.
pub open spec fn read_indices(content: Seq<u8>, at: int, n: nat) -> Option<(Seq<u32>, int)>
    decreases n,
{
    if n == 0 {
        Some((Seq::empty(), at))
    } else {
        match read_u32_at(content, at) {
            None => None,
            Some((index, next)) => match read_indices(content, next, (n - 1) as nat) {
                None => None,
                Some((rest, end)) => Some((seq![index] + rest, end)),
            },
        }
    }
}

/// The byte that encodes the kind of an export.
pub open spec fn kind_byte(kind: ExportKind) -> Option<u8> {
    match kind {
        ExportKind::Func => Some(0u8),
        ExportKind::Table => Some(1u8),
        ExportKind::Memory => Some(2u8),
        ExportKind::Global => Some(3u8),
        ExportKind::Tag => Some(4u8),
        ExportKind::FuncExact => None,
    }
}

/// The exports that `entries` stand for, or `None` where an entry could
/// not be decoded or has no kind byte.
pub open spec fn exports_of(entries: Seq<ExportReadView>) -> Option<Seq<ExportView>>
    decreases entries.len(),
{
    if entries.len() == 0 {
        Some(Seq::empty())
    } else {
        match (exports_of(entries.drop_last()), entries.last()) {
            (Some(exports), ExportReadView::Entry { name, kind, index }) => match kind_byte(kind) {
                Some(byte) => Some(
                    exports.push(
                        ExportView { name, kind: byte, index },
                    ),
                ),
                None => None,
            },
            _ => None,
        }
    }
}

/// The name of the custom section that holds names for debugging.
pub open spec fn name_section_name() -> Seq<u8> {
    seq![0x6eu8, 0x61u8, 0x6du8, 0x65u8]
}

/// Whether `content` is the content of a custom section called `name`.
pub open spec fn is_named(content: Seq<u8>, name: Seq<u8>) -> bool {
    match read_u32_at(content, 0) {
        Some((length, at)) => length == name.len() && at + length <= content.len()
            && content.subrange(at, at + length) == name,
        None => false,
    }
}

/// The item for the section of `wasm` that lies at `span` and was
/// announced by event number `index`.
pub open spec fn section_item(wasm: Seq<u8>, index: nat, span: SectionSpan) -> Result<
    ItemView,
    Obstacle,
> {
    if !(span.start <= span.end <= wasm.len()) {
        Err(Obstacle::Layout)
    } else {
        let content = wasm.subrange(span.start as int, span.end as int);
        if span.id == 1 {
            match (read_u32_at(content, 0), all_present(type_params(wasm, index))) {
                (None, _) => Err(Obstacle::Encoding),
                (_, None) => Err(Obstacle::TypeForm),
                (Some((count, at)), Some(params)) => Ok(
                    ItemView::Types {
                        count,
                        entries: content.subrange(at, content.len() as int),
                        params,
                    },
                ),
            }
        } else if span.id == 2 {
            match (read_u32_at(content, 0), all_present(import_entries(wasm, index))) {
                (None, _) => Err(Obstacle::Encoding),
                (_, None) => Err(Obstacle::ImportForm),
                (Some((count, at)), Some(imports)) => Ok(
                    ItemView::Imports {
                        count,
                        entries: content.subrange(at, content.len() as int),
                        imports,
                    },
                ),
            }
        } else if span.id == 3 {
            match read_u32_at(content, 0) {
                None => Err(Obstacle::Encoding),
                Some((count, at)) => match read_indices(content, at, count as nat) {
                    Some((types, end)) => if end == content.len() {
                        Ok(ItemView::Functions { types })
                    } else {
                        Err(Obstacle::Encoding)
                    },
                    None => Err(Obstacle::Encoding),
                },
            }
        } else if span.id == 7 {
            match exports_of(export_entries(wasm, index)) {
                Some(exports) => Ok(ItemView::Exports { exports }),
                None => Err(Obstacle::ExportForm),
            }
        } else if span.id == 8 {
            match read_u32_at(content, 0) {
                Some((function, end)) => if end == content.len() {
                    Ok(ItemView::Start { function })
                } else {
                    Err(Obstacle::Encoding)
                },
                None => Err(Obstacle::Encoding),
            }
        } else if span.id == 9 {
            match flat_sites(element_sites(wasm, index)) {
                None => Err(Obstacle::ElementForm),
                Some(sites) => match split_pieces(content, span.start, index_marks(sites), 0, 0) {
                    Some(pieces) => Ok(ItemView::Elements { pieces }),
                    None => Err(Obstacle::Layout),
                },
            }
        } else if span.id == 10 {
            Ok(ItemView::CodeStart)
        } else if span.id == 0 && is_named(content, name_section_name()) {
            Ok(ItemView::Nothing)
        } else {
            Ok(ItemView::Plain { id: span.id, content })
        }
    }
}

/// The item for a function body.
pub open spec fn body_item(body: BodyView) -> Result<ItemView, Obstacle> {
    match body_marks(body.bytes, body.start, body.operators) {
        None => Err(Obstacle::Layout),
        Some(marks) => match split_pieces(body.bytes, body.start, marks, 0, 0) {
            Some(pieces) => Ok(ItemView::Body { pieces }),
            None => Err(Obstacle::Layout),
        },
    }
}

/// The item for event number `index` of `wasm`.
pub open spec fn item_of(wasm: Seq<u8>, index: nat) -> Result<ItemView, Obstacle> {
    match module_events(wasm)[index as int] {
        EventReadView::Section { span, .. } => section_item(wasm, index, span),
        EventReadView::Other => match code_body(wasm, index) {
            Some(body) => body_item(body),
            None => Ok(ItemView::Nothing),
        },
        EventReadView::Malformed { .. } => Err(Obstacle::Malformed),
    }
}

/// The items for the first `n` events of `wasm`, or the first obstacle.
pub open spec fn items_upto(wasm: Seq<u8>, n: nat) -> Result<Seq<ItemView>, Obstacle>
    decreases n,
{
    if n == 0 {
        Ok(Seq::empty())
    } else {
        match items_upto(wasm, (n - 1) as nat) {
            Err(obstacle) => Err(obstacle),
            Ok(items) => match item_of(wasm, (n - 1) as nat) {
                Err(obstacle) => Err(obstacle),
                Ok(item) => Ok(items.push(item)),
            },
        }
    }
}

/// The outline of `wasm`: the item of every event, in order, or the first
/// obstacle.
pub open spec fn outline_of(wasm: Seq<u8>) -> Result<Seq<ItemView>, Obstacle> {
    items_upto(wasm, module_events(wasm).len())
}

/// The values of `options`, or `None` where one of them is `None`.
fn unwrap_counts(options: &Vec<Option<u32>>) -> (r: Option<Vec<u32>>)
    ensures
        match r {
            Some(values) => all_present(options@) == Some(values@),
            None => all_present(options@) is None,
        },
{
    let mut values: Vec<u32> = Vec::new();
    let mut i: usize = 0;
    while i < options.len()
        invariant
            i <= options.len(),
            all_present(options@.take(i as int)) == Some(values@),
        decreases options.len() - i,
    {
        proof {
            assert(options@.take(i + 1).drop_last() == options@.take(i as int));
        }
        match options[i] {
            Some(value) => {
                values.push(value);
            },
            None => {
                proof {
                    lemma_all_present_none(options@, i + 1);
                }
                return None;
            },
        }
        i += 1;
    }
    proof {
        assert(options@.take(i as int) == options@);
    }
    Some(values)
}

/// Where a prefix holds a `None`, so does the whole.
proof fn lemma_all_present_none<T>(options: Seq<Option<T>>, n: int)
    requires
        0 <= n <= options.len(),
        all_present(options.take(n)) is None,
    ensures
        all_present(options) is None,
    decreases options.len() - n,
{
    if n < options.len() {
        assert(options.take(n + 1).drop_last() == options.take(n));
        lemma_all_present_none(options, n + 1);
    } else {
        assert(options.take(n) == options);
    }
}

/// The imports of `options`, or `None` where one of them is `None`.
fn unwrap_imports(options: Vec<Option<ImportRead>>) -> (r: Option<Vec<ImportRead>>)
    ensures
        match r {
            Some(values) => all_present(import_option_views(options@)) == Some(
                import_views(values@),
            ),
            None => all_present(import_option_views(options@)) is None,
        },
{
    let ghost views = import_option_views(options@);
    let mut values: Vec<ImportRead> = Vec::new();
    let mut i: usize = 0;
    assert(import_views(values@) =~= Seq::<ImportView>::empty());
    while i < options.len()
        invariant
            i <= options.len(),
            views == import_option_views(options@),
            all_present(views.take(i as int)) == Some(import_views(values@)),
        decreases options.len() - i,
    {
        proof {
            assert(views.take(i + 1).drop_last() == views.take(i as int));
            assert(views.take(i + 1).last() == views[i as int]);
        }
        match &options[i] {
            Some(value) => {
                let copy = ImportRead {
                    module: value.module.clone(),
                    name: value.name.clone(),
                    kind: value.kind,
                };
                let ghost before = import_views(values@);
                let ghost view = copy@;
                values.push(copy);
                assert(import_views(values@) =~= before.push(view));
            },
            None => {
                proof {
                    lemma_all_present_none(views, i + 1);
                }
                return None;
            },
        }
        i += 1;
    }
    proof {
        assert(views.take(i as int) == views);
    }
    Some(values)
}

/// The offsets of the segments in one sequence.
fn flatten_sites(segments: &Vec<Option<Vec<u64>>>) -> (r: Option<Vec<u64>>)
    ensures
        match r {
            Some(sites) => flat_sites(site_views(segments@)) == Some(sites@),
            None => flat_sites(site_views(segments@)) is None,
        },
{
    let ghost views = site_views(segments@);
    let mut sites: Vec<u64> = Vec::new();
    let mut i: usize = 0;
    while i < segments.len()
        invariant
            i <= segments.len(),
            views == site_views(segments@),
            flat_sites(views.take(i as int)) == Some(sites@),
        decreases segments.len() - i,
    {
        proof {
            assert(views.take(i + 1).drop_last() == views.take(i as int));
            assert(views.take(i + 1).last() == views[i as int]);
        }
        match &segments[i] {
            Some(more) => {
                let ghost before = sites@;
                let mut j: usize = 0;
                while j < more.len()
                    invariant
                        j <= more.len(),
                        sites@ == before + more@.take(j as int),
                    decreases more.len() - j,
                {
                    sites.push(more[j]);
                    assert(sites@ =~= before + more@.take(j + 1));
                    j += 1;
                }
                assert(more@.take(j as int) == more@);
            },
            None => {
                proof {
                    lemma_flat_sites_none(views, i + 1);
                }
                return None;
            },
        }
        i += 1;
    }
    proof {
        assert(views.take(i as int) == views);
    }
    Some(sites)
}

/// Where a prefix holds a `None`, so does the whole.
proof fn lemma_flat_sites_none(segments: Seq<Option<Seq<u64>>>, n: int)
    requires
        0 <= n <= segments.len(),
        flat_sites(segments.take(n)) is None,
    ensures
        flat_sites(segments) is None,
    decreases segments.len() - n,
{
    if n < segments.len() {
        assert(segments.take(n + 1).drop_last() == segments.take(n));
        lemma_flat_sites_none(segments, n + 1);
    } else {
        assert(segments.take(n) == segments);
    }
}

/// The marks for function indices at the offsets `sites`.
fn mark_indices(sites: &Vec<u64>) -> (marks: Vec<Mark>)
    ensures
        marks@ == index_marks(sites@),
{
    let mut marks: Vec<Mark> = Vec::new();
    let mut i: usize = 0;
    while i < sites.len()
        invariant
            i <= sites.len(),
            marks@.len() == i,
            forall|k: int| 0 <= k < i ==> marks@[k] == (Mark { at: sites@[k], block: false }),
        decreases sites.len() - i,
    {
        marks.push(Mark { at: sites[i], block: false });
        i += 1;
    }
    assert(marks@ =~= index_marks(sites@));
    marks
}

/// The first byte of the instruction at offset `at`.
fn opcode(body: &BodyRead, at: u64) -> (r: Option<u8>)
    ensures
        r == opcode_at(body.bytes@, body.start, at),
{
    if at < body.start {
        return None;
    }
    let offset: u64 = at - body.start;
    if offset >= body.bytes.len() as u64 {
        return None;
    }
    Some(body.bytes[offset as usize])
}

/// The marks of a body.
fn collect_marks(body: &BodyRead) -> (r: Option<Vec<Mark>>)
    ensures
        match r {
            Some(marks) => body_marks(body.bytes@, body.start, body.operators@) == Some(marks@),
            None => body_marks(body.bytes@, body.start, body.operators@) is None,
        },
{
    let ghost bytes = body.bytes@;
    let ghost operators = body.operators@;
    let mut marks: Vec<Mark> = Vec::new();
    let mut opened = false;
    let mut i: usize = 0;
    while i < body.operators.len()
        invariant
            i <= body.operators.len(),
            bytes == body.bytes@,
            operators == body.operators@,
            body_marks(bytes, body.start, operators.take(i as int)) == Some(marks@),
            opened == (i > 0 && opened_by(bytes, body.start, operators[i - 1])),
        decreases body.operators.len() - i,
    {
        proof {
            let next = operators.take(i + 1);
            assert(next.drop_last() == operators.take(i as int));
            assert(next.last() == operators[i as int]);
            if i > 0 {
                assert(next[next.len() - 2] == operators[i - 1]);
            }
        }
        let at: u64 = body.operators[i];
        match opcode(body, at) {
            None => {
                proof {
                    lemma_body_marks_none(bytes, body.start, operators, i + 1);
                }
                return None;
            },
            Some(first) => {
                if opened {
                    marks.push(Mark { at, block: true });
                }
                if first == 0x10 || first == 0x12 || first == 0xd2 {
                    if at < u64::MAX {
                        marks.push(Mark { at: at + 1, block: false });
                    } else {
                        proof {
                            lemma_body_marks_none(bytes, body.start, operators, i + 1);
                        }
                        return None;
                    }
                }
                opened = 0x02 <= first && first <= 0x05;
            },
        }
        i += 1;
    }
    proof {
        assert(operators.take(i as int) == operators);
    }
    Some(marks)
}

/// Where a prefix has no marks, neither has the whole.
proof fn lemma_body_marks_none(bytes: Seq<u8>, start: u64, operators: Seq<u64>, n: int)
    requires
        0 <= n <= operators.len(),
        body_marks(bytes, start, operators.take(n)) is None,
    ensures
        body_marks(bytes, start, operators) is None,
    decreases operators.len() - n,
{
    if n < operators.len() {
        assert(operators.take(n + 1).drop_last() == operators.take(n));
        lemma_body_marks_none(bytes, start, operators, n + 1);
    } else {
        assert(operators.take(n) == operators);
    }
}

/// A copy of the bytes of `content` from `from` up to `to`.
fn copy_range(content: &[u8], from: usize, to: usize) -> (bytes: Vec<u8>)
    requires
        from <= to <= content@.len(),
    ensures
        bytes@ == content@.subrange(from as int, to as int),
{
    let mut bytes: Vec<u8> = Vec::new();
    let mut i: usize = from;
    while i < to
        invariant
            from <= i <= to <= content@.len(),
            bytes@ == content@.subrange(from as int, i as int),
        decreases to - i,
    {
        bytes.push(content[i]);
        assert(bytes@ =~= content@.subrange(from as int, i + 1));
        i += 1;
    }
    bytes
}

/// Cuts `content` at the marks.
fn split(content: &[u8], base: u64, marks: &Vec<Mark>) -> (r: Option<Vec<Piece>>)
    ensures
        match r {
            Some(pieces) => split_pieces(content@, base, marks@, 0, 0) == Some(
                piece_views(pieces@),
            ),
            None => split_pieces(content@, base, marks@, 0, 0) is None,
        },
{
    let mut pieces: Vec<Piece> = Vec::new();
    let mut cursor: usize = 0;
    let mut k: usize = 0;
    assert(piece_views(pieces@) + split_pieces(content@, base, marks@, 0, 0)->Some_0
        =~= split_pieces(content@, base, marks@, 0, 0)->Some_0);
    while k < marks.len()
        invariant
            k <= marks.len(),
            cursor <= content@.len(),
            split_pieces(content@, base, marks@, 0, 0) == (match split_pieces(
                content@,
                base,
                marks@,
                k as int,
                cursor as int,
            ) {
                Some(rest) => Some(piece_views(pieces@) + rest),
                None => None,
            }),
        decreases marks.len() - k,
    {
        let mark = marks[k];
        if mark.at < base {
            return None;
        }
        let offset = mark.at - base;
        if offset > content.len() as u64 {
            return None;
        }
        let at = offset as usize;
        if at < cursor {
            return None;
        }
        let ghost before = piece_views(pieces@);
        if mark.block {
            if offset > MAX_OFFSET {
                return None;
            }
            let ghost rest = split_pieces(content@, base, marks@, k + 1, at as int);
            pieces.push(Piece::Raw(copy_range(content, cursor, at)));
            pieces.push(Piece::Block(offset as u32));
            proof {
                let head = seq![
                    PieceView::Raw(content@.subrange(cursor as int, at as int)),
                    PieceView::Block(at as u32),
                ];
                assert(piece_views(pieces@) =~= before + head);
                if rest is Some {
                    assert(piece_views(pieces@) + rest->Some_0 =~= before + (head + rest->Some_0));
                }
            }
            cursor = at;
        } else {
            match read_u32(content, at) {
                None => {
                    return None;
                },
                Some((index, next)) => {
                    let ghost rest = split_pieces(content@, base, marks@, k + 1, next as int);
                    pieces.push(Piece::Raw(copy_range(content, cursor, at)));
                    pieces.push(Piece::Function(index));
                    proof {
                        let head = seq![
                            PieceView::Raw(content@.subrange(cursor as int, at as int)),
                            PieceView::Function(index),
                        ];
                        assert(piece_views(pieces@) =~= before + head);
                        if rest is Some {
                            assert(piece_views(pieces@) + rest->Some_0 =~= before + (head
                                + rest->Some_0));
                        }
                    }
                    cursor = next;
                },
            }
        }
        k += 1;
    }
    let ghost before = piece_views(pieces@);
    pieces.push(Piece::Raw(copy_range(content, cursor, content.len())));
    proof {
        assert(piece_views(pieces@) =~= before + seq![
            PieceView::Raw(content@.subrange(cursor as int, content@.len() as int)),
        ]);
    }
    Some(pieces)
}

/// Decodes `n` indices from position `at`.
fn decode_indices(content: &[u8], at: usize, n: u32) -> (r: Option<(Vec<u32>, usize)>)
    ensures
        match r {
            Some((indices, end)) => read_indices(content@, at as int, n as nat) == Some(
                (indices@, end as int),
            ),
            None => read_indices(content@, at as int, n as nat) is None,
        },
{
    let mut indices: Vec<u32> = Vec::new();
    let mut cursor: usize = at;
    let mut left: u32 = n;
    assert(indices@ + read_indices(content@, at as int, n as nat)->Some_0.0 =~= read_indices(
        content@,
        at as int,
        n as nat,
    )->Some_0.0);
    while left > 0
        invariant
            read_indices(content@, at as int, n as nat) == (match read_indices(
                content@,
                cursor as int,
                left as nat,
            ) {
                Some((rest, end)) => Some((indices@ + rest, end)),
                None => None,
            }),
        decreases left,
    {
        match read_u32(content, cursor) {
            None => {
                return None;
            },
            Some((index, next)) => {
                let ghost before = indices@;
                let ghost rest = read_indices(content@, next as int, (left - 1) as nat);
                indices.push(index);
                proof {
                    if rest is Some {
                        assert(indices@ + rest->Some_0.0 =~= before + (seq![index]
                            + rest->Some_0.0));
                    }
                }
                cursor = next;
                left -= 1;
            },
        }
    }
    proof {
        assert(indices@ + Seq::<u32>::empty() =~= indices@);
    }
    Some((indices, cursor))
}

/// Converts the entries of an export section.
fn convert_exports(entries: &Vec<ExportRead>) -> (r: Option<Vec<ExportItem>>)
    ensures
        match r {
            Some(exports) => exports_of(export_read_views(entries@)) == Some(
                export_views(exports@),
            ),
            None => exports_of(export_read_views(entries@)) is None,
        },
{
    let ghost views = export_read_views(entries@);
    let mut exports: Vec<ExportItem> = Vec::new();
    let mut i: usize = 0;
    assert(export_views(exports@) =~= Seq::<ExportView>::empty());
    while i < entries.len()
        invariant
            i <= entries.len(),
            views == export_read_views(entries@),
            exports_of(views.take(i as int)) == Some(export_views(exports@)),
        decreases entries.len() - i,
    {
        proof {
            assert(views.take(i + 1).drop_last() == views.take(i as int));
            assert(views.take(i + 1).last() == entries@[i as int]@);
        }
        let ghost before = export_views(exports@);
        match &entries[i] {
            ExportRead::Entry { name, kind, index } => {
                let byte: u8 = match kind {
                    ExportKind::Func => 0,
                    ExportKind::Table => 1,
                    ExportKind::Memory => 2,
                    ExportKind::Global => 3,
                    ExportKind::Tag => 4,
                    ExportKind::FuncExact => {
                        proof {
                            lemma_exports_of_none(views, i + 1);
                        }
                        return None;
                    },
                };
                let item = ExportItem { name: name.clone(), kind: byte, index: *index };
                let ghost view = item@;
                exports.push(item);
                assert(export_views(exports@) =~= before.push(view));
            },
            ExportRead::Malformed { .. } => {
                proof {
                    lemma_exports_of_none(views, i + 1);
                }
                return None;
            },
        }
        i += 1;
    }
    proof {
        assert(views.take(i as int) == views);
    }
    Some(exports)
}

/// Where a prefix cannot be converted, neither can the whole.
proof fn lemma_exports_of_none(entries: Seq<ExportReadView>, n: int)
    requires
        0 <= n <= entries.len(),
        exports_of(entries.take(n)) is None,
    ensures
        exports_of(entries) is None,
    decreases entries.len() - n,
{
    if n < entries.len() {
        assert(entries.take(n + 1).drop_last() == entries.take(n));
        lemma_exports_of_none(entries, n + 1);
    } else {
        assert(entries.take(n) == entries);
    }
}

/// Whether `content` is the content of the custom section of names.
fn is_name_section(content: &[u8]) -> (named: bool)
    ensures
        named == is_named(content@, name_section_name()),
{
    match read_u32(content, 0) {
        None => false,
        Some((length, at)) => {
            if length != 4 || content.len() - at < 4 {
                return false;
            }
            let same = content[at] == 0x6e && content[at + 1] == 0x61 && content[at + 2] == 0x6d
                && content[at + 3] == 0x65;
            proof {
                let part = content@.subrange(at as int, at + 4);
                if same {
                    assert(part =~= name_section_name());
                } else {
                    assert(part[0] == content@[at as int]);
                    assert(part[1] == content@[at + 1]);
                    assert(part[2] == content@[at + 2]);
                    assert(part[3] == content@[at + 3]);
                }
            }
            same
        },
    }
}

/// Reads the item for the section at `span`.
fn read_section_item(wasm: &[u8], index: usize, span: SectionSpan) -> (r: Result<Item, Obstacle>)
    ensures
        match r {
            Ok(item) => section_item(wasm@, index as nat, span) == Ok::<ItemView, Obstacle>(item@),
            Err(obstacle) => section_item(wasm@, index as nat, span) == Err::<ItemView, Obstacle>(
                obstacle,
            ),
        },
{
    if span.start > span.end || span.end > wasm.len() as u64 {
        return Err(Obstacle::Layout);
    }
    let content = slice_subrange(wasm, span.start as usize, span.end as usize);
    if span.id == 1 {
        let params = read_type_params(wasm, index);
        match (read_u32(content, 0), unwrap_counts(&params)) {
            (None, _) => Err(Obstacle::Encoding),
            (_, None) => Err(Obstacle::TypeForm),
            (Some((count, at)), Some(params)) => Ok(
                Item::Types { count, entries: copy_range(content, at, content.len()), params },
            ),
        }
    } else if span.id == 2 {
        let imports = read_imports(wasm, index);
        match (read_u32(content, 0), unwrap_imports(imports)) {
            (None, _) => Err(Obstacle::Encoding),
            (_, None) => Err(Obstacle::ImportForm),
            (Some((count, at)), Some(imports)) => Ok(
                Item::Imports { count, entries: copy_range(content, at, content.len()), imports },
            ),
        }
    } else if span.id == 3 {
        match read_u32(content, 0) {
            None => Err(Obstacle::Encoding),
            Some((count, at)) => match decode_indices(content, at, count) {
                Some((types, end)) => if end == content.len() {
                    Ok(Item::Functions { types })
                } else {
                    Err(Obstacle::Encoding)
                },
                None => Err(Obstacle::Encoding),
            },
        }
    } else if span.id == 7 {
        let entries = read_exports(wasm, index);
        match convert_exports(&entries) {
            Some(exports) => Ok(Item::Exports { exports }),
            None => Err(Obstacle::ExportForm),
        }
    } else if span.id == 8 {
        match read_u32(content, 0) {
            Some((function, end)) => if end == content.len() {
                Ok(Item::Start { function })
            } else {
                Err(Obstacle::Encoding)
            },
            None => Err(Obstacle::Encoding),
        }
    } else if span.id == 9 {
        let segments = read_element_sites(wasm, index);
        match flatten_sites(&segments) {
            None => Err(Obstacle::ElementForm),
            Some(sites) => match split(content, span.start, &mark_indices(&sites)) {
                Some(pieces) => Ok(Item::Elements { pieces }),
                None => Err(Obstacle::Layout),
            },
        }
    } else if span.id == 10 {
        Ok(Item::CodeStart)
    } else if span.id == 0 && is_name_section(content) {
        Ok(Item::Nothing)
    } else {
        assert(content@.subrange(0, content@.len() as int) =~= content@);
        Ok(Item::Plain { id: span.id, content: copy_range(content, 0, content.len()) })
    }
}

/// Reads the outline of a module: the item of every event of the parser,
/// in order, or the first obstacle.
pub fn read_outline(wasm: &[u8]) -> (r: Result<Vec<Item>, Obstacle>)
    ensures
        match r {
            Ok(items) => outline_of(wasm@) == Ok::<Seq<ItemView>, Obstacle>(item_views(items@)),
            Err(obstacle) => outline_of(wasm@) == Err::<Seq<ItemView>, Obstacle>(obstacle),
        },
{
    let spans = read_events(wasm);
    let mut items: Vec<Item> = Vec::new();
    let mut i: usize = 0;
    assert(item_views(items@) =~= Seq::<ItemView>::empty());
    while i < spans.len()
        invariant
            i <= spans.len(),
            event_read_views(spans@) == module_events(wasm@),
            items_upto(wasm@, i as nat) == Ok::<Seq<ItemView>, Obstacle>(item_views(items@)),
        decreases spans.len() - i,
    {
        let ghost before = item_views(items@);
        assert(module_events(wasm@)[i as int] == spans@[i as int]@);
        let read = match &spans[i] {
            EventRead::Malformed { .. } => Err(Obstacle::Malformed),
            EventRead::Section { span, .. } => read_section_item(wasm, i, *span),
            EventRead::Other => match read_body(wasm, i) {
                Some(body) => {
                    match collect_marks(&body) {
                        None => Err(Obstacle::Layout),
                        Some(marks) => match split(body.bytes.as_slice(), body.start, &marks) {
                            Some(pieces) => Ok(Item::Body { pieces }),
                            None => Err(Obstacle::Layout),
                        },
                    }
                },
                None => Ok(Item::Nothing),
            },
        };
        match read {
            Err(obstacle) => {
                proof {
                    lemma_items_upto_err(wasm@, (i + 1) as nat);
                }
                return Err(obstacle);
            },
            Ok(item) => {
                let ghost view = item@;
                items.push(item);
                assert(item_views(items@) =~= before.push(view));
            },
        }
        i += 1;
    }
    Ok(items)
}

/// An obstacle among the first events is the obstacle of the module.
proof fn lemma_items_upto_err(wasm: Seq<u8>, n: nat)
    requires
        n <= module_events(wasm).len(),
        items_upto(wasm, n) is Err,
    ensures
        outline_of(wasm) == items_upto(wasm, n),
    decreases module_events(wasm).len() - n,
{
    if n < module_events(wasm).len() {
        lemma_items_upto_err(wasm, n + 1);
    }
}

/// The number of function bodies among `items`.
pub open spec fn count_bodies(items: Seq<ItemView>) -> nat
    decreases items.len(),
{
    if items.len() == 0 {
        0
    } else {
        count_bodies(items.drop_last()) + if items.last() is Body {
            1nat
        } else {
            0nat
        }
    }
}

/// The function bodies among `items`, in order.
pub open spec fn bodies_of(items: Seq<ItemView>) -> Seq<Seq<PieceView>>
    decreases items.len(),
{
    if items.len() == 0 {
        Seq::empty()
    } else {
        match items.last() {
            ItemView::Body { pieces } => bodies_of(items.drop_last()).push(pieces),
            _ => bodies_of(items.drop_last()),
        }
    }
}

/// The positions of the function bodies among the items.
pub fn body_positions(items: &Vec<Item>) -> (positions: Vec<usize>)
    ensures
        positions@.len() == bodies_of(item_views(items@)).len(),
        positions@.len() == count_bodies(item_views(items@)),
        forall|k: int|
            0 <= k < positions@.len() ==> (#[trigger] positions@[k]) < items@.len() && items@[positions@[k] as int]@
                == (ItemView::Body { pieces: bodies_of(item_views(items@))[k] }),
{
    let ghost views = item_views(items@);
    let mut positions: Vec<usize> = Vec::new();
    let mut i: usize = 0;
    while i < items.len()
        invariant
            i <= items.len(),
            views == item_views(items@),
            positions@.len() == bodies_of(views.take(i as int)).len(),
            positions@.len() == count_bodies(views.take(i as int)),
            forall|k: int|
                0 <= k < positions@.len() ==> (#[trigger] positions@[k]) < i && items@[positions@[k] as int]@
                    == (ItemView::Body { pieces: bodies_of(views.take(i as int))[k] }),
        decreases items.len() - i,
    {
        proof {
            assert(views.take(i + 1).drop_last() == views.take(i as int));
            assert(views.take(i + 1).last() == items@[i as int]@);
        }
        if let Item::Body { .. } = &items[i] {
            positions.push(i);
        }
        i += 1;
    }
    proof {
        assert(views.take(i as int) == views);
    }
    positions
}

} // verus!
