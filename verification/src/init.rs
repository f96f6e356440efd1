//! Mapping a program's instructions to line ranges of its source.
//!
//! The `#[program]` module's handler functions are the instructions. Each
//! handler's body range is attributed to it, and so is the range of the
//! `Accounts` struct it takes as `Context<X>`; a struct no handler takes is
//! attributed to the handler it sits inside, if any. The parse itself is
//! `syn`'s: it is read here as an outline of plain values (names and line
//! numbers), and everything the module decides is decided on that outline.

use vstd::prelude::*;
use syn::spanned::Spanned;
use crate::model::opt_view;
use crate::text::{same_str, chars_of};

verus! {

#[verifier::external_type_specification]
#[verifier::external_body]
pub struct ExSynFile(syn::File);

#[verifier::external_type_specification]
#[verifier::external_body]
pub struct ExPathBuf(std::path::PathBuf);

/// A single instruction handler found in the program.
#[derive(Debug)]
pub struct Instruction {
    pub name: String,
    /// Relative path (from the project root) of the file defining it.
    pub file: String,
    /// 1-based line range of the handler function (end exclusive).
    pub range: std::ops::Range<usize>,
}

impl Clone for Instruction {
    fn clone(&self) -> (r: Self)
        ensures
            r == *self,
    {
        Instruction {
            name: self.name.clone(),
            file: self.file.clone(),
            range: self.range.start..self.range.end,
        }
    }
}

// ---------------------------------------------------------------------------
// The outline of a source file
// ---------------------------------------------------------------------------

/// How a handler parameter's type reads, as far as the attribution needs it:
/// for a parameter whose type is a path, the first segment's name and, when
/// the last segment has angle-bracketed arguments whose first is itself a
/// path type, that path's name when it is a single identifier.
pub enum ArgShape {
    TypePath { first: Option<Seq<char>>, generic: Option<Option<Seq<char>>> },
    Other,
}

/// A function: its name, the lines of its name and of its closing brace, and
/// its parameters.
pub struct FnShape {
    pub name: Seq<char>,
    pub line: usize,
    pub close_line: usize,
    pub args: Seq<ArgShape>,
}

/// An item inside a module.
pub enum InnerShape {
    Fn(FnShape),
    Other,
}

/// A struct: its name, the line of its name, and the line on which each
/// field's type ends.
pub struct StructShape {
    pub name: Seq<char>,
    pub line: usize,
    pub field_ends: Seq<usize>,
}

/// A top-level item: a struct, a module (the single-identifier names of its
/// attributes' paths, and its items when it is written inline), or another.
pub enum ItemShape {
    Struct(StructShape),
    Mod { attr_idents: Seq<Option<Seq<char>>>, content: Option<Seq<InnerShape>> },
    Other,
}

/// The top-level items `syn` parses from a source text, as outlines (`None`
/// where the text does not parse as a file).
pub uninterp spec fn syn_items(text: Seq<char>) -> Option<Seq<ItemShape>>;

/// The parsed items of a text, none where it does not parse.
pub open spec fn items_of(text: Seq<char>) -> Seq<ItemShape> {
    match syn_items(text) {
        Some(items) => items,
        None => Seq::empty(),
    }
}

/// A handler parameter, as `ArgShape` reads it.
#[derive(Debug, Clone)]
pub enum ArgOutline {
    TypePath { first: Option<String>, generic: Option<Option<String>> },
    Other,
}

impl View for ArgOutline {
    type V = ArgShape;

    open spec fn view(&self) -> ArgShape {
        match *self {
            ArgOutline::TypePath { first, generic } => ArgShape::TypePath {
                first: opt_view(first),
                generic: match generic {
                    Some(g) => Some(opt_view(g)),
                    None => None,
                },
            },
            ArgOutline::Other => ArgShape::Other,
        }
    }
}

/// A function, as `FnShape` reads it.
#[derive(Debug, Clone)]
pub struct FnOutline {
    pub name: String,
    pub line: usize,
    pub close_line: usize,
    pub args: Vec<ArgOutline>,
}

impl View for FnOutline {
    type V = FnShape;

    open spec fn view(&self) -> FnShape {
        FnShape {
            name: self.name@,
            line: self.line,
            close_line: self.close_line,
            args: args_view(self.args@),
        }
    }
}

/// An item inside a module, as `InnerShape` reads it.
#[derive(Debug, Clone)]
pub enum InnerOutline {
    Fn(FnOutline),
    Other,
}

impl View for InnerOutline {
    type V = InnerShape;

    open spec fn view(&self) -> InnerShape {
        match *self {
            InnerOutline::Fn(f) => InnerShape::Fn(f@),
            InnerOutline::Other => InnerShape::Other,
        }
    }
}

/// A struct, as `StructShape` reads it.
#[derive(Debug, Clone)]
pub struct StructOutline {
    pub name: String,
    pub line: usize,
    pub field_ends: Vec<usize>,
}

impl View for StructOutline {
    type V = StructShape;

    open spec fn view(&self) -> StructShape {
        StructShape { name: self.name@, line: self.line, field_ends: self.field_ends@ }
    }
}

/// A top-level item, as `ItemShape` reads it.
#[derive(Debug, Clone)]
pub enum ItemOutline {
    Struct(StructOutline),
    Mod { attr_idents: Vec<Option<String>>, content: Option<Vec<InnerOutline>> },
    Other,
}

pub open spec fn args_view(v: Seq<ArgOutline>) -> Seq<ArgShape> {
    v.map_values(|a: ArgOutline| a@)
}

pub open spec fn idents_view(v: Seq<Option<String>>) -> Seq<Option<Seq<char>>> {
    v.map_values(|a: Option<String>| opt_view(a))
}

pub open spec fn inner_view(v: Seq<InnerOutline>) -> Seq<InnerShape> {
    v.map_values(|x: InnerOutline| x@)
}

impl View for ItemOutline {
    type V = ItemShape;

    open spec fn view(&self) -> ItemShape {
        match *self {
            ItemOutline::Struct(s) => ItemShape::Struct(s@),
            ItemOutline::Mod { attr_idents, content } => ItemShape::Mod {
                attr_idents: idents_view(attr_idents@),
                content: match content {
                    Some(c) => Some(inner_view(c@)),
                    None => None,
                },
            },
            ItemOutline::Other => ItemShape::Other,
        }
    }
}

pub open spec fn outline_view(v: Seq<ItemOutline>) -> Seq<ItemShape> {
    v.map_values(|x: ItemOutline| x@)
}

// ---------------------------------------------------------------------------
// Reading the outline out of syn
// ---------------------------------------------------------------------------

/// A source text together with the file `syn` parsed from it.
pub struct ParsedFile {
    file: syn::File,
    source: String,
}

impl View for ParsedFile {
    type V = Seq<char>;

    closed spec fn view(&self) -> Seq<char> {
        self.source@
    }
}

/// The module's `content` in a parsed outline, when item `i` is a module
/// written inline.
pub open spec fn mod_content(text: Seq<char>, i: int) -> Option<Seq<InnerShape>> {
    match items_of(text)[i] {
        ItemShape::Mod { content, .. } => content,
        _ => None,
    }
}

/// Parameter `k` of function `j` of the inline module at item `i`.
pub open spec fn arg_shape(text: Seq<char>, i: int, j: int, k: int) -> ArgShape {
    match mod_content(text, i) {
        Some(c) => match c[j] {
            InnerShape::Fn(f) => f.args[k],
            InnerShape::Other => ArgShape::Other,
        },
        None => ArgShape::Other,
    }
}

/// Function `j` of the inline module at item `i` has a parameter `k`.
pub open spec fn has_arg(text: Seq<char>, i: int, j: int, k: int) -> bool {
    &&& 0 <= i < items_of(text).len()
    &&& mod_content(text, i) matches Some(c)
    &&& 0 <= j < c.len()
    &&& c[j] matches InnerShape::Fn(f)
    &&& 0 <= k < f.args.len()
}

/// `syn::parse_file`: parses `text` as a Rust source file. The contract
/// claims that it succeeds exactly where `syn_items` names an outline, and
/// that the parsed file keeps the text it came from; the error is `syn`'s
/// message, of which nothing is claimed.
#[verifier::external_body]
fn parse_source(text: &str) -> (r: Result<ParsedFile, String>)
    ensures
        r is Ok <==> syn_items(text@) is Some,
        r matches Ok(p) ==> p@ == text@,
{
    match syn::parse_file(text) {
        Ok(file) => Ok(ParsedFile { file, source: text.to_string() }),
        Err(e) => Err(e.to_string()),
    }
}

/// `syn::File::items`: the number of top-level items of the parsed file.
#[verifier::external_body]
fn item_count(p: &ParsedFile) -> (n: usize)
    ensures
        n == items_of(p@).len(),
{
    p.file.items.len()
}

/// A top-level `syn::Item::Struct`: the name, the line its name starts on
/// and the line each field's type ends on (`Span::start`/`Span::end`);
/// `None` for another kind of item. The contract claims these are the
/// values `syn_items` names.
#[verifier::external_body]
fn struct_at(p: &ParsedFile, i: usize) -> (r: Option<StructOutline>)
    requires
        i < items_of(p@).len(),
    ensures
        match items_of(p@)[i as int] {
            ItemShape::Struct(s) => r matches Some(o) && o@ == s,
            _ => r is None,
        },
{
    match &p.file.items[i] {
        syn::Item::Struct(s) => Some(StructOutline {
            name: s.ident.to_string(),
            line: s.ident.span().start().line,
            field_ends: s.fields.iter().map(|f| f.ty.span().end().line).collect(),
        }),
        _ => None,
    }
}

/// A top-level `syn::Item::Mod`: the single identifier of each attribute's
/// path (`Path::get_ident`) and, for a module written inline, its number of
/// items; `None` for another kind of item. The contract claims these are the
/// values `syn_items` names.
#[verifier::external_body]
fn mod_at(p: &ParsedFile, i: usize) -> (r: Option<(Vec<Option<String>>, Option<usize>)>)
    requires
        i < items_of(p@).len(),
    ensures
        match items_of(p@)[i as int] {
            ItemShape::Mod { attr_idents, content } => r matches Some(o) && idents_view(o.0@)
                == attr_idents && match (o.1, content) {
                (Some(m), Some(c)) => m == c.len(),
                (None, None) => true,
                _ => false,
            },
            _ => r is None,
        },
{
    match &p.file.items[i] {
        syn::Item::Mod(m) => Some((
            m.attrs.iter().map(|a| a.path().get_ident().map(|x| x.to_string())).collect(),
            m.content.as_ref().map(|c| c.1.len()),
        )),
        _ => None,
    }
}

/// Item `j` of the inline module at top-level item `i`, when it is a
/// `syn::Item::Fn`: its name, the line its name starts on, the line of its
/// closing brace, and its number of parameters; `None` for another kind of
/// item. The contract claims these are the values `syn_items` names.
#[verifier::external_body]
fn fn_at(p: &ParsedFile, i: usize, j: usize) -> (r: Option<(String, usize, usize, usize)>)
    requires
        i < items_of(p@).len(),
        mod_content(p@, i as int) matches Some(c) && j < c.len(),
    ensures
        match mod_content(p@, i as int) {
            Some(c) => match c[j as int] {
                InnerShape::Fn(f) => r matches Some(o) && o.0@ == f.name && o.1 == f.line && o.2
                    == f.close_line && o.3 == f.args.len(),
                InnerShape::Other => r is None,
            },
            None => true,
        },
{
    let syn::Item::Mod(m) = &p.file.items[i] else { return None };
    let Some((_, items)) = &m.content else { return None };
    match &items[j] {
        syn::Item::Fn(f) => Some((
            f.sig.ident.to_string(),
            f.sig.ident.span().start().line,
            f.block.brace_token.span.close().start().line,
            f.sig.inputs.len(),
        )),
        _ => None,
    }
}

/// Parameter `k` of function `j` of the inline module at item `i`: for a
/// `syn::FnArg::Typed` whose type is a `syn::Type::Path`, the name of the
/// path's first segment; `None` for another parameter. The contract claims
/// this is the value `syn_items` names.
#[verifier::external_body]
fn arg_head_at(p: &ParsedFile, i: usize, j: usize, k: usize) -> (r: Option<Option<String>>)
    requires
        has_arg(p@, i as int, j as int, k as int),
    ensures
        match arg_shape(p@, i as int, j as int, k as int) {
            ArgShape::TypePath { first, .. } => r matches Some(f) && opt_view(f) == first,
            ArgShape::Other => r is None,
        },
{
    let syn::Item::Mod(m) = &p.file.items[i] else { return None };
    let Some((_, items)) = &m.content else { return None };
    let syn::Item::Fn(f) = &items[j] else { return None };
    let syn::FnArg::Typed(pat) = &f.sig.inputs[k] else { return None };
    let syn::Type::Path(tp) = &*pat.ty else { return None };
    Some(tp.path.segments.first().map(|s| s.ident.to_string()))
}

/// Parameter `k` of function `j` of the inline module at item `i`, a typed
/// path: when its last segment has angle-bracketed arguments whose first is
/// a `syn::Type::Path`, that path's single identifier (`Path::get_ident`);
/// `None` otherwise. The contract claims this is the value `syn_items`
/// names.
#[verifier::external_body]
fn arg_generic_at(p: &ParsedFile, i: usize, j: usize, k: usize) -> (r: Option<Option<String>>)
    requires
        has_arg(p@, i as int, j as int, k as int),
        arg_shape(p@, i as int, j as int, k as int) is TypePath,
    ensures
        match arg_shape(p@, i as int, j as int, k as int) {
            ArgShape::TypePath { generic, .. } => match (r, generic) {
                (Some(a), Some(b)) => opt_view(a) == b,
                (None, None) => true,
                _ => false,
            },
            ArgShape::Other => true,
        },
{
    let syn::Item::Mod(m) = &p.file.items[i] else { return None };
    let Some((_, items)) = &m.content else { return None };
    let syn::Item::Fn(f) = &items[j] else { return None };
    let syn::FnArg::Typed(pat) = &f.sig.inputs[k] else { return None };
    let syn::Type::Path(tp) = &*pat.ty else { return None };
    let syn::PathArguments::AngleBracketed(ab) = &tp.path.segments.last()?.arguments else { return None };
    let Some(syn::GenericArgument::Type(syn::Type::Path(inner))) = ab.args.first() else { return None };
    Some(inner.path.get_ident().map(|x| x.to_string()))
}

/// Function `j` of the inline module at item `i`, read out of the parse.
fn inner_outline(p: &ParsedFile, i: usize, j: usize) -> (r: InnerOutline)
    requires
        i < items_of(p@).len(),
        mod_content(p@, i as int) matches Some(c) && j < c.len(),
    ensures
        r@ == mod_content(p@, i as int).unwrap()[j as int],
{
    let ghost c = mod_content(p@, i as int).unwrap();
    match fn_at(p, i, j) {
        None => InnerOutline::Other,
        Some((name, line, close_line, n)) => {
            let ghost f = match c[j as int] {
                InnerShape::Fn(f) => f,
                InnerShape::Other => arbitrary(),
            };
            assert(c[j as int] is Fn);
            let mut args: Vec<ArgOutline> = Vec::new();
            let mut k: usize = 0;
            while k < n
                invariant
                    i < items_of(p@).len(),
                    mod_content(p@, i as int) == Some(c),
                    j < c.len(),
                    c[j as int] == InnerShape::Fn(f),
                    n == f.args.len(),
                    k <= n,
                    args_view(args@) == f.args.subrange(0, k as int),
                decreases n - k,
            {
                assert(has_arg(p@, i as int, j as int, k as int));
                let a = match arg_head_at(p, i, j, k) {
                    None => ArgOutline::Other,
                    Some(first) => {
                        let generic = arg_generic_at(p, i, j, k);
                        ArgOutline::TypePath { first, generic }
                    },
                };
                assert(a@ == f.args[k as int]);
                let ghost prev = args@;
                assert(args_view(prev).len() == prev.len());
                args.push(a);
                k = k + 1;
                assert forall|q: int| 0 <= q < k implies #[trigger] args_view(args@)[q] == f.args[q] by {
                    if q < k - 1 {
                        assert(args@[q] == prev[q]);
                        assert(args_view(prev)[q] == f.args.subrange(0, k - 1)[q]);
                    }
                }
                assert(args_view(args@) =~= f.args.subrange(0, k as int));
            }
            assert(f.args.subrange(0, n as int) =~= f.args);
            let fo = FnOutline { name, line, close_line, args };
            assert(fo@ == f);
            InnerOutline::Fn(fo)
        },
    }
}

/// The items of the inline module at item `i`, read out of the parse.
fn module_outline(p: &ParsedFile, i: usize, m: usize) -> (r: Vec<InnerOutline>)
    requires
        i < items_of(p@).len(),
        mod_content(p@, i as int) matches Some(c) && m == c.len(),
    ensures
        Some(inner_view(r@)) == mod_content(p@, i as int),
{
    let ghost c = mod_content(p@, i as int).unwrap();
    let mut v: Vec<InnerOutline> = Vec::new();
    let mut j: usize = 0;
    while j < m
        invariant
            i < items_of(p@).len(),
            mod_content(p@, i as int) == Some(c),
            m == c.len(),
            j <= m,
            inner_view(v@) == c.subrange(0, j as int),
        decreases m - j,
    {
        let x = inner_outline(p, i, j);
        let ghost prev = v@;
        assert(inner_view(prev).len() == prev.len());
        v.push(x);
        j = j + 1;
        assert forall|q: int| 0 <= q < j implies #[trigger] inner_view(v@)[q] == c[q] by {
            if q < j - 1 {
                assert(v@[q] == prev[q]);
                assert(inner_view(prev)[q] == c.subrange(0, j - 1)[q]);
            }
        }
        assert(inner_view(v@) =~= c.subrange(0, j as int));
    }
    assert(c.subrange(0, m as int) =~= c);
    v
}

/// The top-level items of `text` as `syn` parses them, outlined; `syn`'s
/// message where the text does not parse.
pub fn outline(text: &str) -> (r: Result<Vec<ItemOutline>, String>)
    ensures
        r is Ok <==> syn_items(text@) is Some,
        r matches Ok(v) ==> syn_items(text@) == Some(outline_view(v@)),
{
    let p = match parse_source(text) {
        Ok(p) => p,
        Err(e) => return Err(e),
    };
    let ghost all = items_of(p@);
    let n = item_count(&p);
    let mut items: Vec<ItemOutline> = Vec::new();
    let mut i: usize = 0;
    while i < n
        invariant
            all == items_of(p@),
            n == all.len(),
            i <= n,
            outline_view(items@) == all.subrange(0, i as int),
        decreases n - i,
    {
        let item = match struct_at(&p, i) {
            Some(s) => ItemOutline::Struct(s),
            None => match mod_at(&p, i) {
                Some((attr_idents, len)) => {
                    let content = match len {
                        Some(m) => Some(module_outline(&p, i, m)),
                        None => None,
                    };
                    ItemOutline::Mod { attr_idents, content }
                },
                None => ItemOutline::Other,
            },
        };
        assert(item@ == all[i as int]);
        let ghost prev = items@;
        assert(outline_view(prev).len() == prev.len());
        items.push(item);
        i = i + 1;
        assert forall|q: int| 0 <= q < i implies #[trigger] outline_view(items@)[q] == all[q] by {
            if q < i - 1 {
                assert(items@[q] == prev[q]);
                assert(outline_view(prev)[q] == all.subrange(0, i - 1)[q]);
            }
        }
        assert(outline_view(items@) =~= all.subrange(0, i as int));
    }
    assert(all.subrange(0, n as int) =~= all);
    Ok(items)
}

// ---------------------------------------------------------------------------
// Attribution
// ---------------------------------------------------------------------------

/// A named line range, `(name, start, end)`, end exclusive.
pub type Entry = (Seq<char>, int, int);

pub open spec fn entry_view(e: (String, usize, usize)) -> Entry {
    (e.0@, e.1 as int, e.2 as int)
}

pub open spec fn entries_view(v: Seq<(String, usize, usize)>) -> Seq<Entry> {
    v.map_values(|e: (String, usize, usize)| entry_view(e))
}

/// A line number read as the first line of a range: lines count from 1.
pub open spec fn first_line(line: usize) -> int {
    if line < 1 {
        1
    } else {
        line as int
    }
}

/// The greatest of `acc` and the line after each field type's end (a field
/// ending on the last representable line adds nothing).
pub open spec fn ends_max(acc: int, ends: Seq<usize>) -> int
    decreases ends.len(),
{
    if ends.len() == 0 {
        acc
    } else {
        let a = ends_max(acc, ends.drop_last());
        let e = ends.last();
        if e < usize::MAX && e + 1 > a {
            e + 1
        } else {
            a
        }
    }
}

/// A struct's range: from the line of its name to the line after its last
/// field's type, and at least one line.
pub open spec fn struct_entry(s: StructShape) -> Entry {
    let start = first_line(s.line);
    (s.name, start, ends_max(start + 1, s.field_ends))
}

/// A handler's range: from the line of its name to the line of its closing
/// brace (exclusive), and at least one line.
pub open spec fn fn_entry(f: FnShape) -> Entry {
    let start = first_line(f.line);
    (f.name, start, if f.close_line > start {
        f.close_line as int
    } else {
        start + 1
    })
}

/// The struct `X` of the last `Context<X>` parameter of a handler (a
/// `Context<..>` whose argument is a path of more than one segment counts,
/// and names none).
pub open spec fn context_struct(args: Seq<ArgShape>) -> Option<Seq<char>>
    decreases args.len(),
{
    if args.len() == 0 {
        None
    } else {
        let prev = context_struct(args.drop_last());
        match args.last() {
            ArgShape::TypePath { first, generic } => if first == Some("Context"@) && generic is Some {
                generic.unwrap()
            } else {
                prev
            },
            ArgShape::Other => prev,
        }
    }
}

/// A module marked `#[program]`.
pub open spec fn is_program(attr_idents: Seq<Option<Seq<char>>>) -> bool {
    attr_idents.contains(Some("program"@))
}

/// The functions among a module's items, in order.
pub open spec fn inner_fns(c: Seq<InnerShape>) -> Seq<FnShape>
    decreases c.len(),
{
    if c.len() == 0 {
        Seq::empty()
    } else {
        inner_fns(c.drop_last()) + match c.last() {
            InnerShape::Fn(f) => seq![f],
            InnerShape::Other => Seq::empty(),
        }
    }
}

/// The handlers: the functions of the inline modules marked `#[program]`, in
/// order.
pub open spec fn handlers(items: Seq<ItemShape>) -> Seq<FnShape>
    decreases items.len(),
{
    if items.len() == 0 {
        Seq::empty()
    } else {
        handlers(items.drop_last()) + match items.last() {
            ItemShape::Mod { attr_idents, content } => match content {
                Some(c) => if is_program(attr_idents) {
                    inner_fns(c)
                } else {
                    Seq::empty()
                },
                None => Seq::empty(),
            },
            _ => Seq::empty(),
        }
    }
}

/// The top-level structs, in order.
pub open spec fn structs(items: Seq<ItemShape>) -> Seq<StructShape>
    decreases items.len(),
{
    if items.len() == 0 {
        Seq::empty()
    } else {
        structs(items.drop_last()) + match items.last() {
            ItemShape::Struct(s) => seq![s],
            _ => Seq::empty(),
        }
    }
}

/// The lines of a struct's name, and of each name of a function in an
/// inline module, are below the largest representable one.
pub open spec fn item_lines_fit(item: ItemShape) -> bool {
    match item {
        ItemShape::Struct(s) => s.line < usize::MAX,
        ItemShape::Mod { content, .. } => match content {
            Some(c) => forall|j: int| 0 <= j < c.len() ==> (#[trigger] c[j] matches InnerShape::Fn(f)
                ==> f.line < usize::MAX),
            None => true,
        },
        ItemShape::Other => true,
    }
}

/// Every line number the attribution adds one to is below the largest
/// representable one.
pub open spec fn lines_fit(items: Seq<ItemShape>) -> bool {
    forall|i: int| 0 <= i < items.len() ==> #[trigger] item_lines_fit(items[i])
}

/// The `(handler, struct)` pairs of the handlers that take a `Context<X>`.
pub open spec fn struct_uses(hs: Seq<FnShape>) -> Seq<(Seq<char>, Seq<char>)>
    decreases hs.len(),
{
    if hs.len() == 0 {
        Seq::empty()
    } else {
        struct_uses(hs.drop_last()) + match context_struct(hs.last().args) {
            Some(x) => seq![(hs.last().name, x)],
            None => Seq::empty(),
        }
    }
}

/// The first entry of the given name.
pub open spec fn first_named(es: Seq<Entry>, name: Seq<char>) -> Option<Entry>
    decreases es.len(),
{
    if es.len() == 0 {
        None
    } else if es[0].0 == name {
        Some(es[0])
    } else {
        first_named(es.drop_first(), name)
    }
}

/// The first entry whose range holds `line`.
pub open spec fn enclosing(es: Seq<Entry>, line: int) -> Option<Entry>
    decreases es.len(),
{
    if es.len() == 0 {
        None
    } else if es[0].1 <= line < es[0].2 {
        Some(es[0])
    } else {
        enclosing(es.drop_first(), line)
    }
}

/// The range of each used struct, under the handler that uses it.
pub open spec fn used_entries(uses: Seq<(Seq<char>, Seq<char>)>, ses: Seq<Entry>) -> Seq<Entry>
    decreases uses.len(),
{
    if uses.len() == 0 {
        Seq::empty()
    } else {
        used_entries(uses.drop_last(), ses) + match first_named(ses, uses.last().1) {
            Some(e) => seq![(uses.last().0, e.1, e.2)],
            None => Seq::empty(),
        }
    }
}

/// No handler uses the struct `name`.
pub open spec fn unused(uses: Seq<(Seq<char>, Seq<char>)>, name: Seq<char>) -> bool {
    forall|k: int| 0 <= k < uses.len() ==> #[trigger] uses[k].1 != name
}

/// The range of each unused struct that starts inside a handler, joined with
/// that handler's range, under the handler.
pub open spec fn unused_entries(
    ses: Seq<Entry>,
    uses: Seq<(Seq<char>, Seq<char>)>,
    hes: Seq<Entry>,
) -> Seq<Entry>
    decreases ses.len(),
{
    if ses.len() == 0 {
        Seq::empty()
    } else {
        let s = ses.last();
        unused_entries(ses.drop_last(), uses, hes) + if unused(uses, s.0) {
            match enclosing(hes, s.1) {
                Some(h) => seq![
                    (h.0, if h.1 < s.1 {
                        h.1
                    } else {
                        s.1
                    }, if h.2 > s.2 {
                        h.2
                    } else {
                        s.2
                    }),
                ],
                None => Seq::empty(),
            }
        } else {
            Seq::empty()
        }
    }
}

/// The position before the first entry that starts after `line`.
pub open spec fn first_after(es: Seq<Entry>, line: int) -> int
    decreases es.len(),
{
    if es.len() == 0 {
        0
    } else if es[0].1 > line {
        0
    } else {
        1 + first_after(es.drop_first(), line)
    }
}

/// The entries stably sorted by start: each goes after every earlier entry
/// that starts no later.
pub open spec fn sort_by_start(es: Seq<Entry>) -> Seq<Entry>
    decreases es.len(),
{
    if es.len() == 0 {
        es
    } else {
        let t = sort_by_start(es.drop_last());
        t.insert(first_after(t, es.last().1), es.last())
    }
}

/// The attribution of an outline: every handler's range, each used struct's
/// range under its handler, and each unused struct inside a handler under
/// that handler, sorted by start.
pub open spec fn attribution(items: Seq<ItemShape>) -> Seq<Entry> {
    let hs = handlers(items);
    let hes = hs.map_values(|f: FnShape| fn_entry(f));
    let ses = structs(items).map_values(|s: StructShape| struct_entry(s));
    let uses = struct_uses(hs);
    sort_by_start(hes + used_entries(uses, ses) + unused_entries(ses, uses, hes))
}

/// The instruction of an entry, in `file`.
pub open spec fn instruction_of(e: Entry, file: Seq<char>) -> (Seq<char>, Seq<char>, int, int) {
    (e.0, file, e.1, e.2)
}

pub open spec fn instruction_view(i: Instruction) -> (Seq<char>, Seq<char>, int, int) {
    (i.name@, i.file@, i.range.start as int, i.range.end as int)
}

pub open spec fn uses_view(v: Seq<(String, String)>) -> Seq<(Seq<char>, Seq<char>)> {
    v.map_values(|u: (String, String)| (u.0@, u.1@))
}

/// The struct a handler takes as `Context<X>`.
fn context_struct_exec(args: &Vec<ArgOutline>) -> (r: Option<String>)
    ensures
        opt_view(r) == context_struct(args_view(args@)),
{
    let ghost av = args_view(args@);
    let mut out: Option<String> = None;
    let mut k: usize = 0;
    while k < args.len()
        invariant
            av == args_view(args@),
            k <= args@.len(),
            opt_view(out) == context_struct(av.subrange(0, k as int)),
        decreases args.len() - k,
    {
        assert(av.subrange(0, k + 1).drop_last() =~= av.subrange(0, k as int));
        assert(av[k as int] == args@[k as int]@);
        match &args[k] {
            ArgOutline::TypePath { first, generic } => {
                let is_context = match first {
                    Some(f) => same_str(&chars_of(f.as_str()), "Context"),
                    None => false,
                };
                if is_context {
                    match generic {
                        Some(g) => {
                            out = crate::model::clone_opt(g);
                        },
                        None => {},
                    }
                }
            },
            ArgOutline::Other => {},
        }
        k = k + 1;
    }
    assert(av.subrange(0, args@.len() as int) =~= av);
    out
}

/// A handler's range, under its name.
fn fn_entry_exec(f: &FnOutline) -> (r: (String, usize, usize))
    requires
        f.line < usize::MAX,
    ensures
        entry_view(r) == fn_entry(f@),
{
    let start = if f.line < 1 {
        1
    } else {
        f.line
    };
    let end = if f.close_line > start {
        f.close_line
    } else {
        start + 1
    };
    (f.name.clone(), start, end)
}

/// A struct's range, under its name.
fn struct_entry_exec(s: &StructOutline) -> (r: (String, usize, usize))
    requires
        s.line < usize::MAX,
    ensures
        entry_view(r) == struct_entry(s@),
{
    let start: usize = if s.line < 1 {
        1
    } else {
        s.line
    };
    let mut end: usize = start + 1;
    let mut k: usize = 0;
    while k < s.field_ends.len()
        invariant
            k <= s.field_ends@.len(),
            start == first_line(s.line),
            end == ends_max(start + 1, s.field_ends@.subrange(0, k as int)),
        decreases s.field_ends.len() - k,
    {
        assert(s.field_ends@.subrange(0, k + 1).drop_last() =~= s.field_ends@.subrange(0, k as int));
        let e = s.field_ends[k];
        if e < usize::MAX && e + 1 > end {
            end = e + 1;
        }
        k = k + 1;
    }
    assert(s.field_ends@.subrange(0, s.field_ends@.len() as int) =~= s.field_ends@);
    (s.name.clone(), start, end)
}

/// The handlers' ranges and the structs they use.
fn handler_table(items: &[ItemOutline]) -> (r: (Vec<(String, usize, usize)>, Vec<(String, String)>))
    requires
        lines_fit(outline_view(items@)),
    ensures
        entries_view(r.0@) == handlers(outline_view(items@)).map_values(|f: FnShape| fn_entry(f)),
        uses_view(r.1@) == struct_uses(handlers(outline_view(items@))),
{
    let ghost ov = outline_view(items@);
    let mut hes: Vec<(String, usize, usize)> = Vec::new();
    let mut uses: Vec<(String, String)> = Vec::new();
    let ghost mut hs: Seq<FnShape> = Seq::empty();
    let mut i: usize = 0;
    while i < items.len()
        invariant
            ov == outline_view(items@),
            lines_fit(ov),
            i <= items@.len(),
            hs == handlers(ov.subrange(0, i as int)),
            entries_view(hes@) == hs.map_values(|f: FnShape| fn_entry(f)),
            uses_view(uses@) == struct_uses(hs),
        decreases items.len() - i,
    {
        assert(ov.subrange(0, i + 1).drop_last() =~= ov.subrange(0, i as int));
        assert(ov[i as int] == items@[i as int]@);
        assert(item_lines_fit(ov[i as int]));
        match &items[i] {
            ItemOutline::Mod { attr_idents, content: Some(c) } => {
                let mut program = false;
                let mut a: usize = 0;
                while a < attr_idents.len()
                    invariant
                        a <= attr_idents@.len(),
                        program <==> idents_view(attr_idents@).subrange(0, a as int).contains(
                            Some("program"@),
                        ),
                    decreases attr_idents.len() - a,
                {
                    let ghost sub = idents_view(attr_idents@).subrange(0, a as int);
                    let ghost next = idents_view(attr_idents@).subrange(0, a + 1);
                    assert(next =~= sub.push(opt_view(attr_idents@[a as int])));
                    let hit = match &attr_idents[a] {
                        Some(x) => same_str(&chars_of(x.as_str()), "program"),
                        None => false,
                    };
                    proof {
                        if hit {
                            assert(next[a as int] == Some("program"@));
                        }
                        if !hit && next.contains(Some("program"@)) {
                            let q = choose|q: int| 0 <= q < next.len() && next[q] == Some("program"@);
                            assert(q < a);
                            assert(sub[q] == next[q]);
                        }
                    }
                    program = program || hit;
                    a = a + 1;
                }
                assert(idents_view(attr_idents@).subrange(0, attr_idents@.len() as int) =~= idents_view(attr_idents@));
                if program {
                    let ghost cv = inner_view(c@);
                    let ghost base = hs;
                    let mut j: usize = 0;
                    while j < c.len()
                        invariant
                            cv == inner_view(c@),
                            forall|q: int| 0 <= q < cv.len() ==> (#[trigger] cv[q] matches InnerShape::Fn(f)
                                ==> f.line < usize::MAX),
                            j <= c@.len(),
                            hs == base + inner_fns(cv.subrange(0, j as int)),
                            entries_view(hes@) == hs.map_values(|f: FnShape| fn_entry(f)),
                            uses_view(uses@) == struct_uses(hs),
                        decreases c.len() - j,
                    {
                        assert(cv.subrange(0, j + 1).drop_last() =~= cv.subrange(0, j as int));
                        assert(cv[j as int] == c@[j as int]@);
                        match &c[j] {
                            InnerOutline::Fn(f) => {
                                let ghost prev_hs = hs;
                                let ghost prev_hes = hes@;
                                let ghost prev_uses = uses@;
                                let e = fn_entry_exec(f);
                                hes.push(e);
                                let cs = context_struct_exec(&f.args);
                                match cs {
                                    Some(x) => {
                                        uses.push((f.name.clone(), x));
                                    },
                                    None => {},
                                }
                                proof {
                                    hs = hs.push(f@);
                                    assert(hs.drop_last() =~= prev_hs);
                                    assert(inner_fns(cv.subrange(0, j + 1)) =~= inner_fns(cv.subrange(0, j as int)).push(f@));
                                    assert(base + inner_fns(cv.subrange(0, j + 1)) =~= hs);
                                    assert(entries_view(prev_hes).len() == prev_hes.len());
                                    assert(entries_view(hes@) =~= hs.map_values(|f: FnShape| fn_entry(f))) by {
                                        assert forall|q: int| 0 <= q < hes@.len() implies #[trigger] entries_view(hes@)[q]
                                            == hs.map_values(|f: FnShape| fn_entry(f))[q] by {
                                            if q < prev_hes.len() {
                                                assert(hes@[q] == prev_hes[q]);
                                                assert(entries_view(prev_hes)[q] == prev_hs.map_values(|f: FnShape| fn_entry(f))[q]);
                                                assert(hs[q] == prev_hs[q]);
                                            } else {
                                                assert(hes@[q] == e);
                                                assert(hs[q] == f@);
                                            }
                                        }
                                    }
                                    assert(uses_view(prev_uses).len() == prev_uses.len());
                                    assert(uses_view(uses@) =~= struct_uses(hs)) by {
                                        assert forall|q: int| 0 <= q < uses@.len() implies #[trigger] uses_view(uses@)[q]
                                            == struct_uses(hs)[q] by {
                                            if q < prev_uses.len() {
                                                assert(uses@[q] == prev_uses[q]);
                                            }
                                        }
                                    }
                                }
                            },
                            InnerOutline::Other => {
                                assert(inner_fns(cv.subrange(0, j + 1)) =~= inner_fns(cv.subrange(0, j as int)));
                            },
                        }
                        j = j + 1;
                    }
                    assert(cv.subrange(0, c@.len() as int) =~= cv);
                }
            },
            _ => {},
        }
        i = i + 1;
    }
    assert(ov.subrange(0, items@.len() as int) =~= ov);
    (hes, uses)
}

/// The structs' ranges, under their names.
fn struct_table(items: &[ItemOutline]) -> (r: Vec<(String, usize, usize)>)
    requires
        lines_fit(outline_view(items@)),
    ensures
        entries_view(r@) == structs(outline_view(items@)).map_values(|s: StructShape| struct_entry(s)),
{
    let ghost ov = outline_view(items@);
    let mut ses: Vec<(String, usize, usize)> = Vec::new();
    let mut i: usize = 0;
    while i < items.len()
        invariant
            ov == outline_view(items@),
            lines_fit(ov),
            i <= items@.len(),
            entries_view(ses@) == structs(ov.subrange(0, i as int)).map_values(
                |s: StructShape| struct_entry(s),
            ),
        decreases items.len() - i,
    {
        let ghost sub = ov.subrange(0, i as int);
        assert(ov.subrange(0, i + 1).drop_last() =~= sub);
        assert(ov[i as int] == items@[i as int]@);
        assert(item_lines_fit(ov[i as int]));
        match &items[i] {
            ItemOutline::Struct(st) => {
                let ghost prev = ses@;
                let e = struct_entry_exec(st);
                ses.push(e);
                proof {
                    let full = structs(ov.subrange(0, i + 1));
                    assert(full =~= structs(sub).push(st@));
                    assert(entries_view(prev).len() == prev.len());
                    assert forall|q: int| 0 <= q < ses@.len() implies #[trigger] entries_view(ses@)[q]
                        == full.map_values(|s: StructShape| struct_entry(s))[q] by {
                        if q < prev.len() {
                            assert(ses@[q] == prev[q]);
                            assert(entries_view(prev)[q] == structs(sub).map_values(
                                |s: StructShape| struct_entry(s),
                            )[q]);
                            assert(full[q] == structs(sub)[q]);
                        } else {
                            assert(ses@[q] == e);
                            assert(full[q] == st@);
                        }
                    }
                    assert(entries_view(ses@) =~= full.map_values(|s: StructShape| struct_entry(s)));
                }
            },
            _ => {
                assert(structs(ov.subrange(0, i + 1)) =~= structs(sub));
            },
        }
        i = i + 1;
    }
    assert(ov.subrange(0, items@.len() as int) =~= ov);
    ses
}

/// The first entry of the given name.
fn first_named_exec(es: &Vec<(String, usize, usize)>, name: &String) -> (r: Option<(usize, usize)>)
    ensures
        match first_named(entries_view(es@), name@) {
            Some(e) => r matches Some(x) && x.0 == e.1 && x.1 == e.2,
            None => r is None,
        },
{
    let ghost ev = entries_view(es@);
    let nv = chars_of(name.as_str());
    let mut k: usize = 0;
    assert(ev.subrange(0, ev.len() as int) =~= ev);
    while k < es.len()
        invariant
            ev == entries_view(es@),
            nv@ == name@,
            k <= es@.len(),
            first_named(ev, name@) == first_named(ev.subrange(k as int, ev.len() as int), name@),
        decreases es.len() - k,
    {
        let ghost rest = ev.subrange(k as int, ev.len() as int);
        assert(rest.drop_first() =~= ev.subrange(k + 1, ev.len() as int));
        assert(rest[0] == entry_view(es@[k as int]));
        if same_str(&nv, es[k].0.as_str()) {
            return Some((es[k].1, es[k].2));
        }
        k = k + 1;
    }
    None
}

/// The first entry whose range holds `line`.
fn enclosing_exec(es: &Vec<(String, usize, usize)>, line: usize) -> (r: Option<(String, usize, usize)>)
    ensures
        match enclosing(entries_view(es@), line as int) {
            Some(e) => r matches Some(x) && entry_view(x) == e,
            None => r is None,
        },
{
    let ghost ev = entries_view(es@);
    let mut k: usize = 0;
    assert(ev.subrange(0, ev.len() as int) =~= ev);
    while k < es.len()
        invariant
            ev == entries_view(es@),
            k <= es@.len(),
            enclosing(ev, line as int) == enclosing(ev.subrange(k as int, ev.len() as int), line as int),
        decreases es.len() - k,
    {
        let ghost rest = ev.subrange(k as int, ev.len() as int);
        assert(rest.drop_first() =~= ev.subrange(k + 1, ev.len() as int));
        assert(rest[0] == entry_view(es@[k as int]));
        if es[k].1 <= line && line < es[k].2 {
            return Some((es[k].0.clone(), es[k].1, es[k].2));
        }
        k = k + 1;
    }
    None
}

/// Whether no handler uses the struct `name`.
fn unused_exec(uses: &Vec<(String, String)>, name: &String) -> (b: bool)
    ensures
        b == unused(uses_view(uses@), name@),
{
    let ghost uv = uses_view(uses@);
    let nv = chars_of(name.as_str());
    let mut k: usize = 0;
    while k < uses.len()
        invariant
            uv == uses_view(uses@),
            nv@ == name@,
            k <= uses@.len(),
            forall|q: int| 0 <= q < k ==> #[trigger] uv[q].1 != name@,
        decreases uses.len() - k,
    {
        assert(uv[k as int] == (uses@[k as int].0@, uses@[k as int].1@));
        if same_str(&nv, uses[k].1.as_str()) {
            assert(uv[k as int].1 == name@);
            return false;
        }
        k = k + 1;
    }
    true
}

/// The range of each used struct, under the handler that uses it.
fn used_table(uses: &Vec<(String, String)>, ses: &Vec<(String, usize, usize)>) -> (r: Vec<
    (String, usize, usize),
>)
    ensures
        entries_view(r@) == used_entries(uses_view(uses@), entries_view(ses@)),
{
    let ghost uv = uses_view(uses@);
    let ghost sv = entries_view(ses@);
    let mut out: Vec<(String, usize, usize)> = Vec::new();
    let mut k: usize = 0;
    while k < uses.len()
        invariant
            uv == uses_view(uses@),
            sv == entries_view(ses@),
            k <= uses@.len(),
            entries_view(out@) == used_entries(uv.subrange(0, k as int), sv),
        decreases uses.len() - k,
    {
        let ghost sub = uv.subrange(0, k as int);
        assert(uv.subrange(0, k + 1).drop_last() =~= sub);
        assert(uv[k as int] == (uses@[k as int].0@, uses@[k as int].1@));
        let ghost prev = out@;
        match first_named_exec(ses, &uses[k].1) {
            Some((a, b)) => {
                let e = (uses[k].0.clone(), a, b);
                out.push(e);
                proof {
                    assert(entries_view(prev).len() == prev.len());
                    assert forall|q: int| 0 <= q < out@.len() implies #[trigger] entries_view(out@)[q]
                        == used_entries(uv.subrange(0, k + 1), sv)[q] by {
                        if q < prev.len() {
                            assert(out@[q] == prev[q]);
                            assert(entries_view(prev)[q] == used_entries(sub, sv)[q]);
                        } else {
                            assert(out@[q] == e);
                        }
                    }
                    assert(entries_view(out@) =~= used_entries(uv.subrange(0, k + 1), sv));
                }
            },
            None => {
                assert(used_entries(uv.subrange(0, k + 1), sv) =~= used_entries(sub, sv));
            },
        }
        k = k + 1;
    }
    assert(uv.subrange(0, uses@.len() as int) =~= uv);
    out
}

/// The range of each unused struct inside a handler, joined with the
/// handler's range, under the handler.
fn unused_table(
    ses: &Vec<(String, usize, usize)>,
    uses: &Vec<(String, String)>,
    hes: &Vec<(String, usize, usize)>,
) -> (r: Vec<(String, usize, usize)>)
    ensures
        entries_view(r@) == unused_entries(entries_view(ses@), uses_view(uses@), entries_view(hes@)),
{
    let ghost uv = uses_view(uses@);
    let ghost sv = entries_view(ses@);
    let ghost hv = entries_view(hes@);
    let mut out: Vec<(String, usize, usize)> = Vec::new();
    let mut k: usize = 0;
    while k < ses.len()
        invariant
            uv == uses_view(uses@),
            sv == entries_view(ses@),
            hv == entries_view(hes@),
            k <= ses@.len(),
            entries_view(out@) == unused_entries(sv.subrange(0, k as int), uv, hv),
        decreases ses.len() - k,
    {
        let ghost sub = sv.subrange(0, k as int);
        assert(sv.subrange(0, k + 1).drop_last() =~= sub);
        assert(sv.subrange(0, k + 1).last() == entry_view(ses@[k as int]));
        let ghost prev = out@;
        let mut added = false;
        if unused_exec(uses, &ses[k].0) {
            match enclosing_exec(hes, ses[k].1) {
                Some((n, hs, he)) => {
                    let lo = if hs < ses[k].1 {
                        hs
                    } else {
                        ses[k].1
                    };
                    let hi = if he > ses[k].2 {
                        he
                    } else {
                        ses[k].2
                    };
                    let e = (n, lo, hi);
                    out.push(e);
                    added = true;
                    proof {
                        assert(entries_view(prev).len() == prev.len());
                        assert forall|q: int| 0 <= q < out@.len() implies #[trigger] entries_view(out@)[q]
                            == unused_entries(sv.subrange(0, k + 1), uv, hv)[q] by {
                            if q < prev.len() {
                                assert(out@[q] == prev[q]);
                                assert(entries_view(prev)[q] == unused_entries(sub, uv, hv)[q]);
                            } else {
                                assert(out@[q] == e);
                            }
                        }
                        assert(entries_view(out@) =~= unused_entries(sv.subrange(0, k + 1), uv, hv));
                    }
                },
                None => {},
            }
        }
        if !added {
            assert(unused_entries(sv.subrange(0, k + 1), uv, hv) =~= unused_entries(sub, uv, hv));
        }
        k = k + 1;
    }
    assert(sv.subrange(0, ses@.len() as int) =~= sv);
    out
}

/// The position before the first entry that starts after `line`.
fn first_after_exec(es: &Vec<(String, usize, usize)>, line: usize) -> (r: usize)
    ensures
        r == first_after(entries_view(es@), line as int),
        r <= es@.len(),
{
    let ghost ev = entries_view(es@);
    let mut k: usize = 0;
    assert(ev.subrange(0, ev.len() as int) =~= ev);
    while k < es.len() && es[k].1 <= line
        invariant
            ev == entries_view(es@),
            k <= es@.len(),
            first_after(ev, line as int) == k + first_after(ev.subrange(k as int, ev.len() as int), line as int),
        decreases es.len() - k,
    {
        let ghost rest = ev.subrange(k as int, ev.len() as int);
        assert(rest.drop_first() =~= ev.subrange(k + 1, ev.len() as int));
        assert(rest[0] == entry_view(es@[k as int]));
        k = k + 1;
    }
    if k < es.len() {
        let ghost rest = ev.subrange(k as int, ev.len() as int);
        assert(rest[0] == entry_view(es@[k as int]));
    }
    k
}

/// The entries stably sorted by start.
fn sort_entries(v: &Vec<(String, usize, usize)>) -> (r: Vec<(String, usize, usize)>)
    ensures
        entries_view(r@) == sort_by_start(entries_view(v@)),
{
    let ghost ev = entries_view(v@);
    let mut sorted: Vec<(String, usize, usize)> = Vec::new();
    let mut k: usize = 0;
    while k < v.len()
        invariant
            ev == entries_view(v@),
            k <= v@.len(),
            entries_view(sorted@) == sort_by_start(ev.subrange(0, k as int)),
        decreases v.len() - k,
    {
        assert(ev.subrange(0, k + 1).drop_last() =~= ev.subrange(0, k as int));
        assert(ev.subrange(0, k + 1).last() == entry_view(v@[k as int]));
        let x = (v[k].0.clone(), v[k].1, v[k].2);
        let pos = first_after_exec(&sorted, x.1);
        let ghost prev = sorted@;
        let ghost t = entries_view(prev);
        sorted.insert(pos, x);
        proof {
            assert(t.len() == prev.len());
            assert(entries_view(sorted@) =~= t.insert(pos as int, entry_view(x))) by {
                assert forall|q: int| 0 <= q < sorted@.len() implies #[trigger] entries_view(sorted@)[q]
                    == t.insert(pos as int, entry_view(x))[q] by {
                    if q < pos {
                        assert(sorted@[q] == prev[q]);
                    } else if q == pos {
                        assert(sorted@[q] == x);
                    } else {
                        assert(sorted@[q] == prev[q - 1]);
                    }
                }
            }
        }
        k = k + 1;
    }
    assert(ev.subrange(0, v@.len() as int) =~= ev);
    sorted
}

/// `a` followed by `b`.
fn append_entries(a: &mut Vec<(String, usize, usize)>, b: &Vec<(String, usize, usize)>)
    ensures
        entries_view(final(a)@) == entries_view(old(a)@) + entries_view(b@),
{
    let ghost a0 = entries_view(a@);
    let ghost bv = entries_view(b@);
    let mut k: usize = 0;
    while k < b.len()
        invariant
            bv == entries_view(b@),
            k <= b@.len(),
            entries_view(a@) == a0 + bv.subrange(0, k as int),
        decreases b.len() - k,
    {
        let x = (b[k].0.clone(), b[k].1, b[k].2);
        let ghost prev = a@;
        a.push(x);
        proof {
            assert(entries_view(prev).len() == prev.len());
            assert forall|q: int| 0 <= q < a@.len() implies #[trigger] entries_view(a@)[q] == (a0
                + bv.subrange(0, k + 1))[q] by {
                if q < prev.len() {
                    assert(a@[q] == prev[q]);
                    assert(entries_view(prev)[q] == (a0 + bv.subrange(0, k as int))[q]);
                } else {
                    assert(a@[q] == x);
                }
            }
            assert(entries_view(a@) =~= a0 + bv.subrange(0, k + 1));
        }
        k = k + 1;
    }
    assert(bv.subrange(0, b@.len() as int) =~= bv);
}

/// Whether the outline's line numbers leave room for the attribution.
pub fn lines_fit_exec(items: &[ItemOutline]) -> (b: bool)
    ensures
        b == lines_fit(outline_view(items@)),
{
    let ghost ov = outline_view(items@);
    let mut i: usize = 0;
    while i < items.len()
        invariant
            ov == outline_view(items@),
            i <= items@.len(),
            forall|q: int| 0 <= q < i ==> #[trigger] item_lines_fit(ov[q]),
        decreases items.len() - i,
    {
        assert(ov[i as int] == items@[i as int]@);
        match &items[i] {
            ItemOutline::Struct(st) => {
                if st.line == usize::MAX {
                    assert(!item_lines_fit(ov[i as int]));
                    return false;
                }
            },
            ItemOutline::Mod { content: Some(c), .. } => {
                let ghost cv = inner_view(c@);
                let mut j: usize = 0;
                while j < c.len()
                    invariant
                        cv == inner_view(c@),
                        ov == outline_view(items@),
                        i < items@.len(),
                        ov[i as int] matches ItemShape::Mod { content: Some(cc), .. } && cc == cv,
                        j <= c@.len(),
                        forall|q: int| 0 <= q < j ==> (#[trigger] cv[q] matches InnerShape::Fn(f) ==> f.line
                            < usize::MAX),
                    decreases c.len() - j,
                {
                    assert(cv[j as int] == c@[j as int]@);
                    match &c[j] {
                        InnerOutline::Fn(f) => {
                            if f.line == usize::MAX {
                                assert(cv[j as int] matches InnerShape::Fn(g) && g.line == usize::MAX);
                                assert(!item_lines_fit(ov[i as int]));
                                return false;
                            }
                        },
                        InnerOutline::Other => {},
                    }
                    j = j + 1;
                }
            },
            _ => {},
        }
        i = i + 1;
    }
    true
}

/// The instructions of an outlined file: every handler of the `#[program]`
/// module over its body, every `Accounts` struct a handler takes as
/// `Context<X>` under that handler, and every other struct that starts
/// inside a handler under that handler (joined with its range); in order of
/// their first lines, entries that start on the same line in that order.
pub fn instructions_from_outline(items: &[ItemOutline], rel_file: &str) -> (r: Vec<Instruction>)
    requires
        lines_fit(outline_view(items@)),
    ensures
        r@.map_values(|i: Instruction| instruction_view(i)) == attribution(outline_view(items@)).map_values(
            |e: Entry| instruction_of(e, rel_file@),
        ),
{
    let ghost ov = outline_view(items@);
    let (hes, uses) = handler_table(items);
    let ses = struct_table(items);
    let used = used_table(&uses, &ses);
    let unused = unused_table(&ses, &uses, &hes);
    let mut all: Vec<(String, usize, usize)> = Vec::new();
    append_entries(&mut all, &hes);
    append_entries(&mut all, &used);
    append_entries(&mut all, &unused);
    let sorted = sort_entries(&all);
    let ghost att = attribution(ov);
    assert(entries_view(all@) =~= entries_view(hes@) + entries_view(used@) + entries_view(unused@));
    assert(entries_view(sorted@) == att);
    let mut out: Vec<Instruction> = Vec::new();
    let mut k: usize = 0;
    while k < sorted.len()
        invariant
            entries_view(sorted@) == att,
            k <= sorted@.len(),
            out@.len() == k,
            forall|q: int| 0 <= q < k ==> #[trigger] instruction_view(out@[q]) == instruction_of(att[q], rel_file@),
        decreases sorted.len() - k,
    {
        assert(att[k as int] == entry_view(sorted@[k as int]));
        let ins = Instruction {
            name: sorted[k].0.clone(),
            file: rel_file.to_string(),
            range: sorted[k].1..sorted[k].2,
        };
        out.push(ins);
        k = k + 1;
    }
    assert(out@.map_values(|i: Instruction| instruction_view(i)) =~= att.map_values(
        |e: Entry| instruction_of(e, rel_file@),
    ));
    out
}

/// Locates the `#[program]` module's handlers in a source text and attributes
/// line ranges to them (see `instructions_from_outline`); `syn`'s message
/// where the text does not parse, and an error where its line numbers leave
/// no room for the attribution.
pub fn find_instructions(text: &str, rel_file: &str) -> (r: Result<Vec<Instruction>, String>)
    ensures
        match syn_items(text@) {
            None => r is Err,
            Some(items) => if lines_fit(items) {
                r matches Ok(v) && v@.map_values(|i: Instruction| instruction_view(i)) == attribution(
                    items,
                ).map_values(|e: Entry| instruction_of(e, rel_file@))
            } else {
                r is Err
            },
        },
{
    let items = match outline(text) {
        Ok(items) => items,
        Err(e) => return Err(e),
    };
    if !lines_fit_exec(&items) {
        return Err("line number out of range".to_string());
    }
    Ok(instructions_from_outline(&items, rel_file))
}

/// The entries are in order of their first lines.
pub open spec fn sorted_by_start(es: Seq<Entry>) -> bool {
    forall|a: int, b: int| 0 <= a < b < es.len() ==> (#[trigger] es[a]).1 <= (#[trigger] es[b]).1
}

proof fn lemma_first_after(es: Seq<Entry>, line: int)
    ensures
        0 <= first_after(es, line) <= es.len(),
        forall|k: int| 0 <= k < first_after(es, line) ==> (#[trigger] es[k]).1 <= line,
        first_after(es, line) < es.len() ==> es[first_after(es, line)].1 > line,
    decreases es.len(),
{
    if es.len() > 0 && es[0].1 <= line {
        lemma_first_after(es.drop_first(), line);
        assert forall|k: int| 0 <= k < first_after(es, line) implies (#[trigger] es[k]).1 <= line by {
            if k > 0 {
                assert(es[k] == es.drop_first()[k - 1]);
            }
        }
    }
}

/// Sorting by start keeps every entry, adds none, and leaves the entries in
/// order of their first lines.
pub proof fn law_sort_by_start(es: Seq<Entry>)
    ensures
        sorted_by_start(sort_by_start(es)),
        sort_by_start(es).to_multiset() == es.to_multiset(),
    decreases es.len(),
{
    broadcast use vstd::multiset::group_multiset_axioms;
    if es.len() > 0 {
        let t = sort_by_start(es.drop_last());
        let x = es.last();
        law_sort_by_start(es.drop_last());
        lemma_first_after(t, x.1);
        let p = first_after(t, x.1);
        let u = t.insert(p, x);
        assert forall|a: int, b: int| 0 <= a < b < u.len() implies (#[trigger] u[a]).1 <= (#[trigger] u[b]).1 by {
            if b < p {
                assert(u[a] == t[a] && u[b] == t[b]);
            } else if b == p {
                assert(u[a] == t[a]);
            } else if a < p {
                assert(u[a] == t[a] && u[b] == t[b - 1]);
            } else if a == p {
                assert(u[b] == t[b - 1]);
                assert(t[p].1 > x.1);
                if b - 1 > p {
                    assert(t[p].1 <= t[b - 1].1);
                }
            } else {
                assert(u[a] == t[a - 1] && u[b] == t[b - 1]);
            }
        }
        vstd::seq_lib::to_multiset_insert(t, p, x);
        assert(es =~= es.drop_last().push(x));
        es.drop_last().to_multiset_ensures();
    }
}

/// The attribution of a file lists its entries in order of their first
/// lines.
pub proof fn law_attribution_sorted(items: Seq<ItemShape>)
    ensures
        sorted_by_start(attribution(items)),
{
    let hs = handlers(items);
    let hes = hs.map_values(|f: FnShape| fn_entry(f));
    let ses = structs(items).map_values(|s: StructShape| struct_entry(s));
    let uses = struct_uses(hs);
    law_sort_by_start(hes + used_entries(uses, ses) + unused_entries(ses, uses, hes));
}

/// The result of `init`: which files hold the program's instructions.
#[derive(Debug)]
pub struct Manifest {
    /// Where the Rust program source lives.
    pub program_dir: std::path::PathBuf,
    pub instructions: Vec<Instruction>,
}

// ---------------------------------------------------------------------------
// Choosing the program directory
// ---------------------------------------------------------------------------

/// Where the program crate of a project lies.
#[derive(Debug, Clone, Copy, PartialEq, Eq, Structural)]
pub enum ProgramDir {
    /// The project root itself.
    Root,
    /// The directory under `programs/` at this position of the listing.
    Program(usize),
    /// `programs/` holds no directory.
    NoPrograms,
}

/// A manifest that declares an `anchor-lang` dependency.
pub open spec fn declares_anchor(manifest: Option<Seq<char>>) -> bool {
    manifest matches Some(t) && crate::text::contains(t, "anchor-lang"@)
}

/// The first program directory whose manifest declares `anchor-lang`, else
/// the first.
pub open spec fn preferred_program(manifests: Seq<Option<Seq<char>>>) -> int
    decreases manifests.len(),
{
    if manifests.len() == 0 {
        0
    } else if declares_anchor(manifests[0]) {
        0
    } else {
        let rest = preferred_program(manifests.drop_first());
        if rest < manifests.len() - 1 && declares_anchor(manifests[rest + 1]) {
            rest + 1
        } else {
            0
        }
    }
}

/// The program directory of a project, from what lies on disk: whether the
/// root holds `src/lib.rs`, the root's `Cargo.toml` (if readable), whether
/// the root holds `Anchor.toml`, and, when `programs/` is a directory, the
/// `Cargo.toml` of each directory in it (if readable), in listing order.
/// A root that is itself an Anchor crate (`src/lib.rs` and a manifest that
/// declares `anchor-lang`), or one without `Anchor.toml`, is the program; in
/// an Anchor workspace it is the first program directory whose manifest
/// declares `anchor-lang`, else the first, and the root where there is no
/// `programs/` directory.
pub open spec fn program_dir_of(
    root_has_lib: bool,
    root_manifest: Option<Seq<char>>,
    has_anchor_toml: bool,
    programs: Option<Seq<Option<Seq<char>>>>,
) -> ProgramDir {
    let standalone = root_has_lib && declares_anchor(root_manifest);
    if has_anchor_toml && !standalone {
        match programs {
            None => ProgramDir::Root,
            Some(ms) => if ms.len() == 0 {
                ProgramDir::NoPrograms
            } else {
                ProgramDir::Program(preferred_program(ms) as usize)
            },
        }
    } else {
        ProgramDir::Root
    }
}

pub open spec fn manifests_view(v: Seq<Option<String>>) -> Seq<Option<Seq<char>>> {
    v.map_values(|m: Option<String>| opt_view(m))
}

/// Whether a manifest declares `anchor-lang`.
fn declares_anchor_exec(manifest: &Option<String>) -> (b: bool)
    ensures
        b == declares_anchor(opt_view(*manifest)),
{
    match manifest {
        Some(t) => crate::text::contains_str(&chars_of(t.as_str()), "anchor-lang"),
        None => false,
    }
}

/// Chooses the program directory of a project (see `program_dir_of`).
pub fn find_program_dir(
    root_has_lib: bool,
    root_manifest: &Option<String>,
    has_anchor_toml: bool,
    programs: &Option<Vec<Option<String>>>,
) -> (r: ProgramDir)
    ensures
        r == program_dir_of(
            root_has_lib,
            opt_view(*root_manifest),
            has_anchor_toml,
            match *programs {
                Some(v) => Some(manifests_view(v@)),
                None => None,
            },
        ),
{
    let standalone = root_has_lib && declares_anchor_exec(root_manifest);
    if has_anchor_toml && !standalone {
        match programs {
            None => ProgramDir::Root,
            Some(ms) => {
                if ms.len() == 0 {
                    return ProgramDir::NoPrograms;
                }
                let ghost mv = manifests_view(ms@);
                let mut k: usize = 0;
                while k < ms.len()
                    invariant
                        mv == manifests_view(ms@),
                        0 < ms@.len(),
                        has_anchor_toml,
                        !standalone,
                        standalone == (root_has_lib && declares_anchor(opt_view(*root_manifest))),
                        *programs == Some(*ms),
                        k <= ms@.len(),
                        forall|q: int| 0 <= q < k ==> !declares_anchor(#[trigger] mv[q]),
                    decreases ms.len() - k,
                {
                    assert(mv[k as int] == opt_view(ms@[k as int]));
                    if declares_anchor_exec(&ms[k]) {
                        proof {
                            lemma_preferred_first(mv, k as int);
                            assert(preferred_program(mv) as usize == k);
                        }
                        return ProgramDir::Program(k);
                    }
                    k = k + 1;
                }
                proof {
                    lemma_preferred_none(mv);
                }
                ProgramDir::Program(0)
            },
        }
    } else {
        ProgramDir::Root
    }
}

proof fn lemma_preferred_first(ms: Seq<Option<Seq<char>>>, k: int)
    requires
        0 <= k < ms.len(),
        declares_anchor(ms[k]),
        forall|q: int| 0 <= q < k ==> !declares_anchor(#[trigger] ms[q]),
    ensures
        preferred_program(ms) == k,
    decreases ms.len(),
{
    if k > 0 {
        let rest = ms.drop_first();
        assert forall|q: int| 0 <= q < k - 1 implies !declares_anchor(#[trigger] rest[q]) by {
            assert(rest[q] == ms[q + 1]);
        }
        assert(rest[k - 1] == ms[k]);
        lemma_preferred_first(rest, k - 1);
        assert(!declares_anchor(ms[0]));
    }
}

proof fn lemma_preferred_none(ms: Seq<Option<Seq<char>>>)
    requires
        forall|q: int| 0 <= q < ms.len() ==> !declares_anchor(#[trigger] ms[q]),
    ensures
        preferred_program(ms) == 0,
    decreases ms.len(),
{
    if ms.len() > 0 {
        let rest = ms.drop_first();
        assert forall|q: int| 0 <= q < rest.len() implies !declares_anchor(#[trigger] rest[q]) by {
            assert(rest[q] == ms[q + 1]);
        }
        lemma_preferred_none(rest);
        assert(!declares_anchor(ms[0]));
    }
}

} // verus!
