//! Deciding which functions and tables get symbols, numbering the symbols, and
//! finding which instructions carry relocations.

use vstd::prelude::*;

use crate::error::{Error, ErrorKind};
use crate::keys::{KeySet, SymbolIndices};
use crate::reloc::{instruction_resolved, instruction_targets, spec_instruction_targets, RelocInstruction};
use crate::types::{
    DefinedFunc, DefinedTable, ParsedRelocInstruction, SymbolAnnotation, SymbolKey,
};

verus! {

/// The kind of an imported item.
#[derive(Debug, Clone, Copy, PartialEq, Eq, Structural)]
pub enum ImportItemKind {
    Func,
    Table,
    /// A tag: it gets no symbol, so `@sym` on it is refused.
    Tag,
    Other,
}

/// The `@sym` annotations of the items of one `import` field, in order.
#[derive(Debug, Clone)]
pub struct RelocImports {
    pub syms: Vec<SymbolAnnotation>,
}

/// The annotations of a defined function: its `@sym`, and the source offsets
/// of the instructions that `@reloc` follows.
#[derive(Debug, Clone)]
pub struct FuncAnnotation {
    pub sym: SymbolAnnotation,
    pub reloc_spans: Vec<usize>,
}

/// The `@sym` annotation of a `table` field.
#[derive(Debug, Clone)]
pub struct TableAnnotation {
    pub sym: SymbolAnnotation,
}

/// The annotations of a module, per field kind, in source order.
#[derive(Debug, Clone)]
pub struct RelocWat {
    pub import_annotations: Vec<RelocImports>,
    pub func_annotations: Vec<FuncAnnotation>,
    pub table_annotations: Vec<TableAnnotation>,
}

/// The instructions of a function body, with their source offsets where
/// those were tracked.
#[derive(Debug, Clone)]
pub struct FuncBody {
    pub instrs: Vec<RelocInstruction>,
    pub instr_spans: Option<Vec<usize>>,
}

/// A field of the resolved text module, as far as symbols are concerned.
#[derive(Debug, Clone)]
pub enum ModuleItem {
    /// An `import` field: the kind of each imported item.
    Import { kinds: Vec<ImportItemKind> },
    /// A `func` field: its identifier, where it is defined, and its body
    /// (`None` for a function given by an import).
    Func { id: Option<String>, span: usize, body: Option<FuncBody> },
    /// A `table` field: its identifier, where it is defined, and whether it
    /// is given by an import.
    Table { id: Option<String>, span: usize, imported: bool },
    /// Any other field.
    Other,
}

/// An entry of the symbol table.
#[derive(Debug, Clone, PartialEq, Eq)]
pub enum Symbol {
    FunctionImport { index: u32, explicit_name: Option<String> },
    FunctionDefined { index: u32, symbol_name: String },
    TableImport { index: u32, explicit_name: Option<String> },
    TableDefined { index: u32, symbol_name: String },
}

impl Symbol {
    /// The item the symbol stands for.
    pub open spec fn key(self) -> SymbolKey {
        match self {
            Symbol::FunctionImport { index, .. } => SymbolKey::Function(index),
            Symbol::FunctionDefined { index, .. } => SymbolKey::Function(index),
            Symbol::TableImport { index, .. } => SymbolKey::Table(index),
            Symbol::TableDefined { index, .. } => SymbolKey::Table(index),
        }
    }
}

/// What the `linking` and `reloc.CODE` sections are made from.
#[derive(Debug)]
pub struct LinkInfo {
    pub symbols: Vec<Symbol>,
    /// The position of each symbol in `symbols`, by the item it stands for.
    pub symbol_indices: SymbolIndices,
    pub defined_funcs: Vec<DefinedFunc>,
}

/// The relocatable instructions of a body as (carries `@reloc`, targets).
pub open spec fn reloc_view(v: Seq<ParsedRelocInstruction>) -> Seq<(bool, Seq<SymbolKey>)> {
    v.map_values(|p: ParsedRelocInstruction| (p.has_reloc, p.targets@))
}

/// How many entries at the front of `spans` equal `span`.
pub open spec fn leading_equal(spans: Seq<usize>, span: usize) -> nat
    decreases spans.len(),
{
    if spans.len() > 0 && spans[0] == span {
        1 + leading_equal(spans.drop_first(), span)
    } else {
        0
    }
}

/// The relocatable instructions of a body, each with whether `@reloc`
/// follows it: the `@reloc` offsets in `relocs` are matched in order with
/// the offsets of the relocatable instructions (`spans`, aligned with
/// `instrs`). `None` where an index is unresolved or where some `@reloc` is
/// left unmatched.
pub open spec fn match_relocs(
    instrs: Seq<RelocInstruction>,
    spans: Seq<usize>,
    relocs: Seq<usize>,
    use_spans: bool,
) -> Option<Seq<(bool, Seq<SymbolKey>)>>
    decreases instrs.len(),
{
    if instrs.len() == 0 {
        if relocs.len() == 0 {
            Some(seq![])
        } else {
            None
        }
    } else if !instruction_resolved(instrs[0]) {
        None
    } else {
        match spec_instruction_targets(instrs[0]) {
            None => match_relocs(instrs.drop_first(), spans.drop_first(), relocs, use_spans),
            Some(t) => {
                let n: nat = if use_spans {
                    leading_equal(relocs, spans[0])
                } else {
                    0
                };
                match match_relocs(
                    instrs.drop_first(),
                    spans.drop_first(),
                    relocs.skip(n as int),
                    use_spans,
                ) {
                    Some(rest) => Some(seq![(n > 0, t)] + rest),
                    None => None,
                }
            },
        }
    }
}

/// The relocatable instructions of a function with `@reloc` offsets
/// `relocs`.
pub open spec fn spec_resolve_func_relocs(body: Option<FuncBody>, relocs: Seq<usize>) -> Option<
    Seq<(bool, Seq<SymbolKey>)>,
> {
    match body {
        None => Some(seq![]),
        Some(b) => if relocs.len() == 0 {
            match_relocs(b.instrs@, Seq::new(b.instrs@.len(), |i: int| 0usize), relocs, false)
        } else {
            match b.instr_spans {
                None => None,
                Some(sp) => if sp@.len() < b.instrs@.len() {
                    None
                } else {
                    match_relocs(b.instrs@, sp@, relocs, true)
                },
            }
        },
    }
}

/// Every target of the instructions that carry `@reloc`.
pub open spec fn relocated_targets(v: Seq<(bool, Seq<SymbolKey>)>) -> Set<SymbolKey>
    decreases v.len(),
{
    if v.len() == 0 {
        Set::empty()
    } else {
        relocated_targets(v.drop_last()).union(
            if v.last().0 {
                v.last().1.to_set()
            } else {
                Set::empty()
            },
        )
    }
}


/// `front` put before the instructions in `rest`, if any.
pub open spec fn prepend_view(
    front: Seq<(bool, Seq<SymbolKey>)>,
    rest: Option<Seq<(bool, Seq<SymbolKey>)>>,
) -> Option<Seq<(bool, Seq<SymbolKey>)>> {
    match rest {
        Some(r) => Some(front + r),
        None => None,
    }
}

proof fn lemma_match_relocs_unmarked(instrs: Seq<RelocInstruction>, spans: Seq<usize>, relocs: Seq<usize>)
    ensures
        match_relocs(instrs, spans, relocs, false) matches Some(v) ==> forall|k: int|
            0 <= k < v.len() ==> !(#[trigger] v[k]).0,
    decreases instrs.len(),
{
    if instrs.len() > 0 && instruction_resolved(instrs[0]) {
        lemma_match_relocs_unmarked(instrs.drop_first(), spans.drop_first(), relocs);
        if let Some(t) = spec_instruction_targets(instrs[0]) {
            lemma_match_relocs_unmarked(instrs.drop_first(), spans.drop_first(), relocs.skip(0));
            if let Some(v) = match_relocs(instrs, spans, relocs, false) {
                let rest = match_relocs(instrs.drop_first(), spans.drop_first(), relocs.skip(0), false)->Some_0;
                assert forall|k: int| 0 <= k < v.len() implies !(#[trigger] v[k]).0 by {
                    if k > 0 {
                        assert(v[k] == rest[k - 1]);
                    }
                }
            }
        }
    }
}

proof fn lemma_relocated_targets_unmarked(v: Seq<(bool, Seq<SymbolKey>)>)
    requires
        forall|k: int| 0 <= k < v.len() ==> !(#[trigger] v[k]).0,
    ensures
        relocated_targets(v) == Set::<SymbolKey>::empty(),
    decreases v.len(),
{
    if v.len() > 0 {
        assert(!v[v.len() - 1].0);
        lemma_relocated_targets_unmarked(v.drop_last());
        assert(relocated_targets(v) =~= Set::<SymbolKey>::empty());
    }
}

/// A function without `@reloc` has none of its instructions marked, and
/// adds nothing to the set of keys that need symbols.
pub proof fn law_no_reloc_marks_nothing(body: FuncBody)
    ensures
        spec_resolve_func_relocs(Some(body), seq![]) matches Some(v) ==> {
            &&& forall|k: int| 0 <= k < v.len() ==> !(#[trigger] v[k]).0
            &&& relocated_targets(v) == Set::<SymbolKey>::empty()
        },
{
    let sp = Seq::new(body.instrs@.len(), |i: int| 0usize);
    lemma_match_relocs_unmarked(body.instrs@, sp, seq![]);
    if let Some(v) = spec_resolve_func_relocs(Some(body), seq![]) {
        lemma_relocated_targets_unmarked(v);
    }
}

/// Every target of an instruction that carries `@reloc` is among the keys
/// that need symbols.
pub proof fn law_relocated_targets_linked(v: Seq<(bool, Seq<SymbolKey>)>, k: int, key: SymbolKey)
    requires
        0 <= k < v.len(),
        v[k].0,
        v[k].1.contains(key),
    ensures
        relocated_targets(v).contains(key),
    decreases v.len(),
{
    if k < v.len() - 1 {
        assert(v.drop_last()[k] == v[k]);
        law_relocated_targets_linked(v.drop_last(), k, key);
    }
}

proof fn lemma_relocated_targets_push(v: Seq<(bool, Seq<SymbolKey>)>, x: (bool, Seq<SymbolKey>))
    ensures
        relocated_targets(v.push(x)) == relocated_targets(v).union(
            if x.0 {
                x.1.to_set()
            } else {
                Set::empty()
            },
        ),
{
    assert(v.push(x).drop_last() =~= v);
}

/// The relocatable instructions of a function body, in order, each with
/// whether `@reloc` follows it; the targets of those it follows are added to
/// `linking`. Fails where an index is unresolved, where offsets were not
/// tracked, or where some `@reloc` matches no relocatable instruction.
pub fn resolve_func_relocs(body: &Option<FuncBody>, reloc_spans: &Vec<usize>, linking: &mut KeySet) -> (res:
    Result<Vec<ParsedRelocInstruction>, Error>)
    ensures
        match spec_resolve_func_relocs(*body, reloc_spans@) {
            Some(v) => res matches Ok(r) && reloc_view(r@) == v && final(linking)@ == old(
                linking,
            )@.union(relocated_targets(v)),
            None => res is Err,
        },
{
    let b = match body {
        None => {
            let r: Vec<ParsedRelocInstruction> = Vec::new();
            assert(reloc_view(r@) =~= seq![]);
            assert(linking@ =~= old(linking)@.union(relocated_targets(seq![])));
            return Ok(r);
        },
        Some(b) => b,
    };
    let ghost start = linking@;
    let use_spans = reloc_spans.len() > 0;
    let n = b.instrs.len();
    let empty_spans: Vec<usize> = Vec::new();
    let spans: &Vec<usize> = if use_spans {
        match &b.instr_spans {
            None => return Err(Error::new(0, ErrorKind::Inconsistent)),
            Some(sp) => {
                if sp.len() < n {
                    return Err(Error::new(0, ErrorKind::Inconsistent));
                }
                sp
            },
        }
    } else {
        &empty_spans
    };
    let ghost spans_seq: Seq<usize> = if use_spans {
        spans@
    } else {
        Seq::new(n as nat, |i: int| 0usize)
    };
    let ghost instrs = b.instrs@;
    let ghost relocs = reloc_spans@;
    let ghost whole = match_relocs(instrs, spans_seq, relocs, use_spans);
    assert(whole == spec_resolve_func_relocs(*body, reloc_spans@));
    let mut out: Vec<ParsedRelocInstruction> = Vec::new();
    let mut i: usize = 0;
    let mut r: usize = 0;
    proof {
        assert(instrs.skip(0) =~= instrs);
        assert(spans_seq.skip(0) =~= spans_seq);
        assert(relocs.skip(0) =~= relocs);
        if let Some(w) = whole {
            assert(reloc_view(out@) + w =~= w);
        }
        assert(linking@ =~= start.union(relocated_targets(reloc_view(out@))));
    }
    while i < n
        invariant
            n == b.instrs.len(),
            instrs == b.instrs@,
            relocs == reloc_spans@,
            use_spans == (relocs.len() > 0),
            use_spans ==> spans@ == spans_seq,
            spans_seq.len() >= n,
            i <= n,
            r <= relocs.len(),
            whole == match_relocs(instrs, spans_seq, relocs, use_spans),
            whole == spec_resolve_func_relocs(*body, reloc_spans@),
            start == old(linking)@,
            whole == prepend_view(
                reloc_view(out@),
                match_relocs(
                    instrs.skip(i as int),
                    spans_seq.skip(i as int),
                    relocs.skip(r as int),
                    use_spans,
                ),
            ),
            linking@ == start.union(relocated_targets(reloc_view(out@))),
        decreases n - i,
    {
        let ghost isuf = instrs.skip(i as int);
        let ghost ssuf = spans_seq.skip(i as int);
        proof {
            assert(isuf[0] == instrs[i as int]);
            assert(isuf.drop_first() =~= instrs.skip(i + 1));
            assert(ssuf[0] == spans_seq[i as int]);
            assert(ssuf.drop_first() =~= spans_seq.skip(i + 1));
        }
        let instr = &b.instrs[i];
        if !instr.is_resolved() {
            assert(isuf.len() > 0 && !instruction_resolved(isuf[0]));
            assert(match_relocs(isuf, ssuf, relocs.skip(r as int), use_spans) is None);
            return Err(Error::new(0, ErrorKind::Inconsistent));
        }
        let targets = match instruction_targets(instr) {
            None => {
                i += 1;
                continue;
            },
            Some(t) => t,
        };
        let r0 = r;
        if use_spans {
            let span = spans[i];
            while r < reloc_spans.len() && reloc_spans[r] == span
                invariant
                    relocs == reloc_spans@,
                    r0 <= r <= relocs.len(),
                    leading_equal(relocs.skip(r0 as int), span) == (r - r0) + leading_equal(
                        relocs.skip(r as int),
                        span,
                    ),
                decreases relocs.len() - r,
            {
                proof {
                    assert(relocs.skip(r as int).drop_first() =~= relocs.skip(r + 1));
                }
                r += 1;
            }
            proof {
                assert(leading_equal(relocs.skip(r as int), span) == 0);
                assert(relocs.skip(r0 as int).skip((r - r0) as int) =~= relocs.skip(r as int));
            }
        } else {
            assert(relocs.skip(r0 as int).skip(0) =~= relocs.skip(r as int));
        }
        let has_reloc = r > r0;
        if has_reloc {
            linking.extend(&targets);
        }
        let ghost entry = (has_reloc, targets@);
        let ghost before = out@;
        out.push(ParsedRelocInstruction { has_reloc, targets });
        proof {
            assert(reloc_view(out@) =~= reloc_view(before).push(entry));
            lemma_relocated_targets_push(reloc_view(before), entry);
            assert(linking@ =~= start.union(relocated_targets(reloc_view(out@))));
            if let Some(rest) = match_relocs(instrs.skip(i + 1), spans_seq.skip(i + 1), relocs.skip(r as int), use_spans) {
                assert(reloc_view(before) + (seq![entry] + rest) =~= reloc_view(out@) + rest);
            }
        }
        i += 1;
    }
    proof {
        assert(instrs.skip(i as int) =~= Seq::<RelocInstruction>::empty());
    }
    if r < reloc_spans.len() {
        return Err(Error::new(reloc_spans[r], ErrorKind::Inconsistent));
    }
    proof {
        assert(relocs.skip(r as int) =~= Seq::<usize>::empty());
        assert(reloc_view(out@) + seq![] =~= reloc_view(out@));
    }
    Ok(out)
}


/// The name a symbol takes from an annotation and an identifier: the explicit
/// name, else the identifier.
pub open spec fn spec_inferred_symbol_name(sym: SymbolAnnotation, id: Option<String>) -> Option<String> {
    match sym {
        SymbolAnnotation::Explicit(name) => Some(name),
        _ => id,
    }
}

/// The name of a defined function's symbol is its explicit `@sym` name if
/// it has one, and otherwise its identifier, whether its `@sym` is
/// `(@sym)` or missing; a function with an identifier always has a name.
pub proof fn law_defined_function_name(
    st: BuilderState,
    id: Option<String>,
    span: usize,
    body: Option<FuncBody>,
    ann: FuncAnnotation,
)
    ensures
        spec_visit_func(st, id, span, body, ann) matches Some(st2) ==> {
            let name = st2.defined_funcs.last().0;
            &&& st2.defined_funcs.len() == st.defined_funcs.len() + 1
            &&& (ann.sym matches SymbolAnnotation::Explicit(n) ==> name == Some(n))
            &&& (!(ann.sym is Explicit) ==> name == id)
            &&& (id is Some ==> name is Some)
            &&& (ann.sym.spec_is_present() ==> st2.linking.contains(
                SymbolKey::Function((st.imported_functions.len() + st.defined_funcs.len()) as u32),
            ))
            &&& st.linking.subset_of(st2.linking)
        },
{
}

/// An imported function takes the next function index after the functions
/// imported before it, and needs a symbol there where it carries `@sym`; an
/// imported table takes the next table index and always needs a symbol.
pub proof fn law_import_indices(st: BuilderState, sym: SymbolAnnotation)
    ensures
        push_function(st, sym).imported_functions == st.imported_functions.push(sym),
        sym.spec_is_present() ==> push_function(st, sym).linking.contains(
            SymbolKey::Function(st.imported_functions.len() as u32),
        ),
        st.linking.subset_of(push_function(st, sym).linking),
        push_table(st, sym).imported_tables == st.imported_tables.push(sym),
        push_table(st, sym).linking.contains(SymbolKey::Table(st.imported_tables.len() as u32)),
        st.linking.subset_of(push_table(st, sym).linking),
{
}

/// A defined function whose index needs a symbol, and that has a name, gets
/// a `FunctionDefined` symbol under its index: the number of imported
/// functions plus its position among the defined functions.
pub proof fn law_defined_function_symbols_listed(
    funcs: Seq<(Option<String>, Seq<(bool, Seq<SymbolKey>)>, usize)>,
    base: int,
    linking: Set<SymbolKey>,
    n: int,
    k: int,
)
    requires
        0 <= k < n <= funcs.len(),
        0 <= base,
        base + n <= u32::MAX,
        linking.contains(SymbolKey::Function((base + k) as u32)),
        funcs[k].0 is Some,
    ensures
        defined_function_symbols(funcs, base, linking, n) matches Ok(syms) ==> syms.contains(
            Symbol::FunctionDefined { index: (base + k) as u32, symbol_name: funcs[k].0->Some_0 },
        ),
    decreases n,
{
    if k < n - 1 {
        law_defined_function_symbols_listed(funcs, base, linking, n - 1, k);
        if let Ok(syms) = defined_function_symbols(funcs, base, linking, n) {
            let prev = defined_function_symbols(funcs, base, linking, n - 1)->Ok_0;
            let x = Symbol::FunctionDefined { index: (base + k) as u32, symbol_name: funcs[k].0->Some_0 };
            let j = choose|j: int| 0 <= j < prev.len() && prev[j] == x;
            assert(syms[j] == prev[j]);
        }
    } else {
        if let Ok(syms) = defined_function_symbols(funcs, base, linking, n) {
            let prev = defined_function_symbols(funcs, base, linking, n - 1)->Ok_0;
            assert(syms[prev.len() as int] == Symbol::FunctionDefined {
                index: (base + k) as u32,
                symbol_name: funcs[k].0->Some_0,
            });
        }
    }
}

/// A defined function or table that needs a symbol but has no name is the
/// only way the symbol table fails for want of a name: with every needed
/// defined function named, no `UnnamedFunctionSymbol` error arises.
pub proof fn law_named_functions_never_unnamed(
    funcs: Seq<(Option<String>, Seq<(bool, Seq<SymbolKey>)>, usize)>,
    base: int,
    linking: Set<SymbolKey>,
    n: int,
)
    requires
        n <= funcs.len(),
        forall|k: int| 0 <= k < n ==> (#[trigger] funcs[k]).0 is Some,
    ensures
        defined_function_symbols(funcs, base, linking, n) is Ok,
    decreases n,
{
    if n > 0 {
        law_named_functions_never_unnamed(funcs, base, linking, n - 1);
    }
}

/// A table defined in the module takes the next index after the imported
/// tables and the tables defined before it; where it carries `@sym`, that
/// index needs a symbol, named by its explicit `@sym` name or otherwise its
/// identifier.
pub proof fn law_defined_table_symbol(
    st: BuilderState,
    id: Option<String>,
    span: usize,
    sym: SymbolAnnotation,
)
    ensures
        ({
            let st2 = spec_visit_table(st, id, span, false, sym);
            let index = (st.imported_tables.len() + st.defined_tables.len()) as u32;
            &&& st2.defined_tables.len() == st.defined_tables.len() + 1
            &&& st2.imported_tables == st.imported_tables
            &&& (sym.spec_is_present() ==> st2.linking.contains(SymbolKey::Table(index)))
            &&& (sym.spec_is_present() ==> st2.linking == st.linking.insert(SymbolKey::Table(index)))
            &&& (sym matches SymbolAnnotation::Explicit(n) ==> st2.defined_tables.last().symbol_name == Some(n))
            &&& (!(sym is Explicit) ==> st2.defined_tables.last().symbol_name == id)
        }),
{
}

/// A defined table whose index needs a symbol, and that has a name, gets a
/// `TableDefined` symbol under its index: the number of imported tables plus
/// its position among the defined tables.
pub proof fn law_defined_table_symbols_listed(
    tables: Seq<DefinedTable>,
    base: int,
    linking: Set<SymbolKey>,
    n: int,
    k: int,
)
    requires
        0 <= k < n <= tables.len(),
        0 <= base,
        base + n <= u32::MAX,
        linking.contains(SymbolKey::Table((base + k) as u32)),
        tables[k].symbol_name is Some,
    ensures
        defined_table_symbols(tables, base, linking, n) matches Ok(syms) ==> syms.contains(
            Symbol::TableDefined { index: (base + k) as u32, symbol_name: tables[k].symbol_name->Some_0 },
        ),
    decreases n,
{
    if k < n - 1 {
        law_defined_table_symbols_listed(tables, base, linking, n - 1, k);
        if let Ok(syms) = defined_table_symbols(tables, base, linking, n) {
            let prev = defined_table_symbols(tables, base, linking, n - 1)->Ok_0;
            let x = Symbol::TableDefined { index: (base + k) as u32, symbol_name: tables[k].symbol_name->Some_0 };
            let j = choose|j: int| 0 <= j < prev.len() && prev[j] == x;
            assert(syms[j] == prev[j]);
        }
    } else {
        if let Ok(syms) = defined_table_symbols(tables, base, linking, n) {
            let prev = defined_table_symbols(tables, base, linking, n - 1)->Ok_0;
            assert(syms[prev.len() as int] == Symbol::TableDefined {
                index: (base + k) as u32,
                symbol_name: tables[k].symbol_name->Some_0,
            });
        }
    }
}

/// The name a symbol takes from `sym` and the item's identifier `id`.
pub fn inferred_symbol_name(sym: &SymbolAnnotation, id: &Option<String>) -> (name: Option<String>)
    ensures
        name == spec_inferred_symbol_name(*sym, *id),
{
    match sym {
        SymbolAnnotation::Explicit(name) => Some(name.clone()),
        SymbolAnnotation::Missing | SymbolAnnotation::Inferred => id.clone(),
    }
}

/// A defined function as (symbol name, relocatable instructions, source
/// offset).
pub open spec fn func_view(f: DefinedFunc) -> (Option<String>, Seq<(bool, Seq<SymbolKey>)>, usize) {
    (f.symbol_name, reloc_view(f.reloc_instrs@), f.span)
}

/// What the symbol table is decided from: the annotations of imported
/// functions and tables, the defined functions and tables, and the items that
/// need a symbol.
pub struct BuilderState {
    pub imported_functions: Seq<SymbolAnnotation>,
    pub imported_tables: Seq<SymbolAnnotation>,
    pub defined_funcs: Seq<(Option<String>, Seq<(bool, Seq<SymbolKey>)>, usize)>,
    pub defined_tables: Seq<DefinedTable>,
    pub linking: Set<SymbolKey>,
}

/// Gathers what the symbol table is decided from, field by field.
pub struct LinkInfoBuilder {
    pub imported_functions: Vec<SymbolAnnotation>,
    pub imported_tables: Vec<SymbolAnnotation>,
    pub defined_funcs: Vec<DefinedFunc>,
    pub defined_tables: Vec<DefinedTable>,
    pub linking: KeySet,
}

impl View for LinkInfoBuilder {
    type V = BuilderState;

    open spec fn view(&self) -> BuilderState {
        BuilderState {
            imported_functions: self.imported_functions@,
            imported_tables: self.imported_tables@,
            defined_funcs: self.defined_funcs@.map_values(|f: DefinedFunc| func_view(f)),
            defined_tables: self.defined_tables@,
            linking: self.linking@,
        }
    }
}

/// The function and table index spaces still fit in `u32` after `f` more
/// functions and `t` more tables.
pub open spec fn fits(st: BuilderState, f: int, t: int) -> bool {
    &&& st.imported_functions.len() + st.defined_funcs.len() + f <= u32::MAX
    &&& st.imported_tables.len() + st.defined_tables.len() + t <= u32::MAX
}

pub open spec fn empty_state() -> BuilderState {
    BuilderState {
        imported_functions: seq![],
        imported_tables: seq![],
        defined_funcs: seq![],
        defined_tables: seq![],
        linking: Set::empty(),
    }
}

/// An imported function: it needs a symbol where it carries `@sym`.
pub open spec fn push_function(st: BuilderState, sym: SymbolAnnotation) -> BuilderState {
    let index = st.imported_functions.len() as u32;
    BuilderState {
        imported_functions: st.imported_functions.push(sym),
        linking: if sym.spec_is_present() {
            st.linking.insert(SymbolKey::Function(index))
        } else {
            st.linking
        },
        ..st
    }
}

/// An imported table: it always needs a symbol, since an object file's tables
/// must all have symbols once one has.
pub open spec fn push_table(st: BuilderState, sym: SymbolAnnotation) -> BuilderState {
    let index = st.imported_tables.len() as u32;
    BuilderState {
        imported_tables: st.imported_tables.push(sym),
        linking: st.linking.insert(SymbolKey::Table(index)),
        ..st
    }
}

/// The items of an `import` field, paired with their annotations.
pub open spec fn spec_visit_import(
    st: BuilderState,
    kinds: Seq<ImportItemKind>,
    syms: Seq<SymbolAnnotation>,
) -> Option<BuilderState>
    decreases kinds.len(),
{
    if kinds.len() == 0 || syms.len() == 0 {
        Some(st)
    } else {
        let next = match kinds[0] {
            ImportItemKind::Func => if fits(st, 1, 0) {
                Some(push_function(st, syms[0]))
            } else {
                None
            },
            ImportItemKind::Table => if fits(st, 0, 1) {
                Some(push_table(st, syms[0]))
            } else {
                None
            },
            ImportItemKind::Tag => if syms[0].spec_is_present() {
                None
            } else {
                Some(st)
            },
            ImportItemKind::Other => Some(st),
        };
        match next {
            Some(st2) => spec_visit_import(st2, kinds.drop_first(), syms.drop_first()),
            None => None,
        }
    }
}

/// A defined function: its relocated targets need symbols, and so does the
/// function where it carries `@sym`.
pub open spec fn spec_visit_func(
    st: BuilderState,
    id: Option<String>,
    span: usize,
    body: Option<FuncBody>,
    ann: FuncAnnotation,
) -> Option<BuilderState> {
    match spec_resolve_func_relocs(body, ann.reloc_spans@) {
        None => None,
        Some(v) => {
            let index = (st.imported_functions.len() + st.defined_funcs.len()) as u32;
            let linking = st.linking.union(relocated_targets(v));
            Some(
                BuilderState {
                    defined_funcs: st.defined_funcs.push(
                        (spec_inferred_symbol_name(ann.sym, id), v, span),
                    ),
                    linking: if ann.sym.spec_is_present() {
                        linking.insert(SymbolKey::Function(index))
                    } else {
                        linking
                    },
                    ..st
                },
            )
        },
    }
}

/// A `table` field: imported, or defined and needing a symbol where it
/// carries `@sym`.
pub open spec fn spec_visit_table(
    st: BuilderState,
    id: Option<String>,
    span: usize,
    imported: bool,
    sym: SymbolAnnotation,
) -> BuilderState {
    if imported {
        push_table(st, sym)
    } else {
        let index = (st.imported_tables.len() + st.defined_tables.len()) as u32;
        BuilderState {
            defined_tables: st.defined_tables.push(
                DefinedTable { symbol_name: spec_inferred_symbol_name(sym, id), span },
            ),
            linking: if sym.spec_is_present() {
                st.linking.insert(SymbolKey::Table(index))
            } else {
                st.linking
            },
            ..st
        }
    }
}

/// The state after all fields, each consuming the next annotation of its
/// kind; `None` where the annotations do not line up with the fields or an
/// index space would outgrow `u32`.
pub open spec fn spec_visit_fields(
    st: BuilderState,
    fields: Seq<ModuleItem>,
    imports: Seq<RelocImports>,
    funcs: Seq<FuncAnnotation>,
    tables: Seq<TableAnnotation>,
) -> Option<BuilderState>
    decreases fields.len(),
{
    if fields.len() == 0 {
        if imports.len() == 0 && funcs.len() == 0 && tables.len() == 0 {
            Some(st)
        } else {
            None
        }
    } else {
        match fields[0] {
            ModuleItem::Import { kinds } => if imports.len() == 0 {
                None
            } else {
                match spec_visit_import(st, kinds@, imports[0].syms@) {
                    Some(st2) => spec_visit_fields(
                        st2,
                        fields.drop_first(),
                        imports.drop_first(),
                        funcs,
                        tables,
                    ),
                    None => None,
                }
            },
            ModuleItem::Func { id, span, body } => if funcs.len() == 0 || !fits(st, 1, 0) {
                None
            } else {
                match spec_visit_func(st, id, span, body, funcs[0]) {
                    Some(st2) => spec_visit_fields(
                        st2,
                        fields.drop_first(),
                        imports,
                        funcs.drop_first(),
                        tables,
                    ),
                    None => None,
                }
            },
            ModuleItem::Table { id, span, imported } => if tables.len() == 0 || !fits(st, 0, 1) {
                None
            } else {
                spec_visit_fields(
                    spec_visit_table(st, id, span, imported, tables[0].sym),
                    fields.drop_first(),
                    imports,
                    funcs,
                    tables.drop_first(),
                )
            },
            ModuleItem::Other => spec_visit_fields(st, fields.drop_first(), imports, funcs, tables),
        }
    }
}

impl LinkInfoBuilder {
    pub open spec fn well_formed(&self) -> bool {
        fits(self@, 0, 0)
    }

    pub fn new() -> (b: LinkInfoBuilder)
        ensures
            b@ == empty_state(),
            b.well_formed(),
    {
        let b = LinkInfoBuilder {
            imported_functions: Vec::new(),
            imported_tables: Vec::new(),
            defined_funcs: Vec::new(),
            defined_tables: Vec::new(),
            linking: KeySet::new(),
        };
        assert(b@.defined_funcs =~= seq![]);
        b
    }

    fn next_defined_function_index(&self) -> (index: u32)
        requires
            self.well_formed(),
        ensures
            index == self.imported_functions.len() + self.defined_funcs.len(),
    {
        (self.imported_functions.len() + self.defined_funcs.len()) as u32
    }

    fn next_defined_table_index(&self) -> (index: u32)
        requires
            self.well_formed(),
        ensures
            index == self.imported_tables.len() + self.defined_tables.len(),
    {
        (self.imported_tables.len() + self.defined_tables.len()) as u32
    }

    fn mark_function_if_present(&mut self, index: u32, sym: &SymbolAnnotation)
        ensures
            final(self)@ == (BuilderState {
                linking: if sym.spec_is_present() {
                    old(self)@.linking.insert(SymbolKey::Function(index))
                } else {
                    old(self)@.linking
                },
                ..old(self)@
            }),
    {
        if sym.is_present() {
            self.linking.insert(SymbolKey::Function(index));
        }
    }

    fn mark_table_if_present(&mut self, index: u32, sym: &SymbolAnnotation)
        ensures
            final(self)@ == (BuilderState {
                linking: if sym.spec_is_present() {
                    old(self)@.linking.insert(SymbolKey::Table(index))
                } else {
                    old(self)@.linking
                },
                ..old(self)@
            }),
    {
        if sym.is_present() {
            self.linking.insert(SymbolKey::Table(index));
        }
    }

    fn push_imported_function(&mut self, sym: SymbolAnnotation)
        requires
            fits(old(self)@, 1, 0),
        ensures
            final(self)@ == push_function(old(self)@, sym),
            final(self).well_formed(),
    {
        let index = self.imported_functions.len() as u32;
        self.mark_function_if_present(index, &sym);
        self.imported_functions.push(sym);
    }

    fn push_imported_table(&mut self, sym: SymbolAnnotation)
        requires
            fits(old(self)@, 0, 1),
        ensures
            final(self)@ == push_table(old(self)@, sym),
            final(self).well_formed(),
    {
        let index = self.imported_tables.len() as u32;
        self.linking.insert(SymbolKey::Table(index));
        self.imported_tables.push(sym);
    }

    /// Records the items of an `import` field with their annotations.
    fn visit_import(&mut self, kinds: &Vec<ImportItemKind>, annotation: &RelocImports) -> (res:
        Result<(), Error>)
        requires
            old(self).well_formed(),
        ensures
            match spec_visit_import(old(self)@, kinds@, annotation.syms@) {
                Some(st) => res is Ok && final(self)@ == st && final(self).well_formed(),
                None => res is Err,
            },
    {
        let ghost start = self@;
        let mut i: usize = 0;
        proof {
            assert(kinds@.skip(0) =~= kinds@);
            assert(annotation.syms@.skip(0) =~= annotation.syms@);
        }
        while i < kinds.len() && i < annotation.syms.len()
            invariant
                i <= kinds.len(),
                i <= annotation.syms.len(),
                self.well_formed(),
                start == old(self)@,
                spec_visit_import(start, kinds@, annotation.syms@) == spec_visit_import(
                    self@,
                    kinds@.skip(i as int),
                    annotation.syms@.skip(i as int),
                ),
            decreases kinds.len() - i,
        {
            proof {
                assert(kinds@.skip(i as int).drop_first() =~= kinds@.skip(i + 1));
                assert(annotation.syms@.skip(i as int).drop_first() =~= annotation.syms@.skip(i + 1));
                assert(kinds@.skip(i as int)[0] == kinds@[i as int]);
                assert(annotation.syms@.skip(i as int)[0] == annotation.syms@[i as int]);
            }
            match kinds[i] {
                ImportItemKind::Func => {
                    if self.imported_functions.len() + self.defined_funcs.len() >= 0xffff_ffff {
                        assert(!fits(self@, 1, 0));
                        return Err(Error::new(0, ErrorKind::Inconsistent));
                    }
                    self.push_imported_function(annotation.syms[i].duplicate());
                },
                ImportItemKind::Table => {
                    if self.imported_tables.len() + self.defined_tables.len() >= 0xffff_ffff {
                        assert(!fits(self@, 0, 1));
                        return Err(Error::new(0, ErrorKind::Inconsistent));
                    }
                    self.push_imported_table(annotation.syms[i].duplicate());
                },
                ImportItemKind::Tag => {
                    if annotation.syms[i].is_present() {
                        return Err(Error::new(0, ErrorKind::TagSymbolUnsupported));
                    }
                },
                ImportItemKind::Other => {},
            }
            i += 1;
        }
        proof {
            if i == kinds.len() {
                assert(kinds@.skip(i as int).len() == 0);
            } else {
                assert(annotation.syms@.skip(i as int).len() == 0);
            }
        }
        Ok(())
    }
}


impl LinkInfoBuilder {
    /// Records a defined function: its symbol name, its relocatable
    /// instructions, and which items need symbols.
    fn visit_func(
        &mut self,
        id: &Option<String>,
        span: usize,
        body: &Option<FuncBody>,
        annotation: &FuncAnnotation,
    ) -> (res: Result<(), Error>)
        requires
            old(self).well_formed(),
            fits(old(self)@, 1, 0),
        ensures
            match spec_visit_func(old(self)@, *id, span, *body, *annotation) {
                Some(st) => res is Ok && final(self)@ == st && final(self).well_formed(),
                None => res is Err,
            },
    {
        let index = self.next_defined_function_index();
        let symbol_name = inferred_symbol_name(&annotation.sym, id);
        let reloc_instrs = match resolve_func_relocs(body, &annotation.reloc_spans, &mut self.linking) {
            Ok(r) => r,
            Err(e) => return Err(e),
        };
        self.mark_function_if_present(index, &annotation.sym);
        let f = DefinedFunc { symbol_name, reloc_instrs, span };
        let ghost before = self.defined_funcs@;
        self.defined_funcs.push(f);
        assert(self.defined_funcs@.map_values(|f: DefinedFunc| func_view(f)) =~= before.map_values(
            |f: DefinedFunc| func_view(f),
        ).push(func_view(f)));
        Ok(())
    }

    /// Records a `table` field.
    fn visit_table(&mut self, id: &Option<String>, span: usize, imported: bool, annotation: &TableAnnotation)
        requires
            old(self).well_formed(),
            fits(old(self)@, 0, 1),
        ensures
            final(self)@ == spec_visit_table(old(self)@, *id, span, imported, annotation.sym),
            final(self).well_formed(),
    {
        if imported {
            self.push_imported_table(annotation.sym.duplicate());
        } else {
            let index = self.next_defined_table_index();
            self.mark_table_if_present(index, &annotation.sym);
            self.defined_tables.push(
                DefinedTable { symbol_name: inferred_symbol_name(&annotation.sym, id), span },
            );
        }
    }
}

/// Gathers, field by field, what the symbol table is decided from, pairing
/// each import, function and table field with the next annotation of its
/// kind, and then numbers the symbols.
pub fn build_link_info(rwat: &RelocWat, fields: &Vec<ModuleItem>) -> (res: Result<LinkInfo, Error>)
    ensures
        match spec_visit_fields(
            empty_state(),
            fields@,
            rwat.import_annotations@,
            rwat.func_annotations@,
            rwat.table_annotations@,
        ) {
            Some(st) => match spec_finish(st) {
                Ok(symbols) => res matches Ok(info) && info.symbols@ == symbols
                    && info.symbol_indices@ == keys_map(symbols)
                    && info.defined_funcs@.map_values(|f: DefinedFunc| func_view(f))
                    == st.defined_funcs,
                Err(e) => res == Err::<LinkInfo, Error>(e),
            },
            None => res is Err,
        },
{
    let mut builder = LinkInfoBuilder::new();
    let ghost ias = rwat.import_annotations@;
    let ghost fas = rwat.func_annotations@;
    let ghost tas = rwat.table_annotations@;
    let ghost whole = spec_visit_fields(empty_state(), fields@, ias, fas, tas);
    let mut i: usize = 0;
    let mut ia: usize = 0;
    let mut fa: usize = 0;
    let mut ta: usize = 0;
    proof {
        assert(fields@.skip(0) =~= fields@);
        assert(ias.skip(0) =~= ias);
        assert(fas.skip(0) =~= fas);
        assert(tas.skip(0) =~= tas);
    }
    while i < fields.len()
        invariant
            i <= fields.len(),
            ia <= ias.len(),
            fa <= fas.len(),
            ta <= tas.len(),
            ias == rwat.import_annotations@,
            fas == rwat.func_annotations@,
            tas == rwat.table_annotations@,
            builder.well_formed(),
            whole == spec_visit_fields(empty_state(), fields@, ias, fas, tas),
            whole == spec_visit_fields(
                builder@,
                fields@.skip(i as int),
                ias.skip(ia as int),
                fas.skip(fa as int),
                tas.skip(ta as int),
            ),
        decreases fields.len() - i,
    {
        proof {
            assert(fields@.skip(i as int)[0] == fields@[i as int]);
            assert(fields@.skip(i as int).drop_first() =~= fields@.skip(i + 1));
        }
        match &fields[i] {
            ModuleItem::Import { kinds } => {
                if ia >= rwat.import_annotations.len() {
                    return Err(Error::new(0, ErrorKind::Inconsistent));
                }
                proof {
                    assert(ias.skip(ia as int)[0] == ias[ia as int]);
                    assert(ias.skip(ia as int).drop_first() =~= ias.skip(ia + 1));
                }
                match builder.visit_import(kinds, &rwat.import_annotations[ia]) {
                    Ok(()) => {},
                    Err(e) => return Err(e),
                }
                ia += 1;
            },
            ModuleItem::Func { id, span, body } => {
                if fa >= rwat.func_annotations.len() {
                    return Err(Error::new(*span, ErrorKind::Inconsistent));
                }
                if builder.imported_functions.len() + builder.defined_funcs.len() >= 0xffff_ffff {
                    return Err(Error::new(*span, ErrorKind::Inconsistent));
                }
                proof {
                    assert(fas.skip(fa as int)[0] == fas[fa as int]);
                    assert(fas.skip(fa as int).drop_first() =~= fas.skip(fa + 1));
                }
                match builder.visit_func(id, *span, body, &rwat.func_annotations[fa]) {
                    Ok(()) => {},
                    Err(e) => return Err(e),
                }
                fa += 1;
            },
            ModuleItem::Table { id, span, imported } => {
                if ta >= rwat.table_annotations.len() {
                    return Err(Error::new(*span, ErrorKind::Inconsistent));
                }
                if builder.imported_tables.len() + builder.defined_tables.len() >= 0xffff_ffff {
                    return Err(Error::new(*span, ErrorKind::Inconsistent));
                }
                proof {
                    assert(tas.skip(ta as int)[0] == tas[ta as int]);
                    assert(tas.skip(ta as int).drop_first() =~= tas.skip(ta + 1));
                }
                builder.visit_table(id, *span, *imported, &rwat.table_annotations[ta]);
                ta += 1;
            },
            ModuleItem::Other => {},
        }
        i += 1;
    }
    if ia < rwat.import_annotations.len() || fa < rwat.func_annotations.len() || ta
        < rwat.table_annotations.len() {
        assert(fields@.skip(i as int).len() == 0);
        return Err(Error::new(0, ErrorKind::Inconsistent));
    }
    proof {
        assert(fields@.skip(i as int).len() == 0);
        assert(ias.skip(ia as int).len() == 0);
        assert(fas.skip(fa as int).len() == 0);
        assert(tas.skip(ta as int).len() == 0);
    }
    builder.finish()
}


/// The symbol index of each item: its position among `symbols`.
pub open spec fn keys_map(symbols: Seq<Symbol>) -> Map<SymbolKey, u32>
    decreases symbols.len(),
{
    if symbols.len() == 0 {
        Map::empty()
    } else {
        keys_map(symbols.drop_last()).insert(symbols.last().key(), (symbols.len() - 1) as u32)
    }
}

/// Records that the symbol of `key` is the next one, at position
/// `symbols.len()`.
pub fn insert_symbol_index(symbol_indices: &mut SymbolIndices, symbols: &Vec<Symbol>, key: SymbolKey)
    requires
        symbols.len() <= u32::MAX,
    ensures
        final(symbol_indices)@ == old(symbol_indices)@.insert(key, symbols.len() as u32),
{
    symbol_indices.insert(key, symbols.len() as u32);
}

/// The symbols of the first `n` imported functions (or tables) that need
/// one, in index order.
pub open spec fn import_symbols(
    syms: Seq<SymbolAnnotation>,
    linking: Set<SymbolKey>,
    tables: bool,
    n: int,
) -> Seq<Symbol>
    decreases n,
{
    if n <= 0 {
        seq![]
    } else {
        let i = (n - 1) as u32;
        let key = if tables {
            SymbolKey::Table(i)
        } else {
            SymbolKey::Function(i)
        };
        import_symbols(syms, linking, tables, n - 1) + if linking.contains(key) {
            seq![
                if tables {
                    Symbol::TableImport { index: i, explicit_name: syms[n - 1].spec_explicit_name() }
                } else {
                    Symbol::FunctionImport {
                        index: i,
                        explicit_name: syms[n - 1].spec_explicit_name(),
                    }
                },
            ]
        } else {
            seq![]
        }
    }
}

/// The symbols of the first `n` defined functions that need one, in index
/// order (`base` is the number of imported functions); the source offset of
/// the first of them without a name, if any.
pub open spec fn defined_function_symbols(
    funcs: Seq<(Option<String>, Seq<(bool, Seq<SymbolKey>)>, usize)>,
    base: int,
    linking: Set<SymbolKey>,
    n: int,
) -> Result<Seq<Symbol>, usize>
    decreases n,
{
    if n <= 0 {
        Ok(seq![])
    } else {
        match defined_function_symbols(funcs, base, linking, n - 1) {
            Err(span) => Err(span),
            Ok(prev) => {
                let index = (base + n - 1) as u32;
                if linking.contains(SymbolKey::Function(index)) {
                    match funcs[n - 1].0 {
                        Some(name) => Ok(
                            prev.push(Symbol::FunctionDefined { index, symbol_name: name }),
                        ),
                        None => Err(funcs[n - 1].2),
                    }
                } else {
                    Ok(prev)
                }
            },
        }
    }
}

/// The symbols of the first `n` defined tables that need one.
pub open spec fn defined_table_symbols(
    tables: Seq<DefinedTable>,
    base: int,
    linking: Set<SymbolKey>,
    n: int,
) -> Result<Seq<Symbol>, usize>
    decreases n,
{
    if n <= 0 {
        Ok(seq![])
    } else {
        match defined_table_symbols(tables, base, linking, n - 1) {
            Err(span) => Err(span),
            Ok(prev) => {
                let index = (base + n - 1) as u32;
                if linking.contains(SymbolKey::Table(index)) {
                    match tables[n - 1].symbol_name {
                        Some(name) => Ok(prev.push(Symbol::TableDefined { index, symbol_name: name })),
                        None => Err(tables[n - 1].span),
                    }
                } else {
                    Ok(prev)
                }
            },
        }
    }
}

/// The symbol table: imported functions, defined functions, imported tables,
/// defined tables, each in index order, for the items that need a symbol. A
/// defined item that needs one must have a name.
pub open spec fn spec_finish(st: BuilderState) -> Result<Seq<Symbol>, Error> {
    let nif = st.imported_functions.len() as int;
    let nit = st.imported_tables.len() as int;
    if nif + st.defined_funcs.len() + nit + st.defined_tables.len() > u32::MAX {
        Err(Error { offset: 0, kind: ErrorKind::Inconsistent })
    } else {
        let a = import_symbols(st.imported_functions, st.linking, false, nif);
        match defined_function_symbols(st.defined_funcs, nif, st.linking, st.defined_funcs.len() as int) {
            Err(span) => Err(Error { offset: span, kind: ErrorKind::UnnamedFunctionSymbol }),
            Ok(b) => {
                let c = import_symbols(st.imported_tables, st.linking, true, nit);
                match defined_table_symbols(st.defined_tables, nit, st.linking, st.defined_tables.len() as int) {
                    Err(span) => Err(Error { offset: span, kind: ErrorKind::UnnamedTableSymbol }),
                    Ok(d) => Ok(a + b + c + d),
                }
            },
        }
    }
}

proof fn lemma_import_symbols_len(syms: Seq<SymbolAnnotation>, linking: Set<SymbolKey>, tables: bool, n: int)
    ensures
        import_symbols(syms, linking, tables, n).len() <= if n < 0 { 0 } else { n },
    decreases n,
{
    if n > 0 {
        lemma_import_symbols_len(syms, linking, tables, n - 1);
    }
}

proof fn lemma_defined_function_symbols(
    funcs: Seq<(Option<String>, Seq<(bool, Seq<SymbolKey>)>, usize)>,
    base: int,
    linking: Set<SymbolKey>,
    n: int,
    m: int,
)
    requires
        0 <= n <= m,
    ensures
        defined_function_symbols(funcs, base, linking, n) is Err ==> defined_function_symbols(
            funcs,
            base,
            linking,
            m,
        ) == defined_function_symbols(funcs, base, linking, n),
        defined_function_symbols(funcs, base, linking, m) matches Ok(seg) ==> seg.len() <= m,
    decreases m,
{
    if m > 0 {
        if n < m {
            lemma_defined_function_symbols(funcs, base, linking, n, m - 1);
        } else {
            lemma_defined_function_symbols(funcs, base, linking, m - 1, m - 1);
        }
    }
}

proof fn lemma_defined_table_symbols(
    tables: Seq<DefinedTable>,
    base: int,
    linking: Set<SymbolKey>,
    n: int,
    m: int,
)
    requires
        0 <= n <= m,
    ensures
        defined_table_symbols(tables, base, linking, n) is Err ==> defined_table_symbols(
            tables,
            base,
            linking,
            m,
        ) == defined_table_symbols(tables, base, linking, n),
        defined_table_symbols(tables, base, linking, m) matches Ok(seg) ==> seg.len() <= m,
    decreases m,
{
    if m > 0 {
        if n < m {
            lemma_defined_table_symbols(tables, base, linking, n, m - 1);
        } else {
            lemma_defined_table_symbols(tables, base, linking, m - 1, m - 1);
        }
    }
}

proof fn lemma_keys_map_push(symbols: Seq<Symbol>, s: Symbol)
    ensures
        keys_map(symbols.push(s)) == keys_map(symbols).insert(s.key(), symbols.len() as u32),
{
    assert(symbols.push(s).drop_last() =~= symbols);
}

impl LinkInfoBuilder {
    fn add_import_symbols(
        syms: &Vec<SymbolAnnotation>,
        linking: &KeySet,
        tables: bool,
        symbols: &mut Vec<Symbol>,
        symbol_indices: &mut SymbolIndices,
    )
        requires
            syms.len() <= u32::MAX,
            old(symbols).len() + syms.len() <= u32::MAX,
            old(symbol_indices)@ == keys_map(old(symbols)@),
        ensures
            final(symbols)@ == old(symbols)@ + import_symbols(syms@, linking@, tables, syms.len() as int),
            final(symbol_indices)@ == keys_map(final(symbols)@),
    {
        let ghost start = symbols@;
        let mut i: usize = 0;
        while i < syms.len()
            invariant
                i <= syms.len(),
                syms.len() <= u32::MAX,
                start.len() + syms.len() <= u32::MAX,
                symbols@ == start + import_symbols(syms@, linking@, tables, i as int),
                symbol_indices@ == keys_map(symbols@),
            decreases syms.len() - i,
        {
            proof {
                lemma_import_symbols_len(syms@, linking@, tables, i as int);
            }
            let index = i as u32;
            let key = if tables {
                SymbolKey::Table(index)
            } else {
                SymbolKey::Function(index)
            };
            if linking.contains(key) {
                insert_symbol_index(symbol_indices, symbols, key);
                let explicit_name = syms[i].explicit_name();
                let symbol = if tables {
                    Symbol::TableImport { index, explicit_name }
                } else {
                    Symbol::FunctionImport { index, explicit_name }
                };
                let ghost before = symbols@;
                symbols.push(symbol);
                proof {
                    lemma_keys_map_push(before, symbol);
                    assert(symbols@ =~= start + import_symbols(syms@, linking@, tables, i + 1));
                }
            } else {
                assert(symbols@ =~= start + import_symbols(syms@, linking@, tables, i + 1));
            }
            i += 1;
        }
    }

    fn add_imported_function_symbols(&self, symbols: &mut Vec<Symbol>, symbol_indices: &mut SymbolIndices)
        requires
            self.imported_functions.len() <= u32::MAX,
            old(symbols).len() + self.imported_functions.len() <= u32::MAX,
            old(symbol_indices)@ == keys_map(old(symbols)@),
        ensures
            final(symbols)@ == old(symbols)@ + import_symbols(
                self@.imported_functions,
                self@.linking,
                false,
                self.imported_functions.len() as int,
            ),
            final(symbol_indices)@ == keys_map(final(symbols)@),
    {
        Self::add_import_symbols(&self.imported_functions, &self.linking, false, symbols, symbol_indices);
    }

    fn add_imported_table_symbols(&self, symbols: &mut Vec<Symbol>, symbol_indices: &mut SymbolIndices)
        requires
            self.imported_tables.len() <= u32::MAX,
            old(symbols).len() + self.imported_tables.len() <= u32::MAX,
            old(symbol_indices)@ == keys_map(old(symbols)@),
        ensures
            final(symbols)@ == old(symbols)@ + import_symbols(
                self@.imported_tables,
                self@.linking,
                true,
                self.imported_tables.len() as int,
            ),
            final(symbol_indices)@ == keys_map(final(symbols)@),
    {
        Self::add_import_symbols(&self.imported_tables, &self.linking, true, symbols, symbol_indices);
    }

    fn add_defined_function_symbols(
        &self,
        num_imported_functions: u32,
        symbols: &mut Vec<Symbol>,
        symbol_indices: &mut SymbolIndices,
    ) -> (res: Result<(), Error>)
        requires
            num_imported_functions + self.defined_funcs.len() <= u32::MAX,
            old(symbols).len() + self.defined_funcs.len() <= u32::MAX,
            old(symbol_indices)@ == keys_map(old(symbols)@),
        ensures
            match defined_function_symbols(
                self@.defined_funcs,
                num_imported_functions as int,
                self@.linking,
                self.defined_funcs.len() as int,
            ) {
                Ok(seg) => res is Ok && final(symbols)@ == old(symbols)@ + seg && final(symbol_indices)@ == keys_map(final(symbols)@),
                Err(span) => res == Err::<(), Error>(
                    Error { offset: span, kind: ErrorKind::UnnamedFunctionSymbol },
                ),
            },
    {
        let ghost start = symbols@;
        let ghost funcs = self@.defined_funcs;
        let mut offset: usize = 0;
        while offset < self.defined_funcs.len()
            invariant
                offset <= self.defined_funcs.len(),
                funcs == self@.defined_funcs,
                num_imported_functions + self.defined_funcs.len() <= u32::MAX,
                start.len() + self.defined_funcs.len() <= u32::MAX,
                defined_function_symbols(funcs, num_imported_functions as int, self@.linking, offset as int)
                    matches Ok(seg) && symbols@ == start + seg && seg.len() <= offset,
                symbol_indices@ == keys_map(symbols@),
            decreases self.defined_funcs.len() - offset,
        {
            let func = &self.defined_funcs[offset];
            assert(funcs[offset as int] == func_view(*func));
            let index = num_imported_functions + offset as u32;
            let key = SymbolKey::Function(index);
            if self.linking.contains(key) {
                insert_symbol_index(symbol_indices, symbols, key);
                match &func.symbol_name {
                    None => {
                        proof {
                            lemma_defined_function_symbols(
                                funcs,
                                num_imported_functions as int,
                                self@.linking,
                                offset + 1,
                                self.defined_funcs.len() as int,
                            );
                        }
                        return Err(Error::new(func.span, ErrorKind::UnnamedFunctionSymbol));
                    },
                    Some(name) => {
                        let symbol = Symbol::FunctionDefined { index, symbol_name: name.clone() };
                        let ghost before = symbols@;
                        symbols.push(symbol);
                        proof {
                            lemma_keys_map_push(before, symbol);
                        }
                    },
                }
            }
            offset += 1;
        }
        Ok(())
    }

    fn add_defined_table_symbols(
        &self,
        num_imported_tables: u32,
        symbols: &mut Vec<Symbol>,
        symbol_indices: &mut SymbolIndices,
    ) -> (res: Result<(), Error>)
        requires
            num_imported_tables + self.defined_tables.len() <= u32::MAX,
            old(symbols).len() + self.defined_tables.len() <= u32::MAX,
            old(symbol_indices)@ == keys_map(old(symbols)@),
        ensures
            match defined_table_symbols(
                self@.defined_tables,
                num_imported_tables as int,
                self@.linking,
                self.defined_tables.len() as int,
            ) {
                Ok(seg) => res is Ok && final(symbols)@ == old(symbols)@ + seg && final(symbol_indices)@ == keys_map(final(symbols)@),
                Err(span) => res == Err::<(), Error>(
                    Error { offset: span, kind: ErrorKind::UnnamedTableSymbol },
                ),
            },
    {
        let ghost start = symbols@;
        let ghost tables = self@.defined_tables;
        let mut offset: usize = 0;
        while offset < self.defined_tables.len()
            invariant
                offset <= self.defined_tables.len(),
                tables == self@.defined_tables,
                num_imported_tables + self.defined_tables.len() <= u32::MAX,
                start.len() + self.defined_tables.len() <= u32::MAX,
                defined_table_symbols(tables, num_imported_tables as int, self@.linking, offset as int)
                    matches Ok(seg) && symbols@ == start + seg && seg.len() <= offset,
                symbol_indices@ == keys_map(symbols@),
            decreases self.defined_tables.len() - offset,
        {
            let table = &self.defined_tables[offset];
            let index = num_imported_tables + offset as u32;
            let key = SymbolKey::Table(index);
            if self.linking.contains(key) {
                insert_symbol_index(symbol_indices, symbols, key);
                match &table.symbol_name {
                    None => {
                        proof {
                            lemma_defined_table_symbols(
                                tables,
                                num_imported_tables as int,
                                self@.linking,
                                offset + 1,
                                self.defined_tables.len() as int,
                            );
                        }
                        return Err(Error::new(table.span, ErrorKind::UnnamedTableSymbol));
                    },
                    Some(name) => {
                        let symbol = Symbol::TableDefined { index, symbol_name: name.clone() };
                        let ghost before = symbols@;
                        symbols.push(symbol);
                        proof {
                            lemma_keys_map_push(before, symbol);
                        }
                    },
                }
            }
            offset += 1;
        }
        Ok(())
    }

    /// Numbers the symbols of every item that needs one.
    pub fn finish(self) -> (res: Result<LinkInfo, Error>)
        requires
            self.well_formed(),
        ensures
            match spec_finish(self@) {
                Ok(symbols) => res matches Ok(info) && info.symbols@ == symbols
                    && info.symbol_indices@ == keys_map(symbols)
                    && info.defined_funcs@.map_values(|f: DefinedFunc| func_view(f))
                    == self@.defined_funcs,
                Err(e) => res == Err::<LinkInfo, Error>(e),
            },
    {
        let nif = self.imported_functions.len();
        let nit = self.imported_tables.len();
        if nif + self.defined_funcs.len() > 0xffff_ffff - nit - self.defined_tables.len() {
            return Err(Error::new(0, ErrorKind::Inconsistent));
        }
        let num_imported_functions = nif as u32;
        let num_imported_tables = nit as u32;
        let mut symbols: Vec<Symbol> = Vec::new();
        let mut symbol_indices = SymbolIndices::new();
        proof {
            assert(keys_map(symbols@) =~= Map::<SymbolKey, u32>::empty());
            lemma_import_symbols_len(self@.imported_functions, self@.linking, false, nif as int);
            lemma_import_symbols_len(self@.imported_tables, self@.linking, true, nit as int);
        }
        self.add_imported_function_symbols(&mut symbols, &mut symbol_indices);
        match self.add_defined_function_symbols(num_imported_functions, &mut symbols, &mut symbol_indices) {
            Ok(()) => {},
            Err(e) => return Err(e),
        }
        proof {
            lemma_defined_function_symbols(
                self@.defined_funcs,
                nif as int,
                self@.linking,
                self.defined_funcs.len() as int,
                self.defined_funcs.len() as int,
            );
        }
        self.add_imported_table_symbols(&mut symbols, &mut symbol_indices);
        match self.add_defined_table_symbols(num_imported_tables, &mut symbols, &mut symbol_indices) {
            Ok(()) => {},
            Err(e) => return Err(e),
        }
        proof {
            let a = import_symbols(self@.imported_functions, self@.linking, false, nif as int);
            assert(symbols@.len() == a.len() + (symbols@.len() - a.len()));
        }
        Ok(LinkInfo { symbols, symbol_indices, defined_funcs: self.defined_funcs })
    }
}

} // verus!
