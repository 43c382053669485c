//! What holds of every symbol table the library builds: each item appears
//! at most once, an item's symbol index is its position in the table, the
//! table holds exactly the items that need a symbol, and every item that a
//! `@reloc` instruction refers to is among them.

use vstd::prelude::*;

use crate::error::Error;
use crate::link::{
    defined_function_symbols, defined_table_symbols, empty_state, import_symbols, keys_map, push_function,
    push_table, relocated_targets, spec_finish, spec_visit_fields, spec_visit_func, spec_visit_import,
    spec_visit_table, BuilderState, FuncAnnotation, ModuleItem, RelocImports, Symbol, TableAnnotation,
};
use crate::types::{DefinedTable, SymbolKey};

verus! {

/// The key of the `i`th item of the function (or table) index space.
pub open spec fn group_key(tables: bool, i: u32) -> SymbolKey {
    if tables {
        SymbolKey::Table(i)
    } else {
        SymbolKey::Function(i)
    }
}

/// `s` holds, in increasing index order, symbols of functions (or tables)
/// with indices in `lo..hi`, each of an item in `linking`.
pub open spec fn run_of(s: Seq<Symbol>, tables: bool, lo: int, hi: int, linking: Set<SymbolKey>) -> bool {
    &&& forall|i: int|
        #![trigger s[i]]
        0 <= i < s.len() ==> {
            &&& s[i].key() == group_key(tables, s[i].key().spec_index())
            &&& lo <= s[i].key().spec_index() < hi
            &&& linking.contains(s[i].key())
        }
    &&& forall|i: int, j: int|
        #![trigger s[i], s[j]]
        0 <= i < j < s.len() ==> s[i].key().spec_index() < s[j].key().spec_index()
}

/// Every function (or table) with an index in `lo..hi` that `linking` holds
/// has a symbol in `s`.
pub open spec fn covers(s: Seq<Symbol>, tables: bool, lo: int, hi: int, linking: Set<SymbolKey>) -> bool {
    forall|m: u32|
        #![trigger linking.contains(group_key(tables, m))]
        lo <= m < hi && linking.contains(group_key(tables, m)) ==> exists|i: int|
            0 <= i < s.len() && (#[trigger] s[i]).key() == group_key(tables, m)
}

proof fn lemma_run_push(s: Seq<Symbol>, x: Symbol, tables: bool, lo: int, hi: int, linking: Set<SymbolKey>)
    requires
        run_of(s, tables, lo, hi, linking),
        x.key() == group_key(tables, x.key().spec_index()),
        lo <= hi <= x.key().spec_index(),
        linking.contains(x.key()),
    ensures
        run_of(s.push(x), tables, lo, x.key().spec_index() + 1, linking),
{
    let t = s.push(x);
    assert forall|i: int, j: int| 0 <= i < j < t.len() implies t[i].key().spec_index() < t[j].key().spec_index() by {
        if j == s.len() {
            assert(t[i] == s[i]);
        } else {
            assert(t[i] == s[i] && t[j] == s[j]);
        }
    }
    assert forall|i: int| 0 <= i < t.len() implies {
        &&& t[i].key() == group_key(tables, t[i].key().spec_index())
        &&& lo <= t[i].key().spec_index() < x.key().spec_index() + 1
        &&& linking.contains(t[i].key())
    } by {
        if i < s.len() {
            assert(t[i] == s[i]);
        }
    }
}

proof fn lemma_run_widen(s: Seq<Symbol>, tables: bool, lo: int, hi: int, hi2: int, linking: Set<SymbolKey>)
    requires
        run_of(s, tables, lo, hi, linking),
        hi <= hi2,
    ensures
        run_of(s, tables, lo, hi2, linking),
{
}

/// The symbols of imported functions (or tables) are a run over their
/// index space, and cover it.
pub proof fn lemma_import_symbols(syms: Seq<crate::types::SymbolAnnotation>, linking: Set<SymbolKey>, tables: bool, n: int)
    requires
        0 <= n <= syms.len(),
        n <= u32::MAX + 1,
    ensures
        run_of(import_symbols(syms, linking, tables, n), tables, 0, n, linking),
        covers(import_symbols(syms, linking, tables, n), tables, 0, n, linking),
    decreases n,
{
    if n > 0 {
        lemma_import_symbols(syms, linking, tables, n - 1);
        let prev = import_symbols(syms, linking, tables, n - 1);
        let i = (n - 1) as u32;
        let key = group_key(tables, i);
        let s = import_symbols(syms, linking, tables, n);
        if linking.contains(key) {
            let x = if tables {
                Symbol::TableImport { index: i, explicit_name: syms[n - 1].spec_explicit_name() }
            } else {
                Symbol::FunctionImport { index: i, explicit_name: syms[n - 1].spec_explicit_name() }
            };
            assert(s == prev + seq![x]);
            assert(prev + seq![x] =~= prev.push(x));
            lemma_run_push(prev, x, tables, 0, n - 1, linking);
            assert forall|m: u32| 0 <= m < n && linking.contains(group_key(tables, m)) implies exists|j: int|
                0 <= j < s.len() && (#[trigger] s[j]).key() == group_key(tables, m) by {
                if m == i {
                    assert(s[prev.len() as int] == x);
                } else {
                    let j = choose|j: int| 0 <= j < prev.len() && (#[trigger] prev[j]).key() == group_key(tables, m);
                    assert(s[j] == prev[j]);
                }
            }
        } else {
            assert(s =~= prev);
            lemma_run_widen(prev, tables, 0, n - 1, n, linking);
            assert forall|m: u32| 0 <= m < n && linking.contains(group_key(tables, m)) implies exists|j: int|
                0 <= j < s.len() && (#[trigger] s[j]).key() == group_key(tables, m) by {
                assert(m != i);
            }
        }
    }
}

/// The symbols of defined functions are a run over their part of the index
/// space, and cover it.
pub proof fn lemma_defined_function_symbols(
    funcs: Seq<(Option<String>, Seq<(bool, Seq<SymbolKey>)>, usize)>,
    base: int,
    linking: Set<SymbolKey>,
    n: int,
)
    requires
        0 <= n <= funcs.len(),
        0 <= base,
        base + n <= u32::MAX + 1,
    ensures
        defined_function_symbols(funcs, base, linking, n) matches Ok(s) ==> run_of(s, false, base, base + n, linking)
            && covers(s, false, base, base + n, linking),
    decreases n,
{
    if n > 0 {
        lemma_defined_function_symbols(funcs, base, linking, n - 1);
        if let Ok(prev) = defined_function_symbols(funcs, base, linking, n - 1) {
            let index = (base + n - 1) as u32;
            if linking.contains(SymbolKey::Function(index)) {
                if let Some(name) = funcs[n - 1].0 {
                    let x = Symbol::FunctionDefined { index, symbol_name: name };
                    let s = prev.push(x);
                    lemma_run_push(prev, x, false, base, base + n - 1, linking);
                    assert forall|m: u32| base <= m < base + n && linking.contains(group_key(false, m)) implies exists|j: int|
                        0 <= j < s.len() && (#[trigger] s[j]).key() == group_key(false, m) by {
                        if m == index {
                            assert(s[prev.len() as int] == x);
                        } else {
                            let j = choose|j: int| 0 <= j < prev.len() && (#[trigger] prev[j]).key() == group_key(false, m);
                            assert(s[j] == prev[j]);
                        }
                    }
                }
            } else {
                lemma_run_widen(prev, false, base, base + n - 1, base + n, linking);
                assert forall|m: u32| base <= m < base + n && linking.contains(group_key(false, m)) implies exists|j: int|
                    0 <= j < prev.len() && (#[trigger] prev[j]).key() == group_key(false, m) by {
                    assert(m != index);
                }
            }
        }
    }
}

/// The symbols of defined tables are a run over their part of the index
/// space, and cover it.
pub proof fn lemma_defined_table_symbols(tables: Seq<DefinedTable>, base: int, linking: Set<SymbolKey>, n: int)
    requires
        0 <= n <= tables.len(),
        0 <= base,
        base + n <= u32::MAX + 1,
    ensures
        defined_table_symbols(tables, base, linking, n) matches Ok(s) ==> run_of(s, true, base, base + n, linking)
            && covers(s, true, base, base + n, linking),
    decreases n,
{
    if n > 0 {
        lemma_defined_table_symbols(tables, base, linking, n - 1);
        if let Ok(prev) = defined_table_symbols(tables, base, linking, n - 1) {
            let index = (base + n - 1) as u32;
            if linking.contains(SymbolKey::Table(index)) {
                if let Some(name) = tables[n - 1].symbol_name {
                    let x = Symbol::TableDefined { index, symbol_name: name };
                    let s = prev.push(x);
                    lemma_run_push(prev, x, true, base, base + n - 1, linking);
                    assert forall|m: u32| base <= m < base + n && linking.contains(group_key(true, m)) implies exists|j: int|
                        0 <= j < s.len() && (#[trigger] s[j]).key() == group_key(true, m) by {
                        if m == index {
                            assert(s[prev.len() as int] == x);
                        } else {
                            let j = choose|j: int| 0 <= j < prev.len() && (#[trigger] prev[j]).key() == group_key(true, m);
                            assert(s[j] == prev[j]);
                        }
                    }
                }
            } else {
                lemma_run_widen(prev, true, base, base + n - 1, base + n, linking);
                assert forall|m: u32| base <= m < base + n && linking.contains(group_key(true, m)) implies exists|j: int|
                    0 <= j < prev.len() && (#[trigger] prev[j]).key() == group_key(true, m) by {
                    assert(m != index);
                }
            }
        }
    }
}

/// Two runs of the same index space, one below the other, make one run.
proof fn lemma_runs_concat(
    a: Seq<Symbol>,
    b: Seq<Symbol>,
    tables: bool,
    lo: int,
    mid: int,
    hi: int,
    linking: Set<SymbolKey>,
)
    requires
        lo <= mid <= hi,
        run_of(a, tables, lo, mid, linking),
        run_of(b, tables, mid, hi, linking),
        covers(a, tables, lo, mid, linking),
        covers(b, tables, mid, hi, linking),
    ensures
        run_of(a + b, tables, lo, hi, linking),
        covers(a + b, tables, lo, hi, linking),
{
    let t = a + b;
    assert forall|i: int| 0 <= i < t.len() implies {
        &&& t[i].key() == group_key(tables, t[i].key().spec_index())
        &&& lo <= t[i].key().spec_index() < hi
        &&& linking.contains(t[i].key())
    } by {
        if i < a.len() {
            assert(t[i] == a[i]);
        } else {
            assert(t[i] == b[i - a.len()]);
        }
    }
    assert forall|i: int, j: int| 0 <= i < j < t.len() implies t[i].key().spec_index() < t[j].key().spec_index() by {
        if j < a.len() {
            assert(t[i] == a[i] && t[j] == a[j]);
        } else if i >= a.len() {
            assert(t[i] == b[i - a.len()] && t[j] == b[j - a.len()]);
        } else {
            assert(t[i] == a[i] && t[j] == b[j - a.len()]);
        }
    }
    assert forall|m: u32| lo <= m < hi && linking.contains(group_key(tables, m)) implies exists|j: int|
        0 <= j < t.len() && (#[trigger] t[j]).key() == group_key(tables, m) by {
        if m < mid {
            let j = choose|j: int| 0 <= j < a.len() && (#[trigger] a[j]).key() == group_key(tables, m);
            assert(t[j] == a[j]);
        } else {
            let j = choose|j: int| 0 <= j < b.len() && (#[trigger] b[j]).key() == group_key(tables, m);
            assert(t[j + a.len()] == b[j]);
        }
    }
}

/// A run has at most one symbol per index of its range.
proof fn lemma_run_len(s: Seq<Symbol>, tables: bool, lo: int, hi: int, linking: Set<SymbolKey>)
    requires
        run_of(s, tables, lo, hi, linking),
        lo <= hi,
    ensures
        s.len() <= hi - lo,
    decreases s.len(),
{
    if s.len() > 0 {
        let p = s.drop_last();
        let top = s.last().key().spec_index() as int;
        assert forall|i: int| 0 <= i < p.len() implies {
            &&& p[i].key() == group_key(tables, p[i].key().spec_index())
            &&& lo <= p[i].key().spec_index() < top
            &&& linking.contains(p[i].key())
        } by {
            assert(p[i] == s[i]);
            assert(s[i].key().spec_index() < s[s.len() - 1].key().spec_index());
        }
        assert forall|i: int, j: int| 0 <= i < j < p.len() implies p[i].key().spec_index() < p[j].key().spec_index() by {
            assert(p[i] == s[i] && p[j] == s[j]);
        }
        assert(s[s.len() - 1] == s.last());
        lemma_run_len(p, tables, lo, top, linking);
    }
}

/// No two symbols stand for the same item.
pub open spec fn keys_distinct(syms: Seq<Symbol>) -> bool {
    forall|i: int, j: int| #![trigger syms[i], syms[j]] 0 <= i < j < syms.len() ==> syms[i].key() != syms[j].key()
}

/// Where no two symbols stand for the same item, the symbol index of each
/// symbol's item is the symbol's position, and only their items have one.
pub proof fn lemma_keys_map_positions(syms: Seq<Symbol>)
    requires
        keys_distinct(syms),
        syms.len() <= u32::MAX + 1,
    ensures
        forall|i: int|
            #![trigger syms[i]]
            0 <= i < syms.len() ==> keys_map(syms).contains_key(syms[i].key()) && keys_map(syms)[syms[i].key()]
                == i,
        forall|k: SymbolKey|
            #![trigger keys_map(syms).contains_key(k)]
            keys_map(syms).contains_key(k) ==> exists|i: int| 0 <= i < syms.len() && (#[trigger] syms[i]).key() == k,
    decreases syms.len(),
{
    if syms.len() > 0 {
        let p = syms.drop_last();
        assert forall|i: int, j: int| 0 <= i < j < p.len() implies p[i].key() != p[j].key() by {
            assert(p[i] == syms[i] && p[j] == syms[j]);
        }
        lemma_keys_map_positions(p);
        let last = syms.last();
        let n = syms.len() - 1;
        assert(keys_map(syms) == keys_map(p).insert(last.key(), n as u32));
        assert forall|i: int| 0 <= i < syms.len() implies keys_map(syms).contains_key(syms[i].key())
            && keys_map(syms)[syms[i].key()] == i by {
            if i < n {
                assert(syms[i] == p[i]);
                assert(syms[i].key() != syms[n].key());
            }
        }
        assert forall|k: SymbolKey| keys_map(syms).contains_key(k) implies exists|i: int|
            0 <= i < syms.len() && (#[trigger] syms[i]).key() == k by {
            if k == last.key() {
                assert(syms[n] == last);
            } else {
                assert(keys_map(p).contains_key(k));
                let i = choose|i: int| 0 <= i < p.len() && (#[trigger] p[i]).key() == k;
                assert(syms[i] == p[i]);
            }
        }
    }
}

/// Whether `k` is an item of the function or table index spaces of `st`.
pub open spec fn key_in_range(st: BuilderState, k: SymbolKey) -> bool {
    match k {
        SymbolKey::Function(i) => i < st.imported_functions.len() + st.defined_funcs.len(),
        SymbolKey::Table(i) => i < st.imported_tables.len() + st.defined_tables.len(),
        SymbolKey::Tag(_) => false,
    }
}

/// The symbol table stands for each item at most once; the symbol index of
/// an item (what `keys_map` gives) is the position of its symbol in the
/// table; and the table holds exactly the functions and tables that need a
/// symbol (those in `st.linking`).
pub proof fn law_symbol_table(st: BuilderState, syms: Seq<Symbol>)
    requires
        spec_finish(st) == Ok::<Seq<Symbol>, Error>(syms),
    ensures
        keys_distinct(syms),
        forall|i: int|
            #![trigger syms[i]]
            0 <= i < syms.len() ==> keys_map(syms).contains_key(syms[i].key()) && keys_map(syms)[syms[i].key()]
                == i,
        forall|k: SymbolKey|
            #![trigger keys_map(syms).contains_key(k)]
            keys_map(syms).contains_key(k) <==> st.linking.contains(k) && key_in_range(st, k),
{
    let linking = st.linking;
    let nif = st.imported_functions.len() as int;
    let nd = st.defined_funcs.len() as int;
    let nit = st.imported_tables.len() as int;
    let ndt = st.defined_tables.len() as int;
    let a = import_symbols(st.imported_functions, linking, false, nif);
    let b = defined_function_symbols(st.defined_funcs, nif, linking, nd)->Ok_0;
    let c = import_symbols(st.imported_tables, linking, true, nit);
    let d = defined_table_symbols(st.defined_tables, nit, linking, ndt)->Ok_0;
    assert(syms == a + b + c + d);
    lemma_import_symbols(st.imported_functions, linking, false, nif);
    lemma_defined_function_symbols(st.defined_funcs, nif, linking, nd);
    lemma_import_symbols(st.imported_tables, linking, true, nit);
    lemma_defined_table_symbols(st.defined_tables, nit, linking, ndt);
    lemma_runs_concat(a, b, false, 0, nif, nif + nd, linking);
    lemma_runs_concat(c, d, true, 0, nit, nit + ndt, linking);
    let f = a + b;
    let g = c + d;
    assert(syms =~= f + g);
    lemma_run_len(f, false, 0, nif + nd, linking);
    lemma_run_len(g, true, 0, nit + ndt, linking);
    assert forall|i: int, j: int| 0 <= i < j < syms.len() implies syms[i].key() != syms[j].key() by {
        if j < f.len() {
            assert(syms[i] == f[i] && syms[j] == f[j]);
        } else if i >= f.len() {
            assert(syms[i] == g[i - f.len()] && syms[j] == g[j - f.len()]);
        } else {
            assert(syms[i] == f[i] && syms[j] == g[j - f.len()]);
        }
    }
    lemma_keys_map_positions(syms);
    assert forall|k: SymbolKey| keys_map(syms).contains_key(k) implies linking.contains(k) && key_in_range(st, k) by {
        let i = choose|i: int| 0 <= i < syms.len() && (#[trigger] syms[i]).key() == k;
        if i < f.len() {
            assert(syms[i] == f[i]);
        } else {
            assert(syms[i] == g[i - f.len()]);
        }
    }
    assert forall|k: SymbolKey| linking.contains(k) && key_in_range(st, k) implies keys_map(syms).contains_key(k) by {
        match k {
            SymbolKey::Function(m) => {
                assert(linking.contains(group_key(false, m)));
                let j = choose|j: int| 0 <= j < f.len() && (#[trigger] f[j]).key() == group_key(false, m);
                assert(syms[j] == f[j]);
            },
            SymbolKey::Table(m) => {
                assert(linking.contains(group_key(true, m)));
                let j = choose|j: int| 0 <= j < g.len() && (#[trigger] g[j]).key() == group_key(true, m);
                assert(syms[j + f.len()] == g[j]);
            },
            SymbolKey::Tag(_) => {},
        }
    }
}

/// Every item that an instruction carrying `@reloc` in a defined function
/// refers to is one that needs a symbol.
pub open spec fn links_relocations(st: BuilderState) -> bool {
    forall|i: int|
        #![trigger st.defined_funcs[i]]
        0 <= i < st.defined_funcs.len() ==> relocated_targets(st.defined_funcs[i].1).subset_of(st.linking)
}

proof fn lemma_visit_import_links(st: BuilderState, kinds: Seq<crate::link::ImportItemKind>, syms: Seq<crate::types::SymbolAnnotation>)
    requires
        links_relocations(st),
    ensures
        spec_visit_import(st, kinds, syms) matches Some(st2) ==> links_relocations(st2) && st2.defined_funcs
            == st.defined_funcs,
    decreases kinds.len(),
{
    if kinds.len() > 0 && syms.len() > 0 {
        let f = push_function(st, syms[0]);
        let t = push_table(st, syms[0]);
        assert(links_relocations(f)) by {
            assert forall|i: int| 0 <= i < f.defined_funcs.len() implies relocated_targets(
                f.defined_funcs[i].1,
            ).subset_of(f.linking) by {
                assert(f.defined_funcs[i] == st.defined_funcs[i]);
            }
        }
        assert(links_relocations(t)) by {
            assert forall|i: int| 0 <= i < t.defined_funcs.len() implies relocated_targets(
                t.defined_funcs[i].1,
            ).subset_of(t.linking) by {
                assert(t.defined_funcs[i] == st.defined_funcs[i]);
            }
        }
        lemma_visit_import_links(f, kinds.drop_first(), syms.drop_first());
        lemma_visit_import_links(t, kinds.drop_first(), syms.drop_first());
        lemma_visit_import_links(st, kinds.drop_first(), syms.drop_first());
    }
}

proof fn lemma_visit_fields_links(
    st: BuilderState,
    fields: Seq<ModuleItem>,
    imports: Seq<RelocImports>,
    funcs: Seq<FuncAnnotation>,
    tables: Seq<TableAnnotation>,
)
    requires
        links_relocations(st),
    ensures
        spec_visit_fields(st, fields, imports, funcs, tables) matches Some(st2) ==> links_relocations(st2),
    decreases fields.len(),
{
    if fields.len() > 0 {
        match fields[0] {
            ModuleItem::Import { kinds } => {
                if imports.len() > 0 {
                    lemma_visit_import_links(st, kinds@, imports[0].syms@);
                    if let Some(st2) = spec_visit_import(st, kinds@, imports[0].syms@) {
                        lemma_visit_fields_links(st2, fields.drop_first(), imports.drop_first(), funcs, tables);
                    }
                }
            },
            ModuleItem::Func { id, span, body } => {
                if funcs.len() > 0 {
                    if let Some(st2) = spec_visit_func(st, id, span, body, funcs[0]) {
                        assert forall|i: int| 0 <= i < st2.defined_funcs.len() implies relocated_targets(
                            st2.defined_funcs[i].1,
                        ).subset_of(st2.linking) by {
                            if i < st.defined_funcs.len() {
                                assert(st2.defined_funcs[i] == st.defined_funcs[i]);
                            }
                        }
                        lemma_visit_fields_links(st2, fields.drop_first(), imports, funcs.drop_first(), tables);
                    }
                }
            },
            ModuleItem::Table { id, span, imported } => {
                if tables.len() > 0 {
                    let st2 = spec_visit_table(st, id, span, imported, tables[0].sym);
                    assert forall|i: int| 0 <= i < st2.defined_funcs.len() implies relocated_targets(
                        st2.defined_funcs[i].1,
                    ).subset_of(st2.linking) by {
                        assert(st2.defined_funcs[i] == st.defined_funcs[i]);
                    }
                    lemma_visit_fields_links(st2, fields.drop_first(), imports, funcs, tables.drop_first());
                }
            },
            ModuleItem::Other => {
                lemma_visit_fields_links(st, fields.drop_first(), imports, funcs, tables);
            },
        }
    }
}

/// Every function or table that an instruction carrying `@reloc` refers to
/// has a symbol in the table built from the module's fields and
/// annotations.
pub proof fn law_relocation_targets_have_symbols(
    fields: Seq<ModuleItem>,
    imports: Seq<RelocImports>,
    funcs: Seq<FuncAnnotation>,
    tables: Seq<TableAnnotation>,
    st: BuilderState,
    syms: Seq<Symbol>,
)
    requires
        spec_visit_fields(empty_state(), fields, imports, funcs, tables) == Some(st),
        spec_finish(st) == Ok::<Seq<Symbol>, Error>(syms),
    ensures
        forall|i: int, k: SymbolKey|
            0 <= i < st.defined_funcs.len() && relocated_targets(#[trigger] st.defined_funcs[i].1).contains(k)
                && key_in_range(st, k) ==> #[trigger] keys_map(syms).contains_key(k),
{
    lemma_visit_fields_links(empty_state(), fields, imports, funcs, tables);
    law_symbol_table(st, syms);
}

} // verus!
