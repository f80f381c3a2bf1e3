//! The two-pass linker. A pre-pass collects every label into the symbol
//! table; emission then repeats, re-reading label addresses each pass,
//! until a pass changes no address. The fixed point exists because operand
//! widths depend on label values and label values on operand widths.

use vstd::prelude::*;
use vstd::hash_map::StringHashMap;

use crate::assembler::types::{
    directive_words, spec_solve_instruction, ParsedItem,
};
use crate::codec::spec_instruction_words;

verus! {

/// A linking failure, carrying the offending name where one exists.
#[derive(Debug, Clone, PartialEq, Eq)]
pub enum Error {
    UnknownLabel(String),
    UnknownLocalLabel(String),
    DuplicatedLabel(String),
    DuplicatedLocalLabel(String),
    LocalBeforeGlobal(String),
    DivisionByZero,
    LayoutDiverged,
}

/// The mathematical shadow of `Error`, over character sequences.
pub enum LinkErr {
    UnknownLabel(Seq<char>),
    UnknownLocalLabel(Seq<char>),
    DuplicatedLabel(Seq<char>),
    DuplicatedLocalLabel(Seq<char>),
    LocalBeforeGlobal(Seq<char>),
    DivisionByZero,
    LayoutDiverged,
}

impl View for Error {
    type V = LinkErr;

    open spec fn view(&self) -> LinkErr {
        match self {
            Error::UnknownLabel(s) => LinkErr::UnknownLabel(s@),
            Error::UnknownLocalLabel(s) => LinkErr::UnknownLocalLabel(s@),
            Error::DuplicatedLabel(s) => LinkErr::DuplicatedLabel(s@),
            Error::DuplicatedLocalLabel(s) => LinkErr::DuplicatedLocalLabel(s@),
            Error::LocalBeforeGlobal(s) => LinkErr::LocalBeforeGlobal(s@),
            Error::DivisionByZero => LinkErr::DivisionByZero,
            Error::LayoutDiverged => LinkErr::LayoutDiverged,
        }
    }
}

/// The symbol table: global label addresses, and one local scope per
/// global label, in declaration order.
pub struct SymbolTable {
    pub globals: Map<Seq<char>, u16>,
    pub scopes: Seq<Map<Seq<char>, u16>>,
}

/// The views of a vector of local scopes, in order.
pub open spec fn scopes_view(v: Seq<StringHashMap<u16>>) -> Seq<Map<Seq<char>, u16>> {
    v.map(|i: int, m: StringHashMap<u16>| m@)
}

/// One pre-pass step: a global label declaration must be new and opens a
/// scope; a local label declaration must be new within the scope of the
/// most recent global label, and is an error before any global exists.
pub open spec fn extract_step(st: SymbolTable, item: ParsedItem) -> Result<SymbolTable, LinkErr> {
    match item {
        ParsedItem::LabelDecl(s) => if st.globals.contains_key(s@) {
            Err(LinkErr::DuplicatedLabel(s@))
        } else {
            Ok(
                SymbolTable {
                    globals: st.globals.insert(s@, 0),
                    scopes: st.scopes.push(Map::empty()),
                },
            )
        },
        ParsedItem::LocalLabelDecl(s) => if st.scopes.len() == 0 {
            Err(LinkErr::LocalBeforeGlobal(s@))
        } else if st.scopes.last().contains_key(s@) {
            Err(LinkErr::DuplicatedLocalLabel(s@))
        } else {
            Ok(
                SymbolTable {
                    globals: st.globals,
                    scopes: st.scopes.update(
                        st.scopes.len() - 1,
                        st.scopes.last().insert(s@, 0),
                    ),
                },
            )
        },
        _ => Ok(st),
    }
}

/// The pre-pass folded over a prefix of the stream, stopping at the first
/// fault.
pub open spec fn extract_items(
    st: SymbolTable,
    items: Seq<ParsedItem>,
) -> Result<SymbolTable, LinkErr>
    decreases items.len(),
{
    if items.len() == 0 {
        Ok(st)
    } else {
        match extract_items(st, items.drop_last()) {
            Err(e) => Err(e),
            Ok(st2) => extract_step(st2, items.last()),
        }
    }
}

/// The whole pre-pass: every declared label at address 0, or the first
/// duplicate or out-of-scope declaration.
pub open spec fn spec_extract(items: Seq<ParsedItem>) -> Result<SymbolTable, LinkErr> {
    extract_items(SymbolTable { globals: Map::empty(), scopes: Seq::empty() }, items)
}

/// An error found in a prefix is the result of the whole fold.
proof fn lemma_extract_err(st: SymbolTable, items: Seq<ParsedItem>, i: int)
    requires
        0 <= i <= items.len(),
        extract_items(st, items.take(i)) is Err,
    ensures
        extract_items(st, items) == extract_items(st, items.take(i)),
    decreases items.len() - i,
{
    if i == items.len() {
        assert(items.take(i) =~= items);
    } else {
        assert(items.take(i + 1).drop_last() =~= items.take(i));
        lemma_extract_err(st, items, i + 1);
    }
}

/// A step that faults at position `i` settles the whole fold.
proof fn lemma_extract_stop(st: SymbolTable, items: Seq<ParsedItem>, i: int, cur: SymbolTable)
    requires
        0 <= i < items.len(),
        extract_items(st, items.take(i)) == Ok::<SymbolTable, LinkErr>(cur),
        extract_step(cur, items[i]) is Err,
    ensures
        extract_items(st, items) == extract_step(cur, items[i]),
{
    assert(items.take(i + 1).drop_last() =~= items.take(i));
    assert(items.take(i + 1).last() == items[i]);
    assert(extract_items(st, items.take(i + 1)) == extract_step(cur, items[i]));
    lemma_extract_err(st, items, i + 1);
}

/// The pre-pass over the whole stream. On success the returned pair holds
/// the global addresses and, positionally per global label, each local
/// scope, all at address 0.
pub fn extract_labels(ast: &[ParsedItem]) -> (r: Result<
    (StringHashMap<u16>, Vec<StringHashMap<u16>>),
    Error,
>)
    ensures
        match r {
            Ok((globals, scopes)) => spec_extract(ast@) == Ok::<SymbolTable, LinkErr>(
                SymbolTable { globals: globals@, scopes: scopes_view(scopes@) },
            ),
            Err(e) => spec_extract(ast@) == Err::<SymbolTable, LinkErr>(e@),
        },
{
    let mut globals: StringHashMap<u16> = StringHashMap::new();
    let mut scopes: Vec<StringHashMap<u16>> = Vec::new();
    let ghost st0 = SymbolTable { globals: Map::empty(), scopes: Seq::empty() };
    let mut i: usize = 0;
    proof {
        assert(scopes_view(scopes@) =~= st0.scopes);
    }
    while i < ast.len()
        invariant
            i <= ast@.len(),
            st0 == (SymbolTable {
                globals: Map::<Seq<char>, u16>::empty(),
                scopes: Seq::<Map<Seq<char>, u16>>::empty(),
            }),
            extract_items(st0, ast@.take(i as int)) == Ok::<SymbolTable, LinkErr>(
                SymbolTable { globals: globals@, scopes: scopes_view(scopes@) },
            ),
        decreases ast@.len() - i,
    {
        let ghost cur = SymbolTable { globals: globals@, scopes: scopes_view(scopes@) };
        proof {
            assert(ast@.take(i + 1).drop_last() =~= ast@.take(i as int));
            assert(ast@.take(i + 1).last() == ast@[i as int]);
        }
        match &ast[i] {
            ParsedItem::LabelDecl(s) => {
                if globals.contains_key(s.as_str()) {
                    proof {
                        lemma_extract_stop(st0, ast@, i as int, cur);
                    }
                    return Err(Error::DuplicatedLabel(s.clone()));
                }
                globals.insert(s.clone(), 0);
                scopes.push(StringHashMap::new());
                proof {
                    assert(scopes_view(scopes@) =~= cur.scopes.push(Map::empty()));
                }
            },
            ParsedItem::LocalLabelDecl(s) => {
                if scopes.len() == 0 {
                    proof {
                        lemma_extract_stop(st0, ast@, i as int, cur);
                    }
                    return Err(Error::LocalBeforeGlobal(s.clone()));
                }
                let k = scopes.len() - 1;
                if scopes[k].contains_key(s.as_str()) {
                    proof {
                        lemma_extract_stop(st0, ast@, i as int, cur);
                    }
                    return Err(Error::DuplicatedLocalLabel(s.clone()));
                }
                scopes[k].insert(s.clone(), 0);
                proof {
                    assert(scopes_view(scopes@) =~= cur.scopes.update(
                        cur.scopes.len() - 1,
                        cur.scopes.last().insert(s@, 0),
                    ));
                }
            },
            _ => {},
        }
        i = i + 1;
    }
    proof {
        assert(ast@.take(ast@.len() as int) =~= ast@);
    }
    Ok((globals, scopes))
}

/// The running state of one emission pass.
pub struct PassState {
    pub image: Seq<u16>,
    pub table: SymbolTable,
    pub scope_count: int,
    pub changed: bool,
}

/// The local scope instructions resolve against: the scope of the most
/// recent global label, or an empty scope before the first one.
pub open spec fn current_scope(st: PassState) -> Map<Seq<char>, u16> {
    if 1 <= st.scope_count <= st.table.scopes.len() {
        st.table.scopes[st.scope_count - 1]
    } else {
        Map::empty()
    }
}

/// One emission step. The emission cursor is the image length; a label
/// declaration pins its name to the cursor and marks the pass changed if
/// the address moved. A layout that leaves the 16-bit address space has no
/// fixed point in it and is reported as diverged.
pub open spec fn pass_step(st: PassState, item: ParsedItem) -> Result<PassState, LinkErr> {
    match item {
        ParsedItem::Directive(d) => {
            let image = st.image + directive_words(d);
            if image.len() > 0x10000 {
                Err(LinkErr::LayoutDiverged)
            } else {
                Ok(PassState { image, ..st })
            }
        },
        ParsedItem::LabelDecl(s) => if st.image.len() > 0xffff {
            Err(LinkErr::LayoutDiverged)
        } else {
            let addr = st.image.len() as u16;
            let unchanged = st.table.globals.contains_key(s@) && st.table.globals[s@] == addr;
            Ok(
                PassState {
                    table: SymbolTable {
                        globals: st.table.globals.insert(s@, addr),
                        scopes: st.table.scopes,
                    },
                    scope_count: st.scope_count + 1,
                    changed: st.changed || !unchanged,
                    ..st
                },
            )
        },
        ParsedItem::LocalLabelDecl(s) => if !(1 <= st.scope_count <= st.table.scopes.len()) {
            Err(LinkErr::LocalBeforeGlobal(s@))
        } else if st.image.len() > 0xffff {
            Err(LinkErr::LayoutDiverged)
        } else {
            let addr = st.image.len() as u16;
            let k = st.scope_count - 1;
            let scope = st.table.scopes[k];
            let unchanged = scope.contains_key(s@) && scope[s@] == addr;
            Ok(
                PassState {
                    table: SymbolTable {
                        globals: st.table.globals,
                        scopes: st.table.scopes.update(k, scope.insert(s@, addr)),
                    },
                    changed: st.changed || !unchanged,
                    ..st
                },
            )
        },
        ParsedItem::ParsedInstruction(pi) => match spec_solve_instruction(
            pi,
            st.table.globals,
            current_scope(st),
        ) {
            Err(k) => Err(k),
            Ok(ins) => {
                let image = st.image + spec_instruction_words(ins);
                if image.len() > 0x10000 {
                    Err(LinkErr::LayoutDiverged)
                } else {
                    Ok(PassState { image, ..st })
                }
            },
        },
        ParsedItem::Comment(_) => Ok(st),
    }
}

/// A fresh pass over the stream: empty image, cursor at zero, no scope
/// passed yet, nothing changed yet.
pub open spec fn pass_start(table: SymbolTable) -> PassState {
    PassState { image: Seq::empty(), table, scope_count: 0, changed: false }
}

/// One pass folded over a prefix of the stream, stopping at the first
/// fault.
pub open spec fn pass_items(st: PassState, items: Seq<ParsedItem>) -> Result<PassState, LinkErr>
    decreases items.len(),
{
    if items.len() == 0 {
        Ok(st)
    } else {
        match pass_items(st, items.drop_last()) {
            Err(e) => Err(e),
            Ok(st2) => pass_step(st2, items.last()),
        }
    }
}

/// An error found in a prefix is the result of the whole pass.
proof fn lemma_pass_err(st: PassState, items: Seq<ParsedItem>, i: int)
    requires
        0 <= i <= items.len(),
        pass_items(st, items.take(i)) is Err,
    ensures
        pass_items(st, items) == pass_items(st, items.take(i)),
    decreases items.len() - i,
{
    if i == items.len() {
        assert(items.take(i) =~= items);
    } else {
        assert(items.take(i + 1).drop_last() =~= items.take(i));
        lemma_pass_err(st, items, i + 1);
    }
}

/// A step that faults at position `i` settles the whole pass.
proof fn lemma_pass_stop(st: PassState, items: Seq<ParsedItem>, i: int, cur: PassState)
    requires
        0 <= i < items.len(),
        pass_items(st, items.take(i)) == Ok::<PassState, LinkErr>(cur),
        pass_step(cur, items[i]) is Err,
    ensures
        pass_items(st, items) == pass_step(cur, items[i]),
{
    assert(items.take(i + 1).drop_last() =~= items.take(i));
    assert(items.take(i + 1).last() == items[i]);
    assert(pass_items(st, items.take(i + 1)) == pass_step(cur, items[i]));
    lemma_pass_err(st, items, i + 1);
}

/// Passes repeated until one changes no address (its image is the result),
/// the fuel runs out (the layout diverged), or a pass fails.
pub open spec fn run_passes(
    items: Seq<ParsedItem>,
    table: SymbolTable,
    fuel: nat,
) -> Result<Seq<u16>, LinkErr>
    decreases fuel,
{
    if fuel == 0 {
        Err(LinkErr::LayoutDiverged)
    } else {
        match pass_items(pass_start(table), items) {
            Err(e) => Err(e),
            Ok(st) => if !st.changed {
                Ok(st.image)
            } else {
                run_passes(items, st.table, (fuel - 1) as nat)
            },
        }
    }
}

/// The iteration cap: more re-layout passes than this means divergence.
pub open spec fn max_passes() -> nat {
    64
}

/// What linking a stream yields: the word image of the fixed point, or the
/// first error.
pub open spec fn spec_link(items: Seq<ParsedItem>) -> Result<Seq<u16>, LinkErr> {
    match spec_extract(items) {
        Err(e) => Err(e),
        Ok(table) => run_passes(items, table, max_passes()),
    }
}

/// Links a parsed stream into its word image: collects the labels, then
/// re-emits until no label address moves.
pub fn link(ast: &[ParsedItem]) -> (r: Result<Vec<u16>, Error>)
    ensures
        match r {
            Ok(bin) => spec_link(ast@) == Ok::<Seq<u16>, LinkErr>(bin@),
            Err(e) => spec_link(ast@) == Err::<Seq<u16>, LinkErr>(e@),
        },
{
    let (mut globals, mut scopes) = match extract_labels(ast) {
        Ok(p) => p,
        Err(e) => {
            return Err(e);
        },
    };
    let empty_scope: StringHashMap<u16> = StringHashMap::new();
    let mut fuel: u64 = 64;
    loop
        invariant
            fuel <= 64,
            empty_scope@ == Map::<Seq<char>, u16>::empty(),
            spec_link(ast@) == run_passes(
                ast@,
                SymbolTable { globals: globals@, scopes: scopes_view(scopes@) },
                fuel as nat,
            ),
        decreases fuel,
    {
        if fuel == 0 {
            return Err(Error::LayoutDiverged);
        }
        let ghost table0 = SymbolTable { globals: globals@, scopes: scopes_view(scopes@) };
        let ghost st0 = pass_start(table0);
        let mut bin: Vec<u16> = Vec::new();
        let mut scope_count: usize = 0;
        let mut changed = false;
        let mut i: usize = 0;
        while i < ast.len()
            invariant
                i <= ast@.len(),
                scope_count <= i,
                bin@.len() <= 0x10000,
                empty_scope@ == Map::<Seq<char>, u16>::empty(),
                st0 == pass_start(table0),
                1 <= fuel <= 64,
                spec_link(ast@) == run_passes(ast@, table0, fuel as nat),
                pass_items(st0, ast@.take(i as int)) == Ok::<PassState, LinkErr>(
                    PassState {
                        image: bin@,
                        table: SymbolTable { globals: globals@, scopes: scopes_view(scopes@) },
                        scope_count: scope_count as int,
                        changed,
                    },
                ),
            decreases ast@.len() - i,
        {
            let ghost cur = PassState {
                image: bin@,
                table: SymbolTable { globals: globals@, scopes: scopes_view(scopes@) },
                scope_count: scope_count as int,
                changed,
            };
            proof {
                assert(ast@.take(i + 1).drop_last() =~= ast@.take(i as int));
                assert(ast@.take(i + 1).last() == ast@[i as int]);
            }
            match &ast[i] {
                ParsedItem::Directive(d) => {
                    d.append_to(&mut bin);
                    if bin.len() > 0x10000 {
                        proof {
                            lemma_pass_stop(st0, ast@, i as int, cur);
                        }
                        return Err(Error::LayoutDiverged);
                    }
                    proof {
                        assert(pass_step(cur, ast@[i as int]) == Ok::<PassState, LinkErr>(
                            PassState { image: bin@, ..cur },
                        ));
                    }
                },
                ParsedItem::LabelDecl(s) => {
                    if bin.len() > 0xffff {
                        proof {
                            lemma_pass_stop(st0, ast@, i as int, cur);
                        }
                        return Err(Error::LayoutDiverged);
                    }
                    let addr = bin.len() as u16;
                    let unchanged = match globals.get(s.as_str()) {
                        Some(v) => *v == addr,
                        None => false,
                    };
                    if !unchanged {
                        changed = true;
                    }
                    globals.insert(s.clone(), addr);
                    scope_count = scope_count + 1;
                    proof {
                        assert(pass_step(cur, ast@[i as int]) == Ok::<PassState, LinkErr>(
                            PassState {
                                image: bin@,
                                table: SymbolTable {
                                    globals: globals@,
                                    scopes: scopes_view(scopes@),
                                },
                                scope_count: scope_count as int,
                                changed,
                            },
                        ));
                    }
                },
                ParsedItem::LocalLabelDecl(s) => {
                    if !(1 <= scope_count && scope_count <= scopes.len()) {
                        proof {
                            lemma_pass_stop(st0, ast@, i as int, cur);
                        }
                        return Err(Error::LocalBeforeGlobal(s.clone()));
                    }
                    if bin.len() > 0xffff {
                        proof {
                            lemma_pass_stop(st0, ast@, i as int, cur);
                        }
                        return Err(Error::LayoutDiverged);
                    }
                    let addr = bin.len() as u16;
                    let k = scope_count - 1;
                    let unchanged = match scopes[k].get(s.as_str()) {
                        Some(v) => *v == addr,
                        None => false,
                    };
                    if !unchanged {
                        changed = true;
                    }
                    scopes[k].insert(s.clone(), addr);
                    proof {
                        assert(scopes_view(scopes@) =~= cur.table.scopes.update(
                            cur.scope_count - 1,
                            cur.table.scopes[cur.scope_count - 1].insert(s@, addr),
                        ));
                        assert(pass_step(cur, ast@[i as int]) == Ok::<PassState, LinkErr>(
                            PassState {
                                image: bin@,
                                table: SymbolTable {
                                    globals: globals@,
                                    scopes: scopes_view(scopes@),
                                },
                                scope_count: scope_count as int,
                                changed,
                            },
                        ));
                    }
                },
                ParsedItem::ParsedInstruction(pi) => {
                    proof {
                        if 1 <= scope_count && scope_count <= scopes@.len() {
                            assert(scopes_view(scopes@)[scope_count - 1] == scopes@[scope_count
                                - 1]@);
                        }
                    }
                    let solved = if 1 <= scope_count && scope_count <= scopes.len() {
                        pi.solve(&globals, &scopes[scope_count - 1])
                    } else {
                        pi.solve(&globals, &empty_scope)
                    };
                    match solved {
                        Err(e) => {
                            proof {
                                lemma_pass_stop(st0, ast@, i as int, cur);
                            }
                            return Err(e);
                        },
                        Ok(ins) => {
                            ins.encode(&mut bin);
                            if bin.len() > 0x10000 {
                                proof {
                                    lemma_pass_stop(st0, ast@, i as int, cur);
                                }
                                return Err(Error::LayoutDiverged);
                            }
                            proof {
                                assert(pass_step(cur, ast@[i as int]) == Ok::<PassState, LinkErr>(
                                    PassState { image: bin@, ..cur },
                                ));
                            }
                        },
                    }
                },
                ParsedItem::Comment(_) => {},
            }
            proof {
                assert(pass_items(st0, ast@.take(i + 1)) == pass_step(cur, ast@[i as int]));
            }
            i = i + 1;
        }
        proof {
            assert(ast@.take(ast@.len() as int) =~= ast@);
        }
        if !changed {
            return Ok(bin);
        }
        fuel = fuel - 1;
    }
}

/// Whether a symbol table is a fixed point of emission over a stream: one
/// more pass succeeds, changes no label address, and emits `image`.
pub open spec fn pass_fixed(table: SymbolTable, items: Seq<ParsedItem>, image: Seq<u16>) -> bool {
    match pass_items(pass_start(table), items) {
        Ok(st) => !st.changed && st.image == image,
        Err(_) => false,
    }
}

proof fn lemma_run_passes_fixed(items: Seq<ParsedItem>, table: SymbolTable, fuel: nat)
    requires
        run_passes(items, table, fuel) is Ok,
    ensures
        exists|t: SymbolTable|
            #[trigger] pass_fixed(t, items, run_passes(items, table, fuel)->Ok_0),
    decreases fuel,
{
    assert(fuel > 0);
    let st = pass_items(pass_start(table), items)->Ok_0;
    assert(pass_items(pass_start(table), items) == Ok::<PassState, LinkErr>(st));
    if !st.changed {
        assert(run_passes(items, table, fuel) == Ok::<Seq<u16>, LinkErr>(st.image));
        assert(pass_fixed(table, items, run_passes(items, table, fuel)->Ok_0));
    } else {
        assert(run_passes(items, table, fuel) == run_passes(items, st.table, (fuel - 1) as nat));
        lemma_run_passes_fixed(items, st.table, (fuel - 1) as nat);
        let w = choose|t: SymbolTable|
            #[trigger] pass_fixed(t, items, run_passes(items, st.table, (fuel - 1) as nat)->Ok_0);
        assert(pass_fixed(w, items, run_passes(items, table, fuel)->Ok_0));
    }
}

/// Linker fixed point: when linking succeeds, the symbol table it settled
/// on is a fixed point — a further pass changes no label address and
/// re-emits exactly the returned image.
pub proof fn lemma_link_fixed_point(items: Seq<ParsedItem>)
    requires
        spec_link(items) is Ok,
    ensures
        exists|t: SymbolTable| #[trigger] pass_fixed(t, items, spec_link(items)->Ok_0),
{
    let table = spec_extract(items)->Ok_0;
    lemma_run_passes_fixed(items, table, max_passes());
}

/// The words one item emits against the pass state it meets: a directive's
/// data, an instruction's encoding against the table as it stands, nothing
/// for labels and comments.
pub open spec fn step_width(st: PassState, item: ParsedItem) -> nat {
    match item {
        ParsedItem::Directive(d) => directive_words(d).len(),
        ParsedItem::ParsedInstruction(pi) => match spec_solve_instruction(
            pi,
            st.table.globals,
            current_scope(st),
        ) {
            Ok(ins) => spec_instruction_words(ins).len(),
            Err(_) => 0,
        },
        _ => 0,
    }
}

/// The sum of the encoded widths of a stream's items, each taken against
/// the state the pass reaches it in.
pub open spec fn width_sum(st: PassState, items: Seq<ParsedItem>) -> nat
    decreases items.len(),
{
    if items.len() == 0 {
        0
    } else {
        match pass_items(st, items.drop_last()) {
            Ok(st2) => width_sum(st, items.drop_last()) + step_width(st2, items.last()),
            Err(_) => width_sum(st, items.drop_last()),
        }
    }
}

/// Encoding width: a pass that completes grows the image by exactly the
/// sum of the encoded widths of the items it walked. In particular the
/// final image's length is that sum, taken at the fixed point.
pub proof fn lemma_pass_width_sum(st: PassState, items: Seq<ParsedItem>)
    requires
        pass_items(st, items) is Ok,
    ensures
        pass_items(st, items) matches Ok(st2) && st2.image.len() == st.image.len() + width_sum(
            st,
            items,
        ),
    decreases items.len(),
{
    if items.len() != 0 {
        lemma_pass_width_sum(st, items.drop_last());
    }
}

/// The pre-pass reports only label faults: a duplicated global label, a
/// duplicated local label, or a local label before any global one.
pub proof fn lemma_extract_err_shape(items: Seq<ParsedItem>)
    ensures
        spec_extract(items) matches Err(e) ==> (e is DuplicatedLabel || e is DuplicatedLocalLabel
            || e is LocalBeforeGlobal),
{
    lemma_extract_items_err_shape(
        SymbolTable { globals: Map::empty(), scopes: Seq::empty() },
        items,
    );
}

proof fn lemma_extract_items_err_shape(st: SymbolTable, items: Seq<ParsedItem>)
    ensures
        extract_items(st, items) matches Err(e) ==> (e is DuplicatedLabel
            || e is DuplicatedLocalLabel || e is LocalBeforeGlobal),
    decreases items.len(),
{
    if items.len() != 0 {
        lemma_extract_items_err_shape(st, items.drop_last());
    }
}

/// Whether an item declares a global label.
pub open spec fn is_global_item(item: ParsedItem) -> bool {
    item is LabelDecl
}

/// Whether an item declares a local label.
pub open spec fn is_local_item(item: ParsedItem) -> bool {
    item is LocalLabelDecl
}

/// The name a label declaration carries.
pub open spec fn decl_name(item: ParsedItem) -> Seq<char> {
    match item {
        ParsedItem::LabelDecl(s) => s@,
        ParsedItem::LocalLabelDecl(s) => s@,
        _ => Seq::empty(),
    }
}

/// How many global labels a stream declares.
pub open spec fn count_globals(items: Seq<ParsedItem>) -> nat
    decreases items.len(),
{
    if items.len() == 0 {
        0
    } else {
        count_globals(items.drop_last()) + if is_global_item(items.last()) {
            1nat
        } else {
            0nat
        }
    }
}

/// Two global declarations of one name.
pub open spec fn has_duplicate_global(items: Seq<ParsedItem>) -> bool {
    exists|i: int, j: int|
        0 <= i < j < items.len() && is_global_item(#[trigger] items[i]) && is_global_item(
            #[trigger] items[j],
        ) && decl_name(items[i]) == decl_name(items[j])
}

/// A local declaration before any global one.
pub open spec fn has_local_before_global(items: Seq<ParsedItem>) -> bool {
    exists|j: int|
        0 <= j < items.len() && is_local_item(#[trigger] items[j]) && count_globals(
            items.take(j),
        ) == 0
}

/// Two local declarations of one name in one scope: the scope of a local
/// label is fixed by how many global labels stand before it.
pub open spec fn has_duplicate_local(items: Seq<ParsedItem>) -> bool {
    exists|i: int, j: int|
        0 <= i < j < items.len() && is_local_item(#[trigger] items[i]) && is_local_item(
            #[trigger] items[j],
        ) && decl_name(items[i]) == decl_name(items[j]) && count_globals(items.take(i))
            == count_globals(items.take(j))
}

/// A duplicate or out-of-scope label declaration.
pub open spec fn label_fault(items: Seq<ParsedItem>) -> bool {
    has_duplicate_global(items) || has_local_before_global(items) || has_duplicate_local(items)
}

/// Whether some global declaration in the stream carries `n`.
pub open spec fn global_declared(items: Seq<ParsedItem>, n: Seq<char>) -> bool {
    exists|i: int|
        0 <= i < items.len() && is_global_item(#[trigger] items[i]) && decl_name(items[i]) == n
}

/// Whether scope `k` (of the `k+1`-th global label) declares local `n`.
pub open spec fn local_declared(items: Seq<ParsedItem>, k: int, n: Seq<char>) -> bool {
    exists|i: int|
        0 <= i < items.len() && is_local_item(#[trigger] items[i]) && decl_name(items[i]) == n
            && count_globals(items.take(i)) == k + 1
}

/// A prefix declares at most as many globals as the whole stream.
proof fn lemma_count_globals_mono(items: Seq<ParsedItem>, i: int)
    requires
        0 <= i <= items.len(),
    ensures
        count_globals(items.take(i)) <= count_globals(items),
    decreases items.len(),
{
    if i == items.len() {
        assert(items.take(i) =~= items);
    } else {
        assert(items.take(i) =~= items.drop_last().take(i));
        lemma_count_globals_mono(items.drop_last(), i);
    }
}

/// The pre-pass errs exactly on the streams with a label fault, and on a
/// success its symbol table holds exactly the declared names: a global
/// per global declaration, and a scope per global label holding exactly
/// the locals declared under it.
proof fn lemma_extract_characterizes(items: Seq<ParsedItem>)
    ensures
        match spec_extract(items) {
            Ok(st) => {
                &&& !label_fault(items)
                &&& st.scopes.len() == count_globals(items)
                &&& forall|n: Seq<char>|
                    #[trigger] st.globals.contains_key(n) <==> global_declared(items, n)
                &&& forall|k: int, n: Seq<char>|
                    0 <= k < st.scopes.len() ==> (#[trigger] st.scopes[k].contains_key(n)
                        <==> local_declared(items, k, n))
            },
            Err(_) => label_fault(items),
        },
    decreases items.len(),
{
    let st0 = SymbolTable { globals: Map::empty(), scopes: Seq::empty() };
    if items.len() == 0 {
        assert(spec_extract(items) == Ok::<SymbolTable, LinkErr>(st0));
    } else {
        let prefix = items.drop_last();
        let last = items.last();
        let m = prefix.len() as int;
        lemma_extract_characterizes(prefix);
        assert forall|i: int| 0 <= i <= m implies #[trigger] items.take(i) == prefix.take(i) by {
            assert(items.take(i) =~= prefix.take(i));
        }
        assert forall|i: int| 0 <= i < m implies prefix[i] == #[trigger] items[i] by {}
        assert(count_globals(items.take(m)) == count_globals(prefix));
        match extract_items(st0, prefix) {
            Err(_) => {
                assert(spec_extract(items) == extract_items(st0, prefix));
            },
            Ok(stp) => {
                assert(extract_step(stp, last) == spec_extract(items));
                match last {
                    ParsedItem::LabelDecl(sname) => {
                        if stp.globals.contains_key(sname@) {
                            let i = choose|i: int|
                                0 <= i < m && is_global_item(#[trigger] prefix[i]) && decl_name(
                                    prefix[i],
                                ) == sname@;
                            assert(is_global_item(items[i]) && is_global_item(items[m]));
                            assert(has_duplicate_global(items));
                        } else {
                            assert forall|i: int, j: int|
                                0 <= i < j < items.len() && is_global_item(#[trigger] items[i])
                                    && is_global_item(#[trigger] items[j]) implies decl_name(
                                items[i],
                            ) != decl_name(items[j]) by {
                                if j < m {
                                    assert(!has_duplicate_global(prefix));
                                } else {
                                    assert(global_declared(prefix, decl_name(items[i])));
                                }
                            }
                            assert forall|j: int|
                                0 <= j < items.len() && is_local_item(
                                    #[trigger] items[j],
                                ) implies count_globals(items.take(j)) != 0 by {
                                assert(!has_local_before_global(prefix));
                            }
                            assert forall|i: int, j: int|
                                0 <= i < j < items.len() && is_local_item(#[trigger] items[i])
                                    && is_local_item(#[trigger] items[j]) implies !(decl_name(
                                items[i],
                            ) == decl_name(items[j]) && count_globals(items.take(i))
                                == count_globals(items.take(j))) by {
                                assert(!has_duplicate_local(prefix));
                            }
                            let st = spec_extract(items)->Ok_0;
                            assert forall|n: Seq<char>|
                                #[trigger] st.globals.contains_key(n) <==> global_declared(
                                    items,
                                    n,
                                ) by {
                                if global_declared(items, n) {
                                    let i = choose|i: int|
                                        0 <= i < items.len() && is_global_item(
                                            #[trigger] items[i],
                                        ) && decl_name(items[i]) == n;
                                    if i < m {
                                        assert(global_declared(prefix, n));
                                    }
                                }
                                if st.globals.contains_key(n) && n != sname@ {
                                    let i = choose|i: int|
                                        0 <= i < m && is_global_item(#[trigger] prefix[i])
                                            && decl_name(prefix[i]) == n;
                                    assert(is_global_item(items[i]) && decl_name(items[i]) == n);
                                }
                            }
                            assert(st.scopes.len() == count_globals(items));
                            assert forall|k: int, n: Seq<char>|
                                0 <= k < st.scopes.len() implies (#[trigger] st.scopes[
                                k].contains_key(n) <==> local_declared(items, k, n)) by {
                                if k < stp.scopes.len() {
                                    if local_declared(items, k, n) {
                                        let i = choose|i: int|
                                            0 <= i < items.len() && is_local_item(
                                                #[trigger] items[i],
                                            ) && decl_name(items[i]) == n && count_globals(
                                                items.take(i),
                                            ) == k + 1;
                                        assert(local_declared(prefix, k, n));
                                    }
                                    if local_declared(prefix, k, n) {
                                        let i = choose|i: int|
                                            0 <= i < m && is_local_item(#[trigger] prefix[i])
                                                && decl_name(prefix[i]) == n && count_globals(
                                                prefix.take(i),
                                            ) == k + 1;
                                        assert(is_local_item(items[i]) && count_globals(
                                            items.take(i),
                                        ) == k + 1);
                                    }
                                } else {
                                    assert(st.scopes[k] == Map::<Seq<char>, u16>::empty());
                                    if local_declared(items, k, n) {
                                        let i = choose|i: int|
                                            0 <= i < items.len() && is_local_item(
                                                #[trigger] items[i],
                                            ) && decl_name(items[i]) == n && count_globals(
                                                items.take(i),
                                            ) == k + 1;
                                        lemma_count_globals_mono(prefix, i);
                                    }
                                }
                            }
                        }
                    },
                    ParsedItem::LocalLabelDecl(sname) => {
                        let k = stp.scopes.len() - 1;
                        if stp.scopes.len() == 0 {
                            assert(is_local_item(items[m]) && count_globals(items.take(m)) == 0);
                            assert(has_local_before_global(items));
                        } else if stp.scopes.last().contains_key(sname@) {
                            let i = choose|i: int|
                                0 <= i < m && is_local_item(#[trigger] prefix[i]) && decl_name(
                                    prefix[i],
                                ) == sname@ && count_globals(prefix.take(i)) == k + 1;
                            assert(is_local_item(items[i]) && is_local_item(items[m]));
                            assert(count_globals(items.take(i)) == count_globals(items.take(m)));
                            assert(has_duplicate_local(items));
                        } else {
                            assert forall|i: int, j: int|
                                0 <= i < j < items.len() && is_global_item(#[trigger] items[i])
                                    && is_global_item(#[trigger] items[j]) implies decl_name(
                                items[i],
                            ) != decl_name(items[j]) by {
                                assert(!has_duplicate_global(prefix));
                            }
                            assert forall|j: int|
                                0 <= j < items.len() && is_local_item(
                                    #[trigger] items[j],
                                ) implies count_globals(items.take(j)) != 0 by {
                                if j < m {
                                    assert(!has_local_before_global(prefix));
                                } else {
                                    assert(count_globals(items.take(j)) == count_globals(prefix));
                                }
                            }
                            assert forall|i: int, j: int|
                                0 <= i < j < items.len() && is_local_item(#[trigger] items[i])
                                    && is_local_item(#[trigger] items[j]) implies !(decl_name(
                                items[i],
                            ) == decl_name(items[j]) && count_globals(items.take(i))
                                == count_globals(items.take(j))) by {
                                if j < m {
                                    assert(!has_duplicate_local(prefix));
                                } else {
                                    if decl_name(items[i]) == decl_name(items[j]) && count_globals(
                                        items.take(i),
                                    ) == count_globals(items.take(j)) {
                                        assert(local_declared(prefix, k, sname@));
                                    }
                                }
                            }
                            let st = spec_extract(items)->Ok_0;
                            assert forall|n: Seq<char>|
                                #[trigger] st.globals.contains_key(n) <==> global_declared(
                                    items,
                                    n,
                                ) by {
                                if global_declared(items, n) {
                                    let i = choose|i: int|
                                        0 <= i < items.len() && is_global_item(
                                            #[trigger] items[i],
                                        ) && decl_name(items[i]) == n;
                                    assert(global_declared(prefix, n));
                                }
                                if st.globals.contains_key(n) {
                                    let i = choose|i: int|
                                        0 <= i < m && is_global_item(#[trigger] prefix[i])
                                            && decl_name(prefix[i]) == n;
                                    assert(is_global_item(items[i]) && decl_name(items[i]) == n);
                                }
                            }
                            assert forall|kk: int, n: Seq<char>|
                                0 <= kk < st.scopes.len() implies (#[trigger] st.scopes[
                                kk].contains_key(n) <==> local_declared(items, kk, n)) by {
                                if local_declared(items, kk, n) {
                                    let i = choose|i: int|
                                        0 <= i < items.len() && is_local_item(#[trigger] items[i])
                                            && decl_name(items[i]) == n && count_globals(
                                            items.take(i),
                                        ) == kk + 1;
                                    if i < m {
                                        assert(local_declared(prefix, kk, n));
                                    } else {
                                        assert(count_globals(items.take(i)) == count_globals(
                                            prefix,
                                        ));
                                    }
                                }
                                if st.scopes[kk].contains_key(n) {
                                    if kk == k && n == sname@ {
                                        assert(is_local_item(items[m]) && decl_name(items[m]) == n
                                            && count_globals(items.take(m)) == kk + 1);
                                    } else {
                                        assert(stp.scopes[kk].contains_key(n));
                                        let i = choose|i: int|
                                            0 <= i < m && is_local_item(#[trigger] prefix[i])
                                                && decl_name(prefix[i]) == n && count_globals(
                                                prefix.take(i),
                                            ) == kk + 1;
                                        assert(is_local_item(items[i]) && count_globals(
                                            items.take(i),
                                        ) == kk + 1);
                                    }
                                }
                            }
                        }
                    },
                    _ => {
                        assert(count_globals(items) == count_globals(prefix));
                        assert forall|i: int, j: int|
                            0 <= i < j < items.len() && is_global_item(#[trigger] items[i])
                                && is_global_item(#[trigger] items[j]) implies decl_name(items[i])
                            != decl_name(items[j]) by {
                            assert(!has_duplicate_global(prefix));
                        }
                        assert forall|j: int|
                            0 <= j < items.len() && is_local_item(#[trigger] items[j]) implies
                            count_globals(items.take(j)) != 0 by {
                            assert(!has_local_before_global(prefix));
                        }
                        assert forall|i: int, j: int|
                            0 <= i < j < items.len() && is_local_item(#[trigger] items[i])
                                && is_local_item(#[trigger] items[j]) implies !(decl_name(items[i])
                            == decl_name(items[j]) && count_globals(items.take(i)) == count_globals(
                            items.take(j),
                        )) by {
                            assert(!has_duplicate_local(prefix));
                        }
                        let st = spec_extract(items)->Ok_0;
                        assert forall|n: Seq<char>|
                            #[trigger] st.globals.contains_key(n) <==> global_declared(
                                items,
                                n,
                            ) by {
                            if global_declared(items, n) {
                                let i = choose|i: int|
                                    0 <= i < items.len() && is_global_item(#[trigger] items[i])
                                        && decl_name(items[i]) == n;
                                assert(global_declared(prefix, n));
                            }
                            if st.globals.contains_key(n) {
                                let i = choose|i: int|
                                    0 <= i < m && is_global_item(#[trigger] prefix[i]) && decl_name(
                                        prefix[i],
                                    ) == n;
                                assert(is_global_item(items[i]) && decl_name(items[i]) == n);
                            }
                        }
                        assert forall|kk: int, n: Seq<char>|
                            0 <= kk < st.scopes.len() implies (#[trigger] st.scopes[
                            kk].contains_key(n) <==> local_declared(items, kk, n)) by {
                            if local_declared(items, kk, n) {
                                let i = choose|i: int|
                                    0 <= i < items.len() && is_local_item(#[trigger] items[i])
                                        && decl_name(items[i]) == n && count_globals(items.take(i))
                                        == kk + 1;
                                assert(local_declared(prefix, kk, n));
                            }
                            if st.scopes[kk].contains_key(n) {
                                let i = choose|i: int|
                                    0 <= i < m && is_local_item(#[trigger] prefix[i]) && decl_name(
                                        prefix[i],
                                    ) == n && count_globals(prefix.take(i)) == kk + 1;
                                assert(is_local_item(items[i]) && count_globals(items.take(i))
                                    == kk + 1);
                            }
                        }
                    },
                }
            },
        }
    }
}

/// Label uniqueness: the pre-pass fails exactly when the stream holds a
/// duplicated global label, a duplicated local label within one scope, or
/// a local label before any global one — and linking a faulty stream
/// therefore fails too.
pub proof fn lemma_label_uniqueness(items: Seq<ParsedItem>)
    ensures
        spec_extract(items) is Err <==> label_fault(items),
        label_fault(items) ==> spec_link(items) is Err,
{
    lemma_extract_characterizes(items);
}

} // verus!
