//! Merging modules into one program: offsets, relocation, and resolution of imports by name.
use crate::mavm::{
    imm_label, is_none_value, relocated_label, AVMOpcode, DebugInfo, Instruction, Label, Opcode,
    Value,
};
use crate::program::{
    func_end, insn_in_module, label_in_module, lemma_func_end_bound, relocated_export, relocated_import, relocated_insn, reversed,
    wf_module, CompileError, CompiledProgram, ExportedFunc, GlobalVarDecl, ImportedFunc,
    SourceFileMap, Type,
};
use crate::tuples::{is_nested, make_uninitialized_tuple, nested_get};
use vstd::prelude::*;

verus! {

/// Number of instructions reserved ahead of all modules for initializing global storage.
pub const PREAMBLE_LEN: usize = 3;

/// Address of the first instruction of module `i`.
pub open spec fn code_offset(progs: Seq<CompiledProgram>, i: int) -> nat
    decreases i,
{
    if i <= 0 {
        3
    } else {
        code_offset(progs, i - 1) + progs[i - 1].code@.len()
    }
}

/// Slot number of the first import of module `i`.
pub open spec fn import_offset(progs: Seq<CompiledProgram>, i: int) -> nat
    decreases i,
{
    if i <= 0 {
        0
    } else {
        import_offset(progs, i - 1) + progs[i - 1].imported_funcs@.len()
    }
}

/// Slot of the first global of module `i`.
pub open spec fn global_offset(progs: Seq<CompiledProgram>, i: int) -> nat
    decreases i,
{
    if i <= 0 {
        0
    } else {
        global_offset(progs, i - 1) + progs[i - 1].globals@.len()
    }
}

/// First function number of module `i`: chained through each module's own function layout.
pub open spec fn func_offset(progs: Seq<CompiledProgram>, i: int) -> nat
    decreases i,
{
    if i <= 0 {
        0
    } else {
        func_offset(progs, i - 1) + func_end(progs[i - 1])
    }
}

/// The exports of module `i`, relocated.
pub open spec fn module_exports(progs: Seq<CompiledProgram>, i: int) -> Seq<ExportedFunc> {
    progs[i].exported_funcs@.map_values(
        |e: ExportedFunc|
            relocated_export(e, code_offset(progs, i), import_offset(progs, i), func_offset(progs, i)),
    )
}

/// The imports of module `i`, relocated.
pub open spec fn module_imports(progs: Seq<CompiledProgram>, i: int) -> Seq<ImportedFunc> {
    progs[i].imported_funcs@.map_values(
        |imp: ImportedFunc| relocated_import(imp, import_offset(progs, i)),
    )
}

/// The exports of the first `n` modules, in module order.
pub open spec fn linked_exports(progs: Seq<CompiledProgram>, n: int) -> Seq<ExportedFunc>
    decreases n,
{
    if n <= 0 {
        Seq::empty()
    } else {
        linked_exports(progs, n - 1) + module_exports(progs, n - 1)
    }
}

/// The imports of the first `n` modules, in module order.
pub open spec fn linked_imports(progs: Seq<CompiledProgram>, n: int) -> Seq<ImportedFunc>
    decreases n,
{
    if n <= 0 {
        Seq::empty()
    } else {
        linked_imports(progs, n - 1) + module_imports(progs, n - 1)
    }
}

/// The globals of the first `n` modules, in module order.
pub open spec fn linked_globals(progs: Seq<CompiledProgram>, n: int) -> Seq<GlobalVarDecl>
    decreases n,
{
    if n <= 0 {
        Seq::empty()
    } else {
        linked_globals(progs, n - 1) + progs[n - 1].globals@
    }
}

/// The file-name charts of the first `n` modules, in module order.
pub open spec fn linked_chart(progs: Seq<CompiledProgram>, n: int) -> Seq<(u64, String)>
    decreases n,
{
    if n <= 0 {
        Seq::empty()
    } else {
        linked_chart(progs, n - 1) + progs[n - 1].file_name_chart@
    }
}

/// The label of the last export named `name`, if any.
pub open spec fn resolve_name(exps: Seq<ExportedFunc>, name: Seq<char>) -> Option<Label>
    decreases exps.len(),
{
    if exps.len() == 0 {
        None
    } else if exps.last().name@ == name {
        Some(exps.last().label)
    } else {
        resolve_name(exps.drop_last(), name)
    }
}

/// An external label becomes the label of the export that its import names; any other label,
/// and an import that nothing exports, stays as it is.
pub open spec fn xlate_label(l: Label, imps: Seq<ImportedFunc>, exps: Seq<ExportedFunc>) -> Label {
    match l {
        Label::External(s) => if s < imps.len() && resolve_name(exps, imps[s as int].name@) is Some {
            resolve_name(exps, imps[s as int].name@)->Some_0
        } else {
            l
        },
        _ => l,
    }
}

pub open spec fn xlated_insn(
    insn: Instruction<Opcode>,
    imps: Seq<ImportedFunc>,
    exps: Seq<ExportedFunc>,
) -> Instruction<Opcode> {
    Instruction {
        immediate: match insn.immediate {
            Some(Value::Label(l)) => Some(Value::Label(xlate_label(l, imps, exps))),
            imm => imm,
        },
        ..insn
    }
}

/// Where instruction `k` of module `i` ends up in the linked program.
pub open spec fn linked_insn(progs: Seq<CompiledProgram>, i: int, k: int) -> Instruction<Opcode> {
    xlated_insn(
        relocated_insn(
            progs[i].code@[k],
            code_offset(progs, i),
            import_offset(progs, i),
            func_offset(progs, i),
            global_offset(progs, i),
        ),
        linked_imports(progs, progs.len() as int),
        linked_exports(progs, progs.len() as int),
    )
}

/// Every slot of the chained tuple of `n` slots is none.
pub open spec fn is_uninitialized(v: Value, n: nat) -> bool {
    is_nested(v, n) && forall|k: nat| k < n ==> is_none_value(#[trigger] nested_get(v, n, k))
}

/// Offset of the preamble instruction whose immediate holds the globals.
pub open spec fn globals_insn_offset(test_mode: bool) -> int {
    if test_mode {
        1
    } else {
        2
    }
}

/// The three instructions ahead of the modules: in test mode they build fresh global storage of
/// `g` slots in place; otherwise they fetch the storage register and overwrite it.
pub open spec fn preamble_ok(code: Seq<Instruction<Opcode>>, test_mode: bool, g: nat) -> bool {
    &&& code.len() >= 3
    &&& forall|i: int| 0 <= i < 3 ==> (#[trigger] code[i]).debug_info.location is None
    &&& if test_mode {
        &&& code[0].opcode == Opcode::AVMOpcode(AVMOpcode::Noop)
        &&& code[0].immediate matches Some(v) && is_none_value(v)
        &&& code[1].opcode == Opcode::AVMOpcode(AVMOpcode::Noop)
        &&& code[1].immediate matches Some(v) && is_uninitialized(v, g)
        &&& code[2].opcode == Opcode::AVMOpcode(AVMOpcode::Rset)
        &&& code[2].immediate is None
    } else {
        &&& code[0].opcode == Opcode::AVMOpcode(AVMOpcode::Rget)
        &&& code[0].immediate is None
        &&& code[1].opcode == Opcode::AVMOpcode(AVMOpcode::Noop)
        &&& code[1].immediate matches Some(v) && is_none_value(v)
        &&& code[2].opcode == Opcode::AVMOpcode(AVMOpcode::Rset)
        &&& code[2].immediate matches Some(v) && is_uninitialized(v, g)
    }
}

/// Every module well formed, and the merged program's sizes within `usize`.
pub open spec fn linkable(progs: Seq<CompiledProgram>) -> bool {
    &&& forall|i: int| 0 <= i < progs.len() ==> wf_module(#[trigger] progs[i])
    &&& code_offset(progs, progs.len() as int) <= usize::MAX
    &&& import_offset(progs, progs.len() as int) <= usize::MAX
    &&& global_offset(progs, progs.len() as int) < usize::MAX
}

pub proof fn lemma_offsets_monotone(progs: Seq<CompiledProgram>, i: int, j: int)
    requires
        0 <= i <= j <= progs.len(),
    ensures
        code_offset(progs, i) <= code_offset(progs, j),
        import_offset(progs, i) <= import_offset(progs, j),
        global_offset(progs, i) <= global_offset(progs, j),
    decreases j - i,
{
    if i < j {
        lemma_offsets_monotone(progs, i, j - 1);
    }
}

/// Function numbers never run ahead of instruction addresses.
pub proof fn lemma_func_offset_bound(progs: Seq<CompiledProgram>, i: int)
    requires
        0 <= i <= progs.len(),
        forall|j: int| 0 <= j < progs.len() ==> wf_module(#[trigger] progs[j]),
    ensures
        func_offset(progs, i) + 3 <= code_offset(progs, i),
    decreases i,
{
    if i > 0 {
        lemma_func_offset_bound(progs, i - 1);
        lemma_func_end_bound(progs[i - 1]);
    }
}

/// Instruction `k` of module `i` lands inside the merged stream, within module `i`'s range.
pub proof fn lemma_offset_in_range(progs: Seq<CompiledProgram>, i: int, k: int)
    requires
        0 <= i < progs.len(),
        0 <= k < progs[i].code@.len(),
    ensures
        3 <= code_offset(progs, i) + k < code_offset(progs, progs.len() as int),
        code_offset(progs, i + 1) == code_offset(progs, i) + progs[i].code@.len(),
{
    lemma_offsets_monotone(progs, 0, i);
    lemma_offsets_monotone(progs, i + 1, progs.len() as int);
}

/// Distinct instructions of the input, whichever modules they come from, land at distinct
/// addresses of the merged stream: each module occupies the addresses right after the previous
/// one, starting after the preamble.
pub proof fn lemma_offsets_unique(progs: Seq<CompiledProgram>, i: int, k: int, j: int, m: int)
    requires
        0 <= i < progs.len(),
        0 <= j < progs.len(),
        0 <= k < progs[i].code@.len(),
        0 <= m < progs[j].code@.len(),
        i != j || k != m,
    ensures
        code_offset(progs, i) + k != code_offset(progs, j) + m,
        code_offset(progs, 0) == 3,
        code_offset(progs, i) + k < code_offset(progs, progs.len() as int),
        code_offset(progs, i + 1) == code_offset(progs, i) + progs[i].code@.len(),
{
    lemma_offset_in_range(progs, i, k);
    lemma_offset_in_range(progs, j, m);
    if i < j {
        lemma_offsets_monotone(progs, i + 1, j);
    } else if j < i {
        lemma_offsets_monotone(progs, j + 1, i);
    }
}

/// The label of the last export named `name`, computed.
fn find_export(exps: &Vec<ExportedFunc>, name: &String) -> (r: Option<Label>)
    ensures
        r == resolve_name(exps@, name@),
{
    let mut i: usize = exps.len();
    assert(exps@.take(i as int) =~= exps@);
    while i > 0
        invariant
            i <= exps@.len(),
            resolve_name(exps@, name@) == resolve_name(exps@.take(i as int), name@),
        decreases i,
    {
        let ghost t = exps@.take(i as int);
        assert(t.drop_last() =~= exps@.take(i - 1));
        if exps[i - 1].name == *name {
            return Some(exps[i - 1].label);
        }
        i = i - 1;
    }
    None
}

/// Replaces an external label in the immediate by the label of the export its import names.
fn xlate_insn(insn: Instruction<Opcode>, slots: &Vec<Option<Label>>, Ghost(imps): Ghost<
    Seq<ImportedFunc>,
>, Ghost(exps): Ghost<Seq<ExportedFunc>>) -> (r: Instruction<Opcode>)
    requires
        slots@.len() == imps.len(),
        forall|s: int| 0 <= s < imps.len() ==> #[trigger] slots@[s] == resolve_name(exps, imps[s].name@),
    ensures
        r == xlated_insn(insn, imps, exps),
{
    match insn.immediate {
        Some(Value::Label(Label::External(s))) => {
            if s < slots.len() {
                match slots[s] {
                    Some(t) => Instruction {
                        opcode: insn.opcode,
                        immediate: Some(Value::Label(t)),
                        debug_info: insn.debug_info,
                    },
                    None => Instruction {
                        opcode: insn.opcode,
                        immediate: Some(Value::Label(Label::External(s))),
                        debug_info: insn.debug_info,
                    },
                }
            } else {
                Instruction {
                    opcode: insn.opcode,
                    immediate: Some(Value::Label(Label::External(s))),
                    debug_info: insn.debug_info,
                }
            }
        },
        _ => insn,
    }
}

/// The three instructions that initialize global storage of `g` slots.
fn preamble(test_mode: bool, g: usize) -> (r: Vec<Instruction<Opcode>>)
    ensures
        r@.len() == 3,
        preamble_ok(r@, test_mode, g as nat),
{
    let d = DebugInfo { location: None };
    if test_mode {
        vec![
            Instruction::from_opcode_imm(Opcode::AVMOpcode(AVMOpcode::Noop), Value::none(), d),
            Instruction::from_opcode_imm(
                Opcode::AVMOpcode(AVMOpcode::Noop),
                make_uninitialized_tuple(g),
                d,
            ),
            Instruction::from_opcode(Opcode::AVMOpcode(AVMOpcode::Rset), d),
        ]
    } else {
        vec![
            Instruction::from_opcode(Opcode::AVMOpcode(AVMOpcode::Rget), d),
            Instruction::from_opcode_imm(Opcode::AVMOpcode(AVMOpcode::Noop), Value::none(), d),
            Instruction::from_opcode_imm(
                Opcode::AVMOpcode(AVMOpcode::Rset),
                make_uninitialized_tuple(g),
                d,
            ),
        ]
    }
}

/// The name a module's own source map gives first, or the empty string.
pub open spec fn module_file_name(p: CompiledProgram) -> Seq<char> {
    match p.source_file_map {
        Some(m) => if m.offsets@.len() > 0 {
            m.offsets@[0].1@
        } else {
            Seq::empty()
        },
        None => Seq::empty(),
    }
}

/// One entry per module: where its code starts, counted from the first module, and its file.
pub open spec fn source_map_of(progs: Seq<CompiledProgram>, m: SourceFileMap) -> bool {
    &&& m.offsets@.len() == progs.len()
    &&& m.end + 3 == code_offset(progs, progs.len() as int)
    &&& forall|i: int|
        0 <= i < progs.len() ==> (#[trigger] m.offsets@[i]).0 + 3 == code_offset(progs, i)
            && m.offsets@[i].1@ == module_file_name(progs[i])
}

/// `p` is the merge of `progs`: the preamble, then each module's code relocated to its offsets
/// with imports resolved, and the exports, imports, globals and charts of all modules in order,
/// with one more global slot for the jump table.
pub open spec fn is_link_of(progs: Seq<CompiledProgram>, test_mode: bool, p: CompiledProgram) -> bool {
    let n = progs.len() as int;
    let g = global_offset(progs, n) + 1;
    &&& p.code@.len() == code_offset(progs, n)
    &&& preamble_ok(p.code@, test_mode, g)
    &&& forall|i: int, k: int|
        0 <= i < n && 0 <= k < progs[i].code@.len() ==> p.code@[code_offset(progs, i) + k]
            == #[trigger] linked_insn(progs, i, k)
    &&& p.exported_funcs@ == linked_exports(progs, n)
    &&& p.imported_funcs@ == linked_imports(progs, n)
    &&& p.globals@.len() == g
    &&& p.globals@.drop_last() == linked_globals(progs, n)
    &&& p.globals@.last().tipe == Type::Any
    &&& p.globals@.last().name@ == "_jump_table"@
    &&& p.globals@.last().name_id == usize::MAX
    &&& p.globals@.last().location is None
    &&& p.file_name_chart@ == linked_chart(progs, n)
    &&& p.source_file_map matches Some(m) && source_map_of(progs, m)
}

/// Combines the modules into one program, with offsets that keep them apart and imports resolved
/// against exports by name. An import that nothing exports is left unresolved, not refused.
pub fn link(progs: Vec<CompiledProgram>, test_mode: bool) -> (r: Result<CompiledProgram, CompileError>)
    requires
        linkable(progs@),
    ensures
        r matches Ok(p) && is_link_of(progs@, test_mode, p),
{
    let ghost ps = progs@;
    let n = progs.len();
    let mut source_map = SourceFileMap::new_empty();
    let mut i: usize = 0;
    while i < n
        invariant
            i <= n,
            n == ps.len(),
            progs@ == ps,
            linkable(ps),
            source_map.end + 3 == code_offset(ps, i as int),
            source_map.offsets@.len() == i,
            forall|j: int|
                0 <= j < i ==> (#[trigger] source_map.offsets@[j]).0 + 3 == code_offset(ps, j)
                    && source_map.offsets@[j].1@ == module_file_name(ps[j]),
        decreases n - i,
    {
        proof {
            lemma_offsets_monotone(ps, i + 1, n as int);
        }
        let name = match &progs[i].source_file_map {
            Some(m) => m.first_name(),
            None => String::new(),
        };
        source_map.push(progs[i].code.len(), name);
        i = i + 1;
    }
    let mut rev = reversed(progs);
    let mut insns_so_far: usize = PREAMBLE_LEN;
    let mut imports_so_far: usize = 0;
    let mut func_so_far: usize = 0;
    let mut globals: Vec<GlobalVarDecl> = Vec::new();
    let mut body: Vec<Instruction<Opcode>> = Vec::new();
    let mut exports: Vec<ExportedFunc> = Vec::new();
    let mut imports: Vec<ImportedFunc> = Vec::new();
    let mut chart: Vec<(u64, String)> = Vec::new();
    let mut i: usize = 0;
    while rev.len() > 0
        invariant
            i + rev@.len() == n,
            n == ps.len(),
            linkable(ps),
            forall|k: int| 0 <= k < rev@.len() ==> #[trigger] rev@[k] == ps[n - 1 - k],
            insns_so_far == code_offset(ps, i as int),
            imports_so_far == import_offset(ps, i as int),
            func_so_far == func_offset(ps, i as int),
            globals@ == linked_globals(ps, i as int),
            globals@.len() == global_offset(ps, i as int),
            exports@ == linked_exports(ps, i as int),
            imports@ == linked_imports(ps, i as int),
            chart@ == linked_chart(ps, i as int),
            body@.len() + 3 == insns_so_far,
            forall|j: int, k: int|
                0 <= j < i && 0 <= k < ps[j].code@.len() ==> body@[code_offset(ps, j) - 3 + k]
                    == #[trigger] relocated_insn(
                    ps[j].code@[k],
                    code_offset(ps, j),
                    import_offset(ps, j),
                    func_offset(ps, j),
                    global_offset(ps, j),
                ),
        decreases rev@.len(),
    {
        let prog = rev.pop().unwrap();
        assert(prog == ps[i as int]);
        proof {
            lemma_offsets_monotone(ps, i + 1, n as int);
            lemma_func_offset_bound(ps, i as int);
            assert(wf_module(ps[i as int]));
        }
        let ghost old_body = body@;
        let (rp, new_func) = prog.relocate(insns_so_far, imports_so_far, func_so_far, globals);
        let CompiledProgram {
            code,
            exported_funcs,
            imported_funcs,
            globals: all_globals,
            source_file_map: _,
            file_name_chart,
        } = rp;
        let mut code = code;
        let mut exported_funcs = exported_funcs;
        let mut imported_funcs = imported_funcs;
        let mut file_name_chart = file_name_chart;
        insns_so_far = insns_so_far + code.len();
        imports_so_far = imports_so_far + imported_funcs.len();
        let ghost rc = code@;
        body.append(&mut code);
        exports.append(&mut exported_funcs);
        imports.append(&mut imported_funcs);
        chart.append(&mut file_name_chart);
        globals = all_globals;
        func_so_far = new_func;
        proof {
            assert forall|j: int, k: int|
                0 <= j < i + 1 && 0 <= k < ps[j].code@.len() implies body@[code_offset(ps, j) - 3
                + k] == #[trigger] relocated_insn(
                ps[j].code@[k],
                code_offset(ps, j),
                import_offset(ps, j),
                func_offset(ps, j),
                global_offset(ps, j),
            ) by {
                if j < i {
                    lemma_offsets_monotone(ps, j + 1, i as int);
                    lemma_offset_in_range(ps, j, k);
                    assert(body@ == old_body + rc);
                    assert(body@[code_offset(ps, j) - 3 + k] == old_body[code_offset(ps, j) - 3 + k]);
                } else {
                    lemma_offset_in_range(ps, j, k);
                    assert(body@[code_offset(ps, j) - 3 + k] == rc[k]);
                }
            }
        }
        i = i + 1;
    }
    let jump_table_name = "_jump_table".to_owned();
    proof {
        reveal_strlit("_jump_table");
    }
    globals.push(GlobalVarDecl::new(usize::MAX, jump_table_name, Type::Any, None));
    let mut slots: Vec<Option<Label>> = Vec::new();
    let mut s: usize = 0;
    while s < imports.len()
        invariant
            s <= imports@.len(),
            slots@.len() == s,
            forall|t: int| 0 <= t < s ==> #[trigger] slots@[t] == resolve_name(exports@, imports@[t].name@),
        decreases imports@.len() - s,
    {
        slots.push(find_export(&exports, &imports[s].name));
        s = s + 1;
    }
    let g = globals.len();
    let mut code = preamble(test_mode, g);
    let ghost b0 = body@;
    let mut rb = reversed(body);
    while rb.len() > 0
        invariant
            code@.len() >= 3,
            code@.len() - 3 + rb@.len() == b0.len(),
            preamble_ok(code@, test_mode, g as nat),
            forall|m: int| 0 <= m < code@.len() - 3 ==> #[trigger] code@[3 + m] == xlated_insn(
                b0[m],
                imports@,
                exports@,
            ),
            forall|m: int| 0 <= m < rb@.len() ==> #[trigger] rb@[m] == b0[b0.len() - 1 - m],
            slots@.len() == imports@.len(),
            forall|t: int| 0 <= t < imports@.len() ==> #[trigger] slots@[t] == resolve_name(exports@, imports@[t].name@),
        decreases rb@.len(),
    {
        let ghost m = code@.len() - 3;
        let insn = rb.pop().unwrap();
        assert(insn == b0[m]);
        code.push(xlate_insn(insn, &slots, Ghost(imports@), Ghost(exports@)));
        assert(code@[3 + m] == xlated_insn(b0[m], imports@, exports@));
    }
    let p = CompiledProgram {
        code,
        exported_funcs: exports,
        imported_funcs: imports,
        globals,
        source_file_map: Some(source_map),
        file_name_chart: chart,
    };
    proof {
        assert forall|i: int, k: int|
            0 <= i < n && 0 <= k < ps[i].code@.len() implies p.code@[code_offset(ps, i) + k]
            == #[trigger] linked_insn(ps, i, k) by {
            lemma_offset_in_range(ps, i, k);
            let m = code_offset(ps, i) - 3 + k;
            assert(p.code@[3 + m] == xlated_insn(b0[m], p.imported_funcs@, p.exported_funcs@));
        }
        assert(p.globals@.drop_last() =~= linked_globals(ps, n as int));
    }
    Ok(p)
}

/// Names of the imports that no export resolves, in import order.
pub open spec fn unresolved_names(imps: Seq<ImportedFunc>, exps: Seq<ExportedFunc>) -> Seq<Seq<char>>
    decreases imps.len(),
{
    if imps.len() == 0 {
        Seq::empty()
    } else if resolve_name(exps, imps.last().name@) is None {
        unresolved_names(imps.drop_last(), exps).push(imps.last().name@)
    } else {
        unresolved_names(imps.drop_last(), exps)
    }
}

/// The imports of a linked program that nothing exports: each is worth a warning, not an error,
/// since a call through it fails only when run.
pub fn unresolved_imports(prog: &CompiledProgram) -> (r: Vec<String>)
    ensures
        r@.map_values(|s: String| s@) == unresolved_names(prog.imported_funcs@, prog.exported_funcs@),
{
    let imps = &prog.imported_funcs;
    let mut r: Vec<String> = Vec::new();
    let mut i: usize = 0;
    while i < imps.len()
        invariant
            i <= imps@.len(),
            r@.map_values(|s: String| s@) == unresolved_names(imps@.take(i as int), prog.exported_funcs@),
        decreases imps@.len() - i,
    {
        assert(imps@.take(i + 1).drop_last() =~= imps@.take(i as int));
        let ghost old_r = r@;
        if find_export(&prog.exported_funcs, &imps[i].name).is_none() {
            r.push(imps[i].name.clone());
            assert(r@.map_values(|s: String| s@) =~= old_r.map_values(|s: String| s@).push(imps@[i as int].name@));
        }
        i = i + 1;
    }
    assert(imps@.take(imps@.len() as int) =~= imps@);
    r
}

/// Resolving against two export lists one after the other: the later list wins.
pub proof fn lemma_resolve_concat(x: Seq<ExportedFunc>, y: Seq<ExportedFunc>, name: Seq<char>)
    ensures
        resolve_name(x + y, name) == if resolve_name(y, name) is Some {
            resolve_name(y, name)
        } else {
            resolve_name(x, name)
        },
    decreases y.len(),
{
    if y.len() == 0 {
        assert(x + y =~= x);
    } else {
        assert((x + y).drop_last() =~= x + y.drop_last());
        lemma_resolve_concat(x, y.drop_last(), name);
    }
}

/// Relocating exports keeps which one a name resolves to, and relocates its label.
pub proof fn lemma_resolve_relocated(
    e: Seq<ExportedFunc>,
    e2: Seq<ExportedFunc>,
    name: Seq<char>,
    io: nat,
    eo: nat,
    fo: nat,
)
    requires
        e2.len() == e.len(),
        forall|j: int| 0 <= j < e.len() ==> #[trigger] e2[j] == relocated_export(e[j], io, eo, fo),
    ensures
        resolve_name(e2, name) == match resolve_name(e, name) {
            Some(l) => Some(relocated_label(l, io, eo, fo)),
            None => None,
        },
    decreases e.len(),
{
    if e.len() > 0 {
        assert(e2.last() == relocated_export(e.last(), io, eo, fo));
        lemma_resolve_relocated(e.drop_last(), e2.drop_last(), name, io, eo, fo);
    }
}

/// A call of module `b` through an import that module `a` exports, and `b` does not, resolves
/// to `a`'s entry label moved by `a`'s own offsets, whether `a` is linked before or after `b`:
/// the order changes only the absolute value.
pub proof fn lemma_resolution_order_independent(
    a: CompiledProgram,
    b: CompiledProgram,
    k: int,
    s: int,
    la: Label,
)
    requires
        0 <= k < b.code@.len(),
        0 <= s < b.imported_funcs@.len(),
        imm_label(b.code@[k]) == Some(Label::External(s as usize)),
        resolve_name(a.exported_funcs@, b.imported_funcs@[s].name@) == Some(la),
        resolve_name(b.exported_funcs@, b.imported_funcs@[s].name@) is None,
        a.imported_funcs@.len() + b.imported_funcs@.len() <= usize::MAX,
    ensures
        imm_label(linked_insn(seq![a, b], 1, k)) == Some(
            relocated_label(
                la,
                code_offset(seq![a, b], 0),
                import_offset(seq![a, b], 0),
                func_offset(seq![a, b], 0),
            ),
        ),
        imm_label(linked_insn(seq![b, a], 0, k)) == Some(
            relocated_label(
                la,
                code_offset(seq![b, a], 1),
                import_offset(seq![b, a], 1),
                func_offset(seq![b, a], 1),
            ),
        ),
{
    let name = b.imported_funcs@[s].name@;
    let ab = seq![a, b];
    let ba = seq![b, a];
    assert(ab[0] == a && ab[1] == b);
    assert(ba[0] == b && ba[1] == a);
    assert(linked_exports(ab, 0) == Seq::<ExportedFunc>::empty());
    assert(linked_imports(ab, 0) == Seq::<ImportedFunc>::empty());
    assert(linked_exports(ba, 0) == Seq::<ExportedFunc>::empty());
    assert(linked_imports(ba, 0) == Seq::<ImportedFunc>::empty());
    assert(import_offset(ab, 0) == 0 && import_offset(ba, 0) == 0);
    assert(import_offset(ab, 1) == a.imported_funcs@.len());
    assert(import_offset(ba, 1) == b.imported_funcs@.len());
    // a before b
    lemma_resolve_relocated(
        a.exported_funcs@,
        module_exports(ab, 0),
        name,
        code_offset(ab, 0),
        import_offset(ab, 0),
        func_offset(ab, 0),
    );
    lemma_resolve_relocated(
        b.exported_funcs@,
        module_exports(ab, 1),
        name,
        code_offset(ab, 1),
        import_offset(ab, 1),
        func_offset(ab, 1),
    );
    assert(linked_exports(ab, 1) =~= module_exports(ab, 0));
    lemma_resolve_concat(module_exports(ab, 0), module_exports(ab, 1), name);
    assert(linked_imports(ab, 1) =~= module_imports(ab, 0));
    let imps_ab = linked_imports(ab, 2);
    assert(imps_ab == module_imports(ab, 0) + module_imports(ab, 1));
    assert(imps_ab[a.imported_funcs@.len() + s] == module_imports(ab, 1)[s]);
    assert(linked_exports(ab, 2) == linked_exports(ab, 1) + module_exports(ab, 1));
    assert(resolve_name(linked_exports(ab, 2), name) == Some(
        relocated_label(la, code_offset(ab, 0), import_offset(ab, 0), func_offset(ab, 0)),
    ));
    assert(imps_ab[a.imported_funcs@.len() + s].name@ == name);
    let rab = relocated_insn(b.code@[k], code_offset(ab, 1), import_offset(ab, 1), func_offset(ab, 1), global_offset(ab, 1));
    assert(imm_label(rab) == Some(Label::External((a.imported_funcs@.len() + s) as usize)));
    assert(xlate_label(Label::External((a.imported_funcs@.len() + s) as usize), imps_ab, linked_exports(ab, 2))
        == relocated_label(la, code_offset(ab, 0), import_offset(ab, 0), func_offset(ab, 0)));
    assert(ab.len() == 2);
    // b before a
    lemma_resolve_relocated(
        b.exported_funcs@,
        module_exports(ba, 0),
        name,
        code_offset(ba, 0),
        import_offset(ba, 0),
        func_offset(ba, 0),
    );
    lemma_resolve_relocated(
        a.exported_funcs@,
        module_exports(ba, 1),
        name,
        code_offset(ba, 1),
        import_offset(ba, 1),
        func_offset(ba, 1),
    );
    assert(linked_exports(ba, 1) =~= module_exports(ba, 0));
    lemma_resolve_concat(module_exports(ba, 0), module_exports(ba, 1), name);
    assert(linked_imports(ba, 1) =~= module_imports(ba, 0));
    let imps_ba = linked_imports(ba, 2);
    assert(imps_ba == module_imports(ba, 0) + module_imports(ba, 1));
    assert(imps_ba[s] == module_imports(ba, 0)[s]);
    assert(linked_exports(ba, 2) == linked_exports(ba, 1) + module_exports(ba, 1));
    assert(resolve_name(linked_exports(ba, 2), name) == Some(
        relocated_label(la, code_offset(ba, 1), import_offset(ba, 1), func_offset(ba, 1)),
    ));
    assert(imps_ba[s].name@ == name);
    let rba = relocated_insn(b.code@[k], code_offset(ba, 0), import_offset(ba, 0), func_offset(ba, 0), global_offset(ba, 0));
    assert(imm_label(rba) == Some(Label::External(s as usize)));
    assert(ba.len() == 2);
}

fn label_fits(l: Label, p: &CompiledProgram) -> (r: bool)
    ensures
        r == label_in_module(l, *p),
{
    match l {
        Label::Func(n) => n < p.code.len(),
        Label::Internal(n) => n < p.code.len(),
        Label::External(n) => n < p.imported_funcs.len(),
    }
}

/// Whether every label and global slot of the module lies within it and each import's slot is
/// its position.
pub fn check_module(p: &CompiledProgram) -> (r: bool)
    ensures
        r == wf_module(*p),
{
    let mut i: usize = 0;
    while i < p.code.len()
        invariant
            i <= p.code@.len(),
            forall|k: int| 0 <= k < i ==> insn_in_module(#[trigger] p.code@[k], *p),
        decreases p.code@.len() - i,
    {
        let insn = &p.code[i];
        let imm_ok = match &insn.immediate {
            Some(Value::Label(l)) => label_fits(*l, p),
            _ => true,
        };
        let op_ok = match insn.opcode {
            Opcode::Label(l) => label_fits(l, p),
            Opcode::GetGlobalVar(k) => k < p.globals.len(),
            Opcode::SetGlobalVar(k) => k < p.globals.len(),
            _ => true,
        };
        if !(imm_ok && op_ok) {
            assert(!insn_in_module(p.code@[i as int], *p));
            return false;
        }
        i = i + 1;
    }
    let mut i: usize = 0;
    while i < p.exported_funcs.len()
        invariant
            i <= p.exported_funcs@.len(),
            forall|k: int| 0 <= k < i ==> label_in_module(#[trigger] p.exported_funcs@[k].label, *p),
        decreases p.exported_funcs@.len() - i,
    {
        if !label_fits(p.exported_funcs[i].label, p) {
            return false;
        }
        i = i + 1;
    }
    let mut i: usize = 0;
    while i < p.imported_funcs.len()
        invariant
            i <= p.imported_funcs@.len(),
            forall|k: int| 0 <= k < i ==> #[trigger] p.imported_funcs@[k].slot_num == k,
        decreases p.imported_funcs@.len() - i,
    {
        if p.imported_funcs[i].slot_num != i {
            return false;
        }
        i = i + 1;
    }
    true
}

/// Whether `link` may take these modules: each well formed, and the merged sizes within `usize`.
pub fn check_linkable(progs: &Vec<CompiledProgram>) -> (r: bool)
    ensures
        r == linkable(progs@),
{
    let ghost ps = progs@;
    let n = progs.len();
    let mut code_len: usize = PREAMBLE_LEN;
    let mut imports_len: usize = 0;
    let mut globals_len: usize = 0;
    let mut i: usize = 0;
    while i < n
        invariant
            i <= n,
            n == ps.len(),
            progs@ == ps,
            forall|j: int| 0 <= j < i ==> wf_module(#[trigger] ps[j]),
            code_len == code_offset(ps, i as int),
            imports_len == import_offset(ps, i as int),
            globals_len == global_offset(ps, i as int),
            globals_len < usize::MAX,
        decreases n - i,
    {
        if !check_module(&progs[i]) {
            return false;
        }
        let p = &progs[i];
        if p.code.len() > usize::MAX - code_len || p.imported_funcs.len() > usize::MAX - imports_len
            || p.globals.len() >= usize::MAX - globals_len {
            proof {
                lemma_offsets_monotone(ps, i + 1, n as int);
            }
            return false;
        }
        code_len = code_len + p.code.len();
        imports_len = imports_len + p.imported_funcs.len();
        globals_len = globals_len + p.globals.len();
        i = i + 1;
    }
    true
}

} // verus!
