//! Compiled modules, their imports, exports and globals, and how each is relocated.
use crate::mavm::{can_relocate, imm_label, label_num, relocated_label, Instruction, Label, Location, Opcode, Value};
use vstd::prelude::*;

verus! {

pub type StringId = usize;

/// The names that the front end numbered.
pub struct StringTable {
    pub names: Vec<String>,
}

impl StringTable {
    pub fn new(names: Vec<String>) -> (r: StringTable)
        ensures
            r.names@ == names@,
    {
        StringTable { names }
    }

    pub fn name_from_id(&self, id: StringId) -> (r: &String)
        requires
            id < self.names@.len(),
        ensures
            *r == self.names@[id as int],
    {
        &self.names[id]
    }
}

/// What stopped the link.
#[derive(Clone, Copy, Debug, PartialEq, Eq, Structural)]
pub enum CompileErrorKind {
    /// An instruction still carries this pipeline-internal opcode where only native ones may stand.
    VirtualOpcode(Opcode),
    /// A tuple or global read at this logical index of a tuple of this size.
    TupleIndex(usize, usize),
    /// A jump target that no label marker defines.
    UndefinedLabel(Label),
    /// The instruction that initializes global storage is not where the mode puts it, or has
    /// not the shape of the globals.
    MalformedPreamble,
}

/// A fatal error, with the best-known source location.
#[derive(Clone, Copy, Debug, PartialEq, Eq, Structural)]
pub struct CompileError {
    pub kind: CompileErrorKind,
    pub location: Option<Location>,
}

impl CompileError {
    pub fn new(kind: CompileErrorKind, location: Option<Location>) -> (r: CompileError)
        ensures
            r.kind == kind,
            r.location == location,
    {
        CompileError { kind, location }
    }
}

/// A declared type, kept for diagnostics only.
#[derive(Clone, Copy, Debug, PartialEq, Eq, Structural)]
pub enum Type {
    Any,
    Void,
    Int,
    Bool,
    Func,
    /// A type declared under the given name.
    Named(StringId),
}

/// An import generated by a `use` statement.
pub struct Import {
    /// Module path, relative to the logical program root.
    pub path: Vec<String>,
    /// Name of the type or function imported.
    pub name: String,
}

impl Import {
    pub fn new(path: Vec<String>, name: String) -> (r: Import)
        ensures
            r.path == path,
            r.name == name,
    {
        Import { path, name }
    }
}

/// A function that a module takes from another module.
pub struct ImportedFunc {
    pub name_id: StringId,
    pub slot_num: usize,
    pub name: String,
}

impl ImportedFunc {
    pub fn new(slot_num: usize, name_id: StringId, string_table: &StringTable) -> (r: ImportedFunc)
        requires
            name_id < string_table.names@.len(),
        ensures
            r.name_id == name_id,
            r.slot_num == slot_num,
            r.name@ == string_table.names@[name_id as int]@,
    {
        ImportedFunc { name_id, slot_num, name: string_table.name_from_id(name_id).clone() }
    }

    /// Moves the slot number by `ext_offset`, so that slots stay unique across modules.
    pub fn relocate(self, _int_offset: usize, ext_offset: usize) -> (r: ImportedFunc)
        requires
            self.slot_num + ext_offset <= usize::MAX,
        ensures
            r == relocated_import(self, ext_offset as nat),
    {
        let mut s = self;
        s.slot_num = s.slot_num + ext_offset;
        s
    }
}

pub open spec fn relocated_import(imp: ImportedFunc, ext_offset: nat) -> ImportedFunc {
    ImportedFunc { slot_num: (imp.slot_num + ext_offset) as usize, ..imp }
}

/// A function of a module's public interface; `label` marks its entry.
pub struct ExportedFunc {
    pub name: String,
    pub label: Label,
    pub tipe: Type,
}

pub open spec fn relocated_export(e: ExportedFunc, io: nat, eo: nat, fo: nat) -> ExportedFunc {
    ExportedFunc { label: relocated_label(e.label, io, eo, fo), ..e }
}

impl ExportedFunc {
    pub fn new(name_id: StringId, label: Label, tipe: Type, string_table: &StringTable) -> (r:
        ExportedFunc)
        requires
            name_id < string_table.names@.len(),
        ensures
            r.name@ == string_table.names@[name_id as int]@,
            r.label == label,
            r.tipe == tipe,
    {
        ExportedFunc { name: string_table.name_from_id(name_id).clone(), label, tipe }
    }

    /// Shifts the entry label by the offset of its kind; also returns where the function now
    /// starts, which is `func_offset` for an entry that is not a function label.
    pub fn relocate(self, int_offset: usize, ext_offset: usize, func_offset: usize) -> (r: (
        ExportedFunc,
        usize,
    ))
        requires
            can_relocate(self.label, int_offset as nat, ext_offset as nat, func_offset as nat),
        ensures
            r.0 == relocated_export(self, int_offset as nat, ext_offset as nat, func_offset as nat),
            r.1 == match self.label {
                Label::Func(n) => n + func_offset,
                _ => func_offset as int,
            },
    {
        let (relocated_label, new_func_offset) = self.label.relocate(
            int_offset,
            ext_offset,
            func_offset,
        );
        (ExportedFunc { name: self.name, label: relocated_label, tipe: self.tipe }, new_func_offset)
    }
}

/// A reserved global storage slot.
pub struct GlobalVarDecl {
    pub name_id: StringId,
    pub name: String,
    pub tipe: Type,
    pub location: Option<Location>,
}

impl GlobalVarDecl {
    pub fn new(name_id: StringId, name: String, tipe: Type, location: Option<Location>) -> (r:
        GlobalVarDecl)
        ensures
            r.name_id == name_id,
            r.name == name,
            r.tipe == tipe,
            r.location == location,
    {
        GlobalVarDecl { name_id, name, tipe, location }
    }
}

/// Which source file each stretch of code came from: a start offset and a file name for each.
pub struct SourceFileMap {
    pub offsets: Vec<(usize, String)>,
    pub end: usize,
}

impl SourceFileMap {
    pub fn new_empty() -> (r: SourceFileMap)
        ensures
            r.offsets@.len() == 0,
            r.end == 0,
    {
        SourceFileMap { offsets: Vec::new(), end: 0 }
    }

    /// Records that the next `size` instructions come from `name`.
    pub fn push(&mut self, size: usize, name: String)
        requires
            old(self).end + size <= usize::MAX,
        ensures
            final(self).offsets@ == old(self).offsets@.push((old(self).end, name)),
            final(self).end == old(self).end + size,
    {
        self.offsets.push((self.end, name));
        self.end = self.end + size;
    }

    /// The name of the first file, or the empty string when there is none.
    pub fn first_name(&self) -> (r: String)
        ensures
            self.offsets@.len() > 0 ==> r@ == self.offsets@[0].1@,
            self.offsets@.len() == 0 ==> r@ == Seq::<char>::empty(),
    {
        if self.offsets.len() > 0 {
            self.offsets[0].1.clone()
        } else {
            String::new()
        }
    }
}

/// One module as the front end produced it, or the merged program.
pub struct CompiledProgram {
    pub code: Vec<Instruction<Opcode>>,
    pub exported_funcs: Vec<ExportedFunc>,
    pub imported_funcs: Vec<ImportedFunc>,
    pub globals: Vec<GlobalVarDecl>,
    pub source_file_map: Option<SourceFileMap>,
    /// Source file names by the hash of each name.
    pub file_name_chart: Vec<(u64, String)>,
}

/// A label that fits in a module: addresses and function entries within its code, slots within
/// its imports.
pub open spec fn label_in_module(l: Label, p: CompiledProgram) -> bool {
    match l {
        Label::Func(n) => n < p.code@.len(),
        Label::Internal(n) => n < p.code@.len(),
        Label::External(n) => n < p.imported_funcs@.len(),
    }
}

pub open spec fn insn_in_module(insn: Instruction<Opcode>, p: CompiledProgram) -> bool {
    &&& (imm_label(insn) matches Some(l) ==> label_in_module(l, p))
    &&& match insn.opcode {
        Opcode::Label(l) => label_in_module(l, p),
        Opcode::GetGlobalVar(k) => k < p.globals@.len(),
        Opcode::SetGlobalVar(k) => k < p.globals@.len(),
        _ => true,
    }
}

/// A well-formed module: every label and global slot it names lies within it, and each import's
/// slot number is its position among the imports.
pub open spec fn wf_module(p: CompiledProgram) -> bool {
    &&& forall|k: int| 0 <= k < p.code@.len() ==> insn_in_module(#[trigger] p.code@[k], p)
    &&& forall|k: int| 0 <= k < p.exported_funcs@.len() ==> label_in_module(
        #[trigger] p.exported_funcs@[k].label,
        p,
    )
    &&& forall|k: int| 0 <= k < p.imported_funcs@.len() ==> #[trigger] p.imported_funcs@[k].slot_num
        == k
}

/// The instruction with its labels moved by the three offsets and its global slots by `go`.
pub open spec fn relocated_insn(insn: Instruction<Opcode>, io: nat, eo: nat, fo: nat, go: nat) -> Instruction<
    Opcode,
> {
    Instruction {
        opcode: match insn.opcode {
            Opcode::Label(l) => Opcode::Label(relocated_label(l, io, eo, fo)),
            Opcode::GetGlobalVar(k) => Opcode::GetGlobalVar((k + go) as usize),
            Opcode::SetGlobalVar(k) => Opcode::SetGlobalVar((k + go) as usize),
            op => op,
        },
        immediate: match insn.immediate {
            Some(Value::Label(l)) => Some(Value::Label(relocated_label(l, io, eo, fo))),
            imm => imm,
        },
        debug_info: insn.debug_info,
    }
}

/// One past the largest function number that a label names, or zero.
pub open spec fn label_func_end(l: Label) -> nat {
    match l {
        Label::Func(n) => (n + 1) as nat,
        _ => 0,
    }
}

pub open spec fn max_nat(a: nat, b: nat) -> nat {
    if a >= b {
        a
    } else {
        b
    }
}

pub open spec fn insn_func_end(insn: Instruction<Opcode>) -> nat {
    max_nat(
        match insn.opcode {
            Opcode::Label(l) => label_func_end(l),
            _ => 0,
        },
        match imm_label(insn) {
            Some(l) => label_func_end(l),
            None => 0,
        },
    )
}

pub open spec fn code_func_end(code: Seq<Instruction<Opcode>>) -> nat
    decreases code.len(),
{
    if code.len() == 0 {
        0
    } else {
        max_nat(code_func_end(code.drop_last()), insn_func_end(code.last()))
    }
}

pub open spec fn exports_func_end(exps: Seq<ExportedFunc>) -> nat
    decreases exps.len(),
{
    if exps.len() == 0 {
        0
    } else {
        max_nat(exports_func_end(exps.drop_last()), label_func_end(exps.last().label))
    }
}

/// One past the last function number that the module uses.
pub open spec fn func_end(p: CompiledProgram) -> nat {
    max_nat(code_func_end(p.code@), exports_func_end(p.exported_funcs@))
}

pub proof fn lemma_code_func_end_bound(code: Seq<Instruction<Opcode>>, bound: nat)
    requires
        forall|k: int| 0 <= k < code.len() ==> #[trigger] insn_func_end(code[k]) <= bound,
    ensures
        code_func_end(code) <= bound,
    decreases code.len(),
{
    if code.len() > 0 {
        lemma_code_func_end_bound(code.drop_last(), bound);
    }
}

pub proof fn lemma_exports_func_end_bound(exps: Seq<ExportedFunc>, bound: nat)
    requires
        forall|k: int| 0 <= k < exps.len() ==> #[trigger] label_func_end(exps[k].label) <= bound,
    ensures
        exports_func_end(exps) <= bound,
    decreases exps.len(),
{
    if exps.len() > 0 {
        lemma_exports_func_end_bound(exps.drop_last(), bound);
    }
}

/// A well-formed module uses no function number beyond its code.
pub proof fn lemma_func_end_bound(p: CompiledProgram)
    requires
        wf_module(p),
    ensures
        func_end(p) <= p.code@.len(),
{
    assert forall|k: int| 0 <= k < p.code@.len() implies #[trigger] insn_func_end(p.code@[k])
        <= p.code@.len() by {
        assert(insn_in_module(p.code@[k], p));
    }
    lemma_code_func_end_bound(p.code@, p.code@.len());
    assert forall|k: int| 0 <= k < p.exported_funcs@.len() implies #[trigger] label_func_end(
        p.exported_funcs@[k].label,
    ) <= p.code@.len() by {}
    lemma_exports_func_end_bound(p.exported_funcs@, p.code@.len());
}

/// The elements of `v` in reverse order.
pub fn reversed<T>(v: Vec<T>) -> (r: Vec<T>)
    ensures
        r@.len() == v@.len(),
        forall|k: int| 0 <= k < v@.len() ==> #[trigger] r@[k] == v@[v@.len() - 1 - k],
{
    let mut v = v;
    let ghost v0 = v@;
    let mut r: Vec<T> = Vec::new();
    while v.len() > 0
        invariant
            v@ == v0.take(v0.len() - r@.len()),
            r@.len() <= v0.len(),
            forall|k: int| 0 <= k < r@.len() ==> #[trigger] r@[k] == v0[v0.len() - 1 - k],
        decreases v.len(),
    {
        let x = v.pop().unwrap();
        r.push(x);
        assert(v@ =~= v0.take(v0.len() - r@.len()));
    }
    r
}

/// Moves the instruction's labels by the three offsets and its global slots by `global_offset`.
pub fn relocate_insn(
    insn: Instruction<Opcode>,
    int_offset: usize,
    ext_offset: usize,
    func_offset: usize,
    global_offset: usize,
) -> (r: Instruction<Opcode>)
    requires
        imm_label(insn) matches Some(l) ==> can_relocate(
            l,
            int_offset as nat,
            ext_offset as nat,
            func_offset as nat,
        ),
        insn.opcode matches Opcode::Label(l) ==> can_relocate(
            l,
            int_offset as nat,
            ext_offset as nat,
            func_offset as nat,
        ),
        insn.opcode matches Opcode::GetGlobalVar(k) ==> k + global_offset <= usize::MAX,
        insn.opcode matches Opcode::SetGlobalVar(k) ==> k + global_offset <= usize::MAX,
    ensures
        r == relocated_insn(
            insn,
            int_offset as nat,
            ext_offset as nat,
            func_offset as nat,
            global_offset as nat,
        ),
{
    let opcode = match insn.opcode {
        Opcode::Label(l) => Opcode::Label(l.relocate(int_offset, ext_offset, func_offset).0),
        Opcode::GetGlobalVar(k) => Opcode::GetGlobalVar(k + global_offset),
        Opcode::SetGlobalVar(k) => Opcode::SetGlobalVar(k + global_offset),
        op => op,
    };
    let immediate = match insn.immediate {
        Some(Value::Label(l)) => Some(
            Value::Label(l.relocate(int_offset, ext_offset, func_offset).0),
        ),
        imm => imm,
    };
    Instruction { opcode, immediate, debug_info: insn.debug_info }
}

/// The largest function end among the instructions, computed.
fn code_func_end_exec(code: &Vec<Instruction<Opcode>>) -> (r: usize)
    requires
        forall|k: int| 0 <= k < code@.len() ==> #[trigger] insn_func_end(code@[k]) <= usize::MAX,
    ensures
        r == code_func_end(code@),
{
    let mut m: usize = 0;
    let mut i: usize = 0;
    while i < code.len()
        invariant
            i <= code@.len(),
            m == code_func_end(code@.take(i as int)),
            forall|k: int| 0 <= k < code@.len() ==> #[trigger] insn_func_end(code@[k]) <= usize::MAX,
        decreases code@.len() - i,
    {
        let insn = &code[i];
        assert(code@.take(i + 1).drop_last() =~= code@.take(i as int));
        assert(insn_func_end(code@[i as int]) <= usize::MAX);
        let a: usize = match insn.opcode {
            Opcode::Label(Label::Func(n)) => n + 1,
            _ => 0,
        };
        let b: usize = match insn.immediate {
            Some(Value::Label(Label::Func(n))) => n + 1,
            _ => 0,
        };
        let e = if a >= b {
            a
        } else {
            b
        };
        if e > m {
            m = e;
        }
        i = i + 1;
    }
    assert(code@.take(code@.len() as int) =~= code@);
    m
}

/// The largest function end among the export labels, computed.
fn exports_func_end_exec(exps: &Vec<ExportedFunc>) -> (r: usize)
    requires
        forall|k: int| 0 <= k < exps@.len() ==> #[trigger] label_func_end(exps@[k].label) <= usize::MAX,
    ensures
        r == exports_func_end(exps@),
{
    let mut m: usize = 0;
    let mut i: usize = 0;
    while i < exps.len()
        invariant
            i <= exps@.len(),
            m == exports_func_end(exps@.take(i as int)),
            forall|k: int| 0 <= k < exps@.len() ==> #[trigger] label_func_end(exps@[k].label) <= usize::MAX,
        decreases exps@.len() - i,
    {
        assert(exps@.take(i + 1).drop_last() =~= exps@.take(i as int));
        assert(label_func_end(exps@[i as int].label) <= usize::MAX);
        let e: usize = match exps[i].label {
            Label::Func(n) => n + 1,
            _ => 0,
        };
        if e > m {
            m = e;
        }
        i = i + 1;
    }
    assert(exps@.take(exps@.len() as int) =~= exps@);
    m
}

impl CompiledProgram {
    /// Moves every address and label of the module by the offsets of their kinds and puts its
    /// globals after `globals`; also returns where the next module's functions start.
    pub fn relocate(
        self,
        int_offset: usize,
        ext_offset: usize,
        func_offset: usize,
        globals: Vec<GlobalVarDecl>,
    ) -> (r: (CompiledProgram, usize))
        requires
            wf_module(self),
            int_offset + self.code@.len() <= usize::MAX,
            func_offset + self.code@.len() <= usize::MAX,
            ext_offset + self.imported_funcs@.len() <= usize::MAX,
            globals@.len() + self.globals@.len() <= usize::MAX,
        ensures
            r.0.code@.len() == self.code@.len(),
            forall|k: int|
                0 <= k < self.code@.len() ==> #[trigger] r.0.code@[k] == relocated_insn(
                    self.code@[k],
                    int_offset as nat,
                    ext_offset as nat,
                    func_offset as nat,
                    globals@.len(),
                ),
            r.0.exported_funcs@ == self.exported_funcs@.map_values(
                |e: ExportedFunc| relocated_export(e, int_offset as nat, ext_offset as nat, func_offset as nat),
            ),
            r.0.imported_funcs@ == self.imported_funcs@.map_values(
                |i: ImportedFunc| relocated_import(i, ext_offset as nat),
            ),
            r.0.globals@ == globals@ + self.globals@,
            r.0.source_file_map == self.source_file_map,
            r.0.file_name_chart == self.file_name_chart,
            r.1 == func_offset + func_end(self),
    {
        proof {
            lemma_func_end_bound(self);
        }
        let ghost p = self;
        let CompiledProgram {
            code,
            exported_funcs,
            imported_funcs,
            globals: own_globals,
            source_file_map,
            file_name_chart,
        } = self;
        let ghost go = globals@.len();
        assert forall|k: int| 0 <= k < code@.len() implies #[trigger] insn_func_end(code@[k])
            <= usize::MAX by {
            assert(insn_in_module(code@[k], p));
        }
        assert forall|k: int| 0 <= k < exported_funcs@.len() implies #[trigger] label_func_end(
            exported_funcs@[k].label,
        ) <= usize::MAX by {
            assert(label_in_module(exported_funcs@[k].label, p));
        }
        let end = func_offset + if code_func_end_exec(&code) >= exports_func_end_exec(
            &exported_funcs,
        ) {
            code_func_end_exec(&code)
        } else {
            exports_func_end_exec(&exported_funcs)
        };
        let global_offset = globals.len();
        let ghost c0 = code@;
        let mut rev = reversed(code);
        let mut new_code: Vec<Instruction<Opcode>> = Vec::new();
        while rev.len() > 0
            invariant
                new_code@.len() + rev@.len() == c0.len(),
                forall|k: int|
                    0 <= k < new_code@.len() ==> #[trigger] new_code@[k] == relocated_insn(
                        c0[k],
                        int_offset as nat,
                        ext_offset as nat,
                        func_offset as nat,
                        go,
                    ),
                forall|k: int| 0 <= k < rev@.len() ==> #[trigger] rev@[k] == c0[c0.len() - 1 - k],
                forall|k: int| 0 <= k < c0.len() ==> insn_in_module(#[trigger] c0[k], p),
                c0 == p.code@,
                global_offset == go,
                go + p.globals@.len() <= usize::MAX,
                int_offset + p.code@.len() <= usize::MAX,
                func_offset + p.code@.len() <= usize::MAX,
                ext_offset + p.imported_funcs@.len() <= usize::MAX,
            decreases rev@.len(),
        {
            let ghost j = new_code@.len() as int;
            let insn = rev.pop().unwrap();
            assert(insn == c0[j]);
            assert(insn_in_module(c0[j], p));
            new_code.push(relocate_insn(insn, int_offset, ext_offset, func_offset, global_offset));
        }
        let ghost e0 = exported_funcs@;
        let mut rev_e = reversed(exported_funcs);
        let mut new_exports: Vec<ExportedFunc> = Vec::new();
        while rev_e.len() > 0
            invariant
                new_exports@.len() + rev_e@.len() == e0.len(),
                forall|k: int|
                    0 <= k < new_exports@.len() ==> #[trigger] new_exports@[k] == relocated_export(
                        e0[k],
                        int_offset as nat,
                        ext_offset as nat,
                        func_offset as nat,
                    ),
                forall|k: int| 0 <= k < rev_e@.len() ==> #[trigger] rev_e@[k] == e0[e0.len() - 1 - k],
                forall|k: int| 0 <= k < e0.len() ==> label_in_module(#[trigger] e0[k].label, p),
                int_offset + p.code@.len() <= usize::MAX,
                func_offset + p.code@.len() <= usize::MAX,
                ext_offset + p.imported_funcs@.len() <= usize::MAX,
            decreases rev_e@.len(),
        {
            let ghost j = new_exports@.len() as int;
            let e = rev_e.pop().unwrap();
            assert(e == e0[j]);
            assert(label_in_module(e0[j].label, p));
            new_exports.push(e.relocate(int_offset, ext_offset, func_offset).0);
        }
        let ghost i0 = imported_funcs@;
        let mut rev_i = reversed(imported_funcs);
        let mut new_imports: Vec<ImportedFunc> = Vec::new();
        while rev_i.len() > 0
            invariant
                new_imports@.len() + rev_i@.len() == i0.len(),
                forall|k: int|
                    0 <= k < new_imports@.len() ==> #[trigger] new_imports@[k] == relocated_import(
                        i0[k],
                        ext_offset as nat,
                    ),
                forall|k: int| 0 <= k < rev_i@.len() ==> #[trigger] rev_i@[k] == i0[i0.len() - 1 - k],
                forall|k: int| 0 <= k < i0.len() ==> #[trigger] i0[k].slot_num == k,
                ext_offset + i0.len() <= usize::MAX,
            decreases rev_i@.len(),
        {
            let ghost j = new_imports@.len() as int;
            let imp = rev_i.pop().unwrap();
            assert(imp == i0[j]);
            assert(i0[j].slot_num == j);
            new_imports.push(imp.relocate(int_offset, ext_offset));
        }
        let mut all_globals = globals;
        let mut own_globals = own_globals;
        let ghost g0 = all_globals@;
        let ghost g1 = own_globals@;
        all_globals.append(&mut own_globals);
        let r = CompiledProgram {
            code: new_code,
            exported_funcs: new_exports,
            imported_funcs: new_imports,
            globals: all_globals,
            source_file_map,
            file_name_chart,
        };
        assert(r.exported_funcs@ =~= e0.map_values(
            |e: ExportedFunc| relocated_export(e, int_offset as nat, ext_offset as nat, func_offset as nat),
        ));
        assert(r.imported_funcs@ =~= i0.map_values(
            |i: ImportedFunc| relocated_import(i, ext_offset as nat),
        ));
        (r, end)
    }
}

} // verus!
