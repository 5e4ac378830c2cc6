use arb_link::link::{check_linkable, check_module, link, unresolved_imports};
use arb_link::mavm::{AVMOpcode, DebugInfo, Instruction, Label, Location, Opcode, Value};
use arb_link::postlink::{hardcode_jump_table_into_register, postlink_compile};
use arb_link::program::{
    CompileErrorKind, CompiledProgram, ExportedFunc, GlobalVarDecl, Import, ImportedFunc,
    SourceFileMap, StringTable, Type,
};
use arb_link::striplabels::{fix_nonforward_labels, strip_labels};
use arb_link::tuples::{make_uninitialized_tuple, tuple_path, value_from_field_list, TUPLE_SIZE};
use arb_link::xformcode::{fix_tuple_size, peephole};

fn dbg() -> DebugInfo {
    DebugInfo::new(None)
}

fn op(o: AVMOpcode) -> Instruction<Opcode> {
    Instruction::from_opcode(Opcode::AVMOpcode(o), dbg())
}

fn op_imm(o: AVMOpcode, v: Value) -> Instruction<Opcode> {
    Instruction::from_opcode_imm(Opcode::AVMOpcode(o), v, dbg())
}

fn marker(l: Label) -> Instruction<Opcode> {
    Instruction::from_opcode(Opcode::Label(l), dbg())
}

fn module(
    code: Vec<Instruction<Opcode>>,
    exports: Vec<ExportedFunc>,
    imports: Vec<ImportedFunc>,
) -> CompiledProgram {
    CompiledProgram {
        code,
        exported_funcs: exports,
        imported_funcs: imports,
        globals: vec![],
        source_file_map: None,
        file_name_chart: vec![],
    }
}

fn table() -> StringTable {
    StringTable::new(vec!["f".to_string(), "g".to_string()])
}

/// Module exporting "f" at its entry, which is its first instruction.
fn module_a() -> CompiledProgram {
    let t = table();
    module(
        vec![marker(Label::Func(0)), op(AVMOpcode::Add), op(AVMOpcode::Halt)],
        vec![ExportedFunc::new(0, Label::Func(0), Type::Func, &t)],
        vec![],
    )
}

/// Module with one call through an import named "f".
fn module_b() -> CompiledProgram {
    let t = table();
    module(
        vec![op(AVMOpcode::Pop), op_imm(AVMOpcode::Call, Value::Label(Label::External(0)))],
        vec![],
        vec![ImportedFunc::new(0, 0, &t)],
    )
}

fn imm_label(insn: &Instruction<Opcode>) -> Option<Label> {
    match &insn.immediate {
        Some(Value::Label(l)) => Some(*l),
        _ => None,
    }
}

fn read_logical(v: &Value, k: usize, n: usize) -> &Value {
    let mut cur = v;
    for p in tuple_path(k, n) {
        match cur {
            Value::Tuple(t) => cur = &t[p],
            _ => panic!("not a tuple"),
        }
    }
    cur
}

fn is_none(v: &Value) -> bool {
    matches!(v, Value::Tuple(t) if t.is_empty())
}

#[test]
fn label_relocate_uses_offset_of_its_kind() {
    assert_eq!(Label::Func(2).relocate(10, 20, 30), (Label::Func(32), 32));
    assert_eq!(Label::Internal(2).relocate(10, 20, 30), (Label::Internal(12), 30));
    assert_eq!(Label::External(2).relocate(10, 20, 30), (Label::External(22), 30));
}

#[test]
fn imported_and_exported_relocate() {
    let t = table();
    let imp = ImportedFunc::new(1, 1, &t);
    assert_eq!(imp.name, "g");
    let imp = imp.relocate(5, 7);
    assert_eq!(imp.slot_num, 8);
    assert_eq!(imp.name_id, 1);
    let exp = ExportedFunc::new(0, Label::Func(3), Type::Int, &t);
    let (exp, end) = exp.relocate(100, 200, 4);
    assert_eq!(exp.label, Label::Func(7));
    assert_eq!(end, 7);
    let (_, end) = ExportedFunc::new(1, Label::Internal(0), Type::Int, &t).relocate(3, 0, 5);
    assert_eq!(end, 5);
    assert_eq!(exp.name, "f");
    assert_eq!(exp.tipe, Type::Int);
}

#[test]
fn import_new_keeps_fields() {
    let i = Import::new(vec!["std".to_string()], "f".to_string());
    assert_eq!(i.path, vec!["std".to_string()]);
    assert_eq!(i.name, "f");
}

#[test]
fn call_resolves_to_exported_entry() {
    let p = link(vec![module_a(), module_b()], true).unwrap();
    assert_eq!(p.code.len(), 3 + 3 + 2);
    // B's call is at preamble length + A's length + 1.
    assert_eq!(imm_label(&p.code[3 + 3 + 1]), Some(Label::Func(0)));
    assert_eq!(p.code[3].opcode, Opcode::Label(Label::Func(0)));
    assert!(unresolved_imports(&p).is_empty());
}

#[test]
fn resolution_does_not_depend_on_module_order() {
    let ab = link(vec![module_a(), module_b()], true).unwrap();
    let ba = link(vec![module_b(), module_a()], true).unwrap();
    // In both orders the call names A's entry, relocated with A's own offsets.
    assert_eq!(imm_label(&ab.code[7]), Some(Label::Func(0)));
    assert_eq!(imm_label(&ba.code[4]), Some(Label::Func(0)));
    assert_eq!(ba.code[5].opcode, Opcode::Label(Label::Func(0)));
    assert_eq!(ba.imported_funcs[0].slot_num, 0);
    assert_eq!(ab.exported_funcs[0].label, Label::Func(0));
}

#[test]
fn offsets_are_contiguous_after_preamble() {
    let m1 = module(vec![op(AVMOpcode::Add), marker(Label::Internal(0))], vec![], vec![]);
    let m2 = module(vec![op_imm(AVMOpcode::Jump, Value::Label(Label::Internal(0)))], vec![], vec![]);
    let m3 = module(vec![marker(Label::Func(0)), op(AVMOpcode::Halt)], vec![], vec![]);
    let p = link(vec![m1, m2, m3], false).unwrap();
    assert_eq!(p.code.len(), 3 + 2 + 1 + 2);
    assert_eq!(p.code[3].opcode, Opcode::AVMOpcode(AVMOpcode::Add));
    assert_eq!(p.code[4].opcode, Opcode::Label(Label::Internal(3)));
    assert_eq!(imm_label(&p.code[5]), Some(Label::Internal(5)));
    assert_eq!(p.code[6].opcode, Opcode::Label(Label::Func(0)));
    let sfm = p.source_file_map.unwrap();
    assert_eq!(sfm.offsets.len(), 3);
    assert_eq!(sfm.end, 5);
}

#[test]
fn function_offsets_chain_across_modules() {
    let m1 = module(vec![marker(Label::Func(1)), op(AVMOpcode::Halt)], vec![], vec![]);
    let m2 = module(vec![marker(Label::Func(0))], vec![], vec![]);
    let p = link(vec![m1, m2], true).unwrap();
    assert_eq!(p.code[3].opcode, Opcode::Label(Label::Func(1)));
    assert_eq!(p.code[5].opcode, Opcode::Label(Label::Func(2)));
}

#[test]
fn unresolved_import_links_with_warning() {
    let t = table();
    let m = module(
        vec![op_imm(AVMOpcode::Call, Value::Label(Label::External(0)))],
        vec![],
        vec![ImportedFunc::new(0, 1, &t)],
    );
    let p = link(vec![m], true).unwrap();
    assert_eq!(imm_label(&p.code[3]), Some(Label::External(0)));
    assert_eq!(unresolved_imports(&p), vec!["g".to_string()]);
    let lp = postlink_compile(p, vec![], true).unwrap();
    assert!(matches!(lp.code[3].immediate, Some(Value::JumpSlot(0))));
    match &lp.code[1].immediate {
        Some(v) => match read_logical(v, 0, 1) {
            Value::Tuple(t) => {
                assert_eq!(t.len(), 1);
                assert!(is_none(&t[0]));
            }
            _ => panic!("jump table is not a tuple"),
        },
        None => panic!("no globals"),
    }
}

#[test]
fn preamble_shapes_by_mode() {
    let p = link(vec![module_a()], true).unwrap();
    assert_eq!(p.globals.len(), 1);
    assert_eq!(p.globals[0].tipe, Type::Any);
    assert_eq!(p.code[0].opcode, Opcode::AVMOpcode(AVMOpcode::Noop));
    assert_eq!(p.code[2].opcode, Opcode::AVMOpcode(AVMOpcode::Rset));
    assert!(p.code[2].immediate.is_none());
    let q = link(vec![module_a()], false).unwrap();
    assert_eq!(q.code[0].opcode, Opcode::AVMOpcode(AVMOpcode::Rget));
    assert_eq!(q.code[2].opcode, Opcode::AVMOpcode(AVMOpcode::Rset));
    assert!(q.code[2].immediate.is_some());
}

#[test]
fn scenario_call_through_import_after_postlink() {
    let p = link(vec![module_a(), module_b()], true).unwrap();
    let lp = postlink_compile(p, vec![(7, "main.mini".to_string())], true).unwrap();
    // The marker is gone: A occupies 3..5, B occupies 5..7.
    assert_eq!(lp.code.len(), 3 + 2 + 2);
    assert_eq!(lp.code[6].opcode, AVMOpcode::Call);
    // The call goes backward to A's entry, so it is taken through the jump table.
    assert!(matches!(lp.code[6].immediate, Some(Value::JumpSlot(0))));
    match &lp.code[1].immediate {
        Some(v) => match read_logical(v, 0, 1) {
            Value::Tuple(t) => assert!(matches!(t[..], [Value::CodePoint(3)])),
            _ => panic!("jump table is not a tuple"),
        },
        None => panic!("no globals"),
    }
    assert!(is_none(&lp.static_val));
    assert_eq!(lp.file_name_chart, vec![(7, "main.mini".to_string())]);
}

#[test]
fn jump_table_goes_to_designated_preamble_instruction() {
    for test_mode in [true, false] {
        let m = module(
            vec![marker(Label::Internal(0)), op_imm(AVMOpcode::Jump, Value::Label(Label::Internal(0)))],
            vec![],
            vec![],
        );
        let mut m = m;
        m.globals = (0..9)
            .map(|i| GlobalVarDecl::new(i, format!("v{}", i), Type::Int, None))
            .collect();
        let p = link(vec![m], test_mode).unwrap();
        assert_eq!(p.globals.len(), 10);
        let lp = postlink_compile(p, vec![], test_mode).unwrap();
        let off = if test_mode { 1 } else { 2 };
        match &lp.code[off].immediate {
            Some(v) => {
                match read_logical(v, 9, 10) {
                    Value::Tuple(t) => {
                        assert_eq!(t.len(), 1);
                        assert!(matches!(t[0], Value::CodePoint(3)));
                    }
                    _ => panic!("jump table is not a tuple"),
                }
                for k in 0..9 {
                    assert!(is_none(read_logical(v, k, 10)));
                }
            }
            None => panic!("no globals"),
        }
        assert!(matches!(lp.code[3].immediate, Some(Value::JumpSlot(0))));
    }
}

#[test]
fn virtual_opcode_stops_the_link() {
    let loc = Location { line: 4, column: 2, file_id: 9 };
    let mut m = module(vec![op(AVMOpcode::Add)], vec![], vec![]);
    m.code.push(Instruction::from_opcode(Opcode::SetGlobalVar(0), DebugInfo::new(Some(loc))));
    m.globals = vec![GlobalVarDecl::new(0, "x".to_string(), Type::Int, None)];
    let p = link(vec![m], true).unwrap();
    let e = postlink_compile(p, vec![], true).err().unwrap();
    assert_eq!(e.kind, CompileErrorKind::VirtualOpcode(Opcode::SetGlobalVar(0)));
    assert_eq!(e.location, Some(loc));
}

#[test]
fn tuple_round_trip_over_chained_layout() {
    for n in [1usize, 8, 9, 15, 16, 23, 40] {
        let fields: Vec<Value> = (0..n).map(|i| Value::Int(i as u64 * 10)).collect();
        let v = value_from_field_list(fields);
        for k in 0..n {
            assert!(matches!(read_logical(&v, k, n), Value::Int(x) if *x == k as u64 * 10));
        }
        if n > TUPLE_SIZE {
            match &v {
                Value::Tuple(t) => assert_eq!(t.len(), TUPLE_SIZE),
                _ => panic!("not a tuple"),
            }
        }
    }
}

#[test]
fn tuple_path_exact() {
    assert_eq!(tuple_path(3, 8), vec![3]);
    assert_eq!(tuple_path(7, 9), vec![7, 0]);
    assert_eq!(tuple_path(20, 30), vec![7, 7, 6]);
    assert_eq!(tuple_path(21, 23), vec![7, 7, 7, 0]);
}

#[test]
fn uninitialized_tuple_is_all_none() {
    let v = make_uninitialized_tuple(17);
    for k in 0..17 {
        assert!(is_none(read_logical(&v, k, 17)));
    }
}

#[test]
fn tuple_get_lowers_to_native_reads() {
    let code = vec![Instruction::from_opcode(Opcode::TupleGet(10, 12), dbg())];
    let out = fix_tuple_size(code, 0).unwrap();
    assert_eq!(out.len(), 2);
    assert_eq!(out[0].opcode, Opcode::AVMOpcode(AVMOpcode::Tget));
    assert!(matches!(out[0].immediate, Some(Value::Int(7))));
    assert!(matches!(out[1].immediate, Some(Value::Int(3))));
    let code = vec![Instruction::from_opcode(Opcode::GetGlobalVar(2), dbg())];
    let out = fix_tuple_size(code, 3).unwrap();
    assert_eq!(out.len(), 2);
    assert_eq!(out[0].opcode, Opcode::AVMOpcode(AVMOpcode::Rget));
    assert!(matches!(out[1].immediate, Some(Value::Int(2))));
}

#[test]
fn wide_tuple_immediate_is_chained() {
    let fields: Vec<Value> = (0..10).map(|i| Value::Int(i)).collect();
    let code = vec![op_imm(AVMOpcode::Noop, Value::Tuple(fields))];
    let out = fix_tuple_size(code, 0).unwrap();
    match &out[0].immediate {
        Some(v) => {
            assert!(matches!(v, Value::Tuple(t) if t.len() == 8));
            assert!(matches!(read_logical(v, 9, 10), Value::Int(9)));
        }
        None => panic!("immediate lost"),
    }
}

#[test]
fn malformed_tuple_read_is_an_error() {
    let loc = Location { line: 1, column: 5, file_id: 0 };
    let code = vec![
        op(AVMOpcode::Add),
        Instruction::from_opcode(Opcode::TupleGet(4, 4), DebugInfo::new(Some(loc))),
    ];
    let e = fix_tuple_size(code, 0).err().unwrap();
    assert_eq!(e.kind, CompileErrorKind::TupleIndex(4, 4));
    assert_eq!(e.location, Some(loc));
    let code = vec![Instruction::from_opcode(Opcode::GetGlobalVar(3), dbg())];
    let e = fix_tuple_size(code, 3).err().unwrap();
    assert_eq!(e.kind, CompileErrorKind::TupleIndex(3, 3));
}

#[test]
fn forward_and_backward_jumps_are_classified() {
    let code = vec![
        op_imm(AVMOpcode::Jump, Value::Label(Label::Internal(1))),
        marker(Label::Internal(0)),
        op_imm(AVMOpcode::Cjump, Value::Label(Label::Internal(0))),
        marker(Label::Internal(1)),
        op_imm(AVMOpcode::Call, Value::Label(Label::External(4))),
        op_imm(AVMOpcode::Jump, Value::Label(Label::Internal(0))),
    ];
    let (out, table) = fix_nonforward_labels(code);
    assert_eq!(table, vec![Label::Internal(0), Label::External(4)]);
    assert_eq!(imm_label(&out[0]), Some(Label::Internal(1)));
    assert!(matches!(out[2].immediate, Some(Value::JumpSlot(0))));
    assert!(matches!(out[4].immediate, Some(Value::JumpSlot(1))));
    assert!(matches!(out[5].immediate, Some(Value::JumpSlot(0))));
    let (stripped, vals) = strip_labels(out, &table).unwrap();
    assert_eq!(stripped.len(), 4);
    assert!(matches!(stripped[0].immediate, Some(Value::CodePoint(2))));
    assert!(stripped.iter().all(|i| imm_label(i).is_none()));
    assert!(matches!(vals[0], Value::CodePoint(1)));
    assert!(is_none(&vals[1]));
}

#[test]
fn undefined_label_is_an_error() {
    let code = vec![op_imm(AVMOpcode::Jump, Value::Label(Label::Internal(5)))];
    let e = strip_labels(code, &vec![]).err().unwrap();
    assert_eq!(e.kind, CompileErrorKind::UndefinedLabel(Label::Internal(5)));
}

#[test]
fn peephole_removes_bare_noops() {
    let code = vec![
        op(AVMOpcode::Noop),
        op(AVMOpcode::Add),
        op_imm(AVMOpcode::Noop, Value::Int(1)),
        op(AVMOpcode::Noop),
    ];
    let out = peephole(code);
    assert_eq!(out.len(), 2);
    assert_eq!(out[0].opcode, Opcode::AVMOpcode(AVMOpcode::Add));
    assert!(matches!(out[1].immediate, Some(Value::Int(1))));
}

#[test]
fn malformed_preamble_is_an_error() {
    let mut code = vec![op(AVMOpcode::Noop), op(AVMOpcode::Noop)];
    let e = hardcode_jump_table_into_register(&mut code, Value::none(), true, 1).err().unwrap();
    assert_eq!(e.kind, CompileErrorKind::MalformedPreamble);
    assert_eq!(code.len(), 2);
    let mut code = vec![op(AVMOpcode::Noop)];
    let e = hardcode_jump_table_into_register(&mut code, Value::none(), false, 1).err().unwrap();
    assert_eq!(e.kind, CompileErrorKind::MalformedPreamble);
}

#[test]
fn source_file_map_records_offsets() {
    let mut m = SourceFileMap::new_empty();
    assert_eq!(m.first_name(), "");
    m.push(4, "a.mini".to_string());
    m.push(2, "b.mini".to_string());
    assert_eq!(m.end, 6);
    assert_eq!(m.offsets[1], (4, "b.mini".to_string()));
    assert_eq!(m.first_name(), "a.mini");
    assert_eq!(table().name_from_id(1), "g");
}

#[test]
fn well_formed_modules_are_linkable() {
    assert!(check_linkable(&vec![module_a(), module_b()]));
    assert!(check_linkable(&vec![]));
    let bad_label = module(vec![op_imm(AVMOpcode::Jump, Value::Label(Label::Internal(5)))], vec![], vec![]);
    assert!(!check_module(&bad_label));
    assert!(!check_linkable(&vec![module_a(), bad_label]));
    let t = table();
    let bad_slot = module(vec![], vec![], vec![ImportedFunc::new(1, 0, &t)]);
    assert!(!check_module(&bad_slot));
    let bad_global = module(vec![Instruction::from_opcode(Opcode::GetGlobalVar(0), dbg())], vec![], vec![]);
    assert!(!check_module(&bad_global));
}

#[test]
fn empty_link_has_preamble_and_jump_table_slot() {
    let p = link(vec![], true).unwrap();
    assert_eq!(p.code.len(), 3);
    assert_eq!(p.globals.len(), 1);
    assert_eq!(p.globals[0].name, "_jump_table");
    let lp = postlink_compile(p, vec![], true).unwrap();
    assert_eq!(lp.code.len(), 3);
}

#[test]
fn linked_program_with_only_unresolved_imports_assembles() {
    let t = table();
    let m = module(
        vec![
            marker(Label::Internal(0)),
            op_imm(AVMOpcode::Call, Value::Label(Label::External(0))),
            op_imm(AVMOpcode::Jump, Value::Label(Label::Internal(0))),
        ],
        vec![],
        vec![ImportedFunc::new(0, 1, &t)],
    );
    for test_mode in [true, false] {
        let mut m2 = module(vec![], vec![], vec![]);
        m2.code = m.code.iter().map(|i| Instruction::new(i.opcode, match &i.immediate {
            Some(Value::Label(l)) => Some(Value::Label(*l)),
            _ => None,
        }, i.debug_info)).collect();
        m2.imported_funcs = vec![ImportedFunc::new(0, 1, &t)];
        let p = link(vec![m2], test_mode).unwrap();
        assert_eq!(p.globals[0].name, "_jump_table");
        assert_eq!(p.globals[0].name_id, usize::MAX);
        assert!(p.code[..3].iter().all(|i| i.debug_info.location.is_none()));
        let lp = postlink_compile(p, vec![], test_mode).unwrap();
        assert_eq!(lp.code.len(), 5);
        assert!(matches!(lp.code[3].immediate, Some(Value::JumpSlot(0))));
        assert!(matches!(lp.code[4].immediate, Some(Value::JumpSlot(1))));
    }
}
