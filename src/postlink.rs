//! The post-link stage: label elimination, tuple lowering and the peephole pass in their fixed
//! order, then the jump table put into global storage and the code reduced to native opcodes.
use crate::link::{globals_insn_offset, is_link_of};
use crate::mavm::{imm_label, is_native, is_none_value, AVMOpcode, Instruction, Label, Opcode, Value};
use crate::program::{reversed, CompileError, CompileErrorKind, CompiledProgram, GlobalVarDecl};
use crate::striplabels::{
    addr_of, lemma_addr_onto, lemma_marker_defines, lemma_strip_prefix, resolves_to, fix_nonforward_labels, is_nonforward, label_addr, labels_stripped, lemma_no_label_remains,
    lemma_stripped_keeps_opcode, nonforward_fixed, strip_labels,
};
use crate::tuples::{check_nested, is_nested, is_nesting_of, nested_get, replace_last_slot, value_from_field_list};
use crate::xformcode::{
    fix_tuple_size, tuple_insn_ok, lemma_lowered_keeps_opcode, lemma_lowered_labels,
    lemma_peephole_member, lemma_lowered_opcode_origin, lemma_lowered_prefix, lemma_peephole_prefix,
    is_bare_noop, lemma_peephole_keeps, peephole, peephole_spec,
    tuples_lowered,
};
use vstd::prelude::*;

verus! {

/// A program after the post-link stage.
pub struct LinkedProgram {
    pub code: Vec<Instruction<AVMOpcode>>,
    /// Unused; kept as none so that the layout stays as readers expect.
    pub static_val: Value,
    pub globals: Vec<GlobalVarDecl>,
    /// Source file names by the hash of each name; a later entry for a hash wins.
    pub file_name_chart: Vec<(u64, String)>,
}

/// The preamble instruction that the mode designates holds global storage of `g` slots.
pub open spec fn preamble_fits(code: Seq<Instruction<Opcode>>, test_mode: bool, g: nat) -> bool {
    let off = globals_insn_offset(test_mode);
    &&& g >= 1
    &&& off < code.len()
    &&& code[off].immediate matches Some(v) && is_nested(v, g)
}

/// `out` is `code` with `jt` in the last global slot of the designated preamble instruction.
pub open spec fn jump_table_embedded(
    code: Seq<Instruction<Opcode>>,
    test_mode: bool,
    g: nat,
    jt: Value,
    out: Seq<Instruction<Opcode>>,
) -> bool {
    let off = globals_insn_offset(test_mode);
    &&& out.len() == code.len()
    &&& forall|m: int| 0 <= m < code.len() && m != off ==> #[trigger] out[m] == code[m]
    &&& out[off].opcode == code[off].opcode
    &&& out[off].debug_info == code[off].debug_info
    &&& out[off].immediate matches Some(v) && code[off].immediate matches Some(w) && is_nested(v, g)
        && nested_get(v, g, (g - 1) as nat) == jt && forall|k: nat|
        k < g - 1 ==> #[trigger] nested_get(v, g, k) == nested_get(w, g, k)
}

/// Puts the jump table into the last slot of global storage, in the immediate of the preamble
/// instruction that the mode designates: the second in test mode, the third otherwise.
pub fn hardcode_jump_table_into_register(
    code: &mut Vec<Instruction<Opcode>>,
    jump_table: Value,
    test_mode: bool,
    num_globals: usize,
) -> (r: Result<(), CompileError>)
    ensures
        r is Ok <==> preamble_fits(old(code)@, test_mode, num_globals as nat),
        r is Ok ==> jump_table_embedded(old(code)@, test_mode, num_globals as nat, jump_table, final(code)@),
        r matches Err(e) ==> e.kind == CompileErrorKind::MalformedPreamble && final(code)@ == old(code)@,
{
    let offset: usize = if test_mode {
        1
    } else {
        2
    };
    if offset >= code.len() || num_globals == 0 {
        return Err(CompileError::new(CompileErrorKind::MalformedPreamble, None));
    }
    let fits = match &code[offset].immediate {
        Some(v) => check_nested(v, num_globals),
        None => false,
    };
    if !fits {
        return Err(CompileError::new(CompileErrorKind::MalformedPreamble, None));
    }
    let ghost c0 = code@;
    let insn = code.remove(offset);
    match insn.immediate {
        Some(v) => {
            let nv = replace_last_slot(v, num_globals, jump_table);
            code.insert(
                offset,
                Instruction { opcode: insn.opcode, immediate: Some(nv), debug_info: insn.debug_info },
            );
            assert forall|m: int| 0 <= m < c0.len() && m != offset implies #[trigger] code@[m]
                == c0[m] by {
                if m < offset {
                    assert(code@[m] == c0.remove(offset as int)[m]);
                } else {
                    assert(code@[m] == c0.remove(offset as int)[m - 1]);
                }
            }
            Ok(())
        },
        None => {
            code.insert(offset, insn);
            assert(code@ =~= c0);
            Err(CompileError::new(CompileErrorKind::MalformedPreamble, None))
        },
    }
}

/// `out` is `code` with every opcode native.
pub open spec fn native_of(code: Seq<Instruction<Opcode>>, out: Seq<Instruction<AVMOpcode>>) -> bool {
    &&& out.len() == code.len()
    &&& forall|m: int|
        0 <= m < code.len() ==> code[m].opcode == Opcode::AVMOpcode(#[trigger] out[m].opcode)
            && out[m].immediate == code[m].immediate && out[m].debug_info == code[m].debug_info
}

/// Narrows every opcode to its native form; an instruction still carrying a pipeline-internal
/// opcode is a defect of the compiler and stops the link, naming that opcode.
pub fn to_native(code: Vec<Instruction<Opcode>>) -> (r: Result<Vec<Instruction<AVMOpcode>>, CompileError>)
    ensures
        r is Ok <==> forall|m: int| 0 <= m < code@.len() ==> is_native(#[trigger] code@[m].opcode),
        r matches Ok(out) ==> native_of(code@, out@),
        r matches Err(e) ==> e.kind matches CompileErrorKind::VirtualOpcode(op) && exists|m: int|
            0 <= m < code@.len() && #[trigger] code@[m].opcode == op && !is_native(op)
                && e.location == code@[m].debug_info.location,
{
    let ghost c0 = code@;
    let mut rev = reversed(code);
    let mut out: Vec<Instruction<AVMOpcode>> = Vec::new();
    while rev.len() > 0
        invariant
            out@.len() + rev@.len() == c0.len(),
            c0 == code@,
            forall|k: int| 0 <= k < rev@.len() ==> #[trigger] rev@[k] == c0[c0.len() - 1 - k],
            forall|m: int|
                0 <= m < out@.len() ==> c0[m].opcode == Opcode::AVMOpcode(#[trigger] out@[m].opcode)
                    && out@[m].immediate == c0[m].immediate && out@[m].debug_info == c0[m].debug_info,
        decreases rev@.len(),
    {
        let ghost m = out@.len() as int;
        let insn = rev.pop().unwrap();
        assert(insn == c0[m]);
        match insn.opcode {
            Opcode::AVMOpcode(op) => {
                out.push(Instruction::new(op, insn.immediate, insn.debug_info));
            },
            op => {
                return Err(
                    CompileError::new(CompileErrorKind::VirtualOpcode(op), insn.debug_info.location),
                );
            },
        }
    }
    assert forall|m: int| 0 <= m < c0.len() implies is_native(#[trigger] c0[m].opcode) by {
        assert(c0[m].opcode == Opcode::AVMOpcode(out@[m].opcode));
    }
    Ok(out)
}

/// The stages of the post-link pipeline, one after the other, from `code` to `out`.
pub open spec fn pipeline_stages(
    code: Seq<Instruction<Opcode>>,
    g: nat,
    test_mode: bool,
    fixed: Seq<Instruction<Opcode>>,
    table: Seq<Label>,
    lowered: Seq<Instruction<Opcode>>,
    stripped: Seq<Instruction<Opcode>>,
    vals: Seq<Value>,
    jt: Value,
    embedded: Seq<Instruction<Opcode>>,
    out: Seq<Instruction<AVMOpcode>>,
) -> bool {
    &&& nonforward_fixed(code, fixed, table)
    &&& tuples_lowered(fixed, g, lowered)
    &&& labels_stripped(peephole_spec(lowered), table, stripped, vals)
    &&& is_nesting_of(jt, vals)
    &&& preamble_fits(stripped, test_mode, g)
    &&& jump_table_embedded(stripped, test_mode, g, jt, embedded)
    &&& native_of(embedded, out)
}

/// In the assembled code the jump table stands in the last global slot of the immediate of the
/// preamble instruction that the mode designates (the second in test mode, the third otherwise),
/// and holds one entry per label of the table.
pub proof fn lemma_preamble_embedding(
    code: Seq<Instruction<Opcode>>,
    g: nat,
    test_mode: bool,
    fixed: Seq<Instruction<Opcode>>,
    table: Seq<Label>,
    lowered: Seq<Instruction<Opcode>>,
    stripped: Seq<Instruction<Opcode>>,
    vals: Seq<Value>,
    jt: Value,
    embedded: Seq<Instruction<Opcode>>,
    out: Seq<Instruction<AVMOpcode>>,
)
    requires
        pipeline_stages(code, g, test_mode, fixed, table, lowered, stripped, vals, jt, embedded, out),
    ensures
        g >= 1,
        out[globals_insn_offset(test_mode)].immediate matches Some(v) && is_nested(v, g) && nested_get(
            v,
            g,
            (g - 1) as nat,
        ) == jt,
        is_nesting_of(jt, vals),
        vals.len() == table.len(),
{
    let off = globals_insn_offset(test_mode);
    assert(embedded[off].opcode == Opcode::AVMOpcode(out[off].opcode));
}

/// An instruction that every pass leaves as it is and where it is: native, not a bare no-op,
/// with no label and no tuple wider than the machine's in its immediate.
pub open spec fn stable_insn(insn: Instruction<Opcode>) -> bool {
    &&& insn.opcode is AVMOpcode
    &&& imm_label(insn) is None
    &&& !is_bare_noop(insn)
    &&& !(insn.immediate matches Some(Value::Tuple(t)) && t@.len() > 8)
}

/// The preamble up to the instruction that holds global storage passes through unchanged, and
/// that instruction holds storage of `g` slots, as `link` builds it.
pub open spec fn preamble_intact(code: Seq<Instruction<Opcode>>, test_mode: bool, g: nat) -> bool {
    let off = globals_insn_offset(test_mode);
    &&& g >= 1
    &&& off < code.len()
    &&& forall|w: int| 0 <= w <= off ==> stable_insn(#[trigger] code[w])
    &&& code[off].immediate matches Some(v) && is_nested(v, g)
}

/// What `link` builds passes the preamble through the post-link stage intact.
pub proof fn lemma_link_preamble_intact(progs: Seq<CompiledProgram>, test_mode: bool, p: CompiledProgram)
    requires
        is_link_of(progs, test_mode, p),
    ensures
        preamble_intact(p.code@, test_mode, p.globals@.len()),
{
    let g = p.globals@.len();
    let off = globals_insn_offset(test_mode);
    assert forall|w: int| 0 <= w <= off implies stable_insn(#[trigger] p.code@[w]) by {
        if p.code@[w].immediate is Some {
            let v = p.code@[w].immediate->Some_0;
            if is_nested(v, g) && g > 8 {
                assert(v->Tuple_0@.len() == 8);
            }
        }
    }
}

/// Every jump to a label that is not an import has a marker for it somewhere in the code.
pub open spec fn jumps_have_markers(code: Seq<Instruction<Opcode>>) -> bool {
    forall|m: int|
        0 <= m < code.len() ==> (#[trigger] imm_label(code[m]) matches Some(l) ==> (l is External
            || exists|w: int| 0 <= w < code.len() && #[trigger] code[w].opcode == Opcode::Label(l)))
}

/// Input on which the post-link stage owes success: an intact preamble, tuple and global reads
/// in range, a marker for every jump target that is not an import, and no global write left for
/// the front end to lower. Imports that nothing exports do not matter.
pub open spec fn postlink_ok_input(code: Seq<Instruction<Opcode>>, test_mode: bool, g: nat) -> bool {
    &&& preamble_intact(code, test_mode, g)
    &&& forall|m: int| 0 <= m < code.len() ==> tuple_insn_ok(#[trigger] code[m], g)
    &&& jumps_have_markers(code)
    &&& forall|m: int| 0 <= m < code.len() ==> !(#[trigger] code[m].opcode is SetGlobalVar)
}

/// Turns a linked program into its final form: jumps whose target is not ahead go through the
/// jump table, wide tuples become chains, the peephole pass runs, labels become addresses, the
/// jump table goes into global storage, and every opcode is checked to be native. The caller's
/// file-name chart comes first, then the program's.
pub fn postlink_compile(
    program: CompiledProgram,
    file_name_chart: Vec<(u64, String)>,
    test_mode: bool,
) -> (r: Result<LinkedProgram, CompileError>)
    ensures
        r matches Ok(lp) ==> exists|
            fixed: Seq<Instruction<Opcode>>,
            table: Seq<Label>,
            lowered: Seq<Instruction<Opcode>>,
            stripped: Seq<Instruction<Opcode>>,
            vals: Seq<Value>,
            jt: Value,
            embedded: Seq<Instruction<Opcode>>,
        |
            #[trigger] pipeline_stages(
                program.code@,
                program.globals@.len(),
                test_mode,
                fixed,
                table,
                lowered,
                stripped,
                vals,
                jt,
                embedded,
                lp.code@,
            ),
        r matches Ok(lp) ==> lp.globals@ == program.globals@,
        r matches Ok(lp) ==> lp.file_name_chart@ == file_name_chart@ + program.file_name_chart@,
        r matches Ok(lp) ==> is_none_value(lp.static_val),
        r matches Err(e) ==> (e.kind matches CompileErrorKind::VirtualOpcode(op) ==> !is_native(op)),
        r matches Ok(lp) ==> forall|a: int|
            0 <= a < lp.code@.len() ==> !(#[trigger] lp.code@[a].immediate matches Some(Value::Label(_))),
        forall|m: int|
            0 <= m < program.code@.len() && (#[trigger] program.code@[m].opcode is SetGlobalVar) ==> r is Err,
        r matches Err(e) ==> !(e.kind matches CompileErrorKind::UndefinedLabel(Label::External(_))),
        r is Ok ==> forall|m: int|
            0 <= m < program.code@.len() ==> tuple_insn_ok(#[trigger] program.code@[m], program.globals@.len()),
        r matches Err(e) ==> (e.kind matches CompileErrorKind::TupleIndex(_, _) ==> exists|m: int|
            0 <= m < program.code@.len() && !tuple_insn_ok(#[trigger] program.code@[m], program.globals@.len())
                && e.location == program.code@[m].debug_info.location),
        r matches Err(e) ==> (e.kind matches CompileErrorKind::VirtualOpcode(op) ==> exists|m: int|
            0 <= m < program.code@.len() && #[trigger] program.code@[m].opcode == op && op is SetGlobalVar
                && e.location == program.code@[m].debug_info.location),
        postlink_ok_input(program.code@, test_mode, program.globals@.len()) ==> r is Ok,
{
    let CompiledProgram {
        code,
        exported_funcs: _,
        imported_funcs: _,
        globals,
        source_file_map: _,
        file_name_chart: prog_chart,
    } = program;
    let g = globals.len();
    let ghost c0 = code@;
    let (code_2, jump_table) = fix_nonforward_labels(code);
    let ghost c2 = code_2@;
    proof {
        assert forall|m: int| 0 <= m < c0.len() implies #[trigger] c2[m].opcode == c0[m].opcode by {}
    }
    let code_3 = match fix_tuple_size(code_2, g) {
        Ok(c) => c,
        Err(e) => {
            proof {
                let m = choose|m: int| 0 <= m < c2.len() && !tuple_insn_ok(#[trigger] c2[m], g as nat)
                    && e.location == c2[m].debug_info.location;
                assert(c2[m].opcode == c0[m].opcode);
                assert(c2[m].debug_info == c0[m].debug_info);
                assert(!tuple_insn_ok(c0[m], g as nat));
            }
            return Err(e);
        },
    };
    proof {
        assert forall|m: int| 0 <= m < c0.len() implies tuple_insn_ok(#[trigger] c0[m], g as nat) by {
            assert(c2[m].opcode == c0[m].opcode);
            assert(tuple_insn_ok(c2[m], g as nat));
        }
    }
    let ghost c3 = code_3@;
    let code_4 = peephole(code_3);
    let ghost c4 = code_4@;
    let (mut code_5, jump_table_final) = match strip_labels(code_4, &jump_table) {
        Ok(v) => v,
        Err(e) => {
            proof {
                if e.kind matches CompileErrorKind::UndefinedLabel(_) {
                    let l = e.kind->UndefinedLabel_0;
                    let q = choose|q: int|
                        0 <= q < c4.len() && !(c4[q].opcode is Label) && #[trigger] imm_label(c4[q])
                            == Some(l) && label_addr(c4, l) is None && e.location == c4[q].debug_info.location;
                    lemma_peephole_member(c3, q);
                    let p = choose|p: int| 0 <= p < c3.len() && #[trigger] c3[p] == c4[q];
                    lemma_lowered_labels(c2, g as nat, c3, p);
                    let m = choose|m: int| 0 <= m < c2.len() && #[trigger] imm_label(c2[m]) == imm_label(c3[p]);
                    assert(imm_label(c0[m]) is Some ==> c0[m].immediate is Some);
                    match imm_label(c0[m]) {
                        Some(l0) => {
                            assert(!is_nonforward(c0, m, l0) ==> !(l0 is External));
                        },
                        None => {},
                    }
                    assert(!(l is External));
                    assert(imm_label(c0[m]) == Some(l));
                    if jumps_have_markers(c0) {
                        let w = choose|w: int| 0 <= w < c0.len() && #[trigger] c0[w].opcode == Opcode::Label(l);
                        assert(c2[w].opcode == c0[w].opcode);
                        lemma_lowered_keeps_opcode(c2, g as nat, c3, w);
                        let p2 = choose|p2: int| 0 <= p2 < c3.len() && #[trigger] c3[p2].opcode == c2[w].opcode;
                        lemma_peephole_keeps(c3, p2);
                        let q2 = choose|q2: int| 0 <= q2 < c4.len() && #[trigger] c4[q2] == c3[p2];
                        lemma_marker_defines(c4, q2, l);
                    }
                }
            }
            return Err(e);
        },
    };
    let ghost c5 = code_5@;
    let ghost vals = jump_table_final@;
    let jump_table_value = value_from_field_list(jump_table_final);
    let ghost jt = jump_table_value;
    match hardcode_jump_table_into_register(&mut code_5, jump_table_value, test_mode, g) {
        Ok(()) => {},
        Err(e) => {
            proof {
                if preamble_intact(c0, test_mode, g as nat) {
                    let k = globals_insn_offset(test_mode) + 1;
                    assert forall|w: int| 0 <= w < k implies #[trigger] c2[w] == c0[w] by {
                        assert(stable_insn(c0[w]));
                        assert(imm_label(c0[w]) is None);
                    }
                    assert forall|w: int| 0 <= w < k implies !((#[trigger] c2[w]).opcode is TupleGet)
                        && !(c2[w].opcode is GetGlobalVar) && !(c2[w].immediate matches Some(
                        Value::Tuple(t)) && t@.len() > 8) by {
                        assert(stable_insn(c0[w]));
                    }
                    lemma_lowered_prefix(c2, g as nat, c3, k);
                    assert forall|w: int| 0 <= w < k implies !is_bare_noop(#[trigger] c3[w]) by {
                        assert(stable_insn(c0[w]));
                        assert(c3[w] == c0[w]);
                    }
                    lemma_peephole_prefix(c3, k);
                    assert forall|w: int| 0 <= w < k implies !((#[trigger] c4[w]).opcode is Label)
                        && imm_label(c4[w]) is None by {
                        assert(stable_insn(c0[w]));
                        assert(c4[w] == c3[w]);
                        assert(c3[w] == c0[w]);
                    }
                    lemma_strip_prefix(c4, jump_table@, c5, vals, k);
                    let off = k - 1;
                    assert(c5[off] == c4[off]);
                    assert(c4[off] == c3[off]);
                    assert(c3[off] == c0[off]);
                    assert(preamble_fits(c5, test_mode, g as nat));
                }
            }
            return Err(e);
        },
    }
    let ghost c6 = code_5@;
    let code_final = match to_native(code_5) {
        Ok(c) => c,
        Err(e) => {
            proof {
                let op = e.kind->VirtualOpcode_0;
                let a = choose|a: int| 0 <= a < c6.len() && #[trigger] c6[a].opcode == op && !is_native(op)
                    && e.location == c6[a].debug_info.location;
                assert(c6[a].opcode == c5[a].opcode);
                lemma_addr_onto(c4, c4.len() as int, a as nat);
                let q = choose|q: int|
                    0 <= q < c4.len() && !(c4[q].opcode is Label) && #[trigger] addr_of(c4, q) == a;
                assert(resolves_to(c4[q], c5[addr_of(c4, q) as int], c4));
                lemma_peephole_member(c3, q);
                let p = choose|p: int| 0 <= p < c3.len() && #[trigger] c3[p] == c4[q];
                lemma_lowered_opcode_origin(c2, g as nat, c3, p);
                let m = choose|m: int|
                    0 <= m < c2.len() && #[trigger] c2[m].opcode == c3[p].opcode && !(c2[m].opcode is TupleGet)
                        && !(c2[m].opcode is GetGlobalVar) && c2[m].debug_info == c3[p].debug_info;
                assert(c0[m].opcode == c2[m].opcode);
                assert(c0[m].debug_info == c2[m].debug_info);
                assert(c6[a].debug_info == c5[a].debug_info);
                assert(c0[m].opcode is SetGlobalVar);
            }
            return Err(e);
        },
    };
    let mut chart = file_name_chart;
    let mut prog_chart = prog_chart;
    chart.append(&mut prog_chart);
    let lp = LinkedProgram { code: code_final, static_val: Value::none(), globals, file_name_chart: chart };
    assert(pipeline_stages(c0, g as nat, test_mode, c2, jump_table@, c3, c5, vals, jt, c6, lp.code@));
    proof {
        let c4 = peephole_spec(c3);
        let off = globals_insn_offset(test_mode);
        lemma_no_label_remains(c4, jump_table@, c5, vals);
        assert forall|a: int| 0 <= a < lp.code@.len() implies !(
        #[trigger] lp.code@[a].immediate matches Some(Value::Label(_))) by {
            assert(c6[a].opcode == Opcode::AVMOpcode(lp.code@[a].opcode));
            assert(lp.code@[a].immediate == c6[a].immediate);
            if a != off {
                assert(c6[a] == c5[a]);
                assert(imm_label(c5[a]) is None);
            }
        }
        assert forall|m: int| 0 <= m < c0.len() implies !(#[trigger] c0[m].opcode is SetGlobalVar) by {
            if c0[m].opcode is SetGlobalVar {
                assert(c2[m].opcode == c0[m].opcode);
                lemma_lowered_keeps_opcode(c2, g as nat, c3, m);
                let p = choose|p: int| 0 <= p < c3.len() && #[trigger] c3[p].opcode == c2[m].opcode;
                lemma_peephole_keeps(c3, p);
                let q = choose|q: int| 0 <= q < c4.len() && #[trigger] c4[q] == c3[p];
                lemma_stripped_keeps_opcode(c4, jump_table@, c5, vals, q);
                let a = addr_of(c4, q) as int;
                assert(c6[a].opcode == c5[a].opcode);
                assert(c6[a].opcode == Opcode::AVMOpcode(lp.code@[a].opcode));
            }
        }
    }
    Ok(lp)
}

} // verus!
