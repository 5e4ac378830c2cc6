//! Lowering of wide tuples and global reads to native tuple access, and the peephole pass.
use crate::mavm::{imm_label, AVMOpcode, DebugInfo, Instruction, Opcode, Value};
use crate::program::{reversed, CompileError, CompileErrorKind};
use crate::tuples::{is_nesting_of, tget_path, tuple_path, value_from_field_list, TUPLE_SIZE};
use vstd::prelude::*;

verus! {

/// The segments one after the other.
pub open spec fn concat(segs: Seq<Seq<Instruction<Opcode>>>) -> Seq<Instruction<Opcode>>
    decreases segs.len(),
{
    if segs.len() == 0 {
        Seq::empty()
    } else {
        concat(segs.drop_last()) + segs.last()
    }
}

/// A tuple or global read that names an element the tuple has.
pub open spec fn tuple_insn_ok(insn: Instruction<Opcode>, num_globals: nat) -> bool {
    match insn.opcode {
        Opcode::TupleGet(k, size) => k < size,
        Opcode::GetGlobalVar(k) => k < num_globals,
        _ => true,
    }
}

/// A native read of element `p` of the tuple on the stack.
pub open spec fn tget_insn(p: usize, d: DebugInfo) -> Instruction<Opcode> {
    Instruction {
        opcode: Opcode::AVMOpcode(AVMOpcode::Tget),
        immediate: Some(Value::Int(p as u64)),
        debug_info: d,
    }
}

/// `seg` reads element `k` of a chained tuple of `n` elements: one native tuple read per step
/// of the path, after `pre` other instructions.
pub open spec fn is_path_code(seg: Seq<Instruction<Opcode>>, pre: int, k: nat, n: nat, d: DebugInfo) -> bool {
    let path = tget_path(k, n);
    &&& seg.len() == pre + path.len()
    &&& forall|s: int|
        0 <= s < path.len() ==> #[trigger] seg[pre + s] == tget_insn(path[s], d)
}

/// `seg` is what `insn` becomes once tuples have the machine's width.
pub open spec fn lowered_insn(insn: Instruction<Opcode>, num_globals: nat, seg: Seq<Instruction<Opcode>>) -> bool {
    let d = insn.debug_info;
    match insn.opcode {
        Opcode::TupleGet(k, size) => match insn.immediate {
            Some(v) => is_path_code(seg, 1, k as nat, size as nat, d) && seg[0] == (Instruction {
                opcode: Opcode::AVMOpcode(AVMOpcode::Noop),
                immediate: Some(v),
                debug_info: d,
            }),
            None => is_path_code(seg, 0, k as nat, size as nat, d),
        },
        Opcode::GetGlobalVar(k) => is_path_code(seg, 1, k as nat, num_globals, d) && seg[0]
            == (Instruction {
            opcode: Opcode::AVMOpcode(AVMOpcode::Rget),
            immediate: None,
            debug_info: d,
        }),
        op => {
            &&& seg.len() == 1
            &&& seg[0].opcode == op
            &&& seg[0].debug_info == d
            &&& match insn.immediate {
                Some(Value::Tuple(t)) => if t@.len() > 8 {
                    seg[0].immediate matches Some(v) && is_nesting_of(v, t@)
                } else {
                    seg[0].immediate == insn.immediate
                },
                _ => seg[0].immediate == insn.immediate,
            }
        },
    }
}

/// `out` is `code` with every instruction lowered in place.
pub open spec fn tuples_lowered(code: Seq<Instruction<Opcode>>, num_globals: nat, out: Seq<Instruction<Opcode>>) -> bool {
    exists|segs: Seq<Seq<Instruction<Opcode>>>|
        segs.len() == code.len() && out == concat(segs) && forall|m: int|
            0 <= m < code.len() ==> lowered_insn(#[trigger] code[m], num_globals, segs[m])
}

/// Appends the native reads of element `k` of a chained tuple of `n` elements.
fn push_path(out: &mut Vec<Instruction<Opcode>>, k: usize, n: usize, d: DebugInfo)
    requires
        k < n,
    ensures
        is_path_code(final(out)@, old(out)@.len() as int, k as nat, n as nat, d),
        final(out)@.take(old(out)@.len() as int) == old(out)@,
{
    let path = tuple_path(k, n);
    let ghost o0 = out@;
    let mut s: usize = 0;
    while s < path.len()
        invariant
            s <= path@.len(),
            path@ == tget_path(k as nat, n as nat),
            out@.len() == o0.len() + s,
            out@.take(o0.len() as int) == o0,
            forall|t: int|
                0 <= t < s ==> #[trigger] out@[o0.len() + t] == tget_insn(path@[t], d),
        decreases path@.len() - s,
    {
        out.push(
            Instruction {
                opcode: Opcode::AVMOpcode(AVMOpcode::Tget),
                immediate: Some(Value::Int(path[s] as u64)),
                debug_info: d,
            },
        );
        assert(out@.take(o0.len() as int) =~= o0);
        s = s + 1;
    }
}

/// Lowers one instruction: tuple and global reads become native tuple reads along the chained
/// layout, and a tuple immediate wider than the machine's tuples becomes its chained form.
fn lower_insn(insn: Instruction<Opcode>, num_globals: usize) -> (r: Result<
    Vec<Instruction<Opcode>>,
    CompileError,
>)
    ensures
        r is Ok <==> tuple_insn_ok(insn, num_globals as nat),
        r matches Ok(seg) ==> lowered_insn(insn, num_globals as nat, seg@),
        r matches Err(e) ==> e.location == insn.debug_info.location && e.kind matches CompileErrorKind::TupleIndex(_, _),
{
    let d = insn.debug_info;
    let mut seg: Vec<Instruction<Opcode>> = Vec::new();
    match insn.opcode {
        Opcode::TupleGet(k, size) => {
            if k >= size {
                return Err(CompileError::new(CompileErrorKind::TupleIndex(k, size), d.location));
            }
            match insn.immediate {
                Some(v) => {
                    seg.push(
                        Instruction {
                            opcode: Opcode::AVMOpcode(AVMOpcode::Noop),
                            immediate: Some(v),
                            debug_info: d,
                        },
                    );
                    push_path(&mut seg, k, size, d);
                    assert(seg@[0] == seg@.take(1)[0]);
                },
                None => {
                    push_path(&mut seg, k, size, d);
                },
            }
        },
        Opcode::GetGlobalVar(k) => {
            if k >= num_globals {
                return Err(
                    CompileError::new(CompileErrorKind::TupleIndex(k, num_globals), d.location),
                );
            }
            seg.push(
                Instruction {
                    opcode: Opcode::AVMOpcode(AVMOpcode::Rget),
                    immediate: None,
                    debug_info: d,
                },
            );
            push_path(&mut seg, k, num_globals, d);
            assert(seg@[0] == seg@.take(1)[0]);
        },
        op => {
            let immediate = match insn.immediate {
                Some(Value::Tuple(t)) => {
                    if t.len() > TUPLE_SIZE {
                        Some(value_from_field_list(t))
                    } else {
                        Some(Value::Tuple(t))
                    }
                },
                imm => imm,
            };
            seg.push(Instruction { opcode: op, immediate, debug_info: d });
        },
    }
    Ok(seg)
}

/// Lowers every instruction of the merged program; the first whose tuple or global read names a
/// missing element stops it, with that instruction's location.
pub fn fix_tuple_size(code: Vec<Instruction<Opcode>>, num_globals: usize) -> (r: Result<
    Vec<Instruction<Opcode>>,
    CompileError,
>)
    ensures
        r is Ok <==> forall|m: int| 0 <= m < code@.len() ==> tuple_insn_ok(#[trigger] code@[m], num_globals as nat),
        r matches Ok(out) ==> tuples_lowered(code@, num_globals as nat, out@),
        r matches Err(e) ==> e.kind matches CompileErrorKind::TupleIndex(_, _) && exists|m: int|
            0 <= m < code@.len() && !tuple_insn_ok(#[trigger] code@[m], num_globals as nat)
                && e.location == code@[m].debug_info.location,
{
    let ghost c0 = code@;
    let mut rev = reversed(code);
    let mut out: Vec<Instruction<Opcode>> = Vec::new();
    let ghost mut segs: Seq<Seq<Instruction<Opcode>>> = Seq::empty();
    while rev.len() > 0
        invariant
            segs.len() + rev@.len() == c0.len(),
            c0 == code@,
            forall|k: int| 0 <= k < rev@.len() ==> #[trigger] rev@[k] == c0[c0.len() - 1 - k],
            out@ == concat(segs),
            forall|m: int| 0 <= m < segs.len() ==> lowered_insn(#[trigger] c0[m], num_globals as nat, segs[m]),
            forall|m: int| 0 <= m < segs.len() ==> tuple_insn_ok(#[trigger] c0[m], num_globals as nat),
        decreases rev@.len(),
    {
        let ghost m = segs.len() as int;
        let insn = rev.pop().unwrap();
        assert(insn == c0[m]);
        match lower_insn(insn, num_globals) {
            Ok(seg) => {
                let mut seg = seg;
                let ghost sv = seg@;
                out.append(&mut seg);
                proof {
                    let old_segs = segs;
                    segs = segs.push(sv);
                    assert(segs.drop_last() =~= old_segs);
                }
            },
            Err(e) => {
                return Err(e);
            },
        }
    }
    Ok(out)
}

/// A native no-op with no operand, which the peephole pass removes.
pub open spec fn is_bare_noop(insn: Instruction<Opcode>) -> bool {
    insn.opcode == Opcode::AVMOpcode(AVMOpcode::Noop) && insn.immediate is None
}

/// The code without its bare no-ops.
pub open spec fn peephole_spec(code: Seq<Instruction<Opcode>>) -> Seq<Instruction<Opcode>>
    decreases code.len(),
{
    if code.len() == 0 {
        Seq::empty()
    } else if is_bare_noop(code.last()) {
        peephole_spec(code.drop_last())
    } else {
        peephole_spec(code.drop_last()).push(code.last())
    }
}

/// Local simplification that keeps what the code does: removes no-ops that carry no operand.
pub fn peephole(code: Vec<Instruction<Opcode>>) -> (r: Vec<Instruction<Opcode>>)
    ensures
        r@ == peephole_spec(code@),
{
    let ghost c0 = code@;
    let n = code.len();
    let mut rev = reversed(code);
    let mut out: Vec<Instruction<Opcode>> = Vec::new();
    let mut i: usize = 0;
    while rev.len() > 0
        invariant
            i + rev@.len() == c0.len(),
            n == c0.len(),
            forall|k: int| 0 <= k < rev@.len() ==> #[trigger] rev@[k] == c0[c0.len() - 1 - k],
            out@ == peephole_spec(c0.take(i as int)),
        decreases rev@.len(),
    {
        let insn = rev.pop().unwrap();
        assert(insn == c0[i as int]);
        assert(c0.take(i + 1).drop_last() =~= c0.take(i as int));
        let bare = match (insn.opcode, &insn.immediate) {
            (Opcode::AVMOpcode(AVMOpcode::Noop), None) => true,
            _ => false,
        };
        if !bare {
            out.push(insn);
        }
        i = i + 1;
    }
    assert(c0.take(c0.len() as int) =~= c0);
    out
}

/// Each element of each segment stands somewhere in their concatenation.
pub proof fn lemma_concat_contains(segs: Seq<Seq<Instruction<Opcode>>>, m: int, t: int)
    requires
        0 <= m < segs.len(),
        0 <= t < segs[m].len(),
    ensures
        exists|p: int| 0 <= p < concat(segs).len() && #[trigger] concat(segs)[p] == segs[m][t],
    decreases segs.len(),
{
    let prefix = concat(segs.drop_last());
    if m == segs.len() - 1 {
        assert(concat(segs)[prefix.len() + t] == segs[m][t]);
    } else {
        lemma_concat_contains(segs.drop_last(), m, t);
        let p = choose|p: int| 0 <= p < prefix.len() && #[trigger] prefix[p] == segs.drop_last()[m][t];
        assert(concat(segs)[p] == segs[m][t]);
    }
}

/// An instruction that is neither a tuple read nor a global read keeps its opcode somewhere in
/// the lowered code.
pub proof fn lemma_lowered_keeps_opcode(
    code: Seq<Instruction<Opcode>>,
    num_globals: nat,
    out: Seq<Instruction<Opcode>>,
    m: int,
)
    requires
        tuples_lowered(code, num_globals, out),
        0 <= m < code.len(),
        !(code[m].opcode is TupleGet),
        !(code[m].opcode is GetGlobalVar),
    ensures
        exists|p: int| 0 <= p < out.len() && #[trigger] out[p].opcode == code[m].opcode,
{
    let segs = choose|segs: Seq<Seq<Instruction<Opcode>>>|
        segs.len() == code.len() && out == concat(segs) && forall|w: int|
            0 <= w < code.len() ==> lowered_insn(#[trigger] code[w], num_globals, segs[w]);
    assert(lowered_insn(code[m], num_globals, segs[m]));
    lemma_concat_contains(segs, m, 0);
    let p = choose|p: int| 0 <= p < concat(segs).len() && #[trigger] concat(segs)[p] == segs[m][0];
    assert(out[p].opcode == code[m].opcode);
}

/// The peephole pass keeps every instruction that is not a bare no-op.
pub proof fn lemma_peephole_keeps(code: Seq<Instruction<Opcode>>, p: int)
    requires
        0 <= p < code.len(),
        !is_bare_noop(code[p]),
    ensures
        exists|q: int| 0 <= q < peephole_spec(code).len() && #[trigger] peephole_spec(code)[q] == code[p],
    decreases code.len(),
{
    if p == code.len() - 1 {
        let r = peephole_spec(code);
        assert(r[r.len() - 1] == code[p]);
    } else {
        lemma_peephole_keeps(code.drop_last(), p);
        let pre = peephole_spec(code.drop_last());
        let q = choose|q: int| 0 <= q < pre.len() && #[trigger] pre[q] == code.drop_last()[p];
        if is_bare_noop(code.last()) {
            assert(peephole_spec(code)[q] == code[p]);
        } else {
            assert(peephole_spec(code)[q] == code[p]);
        }
    }
}

/// Each element of the concatenation comes from some segment.
pub proof fn lemma_concat_member(segs: Seq<Seq<Instruction<Opcode>>>, p: int)
    requires
        0 <= p < concat(segs).len(),
    ensures
        exists|m: int, t: int|
            0 <= m < segs.len() && 0 <= t < segs[m].len() && concat(segs)[p] == #[trigger] segs[m][t],
    decreases segs.len(),
{
    let prefix = concat(segs.drop_last());
    if p < prefix.len() {
        lemma_concat_member(segs.drop_last(), p);
        let (m, t) = choose|m: int, t: int|
            0 <= m < segs.drop_last().len() && 0 <= t < segs.drop_last()[m].len() && prefix[p]
                == #[trigger] segs.drop_last()[m][t];
        assert(concat(segs)[p] == segs[m][t]);
    } else {
        let m = segs.len() - 1;
        assert(concat(segs)[p] == segs[m][p - prefix.len()]);
    }
}

/// A label in the lowered code was in the immediate of some instruction before lowering.
pub proof fn lemma_lowered_labels(code: Seq<Instruction<Opcode>>, num_globals: nat, out: Seq<Instruction<Opcode>>, p: int)
    requires
        tuples_lowered(code, num_globals, out),
        0 <= p < out.len(),
        imm_label(out[p]) is Some,
    ensures
        exists|m: int| 0 <= m < code.len() && #[trigger] imm_label(code[m]) == imm_label(out[p]),
{
    let segs = choose|segs: Seq<Seq<Instruction<Opcode>>>|
        segs.len() == code.len() && out == concat(segs) && forall|w: int|
            0 <= w < code.len() ==> lowered_insn(#[trigger] code[w], num_globals, segs[w]);
    lemma_concat_member(segs, p);
    let (m, t) = choose|m: int, t: int|
        0 <= m < segs.len() && 0 <= t < segs[m].len() && concat(segs)[p] == #[trigger] segs[m][t];
    assert(lowered_insn(code[m], num_globals, segs[m]));
    let pre: int = match code[m].opcode {
        Opcode::TupleGet(_, _) => if code[m].immediate is Some { 1 } else { 0 },
        Opcode::GetGlobalVar(_) => 1,
        _ => 1,
    };
    if t >= pre {
        match code[m].opcode {
            Opcode::TupleGet(k, size) => {
                assert(segs[m][pre + (t - pre)] == tget_insn(tget_path(k as nat, size as nat)[t - pre], code[m].debug_info));
            },
            Opcode::GetGlobalVar(k) => {
                assert(segs[m][pre + (t - pre)] == tget_insn(tget_path(k as nat, num_globals)[t - pre], code[m].debug_info));
            },
            _ => {},
        }
    }
    assert(imm_label(code[m]) == imm_label(out[p]));
}

/// Every instruction left by the peephole pass was in its input.
pub proof fn lemma_peephole_member(code: Seq<Instruction<Opcode>>, q: int)
    requires
        0 <= q < peephole_spec(code).len(),
    ensures
        exists|p: int| 0 <= p < code.len() && #[trigger] code[p] == peephole_spec(code)[q],
    decreases code.len(),
{
    let pre = peephole_spec(code.drop_last());
    if q < pre.len() {
        lemma_peephole_member(code.drop_last(), q);
        let p = choose|p: int| 0 <= p < code.drop_last().len() && #[trigger] code.drop_last()[p] == pre[q];
        assert(code[p] == peephole_spec(code)[q]);
    } else {
        assert(code[code.len() - 1] == peephole_spec(code)[q]);
    }
}

/// An opcode of the lowered code is native, or is the opcode of an instruction before lowering
/// that was neither a tuple read nor a global read.
pub proof fn lemma_lowered_opcode_origin(
    code: Seq<Instruction<Opcode>>,
    num_globals: nat,
    out: Seq<Instruction<Opcode>>,
    p: int,
)
    requires
        tuples_lowered(code, num_globals, out),
        0 <= p < out.len(),
    ensures
        out[p].opcode is AVMOpcode || exists|m: int|
            0 <= m < code.len() && #[trigger] code[m].opcode == out[p].opcode && !(code[m].opcode is TupleGet)
                && !(code[m].opcode is GetGlobalVar) && code[m].debug_info == out[p].debug_info,
{
    let segs = choose|segs: Seq<Seq<Instruction<Opcode>>>|
        segs.len() == code.len() && out == concat(segs) && forall|w: int|
            0 <= w < code.len() ==> lowered_insn(#[trigger] code[w], num_globals, segs[w]);
    lemma_concat_member(segs, p);
    let (m, t) = choose|m: int, t: int|
        0 <= m < segs.len() && 0 <= t < segs[m].len() && concat(segs)[p] == #[trigger] segs[m][t];
    assert(lowered_insn(code[m], num_globals, segs[m]));
    match code[m].opcode {
        Opcode::TupleGet(k, size) => {
            let pre: int = if code[m].immediate is Some { 1 } else { 0 };
            if t >= pre {
                assert(segs[m][pre + (t - pre)] == tget_insn(tget_path(k as nat, size as nat)[t - pre], code[m].debug_info));
            }
        },
        Opcode::GetGlobalVar(k) => {
            if t >= 1 {
                assert(segs[m][1 + (t - 1)] == tget_insn(tget_path(k as nat, num_globals)[t - 1], code[m].debug_info));
            }
        },
        _ => {},
    }
}

/// Segments of one instruction each keep their instructions at the front of the concatenation.
pub proof fn lemma_concat_prefix(segs: Seq<Seq<Instruction<Opcode>>>, k: int)
    requires
        0 <= k <= segs.len(),
        forall|i: int| 0 <= i < k ==> (#[trigger] segs[i]).len() == 1,
    ensures
        concat(segs).len() >= k,
        forall|w: int| 0 <= w < k ==> #[trigger] concat(segs)[w] == segs[w][0],
    decreases segs.len(),
{
    if segs.len() > 0 {
        if segs.len() > k {
            lemma_concat_prefix(segs.drop_last(), k);
            assert forall|w: int| 0 <= w < k implies #[trigger] concat(segs)[w] == segs[w][0] by {
                assert(concat(segs)[w] == concat(segs.drop_last())[w]);
            }
        } else {
            lemma_concat_prefix(segs.drop_last(), k - 1);
            let pre = concat(segs.drop_last());
            lemma_concat_len_one(segs.drop_last());
            assert forall|w: int| 0 <= w < k implies #[trigger] concat(segs)[w] == segs[w][0] by {
                if w < k - 1 {
                    assert(concat(segs)[w] == pre[w]);
                } else {
                    assert(concat(segs)[w] == segs.last()[0]);
                }
            }
        }
    }
}

pub proof fn lemma_concat_len_one(segs: Seq<Seq<Instruction<Opcode>>>)
    requires
        forall|i: int| 0 <= i < segs.len() ==> (#[trigger] segs[i]).len() == 1,
    ensures
        concat(segs).len() == segs.len(),
    decreases segs.len(),
{
    if segs.len() > 0 {
        lemma_concat_len_one(segs.drop_last());
    }
}

/// Instructions at the front that neither read tuples or globals nor carry a wide tuple come
/// through lowering unchanged and in place.
pub proof fn lemma_lowered_prefix(code: Seq<Instruction<Opcode>>, num_globals: nat, out: Seq<Instruction<Opcode>>, k: int)
    requires
        tuples_lowered(code, num_globals, out),
        0 <= k <= code.len(),
        forall|w: int|
            0 <= w < k ==> !((#[trigger] code[w]).opcode is TupleGet) && !(code[w].opcode is GetGlobalVar)
                && !(code[w].immediate matches Some(Value::Tuple(t)) && t@.len() > 8),
    ensures
        out.len() >= k,
        forall|w: int| 0 <= w < k ==> #[trigger] out[w] == code[w],
{
    let segs = choose|segs: Seq<Seq<Instruction<Opcode>>>|
        segs.len() == code.len() && out == concat(segs) && forall|w: int|
            0 <= w < code.len() ==> lowered_insn(#[trigger] code[w], num_globals, segs[w]);
    assert forall|i: int| 0 <= i < k implies (#[trigger] segs[i]).len() == 1 by {
        assert(lowered_insn(code[i], num_globals, segs[i]));
    }
    lemma_concat_prefix(segs, k);
    assert forall|w: int| 0 <= w < k implies #[trigger] out[w] == code[w] by {
        assert(lowered_insn(code[w], num_globals, segs[w]));
        assert(out[w] == segs[w][0]);
    }
}

/// Code without bare no-ops goes through the peephole pass unchanged.
pub proof fn lemma_peephole_identity(code: Seq<Instruction<Opcode>>)
    requires
        forall|w: int| 0 <= w < code.len() ==> !is_bare_noop(#[trigger] code[w]),
    ensures
        peephole_spec(code) == code,
    decreases code.len(),
{
    if code.len() > 0 {
        lemma_peephole_identity(code.drop_last());
        assert(code.drop_last().push(code.last()) =~= code);
    }
}

/// Instructions at the front that are not bare no-ops stay in place through the peephole pass.
pub proof fn lemma_peephole_prefix(code: Seq<Instruction<Opcode>>, k: int)
    requires
        0 <= k <= code.len(),
        forall|w: int| 0 <= w < k ==> !is_bare_noop(#[trigger] code[w]),
    ensures
        peephole_spec(code).len() >= k,
        forall|w: int| 0 <= w < k ==> #[trigger] peephole_spec(code)[w] == code[w],
    decreases code.len(),
{
    if code.len() == k {
        lemma_peephole_identity(code);
    } else {
        lemma_peephole_prefix(code.drop_last(), k);
        assert forall|w: int| 0 <= w < k implies #[trigger] peephole_spec(code)[w] == code[w] by {
            assert(peephole_spec(code)[w] == peephole_spec(code.drop_last())[w]);
        }
    }
}

} // verus!
