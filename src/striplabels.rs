//! Label elimination. The first pass sends every jump whose target is not ahead of it (a label
//! already passed, or an import) through the jump table; the second removes the label markers
//! and puts absolute addresses in place of the labels that remain.
use crate::mavm::{imm_label, is_none_value, Instruction, Label, Opcode, Value};
use crate::program::{reversed, CompileError, CompileErrorKind};
use vstd::prelude::*;

verus! {

/// A marker for `l` stands before position `m`.
pub open spec fn defined_before(code: Seq<Instruction<Opcode>>, m: int, l: Label) -> bool {
    exists|q: int| 0 <= q < m && #[trigger] code[q].opcode == Opcode::Label(l)
}

/// A jump to `l` at position `m` cannot be patched by scanning forward: its target was already
/// passed, or it is an import.
pub open spec fn is_nonforward(code: Seq<Instruction<Opcode>>, m: int, l: Label) -> bool {
    l is External || defined_before(code, m, l)
}

/// `out` is `code` with each non-forward label in an immediate replaced by its slot in `table`.
pub open spec fn nonforward_fixed(
    code: Seq<Instruction<Opcode>>,
    out: Seq<Instruction<Opcode>>,
    table: Seq<Label>,
) -> bool {
    &&& out.len() == code.len()
    &&& forall|m: int|
        0 <= m < code.len() ==> match imm_label(#[trigger] code[m]) {
            Some(l) => if is_nonforward(code, m, l) {
                &&& out[m].opcode == code[m].opcode
                &&& out[m].debug_info == code[m].debug_info
                &&& out[m].immediate matches Some(Value::JumpSlot(j)) && j < table.len() && table[j as int]
                    == l
            } else {
                out[m] == code[m]
            },
            None => out[m] == code[m],
        }
    &&& table.no_duplicates()
    &&& forall|j: int|
        #![trigger table[j]]
        0 <= j < table.len() ==> exists|m: int|
            0 <= m < code.len() && #[trigger] imm_label(code[m]) == Some(table[j]) && is_nonforward(
                code,
                m,
                table[j],
            )
}

/// Position of `l` in `v`, if it is there.
fn index_of(v: &Vec<Label>, l: Label) -> (r: Option<usize>)
    ensures
        r matches Some(j) ==> j < v@.len() && v@[j as int] == l,
        r is None ==> !v@.contains(l),
{
    let mut i: usize = 0;
    while i < v.len()
        invariant
            i <= v@.len(),
            forall|k: int| 0 <= k < i ==> v@[k] != l,
        decreases v@.len() - i,
    {
        if v[i] == l {
            return Some(i);
        }
        i = i + 1;
    }
    None
}

/// First pass: every jump whose target is not ahead of it goes through the jump table, which
/// is returned with the code.
pub fn fix_nonforward_labels(code: Vec<Instruction<Opcode>>) -> (r: (
    Vec<Instruction<Opcode>>,
    Vec<Label>,
))
    ensures
        nonforward_fixed(code@, r.0@, r.1@),
{
    let ghost c0 = code@;
    let mut rev = reversed(code);
    let mut out: Vec<Instruction<Opcode>> = Vec::new();
    let mut seen: Vec<Label> = Vec::new();
    let mut table: Vec<Label> = Vec::new();
    while rev.len() > 0
        invariant
            out@.len() + rev@.len() == c0.len(),
            forall|k: int| 0 <= k < rev@.len() ==> #[trigger] rev@[k] == c0[c0.len() - 1 - k],
            forall|l: Label| seen@.contains(l) <==> defined_before(c0, out@.len() as int, l),
            nonforward_fixed(c0.take(out@.len() as int), out@, table@),
        decreases rev@.len(),
    {
        let ghost m = out@.len() as int;
        let insn = rev.pop().unwrap();
        assert(insn == c0[m]);
        let ghost old_out = out@;
        let ghost old_table = table@;
        let ghost old_seen = seen@;
        let is_marker = match insn.opcode {
            Opcode::Label(l) => Some(l),
            _ => None,
        };
        let new_insn = match insn.immediate {
            Some(Value::Label(l)) => {
                let nonforward = match l {
                    Label::External(_) => true,
                    _ => index_of(&seen, l).is_some(),
                };
                if nonforward {
                    let j = match index_of(&table, l) {
                        Some(j) => j,
                        None => {
                            table.push(l);
                            proof {
                                if !(l is External) {
                                    assert(seen@.contains(l));
                                }
                                assert(is_nonforward(c0, m, l));
                                assert forall|a: int, b: int|
                                    0 <= a < table@.len() && 0 <= b < table@.len() && a != b implies table@[a]
                                    != table@[b] by {
                                    if a == table@.len() - 1 {
                                        assert(old_table[b] != l);
                                    } else if b == table@.len() - 1 {
                                        assert(old_table[a] != l);
                                    }
                                }
                            }
                            table.len() - 1
                        },
                    };
                    Instruction {
                        opcode: insn.opcode,
                        immediate: Some(Value::JumpSlot(j)),
                        debug_info: insn.debug_info,
                    }
                } else {
                    Instruction {
                        opcode: insn.opcode,
                        immediate: Some(Value::Label(l)),
                        debug_info: insn.debug_info,
                    }
                }
            },
            imm => Instruction { opcode: insn.opcode, immediate: imm, debug_info: insn.debug_info },
        };
        out.push(new_insn);
        if let Some(l) = is_marker {
            seen.push(l);
        }
        proof {
            let cm = c0.take(m + 1);
            assert(cm.take(m) =~= c0.take(m));
            assert forall|q: int| 0 <= q < m implies #[trigger] cm[q] == c0.take(m)[q] by {}
            assert forall|q: int, ll: Label| 0 <= q <= m implies #[trigger] defined_before(cm, q, ll)
                == defined_before(c0, q, ll) by {
                if defined_before(cm, q, ll) {
                    let w = choose|w: int| 0 <= w < q && #[trigger] cm[w].opcode == Opcode::Label(ll);
                    assert(c0[w].opcode == Opcode::Label(ll));
                }
                if defined_before(c0, q, ll) {
                    let w = choose|w: int| 0 <= w < q && #[trigger] c0[w].opcode == Opcode::Label(ll);
                    assert(cm[w].opcode == Opcode::Label(ll));
                }
            }
            assert forall|q: int, ll: Label| 0 <= q < m implies #[trigger] defined_before(c0.take(m), q, ll)
                == defined_before(c0, q, ll) by {
                if defined_before(c0.take(m), q, ll) {
                    let w = choose|w: int| 0 <= w < q && #[trigger] c0.take(m)[w].opcode == Opcode::Label(ll);
                    assert(c0[w].opcode == Opcode::Label(ll));
                }
                if defined_before(c0, q, ll) {
                    let w = choose|w: int| 0 <= w < q && #[trigger] c0[w].opcode == Opcode::Label(ll);
                    assert(c0.take(m)[w].opcode == Opcode::Label(ll));
                }
            }
            assert forall|ll: Label| seen@.contains(ll) <==> defined_before(c0, m + 1, ll) by {
                if seen@.contains(ll) {
                    if old_seen.contains(ll) {
                        let w = choose|w: int| 0 <= w < m && #[trigger] c0[w].opcode == Opcode::Label(ll);
                        assert(0 <= w < m + 1 && c0[w].opcode == Opcode::Label(ll));
                    } else {
                        assert(seen@.last() == ll);
                        assert(c0[m].opcode == Opcode::Label(ll));
                    }
                }
                if defined_before(c0, m + 1, ll) {
                    let w = choose|w: int| 0 <= w < m + 1 && #[trigger] c0[w].opcode == Opcode::Label(ll);
                    if w < m {
                        assert(old_seen.contains(ll));
                        let z = choose|z: int| 0 <= z < old_seen.len() && old_seen[z] == ll;
                        assert(seen@[z] == ll);
                    } else {
                        assert(seen@.last() == ll);
                    }
                }
            }
            assert forall|j: int| #![trigger table@[j]] 0 <= j < table@.len() implies exists|q: int|
                0 <= q < cm.len() && #[trigger] imm_label(cm[q]) == Some(table@[j]) && is_nonforward(
                    cm,
                    q,
                    table@[j],
                ) by {
                if j < old_table.len() {
                    let q = choose|q: int|
                        0 <= q < c0.take(m).len() && #[trigger] imm_label(c0.take(m)[q]) == Some(
                            old_table[j],
                        ) && is_nonforward(c0.take(m), q, old_table[j]);
                    assert(imm_label(cm[q]) == Some(table@[j]));
                    if !(table@[j] is External) {
                        assert(defined_before(c0.take(m), q, table@[j]));
                        assert(defined_before(c0, q, table@[j]));
                        assert(defined_before(cm, q, table@[j]));
                    }
                } else {
                    assert(imm_label(cm[m]) == Some(table@[j]));
                    assert(is_nonforward(c0, m, table@[j]));
                    if !(table@[j] is External) {
                        assert(defined_before(cm, m, table@[j]));
                    }
                }
            }
        }
    }
    assert(c0.take(c0.len() as int) =~= c0);
    (out, table)
}

/// Number of instructions before position `q` that occupy an address (label markers do not).
pub open spec fn addr_of(code: Seq<Instruction<Opcode>>, q: int) -> nat
    decreases q,
{
    if q <= 0 {
        0
    } else if code[q - 1].opcode is Label {
        addr_of(code, q - 1)
    } else {
        addr_of(code, q - 1) + 1
    }
}

/// The address that the last marker of `l` defines, if there is one.
pub open spec fn label_addr(code: Seq<Instruction<Opcode>>, l: Label) -> Option<nat>
    decreases code.len(),
{
    if code.len() == 0 {
        None
    } else if code.last().opcode == Opcode::Label(l) {
        Some(addr_of(code, code.len() - 1))
    } else {
        label_addr(code.drop_last(), l)
    }
}

/// The instruction with a label in its immediate replaced by the address it defines.
pub open spec fn resolves_to(insn: Instruction<Opcode>, r: Instruction<Opcode>, code: Seq<Instruction<Opcode>>) -> bool {
    &&& r.opcode == insn.opcode
    &&& r.debug_info == insn.debug_info
    &&& match imm_label(insn) {
        Some(l) => label_addr(code, l) matches Some(a) && r.immediate == Some(Value::CodePoint(a as usize)),
        None => r.immediate == insn.immediate,
    }
}

/// Every label in an immediate of a non-marker instruction has a marker.
pub open spec fn labels_defined(code: Seq<Instruction<Opcode>>) -> bool {
    forall|q: int|
        0 <= q < code.len() && !(code[q].opcode is Label) ==> (#[trigger] imm_label(code[q]) matches Some(l)
            ==> label_addr(code, l) is Some)
}

/// `out` is `code` without its markers, with every label resolved to its address; `vals` holds,
/// for each label of `table`, its address, or none where no marker defines it.
pub open spec fn labels_stripped(
    code: Seq<Instruction<Opcode>>,
    table: Seq<Label>,
    out: Seq<Instruction<Opcode>>,
    vals: Seq<Value>,
) -> bool {
    &&& out.len() == addr_of(code, code.len() as int)
    &&& forall|q: int|
        0 <= q < code.len() && !(code[q].opcode is Label) ==> resolves_to(
            code[q],
            #[trigger] out[addr_of(code, q) as int],
            code,
        )
    &&& vals.len() == table.len()
    &&& forall|j: int|
        0 <= j < table.len() ==> match label_addr(code, table[j]) {
            Some(a) => #[trigger] vals[j] == Value::CodePoint(a as usize),
            None => is_none_value(vals[j]),
        }
}

/// The address recorded last for `l`, if any.
pub open spec fn lookup_last(defs: Seq<(Label, usize)>, l: Label) -> Option<nat>
    decreases defs.len(),
{
    if defs.len() == 0 {
        None
    } else if defs.last().0 == l {
        Some(defs.last().1 as nat)
    } else {
        lookup_last(defs.drop_last(), l)
    }
}

pub proof fn lemma_addr_of_prefix(code: Seq<Instruction<Opcode>>, n: int, q: int)
    requires
        0 <= q <= n <= code.len(),
    ensures
        addr_of(code.take(n), q) == addr_of(code, q),
        addr_of(code, q) <= q,
    decreases q,
{
    if q > 0 {
        lemma_addr_of_prefix(code, n, q - 1);
    }
}

pub proof fn lemma_addr_of_monotone(code: Seq<Instruction<Opcode>>, q: int, w: int)
    requires
        0 <= q <= w <= code.len(),
    ensures
        addr_of(code, q) <= addr_of(code, w),
        q < w && !(code[q].opcode is Label) ==> addr_of(code, q) < addr_of(code, w),
    decreases w - q,
{
    if q < w {
        lemma_addr_of_monotone(code, q, w - 1);
        if q < w - 1 {
            lemma_addr_of_monotone(code, q + 1, w);
        }
    }
}

/// The addresses that the markers of `code` define.
fn label_defs(code: &Vec<Instruction<Opcode>>) -> (r: Vec<(Label, usize)>)
    ensures
        forall|l: Label| #[trigger] lookup_last(r@, l) == label_addr(code@, l),
{
    let mut defs: Vec<(Label, usize)> = Vec::new();
    let mut addr: usize = 0;
    let mut i: usize = 0;
    while i < code.len()
        invariant
            i <= code@.len(),
            addr == addr_of(code@, i as int),
            forall|l: Label| #[trigger] lookup_last(defs@, l) == label_addr(code@.take(i as int), l),
        decreases code@.len() - i,
    {
        proof {
            lemma_addr_of_prefix(code@, i as int, i as int);
        }
        let ghost old_defs = defs@;
        assert(code@.take(i + 1).drop_last() =~= code@.take(i as int));
        proof {
            lemma_addr_of_prefix(code@, i + 1, i as int);
        }
        match code[i].opcode {
            Opcode::Label(l) => {
                defs.push((l, addr));
                assert(defs@.drop_last() =~= old_defs);
            },
            _ => {
                addr = addr + 1;
            },
        }
        proof {
            assert forall|l: Label| #[trigger] lookup_last(defs@, l) == label_addr(
                code@.take(i + 1),
                l,
            ) by {
                let t = code@.take(i + 1);
                assert(lookup_last(old_defs, l) == label_addr(code@.take(i as int), l));
                assert(t.last() == code@[i as int]);
                assert(t.drop_last() =~= code@.take(i as int));
                if code@[i as int].opcode == Opcode::Label(l) {
                    assert(defs@.last() == (l, addr_of(code@, i as int) as usize));
                    assert(label_addr(t, l) == Some(addr_of(t, i as int)));
                    assert(lookup_last(defs@, l) == Some(addr_of(code@, i as int)));
                } else {
                    assert(label_addr(t, l) == label_addr(t.drop_last(), l));
                    if code@[i as int].opcode is Label {
                        assert(defs@.drop_last() == old_defs);
                        assert(defs@.last().0 != l);
                    } else {
                        assert(defs@ == old_defs);
                    }
                }
            }
        }
        i = i + 1;
    }
    assert(code@.take(code@.len() as int) =~= code@);
    defs
}

fn find_def(defs: &Vec<(Label, usize)>, l: Label) -> (r: Option<usize>)
    ensures
        r matches Some(a) ==> lookup_last(defs@, l) == Some(a as nat),
        r is None ==> lookup_last(defs@, l) is None,
{
    let mut i: usize = defs.len();
    assert(defs@.take(i as int) =~= defs@);
    while i > 0
        invariant
            i <= defs@.len(),
            lookup_last(defs@, l) == lookup_last(defs@.take(i as int), l),
        decreases i,
    {
        assert(defs@.take(i as int).drop_last() =~= defs@.take(i - 1));
        if defs[i - 1].0 == l {
            return Some(defs[i - 1].1);
        }
        i = i - 1;
    }
    None
}

/// Second pass: removes the label markers and replaces each remaining label by the address its
/// marker defines; also gives the address of each label of the jump table, or none for one
/// that no marker defines (an import that nothing exports, which fails only when run).
pub fn strip_labels(code: Vec<Instruction<Opcode>>, jump_table: &Vec<Label>) -> (r: Result<
    (Vec<Instruction<Opcode>>, Vec<Value>),
    CompileError,
>)
    ensures
        r is Ok <==> labels_defined(code@),
        r matches Ok(v) ==> labels_stripped(code@, jump_table@, v.0@, v.1@),
        r matches Err(e) ==> e.kind matches CompileErrorKind::UndefinedLabel(l) && exists|q: int|
            0 <= q < code@.len() && !(code@[q].opcode is Label) && #[trigger] imm_label(code@[q])
                == Some(l) && label_addr(code@, l) is None && e.location == code@[q].debug_info.location,
{
    let defs = label_defs(&code);
    let mut vals: Vec<Value> = Vec::new();
    let mut j: usize = 0;
    while j < jump_table.len()
        invariant
            j <= jump_table@.len(),
            vals@.len() == j,
            forall|l: Label| #[trigger] lookup_last(defs@, l) == label_addr(code@, l),
            forall|k: int|
                0 <= k < j ==> match label_addr(code@, jump_table@[k]) {
                    Some(a) => #[trigger] vals@[k] == Value::CodePoint(a as usize),
                    None => is_none_value(vals@[k]),
                },
        decreases jump_table@.len() - j,
    {
        match find_def(&defs, jump_table[j]) {
            Some(a) => vals.push(Value::CodePoint(a)),
            None => vals.push(Value::none()),
        }
        j = j + 1;
    }
    let ghost c0 = code@;
    let n = code.len();
    let mut rev = reversed(code);
    let mut out: Vec<Instruction<Opcode>> = Vec::new();
    let mut q: usize = 0;
    while rev.len() > 0
        invariant
            q + rev@.len() == c0.len(),
            n == c0.len(),
            c0 == code@,
            forall|k: int| 0 <= k < rev@.len() ==> #[trigger] rev@[k] == c0[c0.len() - 1 - k],
            forall|l: Label| #[trigger] lookup_last(defs@, l) == label_addr(c0, l),
            out@.len() == addr_of(c0, q as int),
            forall|w: int|
                0 <= w < q && !(c0[w].opcode is Label) ==> resolves_to(
                    c0[w],
                    #[trigger] out@[addr_of(c0, w) as int],
                    c0,
                ),
            forall|w: int|
                0 <= w < q && !(c0[w].opcode is Label) ==> (#[trigger] imm_label(c0[w]) matches Some(l)
                    ==> label_addr(c0, l) is Some),
        decreases rev@.len(),
    {
        let insn = rev.pop().unwrap();
        assert(insn == c0[q as int]);
        proof {
            lemma_addr_of_prefix(c0, c0.len() as int, q as int);
        }
        let ghost old_out = out@;
        match insn.opcode {
            Opcode::Label(_) => {},
            _ => {
                let immediate = match insn.immediate {
                    Some(Value::Label(l)) => match find_def(&defs, l) {
                        Some(a) => Some(Value::CodePoint(a)),
                        None => {
                            proof {
                                assert(imm_label(c0[q as int]) == Some(l));
                                assert(!labels_defined(c0));
                            }
                            return Err(
                                CompileError::new(
                                    CompileErrorKind::UndefinedLabel(l),
                                    insn.debug_info.location,
                                ),
                            );
                        },
                    },
                    imm => imm,
                };
                out.push(
                    Instruction { opcode: insn.opcode, immediate, debug_info: insn.debug_info },
                );
                proof {
                    assert forall|w: int|
                        0 <= w < q && !(c0[w].opcode is Label) implies resolves_to(
                        c0[w],
                        #[trigger] out@[addr_of(c0, w) as int],
                        c0,
                    ) by {
                        lemma_addr_of_monotone(c0, w, q as int);
                        assert(out@[addr_of(c0, w) as int] == old_out[addr_of(c0, w) as int]);
                    }
                }
            },
        }
        q = q + 1;
    }
    assert(labels_defined(c0));
    Ok((out, vals))
}

/// Every address below the code's size is taken by some instruction that is not a marker.
pub proof fn lemma_addr_onto(code: Seq<Instruction<Opcode>>, n: int, a: nat)
    requires
        0 <= n <= code.len(),
        a < addr_of(code, n),
    ensures
        exists|q: int| 0 <= q < n && !(code[q].opcode is Label) && #[trigger] addr_of(code, q) == a,
    decreases n,
{
    if a < addr_of(code, n - 1) {
        lemma_addr_onto(code, n - 1, a);
        let q = choose|q: int| 0 <= q < n - 1 && !(code[q].opcode is Label) && #[trigger] addr_of(code, q) == a;
        assert(0 <= q < n && !(code[q].opcode is Label) && addr_of(code, q) == a);
    } else {
        assert(!(code[n - 1].opcode is Label) && addr_of(code, n - 1) == a);
    }
}

/// After the second pass no instruction holds a label.
pub proof fn lemma_no_label_remains(
    code: Seq<Instruction<Opcode>>,
    table: Seq<Label>,
    out: Seq<Instruction<Opcode>>,
    vals: Seq<Value>,
)
    requires
        labels_stripped(code, table, out, vals),
    ensures
        forall|a: int| 0 <= a < out.len() ==> #[trigger] imm_label(out[a]) is None,
{
    assert forall|a: int| 0 <= a < out.len() implies #[trigger] imm_label(out[a]) is None by {
        lemma_addr_onto(code, code.len() as int, a as nat);
        let q = choose|q: int|
            0 <= q < code.len() && !(code[q].opcode is Label) && #[trigger] addr_of(code, q) == a;
        assert(resolves_to(code[q], out[addr_of(code, q) as int], code));
    }
}

/// Every jump that the first pass finds non-forward refers, after both passes, to an entry of
/// the finished jump table, which holds its target's address (none for an import that nothing
/// exports); and no label is left in the code.
pub proof fn lemma_jump_table_complete(
    code: Seq<Instruction<Opcode>>,
    fixed: Seq<Instruction<Opcode>>,
    table: Seq<Label>,
    out: Seq<Instruction<Opcode>>,
    vals: Seq<Value>,
)
    requires
        nonforward_fixed(code, fixed, table),
        labels_stripped(fixed, table, out, vals),
    ensures
        forall|m: int|
            0 <= m < code.len() && (#[trigger] imm_label(code[m]) matches Some(l) && is_nonforward(code, m, l))
                ==> (fixed[m].immediate matches Some(Value::JumpSlot(j)) && j < vals.len() && table[j as int]
                == imm_label(code[m])->Some_0 && match label_addr(fixed, table[j as int]) {
                Some(a) => vals[j as int] == Value::CodePoint(a as usize),
                None => is_none_value(vals[j as int]),
            }),
        forall|a: int| 0 <= a < out.len() ==> #[trigger] imm_label(out[a]) is None,
{
    lemma_no_label_remains(fixed, table, out, vals);
    assert forall|m: int|
        0 <= m < code.len() && (#[trigger] imm_label(code[m]) matches Some(l) && is_nonforward(code, m, l))
            implies (fixed[m].immediate matches Some(Value::JumpSlot(j)) && j < vals.len() && table[j as int]
            == imm_label(code[m])->Some_0 && match label_addr(fixed, table[j as int]) {
            Some(a) => vals[j as int] == Value::CodePoint(a as usize),
            None => is_none_value(vals[j as int]),
        }) by {
        let j = fixed[m].immediate->Some_0->JumpSlot_0;
        assert(j < table.len());
        assert(match label_addr(fixed, table[j as int]) {
            Some(a) => vals[j as int] == Value::CodePoint(a as usize),
            None => is_none_value(vals[j as int]),
        });
    }
}

/// An instruction that is not a marker keeps its opcode at its address.
pub proof fn lemma_stripped_keeps_opcode(
    code: Seq<Instruction<Opcode>>,
    table: Seq<Label>,
    out: Seq<Instruction<Opcode>>,
    vals: Seq<Value>,
    q: int,
)
    requires
        labels_stripped(code, table, out, vals),
        0 <= q < code.len(),
        !(code[q].opcode is Label),
    ensures
        addr_of(code, q) < out.len(),
        out[addr_of(code, q) as int].opcode == code[q].opcode,
{
    lemma_addr_of_monotone(code, q, code.len() as int);
    assert(resolves_to(code[q], out[addr_of(code, q) as int], code));
}

/// A label that some marker defines has an address.
pub proof fn lemma_marker_defines(code: Seq<Instruction<Opcode>>, q: int, l: Label)
    requires
        0 <= q < code.len(),
        code[q].opcode == Opcode::Label(l),
    ensures
        label_addr(code, l) is Some,
    decreases code.len(),
{
    if code.last().opcode != Opcode::Label(l) {
        assert(q < code.len() - 1);
        lemma_marker_defines(code.drop_last(), q, l);
    }
}

/// Instructions at the front that are neither markers nor hold a label keep their place
/// through the second pass.
pub proof fn lemma_strip_prefix(
    code: Seq<Instruction<Opcode>>,
    table: Seq<Label>,
    out: Seq<Instruction<Opcode>>,
    vals: Seq<Value>,
    k: int,
)
    requires
        labels_stripped(code, table, out, vals),
        0 <= k <= code.len(),
        forall|w: int| 0 <= w < k ==> !((#[trigger] code[w]).opcode is Label) && imm_label(code[w]) is None,
    ensures
        out.len() >= k,
        forall|w: int| 0 <= w < k ==> #[trigger] out[w] == code[w],
{
    lemma_addr_of_identity(code, k);
    lemma_addr_of_monotone(code, k, code.len() as int);
    assert forall|w: int| 0 <= w < k implies #[trigger] out[w] == code[w] by {
        lemma_addr_of_identity(code, w);
        assert(resolves_to(code[w], out[addr_of(code, w) as int], code));
    }
}

pub proof fn lemma_addr_of_identity(code: Seq<Instruction<Opcode>>, k: int)
    requires
        0 <= k <= code.len(),
        forall|w: int| 0 <= w < k ==> !((#[trigger] code[w]).opcode is Label),
    ensures
        addr_of(code, k) == k,
    decreases k,
{
    if k > 0 {
        lemma_addr_of_identity(code, k - 1);
    }
}

} // verus!
