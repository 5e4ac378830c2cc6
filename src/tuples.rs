//! The machine's tuples hold at most `TUPLE_SIZE` elements. A logical tuple of any size is kept
//! as a chain: when it is too wide, the first `TUPLE_SIZE - 1` elements stand in place and the
//! last slot holds the chain of the rest.
use crate::mavm::{is_none_value, Value};
use vstd::prelude::*;

verus! {

pub const TUPLE_SIZE: usize = 8;

/// `v` has the chained shape of a logical tuple of `n` elements.
pub open spec fn is_nested(v: Value, n: nat) -> bool
    decreases n,
{
    match v {
        Value::Tuple(t) => if n <= 8 {
            t@.len() == n
        } else {
            t@.len() == 8 && is_nested(t@[7], (n - 7) as nat)
        },
        _ => false,
    }
}

/// Logical element `k` of `v`, read as a chained tuple of `n` elements.
pub open spec fn nested_get(v: Value, n: nat, k: nat) -> Value
    decreases n,
{
    match v {
        Value::Tuple(t) => if n <= 8 || k < 7 {
            t@[k as int]
        } else {
            nested_get(t@[7], (n - 7) as nat, (k - 7) as nat)
        },
        _ => v,
    }
}

/// `v` is the chained form of the logical tuple `s`.
pub open spec fn is_nesting_of(v: Value, s: Seq<Value>) -> bool
    decreases s.len(),
{
    match v {
        Value::Tuple(t) => if s.len() <= 8 {
            t@ == s
        } else {
            t@.len() == 8 && t@.take(7) == s.take(7) && is_nesting_of(t@[7], s.skip(7))
        },
        _ => false,
    }
}

/// The chained form of a logical tuple has its shape, and reading index `k` of it gives
/// element `k` of the logical tuple, for every valid `k`.
pub proof fn lemma_nesting_round_trip(v: Value, s: Seq<Value>)
    requires
        is_nesting_of(v, s),
    ensures
        is_nested(v, s.len()),
        forall|k: nat| k < s.len() ==> #[trigger] nested_get(v, s.len(), k) == s[k as int],
    decreases s.len(),
{
    if s.len() > 8 {
        let t = v->Tuple_0;
        lemma_nesting_round_trip(t@[7], s.skip(7));
        assert forall|k: nat| k < s.len() implies #[trigger] nested_get(v, s.len(), k) == s[k
            as int] by {
            if k < 7 {
                assert(t@.take(7)[k as int] == s.take(7)[k as int]);
            } else {
                assert(nested_get(t@[7], (s.len() - 7) as nat, (k - 7) as nat) == s.skip(7)[k
                    - 7]);
            }
        }
    }
}

/// Packs `fields` into the chained form of the logical tuple they make.
pub fn value_from_field_list(fields: Vec<Value>) -> (r: Value)
    ensures
        is_nesting_of(r, fields@),
    decreases fields.len(),
{
    let mut fields = fields;
    if fields.len() <= TUPLE_SIZE {
        Value::Tuple(fields)
    } else {
        let ghost s = fields@;
        let rest = fields.split_off(TUPLE_SIZE - 1);
        assert(rest@ == s.skip(7));
        let tail = value_from_field_list(rest);
        fields.push(tail);
        assert(fields@.take(7) =~= s.take(7));
        Value::Tuple(fields)
    }
}

/// A chained tuple of `n` slots, each of them none.
pub fn make_uninitialized_tuple(n: usize) -> (r: Value)
    ensures
        is_nested(r, n as nat),
        forall|k: nat| k < n ==> is_none_value(#[trigger] nested_get(r, n as nat, k)),
{
    let mut fields: Vec<Value> = Vec::new();
    let mut i: usize = 0;
    while i < n
        invariant
            i <= n,
            fields@.len() == i,
            forall|k: int| 0 <= k < i ==> is_none_value(#[trigger] fields@[k]),
        decreases n - i,
    {
        fields.push(Value::none());
        i = i + 1;
    }
    let ghost s = fields@;
    let r = value_from_field_list(fields);
    proof {
        lemma_nesting_round_trip(r, s);
    }
    r
}

/// Puts `x` in the last slot of a chained tuple of `n` slots, leaving the others as they were.
pub fn replace_last_slot(v: Value, n: usize, x: Value) -> (r: Value)
    requires
        is_nested(v, n as nat),
        n >= 1,
    ensures
        is_nested(r, n as nat),
        nested_get(r, n as nat, (n - 1) as nat) == x,
        forall|k: nat| k < n - 1 ==> #[trigger] nested_get(r, n as nat, k) == nested_get(v, n as nat, k),
    decreases n,
{
    match v {
        Value::Tuple(t) => {
            let mut t = t;
            let ghost t0 = t@;
            let last = t.pop().unwrap();
            if n <= TUPLE_SIZE {
                t.push(x);
                assert(t@ =~= t0.update(n - 1, x));
            } else {
                let new_last = replace_last_slot(last, n - 7, x);
                t.push(new_last);
                assert(t@ =~= t0.update(7, new_last));
                let ghost r = Value::Tuple(t);
                assert forall|k: nat| k < n - 1 implies #[trigger] nested_get(r, n as nat, k)
                    == nested_get(v, n as nat, k) by {
                    if k >= 7 {
                        assert(nested_get(new_last, (n - 7) as nat, (k - 7) as nat) == nested_get(
                            last,
                            (n - 7) as nat,
                            (k - 7) as nat,
                        ));
                    }
                }
            }
            Value::Tuple(t)
        },
        _ => v,
    }
}

/// Whether `v` has the chained shape of a logical tuple of `n` elements.
pub fn check_nested(v: &Value, n: usize) -> (r: bool)
    ensures
        r == is_nested(*v, n as nat),
    decreases n,
{
    match v {
        Value::Tuple(t) => {
            if n <= TUPLE_SIZE {
                t.len() == n
            } else {
                t.len() == TUPLE_SIZE && check_nested(&t[7], n - 7)
            }
        },
        _ => false,
    }
}

/// The tuple indices that lead to logical element `k` of a chained tuple of `n` elements.
pub open spec fn tget_path(k: nat, n: nat) -> Seq<usize>
    decreases n,
{
    if n <= 8 || k < 7 {
        seq![k as usize]
    } else {
        seq![7usize].add(tget_path((k - 7) as nat, (n - 7) as nat))
    }
}

/// Following the path into a chained tuple reaches logical element `k`.
pub open spec fn follow_path(v: Value, p: Seq<usize>) -> Value
    decreases p.len(),
{
    if p.len() == 0 {
        v
    } else {
        match v {
            Value::Tuple(t) => follow_path(t@[p[0] as int], p.skip(1)),
            _ => v,
        }
    }
}

/// Reading a chained tuple along the path of `k` gives logical element `k`.
pub proof fn lemma_path_reads_element(v: Value, n: nat, k: nat)
    requires
        is_nested(v, n),
        k < n,
    ensures
        follow_path(v, tget_path(k, n)) == nested_get(v, n, k),
    decreases n,
{
    let t = v->Tuple_0;
    if n <= 8 || k < 7 {
        assert(seq![k as usize].skip(1) =~= Seq::<usize>::empty());
        assert(follow_path(t@[k as int], Seq::<usize>::empty()) == t@[k as int]);
    } else {
        lemma_path_reads_element(t@[7], (n - 7) as nat, (k - 7) as nat);
        let p = tget_path(k, n);
        assert(p.skip(1) =~= tget_path((k - 7) as nat, (n - 7) as nat));
    }
}

/// The path of logical element `k` in a chained tuple of `n` elements.
pub fn tuple_path(k: usize, n: usize) -> (r: Vec<usize>)
    requires
        k < n,
    ensures
        r@ == tget_path(k as nat, n as nat),
{
    let ghost k0 = k;
    let ghost n0 = n;
    let mut r: Vec<usize> = Vec::new();
    let mut k = k;
    let mut n = n;
    assert(r@.add(tget_path(k as nat, n as nat)) =~= tget_path(k0 as nat, n0 as nat));
    while n > TUPLE_SIZE && k >= TUPLE_SIZE - 1
        invariant
            k < n,
            r@.add(tget_path(k as nat, n as nat)) == tget_path(k0 as nat, n0 as nat),
        decreases n,
    {
        let ghost r0 = r@;
        assert(tget_path(k as nat, n as nat) == seq![7usize].add(
            tget_path((k - 7) as nat, (n - 7) as nat),
        ));
        r.push(7);
        k = k - 7;
        n = n - 7;
        assert(r@.add(tget_path(k as nat, n as nat)) =~= r0.add(
            seq![7usize].add(tget_path(k as nat, n as nat)),
        ));
    }
    let ghost r0 = r@;
    r.push(k);
    assert(r@ =~= r0.add(tget_path(k as nat, n as nat)));
    r
}

} // verus!
