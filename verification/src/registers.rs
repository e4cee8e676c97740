use vstd::prelude::*;

use crate::decode::{DecodedOperand, OperandKind, OperandRole};
use crate::text::{lex_lt, str_eq, str_lt, string_of, lemma_lex_irreflexive, lemma_lex_trichotomy, lemma_lex_transitive, lemma_lex_asymmetric};

verus! {

/// The register names held in `v`.
pub open spec fn name_set(v: Seq<String>) -> Set<Seq<char>> {
    Set::new(|x: Seq<char>| exists|i: int| 0 <= i < v.len() && v[i]@ == x)
}

/// `v` holds register names in strictly increasing order (so each at most once).
pub open spec fn sorted_names(v: Seq<String>) -> bool {
    forall|i: int, j: int| 0 <= i < j < v.len() ==> lex_lt(v[i]@, v[j]@)
}

/// A sorted list of register names holding exactly the names in `s`.
pub open spec fn lists_exactly(v: Seq<String>, s: Set<Seq<char>>) -> bool {
    sorted_names(v) && name_set(v) == s
}

/// The characters of each name.
pub open spec fn names_view(v: Seq<String>) -> Seq<Seq<char>> {
    Seq::new(v.len(), |i: int| v[i]@)
}

/// Strictly increasing in lexicographic order.
pub open spec fn chars_sorted(v: Seq<Seq<char>>) -> bool {
    forall|i: int, j: int| 0 <= i < j < v.len() ==> lex_lt(v[i], v[j])
}

/// The names of `s` in increasing order.
pub open spec fn sorted_names_of(s: Set<Seq<char>>) -> Seq<Seq<char>> {
    choose|v: Seq<Seq<char>>| chars_sorted(v) && v.to_set() == s
}

/// A strictly sorted list is determined by the set of its elements.
pub proof fn lemma_sorted_unique(a: Seq<Seq<char>>, b: Seq<Seq<char>>)
    requires
        chars_sorted(a),
        chars_sorted(b),
        a.to_set() == b.to_set(),
    ensures
        a == b,
    decreases a.len(),
{
    if a.len() == 0 {
        if b.len() > 0 {
            assert(b.to_set().contains(b[0]));
        }
        assert(a =~= b);
    } else {
        assert(a.to_set().contains(a[0]));
        assert(b.len() > 0);
        assert(b.to_set().contains(b[0]));
        let j = choose|j: int| 0 <= j < a.len() && a[j] == b[0];
        let k = choose|k: int| 0 <= k < b.len() && b[k] == a[0];
        if j > 0 && k > 0 {
            lemma_lex_asymmetric(a[0], a[j]);
        }
        assert(a[0] == b[0]) by {
            if a[0] != b[0] {
                if j > 0 {
                    assert(lex_lt(a[0], b[0]));
                    assert(k > 0);
                    assert(lex_lt(b[0], a[0]));
                    lemma_lex_asymmetric(a[0], b[0]);
                } else {
                    assert(a[0] == b[0]);
                }
            }
        }
        let a1 = a.drop_first();
        let b1 = b.drop_first();
        assert forall|x: Seq<char>| a1.to_set().contains(x) == b1.to_set().contains(x) by {
            if a1.contains(x) {
                let i = choose|i: int| 0 <= i < a1.len() && a1[i] == x;
                assert(a[i + 1] == x);
                assert(lex_lt(a[0], x));
                lemma_lex_irreflexive(x);
                assert(b.to_set().contains(x));
                let q = choose|q: int| 0 <= q < b.len() && b[q] == x;
                assert(q != 0);
                assert(b1[q - 1] == x);
            }
            if b1.contains(x) {
                let i = choose|i: int| 0 <= i < b1.len() && b1[i] == x;
                assert(b[i + 1] == x);
                assert(lex_lt(b[0], x));
                lemma_lex_irreflexive(x);
                assert(a.to_set().contains(x));
                let q = choose|q: int| 0 <= q < a.len() && a[q] == x;
                assert(q != 0);
                assert(a1[q - 1] == x);
            }
        }
        assert(a1.to_set() =~= b1.to_set());
        lemma_sorted_unique(a1, b1);
        assert(a =~= b1.insert(0, a[0]));
        assert(b =~= b1.insert(0, b[0]));
    }
}

/// A sorted list holding exactly `s` is the sorted list of `s`.
pub proof fn lemma_listed_names(v: Seq<String>, s: Set<Seq<char>>)
    requires
        lists_exactly(v, s),
    ensures
        names_view(v) == sorted_names_of(s),
{
    let w = names_view(v);
    assert(chars_sorted(w));
    assert forall|x: Seq<char>| w.to_set().contains(x) == s.contains(x) by {
        if w.contains(x) {
            let i = choose|i: int| 0 <= i < w.len() && w[i] == x;
            assert(name_set(v).contains(x));
        }
        if s.contains(x) {
            assert(name_set(v).contains(x));
            let i = choose|i: int| 0 <= i < v.len() && v[i]@ == x;
            assert(w[i] == x);
        }
    }
    assert(w.to_set() =~= s);
    let c = sorted_names_of(s);
    assert(chars_sorted(c) && c.to_set() == s);
    lemma_sorted_unique(w, c);
}

/// Inserts `register` into the sorted list `registers` unless it is already there.
pub fn insert_sorted_register(registers: &mut Vec<String>, register: &str)
    requires
        sorted_names(old(registers)@),
    ensures
        sorted_names(final(registers)@),
        name_set(final(registers)@) == name_set(old(registers)@).insert(register@),
{
    let ghost old_v = registers@;
    let n = registers.len();
    let mut i: usize = 0;
    while i < n && str_lt(registers[i].as_str(), register)
        invariant
            n == registers@.len(),
            registers@ == old_v,
            i <= n,
            forall|k: int| 0 <= k < i ==> lex_lt(registers@[k]@, register@),
        decreases n - i,
    {
        i += 1;
    }
    if i < n && str_eq(registers[i].as_str(), register) {
        assert(name_set(old_v).insert(register@) =~= name_set(old_v)) by {
            assert(old_v[i as int]@ == register@);
        }
        return;
    }
    proof {
        if i < n {
            lemma_lex_trichotomy(register@, old_v[i as int]@);
            assert(lex_lt(register@, old_v[i as int]@));
            assert forall|k: int| i <= k < n implies lex_lt(register@, #[trigger] old_v[k]@) by {
                if k > i {
                    lemma_lex_transitive(register@, old_v[i as int]@, old_v[k]@);
                }
            }
        }
    }
    registers.insert(i, string_of(register));
    proof {
        let v = registers@;
        assert(v == old_v.insert(i as int, v[i as int]));
        assert forall|a: int, b: int| 0 <= a < b < v.len() implies lex_lt(v[a]@, v[b]@) by {
            if a < i && b == i {
            } else if a < i && b > i {
                assert(v[b] == old_v[b - 1]);
                lemma_lex_transitive(v[a]@, register@, v[b]@);
            } else if a == i {
                assert(v[b] == old_v[b - 1]);
            } else if a > i {
                assert(v[a] == old_v[a - 1]);
                assert(v[b] == old_v[b - 1]);
            }
        }
        assert forall|x: Seq<char>| #[trigger] name_set(v).contains(x) == name_set(
            old_v,
        ).insert(register@).contains(x) by {
            if name_set(v).contains(x) {
                let k = choose|k: int| 0 <= k < v.len() && v[k]@ == x;
                if k < i {
                    assert(old_v[k]@ == x);
                } else if k > i {
                    assert(old_v[k - 1]@ == x);
                }
            }
            if name_set(old_v).contains(x) {
                let k = choose|k: int| 0 <= k < old_v.len() && old_v[k]@ == x;
                if k < i {
                    assert(v[k]@ == x);
                } else {
                    assert(v[k + 1]@ == x);
                }
            }
            if x == register@ {
                assert(v[i as int]@ == x);
            }
        }
        assert(name_set(v) =~= name_set(old_v).insert(register@));
    }
}

/// Removes `register` from the sorted list `registers` (if it is there).
pub fn remove_register(registers: &mut Vec<String>, register: &str)
    requires
        sorted_names(old(registers)@),
    ensures
        sorted_names(final(registers)@),
        name_set(final(registers)@) == name_set(old(registers)@).remove(register@),
{
    let ghost old_v = registers@;
    let mut out: Vec<String> = Vec::new();
    let n = registers.len();
    let mut i: usize = 0;
    while i < n
        invariant
            n == registers@.len(),
            registers@ == old_v,
            sorted_names(old_v),
            i <= n,
            sorted_names(out@),
            name_set(out@) == name_set(old_v.subrange(0, i as int)).remove(register@),
            forall|k: int| 0 <= k < out@.len() ==> exists|j: int| 0 <= j < i && #[trigger] out@[k]
                == old_v[j],
        decreases n - i,
    {
        let keep = !str_eq(registers[i].as_str(), register);
        let ghost before = out@;
        if keep {
            out.push(registers[i].clone());
            proof {
                assert forall|a: int, b: int| 0 <= a < b < out@.len() implies lex_lt(
                    out@[a]@,
                    out@[b]@,
                ) by {
                    if b == out@.len() - 1 {
                        let j = choose|j: int| 0 <= j < i && before[a] == old_v[j];
                        assert(out@[a] == before[a]);
                    }
                }
                assert forall|k: int| 0 <= k < out@.len() implies exists|j: int|
                    0 <= j < i + 1 && #[trigger] out@[k] == old_v[j] by {
                    if k < before.len() {
                        let j = choose|j: int| 0 <= j < i && before[k] == old_v[j];
                        assert(out@[k] == old_v[j]);
                    } else {
                        assert(out@[k] == old_v[i as int]);
                    }
                }
            }
        }
        proof {
            let pre = old_v.subrange(0, i as int);
            let post = old_v.subrange(0, i + 1);
            assert forall|x: Seq<char>| #[trigger] name_set(out@).contains(x) == name_set(
                post,
            ).remove(register@).contains(x) by {
                if name_set(post).contains(x) && x != register@ {
                    let k = choose|k: int| 0 <= k < post.len() && post[k]@ == x;
                    if k < i {
                        assert(pre[k]@ == x);
                        assert(name_set(pre).contains(x));
                        assert(name_set(before).contains(x));
                        let q = choose|q: int| 0 <= q < before.len() && before[q]@ == x;
                        assert(out@[q]@ == x);
                    } else {
                        assert(out@[out@.len() - 1]@ == x);
                    }
                }
                if name_set(out@).contains(x) {
                    let q = choose|q: int| 0 <= q < out@.len() && out@[q]@ == x;
                    if q < before.len() {
                        assert(name_set(before).contains(x));
                        let k = choose|k: int| 0 <= k < pre.len() && pre[k]@ == x;
                        assert(post[k]@ == x);
                    } else {
                        assert(post[i as int]@ == x);
                    }
                }
            }
            assert(name_set(out@) =~= name_set(post).remove(register@));
        }
        i += 1;
    }
    assert(old_v.subrange(0, n as int) =~= old_v);
    *registers = out;
}

/// The set of register names an operand mentions (register, base and index).
pub open spec fn operand_register_set(op: DecodedOperand) -> Set<Seq<char>> {
    let r = match op.register {
        Some(x) => set![x@],
        None => Set::empty(),
    };
    let b = match op.base {
        Some(x) => set![x@],
        None => Set::empty(),
    };
    let i = match op.index {
        Some(x) => set![x@],
        None => Set::empty(),
    };
    r + b + i
}

/// The registers an operand mentions, sorted and without repeats.
pub fn operand_registers(operand: &DecodedOperand) -> (r: Vec<String>)
    ensures
        lists_exactly(r@, operand_register_set(*operand)),
{
    let mut registers: Vec<String> = Vec::new();
    assert(name_set(registers@) =~= Set::empty());
    match &operand.register {
        Some(x) => insert_sorted_register(&mut registers, x.as_str()),
        None => {},
    }
    match &operand.base {
        Some(x) => insert_sorted_register(&mut registers, x.as_str()),
        None => {},
    }
    match &operand.index {
        Some(x) => insert_sorted_register(&mut registers, x.as_str()),
        None => {},
    }
    assert(name_set(registers@) =~= operand_register_set(*operand));
    registers
}

/// Registers an operand reads: sources and targets, and the address registers of a
/// memory destination.
pub open spec fn operand_reads(op: DecodedOperand) -> Set<Seq<char>> {
    match op.role {
        OperandRole::Destination => if op.kind == OperandKind::Memory {
            operand_register_set(op)
        } else {
            Set::empty()
        },
        OperandRole::Unknown => Set::empty(),
        _ => operand_register_set(op),
    }
}

/// Registers an operand writes: a destination that is not memory.
pub open spec fn operand_writes(op: DecodedOperand) -> Set<Seq<char>> {
    if op.role == OperandRole::Destination && op.kind != OperandKind::Memory {
        operand_register_set(op)
    } else {
        Set::empty()
    }
}

pub open spec fn reads_of(ops: Seq<DecodedOperand>) -> Set<Seq<char>>
    decreases ops.len(),
{
    if ops.len() == 0 {
        Set::empty()
    } else {
        reads_of(ops.drop_last()) + operand_reads(ops.last())
    }
}

pub open spec fn writes_of(ops: Seq<DecodedOperand>) -> Set<Seq<char>>
    decreases ops.len(),
{
    if ops.len() == 0 {
        Set::empty()
    } else {
        writes_of(ops.drop_last()) + operand_writes(ops.last())
    }
}

/// Appending a name adds it to the set of names.
proof fn lemma_name_set_push(v: Seq<String>, x: String)
    ensures
        name_set(v.push(x)) == name_set(v).insert(x@),
{
    let w = v.push(x);
    assert forall|y: Seq<char>| #[trigger] name_set(w).contains(y) == name_set(v).insert(x@).contains(y) by {
        if name_set(w).contains(y) {
            let k = choose|k: int| 0 <= k < w.len() && #[trigger] w[k]@ == y;
            if k < v.len() {
                assert(v[k]@ == y);
            }
        }
        if name_set(v).contains(y) {
            let k = choose|k: int| 0 <= k < v.len() && #[trigger] v[k]@ == y;
            assert(w[k]@ == y);
        }
        if y == x@ {
            assert(w[v.len() as int]@ == y);
        }
    }
    assert(name_set(w) =~= name_set(v).insert(x@));
}

/// Inserts every name of `names` into the sorted list `into`.
fn insert_all(into: &mut Vec<String>, names: &Vec<String>)
    requires
        sorted_names(old(into)@),
    ensures
        sorted_names(final(into)@),
        name_set(final(into)@) == name_set(old(into)@) + name_set(names@),
{
    let ghost start = into@;
    let mut i: usize = 0;
    while i < names.len()
        invariant
            i <= names@.len(),
            sorted_names(into@),
            name_set(into@) == name_set(start) + name_set(names@.subrange(0, i as int)),
        decreases names@.len() - i,
    {
        insert_sorted_register(into, names[i].as_str());
        proof {
            let pre = names@.subrange(0, i as int);
            assert(names@.subrange(0, i + 1) =~= pre.push(names@[i as int]));
            lemma_name_set_push(pre, names@[i as int]);
            assert(name_set(into@) =~= name_set(start) + name_set(names@.subrange(0, i + 1)));
        }
        i += 1;
    }
    assert(names@.subrange(0, names@.len() as int) =~= names@);
}

/// Registers the operands read and write, each list sorted and without repeats.
/// Memory destinations count as reads of their address registers.
pub fn register_accesses_for_operands(operands: &[DecodedOperand]) -> (r: (Vec<String>, Vec<String>))
    ensures
        lists_exactly(r.0@, reads_of(operands@)),
        lists_exactly(r.1@, writes_of(operands@)),
{
    let mut reads: Vec<String> = Vec::new();
    let mut writes: Vec<String> = Vec::new();
    assert(name_set(reads@) =~= Set::empty());
    assert(name_set(writes@) =~= Set::empty());
    let mut i: usize = 0;
    while i < operands.len()
        invariant
            i <= operands@.len(),
            sorted_names(reads@),
            sorted_names(writes@),
            name_set(reads@) == reads_of(operands@.subrange(0, i as int)),
            name_set(writes@) == writes_of(operands@.subrange(0, i as int)),
        decreases operands@.len() - i,
    {
        let operand = &operands[i];
        let registers = operand_registers(operand);
        let ghost pre = operands@.subrange(0, i as int);
        let ghost post = operands@.subrange(0, i + 1);
        assert(post.drop_last() =~= pre);
        match operand.role {
            OperandRole::Destination => {
                if operand.kind == OperandKind::Memory {
                    insert_all(&mut reads, &registers);
                } else {
                    insert_all(&mut writes, &registers);
                }
            },
            OperandRole::Unknown => {},
            _ => {
                insert_all(&mut reads, &registers);
            },
        }
        assert(name_set(reads@) =~= reads_of(post));
        assert(name_set(writes@) =~= writes_of(post));
        i += 1;
    }
    assert(operands@.subrange(0, operands@.len() as int) =~= operands@);
    (reads, writes)
}

/// Position of the first operand with the given role and kind.
#[verifier::opaque]
pub open spec fn first_with(ops: Seq<DecodedOperand>, role: OperandRole, kind: OperandKind) -> Option<
    int,
> {
    if exists|k: int| 0 <= k < ops.len() && ops[k].role == role && ops[k].kind == kind {
        Some(
            choose|k: int|
                0 <= k < ops.len() && ops[k].role == role && ops[k].kind == kind && forall|j: int|
                    0 <= j < k ==> !(ops[j].role == role && ops[j].kind == kind),
        )
    } else {
        None
    }
}

/// Finds the first operand with the given role and kind.
pub fn find_operand(operands: &[DecodedOperand], role: OperandRole, kind: OperandKind) -> (r:
    Option<usize>)
    ensures
        match r {
            Some(k) => {
                &&& first_with(operands@, role, kind) == Some(k as int)
                &&& k < operands@.len()
                &&& operands@[k as int].role == role
                &&& operands@[k as int].kind == kind
            },
            None => first_with(operands@, role, kind) is None,
        },
{
    let mut i: usize = 0;
    while i < operands.len()
        invariant
            i <= operands@.len(),
            forall|j: int| 0 <= j < i ==> !(operands@[j].role == role && operands@[j].kind == kind),
        decreases operands@.len() - i,
    {
        if operands[i].role == role && operands[i].kind == kind {
            proof {
                reveal(first_with);
                let ops = operands@;
                assert(exists|k: int| 0 <= k < ops.len() && ops[k].role == role && ops[k].kind == kind);
                let c = choose|k: int|
                    0 <= k < ops.len() && ops[k].role == role && ops[k].kind == kind && forall|j: int|
                        0 <= j < k ==> !(ops[j].role == role && ops[j].kind == kind);
                assert(0 <= i < ops.len() && ops[i as int].role == role && ops[i as int].kind == kind
                    && forall|j: int| 0 <= j < i ==> !(ops[j].role == role && ops[j].kind == kind));
                assert(c == i);
            }
            return Some(i);
        }
        i += 1;
    }
    proof {
        reveal(first_with);
    }
    None
}

/// The first register destination among the operands.
pub fn destination_register_operand(operands: &[DecodedOperand]) -> (r: Option<usize>)
    ensures
        match r {
            Some(k) => {
                &&& first_with(operands@, OperandRole::Destination, OperandKind::Register) == Some(
                    k as int,
                )
                &&& k < operands@.len()
                &&& operands@[k as int].role == OperandRole::Destination
                &&& operands@[k as int].kind == OperandKind::Register
            },
            None => first_with(operands@, OperandRole::Destination, OperandKind::Register) is None,
        },
{
    find_operand(operands, OperandRole::Destination, OperandKind::Register)
}

/// `xor r, r` with the same register on both sides (the zeroing idiom) names that register.
pub open spec fn spec_self_xor_register(mnemonic: Seq<char>, ops: Seq<DecodedOperand>) -> Option<
    Seq<char>,
> {
    if mnemonic != "xor"@ || ops.len() != 2 {
        None
    } else {
        match (
            first_with(ops, OperandRole::Destination, OperandKind::Register),
            first_with(ops, OperandRole::Source, OperandKind::Register),
        ) {
            (Some(d), Some(s)) => match (ops[d].register, ops[s].register) {
                (Some(a), Some(b)) => if a@ == b@ {
                    Some(a@)
                } else {
                    None
                },
                _ => None,
            },
            _ => None,
        }
    }
}

/// The register an `xor r, r` zeroing idiom clears.
pub fn self_xor_register(mnemonic: &str, operands: &[DecodedOperand]) -> (r: Option<String>)
    ensures
        match r {
            Some(x) => spec_self_xor_register(mnemonic@, operands@) == Some(x@),
            None => spec_self_xor_register(mnemonic@, operands@) is None,
        },
{
    if !str_eq(mnemonic, "xor") || operands.len() != 2 {
        return None;
    }
    let d = match find_operand(operands, OperandRole::Destination, OperandKind::Register) {
        Some(d) => d,
        None => return None,
    };
    let s = match find_operand(operands, OperandRole::Source, OperandKind::Register) {
        Some(s) => s,
        None => return None,
    };
    match (&operands[d].register, &operands[s].register) {
        (Some(a), Some(b)) => {
            if str_eq(a.as_str(), b.as_str()) {
                Some(a.clone())
            } else {
                None
            }
        },
        _ => None,
    }
}

/// Mnemonics that read and write their destination in place.
pub open spec fn is_in_place_arithmetic(m: Seq<char>) -> bool {
    m == "add"@ || m == "sub"@ || m == "adc"@ || m == "sbb"@ || m == "and"@ || m == "or"@ || m
        == "xor"@ || m == "inc"@ || m == "dec"@ || m == "shl"@ || m == "shr"@ || m == "sar"@ || m
        == "not"@ || m == "neg"@
}

/// The single-operand forms among them.
pub open spec fn is_unary_arithmetic(m: Seq<char>) -> bool {
    m == "inc"@ || m == "dec"@ || m == "not"@ || m == "neg"@
}

fn is_in_place_arithmetic_exec(m: &str) -> (r: bool)
    ensures
        r == is_in_place_arithmetic(m@),
{
    str_eq(m, "add") || str_eq(m, "sub") || str_eq(m, "adc") || str_eq(m, "sbb") || str_eq(m, "and")
        || str_eq(m, "or") || str_eq(m, "xor") || str_eq(m, "inc") || str_eq(m, "dec") || str_eq(
        m,
        "shl",
    ) || str_eq(m, "shr") || str_eq(m, "sar") || str_eq(m, "not") || str_eq(m, "neg")
}

pub fn is_unary_arithmetic_exec(m: &str) -> (r: bool)
    ensures
        r == is_unary_arithmetic(m@),
{
    str_eq(m, "inc") || str_eq(m, "dec") || str_eq(m, "not") || str_eq(m, "neg")
}

/// Whether some source operand is an immediate, a register or memory.
pub open spec fn has_value_source(ops: Seq<DecodedOperand>) -> bool {
    exists|k: int|
        0 <= k < ops.len() && ops[k].role == OperandRole::Source && (ops[k].kind
            == OperandKind::Immediate || ops[k].kind == OperandKind::Register || ops[k].kind
            == OperandKind::Memory)
}

/// The destination register an in-place arithmetic instruction also reads.
pub open spec fn spec_in_place_arithmetic_register(m: Seq<char>, ops: Seq<DecodedOperand>) -> Option<
    Seq<char>,
> {
    if !is_in_place_arithmetic(m) {
        None
    } else if !is_unary_arithmetic(m) && !has_value_source(ops) {
        None
    } else {
        match first_with(ops, OperandRole::Destination, OperandKind::Register) {
            Some(d) => match ops[d].register {
                Some(x) => Some(x@),
                None => None,
            },
            None => None,
        }
    }
}

/// The register an in-place arithmetic instruction (`add`, `xor`, `inc`, …) reads as well as
/// writes.
pub fn in_place_arithmetic_register(mnemonic: &str, operands: &[DecodedOperand]) -> (r: Option<
    String,
>)
    ensures
        match r {
            Some(x) => spec_in_place_arithmetic_register(mnemonic@, operands@) == Some(x@),
            None => spec_in_place_arithmetic_register(mnemonic@, operands@) is None,
        },
{
    if !is_in_place_arithmetic_exec(mnemonic) {
        return None;
    }
    if !is_unary_arithmetic_exec(mnemonic) {
        let mut found = false;
        let mut i: usize = 0;
        while i < operands.len()
            invariant
                i <= operands@.len(),
                found ==> has_value_source(operands@),
                !found ==> forall|j: int|
                    0 <= j < i ==> !(operands@[j].role == OperandRole::Source && (
                    operands@[j].kind == OperandKind::Immediate || operands@[j].kind
                        == OperandKind::Register || operands@[j].kind == OperandKind::Memory)),
            decreases operands@.len() - i,
        {
            let k = operands[i].kind;
            if operands[i].role == OperandRole::Source && (k == OperandKind::Immediate || k
                == OperandKind::Register || k == OperandKind::Memory) {
                found = true;
            }
            i += 1;
        }
        if !found {
            return None;
        }
    }
    match destination_register_operand(operands) {
        Some(d) => match &operands[d].register {
            Some(x) => Some(x.clone()),
            None => None,
        },
        None => None,
    }
}

/// Instructions that move the stack pointer implicitly.
pub open spec fn spec_call_stack_pointer_effect(m: Seq<char>) -> bool {
    m == "call"@ || m == "push"@ || m == "pop"@ || m == "ret"@
}

/// Whether the instruction implicitly reads and writes `rsp` (`call`, `push`, `pop`, `ret`).
pub fn call_stack_pointer_effect_instruction(mnemonic: &str) -> (r: bool)
    ensures
        r == spec_call_stack_pointer_effect(mnemonic@),
{
    str_eq(mnemonic, "call") || str_eq(mnemonic, "push") || str_eq(mnemonic, "pop") || str_eq(
        mnemonic,
        "ret",
    )
}

/// Registers an instruction reads, as the register-access summary states them.
pub open spec fn instruction_reads(m: Seq<char>, ops: Seq<DecodedOperand>) -> Set<Seq<char>> {
    let base = reads_of(ops);
    let xor = spec_self_xor_register(m, ops);
    let after_xor = match xor {
        Some(x) => base.remove(x),
        None => base,
    };
    let with_dest = match xor {
        Some(_) => after_xor,
        None => match spec_in_place_arithmetic_register(m, ops) {
            Some(x) => after_xor.insert(x),
            None => after_xor,
        },
    };
    let with_stack = if spec_call_stack_pointer_effect(m) {
        with_dest.insert("rsp"@)
    } else {
        with_dest
    };
    if m == "leave"@ {
        with_stack.insert("rbp"@)
    } else {
        with_stack
    }
}

/// Registers an instruction writes, as the register-access summary states them.
pub open spec fn instruction_writes(m: Seq<char>, ops: Seq<DecodedOperand>) -> Set<Seq<char>> {
    let base = writes_of(ops);
    let with_stack = if spec_call_stack_pointer_effect(m) {
        base.insert("rsp"@)
    } else {
        base
    };
    if m == "leave"@ {
        with_stack.insert("rbp"@).insert("rsp"@)
    } else {
        with_stack
    }
}

/// The first operand of a role and kind is found where it is.
pub(crate) proof fn lemma_first_with_at(ops: Seq<DecodedOperand>, role: OperandRole, kind: OperandKind, d: int)
    requires
        0 <= d < ops.len(),
        ops[d].role == role && ops[d].kind == kind,
        forall|j: int| 0 <= j < d ==> !((#[trigger] ops[j]).role == role && ops[j].kind == kind),
    ensures
        first_with(ops, role, kind) == Some(d),
{
    reveal(first_with);
    let k = choose|k: int|
        0 <= k < ops.len() && ops[k].role == role && ops[k].kind == kind && forall|j: int|
            0 <= j < k ==> !(ops[j].role == role && ops[j].kind == kind);
    assert(ops[d].role == role && ops[d].kind == kind);
    if k < d {
        assert(!(ops[k].role == role && ops[k].kind == kind));
    }
    if d < k {
        assert(!(ops[d].role == role && ops[d].kind == kind));
    }
}

/// Law of in-place arithmetic reads: an arithmetic instruction that combines its register
/// destination with a value (`add`, `sub`, `adc`, `sbb`, `and`, `or`, `xor`, `shl`, `shr`,
/// `sar` with an immediate, register or memory source) or changes it alone (`inc`, `dec`,
/// `not`, `neg`) reads that destination register, but for the zeroing idiom `xor r, r` (which
/// reads nothing of `r`, as `law_register_access_effects` states).
pub proof fn law_in_place_arithmetic_reads_destination(m: Seq<char>, ops: Seq<DecodedOperand>, d: int, x: Seq<char>)
    requires
        0 <= d < ops.len(),
        ops[d].role == OperandRole::Destination,
        ops[d].kind == OperandKind::Register,
        ops[d].register matches Some(r) && r@ == x,
        forall|j: int| 0 <= j < d ==> !((#[trigger] ops[j]).role == OperandRole::Destination && ops[j].kind == OperandKind::Register),
        ((m == "add"@ || m == "sub"@ || m == "adc"@ || m == "sbb"@ || m == "and"@ || m == "or"@ || m == "xor"@
            || m == "shl"@ || m == "shr"@ || m == "sar"@) && exists|k: int|
            0 <= k < ops.len() && (#[trigger] ops[k]).role == OperandRole::Source && (ops[k].kind == OperandKind::Immediate
                || ops[k].kind == OperandKind::Register || ops[k].kind == OperandKind::Memory)) || m == "inc"@ || m == "dec"@
            || m == "not"@ || m == "neg"@,
    ensures
        spec_self_xor_register(m, ops) is None ==> instruction_reads(m, ops).contains(x),
{
    lemma_first_with_at(ops, OperandRole::Destination, OperandKind::Register, d);
    assert(is_in_place_arithmetic(m));
    if !is_unary_arithmetic(m) {
        assert(has_value_source(ops));
    }
    assert(spec_in_place_arithmetic_register(m, ops) == Some(x));
}

/// Whether operand `op` names register `x`: as its register, the base or the index of its
/// address.
pub open spec fn names_register(op: DecodedOperand, x: Seq<char>) -> bool {
    ||| (op.register matches Some(r) && r@ == x)
    ||| (op.base matches Some(b) && b@ == x)
    ||| (op.index matches Some(i) && i@ == x)
}

/// The registers read and written by operands `ops` include those of each operand.
proof fn lemma_operand_sets(ops: Seq<DecodedOperand>, k: int)
    requires
        0 <= k < ops.len(),
    ensures
        operand_reads(ops[k]).subset_of(reads_of(ops)),
        operand_writes(ops[k]).subset_of(writes_of(ops)),
    decreases ops.len(),
{
    if k < ops.len() - 1 {
        lemma_operand_sets(ops.drop_last(), k);
        assert(ops.drop_last()[k] == ops[k]);
    }
}

/// Law of operand accesses: an instruction writes every register named by a register
/// destination, and reads every register named by a source, a call or branch target, a data
/// reference, or a memory destination (whose base and index it reads to form the address),
/// but for the register that the zeroing idiom `xor r, r` clears.
pub proof fn law_operand_register_accesses(m: Seq<char>, ops: Seq<DecodedOperand>, k: int, x: Seq<char>)
    requires
        0 <= k < ops.len(),
        names_register(ops[k], x),
    ensures
        ops[k].role == OperandRole::Destination && ops[k].kind != OperandKind::Memory ==> instruction_writes(m, ops).contains(x),
        (ops[k].role == OperandRole::Source || ops[k].role == OperandRole::CallTarget || ops[k].role
            == OperandRole::BranchTarget || ops[k].role == OperandRole::DataReference || ops[k].role
            == OperandRole::Destination && ops[k].kind == OperandKind::Memory) && spec_self_xor_register(m, ops)
            != Some(x) ==> instruction_reads(m, ops).contains(x),
{
    lemma_operand_sets(ops, k);
    assert(operand_register_set(ops[k]).contains(x));
}

/// Law of register accesses: both lists are sorted without repeats; every register an operand
/// writes is written; `call`, `push`, `pop` and `ret` read and write `rsp`; `leave` reads `rbp`
/// and writes `rbp` and `rsp`; and the zeroing idiom `xor r, r` does not read `r`.
pub proof fn law_register_access_effects(m: Seq<char>, ops: Seq<DecodedOperand>, reads: Seq<String>, writes: Seq<String>)
    requires
        lists_exactly(reads, instruction_reads(m, ops)),
        lists_exactly(writes, instruction_writes(m, ops)),
    ensures
        sorted_names(reads),
        sorted_names(writes),
        writes_of(ops).subset_of(name_set(writes)),
        spec_call_stack_pointer_effect(m) ==> name_set(reads).contains("rsp"@) && name_set(writes).contains("rsp"@),
        m == "leave"@ ==> name_set(reads).contains("rbp"@) && name_set(writes).contains("rbp"@) && name_set(
            writes,
        ).contains("rsp"@),
        forall|x: Seq<char>| spec_self_xor_register(m, ops) == Some(x) ==> !name_set(reads).contains(x),
{
    reveal_strlit("xor");
    reveal_strlit("call");
    reveal_strlit("push");
    reveal_strlit("pop");
    reveal_strlit("ret");
    reveal_strlit("leave");
    assert forall|x: Seq<char>| spec_self_xor_register(m, ops) == Some(x) implies !name_set(reads).contains(x) by {
        assert(m == "xor"@);
        assert(m.len() == 3 && m[0] == 'x');
        assert("call"@.len() == 4 && "push"@.len() == 4 && "pop"@[0] == 'p' && "ret"@[0] == 'r');
        assert(!spec_call_stack_pointer_effect(m));
        assert(m != "leave"@);
    }
}

/// Registers an instruction reads and writes, sorted, including implicit effects: the
/// zeroing idiom reads nothing, in-place arithmetic reads its destination, `call`/`push`/
/// `pop`/`ret` read and write `rsp`, and `leave` reads `rbp` and writes `rbp` and `rsp`.
pub fn register_accesses_for_instruction(mnemonic: &str, operands: &[DecodedOperand]) -> (r: (
    Vec<String>,
    Vec<String>,
))
    ensures
        lists_exactly(r.0@, instruction_reads(mnemonic@, operands@)),
        lists_exactly(r.1@, instruction_writes(mnemonic@, operands@)),
{
    let (mut reads, mut writes) = register_accesses_for_operands(operands);
    let self_xor = self_xor_register(mnemonic, operands);
    match &self_xor {
        Some(register) => remove_register(&mut reads, register.as_str()),
        None => {},
    }
    if self_xor.is_none() {
        match in_place_arithmetic_register(mnemonic, operands) {
            Some(register) => insert_sorted_register(&mut reads, register.as_str()),
            None => {},
        }
    }
    if call_stack_pointer_effect_instruction(mnemonic) {
        insert_sorted_register(&mut reads, "rsp");
        insert_sorted_register(&mut writes, "rsp");
    }
    if str_eq(mnemonic, "leave") {
        insert_sorted_register(&mut reads, "rbp");
        insert_sorted_register(&mut writes, "rbp");
        insert_sorted_register(&mut writes, "rsp");
    }
    (reads, writes)
}

/// The 64-bit register that a write to the 32-bit register `r` zero-extends into.
pub open spec fn spec_zero_extended_alias(r: Seq<char>) -> Option<Seq<char>> {
    if r == "eax"@ {
        Some("rax"@)
    } else if r == "ecx"@ {
        Some("rcx"@)
    } else if r == "edx"@ {
        Some("rdx"@)
    } else if r == "ebx"@ {
        Some("rbx"@)
    } else if r == "esp"@ {
        Some("rsp"@)
    } else if r == "ebp"@ {
        Some("rbp"@)
    } else if r == "esi"@ {
        Some("rsi"@)
    } else if r == "edi"@ {
        Some("rdi"@)
    } else if r == "r8d"@ {
        Some("r8"@)
    } else if r == "r9d"@ {
        Some("r9"@)
    } else if r == "r10d"@ {
        Some("r10"@)
    } else if r == "r11d"@ {
        Some("r11"@)
    } else if r == "r12d"@ {
        Some("r12"@)
    } else if r == "r13d"@ {
        Some("r13"@)
    } else if r == "r14d"@ {
        Some("r14"@)
    } else if r == "r15d"@ {
        Some("r15"@)
    } else {
        None
    }
}

/// The low-byte register of the 32- or 64-bit general register `r`.
pub open spec fn spec_low_byte_alias(r: Seq<char>) -> Option<Seq<char>> {
    if r == "eax"@ || r == "rax"@ {
        Some("al"@)
    } else if r == "ecx"@ || r == "rcx"@ {
        Some("cl"@)
    } else if r == "edx"@ || r == "rdx"@ {
        Some("dl"@)
    } else if r == "ebx"@ || r == "rbx"@ {
        Some("bl"@)
    } else if r == "esp"@ || r == "rsp"@ {
        Some("spl"@)
    } else if r == "ebp"@ || r == "rbp"@ {
        Some("bpl"@)
    } else if r == "esi"@ || r == "rsi"@ {
        Some("sil"@)
    } else if r == "edi"@ || r == "rdi"@ {
        Some("dil"@)
    } else if r == "r8d"@ || r == "r8"@ {
        Some("r8b"@)
    } else if r == "r9d"@ || r == "r9"@ {
        Some("r9b"@)
    } else if r == "r10d"@ || r == "r10"@ {
        Some("r10b"@)
    } else if r == "r11d"@ || r == "r11"@ {
        Some("r11b"@)
    } else if r == "r12d"@ || r == "r12"@ {
        Some("r12b"@)
    } else if r == "r13d"@ || r == "r13"@ {
        Some("r13b"@)
    } else if r == "r14d"@ || r == "r14"@ {
        Some("r14b"@)
    } else if r == "r15d"@ || r == "r15"@ {
        Some("r15b"@)
    } else {
        None
    }
}

/// The 64-bit register a 32-bit register write zero-extends into.
pub fn zero_extended_alias_register(register: &str) -> (r: Option<&'static str>)
    ensures
        match r {
            Some(x) => spec_zero_extended_alias(register@) == Some(x@),
            None => spec_zero_extended_alias(register@) is None,
        },
{
    if str_eq(register, "eax") {
        Some("rax")
    } else if str_eq(register, "ecx") {
        Some("rcx")
    } else if str_eq(register, "edx") {
        Some("rdx")
    } else if str_eq(register, "ebx") {
        Some("rbx")
    } else if str_eq(register, "esp") {
        Some("rsp")
    } else if str_eq(register, "ebp") {
        Some("rbp")
    } else if str_eq(register, "esi") {
        Some("rsi")
    } else if str_eq(register, "edi") {
        Some("rdi")
    } else if str_eq(register, "r8d") {
        Some("r8")
    } else if str_eq(register, "r9d") {
        Some("r9")
    } else if str_eq(register, "r10d") {
        Some("r10")
    } else if str_eq(register, "r11d") {
        Some("r11")
    } else if str_eq(register, "r12d") {
        Some("r12")
    } else if str_eq(register, "r13d") {
        Some("r13")
    } else if str_eq(register, "r14d") {
        Some("r14")
    } else if str_eq(register, "r15d") {
        Some("r15")
    } else {
        None
    }
}

/// The low-byte register of a 32- or 64-bit general register.
pub fn low_byte_alias_register(register: &str) -> (r: Option<&'static str>)
    ensures
        match r {
            Some(x) => spec_low_byte_alias(register@) == Some(x@),
            None => spec_low_byte_alias(register@) is None,
        },
{
    if str_eq(register, "eax") || str_eq(register, "rax") {
        Some("al")
    } else if str_eq(register, "ecx") || str_eq(register, "rcx") {
        Some("cl")
    } else if str_eq(register, "edx") || str_eq(register, "rdx") {
        Some("dl")
    } else if str_eq(register, "ebx") || str_eq(register, "rbx") {
        Some("bl")
    } else if str_eq(register, "esp") || str_eq(register, "rsp") {
        Some("spl")
    } else if str_eq(register, "ebp") || str_eq(register, "rbp") {
        Some("bpl")
    } else if str_eq(register, "esi") || str_eq(register, "rsi") {
        Some("sil")
    } else if str_eq(register, "edi") || str_eq(register, "rdi") {
        Some("dil")
    } else if str_eq(register, "r8d") || str_eq(register, "r8") {
        Some("r8b")
    } else if str_eq(register, "r9d") || str_eq(register, "r9") {
        Some("r9b")
    } else if str_eq(register, "r10d") || str_eq(register, "r10") {
        Some("r10b")
    } else if str_eq(register, "r11d") || str_eq(register, "r11") {
        Some("r11b")
    } else if str_eq(register, "r12d") || str_eq(register, "r12") {
        Some("r12b")
    } else if str_eq(register, "r13d") || str_eq(register, "r13") {
        Some("r13b")
    } else if str_eq(register, "r14d") || str_eq(register, "r14") {
        Some("r14b")
    } else if str_eq(register, "r15d") || str_eq(register, "r15") {
        Some("r15b")
    } else {
        None
    }
}

} // verus!
