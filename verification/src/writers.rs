use vstd::prelude::*;

use crate::cfg::{WriterView, writer_index, writers_without, writers_after, writer_sources};
use crate::registers::{spec_zero_extended_alias, spec_low_byte_alias};

verus! {

/// The last writer a table records for `reg`.
pub open spec fn lookup(t: Seq<WriterView>, reg: Seq<char>) -> Option<u64> {
    match writer_index(t, reg) {
        Some(k) => Some(t[k].1),
        None => None,
    }
}

/// Whether writing register `w` writes `reg`: `reg` itself, or its zero-extended or low-byte
/// alias.
pub open spec fn touches(w: Seq<char>, reg: Seq<char>) -> bool {
    w == reg || spec_zero_extended_alias(w) == Some(reg) || spec_low_byte_alias(w) == Some(reg)
}

/// Whether writing the registers `regs` writes `reg`.
pub open spec fn writes_reg(regs: Seq<Seq<char>>, reg: Seq<char>) -> bool {
    exists|i: int| 0 <= i < regs.len() && touches(#[trigger] regs[i], reg)
}

/// A table that records `reg` somewhere records it a first time.
proof fn lemma_first_entry(s: Seq<WriterView>, reg: Seq<char>, k: int)
    requires
        0 <= k < s.len(),
        s[k].0 == reg,
    ensures
        exists|f: int| 0 <= f < s.len() && s[f].0 == reg && forall|j: int| 0 <= j < f ==> s[j].0 != reg,
        writer_index(s, reg) is Some,
        0 <= writer_index(s, reg).unwrap() < s.len(),
        s[writer_index(s, reg).unwrap()].0 == reg,
        forall|j: int| 0 <= j < writer_index(s, reg).unwrap() ==> s[j].0 != reg,
    decreases k,
{
    if exists|j: int| 0 <= j < k && s[j].0 == reg {
        let j = choose|j: int| 0 <= j < k && s[j].0 == reg;
        lemma_first_entry(s, reg, j);
    } else {
        assert(0 <= k < s.len() && s[k].0 == reg && forall|j: int| 0 <= j < k ==> s[j].0 != reg);
    }
    reveal(writer_index);
    assert(exists|k2: int| 0 <= k2 < s.len() && s[k2].0 == reg);
}

/// Looking a register up after one more entry: an earlier entry wins.
proof fn lemma_lookup_push(s: Seq<WriterView>, e: WriterView, reg: Seq<char>)
    ensures
        lookup(s.push(e), reg) == match lookup(s, reg) {
            Some(v) => Some(v),
            None => if e.0 == reg {
                Some(e.1)
            } else {
                None
            },
        },
{
    reveal(writer_index);
    let t = s.push(e);
    if exists|k: int| 0 <= k < s.len() && s[k].0 == reg {
        let k = choose|k: int| 0 <= k < s.len() && s[k].0 == reg;
        lemma_first_entry(s, reg, k);
        let k0 = writer_index(s, reg).unwrap();
        assert(t[k0] == s[k0]);
        lemma_first_entry(t, reg, k0);
        let k1 = writer_index(t, reg).unwrap();
        assert(forall|j: int| 0 <= j < k0 ==> t[j] == s[j]);
        if k1 < k0 {
            assert(t[k1] == s[k1]);
        }
        if k0 < k1 {
            assert(t[k0].0 == reg);
        }
        assert(k0 == k1);
    } else if e.0 == reg {
        assert(t[s.len() as int].0 == reg);
        lemma_first_entry(t, reg, s.len() as int);
        let k1 = writer_index(t, reg).unwrap();
        if k1 < s.len() {
            assert(s[k1].0 == reg);
        }
        assert(k1 == s.len());
    } else {
        assert forall|k: int| 0 <= k < t.len() implies t[k].0 != reg by {
            if k < s.len() {
                assert(t[k] == s[k]);
            }
        }
    }
}

/// Dropping a register's entries leaves it unrecorded and every other lookup as it was.
proof fn lemma_lookup_without(t: Seq<WriterView>, r: Seq<char>, reg: Seq<char>)
    ensures
        lookup(writers_without(t, r), reg) == if reg == r {
            None
        } else {
            lookup(t, reg)
        },
    decreases t.len(),
{
    if t.len() == 0 {
        reveal(writer_index);
    } else {
        let s = t.drop_last();
        lemma_lookup_without(s, r, reg);
        assert(t =~= s.push(t.last()));
        lemma_lookup_push(s, t.last(), reg);
        let rest = writers_without(s, r);
        if t.last().0 != r {
            lemma_lookup_push(rest, t.last(), reg);
        }
    }
}

/// Recording `addr` as the writer of `r`, then of its aliases.
proof fn lemma_lookup_record(t: Seq<WriterView>, r: Seq<char>, addr: u64, reg: Seq<char>)
    ensures
        lookup(writers_without(t, r).push((r, addr)), reg) == if reg == r {
            Some(addr)
        } else {
            lookup(t, reg)
        },
{
    lemma_lookup_without(t, r, reg);
    lemma_lookup_push(writers_without(t, r), (r, addr), reg);
}

/// After the instruction at `addr` writes `regs`, it is the last writer of every register they
/// touch, and the others keep theirs.
pub proof fn lemma_lookup_after(t: Seq<WriterView>, regs: Seq<Seq<char>>, addr: u64, reg: Seq<char>)
    ensures
        lookup(writers_after(t, regs, addr), reg) == if writes_reg(regs, reg) {
            Some(addr)
        } else {
            lookup(t, reg)
        },
    decreases regs.len(),
{
    if regs.len() > 0 {
        let rest = regs.drop_last();
        lemma_lookup_after(t, rest, addr, reg);
        let r = regs.last();
        let t0 = writers_after(t, rest, addr);
        let t1 = writers_without(t0, r).push((r, addr));
        lemma_lookup_record(t0, r, addr, reg);
        let t2 = match spec_zero_extended_alias(r) {
            Some(a) => writers_without(t1, a).push((a, addr)),
            None => t1,
        };
        match spec_zero_extended_alias(r) {
            Some(a) => lemma_lookup_record(t1, a, addr, reg),
            None => {},
        }
        match spec_low_byte_alias(r) {
            Some(a) => lemma_lookup_record(t2, a, addr, reg),
            None => {},
        }
        assert(writes_reg(regs, reg) == (writes_reg(rest, reg) || touches(r, reg))) by {
            if writes_reg(regs, reg) {
                let i = choose|i: int| 0 <= i < regs.len() && touches(#[trigger] regs[i], reg);
                if i < rest.len() {
                    assert(rest[i] == regs[i]);
                }
            }
            if writes_reg(rest, reg) {
                let i = choose|i: int| 0 <= i < rest.len() && touches(#[trigger] rest[i], reg);
                assert(regs[i] == rest[i]);
            }
            if touches(r, reg) {
                assert(regs[regs.len() - 1] == r);
            }
        }
    }
}

/// The sources of registers `reads` are, in order, each read register that has a last writer,
/// with that writer; and every read register with a last writer is among them.
pub proof fn lemma_writer_sources(reads: Seq<Seq<char>>, t: Seq<WriterView>)
    ensures
        forall|i: int|
            0 <= i < writer_sources(reads, t).len() ==> reads.contains((#[trigger] writer_sources(reads, t)[i]).0)
                && lookup(t, writer_sources(reads, t)[i].0) == Some(writer_sources(reads, t)[i].1),
        forall|j: int|
            0 <= j < reads.len() && (#[trigger] lookup(t, reads[j])) is Some ==> writer_sources(reads, t).contains(
                (reads[j], lookup(t, reads[j]).unwrap()),
            ),
    decreases reads.len(),
{
    if reads.len() > 0 {
        let rest = reads.drop_last();
        lemma_writer_sources(rest, t);
        let prev = writer_sources(rest, t);
        let cur = writer_sources(reads, t);
        assert forall|i: int| 0 <= i < cur.len() implies reads.contains((#[trigger] cur[i]).0) && lookup(t, cur[i].0) == Some(cur[i].1) by {
            if i < prev.len() {
                assert(cur[i] == prev[i]);
                let w = choose|w: int| 0 <= w < rest.len() && rest[w] == prev[i].0;
                assert(reads[w] == rest[w]);
            } else {
                assert(reads[reads.len() - 1] == reads.last());
            }
        }
        assert forall|j: int| 0 <= j < reads.len() && (#[trigger] lookup(t, reads[j])) is Some implies cur.contains(
            (reads[j], lookup(t, reads[j]).unwrap()),
        ) by {
            if j < rest.len() {
                assert(rest[j] == reads[j]);
                assert(lookup(t, rest[j]) is Some);
                let w = choose|w: int| 0 <= w < prev.len() && prev[w] == (rest[j], lookup(t, rest[j]).unwrap());
                assert(cur[w] == prev[w]);
            } else {
                assert(cur[cur.len() - 1] == (reads[j], lookup(t, reads[j]).unwrap()));
            }
        }
    }
}

} // verus!
