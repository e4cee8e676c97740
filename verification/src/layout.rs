use vstd::prelude::*;

use crate::cfg::{
    NativeCfgFacts, ParsedBasicBlock, ParsedCfgEdge, EdgeView, cfg_ok, cfg_with_starts, block_end_index,
    block_edges, edges_upto, edges_view, block_starts_at,
};
use crate::cfg::{ParsedInstruction, ScanState, parsed_ok, state_at, next_state};
use crate::cfg::{NativeRef, NativeXref, XrefRelation, instruction_xrefs, source_xrefs, xrefs_upto};
use crate::cfg::{reads_list, writes_list, writers_view, writer_sources};
use crate::decode::{DecodedInstruction, InstructionFlow, decoding_tiles, lemma_tiling_facts};
use crate::registers::names_view;
use crate::writers::{lookup, writes_reg, lemma_lookup_after, lemma_writer_sources};

verus! {

/// Edge `e` leaves a listed block and lands on one; a fallthrough joins a block to the next
/// one; a known outcome is `taken` only on a branch and `not_taken` only on a fallthrough.
pub open spec fn edge_layout_ok(blocks: Seq<ParsedBasicBlock>, e: ParsedCfgEdge) -> bool {
    &&& exists|b: int| 0 <= b < blocks.len() && (#[trigger] blocks[b]).address == e.source
    &&& exists|c: int| 0 <= c < blocks.len() && (#[trigger] blocks[c]).address == e.target
    &&& (e.edge_kind@ == "branch"@ || (e.edge_kind@ == "fallthrough"@ && exists|b: int|
        0 <= b && b + 1 < blocks.len() && (#[trigger] blocks[b]).address == e.source && blocks[b + 1].address
            == e.target))
    &&& match e.known_outcome {
        None => true,
        Some(o) => (e.edge_kind@ == "branch"@ && o@ == "taken"@) || (e.edge_kind@ == "fallthrough"@ && o@
            == "not_taken"@),
    }
}

/// The same, of an edge as a value, with blocks given by their start indices `bs` into `ds`.
spec fn edge_view_ok(ds: Seq<DecodedInstruction>, bs: Seq<usize>, e: EdgeView) -> bool {
    &&& block_starts_at(ds, bs, e.0)
    &&& block_starts_at(ds, bs, e.1)
    &&& (e.2 == "branch"@ || (e.2 == "fallthrough"@ && exists|b: int|
        0 <= b && b + 1 < bs.len() && #[trigger] ds[bs[b] as int].address == e.0 && ds[bs[b + 1] as int].address
            == e.1))
    &&& match e.4 {
        None => true,
        Some(o) => (e.2 == "branch"@ && o == "taken"@) || (e.2 == "fallthrough"@ && o == "not_taken"@),
    }
}

/// Every edge out of the first `nb` blocks has the shape of `edge_view_ok`.
proof fn lemma_edges_shape(ds: Seq<DecodedInstruction>, bs: Seq<usize>, ps: Seq<crate::cfg::ParsedInstruction>, nb: int)
    requires
        0 <= nb <= bs.len(),
    ensures
        forall|i: int|
            0 <= i < edges_upto(ds, bs, ps, nb).len() ==> edge_view_ok(ds, bs, #[trigger] edges_upto(ds, bs, ps, nb)[i]),
    decreases nb,
{
    if nb > 0 {
        lemma_edges_shape(ds, bs, ps, nb - 1);
        let b = nb - 1;
        let prev = edges_upto(ds, bs, ps, nb - 1);
        let cur = block_edges(ds, bs, ps, b);
        assert(block_starts_at(ds, bs, ds[bs[b] as int].address));
        assert forall|i: int| 0 <= i < cur.len() implies edge_view_ok(ds, bs, #[trigger] cur[i]) by {
            reveal(block_edges);
            if b + 1 < bs.len() {
                assert(block_starts_at(ds, bs, ds[bs[b + 1] as int].address));
            }
        }
        assert(edges_upto(ds, bs, ps, nb) == prev + cur);
        assert forall|i: int| 0 <= i < (prev + cur).len() implies edge_view_ok(ds, bs, #[trigger] (prev + cur)[i]) by {
            if i < prev.len() {
                assert((prev + cur)[i] == prev[i]);
            } else {
                assert((prev + cur)[i] == cur[i - prev.len()]);
            }
        }
    }
}

/// The block that holds instruction `k`, searching from block `b` on.
proof fn lemma_block_of(bs: Seq<usize>, n: int, k: int, b: int) -> (r: int)
    requires
        0 <= b < bs.len(),
        bs[b] <= k < n,
        forall|i: int, j: int| 0 <= i < j < bs.len() ==> bs[i] < bs[j],
    ensures
        0 <= r < bs.len(),
        bs[r] <= k < block_end_index(bs, r, n),
    decreases bs.len() - b,
{
    if b + 1 < bs.len() && bs[b + 1] <= k {
        lemma_block_of(bs, n, k, b + 1)
    } else {
        b
    }
}


/// What the layout proofs need of block starts `bs` over `n` instructions.
spec fn starts_fit(bs: Seq<usize>, n: int) -> bool {
    &&& forall|i: int, j: int| 0 <= i < j < bs.len() ==> bs[i] < bs[j]
    &&& forall|i: int| 0 <= i < bs.len() ==> bs[i] < n
    &&& n > 0 ==> bs.len() > 0 && bs[0] == 0
}

/// Decoded instructions that tile `[start, start + len)`.
#[verifier::opaque]
spec fn tiles(ds: Seq<DecodedInstruction>, start: int, len: int) -> bool {
    &&& forall|k: int| 0 <= k < ds.len() ==> (#[trigger] ds[k]).size >= 1
    &&& forall|k: int| 0 <= k < ds.len() ==> (#[trigger] ds[k]).address + ds[k].size <= start + len
    &&& forall|k: int| 0 <= k < ds.len() - 1 ==> #[trigger] ds[k + 1].address == ds[k].address + ds[k].size
    &&& ds.len() > 0 ==> ds[0].address == start
}

/// Along a tiling, addresses grow: instruction `i` ends no later than instruction `j > i` starts.
proof fn lemma_tile_chain(ds: Seq<DecodedInstruction>, start: int, len: int, i: int, j: int)
    requires
        tiles(ds, start, len),
        0 <= i <= j < ds.len(),
    ensures
        ds[i].address <= ds[j].address,
        i < j ==> ds[i].address + ds[i].size <= ds[j].address,
    decreases j - i,
{
    if i < j {
        lemma_tile_chain(ds, start, len, i, j - 1);
        reveal(tiles);
        assert(ds[(j - 1) + 1].address == ds[j - 1].address + ds[j - 1].size);
        assert(ds[j - 1].size >= 1);
    }
}

/// In a tiling, instruction `i` ends no later than instruction `j > i` starts, and every
/// instruction lies inside the tiled range.
proof fn lemma_tile_order(ds: Seq<DecodedInstruction>, start: int, len: int, i: int, j: int)
    requires
        tiles(ds, start, len),
        0 <= i <= j < ds.len(),
    ensures
        start <= ds[i].address <= ds[j].address,
        i < j ==> ds[i].address + ds[i].size <= ds[j].address,
        ds[i].size >= 1,
        ds[j].address + ds[j].size <= start + len,
{
    lemma_tile_chain(ds, start, len, 0, i);
    lemma_tile_chain(ds, start, len, i, j);
    reveal(tiles);
}

/// Where an indexed instruction sits: its number, block, address and size.
proof fn lemma_parsed_place(
    p: crate::cfg::ParsedInstruction,
    ds: Seq<DecodedInstruction>,
    idx: int,
    block_start: u64,
    st: crate::cfg::ScanState,
)
    requires
        crate::cfg::parsed_ok(p, ds, idx, block_start, st),
    ensures
        p.ordinal == idx,
        p.block == block_start,
        p.address == ds[idx].address,
        p.size == ds[idx].size,
{
    reveal(crate::cfg::parsed_ok);
}

/// A decoding that tiles some bytes is a tiling of their range.
#[verifier::spinoff_prover]
#[verifier::rlimit(100)]
proof fn lemma_tiles(start: u64, bytes: Seq<u8>, ds: Seq<DecodedInstruction>)
    requires
        decoding_tiles(start, bytes, ds),
    ensures
        tiles(ds, start as int, bytes.len() as int),
{
    assert(forall|k: int| 0 <= k < ds.len() ==> (#[trigger] ds[k]).size >= 1 && ds[k].address + ds[k].size
        <= start + bytes.len()) by {
        lemma_tiling_facts(start, bytes, ds);
    }
    reveal(tiles);
}

/// The blocks of a scan are numbered in order, inside the tiled range, without overlap.
#[verifier::spinoff_prover]
proof fn lemma_blocks_layout(start: u64, len: int, ds: Seq<DecodedInstruction>, bs: Seq<usize>, blocks: Seq<ParsedBasicBlock>)
    requires
        tiles(ds, start as int, len),
        starts_fit(bs, ds.len() as int),
        blocks.len() == bs.len(),
        forall|b: int| 0 <= b < bs.len() ==> crate::cfg::block_ok(#[trigger] blocks[b], ds, bs, b),
    ensures
        forall|b: int|
            0 <= b < blocks.len() ==> {
                &&& (#[trigger] blocks[b]).ordinal == b
                &&& start <= blocks[b].address < blocks[b].end_address
                &&& blocks[b].end_address <= start + len
            },
        forall|b: int, c: int| 0 <= b < c < blocks.len() ==> (#[trigger] blocks[b]).end_address <= (#[trigger] blocks[c]).address,
{
    let n = ds.len() as int;
    assert forall|b: int| 0 <= b < blocks.len() implies {
        &&& (#[trigger] blocks[b]).ordinal == b
        &&& start <= blocks[b].address < blocks[b].end_address
        &&& blocks[b].end_address <= start + len
    } by {
        assert(crate::cfg::block_ok(blocks[b], ds, bs, b));
        let hi = block_end_index(bs, b, n);
        assert(bs[b] < hi <= n);
        lemma_tile_order(ds, start as int, len, bs[b] as int, hi - 1);
    }
    assert forall|b: int, c: int| 0 <= b < c < blocks.len() implies (#[trigger] blocks[b]).end_address
        <= (#[trigger] blocks[c]).address by {
        assert(crate::cfg::block_ok(blocks[b], ds, bs, b));
        assert(crate::cfg::block_ok(blocks[c], ds, bs, c));
        let hi = block_end_index(bs, b, n);
        assert(bs[b] < hi <= bs[c]);
        lemma_tile_order(ds, start as int, len, hi - 1, bs[c] as int);
    }
}

/// The instructions of a scan are numbered by position, each inside its block.
#[verifier::spinoff_prover]
proof fn lemma_instructions_layout(start: u64, end: u64, len: int, ds: Seq<DecodedInstruction>, bs: Seq<usize>, facts: NativeCfgFacts)
    requires
        tiles(ds, start as int, len),
        starts_fit(bs, ds.len() as int),
        cfg_with_starts(start, end, ds, facts, bs),
    ensures
        forall|k: int|
            0 <= k < facts.instructions@.len() ==> {
                &&& (#[trigger] facts.instructions@[k]).ordinal == k
                &&& exists|b: int|
                    0 <= b < facts.basic_blocks@.len() && (#[trigger] facts.basic_blocks@[b]).address
                        == facts.instructions@[k].block && facts.basic_blocks@[b].address
                        <= facts.instructions@[k].address && facts.instructions@[k].address
                        + facts.instructions@[k].size <= facts.basic_blocks@[b].end_address
            },
{
    let n = ds.len() as int;
    let blocks = facts.basic_blocks@;
    assert forall|k: int| 0 <= k < facts.instructions@.len() implies {
        &&& (#[trigger] facts.instructions@[k]).ordinal == k
        &&& exists|b: int|
            0 <= b < blocks.len() && (#[trigger] blocks[b]).address == facts.instructions@[k].block
                && blocks[b].address <= facts.instructions@[k].address && facts.instructions@[k].address
                + facts.instructions@[k].size <= blocks[b].end_address
    } by {
        let b = lemma_block_of(bs, n, k, 0);
        let hi = block_end_index(bs, b, n);
        assert(bs[b] < hi <= n);
        assert(crate::cfg::parsed_ok(
            facts.instructions@[k],
            ds,
            k,
            ds[bs[b] as int].address,
            crate::cfg::state_at(ds, bs[b] as int, k),
        ));
        assert(crate::cfg::block_ok(blocks[b], ds, bs, b));
        lemma_tile_order(ds, start as int, len, bs[b] as int, k);
        lemma_tile_order(ds, start as int, len, k, hi - 1);
        lemma_parsed_place(facts.instructions@[k], ds, k, ds[bs[b] as int].address, crate::cfg::state_at(ds, bs[b] as int, k));
        let p = facts.instructions@[k];
        assert(p.ordinal == k);
        assert(p.block == blocks[b].address);
        assert(blocks[b].address <= p.address);
        assert(p.address + p.size <= blocks[b].end_address);
    }
}

/// The edges of a scan join its blocks as `edge_layout_ok` says.
#[verifier::spinoff_prover]
proof fn lemma_edges_layout(ds: Seq<DecodedInstruction>, bs: Seq<usize>, blocks: Seq<ParsedBasicBlock>, edges: Seq<ParsedCfgEdge>, ps: Seq<crate::cfg::ParsedInstruction>)
    requires
        blocks.len() == bs.len(),
        forall|b: int| 0 <= b < bs.len() ==> crate::cfg::block_ok(#[trigger] blocks[b], ds, bs, b),
        edges_view(edges) == edges_upto(ds, bs, ps, bs.len() as int),
    ensures
        forall|i: int| 0 <= i < edges.len() ==> edge_layout_ok(blocks, #[trigger] edges[i]),
{
    lemma_edges_shape(ds, bs, ps, bs.len() as int);
    let ev = edges_view(edges);
    assert forall|i: int| 0 <= i < edges.len() implies edge_layout_ok(blocks, #[trigger] edges[i]) by {
        let e = edges[i];
        assert(ev[i] == edges_upto(ds, bs, ps, bs.len() as int)[i]);
        assert(edge_view_ok(ds, bs, ev[i]));
        let b0 = choose|b: int| 0 <= b < bs.len() && ds[bs[b] as int].address == e.source;
        assert(crate::cfg::block_ok(blocks[b0], ds, bs, b0));
        let c0 = choose|c: int| 0 <= c < bs.len() && ds[bs[c] as int].address == e.target;
        assert(crate::cfg::block_ok(blocks[c0], ds, bs, c0));
        if e.edge_kind@ != "branch"@ {
            let f = choose|b: int|
                0 <= b && b + 1 < bs.len() && #[trigger] ds[bs[b] as int].address == ev[i].0 && ds[bs[b + 1] as int].address
                    == ev[i].1;
            assert(crate::cfg::block_ok(blocks[f], ds, bs, f));
            assert(crate::cfg::block_ok(blocks[f + 1], ds, bs, f + 1));
        }
    }
}

/// The layout of a scan over a tiling of `[start, start + len)`.
#[verifier::spinoff_prover]
proof fn lemma_layout(start: u64, len: int, ds: Seq<DecodedInstruction>, facts: NativeCfgFacts)
    requires
        start + len <= u64::MAX,
        tiles(ds, start as int, len),
        cfg_ok(start, (start + len) as u64, ds, facts),
    ensures
        forall|b: int|
            0 <= b < facts.basic_blocks@.len() ==> {
                &&& (#[trigger] facts.basic_blocks@[b]).ordinal == b
                &&& start <= facts.basic_blocks@[b].address < facts.basic_blocks@[b].end_address
                &&& facts.basic_blocks@[b].end_address <= start + len
            },
        forall|b: int, c: int|
            0 <= b < c < facts.basic_blocks@.len() ==> (#[trigger] facts.basic_blocks@[b]).end_address
                <= (#[trigger] facts.basic_blocks@[c]).address,
        forall|k: int|
            0 <= k < facts.instructions@.len() ==> {
                &&& (#[trigger] facts.instructions@[k]).ordinal == k
                &&& exists|b: int|
                    0 <= b < facts.basic_blocks@.len() && (#[trigger] facts.basic_blocks@[b]).address
                        == facts.instructions@[k].block && facts.basic_blocks@[b].address
                        <= facts.instructions@[k].address && facts.instructions@[k].address
                        + facts.instructions@[k].size <= facts.basic_blocks@[b].end_address
            },
        forall|i: int| 0 <= i < facts.cfg_edges@.len() ==> edge_layout_ok(facts.basic_blocks@, #[trigger] facts.cfg_edges@[i]),
{
    let end = (start + len) as u64;
    let bs = choose|bs: Seq<usize>| cfg_with_starts(start, end, ds, facts, bs);
    assert(cfg_with_starts(start, end, ds, facts, bs));
    assert(starts_fit(bs, ds.len() as int));
    lemma_blocks_layout(start, len, ds, bs, facts.basic_blocks@);
    lemma_instructions_layout(start, end, len, ds, bs, facts);
    lemma_edges_layout(ds, bs, facts.basic_blocks@, facts.cfg_edges@, facts.instructions@);
}

/// Law of a function scan's layout: its blocks are numbered in order, lie inside the scanned
/// bytes and follow one another without overlap (each ends no later than the next begins); its
/// instructions are numbered by position, each inside the block it names; every edge joins
/// listed blocks, a fallthrough only a block and the next, and a known outcome is `taken` only
/// on a branch and `not_taken` only on a fallthrough.
#[verifier::spinoff_prover]
pub proof fn law_scan_layout(start: u64, bytes: Seq<u8>, ds: Seq<DecodedInstruction>, facts: NativeCfgFacts)
    requires
        start + bytes.len() <= u64::MAX,
        decoding_tiles(start, bytes, ds),
        cfg_ok(start, (start + bytes.len()) as u64, ds, facts),
    ensures
        forall|b: int|
            0 <= b < facts.basic_blocks@.len() ==> {
                &&& (#[trigger] facts.basic_blocks@[b]).ordinal == b
                &&& start <= facts.basic_blocks@[b].address < facts.basic_blocks@[b].end_address
                &&& facts.basic_blocks@[b].end_address <= start + bytes.len()
            },
        forall|b: int, c: int|
            0 <= b < c < facts.basic_blocks@.len() ==> (#[trigger] facts.basic_blocks@[b]).end_address
                <= (#[trigger] facts.basic_blocks@[c]).address,
        forall|k: int|
            0 <= k < facts.instructions@.len() ==> {
                &&& (#[trigger] facts.instructions@[k]).ordinal == k
                &&& exists|b: int|
                    0 <= b < facts.basic_blocks@.len() && (#[trigger] facts.basic_blocks@[b]).address
                        == facts.instructions@[k].block && facts.basic_blocks@[b].address
                        <= facts.instructions@[k].address && facts.instructions@[k].address
                        + facts.instructions@[k].size <= facts.basic_blocks@[b].end_address
            },
        forall|i: int| 0 <= i < facts.cfg_edges@.len() ==> edge_layout_ok(facts.basic_blocks@, #[trigger] facts.cfg_edges@[i]),
{
    lemma_tiles(start, bytes, ds);
    lemma_layout(start, bytes.len() as int, ds, facts);
}


/// Whether an instruction sets the flags that a conditional branch reads: `cmp` or `test`.
pub open spec fn sets_flags(d: DecodedInstruction) -> bool {
    d.mnemonic@ == "cmp"@ || d.mnemonic@ == "test"@
}

/// The flag producer that a block scan from `lo` carries to instruction `idx` is the latest
/// `cmp` or `test` of `[lo, idx)`, if there is one.
proof fn lemma_flag_producer(ds: Seq<DecodedInstruction>, lo: int, idx: int)
    requires
        0 <= lo <= idx <= ds.len(),
    ensures
        match state_at(ds, lo, idx).0 {
            Some(q) => lo <= q < idx && sets_flags(ds[q]) && forall|r: int| q < r < idx ==> !sets_flags(#[trigger] ds[r]),
            None => forall|r: int| lo <= r < idx ==> !sets_flags(#[trigger] ds[r]),
        },
    decreases idx - lo,
{
    if idx > lo {
        lemma_flag_producer(ds, lo, idx - 1);
        reveal(next_state);
    }
}

/// What an indexed instruction's condition fields are, from its block's scan state.
proof fn lemma_parsed_condition(
    p: ParsedInstruction,
    ds: Seq<DecodedInstruction>,
    idx: int,
    block_start: u64,
    st: ScanState,
)
    requires
        parsed_ok(p, ds, idx, block_start, st),
    ensures
        p.condition_source == if ds[idx].flow == InstructionFlow::ConditionalBranch {
            match st.0 {
                Some(q) => Some(ds[q].address),
                None => None,
            }
        } else {
            None
        },
        p.condition_source is None ==> p.condition_summary is None,
{
    reveal(parsed_ok);
}

/// Instructions `q < k` share a block exactly when `q` is at or after the start of `k`'s
/// block.
#[verifier::spinoff_prover]
proof fn lemma_same_block(
    start: u64,
    end: u64,
    len: int,
    ds: Seq<DecodedInstruction>,
    bs: Seq<usize>,
    facts: NativeCfgFacts,
    b: int,
    k: int,
    q: int,
)
    requires
        tiles(ds, start as int, len),
        starts_fit(bs, ds.len() as int),
        cfg_with_starts(start, end, ds, facts, bs),
        0 <= b < bs.len(),
        bs[b] <= k < block_end_index(bs, b, ds.len() as int),
        0 <= q < k,
    ensures
        facts.instructions@[q].block == facts.instructions@[k].block <==> bs[b] <= q,
{
    let n = ds.len() as int;
    lemma_parsed_place(facts.instructions@[k], ds, k, ds[bs[b] as int].address, state_at(ds, bs[b] as int, k));
    let c = lemma_block_of(bs, n, q, 0);
    lemma_parsed_place(facts.instructions@[q], ds, q, ds[bs[c] as int].address, state_at(ds, bs[c] as int, q));
    if q < bs[b] {
        assert(c < b) by {
            if c >= b {
                if c > b {
                    assert(bs[b] < bs[c]);
                }
            }
        }
        assert(bs[c] < bs[b]);
        lemma_tile_order(ds, start as int, len, bs[c] as int, bs[b] as int);
    } else {
        assert(c == b) by {
            if c < b {
                assert(block_end_index(bs, c, n) <= bs[b]);
            } else if c > b {
                assert(bs[c] >= block_end_index(bs, b, n));
            }
        }
    }
}

/// The condition fields of instruction `k` of a scan.
#[verifier::spinoff_prover]
proof fn lemma_condition_at(start: u64, end: u64, len: int, ds: Seq<DecodedInstruction>, bs: Seq<usize>, facts: NativeCfgFacts, k: int)
    requires
        tiles(ds, start as int, len),
        starts_fit(bs, ds.len() as int),
        cfg_with_starts(start, end, ds, facts, bs),
        0 <= k < ds.len(),
    ensures
        condition_law_at(ds, facts.instructions@, k),
{
    let n = ds.len() as int;
    let b = lemma_block_of(bs, n, k, 0);
    let lo = bs[b] as int;
    let st = state_at(ds, lo, k);
    let ps = facts.instructions@;
    let p = ps[k];
    lemma_parsed_condition(p, ds, k, ds[lo].address, st);
    lemma_flag_producer(ds, lo, k);
    assert forall|q: int| 0 <= q < k implies (ps[q].block == p.block <==> lo <= q) by {
        lemma_same_block(start, end, len, ds, bs, facts, b, k, q);
    }
    match st.0 {
        Some(q) => {
            assert(ps[q].block == p.block);
        },
        None => {},
    }
}

/// The condition law at instruction `k`: it names a condition source only when it is a
/// conditional branch, and then that source is the latest `cmp` or `test` before it in its
/// block; a conditional branch with such an instruction before it in its block names one; and
/// an instruction with no condition source has no condition summary.
pub open spec fn condition_law_at(ds: Seq<DecodedInstruction>, ps: Seq<ParsedInstruction>, k: int) -> bool {
    let p = ps[k];
    &&& (p.condition_source is Some <==> (ds[k].flow == InstructionFlow::ConditionalBranch && exists|q: int|
        0 <= q < k && sets_flags(#[trigger] ds[q]) && ps[q].block == p.block))
    &&& forall|a: u64|
        p.condition_source == Some(a) ==> exists|q: int|
            0 <= q < k && sets_flags(#[trigger] ds[q]) && ps[q].block == p.block && a == ds[q].address && forall|r: int|
                q < r < k ==> !sets_flags(#[trigger] ds[r])
    &&& p.condition_source is None ==> p.condition_summary is None
}

/// Law of condition sources: in a function scan, an instruction names a condition source only
/// when it is a conditional branch, and then the source is the latest `cmp` or `test` before
/// it in its own block; a conditional branch that has such an instruction before it in its
/// block always names one; an instruction without a condition source has no condition summary.
#[verifier::spinoff_prover]
pub proof fn law_condition_source(start: u64, bytes: Seq<u8>, ds: Seq<DecodedInstruction>, facts: NativeCfgFacts)
    requires
        start + bytes.len() <= u64::MAX,
        decoding_tiles(start, bytes, ds),
        cfg_ok(start, (start + bytes.len()) as u64, ds, facts),
    ensures
        facts.instructions@.len() == ds.len(),
        forall|k: int| 0 <= k < ds.len() ==> #[trigger] condition_law_at(ds, facts.instructions@, k),
{
    lemma_tiles(start, bytes, ds);
    let end = (start + bytes.len()) as u64;
    let bs = choose|bs: Seq<usize>| cfg_with_starts(start, end, ds, facts, bs);
    assert(cfg_with_starts(start, end, ds, facts, bs));
    assert(starts_fit(bs, ds.len() as int));
    assert forall|k: int| 0 <= k < ds.len() implies #[trigger] condition_law_at(ds, facts.instructions@, k) by {
        lemma_condition_at(start, end, bytes.len() as int, ds, bs, facts, k);
    }
}


/// The xref from instruction `p` to the instruction at `src` that it reads from.
pub open spec fn read_xref(p: ParsedInstruction, src: u64) -> NativeXref {
    NativeXref {
        source: NativeRef::Instruction(p.address),
        target: NativeRef::Instruction(src),
        relation: XrefRelation::References,
        address: Some(p.address),
    }
}

/// Law of register sources: among the xrefs of the first `n` indexed instructions, each of them
/// references, at its own address, every instruction it names as the last writer of a register
/// it reads, and every instruction it names as the source of a constant it reads.
pub proof fn law_register_sources_referenced(
    fa: NativeRef,
    fs: Seq<(u64, NativeRef)>,
    ss: Seq<u64>,
    is: Seq<u64>,
    bs: Seq<u64>,
    ps: Seq<ParsedInstruction>,
    n: int,
)
    requires
        0 <= n <= ps.len(),
    ensures
        forall|k: int, i: int|
            0 <= k < n && 0 <= i < ps[k].register_sources@.len() ==> xrefs_upto(fa, fs, ss, is, bs, ps, n).contains(
                read_xref(ps[k], (#[trigger] ps[k].register_sources@[i]).source),
            ),
        forall|k: int, i: int|
            0 <= k < n && 0 <= i < ps[k].constant_sources@.len() ==> xrefs_upto(fa, fs, ss, is, bs, ps, n).contains(
                read_xref(ps[k], (#[trigger] ps[k].constant_sources@[i]).source),
            ),
    decreases n,
{
    if n > 0 {
        law_register_sources_referenced(fa, fs, ss, is, bs, ps, n - 1);
        let prev = xrefs_upto(fa, fs, ss, is, bs, ps, n - 1);
        let p = ps[n - 1];
        let cur = instruction_xrefs(fa, fs, ss, is, bs, p);
        let all = xrefs_upto(fa, fs, ss, is, bs, ps, n);
        assert(all == prev + cur);
        let a = p.address;
        let r1 = source_xrefs(a, Seq::new(p.register_sources@.len(), |i: int| p.register_sources@[i].source));
        let r2 = source_xrefs(a, Seq::new(p.constant_sources@.len(), |i: int| p.constant_sources@[i].source));
        assert forall|k: int, i: int|
            0 <= k < n && 0 <= i < ps[k].register_sources@.len() implies all.contains(
            read_xref(ps[k], (#[trigger] ps[k].register_sources@[i]).source),
        ) by {
            let x = read_xref(ps[k], ps[k].register_sources@[i].source);
            if k < n - 1 {
                let w = choose|w: int| 0 <= w < prev.len() && prev[w] == x;
                assert(all[w] == x);
            } else {
                assert(r1[i] == x);
                assert(cur[i] == x);
                assert(all[prev.len() + i] == x);
            }
        }
        assert forall|k: int, i: int|
            0 <= k < n && 0 <= i < ps[k].constant_sources@.len() implies all.contains(
            read_xref(ps[k], (#[trigger] ps[k].constant_sources@[i]).source),
        ) by {
            let x = read_xref(ps[k], ps[k].constant_sources@[i].source);
            if k < n - 1 {
                let w = choose|w: int| 0 <= w < prev.len() && prev[w] == x;
                assert(all[w] == x);
            } else {
                assert(r2[i] == x);
                assert(cur[r1.len() + i] == x);
                assert(all[prev.len() + r1.len() + i] == x);
            }
        }
    }
}


/// The last writer of `reg` that a block scan from `lo` carries to instruction `idx` is the
/// latest instruction of `[lo, idx)` that writes it (or an alias).
proof fn lemma_last_writer(ds: Seq<DecodedInstruction>, lo: int, idx: int, reg: Seq<char>)
    requires
        0 <= lo <= idx <= ds.len(),
    ensures
        match lookup(state_at(ds, lo, idx).1, reg) {
            Some(a) => exists|q: int|
                lo <= q < idx && writes_reg(writes_list(ds[q]), reg) && a == ds[q].address && forall|m: int|
                    q < m < idx ==> !writes_reg(writes_list(#[trigger] ds[m]), reg),
            None => forall|q: int| lo <= q < idx ==> !writes_reg(writes_list(#[trigger] ds[q]), reg),
        },
    decreases idx - lo,
{
    if idx > lo {
        lemma_last_writer(ds, lo, idx - 1, reg);
        reveal(next_state);
        lemma_lookup_after(state_at(ds, lo, idx - 1).1, writes_list(ds[idx - 1]), ds[idx - 1].address, reg);
    } else {
        reveal(crate::cfg::writer_index);
    }
}

/// An indexed instruction's reads, writes and register sources, from its block's scan state.
proof fn lemma_parsed_sources(p: ParsedInstruction, ds: Seq<DecodedInstruction>, idx: int, block_start: u64, st: ScanState)
    requires
        parsed_ok(p, ds, idx, block_start, st),
    ensures
        names_view(p.register_reads@) == reads_list(ds[idx]),
        names_view(p.register_writes@) == writes_list(ds[idx]),
        writers_view(p.register_sources@) == writer_sources(reads_list(ds[idx]), st.1),
        p.address == ds[idx].address,
        p.block == block_start,
{
    reveal(parsed_ok);
}

/// The register-source law at instruction `k`: each register source it records is a register
/// it reads, paired with the latest earlier instruction of its block whose writes (or their
/// aliases) include that register; and each register it reads that such an instruction writes
/// has a source recorded.
pub open spec fn sources_law_at(ps: Seq<ParsedInstruction>, k: int) -> bool {
    let p = ps[k];
    &&& forall|i: int|
        0 <= i < p.register_sources@.len() ==> {
            let src = #[trigger] p.register_sources@[i];
            &&& names_view(p.register_reads@).contains(src.register@)
            &&& exists|q: int|
                0 <= q < k && ps[q].block == p.block && writes_reg(names_view(ps[q].register_writes@), src.register@)
                    && src.source == ps[q].address && forall|m: int|
                    q < m < k ==> !writes_reg(names_view((#[trigger] ps[m]).register_writes@), src.register@)
        }
    &&& forall|j: int|
        0 <= j < p.register_reads@.len() && (exists|q: int|
            0 <= q < k && ps[q].block == p.block && writes_reg(
                names_view(ps[q].register_writes@),
                (#[trigger] p.register_reads@[j])@,
            )) ==> exists|i: int| 0 <= i < p.register_sources@.len() && p.register_sources@[i].register@ == p.register_reads@[j]@
}

/// Instruction `m` of block `b` is indexed from the block's scan state.
proof fn lemma_parsed_at(start: u64, end: u64, ds: Seq<DecodedInstruction>, bs: Seq<usize>, facts: NativeCfgFacts, b: int, m: int)
    requires
        cfg_with_starts(start, end, ds, facts, bs),
        0 <= b < bs.len(),
        bs[b] <= m < block_end_index(bs, b, ds.len() as int),
    ensures
        parsed_ok(facts.instructions@[m], ds, m, ds[bs[b] as int].address, state_at(ds, bs[b] as int, m)),
{
    assert(parsed_ok(facts.instructions@[m], ds, m, ds[bs[b] as int].address, state_at(ds, bs[b] as int, m)));
}

/// The register sources of instruction `k` of a scan.
#[verifier::spinoff_prover]
#[verifier::rlimit(50)]
proof fn lemma_sources_at(start: u64, end: u64, len: int, ds: Seq<DecodedInstruction>, bs: Seq<usize>, facts: NativeCfgFacts, k: int)
    requires
        tiles(ds, start as int, len),
        starts_fit(bs, ds.len() as int),
        cfg_with_starts(start, end, ds, facts, bs),
        0 <= k < ds.len(),
    ensures
        sources_law_at(facts.instructions@, k),
{
    let n = ds.len() as int;
    let b = lemma_block_of(bs, n, k, 0);
    let lo = bs[b] as int;
    let hi = block_end_index(bs, b, n);
    let st = state_at(ds, lo, k);
    let ps = facts.instructions@;
    let p = ps[k];
    lemma_parsed_at(start, end, ds, bs, facts, b, k);
    lemma_parsed_sources(p, ds, k, ds[lo].address, st);
    let reads = reads_list(ds[k]);
    lemma_writer_sources(reads, st.1);
    assert forall|m: int| lo <= m < k implies names_view((#[trigger] ps[m]).register_writes@) == writes_list(ds[m]) && ps[m].address
        == ds[m].address && ps[m].block == p.block by {
        lemma_parsed_at(start, end, ds, bs, facts, b, m);
        lemma_parsed_sources(ps[m], ds, m, ds[lo].address, state_at(ds, lo, m));
    }
    assert forall|i: int| 0 <= i < p.register_sources@.len() implies {
        let src = #[trigger] p.register_sources@[i];
        &&& names_view(p.register_reads@).contains(src.register@)
        &&& exists|q: int|
            0 <= q < k && ps[q].block == p.block && writes_reg(names_view(ps[q].register_writes@), src.register@)
                && src.source == ps[q].address && forall|m: int|
                q < m < k ==> !writes_reg(names_view((#[trigger] ps[m]).register_writes@), src.register@)
    } by {
        let src = p.register_sources@[i];
        let w = writer_sources(reads, st.1);
        assert(writers_view(p.register_sources@)[i] == (src.register@, src.source));
        assert(w[i] == (src.register@, src.source));
        lemma_last_writer(ds, lo, k, src.register@);
        let q = choose|q: int|
            lo <= q < k && writes_reg(writes_list(ds[q]), src.register@) && src.source == ds[q].address && forall|m: int|
                q < m < k ==> !writes_reg(writes_list(#[trigger] ds[m]), src.register@);
        assert(ps[q].block == p.block);
        assert forall|m: int| q < m < k implies !writes_reg(names_view((#[trigger] ps[m]).register_writes@), src.register@) by {
            assert(!writes_reg(writes_list(ds[m]), src.register@));
        }
    }
    assert forall|j: int|
        0 <= j < p.register_reads@.len() && (exists|q: int|
            0 <= q < k && ps[q].block == p.block && writes_reg(
                names_view(ps[q].register_writes@),
                (#[trigger] p.register_reads@[j])@,
            )) implies exists|i: int| 0 <= i < p.register_sources@.len() && p.register_sources@[i].register@ == p.register_reads@[j]@ by {
        let reg = p.register_reads@[j]@;
        assert(names_view(p.register_reads@)[j] == reg);
        assert(reads[j] == reg);
        let q = choose|q: int| 0 <= q < k && ps[q].block == p.block && writes_reg(names_view(ps[q].register_writes@), reg);
        lemma_same_block(start, end, len, ds, bs, facts, b, k, q);
        assert(lo <= q);
        assert(writes_reg(writes_list(ds[q]), reg));
        lemma_last_writer(ds, lo, k, reg);
        assert(lookup(st.1, reads[j]) is Some);
        let w = writer_sources(reads, st.1);
        assert(w.contains((reads[j], lookup(st.1, reads[j]).unwrap())));
        let i = choose|i: int| 0 <= i < w.len() && w[i] == (reads[j], lookup(st.1, reads[j]).unwrap());
        assert(writers_view(p.register_sources@)[i] == w[i]);
        assert(p.register_sources@[i].register@ == reg);
    }
}

/// Law of register sources in a function scan: every register source an instruction records
/// is a register it reads, paired with the latest earlier instruction of its own block whose
/// writes include that register (writing a register also writes its zero-extended and low-byte
/// aliases); and every register it reads that an earlier instruction of its block writes has a
/// source recorded.
#[verifier::spinoff_prover]
pub proof fn law_register_sources_are_latest_writers(start: u64, bytes: Seq<u8>, ds: Seq<DecodedInstruction>, facts: NativeCfgFacts)
    requires
        start + bytes.len() <= u64::MAX,
        decoding_tiles(start, bytes, ds),
        cfg_ok(start, (start + bytes.len()) as u64, ds, facts),
    ensures
        facts.instructions@.len() == ds.len(),
        forall|k: int| 0 <= k < ds.len() ==> #[trigger] sources_law_at(facts.instructions@, k),
{
    lemma_tiles(start, bytes, ds);
    let end = (start + bytes.len()) as u64;
    let bs = choose|bs: Seq<usize>| cfg_with_starts(start, end, ds, facts, bs);
    assert(cfg_with_starts(start, end, ds, facts, bs));
    assert(starts_fit(bs, ds.len() as int));
    assert forall|k: int| 0 <= k < ds.len() implies #[trigger] sources_law_at(facts.instructions@, k) by {
        lemma_sources_at(start, end, bytes.len() as int, ds, bs, facts, k);
    }
}


/// How many of `xs` are calls: to a function or to an import.
pub open spec fn call_xref_count(xs: Seq<NativeXref>) -> nat
    decreases xs.len(),
{
    if xs.len() == 0 {
        0
    } else {
        call_xref_count(xs.drop_last()) + if xs.last().relation == XrefRelation::Calls || xs.last().relation
            == XrefRelation::CallsImport {
            1nat
        } else {
            0nat
        }
    }
}

/// Calls are counted part by part.
proof fn lemma_call_count_add(a: Seq<NativeXref>, b: Seq<NativeXref>)
    ensures
        call_xref_count(a + b) == call_xref_count(a) + call_xref_count(b),
    decreases b.len(),
{
    if b.len() > 0 {
        lemma_call_count_add(a, b.drop_last());
        assert((a + b).drop_last() =~= a + b.drop_last());
    } else {
        assert(a + b =~= a);
    }
}

/// A list of references holds no call.
proof fn lemma_no_calls(xs: Seq<NativeXref>)
    requires
        forall|i: int| 0 <= i < xs.len() ==> (#[trigger] xs[i]).relation == XrefRelation::References,
    ensures
        call_xref_count(xs) == 0,
    decreases xs.len(),
{
    if xs.len() > 0 {
        lemma_no_calls(xs.drop_last());
    }
}

/// An instruction counts as many calls as it adds call xrefs.
#[verifier::spinoff_prover]
proof fn lemma_instruction_calls(
    fa: NativeRef,
    fs: Seq<(u64, NativeRef)>,
    ss: Seq<u64>,
    is: Seq<u64>,
    bs: Seq<u64>,
    p: ParsedInstruction,
)
    ensures
        call_xref_count(instruction_xrefs(fa, fs, ss, is, bs, p)) == crate::cfg::instruction_calls(fs, is, p),
{
    reveal_strlit("call");
    reveal_strlit("jump");
    reveal_strlit("conditional_branch");
    let a = p.address;
    let r1 = source_xrefs(a, Seq::new(p.register_sources@.len(), |i: int| p.register_sources@[i].source));
    let r2 = source_xrefs(a, Seq::new(p.constant_sources@.len(), |i: int| p.constant_sources@[i].source));
    lemma_no_calls(r1);
    lemma_no_calls(r2);
    lemma_call_count_add(r1, r2);
    let refs = r1 + r2;
    let all = instruction_xrefs(fa, fs, ss, is, bs, p);
    let rest = all.subrange(refs.len() as int, all.len() as int);
    assert(all =~= refs + rest);
    lemma_call_count_add(refs, rest);
    let kind: Option<Seq<char>> = match p.flow_kind {
        Some(k) => Some(k@),
        None => None,
    };
    assert("call"@ != "jump"@ && "call"@ != "conditional_branch"@ && "jump"@ != "conditional_branch"@) by {
        assert("call"@[0] != "jump"@[0]);
        assert("call"@.len() != "conditional_branch"@.len());
        assert("jump"@.len() != "conditional_branch"@.len());
    }
    let ghost sx: Seq<NativeXref> = match crate::cfg::spec_instruction_data_target(p) {
        Some(d) => if ss.contains(d) {
            seq![
                NativeXref {
                    source: NativeRef::Instruction(a),
                    target: NativeRef::String(d),
                    relation: XrefRelation::References,
                    address: Some(a),
                },
                NativeXref {
                    source: fa,
                    target: NativeRef::String(d),
                    relation: XrefRelation::References,
                    address: Some(a),
                },
            ]
        } else {
            Seq::empty()
        },
        None => Seq::empty(),
    };
    lemma_no_calls(sx);
    let flow = rest.subrange(sx.len() as int, rest.len() as int);
    assert(rest =~= sx + flow);
    lemma_call_count_add(sx, flow);
    reveal_with_fuel(call_xref_count, 3);
}


/// The first `n` instructions count as many calls as they add call xrefs.
proof fn lemma_calls_upto(
    fa: NativeRef,
    fs: Seq<(u64, NativeRef)>,
    ss: Seq<u64>,
    is: Seq<u64>,
    bs: Seq<u64>,
    ps: Seq<ParsedInstruction>,
    n: int,
)
    requires
        0 <= n <= ps.len(),
    ensures
        call_xref_count(xrefs_upto(fa, fs, ss, is, bs, ps, n)) == crate::cfg::calls_upto(fs, is, ps, n),
    decreases n,
{
    if n > 0 {
        lemma_calls_upto(fa, fs, ss, is, bs, ps, n - 1);
        lemma_instruction_calls(fa, fs, ss, is, bs, ps[n - 1]);
        lemma_call_count_add(xrefs_upto(fa, fs, ss, is, bs, ps, n - 1), instruction_xrefs(fa, fs, ss, is, bs, ps[n - 1]));
    }
}

/// Law of call counts: a function scan counts exactly as many calls as it records call xrefs
/// (to functions and to imports).
pub proof fn law_call_count_matches_call_xrefs(
    fa: NativeRef,
    fs: Seq<(u64, NativeRef)>,
    ss: Seq<u64>,
    is: Seq<u64>,
    facts: NativeCfgFacts,
)
    requires
        facts.xrefs@ == xrefs_upto(
            fa,
            fs,
            ss,
            is,
            crate::cfg::block_addresses(facts.basic_blocks@),
            facts.instructions@,
            facts.instructions@.len() as int,
        ),
        facts.function_call_count == crate::cfg::calls_upto(fs, is, facts.instructions@, facts.instructions@.len() as int),
    ensures
        facts.function_call_count == call_xref_count(facts.xrefs@),
{
    lemma_calls_upto(
        fa,
        fs,
        ss,
        is,
        crate::cfg::block_addresses(facts.basic_blocks@),
        facts.instructions@,
        facts.instructions@.len() as int,
    );
}

} // verus!
