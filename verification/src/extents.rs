use vstd::prelude::*;

use crate::cfg::NativeRef;
use crate::decode::{decoding_tiles, DecodedInstruction};
use crate::functions::ParsedFunction;
use crate::sections::{
    section_end_for_address, spec_function_bytes, spec_section_end, spec_terminal_end,
    terminal_end_for_function, ParsedSection,
};
use crate::surface::sat_add;

verus! {

/// The addresses of the functions that have one, in list order.
pub open spec fn starts_of(v: Seq<ParsedFunction>) -> Seq<u64>
    decreases v.len(),
{
    if v.len() == 0 {
        Seq::empty()
    } else {
        let prev = starts_of(v.drop_last());
        match v.last().address {
            Some(a) => prev.push(a),
            None => prev,
        }
    }
}

/// The smallest element of `s` above `a`.
pub open spec fn min_above(s: Seq<u64>, a: u64) -> Option<u64>
    decreases s.len(),
{
    if s.len() == 0 {
        None
    } else {
        let rest = min_above(s.drop_last(), a);
        let x = s.last();
        if x > a {
            match rest {
                Some(m) => if m < x {
                    Some(m)
                } else {
                    Some(x)
                },
                None => Some(x),
            }
        } else {
            rest
        }
    }
}

/// The smaller of two addresses.
pub open spec fn min_u64(a: u64, b: u64) -> u64 {
    if a < b {
        a
    } else {
        b
    }
}

/// Where a function's range ends before its code is looked at: its declared end (saturating,
/// or its start when it has no size), cut at the next function start and at the end of the
/// section that holds it.
pub open spec fn planned_end(f: ParsedFunction, starts: Seq<u64>, sections: Seq<ParsedSection>) -> u64 {
    let a = f.address.unwrap();
    let e0 = match f.size {
        Some(z) => sat_add(a, z) as u64,
        None => a,
    };
    let e1 = match min_above(starts, a) {
        Some(n) => min_u64(e0, n),
        None => e0,
    };
    match spec_section_end(sections, a) {
        Some(s) => min_u64(e1, s),
        None => e1,
    }
}

/// The refined size of `f`, given the decoding `out` of its planned range: the planned end,
/// cut at the end of the first unconditional jump or return; unchanged when that leaves
/// nothing.
pub open spec fn refined_size(
    f: ParsedFunction,
    starts: Seq<u64>,
    sections: Seq<ParsedSection>,
    out: Seq<DecodedInstruction>,
) -> Option<u64> {
    match f.address {
        None => f.size,
        Some(a) => {
            let e2 = planned_end(f, starts, sections);
            let e3 = match spec_terminal_end(out, a, e2) {
                Some(t) => min_u64(e2, t),
                None => e2,
            };
            if e3 > a {
                Some((e3 - a) as u64)
            } else {
                f.size
            }
        },
    }
}

/// Whether `out` is a decoding of the planned range of `f` (any sequence will do when the
/// range is empty).
pub open spec fn decodes_planned(
    f: ParsedFunction,
    starts: Seq<u64>,
    sections: Seq<ParsedSection>,
    out: Seq<DecodedInstruction>,
) -> bool {
    match f.address {
        Some(a) => a < planned_end(f, starts, sections) ==> decoding_tiles(
            a,
            spec_function_bytes(a, (planned_end(f, starts, sections) - a) as u64, sections),
            out,
        ),
        None => true,
    }
}

/// `g` is `f` with its extent refined, for some decoding of its planned range.
pub open spec fn refined_from(
    f: ParsedFunction,
    g: ParsedFunction,
    starts: Seq<u64>,
    sections: Seq<ParsedSection>,
) -> bool {
    exists|out: Seq<DecodedInstruction>|
        #![trigger refined_size(f, starts, sections, out)]
        decodes_planned(f, starts, sections, out) && g == ParsedFunction {
            size: refined_size(f, starts, sections, out),
            ..f
        }
}

/// The function targets: each function that has an address, in list order, with its start and
/// its ref (its start and its position in the list).
pub open spec fn function_targets(v: Seq<ParsedFunction>) -> Seq<(u64, NativeRef)>
    decreases v.len(),
{
    if v.len() == 0 {
        Seq::empty()
    } else {
        let prev = function_targets(v.drop_last());
        match v.last().address {
            Some(a) => prev.push((a, NativeRef::Function(a, (v.len() - 1) as u64))),
            None => prev,
        }
    }
}

/// Where xrefs to functions can land: each function with an address, by its start, with its
/// ref.
pub fn function_targets_by_start(functions: &[ParsedFunction]) -> (r: Vec<(u64, NativeRef)>)
    ensures
        r@ == function_targets(functions@),
{
    let mut r: Vec<(u64, NativeRef)> = Vec::new();
    let mut i: usize = 0;
    while i < functions.len()
        invariant
            i <= functions@.len(),
            r@ == function_targets(functions@.subrange(0, i as int)),
        decreases functions@.len() - i,
    {
        assert(functions@.subrange(0, i + 1).drop_last() =~= functions@.subrange(0, i as int));
        match functions[i].address {
            Some(a) => r.push((a, NativeRef::Function(a, i as u64))),
            None => {},
        }
        i += 1;
    }
    assert(functions@.subrange(0, functions@.len() as int) =~= functions@);
    r
}

/// The starts of the functions that have one, in list order.
fn function_starts(functions: &[ParsedFunction]) -> (r: Vec<u64>)
    ensures
        r@ == starts_of(functions@),
{
    let mut r: Vec<u64> = Vec::new();
    let mut i: usize = 0;
    while i < functions.len()
        invariant
            i <= functions@.len(),
            r@ == starts_of(functions@.subrange(0, i as int)),
        decreases functions@.len() - i,
    {
        assert(functions@.subrange(0, i + 1).drop_last() =~= functions@.subrange(0, i as int));
        match functions[i].address {
            Some(a) => r.push(a),
            None => {},
        }
        i += 1;
    }
    assert(functions@.subrange(0, functions@.len() as int) =~= functions@);
    r
}

/// The smallest start above `address`.
fn min_start_above(starts: &Vec<u64>, address: u64) -> (r: Option<u64>)
    ensures
        r == min_above(starts@, address),
{
    let mut r: Option<u64> = None;
    let mut i: usize = 0;
    while i < starts.len()
        invariant
            i <= starts@.len(),
            r == min_above(starts@.subrange(0, i as int), address),
        decreases starts@.len() - i,
    {
        assert(starts@.subrange(0, i + 1).drop_last() =~= starts@.subrange(0, i as int));
        let x = starts[i];
        if x > address {
            r = match r {
                Some(m) => if m < x {
                    Some(m)
                } else {
                    Some(x)
                },
                None => Some(x),
            };
        }
        i += 1;
    }
    assert(starts@.subrange(0, starts@.len() as int) =~= starts@);
    r
}

/// Refines one function's extent.
#[verifier::spinoff_prover]
#[verifier::rlimit(40)]
fn refine_function(f: ParsedFunction, starts: &Vec<u64>, sections: &[ParsedSection]) -> (g: ParsedFunction)
    ensures
        refined_from(f, g, starts@, sections@),
{
    let ghost none = Seq::<DecodedInstruction>::empty();
    let a = match f.address {
        Some(a) => a,
        None => {
            assert(decodes_planned(f, starts@, sections@, none));
            assert(f == ParsedFunction { size: refined_size(f, starts@, sections@, none), ..f });
            return f;
        },
    };
    let e0 = match f.size {
        Some(z) => a.saturating_add(z),
        None => a,
    };
    let e1 = match min_start_above(starts, a) {
        Some(n) => if n < e0 {
            n
        } else {
            e0
        },
        None => e0,
    };
    let e2 = match section_end_for_address(sections, a) {
        Some(s) => if s < e1 {
            s
        } else {
            e1
        },
        None => e1,
    };
    assert(e2 == planned_end(f, starts@, sections@));
    let terminal = terminal_end_for_function(a, e2, sections);
    let e3 = match terminal {
        Some(t) => if t < e2 {
            t
        } else {
            e2
        },
        None => e2,
    };
    let ghost out = if a < e2 {
        choose|out: Seq<DecodedInstruction>|
            decoding_tiles(a, spec_function_bytes(a, (e2 - a) as u64, sections@), out) && terminal
                == spec_terminal_end(out, a, e2)
    } else {
        none
    };
    assert(terminal == spec_terminal_end(out, a, e2));
    assert(decodes_planned(f, starts@, sections@, out));
    let mut g = f;
    if e3 > a {
        g.size = Some(e3 - a);
    }
    assert(g == ParsedFunction { size: refined_size(f, starts@, sections@, out), ..f });
    g
}

/// The elements of `v`, last first.
pub fn reversed<T>(v: Vec<T>) -> (r: Vec<T>)
    ensures
        r@ == v@.reverse(),
{
    let ghost orig = v@;
    let n = v.len();
    let mut v = v;
    let mut r: Vec<T> = Vec::new();
    while v.len() > 0
        invariant
            n == orig.len(),
            v@.len() <= n,
            v@ == orig.subrange(0, v@.len() as int),
            r@ == orig.subrange(v@.len() as int, n as int).reverse(),
        decreases v@.len(),
    {
        let ghost k = v@.len() as int;
        let x = v.pop().unwrap();
        r.push(x);
        assert(v@ =~= orig.subrange(0, k - 1));
        assert(r@ =~= orig.subrange(k - 1, n as int).reverse());
    }
    assert(orig.subrange(0, n as int) =~= orig);
    r
}

/// Refines each function's extent: a function ends no later than its declared end, the next
/// function start, the end of its section, and the end of its first unconditional jump or
/// return; a refinement that would leave nothing keeps the old size.
pub fn refine_function_extents(functions: &mut Vec<ParsedFunction>, sections: &[ParsedSection])
    ensures
        final(functions)@.len() == old(functions)@.len(),
        forall|i: int|
            0 <= i < old(functions)@.len() ==> refined_from(
                #[trigger] old(functions)@[i],
                final(functions)@[i],
                starts_of(old(functions)@),
                sections@,
            ),
{
    let ghost orig = functions@;
    let starts = function_starts(functions.as_slice());
    let mut taken: Vec<ParsedFunction> = Vec::new();
    std::mem::swap(functions, &mut taken);
    let n = taken.len();
    let mut rest = reversed(taken);
    assert(orig.subrange(0, n as int) =~= orig);
    while rest.len() > 0
        invariant
            n == orig.len(),
            functions@.len() + rest@.len() == n,
            rest@ == orig.subrange(functions@.len() as int, n as int).reverse(),
            starts@ == starts_of(orig),
            forall|i: int|
                0 <= i < functions@.len() ==> refined_from(
                    #[trigger] orig[i],
                    functions@[i],
                    starts@,
                    sections@,
                ),
        decreases rest@.len(),
    {
        let ghost k = functions@.len() as int;
        let f = rest.pop().unwrap();
        assert(f == orig[k]);
        assert(rest@ =~= orig.subrange(k + 1, n as int).reverse());
        let g = refine_function(f, &starts, sections);
        functions.push(g);
    }
}

/// The smallest start above `a` is a start above `a`, and no start above `a` is smaller.
proof fn lemma_min_above(s: Seq<u64>, a: u64)
    ensures
        match min_above(s, a) {
            Some(n) => n > a && s.contains(n) && forall|x: u64| s.contains(x) && x > a ==> n <= x,
            None => forall|x: u64| s.contains(x) ==> x <= a,
        },
    decreases s.len(),
{
    if s.len() > 0 {
        lemma_min_above(s.drop_last(), a);
        assert forall|x: u64| s.contains(x) implies s.drop_last().contains(x) || x == s.last() by {
            let i = choose|i: int| 0 <= i < s.len() && s[i] == x;
            if i < s.len() - 1 {
                assert(s.drop_last()[i] == x);
            }
        }
        match min_above(s.drop_last(), a) {
            Some(m) => {
                let i = choose|i: int| 0 <= i < s.drop_last().len() && s.drop_last()[i] == m;
                assert(s[i] == m);
            },
            None => {},
        }
        assert(s[s.len() - 1] == s.last());
    }
}

/// `g` has a size that keeps it non-empty and inside `f`'s declared end (saturating), before
/// every later function start and inside the section that holds its start.
pub open spec fn stays_within(f: ParsedFunction, g: ParsedFunction, starts: Seq<u64>, sections: Seq<ParsedSection>) -> bool {
    match (f.address, g.size) {
        (Some(a), Some(z)) => {
            &&& z > 0
            &&& a + z <= match f.size {
                Some(d) => sat_add(a, d),
                None => a as int,
            }
            &&& forall|n: u64| starts.contains(n) && n > a ==> a + z <= n
            &&& match spec_section_end(sections, a) {
                Some(e) => a + z <= e,
                None => true,
            }
        },
        _ => false,
    }
}

/// Refining a function never moves or renames it, and a size it sets keeps the function
/// non-empty and inside its declared end (saturating), before every later function start and
/// inside the section that holds its start.
pub proof fn law_refinement_only_shrinks(
    f: ParsedFunction,
    g: ParsedFunction,
    starts: Seq<u64>,
    sections: Seq<ParsedSection>,
)
    requires
        refined_from(f, g, starts, sections),
    ensures
        g.name == f.name,
        g.address == f.address,
        g.boundary_source == f.boundary_source,
        g.boundary_confidence == f.boundary_confidence,
        g.size != f.size ==> stays_within(f, g, starts, sections),
{
    let out = choose|out: Seq<DecodedInstruction>|
        #![trigger refined_size(f, starts, sections, out)]
        decodes_planned(f, starts, sections, out) && g == ParsedFunction {
            size: refined_size(f, starts, sections, out),
            ..f
        };
    match f.address {
        Some(a) => {
            lemma_min_above(starts, a);
        },
        None => {},
    }
}

} // verus!
