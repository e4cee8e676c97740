use vstd::prelude::*;

use crate::decode::{decode_native_instructions, decoding_tiles, DecodedInstruction};
use crate::frame::{
    argument_registers_for_instructions, epilogue_kind_for_instructions, flat_operands, hints_view,
    slot_table, slots_match, spec_argument_registers, spec_epilogue_kind, spec_rsp_immediate,
    stack_allocation_size, stack_cleanup_size, stack_slots_for_instructions, ArtifactFormat,
};
use crate::functions::ParsedFunction;
use crate::sections::{
    addressable, addressable_bytes, function_bytes, spec_function_bytes, ParsedSection,
};
use crate::text::{str_eq, string_of};

verus! {

/// An optional text as a value.
pub open spec fn text_opt(o: Option<String>) -> Option<Seq<char>> {
    match o {
        Some(s) => Some(s@),
        None => None,
    }
}

/// Whether a function opens with the frame-pointer prologue `push rbp; mov rbp,rsp`.
pub open spec fn has_frame_pointer(instrs: Seq<DecodedInstruction>) -> bool {
    &&& instrs.len() >= 2
    &&& instrs[0].mnemonic@ == "push"@
    &&& instrs[0].operands@ == "rbp"@
    &&& instrs[1].mnemonic@ == "mov"@
    &&& instrs[1].operands@ == "rbp,rsp"@
}

/// The first frame allocation (`sub rsp, imm`) at or after position `i`.
pub open spec fn first_allocation_from(instrs: Seq<DecodedInstruction>, i: int) -> Option<u64>
    decreases instrs.len() - i,
{
    if i < 0 || i >= instrs.len() {
        None
    } else {
        match spec_rsp_immediate("sub"@, instrs[i]) {
            Some(v) => Some(v),
            None => first_allocation_from(instrs, i + 1),
        }
    }
}

/// The last frame release (`add rsp, imm`) among the first `n` instructions.
pub open spec fn last_cleanup_upto(instrs: Seq<DecodedInstruction>, n: int) -> Option<u64>
    decreases n,
{
    if n <= 0 || n > instrs.len() {
        None
    } else {
        match spec_rsp_immediate("add"@, instrs[n - 1]) {
            Some(v) => Some(v),
            None => last_cleanup_upto(instrs, n - 1),
        }
    }
}

/// `g` is `f` with the native semantics of its decoded instructions recorded: frame pointer,
/// frame allocation and release, epilogue, stack slots, and (when any argument register is
/// read) calling convention and argument registers. Everything else is kept.
pub open spec fn annotated_with(
    f: ParsedFunction,
    g: ParsedFunction,
    format: ArtifactFormat,
    instrs: Seq<DecodedInstruction>,
) -> bool {
    &&& g.name == f.name
    &&& g.address == f.address
    &&& g.size == f.size
    &&& g.boundary_source == f.boundary_source
    &&& g.boundary_confidence == f.boundary_confidence
    &&& g.string_count == f.string_count
    &&& g.call_count == f.call_count
    &&& if has_frame_pointer(instrs) {
        text_opt(g.frame_pointer) == Some("rbp"@)
    } else {
        g.frame_pointer == f.frame_pointer
    }
    &&& g.stack_frame_size == first_allocation_from(instrs, 0)
    &&& g.stack_cleanup_size == last_cleanup_upto(instrs, instrs.len() as int)
    &&& text_opt(g.epilogue_kind) == spec_epilogue_kind(instrs)
    &&& g.has_frame_epilogue == spec_epilogue_kind(instrs) is Some
    &&& slots_match(g.stack_slots@, slot_table(flat_operands(instrs)))
    &&& match spec_argument_registers(format, instrs) {
        Some((cc, hints)) => text_opt(g.calling_convention) == Some(cc) && hints_view(
            g.argument_registers@,
        ) == hints,
        None => g.calling_convention == f.calling_convention && g.argument_registers
            == f.argument_registers,
    }
}

/// `g` is `f` annotated from a decoding of its code (the bytes of its range that stay inside
/// the address space); a function without an address, a size or code is kept as it is.
pub open spec fn annotated_from(
    f: ParsedFunction,
    g: ParsedFunction,
    format: ArtifactFormat,
    sections: Seq<ParsedSection>,
) -> bool {
    match (f.address, f.size) {
        (Some(a), Some(z)) => {
            let bytes = addressable(a, spec_function_bytes(a, z, sections));
            if bytes.len() == 0 {
                g == f
            } else {
                exists|instrs: Seq<DecodedInstruction>|
                    #![trigger annotated_with(f, g, format, instrs)]
                    decoding_tiles(a, bytes, instrs) && annotated_with(f, g, format, instrs)
            }
        },
        _ => g == f,
    }
}

fn opens_with_frame_pointer(instructions: &[DecodedInstruction]) -> (r: bool)
    ensures
        r == has_frame_pointer(instructions@),
{
    instructions.len() >= 2 && str_eq(instructions[0].mnemonic.as_str(), "push") && str_eq(
        instructions[0].operands.as_str(),
        "rbp",
    ) && str_eq(instructions[1].mnemonic.as_str(), "mov") && str_eq(
        instructions[1].operands.as_str(),
        "rbp,rsp",
    )
}

fn first_allocation(instructions: &[DecodedInstruction]) -> (r: Option<u64>)
    ensures
        r == first_allocation_from(instructions@, 0),
{
    let mut i: usize = 0;
    while i < instructions.len()
        invariant
            i <= instructions@.len(),
            first_allocation_from(instructions@, 0) == first_allocation_from(instructions@, i as int),
        decreases instructions@.len() - i,
    {
        match stack_allocation_size(&instructions[i]) {
            Some(v) => {
                return Some(v);
            },
            None => {},
        }
        i += 1;
    }
    None
}

fn last_cleanup(instructions: &[DecodedInstruction]) -> (r: Option<u64>)
    ensures
        r == last_cleanup_upto(instructions@, instructions@.len() as int),
{
    let mut i: usize = instructions.len();
    while i > 0
        invariant
            i <= instructions@.len(),
            last_cleanup_upto(instructions@, instructions@.len() as int) == last_cleanup_upto(
                instructions@,
                i as int,
            ),
        decreases i,
    {
        match stack_cleanup_size(&instructions[i - 1]) {
            Some(v) => {
                return Some(v);
            },
            None => {},
        }
        i -= 1;
    }
    None
}

/// Records what a function's decoded instructions show of its frame, epilogue, stack slots
/// and argument registers.
pub fn annotate_function(f: ParsedFunction, format: ArtifactFormat, instructions: &[DecodedInstruction]) -> (g:
    ParsedFunction)
    ensures
        annotated_with(f, g, format, instructions@),
{
    let mut g = f;
    if opens_with_frame_pointer(instructions) {
        g.frame_pointer = Some(string_of("rbp"));
    }
    g.stack_frame_size = first_allocation(instructions);
    g.stack_cleanup_size = last_cleanup(instructions);
    let epilogue = epilogue_kind_for_instructions(instructions);
    g.epilogue_kind = match epilogue {
        Some(kind) => Some(string_of(kind)),
        None => None,
    };
    g.has_frame_epilogue = epilogue.is_some();
    g.stack_slots = stack_slots_for_instructions(instructions);
    match argument_registers_for_instructions(format, instructions) {
        Some((calling_convention, registers)) => {
            g.calling_convention = Some(string_of(calling_convention));
            g.argument_registers = registers;
        },
        None => {},
    }
    g
}

/// Annotates one function from the bytes its range covers.
fn annotate_one(f: ParsedFunction, format: ArtifactFormat, sections: &[ParsedSection]) -> (g: ParsedFunction)
    ensures
        annotated_from(f, g, format, sections@),
{
    let (a, z) = match (f.address, f.size) {
        (Some(a), Some(z)) => (a, z),
        _ => return f,
    };
    let range = function_bytes(a, z, sections);
    let bytes = addressable_bytes(a, range.as_slice());
    if bytes.len() == 0 {
        return f;
    }
    let instructions = decode_native_instructions(a, bytes);
    let ghost f0 = f;
    let g = annotate_function(f, format, instructions.as_slice());
    assert(decoding_tiles(a, bytes@, instructions@) && annotated_with(f0, g, format, instructions@));
    g
}

/// Annotates each function with the native semantics of the instructions its range decodes to.
pub fn annotate_function_native_semantics(
    functions: &mut Vec<ParsedFunction>,
    format: ArtifactFormat,
    sections: &[ParsedSection],
)
    ensures
        final(functions)@.len() == old(functions)@.len(),
        forall|i: int|
            0 <= i < old(functions)@.len() ==> annotated_from(
                #[trigger] old(functions)@[i],
                final(functions)@[i],
                format,
                sections@,
            ),
{
    let ghost orig = functions@;
    let mut taken: Vec<ParsedFunction> = Vec::new();
    std::mem::swap(functions, &mut taken);
    let n = taken.len();
    let mut rest = crate::extents::reversed(taken);
    assert(orig.subrange(0, n as int) =~= orig);
    while rest.len() > 0
        invariant
            n == orig.len(),
            functions@.len() + rest@.len() == n,
            rest@ == orig.subrange(functions@.len() as int, n as int).reverse(),
            forall|i: int|
                0 <= i < functions@.len() ==> annotated_from(
                    #[trigger] orig[i],
                    functions@[i],
                    format,
                    sections@,
                ),
        decreases rest@.len(),
    {
        let ghost k = functions@.len() as int;
        let f = rest.pop().unwrap();
        assert(f == orig[k]);
        assert(rest@ =~= orig.subrange(k + 1, n as int).reverse());
        let g = annotate_one(f, format, sections);
        functions.push(g);
    }
}

/// Annotating a function never renames, moves or resizes it, nor changes where its boundary
/// came from or its counts.
pub proof fn law_annotation_keeps_identity(
    f: ParsedFunction,
    g: ParsedFunction,
    format: ArtifactFormat,
    sections: Seq<ParsedSection>,
)
    requires
        annotated_from(f, g, format, sections),
    ensures
        g.name == f.name,
        g.address == f.address,
        g.size == f.size,
        g.boundary_source == f.boundary_source,
        g.boundary_confidence == f.boundary_confidence,
        g.string_count == f.string_count,
        g.call_count == f.call_count,
{
    match (f.address, f.size) {
        (Some(a), Some(z)) => {
            if addressable(a, spec_function_bytes(a, z, sections)).len() != 0 {
                let instrs = choose|instrs: Seq<DecodedInstruction>|
                    #![trigger annotated_with(f, g, format, instrs)]
                    decoding_tiles(a, addressable(a, spec_function_bytes(a, z, sections)), instrs) && annotated_with(
                        f,
                        g,
                        format,
                        instrs,
                    );
            }
        },
        _ => {},
    }
}

} // verus!
