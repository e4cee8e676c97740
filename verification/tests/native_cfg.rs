use revdeck_index::cfg::{scan_function_cfg, NativeRef, XrefRelation};
use revdeck_index::constants::RegisterConstantWrite;
use revdeck_index::decode::{decode_native_instructions, InstructionFlow, OperandKind, OperandRole};
use revdeck_index::extents::function_targets_by_start;
use revdeck_index::functions::{BoundaryConfidence, ParsedFunction, ParsedImport};
use revdeck_index::native::collect_native_cfg;
use revdeck_index::sections::ParsedSection;
use revdeck_index::surface::ParsedString;

fn test_function(address: u64, size: Option<u64>, name: &str) -> ParsedFunction {
    ParsedFunction {
        name: name.to_string(),
        address: Some(address),
        size,
        boundary_source: "test".to_string(),
        boundary_confidence: BoundaryConfidence::Symbol,
        frame_pointer: None,
        stack_frame_size: None,
        stack_cleanup_size: None,
        epilogue_kind: None,
        has_frame_epilogue: false,
        stack_slots: Vec::new(),
        calling_convention: None,
        argument_registers: Vec::new(),
        string_count: 0,
        call_count: 0,
    }
}

fn text_section(address: u64, bytes: Vec<u8>) -> ParsedSection {
    ParsedSection {
        name: ".text".to_string(),
        address: Some(address),
        offset: Some(0),
        size: bytes.len() as u64,
        flags: "Text".to_string(),
        bytes,
    }
}

#[test]
fn native_cfg_scanner_splits_conditional_branch() {
    let function = test_function(0x1000, Some(5), "branchy");
    let facts = scan_function_cfg(
        NativeRef::Function(function.address.unwrap(), 0),
        0x1000,
        &[0x74, 0x02, 0x90, 0xc3, 0xc3],
        &function_targets_by_start(std::slice::from_ref(&function)),
        &[],
        &[],
    );

    assert_eq!(facts.basic_blocks.len(), 3);
    assert_eq!(facts.cfg_edges.len(), 2);
    assert!(facts.cfg_edges.iter().any(|edge| edge.edge_kind == "branch"));
    assert!(facts.cfg_edges.iter().any(|edge| edge.edge_kind == "fallthrough"));
    assert!(facts
        .xrefs
        .iter()
        .any(|xref| xref.relation == XrefRelation::References));
}

#[test]
fn native_decoder_assigns_instruction_flow_semantics() {
    let instructions = decode_native_instructions(
        0x1000,
        &[
            0xe8, 0x00, 0x00, 0x00, 0x00, 0xff, 0x15, 0x00, 0x00, 0x00, 0x00, 0xff, 0x25, 0x00,
            0x00, 0x00, 0x00, 0x74, 0x02, 0xc3,
        ],
    );

    assert_eq!(instructions[0].flow, InstructionFlow::Call);
    assert_eq!(instructions[0].flow_kind(), Some("call"));
    assert!(instructions[0].typed_operands.iter().any(|operand| {
        operand.role == OperandRole::CallTarget
            && operand.kind == OperandKind::RelativeTarget
            && operand.control_flow_target() == Some(0x1005)
    }));
    assert_eq!(instructions[1].flow, InstructionFlow::Call);
    assert_eq!(instructions[1].data_target, Some(0x100b));
    assert!(instructions[1].typed_operands.iter().any(|operand| {
        operand.role == OperandRole::CallTarget
            && operand.kind == OperandKind::Memory
            && operand.base.as_deref() == Some("rip")
            && operand.displacement == Some(0)
            && operand.data_reference_target() == Some(0x100b)
            && operand.width_bits == Some(64)
    }));
    assert_eq!(instructions[2].flow, InstructionFlow::Jump);
    assert_eq!(instructions[2].flow_kind(), Some("jump"));
    assert_eq!(instructions[3].flow, InstructionFlow::ConditionalBranch);
    assert_eq!(instructions[3].flow_kind(), Some("conditional_branch"));
    assert_eq!(instructions[4].flow, InstructionFlow::Return);
    assert_eq!(instructions[4].flow_kind(), None);
}

#[test]
fn native_conditional_branches_reference_recent_flag_producer() {
    let function = test_function(0x1000, Some(11), "branchy");
    let facts = scan_function_cfg(
        NativeRef::Function(function.address.unwrap(), 0),
        0x1000,
        &[
            0x48, 0x39, 0xc8, // cmp rax,rcx
            0x74, 0x01, // je 0x1006
            0x90, // nop
            0xc3, // ret
            0x48, 0x85, 0xc0, // test rax,rax
            0x75, 0xf6, // jne 0x1000
        ],
        &function_targets_by_start(std::slice::from_ref(&function)),
        &[],
        &[],
    );

    let cmp = facts
        .instructions
        .iter()
        .find(|instruction| instruction.address == 0x1000)
        .expect("cmp instruction should be present");
    let je = facts
        .instructions
        .iter()
        .find(|instruction| instruction.address == 0x1003)
        .expect("je instruction should be present");
    assert_eq!(je.condition_source, Some(cmp.address));
    assert_eq!(je.condition_summary.as_deref(), Some("je if rax == rcx"));
    assert!(facts.xrefs.iter().any(|xref| {
        xref.source == NativeRef::Instruction(je.address)
            && xref.target == NativeRef::Instruction(cmp.address)
            && xref.relation == XrefRelation::References
            && xref.address == Some(0x1003)
    }));

    let test = facts
        .instructions
        .iter()
        .find(|instruction| instruction.address == 0x1007)
        .expect("test instruction should be present");
    let jne = facts
        .instructions
        .iter()
        .find(|instruction| instruction.address == 0x100a)
        .expect("jne instruction should be present");
    assert_eq!(jne.condition_source, Some(test.address));
    assert_eq!(jne.condition_summary.as_deref(), Some("jne if rax != 0"));
    assert!(facts.xrefs.iter().any(|xref| {
        xref.source == NativeRef::Instruction(jne.address)
            && xref.target == NativeRef::Instruction(test.address)
            && xref.relation == XrefRelation::References
            && xref.address == Some(0x100a)
    }));
}

#[test]
fn native_conditional_branch_references_immediate_flag_producer() {
    let function = test_function(0x5000, Some(8), "branchy_imm");
    let facts = scan_function_cfg(
        NativeRef::Function(function.address.unwrap(), 0),
        0x5000,
        &[
            0x48, 0x83, 0xf8, 0x7f, // cmp rax,0x7f
            0x74, 0x01, // je 0x5007
            0x90, // nop
            0xc3, // ret
        ],
        &function_targets_by_start(std::slice::from_ref(&function)),
        &[],
        &[],
    );

    let cmp = facts
        .instructions
        .iter()
        .find(|instruction| instruction.address == 0x5000)
        .expect("cmp instruction should be present");
    let je = facts
        .instructions
        .iter()
        .find(|instruction| instruction.address == 0x5004)
        .expect("je instruction should be present");
    assert_eq!(je.condition_source, Some(cmp.address));
    assert_eq!(je.condition_summary.as_deref(), Some("je if rax == 0x7f"));
    assert!(facts.xrefs.iter().any(|xref| {
        xref.source == NativeRef::Instruction(je.address)
            && xref.target == NativeRef::Instruction(cmp.address)
            && xref.relation == XrefRelation::References
            && xref.address == Some(0x5004)
    }));
}

#[test]
fn native_conditional_branch_summary_marks_known_constant_outcomes() {
    let not_taken_function = test_function(0x5100, Some(16), "known_not_taken");
    let not_taken_facts = scan_function_cfg(
        NativeRef::Function(not_taken_function.address.unwrap(), 0),
        0x5100,
        &[
            0x48, 0xb8, 0x2a, 0x00, 0x00, 0x00, 0x00, 0x00, 0x00, 0x00, // mov rax,0x2a
            0x48, 0x83, 0xf8, 0x2a, // cmp rax,0x2a
            0x75, 0x01, // jne 0x5111
        ],
        &function_targets_by_start(std::slice::from_ref(&not_taken_function)),
        &[],
        &[],
    );
    let jne_not_taken = not_taken_facts
        .instructions
        .iter()
        .find(|instruction| instruction.address == 0x510e)
        .expect("not-taken jne should be present");
    assert_eq!(
        jne_not_taken.condition_summary.as_deref(),
        Some("jne if rax != 0x2a (known not taken)")
    );

    let taken_function = test_function(0x5120, Some(16), "known_taken");
    let taken_facts = scan_function_cfg(
        NativeRef::Function(taken_function.address.unwrap(), 0),
        0x5120,
        &[
            0x48, 0xb8, 0x2a, 0x00, 0x00, 0x00, 0x00, 0x00, 0x00, 0x00, // mov rax,0x2a
            0x48, 0x83, 0xf8, 0x7f, // cmp rax,0x7f
            0x75, 0x01, // jne 0x5131
        ],
        &function_targets_by_start(std::slice::from_ref(&taken_function)),
        &[],
        &[],
    );
    let jne_taken = taken_facts
        .instructions
        .iter()
        .find(|instruction| instruction.address == 0x512e)
        .expect("taken jne should be present");
    assert_eq!(
        jne_taken.condition_summary.as_deref(),
        Some("jne if rax != 0x7f (known taken)")
    );

    let zero_function = test_function(0x5140, Some(8), "known_zero");
    let zero_facts = scan_function_cfg(
        NativeRef::Function(zero_function.address.unwrap(), 0),
        0x5140,
        &[
            0x48, 0x31, 0xc9, // xor rcx,rcx
            0x48, 0x85, 0xc9, // test rcx,rcx
            0x75, 0x00, // jne 0x5148
        ],
        &function_targets_by_start(std::slice::from_ref(&zero_function)),
        &[],
        &[],
    );
    let zero_jne_not_taken = zero_facts
        .instructions
        .iter()
        .find(|instruction| instruction.address == 0x5146)
        .expect("jne should be present");
    assert_eq!(
        zero_jne_not_taken.condition_summary.as_deref(),
        Some("jne if rcx != 0 (known not taken)")
    );
}

#[test]
fn native_32_bit_constant_writes_propagate_zero_extended_aliases() {
    let function = test_function(0x5160, Some(14), "zero_extended_alias");
    let facts = scan_function_cfg(
        NativeRef::Function(function.address.unwrap(), 0),
        0x5160,
        &[
            0xb8, 0x2a, 0x00, 0x00, 0x00, // mov eax,0x2a
            0x48, 0x83, 0xf8, 0x2a, // cmp rax,0x2a
            0x74, 0x01, // je 0x516c
            0x90, // nop
            0xc3, // ret
        ],
        &function_targets_by_start(std::slice::from_ref(&function)),
        &[],
        &[],
    );

    let writer = facts
        .instructions
        .iter()
        .find(|instruction| instruction.address == 0x5160)
        .expect("mov instruction should be present");
    assert_eq!(
        writer.constant_writes,
        vec![RegisterConstantWrite {
            register: "eax".to_string(),
            value: 0x2a,
            width_bits: Some(32),
        }]
    );
    let cmp = facts
        .instructions
        .iter()
        .find(|instruction| instruction.address == 0x5165)
        .expect("cmp instruction should be present");
    assert!(cmp.constant_sources.iter().any(|source| {
        source.register == "rax" && source.value == 0x2a && source.source == writer.address
    }));
    let je = facts
        .instructions
        .iter()
        .find(|instruction| instruction.address == 0x5169)
        .expect("je instruction should be present");
    assert_eq!(
        je.condition_summary.as_deref(),
        Some("je if rax == 0x2a (known taken)")
    );
}

#[test]
fn native_32_bit_test_self_branches_use_known_zero_constants() {
    let function = test_function(0x5170, Some(10), "test32_known_zero");
    let facts = scan_function_cfg(
        NativeRef::Function(function.address.unwrap(), 0),
        0x5170,
        &[
            0xb8, 0x00, 0x00, 0x00, 0x00, // mov eax,0
            0x85, 0xc0, // test eax,eax
            0x74, 0x01, // je 0x517a
            0xc3, // ret
        ],
        &function_targets_by_start(std::slice::from_ref(&function)),
        &[],
        &[],
    );
    let test = facts
        .instructions
        .iter()
        .find(|instruction| instruction.address == 0x5175)
        .expect("test instruction should be present");
    assert_eq!(test.operands_text, "eax,eax");
    let je = facts
        .instructions
        .iter()
        .find(|instruction| instruction.address == 0x5177)
        .expect("je instruction should be present");
    assert_eq!(
        je.condition_summary.as_deref(),
        Some("je if eax == 0 (known taken)")
    );
}

#[test]
fn native_32_bit_xor_zero_aliases_feed_64_bit_conditions() {
    let function = test_function(0x5178, Some(8), "xor32_zero_alias");
    let facts = scan_function_cfg(
        NativeRef::Function(function.address.unwrap(), 0),
        0x5178,
        &[
            0x31, 0xc0, // xor eax,eax
            0x48, 0x85, 0xc0, // test rax,rax
            0x74, 0x01, // je 0x5180
            0xc3, // ret
        ],
        &function_targets_by_start(std::slice::from_ref(&function)),
        &[],
        &[],
    );
    let writer = facts
        .instructions
        .iter()
        .find(|instruction| instruction.address == 0x5178)
        .expect("xor instruction should be present");
    assert_eq!(
        writer.constant_writes,
        vec![RegisterConstantWrite {
            register: "eax".to_string(),
            value: 0,
            width_bits: Some(32),
        }]
    );
    let test = facts
        .instructions
        .iter()
        .find(|instruction| instruction.address == 0x517a)
        .expect("test instruction should be present");
    assert!(test.constant_sources.iter().any(|source| {
        source.register == "rax" && source.value == 0 && source.source == writer.address
    }));
    let je = facts
        .instructions
        .iter()
        .find(|instruction| instruction.address == 0x517d)
        .expect("je instruction should be present");
    assert_eq!(
        je.condition_summary.as_deref(),
        Some("je if rax == 0 (known taken)")
    );
}

#[test]
fn native_32_bit_cmp_immediate_branches_use_known_constants() {
    let function = test_function(0x517c, Some(12), "cmp32_known");
    let facts = scan_function_cfg(
        NativeRef::Function(function.address.unwrap(), 0),
        0x517c,
        &[
            0xb8, 0x2a, 0x00, 0x00, 0x00, // mov eax,0x2a
            0x83, 0xf8, 0x2a, // cmp eax,0x2a
            0x74, 0x01, // je 0x5186
            0xc3, // ret
        ],
        &function_targets_by_start(std::slice::from_ref(&function)),
        &[],
        &[],
    );
    let cmp = facts
        .instructions
        .iter()
        .find(|instruction| instruction.address == 0x5181)
        .expect("cmp instruction should be present");
    assert_eq!(cmp.operands_text, "eax,0x2a");
    let je = facts
        .instructions
        .iter()
        .find(|instruction| instruction.address == 0x5184)
        .expect("je instruction should be present");
    assert_eq!(
        je.condition_summary.as_deref(),
        Some("je if eax == 0x2a (known taken)")
    );
}

#[test]
fn native_32_bit_cmp_register_branches_use_known_constants() {
    let function = test_function(0x5188, Some(17), "cmp32_register_known");
    let facts = scan_function_cfg(
        NativeRef::Function(function.address.unwrap(), 0),
        0x5188,
        &[
            0xb8, 0x2a, 0x00, 0x00, 0x00, // mov eax,0x2a
            0xb9, 0x2a, 0x00, 0x00, 0x00, // mov ecx,0x2a
            0x39, 0xc8, // cmp eax,ecx
            0x74, 0x01, // je 0x5196
            0xc3, // ret
        ],
        &function_targets_by_start(std::slice::from_ref(&function)),
        &[],
        &[],
    );
    let cmp = facts
        .instructions
        .iter()
        .find(|instruction| instruction.address == 0x5192)
        .expect("cmp instruction should be present");
    assert_eq!(cmp.operands_text, "eax,ecx");
    let je = facts
        .instructions
        .iter()
        .find(|instruction| instruction.address == 0x5194)
        .expect("je instruction should be present");
    assert_eq!(
        je.condition_summary.as_deref(),
        Some("je if eax == ecx (known taken)")
    );
}

#[test]
fn native_32_bit_mov_register_copies_propagate_alias_constants() {
    let function = test_function(0x51a0, Some(15), "mov32_copy_alias");
    let facts = scan_function_cfg(
        NativeRef::Function(function.address.unwrap(), 0),
        0x51a0,
        &[
            0xb8, 0x2a, 0x00, 0x00, 0x00, // mov eax,0x2a
            0x89, 0xc1, // mov ecx,eax
            0x48, 0x83, 0xf9, 0x2a, // cmp rcx,0x2a
            0x74, 0x01, // je 0x51ae
            0xc3, // ret
        ],
        &function_targets_by_start(std::slice::from_ref(&function)),
        &[],
        &[],
    );
    let source = facts
        .instructions
        .iter()
        .find(|instruction| instruction.address == 0x51a0)
        .expect("source mov instruction should be present");
    let copy = facts
        .instructions
        .iter()
        .find(|instruction| instruction.address == 0x51a5)
        .expect("copy mov instruction should be present");
    assert_eq!(copy.operands_text, "ecx,eax");
    assert!(copy.constant_sources.iter().any(|constant| {
        constant.register == "eax"
            && constant.value == 0x2a
            && constant.source == source.address
    }));
    assert_eq!(
        copy.constant_writes,
        vec![RegisterConstantWrite {
            register: "ecx".to_string(),
            value: 0x2a,
            width_bits: Some(32),
        }]
    );
    let cmp = facts
        .instructions
        .iter()
        .find(|instruction| instruction.address == 0x51a7)
        .expect("cmp instruction should be present");
    assert!(cmp.constant_sources.iter().any(|constant| {
        constant.register == "rcx"
            && constant.value == 0x2a
            && constant.source == copy.address
    }));
    let je = facts
        .instructions
        .iter()
        .find(|instruction| instruction.address == 0x51ab)
        .expect("je instruction should be present");
    assert_eq!(
        je.condition_summary.as_deref(),
        Some("je if rcx == 0x2a (known taken)")
    );
}

#[test]
fn native_32_bit_mov_rm_immediates_propagate_alias_constants() {
    let function = test_function(0x51b0, Some(14), "mov32_rm_imm_alias");
    let facts = scan_function_cfg(
        NativeRef::Function(function.address.unwrap(), 0),
        0x51b0,
        &[
            0xc7, 0xc2, 0x2a, 0x00, 0x00, 0x00, // mov edx,0x2a
            0x48, 0x83, 0xfa, 0x2a, // cmp rdx,0x2a
            0x74, 0x01, // je 0x51bd
            0xc3, // ret
        ],
        &function_targets_by_start(std::slice::from_ref(&function)),
        &[],
        &[],
    );
    let writer = facts
        .instructions
        .iter()
        .find(|instruction| instruction.address == 0x51b0)
        .expect("mov instruction should be present");
    assert_eq!(
        writer.constant_writes,
        vec![RegisterConstantWrite {
            register: "edx".to_string(),
            value: 0x2a,
            width_bits: Some(32),
        }]
    );
    let cmp = facts
        .instructions
        .iter()
        .find(|instruction| instruction.address == 0x51b6)
        .expect("cmp instruction should be present");
    assert!(cmp.constant_sources.iter().any(|constant| {
        constant.register == "rdx"
            && constant.value == 0x2a
            && constant.source == writer.address
    }));
    let je = facts
        .instructions
        .iter()
        .find(|instruction| instruction.address == 0x51ba)
        .expect("je instruction should be present");
    assert_eq!(
        je.condition_summary.as_deref(),
        Some("je if rdx == 0x2a (known taken)")
    );
}

#[test]
fn native_32_bit_add_sub_immediates_fold_known_constants() {
    let add_function = test_function(0x51c0, Some(15), "add32_known");
    let add_facts = scan_function_cfg(
        NativeRef::Function(add_function.address.unwrap(), 0),
        0x51c0,
        &[
            0xb8, 0x20, 0x00, 0x00, 0x00, // mov eax,0x20
            0x83, 0xc0, 0x22, // add eax,0x22
            0x48, 0x83, 0xf8, 0x42, // cmp rax,0x42
            0x74, 0x01, // je 0x51cf
            0xc3, // ret
        ],
        &function_targets_by_start(std::slice::from_ref(&add_function)),
        &[],
        &[],
    );
    let add = add_facts
        .instructions
        .iter()
        .find(|instruction| instruction.address == 0x51c5)
        .expect("add instruction should be present");
    assert!(add
        .constant_sources
        .iter()
        .any(|constant| { constant.register == "eax" && constant.value == 0x20 }));
    assert_eq!(
        add.constant_writes,
        vec![RegisterConstantWrite {
            register: "eax".to_string(),
            value: 0x42,
            width_bits: Some(32),
        }]
    );
    let je = add_facts
        .instructions
        .iter()
        .find(|instruction| instruction.address == 0x51cc)
        .expect("je instruction should be present");
    assert_eq!(
        je.condition_summary.as_deref(),
        Some("je if rax == 0x42 (known taken)")
    );

    let sub_function = test_function(0x51d0, Some(16), "sub32_known");
    let sub_facts = scan_function_cfg(
        NativeRef::Function(sub_function.address.unwrap(), 0),
        0x51d0,
        &[
            0x41, 0xb8, 0x50, 0x00, 0x00, 0x00, // mov r8d,0x50
            0x41, 0x83, 0xe8, 0x10, // sub r8d,0x10
            0x49, 0x83, 0xf8, 0x40, // cmp r8,0x40
            0x74, 0x01, // je 0x51e1
            0xc3, // ret
        ],
        &function_targets_by_start(std::slice::from_ref(&sub_function)),
        &[],
        &[],
    );
    let sub = sub_facts
        .instructions
        .iter()
        .find(|instruction| instruction.address == 0x51d6)
        .expect("sub instruction should be present");
    assert_eq!(
        sub.constant_writes,
        vec![RegisterConstantWrite {
            register: "r8d".to_string(),
            value: 0x40,
            width_bits: Some(32),
        }]
    );
    let je = sub_facts
        .instructions
        .iter()
        .find(|instruction| instruction.address == 0x51de)
        .expect("je instruction should be present");
    assert_eq!(
        je.condition_summary.as_deref(),
        Some("je if r8 == 0x40 (known taken)")
    );
}

#[test]
fn native_32_bit_bitwise_immediates_fold_known_constants() {
    let mask_function = test_function(0x51f0, Some(16), "and32_known");
    let mask_facts = scan_function_cfg(
        NativeRef::Function(mask_function.address.unwrap(), 0),
        0x51f0,
        &[
            0xb8, 0xaf, 0x00, 0x00, 0x00, // mov eax,0xaf
            0x83, 0xe0, 0xf0, // and eax,-0x10
            0xf7, 0xc0, 0x0f, 0x00, 0x00, 0x00, // test eax,0xf
            0x74, 0x01, // je 0x5200
            0xc3, // ret
        ],
        &function_targets_by_start(std::slice::from_ref(&mask_function)),
        &[],
        &[],
    );
    let and = mask_facts
        .instructions
        .iter()
        .find(|instruction| instruction.address == 0x51f5)
        .expect("and instruction should be present");
    assert_eq!(
        and.constant_writes,
        vec![RegisterConstantWrite {
            register: "eax".to_string(),
            value: 0xa0,
            width_bits: Some(32),
        }]
    );
    let je = mask_facts
        .instructions
        .iter()
        .find(|instruction| instruction.address == 0x51fe)
        .expect("je instruction should be present");
    assert_eq!(
        je.condition_summary.as_deref(),
        Some("je if (eax & 0xf) == 0 (known taken)")
    );

    let xor_function = test_function(0x5210, Some(17), "xor32_known");
    let xor_facts = scan_function_cfg(
        NativeRef::Function(xor_function.address.unwrap(), 0),
        0x5210,
        &[
            0x41, 0xb8, 0xff, 0x00, 0x00, 0x00, // mov r8d,0xff
            0x41, 0x81, 0xf0, 0xff, 0x00, 0x00, 0x00, // xor r8d,0xff
            0x49, 0x83, 0xf8, 0x00, // cmp r8,0
            0x74, 0x01, // je 0x5222
            0xc3, // ret
        ],
        &function_targets_by_start(std::slice::from_ref(&xor_function)),
        &[],
        &[],
    );
    let xor = xor_facts
        .instructions
        .iter()
        .find(|instruction| instruction.address == 0x5216)
        .expect("xor instruction should be present");
    assert_eq!(
        xor.constant_writes,
        vec![RegisterConstantWrite {
            register: "r8d".to_string(),
            value: 0,
            width_bits: Some(32),
        }]
    );
    let je = xor_facts
        .instructions
        .iter()
        .find(|instruction| instruction.address == 0x5221)
        .expect("je instruction should be present");
    assert_eq!(
        je.condition_summary.as_deref(),
        Some("je if r8 == 0x0 (known taken)")
    );
}

#[test]
fn native_32_bit_inc_dec_registers_fold_known_constants() {
    let inc_function = test_function(0x5230, Some(13), "inc32_known");
    let inc_facts = scan_function_cfg(
        NativeRef::Function(inc_function.address.unwrap(), 0),
        0x5230,
        &[
            0xb8, 0x41, 0x00, 0x00, 0x00, // mov eax,0x41
            0xff, 0xc0, // inc eax
            0x48, 0x83, 0xf8, 0x42, // cmp rax,0x42
            0x74, 0x01, // je 0x523e
            0xc3, // ret
        ],
        &function_targets_by_start(std::slice::from_ref(&inc_function)),
        &[],
        &[],
    );
    let inc = inc_facts
        .instructions
        .iter()
        .find(|instruction| instruction.address == 0x5235)
        .expect("inc instruction should be present");
    assert!(inc
        .constant_sources
        .iter()
        .any(|constant| constant.register == "eax" && constant.value == 0x41));
    assert_eq!(
        inc.constant_writes,
        vec![RegisterConstantWrite {
            register: "eax".to_string(),
            value: 0x42,
            width_bits: Some(32),
        }]
    );
    let je = inc_facts
        .instructions
        .iter()
        .find(|instruction| instruction.address == 0x523b)
        .expect("je instruction should be present");
    assert_eq!(
        je.condition_summary.as_deref(),
        Some("je if rax == 0x42 (known taken)")
    );

    let dec_function = test_function(0x5240, Some(14), "dec32_known");
    let dec_facts = scan_function_cfg(
        NativeRef::Function(dec_function.address.unwrap(), 0),
        0x5240,
        &[
            0x41, 0xb8, 0x43, 0x00, 0x00, 0x00, // mov r8d,0x43
            0x41, 0xff, 0xc8, // dec r8d
            0x49, 0x83, 0xf8, 0x42, // cmp r8,0x42
            0x74, 0x01, // je 0x524f
            0xc3, // ret
        ],
        &function_targets_by_start(std::slice::from_ref(&dec_function)),
        &[],
        &[],
    );
    let dec = dec_facts
        .instructions
        .iter()
        .find(|instruction| instruction.address == 0x5246)
        .expect("dec instruction should be present");
    assert_eq!(
        dec.constant_writes,
        vec![RegisterConstantWrite {
            register: "r8d".to_string(),
            value: 0x42,
            width_bits: Some(32),
        }]
    );
    let je = dec_facts
        .instructions
        .iter()
        .find(|instruction| instruction.address == 0x524d)
        .expect("je instruction should be present");
    assert_eq!(
        je.condition_summary.as_deref(),
        Some("je if r8 == 0x42 (known taken)")
    );
}

#[test]
fn native_32_bit_shift_immediates_fold_known_constants() {
    let shl_function = test_function(0x5260, Some(14), "shl32_known");
    let shl_facts = scan_function_cfg(
        NativeRef::Function(shl_function.address.unwrap(), 0),
        0x5260,
        &[
            0xb8, 0x21, 0x00, 0x00, 0x00, // mov eax,0x21
            0xc1, 0xe0, 0x01, // shl eax,1
            0x48, 0x83, 0xf8, 0x42, // cmp rax,0x42
            0x74, 0x01, // je 0x526f
            0xc3, // ret
        ],
        &function_targets_by_start(std::slice::from_ref(&shl_function)),
        &[],
        &[],
    );
    let shl = shl_facts
        .instructions
        .iter()
        .find(|instruction| instruction.address == 0x5265)
        .expect("shl instruction should be present");
    assert_eq!(
        shl.constant_writes,
        vec![RegisterConstantWrite {
            register: "eax".to_string(),
            value: 0x42,
            width_bits: Some(32),
        }]
    );
    let je = shl_facts
        .instructions
        .iter()
        .find(|instruction| instruction.address == 0x526c)
        .expect("je instruction should be present");
    assert_eq!(
        je.condition_summary.as_deref(),
        Some("je if rax == 0x42 (known taken)")
    );

    let shr_function = test_function(0x5270, Some(15), "shr32_known");
    let shr_facts = scan_function_cfg(
        NativeRef::Function(shr_function.address.unwrap(), 0),
        0x5270,
        &[
            0x41, 0xb8, 0x80, 0x00, 0x00, 0x00, // mov r8d,0x80
            0x41, 0xc1, 0xe8, 0x01, // shr r8d,1
            0x49, 0x83, 0xf8, 0x40, // cmp r8,0x40
            0x74, 0x01, // je 0x5280
            0xc3, // ret
        ],
        &function_targets_by_start(std::slice::from_ref(&shr_function)),
        &[],
        &[],
    );
    let shr = shr_facts
        .instructions
        .iter()
        .find(|instruction| instruction.address == 0x5276)
        .expect("shr instruction should be present");
    assert_eq!(
        shr.constant_writes,
        vec![RegisterConstantWrite {
            register: "r8d".to_string(),
            value: 0x40,
            width_bits: Some(32),
        }]
    );
    let je = shr_facts
        .instructions
        .iter()
        .find(|instruction| instruction.address == 0x527e)
        .expect("je instruction should be present");
    assert_eq!(
        je.condition_summary.as_deref(),
        Some("je if r8 == 0x40 (known taken)")
    );
}

#[test]
fn native_32_bit_sar_immediates_fold_signed_constants() {
    let function = test_function(0x5290, Some(14), "sar32_known");
    let facts = scan_function_cfg(
        NativeRef::Function(function.address.unwrap(), 0),
        0x5290,
        &[
            0xb8, 0xfc, 0xff, 0xff, 0xff, // mov eax,0xfffffffc
            0xc1, 0xf8, 0x01, // sar eax,1
            0x85, 0xc0, // test eax,eax
            0x78, 0x01, // js 0x529d
            0xc3, // ret
        ],
        &function_targets_by_start(std::slice::from_ref(&function)),
        &[],
        &[],
    );
    let sar = facts
        .instructions
        .iter()
        .find(|instruction| instruction.address == 0x5295)
        .expect("sar instruction should be present");
    assert_eq!(
        sar.constant_writes,
        vec![RegisterConstantWrite {
            register: "eax".to_string(),
            value: 0xffff_fffe,
            width_bits: Some(32),
        }]
    );
    let js = facts
        .instructions
        .iter()
        .find(|instruction| instruction.address == 0x529a)
        .expect("js instruction should be present");
    assert_eq!(
        js.condition_summary.as_deref(),
        Some("js if eax < 0 (known taken)")
    );
}

#[test]
fn native_32_bit_not_neg_registers_fold_known_constants() {
    let not_function = test_function(0x52a0, Some(14), "not32_known");
    let not_facts = scan_function_cfg(
        NativeRef::Function(not_function.address.unwrap(), 0),
        0x52a0,
        &[
            0xb8, 0xf0, 0xff, 0xff, 0xff, // mov eax,0xfffffff0
            0xf7, 0xd0, // not eax
            0xf7, 0xc0, 0x0f, 0x00, 0x00, 0x00, // test eax,0xf
            0x75, 0x01, // jne 0x52af
            0xc3, // ret
        ],
        &function_targets_by_start(std::slice::from_ref(&not_function)),
        &[],
        &[],
    );
    let not = not_facts
        .instructions
        .iter()
        .find(|instruction| instruction.address == 0x52a5)
        .expect("not instruction should be present");
    assert_eq!(
        not.constant_writes,
        vec![RegisterConstantWrite {
            register: "eax".to_string(),
            value: 0x0f,
            width_bits: Some(32),
        }]
    );
    let jne = not_facts
        .instructions
        .iter()
        .find(|instruction| instruction.address == 0x52ad)
        .expect("jne instruction should be present");
    assert_eq!(
        jne.condition_summary.as_deref(),
        Some("jne if (eax & 0xf) != 0 (known taken)")
    );

    let neg_function = test_function(0x52b0, Some(15), "neg32_known");
    let neg_facts = scan_function_cfg(
        NativeRef::Function(neg_function.address.unwrap(), 0),
        0x52b0,
        &[
            0x41, 0xb8, 0x05, 0x00, 0x00, 0x00, // mov r8d,5
            0x41, 0xf7, 0xd8, // neg r8d
            0x41, 0x83, 0xf8, 0xfb, // cmp r8d,-5
            0x74, 0x01, // je 0x52bf
            0xc3, // ret
        ],
        &function_targets_by_start(std::slice::from_ref(&neg_function)),
        &[],
        &[],
    );
    let neg = neg_facts
        .instructions
        .iter()
        .find(|instruction| instruction.address == 0x52b6)
        .expect("neg instruction should be present");
    assert_eq!(
        neg.constant_writes,
        vec![RegisterConstantWrite {
            register: "r8d".to_string(),
            value: 0xffff_fffb,
            width_bits: Some(32),
        }]
    );
    let je = neg_facts
        .instructions
        .iter()
        .find(|instruction| instruction.address == 0x52bd)
        .expect("je instruction should be present");
    assert_eq!(
        je.condition_summary.as_deref(),
        Some("je if r8d == 0xfffffffffffffffb (known taken)")
    );
}

#[test]
fn native_32_bit_imul_immediates_fold_known_constants() {
    let function = test_function(0x52c0, Some(17), "imul32_known");
    let facts = scan_function_cfg(
        NativeRef::Function(function.address.unwrap(), 0),
        0x52c0,
        &[
            0x41, 0xb9, 0x07, 0x00, 0x00, 0x00, // mov r9d,7
            0x45, 0x6b, 0xc1, 0xfb, // imul r8d,r9d,-5
            0x41, 0x83, 0xf8, 0xdd, // cmp r8d,-35
            0x74, 0x01, // je 0x52d0
            0xc3, // ret
        ],
        &function_targets_by_start(std::slice::from_ref(&function)),
        &[],
        &[],
    );
    let imul = facts
        .instructions
        .iter()
        .find(|instruction| instruction.address == 0x52c6)
        .expect("imul instruction should be present");
    assert_eq!(imul.operands_text, "r8d,r9d,0xfffffffffffffffb");
    assert_eq!(
        imul.constant_writes,
        vec![RegisterConstantWrite {
            register: "r8d".to_string(),
            value: 0xffff_ffdd,
            width_bits: Some(32),
        }]
    );
    let cmp = facts
        .instructions
        .iter()
        .find(|instruction| instruction.address == 0x52ca)
        .expect("cmp instruction should be present");
    assert!(cmp.constant_sources.iter().any(|source| {
        source.register == "r8d"
            && source.value == 0xffff_ffdd
            && source.source == imul.address
    }));
    let je = facts
        .instructions
        .iter()
        .find(|instruction| instruction.address == 0x52ce)
        .expect("je instruction should be present");
    assert_eq!(
        je.condition_summary.as_deref(),
        Some("je if r8d == 0xffffffffffffffdd (known taken)")
    );
}

#[test]
fn native_32_bit_cmovcc_registers_select_known_constants() {
    let taken_function = test_function(0x52d0, Some(20), "cmov32_taken");
    let taken_facts = scan_function_cfg(
        NativeRef::Function(taken_function.address.unwrap(), 0),
        0x52d0,
        &[
            0xb8, 0x11, 0x00, 0x00, 0x00, // mov eax,0x11
            0xb9, 0x22, 0x00, 0x00, 0x00, // mov ecx,0x22
            0x83, 0xf8, 0x11, // cmp eax,0x11
            0x0f, 0x44, 0xc1, // cmove eax,ecx
            0x83, 0xf8, 0x22, // cmp eax,0x22
            0x74, 0x00, // je 0x52e4
        ],
        &function_targets_by_start(std::slice::from_ref(&taken_function)),
        &[],
        &[],
    );
    let cmove = taken_facts
        .instructions
        .iter()
        .find(|instruction| instruction.address == 0x52dd)
        .expect("cmove instruction should be present");
    assert_eq!(
        cmove.constant_writes,
        vec![RegisterConstantWrite {
            register: "eax".to_string(),
            value: 0x22,
            width_bits: Some(32),
        }]
    );
    let je = taken_facts
        .instructions
        .iter()
        .find(|instruction| instruction.address == 0x52e3)
        .expect("je instruction should be present");
    assert_eq!(
        je.condition_summary.as_deref(),
        Some("je if eax == 0x22 (known taken)")
    );

    let not_taken_function = test_function(0x52f0, Some(21), "cmov32_not_taken");
    let not_taken_facts = scan_function_cfg(
        NativeRef::Function(not_taken_function.address.unwrap(), 0),
        0x52f0,
        &[
            0x41, 0xb8, 0x11, 0x00, 0x00, 0x00, // mov r8d,0x11
            0x41, 0xb9, 0x22, 0x00, 0x00, 0x00, // mov r9d,0x22
            0x41, 0x83, 0xf8, 0x33, // cmp r8d,0x33
            0x45, 0x0f, 0x44, 0xc1, // cmove r8d,r9d
            0x41, 0x83, 0xf8, 0x11, // cmp r8d,0x11
            0x74, 0x00, // je 0x5305
        ],
        &function_targets_by_start(std::slice::from_ref(&not_taken_function)),
        &[],
        &[],
    );
    let cmove = not_taken_facts
        .instructions
        .iter()
        .find(|instruction| instruction.address == 0x5300)
        .expect("cmove instruction should be present");
    assert_eq!(
        cmove.constant_writes,
        vec![RegisterConstantWrite {
            register: "r8d".to_string(),
            value: 0x11,
            width_bits: Some(32),
        }]
    );
    let je = not_taken_facts
        .instructions
        .iter()
        .find(|instruction| instruction.address == 0x5308)
        .expect("je instruction should be present");
    assert_eq!(
        je.condition_summary.as_deref(),
        Some("je if r8d == 0x11 (known taken)")
    );
}

#[test]
fn native_setcc_and_movzx_fold_known_boolean_constants() {
    let true_function = test_function(0x5310, Some(18), "setcc_true");
    let true_facts = scan_function_cfg(
        NativeRef::Function(true_function.address.unwrap(), 0),
        0x5310,
        &[
            0xb8, 0x2a, 0x00, 0x00, 0x00, // mov eax,0x2a
            0x83, 0xf8, 0x2a, // cmp eax,0x2a
            0x0f, 0x94, 0xc0, // sete al
            0x0f, 0xb6, 0xc0, // movzx eax,al
            0x83, 0xf8, 0x01, // cmp eax,1
            0x74, 0x00, // je 0x5322
        ],
        &function_targets_by_start(std::slice::from_ref(&true_function)),
        &[],
        &[],
    );
    let sete = true_facts
        .instructions
        .iter()
        .find(|instruction| instruction.address == 0x5318)
        .expect("sete instruction should be present");
    assert_eq!(
        sete.constant_writes,
        vec![RegisterConstantWrite {
            register: "al".to_string(),
            value: 1,
            width_bits: Some(8),
        }]
    );
    let movzx = true_facts
        .instructions
        .iter()
        .find(|instruction| instruction.address == 0x531b)
        .expect("movzx instruction should be present");
    assert_eq!(
        movzx.constant_writes,
        vec![RegisterConstantWrite {
            register: "eax".to_string(),
            value: 1,
            width_bits: Some(32),
        }]
    );
    let je = true_facts
        .instructions
        .iter()
        .find(|instruction| instruction.address == 0x5321)
        .expect("je instruction should be present");
    assert_eq!(
        je.condition_summary.as_deref(),
        Some("je if eax == 0x1 (known taken)")
    );

    let false_function = test_function(0x5330, Some(24), "setcc_false");
    let false_facts = scan_function_cfg(
        NativeRef::Function(false_function.address.unwrap(), 0),
        0x5330,
        &[
            0x41, 0xb8, 0x2a, 0x00, 0x00, 0x00, // mov r8d,0x2a
            0x41, 0x83, 0xf8, 0x2a, // cmp r8d,0x2a
            0x41, 0x0f, 0x95, 0xc0, // setne r8b
            0x45, 0x0f, 0xb6, 0xc8, // movzx r9d,r8b
            0x41, 0x83, 0xf9, 0x00, // cmp r9d,0
            0x74, 0x00, // je 0x5348
        ],
        &function_targets_by_start(std::slice::from_ref(&false_function)),
        &[],
        &[],
    );
    let setne = false_facts
        .instructions
        .iter()
        .find(|instruction| instruction.address == 0x533a)
        .expect("setne instruction should be present");
    assert_eq!(
        setne.constant_writes,
        vec![RegisterConstantWrite {
            register: "r8b".to_string(),
            value: 0,
            width_bits: Some(8),
        }]
    );
    let movzx = false_facts
        .instructions
        .iter()
        .find(|instruction| instruction.address == 0x533e)
        .expect("movzx instruction should be present");
    assert_eq!(
        movzx.constant_writes,
        vec![RegisterConstantWrite {
            register: "r9d".to_string(),
            value: 0,
            width_bits: Some(32),
        }]
    );
    let je = false_facts
        .instructions
        .iter()
        .find(|instruction| instruction.address == 0x5346)
        .expect("je instruction should be present");
    assert_eq!(
        je.condition_summary.as_deref(),
        Some("je if r9d == 0x0 (known taken)")
    );
}

#[test]
fn native_movsx_r32_rm8_sign_extends_known_constants() {
    let function = test_function(0x5350, Some(23), "movsx8_known");
    let facts = scan_function_cfg(
        NativeRef::Function(function.address.unwrap(), 0),
        0x5350,
        &[
            0xb8, 0x80, 0x00, 0x00, 0x00, // mov eax,0x80
            0x0f, 0xbe, 0xc8, // movsx ecx,al
            0x83, 0xf9, 0x80, // cmp ecx,-128
            0x74, 0x01, // je 0x535e
            0x41, 0xb8, 0x7f, 0x00, 0x00, 0x00, // mov r8d,0x7f
            0x45, 0x0f, 0xbe, 0xc8, // movsx r9d,r8b
        ],
        &function_targets_by_start(std::slice::from_ref(&function)),
        &[],
        &[],
    );
    let movsx_negative = facts
        .instructions
        .iter()
        .find(|instruction| instruction.address == 0x5355)
        .expect("negative movsx instruction should be present");
    assert_eq!(
        movsx_negative.constant_writes,
        vec![RegisterConstantWrite {
            register: "ecx".to_string(),
            value: 0xffff_ff80,
            width_bits: Some(32),
        }]
    );
    let je = facts
        .instructions
        .iter()
        .find(|instruction| instruction.address == 0x535b)
        .expect("je instruction should be present");
    assert_eq!(
        je.condition_summary.as_deref(),
        Some("je if ecx == 0xffffffffffffff80 (known taken)")
    );
    let movsx_positive = facts
        .instructions
        .iter()
        .find(|instruction| instruction.address == 0x5363)
        .expect("positive movsx instruction should be present");
    assert_eq!(
        movsx_positive.constant_writes,
        vec![RegisterConstantWrite {
            register: "r9d".to_string(),
            value: 0x7f,
            width_bits: Some(32),
        }]
    );
}

#[test]
fn native_movsxd_r64_rm32_sign_extends_known_constants() {
    let function = test_function(0x5370, Some(20), "movsxd_known");
    let facts = scan_function_cfg(
        NativeRef::Function(function.address.unwrap(), 0),
        0x5370,
        &[
            0xb8, 0x80, 0xff, 0xff, 0xff, // mov eax,0xffffff80
            0x48, 0x63, 0xc0, // movsxd rax,eax
            0x48, 0x83, 0xf8, 0x80, // cmp rax,-128
            0x74, 0x01, // je 0x537f
            0x41, 0xb8, 0x7f, 0x00, 0x00, 0x00, // mov r8d,0x7f
            0x4d, 0x63, 0xc8, // movsxd r9,r8d
        ],
        &function_targets_by_start(std::slice::from_ref(&function)),
        &[],
        &[],
    );
    let negative = facts
        .instructions
        .iter()
        .find(|instruction| instruction.address == 0x5375)
        .expect("negative movsxd instruction should be present");
    assert_eq!(
        negative.constant_writes,
        vec![RegisterConstantWrite {
            register: "rax".to_string(),
            value: 0xffff_ffff_ffff_ff80,
            width_bits: Some(64),
        }]
    );
    let je = facts
        .instructions
        .iter()
        .find(|instruction| instruction.address == 0x537c)
        .expect("je instruction should be present");
    assert_eq!(
        je.condition_summary.as_deref(),
        Some("je if rax == 0xffffffffffffff80 (known taken)")
    );
    let positive = facts
        .instructions
        .iter()
        .find(|instruction| instruction.address == 0x5384)
        .expect("positive movsxd instruction should be present");
    assert_eq!(
        positive.constant_writes,
        vec![RegisterConstantWrite {
            register: "r9".to_string(),
            value: 0x7f,
            width_bits: Some(64),
        }]
    );
}

#[test]
fn native_sign_flag_branches_summarize_known_test_outcomes() {
    let negative_function =
        test_function(0x5180, Some(17), "known_negative_sign");
    let negative_facts = scan_function_cfg(
        NativeRef::Function(negative_function.address.unwrap(), 0),
        0x5180,
        &[
            0x48, 0xb8, 0xff, 0xff, 0xff, 0xff, 0xff, 0xff, 0xff, 0xff, // mov rax,-1
            0x48, 0x85, 0xc0, // test rax,rax
            0x78, 0x01, // js 0x5190
            0x90, // nop
            0xc3, // ret
        ],
        &function_targets_by_start(std::slice::from_ref(&negative_function)),
        &[],
        &[],
    );
    let js = negative_facts
        .instructions
        .iter()
        .find(|instruction| instruction.address == 0x518d)
        .expect("js instruction should be present");
    assert_eq!(
        js.condition_summary.as_deref(),
        Some("js if rax < 0 (known taken)")
    );
    let negative_entry = negative_facts
        .basic_blocks
        .iter()
        .find(|block| block.address == 0x5180)
        .expect("entry block should be present");
    let negative_target = negative_facts
        .basic_blocks
        .iter()
        .find(|block| block.address == 0x5190)
        .expect("branch target block should be present");
    let negative_branch = negative_facts
        .cfg_edges
        .iter()
        .find(|edge| {
            edge.edge_kind == "branch"
                && edge.source == negative_entry.address
                && edge.target == negative_target.address
        })
        .expect("known sign branch edge should be present");
    assert_eq!(
        negative_branch.condition_summary.as_deref(),
        Some("js if rax < 0 (known taken)")
    );
    assert_eq!(negative_branch.known_outcome.as_deref(), Some("taken"));

    let non_negative_function =
        test_function(0x51a0, Some(15), "known_non_negative_sign");
    let non_negative_facts = scan_function_cfg(
        NativeRef::Function(non_negative_function.address.unwrap(), 0),
        0x51a0,
        &[
            0x48, 0xb8, 0x2a, 0x00, 0x00, 0x00, 0x00, 0x00, 0x00, 0x00, // mov rax,0x2a
            0x48, 0x85, 0xc0, // test rax,rax
            0x79, 0x00, // jns 0x51af
        ],
        &function_targets_by_start(std::slice::from_ref(&non_negative_function)),
        &[],
        &[],
    );
    let jns = non_negative_facts
        .instructions
        .iter()
        .find(|instruction| instruction.address == 0x51ad)
        .expect("jns instruction should be present");
    assert_eq!(
        jns.condition_summary.as_deref(),
        Some("jns if rax >= 0 (known taken)")
    );
}

#[test]
fn native_test_bitmask_branches_summarize_known_outcomes() {
    let mask_function = test_function(0x51c0, Some(22), "known_bitmask");
    let mask_facts = scan_function_cfg(
        NativeRef::Function(mask_function.address.unwrap(), 0),
        0x51c0,
        &[
            0x48, 0xb8, 0x08, 0x00, 0x00, 0x00, 0x00, 0x00, 0x00, 0x00, // mov rax,0x8
            0x48, 0xf7, 0xc0, 0x08, 0x00, 0x00, 0x00, // test rax,0x8
            0x74, 0x01, // je 0x51d4
            0x90, // nop
            0xc3, // ret
        ],
        &function_targets_by_start(std::slice::from_ref(&mask_function)),
        &[],
        &[],
    );
    let je = mask_facts
        .instructions
        .iter()
        .find(|instruction| instruction.address == 0x51d1)
        .expect("je instruction should be present");
    assert_eq!(
        je.condition_summary.as_deref(),
        Some("je if (rax & 0x8) == 0 (known not taken)")
    );
    let entry = mask_facts
        .basic_blocks
        .iter()
        .find(|block| block.address == 0x51c0)
        .expect("entry block should be present");
    let fallthrough = mask_facts
        .basic_blocks
        .iter()
        .find(|block| block.address == 0x51d3)
        .expect("fallthrough block should be present");
    let fallthrough_edge = mask_facts
        .cfg_edges
        .iter()
        .find(|edge| {
            edge.edge_kind == "fallthrough"
                && edge.source == entry.address
                && edge.target == fallthrough.address
        })
        .expect("known bitmask fallthrough edge should be present");
    assert_eq!(fallthrough_edge.known_outcome.as_deref(), Some("not_taken"));

    let parity_function = test_function(0x51e0, Some(22), "known_parity");
    let parity_facts = scan_function_cfg(
        NativeRef::Function(parity_function.address.unwrap(), 0),
        0x51e0,
        &[
            0x48, 0xb8, 0x03, 0x00, 0x00, 0x00, 0x00, 0x00, 0x00, 0x00, // mov rax,0x3
            0x48, 0xf7, 0xc0, 0x03, 0x00, 0x00, 0x00, // test rax,0x3
            0x7a, 0x01, // jp 0x51f4
            0x90, // nop
            0xc3, // ret
        ],
        &function_targets_by_start(std::slice::from_ref(&parity_function)),
        &[],
        &[],
    );
    let jp = parity_facts
        .instructions
        .iter()
        .find(|instruction| instruction.address == 0x51f1)
        .expect("jp instruction should be present");
    assert_eq!(
        jp.condition_summary.as_deref(),
        Some("jp if parity(rax & 0x3) is even (known taken)")
    );
}

#[test]
fn native_32_bit_test_immediate_branches_summarize_known_outcomes() {
    let mask_function = test_function(0x5240, Some(14), "test32_bitmask");
    let mask_facts = scan_function_cfg(
        NativeRef::Function(mask_function.address.unwrap(), 0),
        0x5240,
        &[
            0xb8, 0x08, 0x00, 0x00, 0x00, // mov eax,0x8
            0xf7, 0xc0, 0x08, 0x00, 0x00, 0x00, // test eax,0x8
            0x74, 0x01, // je 0x524f
            0xc3, // ret
        ],
        &function_targets_by_start(std::slice::from_ref(&mask_function)),
        &[],
        &[],
    );
    let test = mask_facts
        .instructions
        .iter()
        .find(|instruction| instruction.address == 0x5245)
        .expect("test instruction should be present");
    assert_eq!(test.operands_text, "eax,0x8");
    let je = mask_facts
        .instructions
        .iter()
        .find(|instruction| instruction.address == 0x524b)
        .expect("je instruction should be present");
    assert_eq!(
        je.condition_summary.as_deref(),
        Some("je if (eax & 0x8) == 0 (known not taken)")
    );

    let parity_function = test_function(0x5260, Some(14), "test32_parity");
    let parity_facts = scan_function_cfg(
        NativeRef::Function(parity_function.address.unwrap(), 0),
        0x5260,
        &[
            0xb8, 0x03, 0x00, 0x00, 0x00, // mov eax,0x3
            0xf7, 0xc0, 0x03, 0x00, 0x00, 0x00, // test eax,0x3
            0x7a, 0x01, // jp 0x526f
            0xc3, // ret
        ],
        &function_targets_by_start(std::slice::from_ref(&parity_function)),
        &[],
        &[],
    );
    let jp = parity_facts
        .instructions
        .iter()
        .find(|instruction| instruction.address == 0x526b)
        .expect("jp instruction should be present");
    assert_eq!(
        jp.condition_summary.as_deref(),
        Some("jp if parity(eax & 0x3) is even (known taken)")
    );
}

#[test]
fn native_cfg_edges_preserve_condition_summary_and_known_outcome() {
    let taken_function = test_function(0x5200, Some(18), "cfg_taken");
    let taken_facts = scan_function_cfg(
        NativeRef::Function(taken_function.address.unwrap(), 0),
        0x5200,
        &[
            0x48, 0xb8, 0x2a, 0x00, 0x00, 0x00, 0x00, 0x00, 0x00, 0x00, // mov rax,0x2a
            0x48, 0x83, 0xf8, 0x7f, // cmp rax,0x7f
            0x75, 0x01, // jne 0x5211
            0x90, // nop
            0xc3, // ret
        ],
        &function_targets_by_start(std::slice::from_ref(&taken_function)),
        &[],
        &[],
    );
    let taken_entry = taken_facts
        .basic_blocks
        .iter()
        .find(|block| block.address == 0x5200)
        .expect("entry block should be present");
    let taken_target = taken_facts
        .basic_blocks
        .iter()
        .find(|block| block.address == 0x5211)
        .expect("branch target block should be present");
    let taken_branch = taken_facts
        .cfg_edges
        .iter()
        .find(|edge| {
            edge.edge_kind == "branch"
                && edge.source == taken_entry.address
                && edge.target == taken_target.address
        })
        .expect("taken branch edge should be present");
    assert_eq!(
        taken_branch.condition_summary.as_deref(),
        Some("jne if rax != 0x7f (known taken)")
    );
    assert_eq!(taken_branch.known_outcome.as_deref(), Some("taken"));

    let not_taken_function = test_function(0x5220, Some(18), "cfg_not_taken");
    let not_taken_facts = scan_function_cfg(
        NativeRef::Function(not_taken_function.address.unwrap(), 0),
        0x5220,
        &[
            0x48, 0xb8, 0x2a, 0x00, 0x00, 0x00, 0x00, 0x00, 0x00, 0x00, // mov rax,0x2a
            0x48, 0x83, 0xf8, 0x2a, // cmp rax,0x2a
            0x75, 0x01, // jne 0x5231
            0x90, // nop
            0xc3, // ret
        ],
        &function_targets_by_start(std::slice::from_ref(&not_taken_function)),
        &[],
        &[],
    );
    let not_taken_entry = not_taken_facts
        .basic_blocks
        .iter()
        .find(|block| block.address == 0x5220)
        .expect("entry block should be present");
    let not_taken_fallthrough = not_taken_facts
        .basic_blocks
        .iter()
        .find(|block| block.address == 0x5230)
        .expect("fallthrough block should be present");
    let fallthrough_edge = not_taken_facts
        .cfg_edges
        .iter()
        .find(|edge| {
            edge.edge_kind == "fallthrough"
                && edge.source == not_taken_entry.address
                && edge.target == not_taken_fallthrough.address
        })
        .expect("known not-taken fallthrough edge should be present");
    assert_eq!(
        fallthrough_edge.condition_summary.as_deref(),
        Some("jne if rax != 0x2a (known not taken)")
    );
    assert_eq!(fallthrough_edge.known_outcome.as_deref(), Some("not_taken"));
}

#[test]
fn native_cfg_scanner_closes_indirect_jump_without_static_target_xref() {
    let function = test_function(0x6000, Some(4), "dispatch");
    let facts = scan_function_cfg(
        NativeRef::Function(function.address.unwrap(), 0),
        0x6000,
        &[
            0x90, // nop
            0xff, 0xe0, // jmp rax
            0xc3, // ret, unreachable from the closed indirect jump block
        ],
        &function_targets_by_start(std::slice::from_ref(&function)),
        &[],
        &[],
    );

    assert_eq!(facts.basic_blocks.len(), 2);
    assert_eq!(facts.basic_blocks[0].address, 0x6000);
    assert_eq!(facts.basic_blocks[0].end_address, 0x6003);
    assert_eq!(facts.basic_blocks[0].terminator, "jmp");
    assert!(facts.cfg_edges.is_empty());
    assert!(facts.xrefs.iter().all(|xref| xref.address != Some(0x6001)));
}

#[test]
fn native_indirect_call_register_uses_known_constant_target() {
    let caller = test_function(0x7400, Some(12), "caller");
    let callee = test_function(0x7500, Some(1), "callee");
    let functions = vec![caller.clone(), callee.clone()];
    let facts = scan_function_cfg(
        NativeRef::Function(caller.address.unwrap(), 0),
        0x7400,
        &[
            0x48, 0xb8, 0x00, 0x75, 0x00, 0x00, 0x00, 0x00, 0x00, 0x00, // mov rax,0x7500
            0xff, 0xd0, // call rax
        ],
        &function_targets_by_start(&functions),
        &[],
        &[],
    );
    let call = facts
        .instructions
        .iter()
        .find(|instruction| instruction.address == 0x740a)
        .expect("indirect call should be indexed");
    assert_eq!(call.target, Some(0x7500));
    assert!(call.constant_sources.iter().any(|source| {
        source.register == "rax" && source.value == 0x7500 && source.source != call.address
    }));
    assert!(facts.xrefs.iter().any(|xref| {
        xref.source == NativeRef::Function(caller.address.unwrap(), 0)
            && xref.target == NativeRef::Function(callee.address.unwrap(), 1)
            && xref.relation == XrefRelation::Calls
            && xref.address == Some(0x740a)
    }));
    assert_eq!(facts.function_call_count, 1);
}

#[test]
fn native_indirect_jump_register_uses_known_constant_block_target() {
    let function = test_function(0x7600, Some(12), "dispatch_known");
    let facts = scan_function_cfg(
        NativeRef::Function(function.address.unwrap(), 0),
        0x7600,
        &[
            0x41, 0xb8, 0x0a, 0x76, 0x00, 0x00, // mov r8d,0x760a
            0x41, 0xff, 0xe0, // jmp r8
            0x90, // nop, unreachable
            0xc3, // ret target
        ],
        &function_targets_by_start(std::slice::from_ref(&function)),
        &[],
        &[],
    );
    let jump = facts
        .instructions
        .iter()
        .find(|instruction| instruction.address == 0x7606)
        .expect("indirect jump should be indexed");
    assert_eq!(jump.target, Some(0x760a));
    let target_block = facts
        .basic_blocks
        .iter()
        .find(|block| block.address == 0x760a)
        .expect("known jump target block should be present");
    assert!(facts.cfg_edges.iter().any(|edge| {
        edge.edge_kind == "branch"
            && edge.source == jump.block
            && edge.target == target_block.address
    }));
    assert!(facts.xrefs.iter().any(|xref| {
        xref.source == NativeRef::Instruction(jump.address)
            && xref.target == NativeRef::Block(target_block.address)
            && xref.relation == XrefRelation::References
            && xref.address == Some(0x7606)
    }));
}

#[test]
fn native_register_reads_reference_latest_local_writer() {
    let function = test_function(0x7000, Some(7), "regflow");
    let facts = scan_function_cfg(
        NativeRef::Function(function.address.unwrap(), 0),
        0x7000,
        &[
            0x48, 0x89, 0xc8, // mov rax,rcx
            0x48, 0x89, 0xc2, // mov rdx,rax
            0xc3, // ret
        ],
        &function_targets_by_start(std::slice::from_ref(&function)),
        &[],
        &[],
    );

    let writer = facts
        .instructions
        .iter()
        .find(|instruction| instruction.address == 0x7000)
        .expect("writer instruction should be present");
    let reader = facts
        .instructions
        .iter()
        .find(|instruction| instruction.address == 0x7003)
        .expect("reader instruction should be present");
    assert!(reader
        .register_sources
        .iter()
        .any(|source| { source.register == "rax" && source.source == writer.address }));
    assert!(facts.xrefs.iter().any(|xref| {
        xref.source == NativeRef::Instruction(reader.address)
            && xref.target == NativeRef::Instruction(writer.address)
            && xref.relation == XrefRelation::References
            && xref.address == Some(0x7003)
    }));
}

#[test]
fn native_zero_extended_register_writes_reference_alias_readers() {
    let function = test_function(0x7100, Some(9), "regalias");
    let facts = scan_function_cfg(
        NativeRef::Function(function.address.unwrap(), 0),
        0x7100,
        &[
            0xb8, 0x2a, 0x00, 0x00, 0x00, // mov eax,0x2a
            0x48, 0x89, 0xc2, // mov rdx,rax
            0xc3, // ret
        ],
        &function_targets_by_start(std::slice::from_ref(&function)),
        &[],
        &[],
    );

    let writer = facts
        .instructions
        .iter()
        .find(|instruction| instruction.address == 0x7100)
        .expect("32-bit writer instruction should be present");
    let reader = facts
        .instructions
        .iter()
        .find(|instruction| instruction.address == 0x7105)
        .expect("64-bit reader instruction should be present");
    assert!(reader
        .register_sources
        .iter()
        .any(|source| { source.register == "rax" && source.source == writer.address }));
    assert!(facts.xrefs.iter().any(|xref| {
        xref.source == NativeRef::Instruction(reader.address)
            && xref.target == NativeRef::Instruction(writer.address)
            && xref.relation == XrefRelation::References
            && xref.address == Some(0x7105)
    }));
}

#[test]
fn native_constant_reads_reference_latest_local_constant_writer() {
    let function = test_function(0x7200, Some(17), "constflow");
    let facts = scan_function_cfg(
        NativeRef::Function(function.address.unwrap(), 0),
        0x7200,
        &[
            0x48, 0xb8, 0x2a, 0x00, 0x00, 0x00, 0x00, 0x00, 0x00, 0x00, // mov rax,0x2a
            0x48, 0x89, 0xc2, // mov rdx,rax
            0x48, 0x31, 0xc0, // xor rax,rax
            0xc3, // ret
        ],
        &function_targets_by_start(std::slice::from_ref(&function)),
        &[],
        &[],
    );

    let writer = facts
        .instructions
        .iter()
        .find(|instruction| instruction.address == 0x7200)
        .expect("constant writer instruction should be present");
    let reader = facts
        .instructions
        .iter()
        .find(|instruction| instruction.address == 0x720a)
        .expect("constant reader instruction should be present");
    assert!(reader.constant_sources.iter().any(|source| {
        source.register == "rax" && source.value == 0x2a && source.source == writer.address
    }));
    assert!(facts.xrefs.iter().any(|xref| {
        xref.source == NativeRef::Instruction(reader.address)
            && xref.target == NativeRef::Instruction(writer.address)
            && xref.relation == XrefRelation::References
            && xref.address == Some(0x720a)
    }));
    assert_eq!(
        reader.constant_writes,
        vec![RegisterConstantWrite {
            register: "rdx".to_string(),
            value: 0x2a,
            width_bits: Some(64),
        }]
    );

    let copy_chain = test_function(0x7300, Some(17), "copy_chain");
    let copy_facts = scan_function_cfg(
        NativeRef::Function(copy_chain.address.unwrap(), 0),
        0x7300,
        &[
            0x48, 0xb8, 0x2a, 0x00, 0x00, 0x00, 0x00, 0x00, 0x00, 0x00, // mov rax,0x2a
            0x48, 0x89, 0xc2, // mov rdx,rax
            0x48, 0x89, 0xd1, // mov rcx,rdx
            0xc3, // ret
        ],
        &function_targets_by_start(std::slice::from_ref(&copy_chain)),
        &[],
        &[],
    );
    let second_copy = copy_facts
        .instructions
        .iter()
        .find(|instruction| instruction.address == 0x730d)
        .expect("second copy should be present");
    assert_eq!(
        second_copy.constant_writes,
        vec![RegisterConstantWrite {
            register: "rcx".to_string(),
            value: 0x2a,
            width_bits: Some(64),
        }]
    );

    let zero_writer = facts
        .instructions
        .iter()
        .find(|instruction| instruction.address == 0x720d)
        .expect("zero idiom instruction should be present");
    assert_eq!(
        zero_writer.constant_writes,
        vec![RegisterConstantWrite {
            register: "rax".to_string(),
            value: 0,
            width_bits: Some(64),
        }]
    );
}

#[test]
fn native_instruction_calls_create_function_xrefs_and_call_counts() {
    let caller = test_function(0x1000, Some(6), "caller");
    let callee = test_function(0x1005, Some(1), "callee");
    let functions = vec![caller.clone(), callee];
    let facts = scan_function_cfg(
        NativeRef::Function(caller.address.unwrap(), 0),
        0x1000,
        &[0xe8, 0x00, 0x00, 0x00, 0x00, 0xc3],
        &function_targets_by_start(&functions),
        &[],
        &[],
    );

    assert!(facts.xrefs.iter().any(|xref| {
        xref.source == NativeRef::Function(0x1000, 0)
            && xref.target == NativeRef::Function(0x1005, 1)
            && xref.relation == XrefRelation::Calls
            && xref.address == Some(0x1000)
    }));
    assert_eq!(facts.function_call_count, 1);
}

#[test]
fn native_cfg_collection_merges_instruction_xrefs_and_call_counts() {
    let functions = vec![
        test_function(0x1000, Some(6), "caller"),
        test_function(0x1005, Some(1), "callee"),
    ];
    let sections = vec![text_section(0x1000, vec![0xe8, 0x00, 0x00, 0x00, 0x00, 0xc3])];

    let facts = collect_native_cfg(&sections, &functions, &[], &[]);

    assert!(facts.xrefs.iter().any(|xref| {
        xref.source == NativeRef::Function(0x1000, 0)
            && xref.target == NativeRef::Function(0x1005, 1)
            && xref.relation == XrefRelation::Calls
    }));
    assert_eq!(facts.function_call_counts[0], 1);
}

#[test]
fn native_cfg_collection_creates_rip_relative_string_xrefs() {
    let functions = vec![test_function(0x1000, Some(8), "loader")];
    let strings = vec![ParsedString {
        value: "admin".to_string(),
        address: Some(0x1007),
        offset: 0x100,
        length: 5,
        encoding: "ascii".to_string(),
    }];
    let sections = vec![text_section(0x1000, vec![0x48, 0x8d, 0x05, 0x00, 0x00, 0x00, 0x00, 0xc3])];

    let facts = collect_native_cfg(&sections, &functions, &strings, &[]);

    assert!(facts.instructions.iter().any(|instruction| {
        instruction.mnemonic == "lea" && instruction.data_target == Some(0x1007)
    }));
    let lea = facts
        .instructions
        .iter()
        .find(|instruction| instruction.mnemonic == "lea")
        .expect("lea instruction should be indexed");
    assert!(lea.register_writes.iter().any(|register| register == "rax"));
    assert!(facts.instructions.iter().any(|instruction| {
        instruction.mnemonic == "lea"
            && instruction.typed_operands.iter().any(|operand| {
                operand.role == OperandRole::DataReference
                    && operand.kind == OperandKind::Memory
                    && operand.data_reference_target() == Some(0x1007)
            })
    }));
    assert!(facts.xrefs.iter().any(|xref| {
        xref.source == NativeRef::Function(0x1000, 0)
            && xref.target == NativeRef::String(0x1007)
            && xref.relation == XrefRelation::References
            && xref.address == Some(0x1000)
    }));
    assert_eq!(facts.function_string_counts[0], 1);
}

#[test]
fn native_calls_to_import_slots_create_calls_import_xrefs() {
    let functions = vec![test_function(0x1000, Some(6), "caller")];
    let imports = vec![ParsedImport {
        module: Some("kernel32.dll".to_string()),
        symbol: "ExitProcess".to_string(),
        address: Some(0x1005),
    }];
    let sections = vec![text_section(0x1000, vec![0xe8, 0x00, 0x00, 0x00, 0x00, 0xc3])];

    let facts = collect_native_cfg(&sections, &functions, &[], &imports);

    assert!(facts.xrefs.iter().any(|xref| {
        xref.source == NativeRef::Function(0x1000, 0)
            && xref.target == NativeRef::Import(0x1005)
            && xref.relation == XrefRelation::CallsImport
            && xref.address == Some(0x1000)
    }));
    assert_eq!(facts.function_call_counts[0], 1);
}

#[test]
fn native_indirect_iat_calls_create_calls_import_xrefs() {
    let functions = vec![test_function(0x1000, Some(7), "caller")];
    let imports = vec![ParsedImport {
        module: Some("kernel32.dll".to_string()),
        symbol: "ExitProcess".to_string(),
        address: Some(0x1006),
    }];
    let sections = vec![text_section(0x1000, vec![0xff, 0x15, 0x00, 0x00, 0x00, 0x00, 0xc3])];

    let facts = collect_native_cfg(&sections, &functions, &[], &imports);

    assert!(facts.instructions.iter().any(|instruction| {
        instruction.mnemonic == "call"
            && instruction.data_target == Some(0x1006)
            && instruction.typed_operands.iter().any(|operand| {
                operand.role == OperandRole::CallTarget
                    && operand.kind == OperandKind::Memory
                    && operand.data_reference_target() == Some(0x1006)
            })
    }));
    assert!(facts.xrefs.iter().any(|xref| {
        xref.source == NativeRef::Function(0x1000, 0)
            && xref.target == NativeRef::Import(0x1006)
            && xref.relation == XrefRelation::CallsImport
            && xref.address == Some(0x1000)
    }));
    assert_eq!(facts.function_call_counts[0], 1);
}

#[test]
fn native_iat_jump_thunks_create_calls_import_xrefs() {
    let functions = vec![test_function(0x1000, Some(6), "ExitProcess$thunk")];
    let imports = vec![ParsedImport {
        module: Some("kernel32.dll".to_string()),
        symbol: "ExitProcess".to_string(),
        address: Some(0x1006),
    }];
    let sections = vec![text_section(0x1000, vec![0xff, 0x25, 0x00, 0x00, 0x00, 0x00])];

    let facts = collect_native_cfg(&sections, &functions, &[], &imports);

    assert!(facts.instructions.iter().any(|instruction| {
        instruction.mnemonic == "jmp"
            && instruction.data_target == Some(0x1006)
            && instruction.typed_operands.iter().any(|operand| {
                operand.role == OperandRole::BranchTarget
                    && operand.kind == OperandKind::Memory
                    && operand.data_reference_target() == Some(0x1006)
            })
    }));
    assert!(facts.xrefs.iter().any(|xref| {
        xref.source == NativeRef::Function(0x1000, 0)
            && xref.target == NativeRef::Import(0x1006)
            && xref.relation == XrefRelation::CallsImport
            && xref.address == Some(0x1000)
    }));
    assert_eq!(facts.function_call_counts[0], 1);
}

#[test]
fn native_functions_sharing_a_start_keep_their_own_refs() {
    let functions = vec![
        test_function(0x1000, Some(6), "caller"),
        test_function(0x1000, Some(6), "caller_alias"),
        test_function(0x1005, Some(1), "callee"),
        test_function(0x1005, Some(1), "callee_alias"),
    ];
    let sections = vec![text_section(0x1000, vec![0xe8, 0x00, 0x00, 0x00, 0x00, 0xc3])];

    let facts = collect_native_cfg(&sections, &functions, &[], &[]);
    let calls: Vec<_> = facts.xrefs.iter().filter(|xref| xref.relation == XrefRelation::Calls).collect();

    assert_eq!(calls.len(), 2);
    assert_eq!(calls[0].source, NativeRef::Function(0x1000, 0));
    assert_eq!(calls[1].source, NativeRef::Function(0x1000, 1));
    assert!(calls.iter().all(|xref| xref.target == NativeRef::Function(0x1005, 3)));
    assert_eq!(facts.function_call_counts[0], 1);
    assert_eq!(facts.function_call_counts[1], 1);
}

#[test]
fn native_scan_layout_orders_blocks_instructions_and_edges() {
    let function = test_function(0x1000, Some(7), "layout");
    let facts = scan_function_cfg(
        NativeRef::Function(function.address.unwrap(), 0),
        0x1000,
        &[
            0x48, 0x85, 0xc0, // test rax,rax
            0x74, 0x01, // je 0x1006
            0x90, // nop
            0xc3, // ret
        ],
        &function_targets_by_start(std::slice::from_ref(&function)),
        &[],
        &[],
    );
    let blocks = &facts.basic_blocks;
    assert_eq!(blocks.len(), 3);
    for (b, block) in blocks.iter().enumerate() {
        assert_eq!(block.ordinal, b as u64);
        assert!(0x1000 <= block.address && block.address < block.end_address && block.end_address <= 0x1007);
        if b + 1 < blocks.len() {
            assert!(block.end_address <= blocks[b + 1].address);
        }
    }
    for (k, instruction) in facts.instructions.iter().enumerate() {
        assert_eq!(instruction.ordinal, k as u64);
        let block = blocks.iter().find(|block| block.address == instruction.block).unwrap();
        assert!(block.address <= instruction.address);
        assert!(instruction.address + instruction.size <= block.end_address);
    }
    for edge in &facts.cfg_edges {
        let from = blocks.iter().position(|block| block.address == edge.source).unwrap();
        assert!(blocks.iter().any(|block| block.address == edge.target));
        assert!(edge.edge_kind == "branch" || edge.edge_kind == "fallthrough");
        if edge.edge_kind == "fallthrough" {
            assert_eq!(blocks[from + 1].address, edge.target);
        }
        match edge.known_outcome.as_deref() {
            None => {}
            Some("taken") => assert_eq!(edge.edge_kind, "branch"),
            Some("not_taken") => assert_eq!(edge.edge_kind, "fallthrough"),
            Some(other) => panic!("unexpected outcome {other}"),
        }
    }
}

#[test]
fn native_condition_source_stays_inside_its_block() {
    let function = test_function(0x1000, Some(7), "split_flags");
    let facts = scan_function_cfg(
        NativeRef::Function(function.address.unwrap(), 0),
        0x1000,
        &[
            0x48, 0x85, 0xc0, // test rax,rax
            0xeb, 0x00, // jmp 0x1005
            0x74, 0x00, // je 0x1007 (a block of its own, after the jump)
        ],
        &function_targets_by_start(std::slice::from_ref(&function)),
        &[],
        &[],
    );
    let branch = facts.instructions.iter().find(|instruction| instruction.address == 0x1005).unwrap();
    assert_eq!(branch.condition_source, None);
    assert_eq!(branch.condition_summary, None);
    assert!(facts.instructions.iter().all(|instruction| instruction.condition_source.is_none()
        || instruction.flow_kind.as_deref() == Some("conditional_branch")));
}

#[test]
fn native_register_source_counts_alias_writes_as_latest_writer() {
    let function = test_function(0x1000, Some(14), "aliases");
    let facts = scan_function_cfg(
        NativeRef::Function(function.address.unwrap(), 0),
        0x1000,
        &[
            0x48, 0x89, 0xd8, // mov rax,rbx
            0xb8, 0x01, 0x00, 0x00, 0x00, // mov eax,1
            0x48, 0x89, 0xc1, // mov rcx,rax
            0x90, // nop
            0x90, // nop
            0xc3, // ret
        ],
        &function_targets_by_start(std::slice::from_ref(&function)),
        &[],
        &[],
    );
    let copy = facts.instructions.iter().find(|instruction| instruction.address == 0x1008).unwrap();
    assert!(copy.register_sources.iter().any(|source| source.register == "rax" && source.source == 0x1003));
    assert!(facts.xrefs.iter().any(|xref| xref.source == NativeRef::Instruction(0x1008)
        && xref.target == NativeRef::Instruction(0x1003)
        && xref.relation == XrefRelation::References
        && xref.address == Some(0x1008)));
}

#[test]
fn native_call_count_matches_call_xrefs() {
    let caller = test_function(0x1000, Some(11), "caller");
    let callee = test_function(0x100a, Some(1), "callee");
    let functions = vec![caller.clone(), callee];
    let facts = scan_function_cfg(
        NativeRef::Function(caller.address.unwrap(), 0),
        0x1000,
        &[
            0xe8, 0x05, 0x00, 0x00, 0x00, // call 0x100a
            0xe8, 0x00, 0x00, 0x00, 0x00, // call 0x100a
            0xc3, // ret
        ],
        &function_targets_by_start(&functions),
        &[],
        &[],
    );
    let call_xrefs = facts
        .xrefs
        .iter()
        .filter(|xref| xref.relation == XrefRelation::Calls || xref.relation == XrefRelation::CallsImport)
        .count() as u64;
    assert_eq!(facts.function_call_count, 2);
    assert_eq!(call_xrefs, facts.function_call_count);
}
