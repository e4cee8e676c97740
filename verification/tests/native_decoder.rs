use revdeck_index::constants::{constant_writes_for_instruction, RegisterConstantWrite};
use revdeck_index::decode::{decode_native_instructions, InstructionFlow, OperandKind, OperandRole};
use revdeck_index::registers::{register_accesses_for_instruction, register_accesses_for_operands};

#[test]
fn native_decoder_decodes_stack_cleanup_and_epilogue_instructions() {
    let instructions = decode_native_instructions(
        0x7000,
        &[
            0x48, 0x83, 0xc4, 0x20, // add rsp,0x20
            0x48, 0x81, 0xc4, 0x00, 0x02, 0x00, 0x00, // add rsp,0x200
            0xc9, // leave
            0x5d, // pop rbp
            0xc3, // ret
        ],
    );

    assert_eq!(instructions[0].mnemonic, "add");
    assert_eq!(instructions[0].operands, "rsp,0x20");
    assert!(instructions[0].typed_operands.iter().any(|operand| {
        operand.role == OperandRole::Destination
            && operand.kind == OperandKind::Register
            && operand.register.as_deref() == Some("rsp")
    }));
    assert!(instructions[0].typed_operands.iter().any(|operand| {
        operand.role == OperandRole::Source
            && operand.kind == OperandKind::Immediate
            && operand.value == Some(0x20)
            && operand.width_bits == Some(8)
    }));

    assert_eq!(instructions[1].mnemonic, "add");
    assert_eq!(instructions[1].operands, "rsp,0x200");
    assert!(instructions[1].typed_operands.iter().any(|operand| {
        operand.role == OperandRole::Source
            && operand.kind == OperandKind::Immediate
            && operand.value == Some(0x200)
            && operand.width_bits == Some(32)
    }));

    assert_eq!(instructions[2].mnemonic, "leave");
    assert_eq!(instructions[2].flow, InstructionFlow::Sequential);
    let (reads, writes) = register_accesses_for_instruction(
        instructions[2].mnemonic.as_str(),
        &instructions[2].typed_operands,
    );
    assert_eq!(reads, vec!["rbp"]);
    assert_eq!(writes, vec!["rbp", "rsp"]);
    assert_eq!(instructions[3].mnemonic, "pop");
    assert_eq!(instructions[3].operands, "rbp");
    assert!(instructions[3].typed_operands.iter().any(|operand| {
        operand.role == OperandRole::Destination
            && operand.kind == OperandKind::Register
            && operand.register.as_deref() == Some("rbp")
    }));
    assert_eq!(instructions[3].flow, InstructionFlow::Sequential);
    assert_eq!(instructions[4].flow, InstructionFlow::Return);
    let (reads, writes) = register_accesses_for_instruction(
        instructions[4].mnemonic.as_str(),
        &instructions[4].typed_operands,
    );
    assert_eq!(reads, vec!["rsp"]);
    assert_eq!(writes, vec!["rsp"]);
}

#[test]
fn native_decoder_tracks_call_return_stack_pointer_effects() {
    let instructions = decode_native_instructions(
        0x7100,
        &[
            0xe8, 0x00, 0x00, 0x00, 0x00, // call 0x7105
            0xc3, // ret
        ],
    );

    assert_eq!(instructions[0].mnemonic, "call");
    let (reads, writes) = register_accesses_for_instruction(
        instructions[0].mnemonic.as_str(),
        &instructions[0].typed_operands,
    );
    assert_eq!(reads, vec!["rsp"]);
    assert_eq!(writes, vec!["rsp"]);

    assert_eq!(instructions[1].mnemonic, "ret");
    let (reads, writes) = register_accesses_for_instruction(
        instructions[1].mnemonic.as_str(),
        &instructions[1].typed_operands,
    );
    assert_eq!(reads, vec!["rsp"]);
    assert_eq!(writes, vec!["rsp"]);
}

#[test]
fn native_decoder_decodes_push_immediates_and_ret_stack_cleanup() {
    let instructions = decode_native_instructions(
        0x7110,
        &[
            0x6a, 0xf0, // push -0x10
            0x68, 0x78, 0x56, 0x34, 0x12, // push 0x12345678
            0xc2, 0x20, 0x00, // ret 0x20
        ],
    );

    assert_eq!(instructions[0].mnemonic, "push");
    assert_eq!(instructions[0].size, 2);
    assert_eq!(instructions[0].operands, "0xfffffffffffffff0");
    assert!(instructions[0].typed_operands.iter().any(|operand| {
        operand.role == OperandRole::Source
            && operand.kind == OperandKind::Immediate
            && operand.value == Some(0xffff_ffff_ffff_fff0)
            && operand.width_bits == Some(8)
    }));
    let (reads, writes) = register_accesses_for_instruction(
        instructions[0].mnemonic.as_str(),
        &instructions[0].typed_operands,
    );
    assert_eq!(reads, vec!["rsp"]);
    assert_eq!(writes, vec!["rsp"]);

    assert_eq!(instructions[1].mnemonic, "push");
    assert_eq!(instructions[1].size, 5);
    assert_eq!(instructions[1].operands, "0x12345678");
    assert!(instructions[1].typed_operands.iter().any(|operand| {
        operand.role == OperandRole::Source
            && operand.kind == OperandKind::Immediate
            && operand.value == Some(0x1234_5678)
            && operand.width_bits == Some(32)
    }));

    assert_eq!(instructions[2].mnemonic, "ret");
    assert_eq!(instructions[2].size, 3);
    assert_eq!(instructions[2].operands, "0x20");
    assert_eq!(instructions[2].flow, InstructionFlow::Return);
    assert!(instructions[2].typed_operands.iter().any(|operand| {
        operand.role == OperandRole::Source
            && operand.kind == OperandKind::Immediate
            && operand.value == Some(0x20)
            && operand.width_bits == Some(16)
    }));
    let (reads, writes) = register_accesses_for_instruction(
        instructions[2].mnemonic.as_str(),
        &instructions[2].typed_operands,
    );
    assert_eq!(reads, vec!["rsp"]);
    assert_eq!(writes, vec!["rsp"]);
}

#[test]
fn native_decoder_decodes_push_rm64_operands() {
    let instructions = decode_native_instructions(
        0x7120,
        &[
            0xff, 0xf0, // push rax
            0x41, 0xff, 0xf0, // push r8
            0xff, 0x74, 0x24, 0x08, // push qword ptr [rsp+0x8]
        ],
    );

    assert_eq!(instructions[0].mnemonic, "push");
    assert_eq!(instructions[0].size, 2);
    assert_eq!(instructions[0].operands, "rax");
    assert!(instructions[0].typed_operands.iter().any(|operand| {
        operand.role == OperandRole::Source
            && operand.kind == OperandKind::Register
            && operand.register.as_deref() == Some("rax")
    }));
    let (reads, writes) = register_accesses_for_instruction(
        instructions[0].mnemonic.as_str(),
        &instructions[0].typed_operands,
    );
    assert_eq!(reads, vec!["rax", "rsp"]);
    assert_eq!(writes, vec!["rsp"]);

    assert_eq!(instructions[1].mnemonic, "push");
    assert_eq!(instructions[1].size, 3);
    assert_eq!(instructions[1].operands, "r8");
    let (reads, writes) = register_accesses_for_instruction(
        instructions[1].mnemonic.as_str(),
        &instructions[1].typed_operands,
    );
    assert_eq!(reads, vec!["r8", "rsp"]);
    assert_eq!(writes, vec!["rsp"]);

    assert_eq!(instructions[2].mnemonic, "push");
    assert_eq!(instructions[2].size, 4);
    assert_eq!(instructions[2].operands, "qword ptr [rsp+0x8]");
    assert!(instructions[2].typed_operands.iter().any(|operand| {
        operand.role == OperandRole::Source
            && operand.kind == OperandKind::Memory
            && operand.base.as_deref() == Some("rsp")
            && operand.displacement == Some(8)
            && operand.width_bits == Some(64)
    }));
    let (reads, writes) = register_accesses_for_instruction(
        instructions[2].mnemonic.as_str(),
        &instructions[2].typed_operands,
    );
    assert_eq!(reads, vec!["rsp"]);
    assert_eq!(writes, vec!["rsp"]);
}

#[test]
fn native_decoder_decodes_pop_rm64_operands() {
    let instructions = decode_native_instructions(
        0x7130,
        &[
            0x8f, 0xc0, // pop rax
            0x41, 0x8f, 0xc0, // pop r8
            0x8f, 0x44, 0x24, 0x08, // pop qword ptr [rsp+0x8]
        ],
    );

    assert_eq!(instructions[0].mnemonic, "pop");
    assert_eq!(instructions[0].size, 2);
    assert_eq!(instructions[0].operands, "rax");
    assert!(instructions[0].typed_operands.iter().any(|operand| {
        operand.role == OperandRole::Destination
            && operand.kind == OperandKind::Register
            && operand.register.as_deref() == Some("rax")
    }));
    let (reads, writes) = register_accesses_for_instruction(
        instructions[0].mnemonic.as_str(),
        &instructions[0].typed_operands,
    );
    assert_eq!(reads, vec!["rsp"]);
    assert_eq!(writes, vec!["rax", "rsp"]);

    assert_eq!(instructions[1].mnemonic, "pop");
    assert_eq!(instructions[1].size, 3);
    assert_eq!(instructions[1].operands, "r8");
    let (reads, writes) = register_accesses_for_instruction(
        instructions[1].mnemonic.as_str(),
        &instructions[1].typed_operands,
    );
    assert_eq!(reads, vec!["rsp"]);
    assert_eq!(writes, vec!["r8", "rsp"]);

    assert_eq!(instructions[2].mnemonic, "pop");
    assert_eq!(instructions[2].size, 4);
    assert_eq!(instructions[2].operands, "qword ptr [rsp+0x8]");
    assert!(instructions[2].typed_operands.iter().any(|operand| {
        operand.role == OperandRole::Destination
            && operand.kind == OperandKind::Memory
            && operand.base.as_deref() == Some("rsp")
            && operand.displacement == Some(8)
            && operand.width_bits == Some(64)
    }));
    let (reads, writes) = register_accesses_for_instruction(
        instructions[2].mnemonic.as_str(),
        &instructions[2].typed_operands,
    );
    assert_eq!(reads, vec!["rsp"]);
    assert_eq!(writes, vec!["rsp"]);
}

#[test]
fn native_decoder_decodes_push_pop_register_operands() {
    let instructions = decode_native_instructions(
        0x7010,
        &[
            0x50, // push rax
            0x5b, // pop rbx
            0x41, 0x50, // push r8
            0x41, 0x59, // pop r9
        ],
    );

    assert_eq!(instructions[0].mnemonic, "push");
    assert_eq!(instructions[0].size, 1);
    assert_eq!(instructions[0].operands, "rax");
    let (reads, writes) = register_accesses_for_instruction(
        instructions[0].mnemonic.as_str(),
        &instructions[0].typed_operands,
    );
    assert_eq!(reads, vec!["rax", "rsp"]);
    assert_eq!(writes, vec!["rsp"]);

    assert_eq!(instructions[1].mnemonic, "pop");
    assert_eq!(instructions[1].size, 1);
    assert_eq!(instructions[1].operands, "rbx");
    let (reads, writes) = register_accesses_for_instruction(
        instructions[1].mnemonic.as_str(),
        &instructions[1].typed_operands,
    );
    assert_eq!(reads, vec!["rsp"]);
    assert_eq!(writes, vec!["rbx", "rsp"]);

    assert_eq!(instructions[2].mnemonic, "push");
    assert_eq!(instructions[2].size, 2);
    assert_eq!(instructions[2].operands, "r8");
    let (reads, writes) = register_accesses_for_instruction(
        instructions[2].mnemonic.as_str(),
        &instructions[2].typed_operands,
    );
    assert_eq!(reads, vec!["r8", "rsp"]);
    assert_eq!(writes, vec!["rsp"]);

    assert_eq!(instructions[3].mnemonic, "pop");
    assert_eq!(instructions[3].size, 2);
    assert_eq!(instructions[3].operands, "r9");
    let (reads, writes) = register_accesses_for_instruction(
        instructions[3].mnemonic.as_str(),
        &instructions[3].typed_operands,
    );
    assert_eq!(reads, vec!["rsp"]);
    assert_eq!(writes, vec!["r9", "rsp"]);
}

#[test]
fn native_decoder_decodes_indirect_call_and_jump_operands() {
    let instructions = decode_native_instructions(
        0x1800,
        &[
            0xff, 0xd0, // call rax
            0x41, 0xff, 0xe0, // jmp r8
            0xff, 0x54, 0x24, 0x08, // call qword ptr [rsp+0x8]
            0x49, 0xff, 0x64, 0x24, 0xf0, // jmp qword ptr [r12-0x10]
        ],
    );

    assert_eq!(instructions[0].mnemonic, "call");
    assert_eq!(instructions[0].size, 2);
    assert_eq!(instructions[0].flow, InstructionFlow::Call);
    assert_eq!(instructions[0].operands, "rax");
    assert!(instructions[0].typed_operands.iter().any(|operand| {
        operand.role == OperandRole::CallTarget
            && operand.kind == OperandKind::Register
            && operand.register.as_deref() == Some("rax")
    }));

    assert_eq!(instructions[1].mnemonic, "jmp");
    assert_eq!(instructions[1].size, 3);
    assert_eq!(instructions[1].flow, InstructionFlow::Jump);
    assert_eq!(instructions[1].operands, "r8");
    assert!(instructions[1].typed_operands.iter().any(|operand| {
        operand.role == OperandRole::BranchTarget
            && operand.kind == OperandKind::Register
            && operand.register.as_deref() == Some("r8")
    }));

    assert_eq!(instructions[2].mnemonic, "call");
    assert_eq!(instructions[2].size, 4);
    assert_eq!(instructions[2].operands, "qword ptr [rsp+0x8]");
    assert!(instructions[2].typed_operands.iter().any(|operand| {
        operand.role == OperandRole::CallTarget
            && operand.kind == OperandKind::Memory
            && operand.base.as_deref() == Some("rsp")
            && operand.displacement == Some(8)
    }));

    assert_eq!(instructions[3].mnemonic, "jmp");
    assert_eq!(instructions[3].size, 5);
    assert_eq!(instructions[3].operands, "qword ptr [r12-0x10]");
    assert!(instructions[3].typed_operands.iter().any(|operand| {
        operand.role == OperandRole::BranchTarget
            && operand.kind == OperandKind::Memory
            && operand.base.as_deref() == Some("r12")
            && operand.displacement == Some(-0x10)
    }));
}

#[test]
fn native_decoder_decodes_modrm_sib_memory_operands() {
    let instructions = decode_native_instructions(
        0x2000,
        &[
            0x48, 0x8b, 0x45, 0xf8, // mov rax,qword ptr [rbp-0x8]
            0x48, 0x89, 0x4c, 0x84, 0x20, // mov qword ptr [rsp+rax*4+0x20],rcx
            0x48, 0x8b, 0x04, 0x25, 0x34, 0x12, 0x00, 0x00, // mov rax,qword ptr [0x1234]
        ],
    );

    assert_eq!(instructions[0].mnemonic, "mov");
    assert_eq!(instructions[0].size, 4);
    assert_eq!(instructions[0].operands, "rax,qword ptr [rbp-0x8]");
    assert!(instructions[0].typed_operands.iter().any(|operand| {
        operand.role == OperandRole::Source
            && operand.kind == OperandKind::Memory
            && operand.base.as_deref() == Some("rbp")
            && operand.displacement == Some(-8)
            && operand.effective_address.is_none()
    }));

    assert_eq!(instructions[1].size, 5);
    assert_eq!(instructions[1].operands, "qword ptr [rsp+rax*4+0x20],rcx");
    assert!(instructions[1].typed_operands.iter().any(|operand| {
        operand.role == OperandRole::Destination
            && operand.kind == OperandKind::Memory
            && operand.base.as_deref() == Some("rsp")
            && operand.index.as_deref() == Some("rax")
            && operand.scale == Some(4)
            && operand.displacement == Some(0x20)
    }));

    assert_eq!(instructions[2].size, 8);
    assert_eq!(instructions[2].operands, "rax,qword ptr [0x1234]");
    assert!(instructions[2].typed_operands.iter().any(|operand| {
        operand.role == OperandRole::Source
            && operand.kind == OperandKind::Memory
            && operand.base.is_none()
            && operand.index.is_none()
            && operand.displacement == Some(0x1234)
            && operand.data_reference_target() == Some(0x1234)
    }));
}

#[test]
fn native_decoder_decodes_mov_rm64_sign_extended_immediate_memory_destinations() {
    let instructions = decode_native_instructions(
        0x2020,
        &[
            0x48, 0xc7, 0x45, 0xf8, 0xff, 0xff, 0xff, 0xff, // mov qword ptr [rbp-0x8],-1
        ],
    );

    assert_eq!(instructions[0].mnemonic, "mov");
    assert_eq!(instructions[0].size, 8);
    assert_eq!(
        instructions[0].operands,
        "qword ptr [rbp-0x8],0xffffffffffffffff"
    );
    assert!(instructions[0].typed_operands.iter().any(|operand| {
        operand.role == OperandRole::Destination
            && operand.kind == OperandKind::Memory
            && operand.base.as_deref() == Some("rbp")
            && operand.displacement == Some(-8)
            && operand.width_bits == Some(64)
    }));
    assert!(instructions[0].typed_operands.iter().any(|operand| {
        operand.role == OperandRole::Source
            && operand.kind == OperandKind::Immediate
            && operand.value == Some(0xffff_ffff_ffff_ffff)
            && operand.width_bits == Some(32)
    }));
    let (reads, writes) = register_accesses_for_instruction(
        instructions[0].mnemonic.as_str(),
        &instructions[0].typed_operands,
    );
    assert_eq!(reads, vec!["rbp"]);
    assert!(writes.is_empty());
}

#[test]
fn native_decoder_tracks_rip_relative_destination_registers() {
    let instructions = decode_native_instructions(
        0x6000,
        &[
            0x48, 0x8d, 0x0d, 0x00, 0x00, 0x00, 0x00, // lea rcx,[rip]
            0x4c, 0x8d, 0x0d, 0x04, 0x00, 0x00, 0x00, // lea r9,[rip+0x4]
            0x8b, 0x15, 0x08, 0x00, 0x00, 0x00, // mov edx,[rip+0x8]
        ],
    );

    assert_eq!(instructions[0].mnemonic, "lea");
    assert_eq!(
        instructions[0].operands,
        "rcx,[rip+disp32] -> 0x0000000000006007"
    );
    assert!(instructions[0].typed_operands.iter().any(|operand| {
        operand.role == OperandRole::Destination
            && operand.kind == OperandKind::Register
            && operand.register.as_deref() == Some("rcx")
    }));
    assert_eq!(
        register_accesses_for_operands(&instructions[0].typed_operands),
        (vec!["rip".to_string()], vec!["rcx".to_string()])
    );

    assert_eq!(instructions[1].mnemonic, "lea");
    assert_eq!(
        instructions[1].operands,
        "r9,[rip+disp32] -> 0x0000000000006012"
    );
    assert!(instructions[1].typed_operands.iter().any(|operand| {
        operand.role == OperandRole::Destination
            && operand.kind == OperandKind::Register
            && operand.register.as_deref() == Some("r9")
    }));
    assert_eq!(
        register_accesses_for_operands(&instructions[1].typed_operands),
        (vec!["rip".to_string()], vec!["r9".to_string()])
    );

    assert_eq!(instructions[2].mnemonic, "mov");
    assert_eq!(
        instructions[2].operands,
        "edx,[rip+disp32] -> 0x000000000000601c"
    );
    assert!(instructions[2].typed_operands.iter().any(|operand| {
        operand.role == OperandRole::Destination
            && operand.kind == OperandKind::Register
            && operand.register.as_deref() == Some("edx")
            && operand.width_bits == Some(32)
    }));
}

#[test]
fn native_decoder_decodes_lea_r64_memory_operands() {
    let instructions = decode_native_instructions(
        0x6020,
        &[
            0x48, 0x8d, 0x45, 0xf0, // lea rax,[rbp-0x10]
            0x4e, 0x8d, 0x4c, 0x94, 0x20, // lea r9,[rsp+r10*4+0x20]
        ],
    );

    assert_eq!(instructions[0].mnemonic, "lea");
    assert_eq!(instructions[0].size, 4);
    assert_eq!(instructions[0].operands, "rax,[rbp-0x10]");
    assert!(instructions[0].typed_operands.iter().any(|operand| {
        operand.role == OperandRole::Destination
            && operand.kind == OperandKind::Register
            && operand.register.as_deref() == Some("rax")
            && operand.width_bits == Some(64)
    }));
    assert!(instructions[0].typed_operands.iter().any(|operand| {
        operand.role == OperandRole::DataReference
            && operand.kind == OperandKind::Memory
            && operand.base.as_deref() == Some("rbp")
            && operand.displacement == Some(-0x10)
            && operand.width_bits == Some(64)
    }));
    let (reads, writes) = register_accesses_for_instruction(
        instructions[0].mnemonic.as_str(),
        &instructions[0].typed_operands,
    );
    assert_eq!(reads, vec!["rbp"]);
    assert_eq!(writes, vec!["rax"]);

    assert_eq!(instructions[1].mnemonic, "lea");
    assert_eq!(instructions[1].size, 5);
    assert_eq!(instructions[1].operands, "r9,[rsp+r10*4+0x20]");
    assert!(instructions[1].typed_operands.iter().any(|operand| {
        operand.role == OperandRole::DataReference
            && operand.kind == OperandKind::Memory
            && operand.base.as_deref() == Some("rsp")
            && operand.index.as_deref() == Some("r10")
            && operand.scale == Some(4)
            && operand.displacement == Some(0x20)
    }));
    let (reads, writes) = register_accesses_for_instruction(
        instructions[1].mnemonic.as_str(),
        &instructions[1].typed_operands,
    );
    assert_eq!(reads, vec!["r10", "rsp"]);
    assert_eq!(writes, vec!["r9"]);
}

#[test]
fn native_decoder_decodes_lea_r32_memory_operands() {
    let instructions = decode_native_instructions(
        0x6030,
        &[
            0x8d, 0x45, 0xf0, // lea eax,[rbp-0x10]
            0x46, 0x8d, 0x4c, 0x94, 0x20, // lea r9d,[rsp+r10*4+0x20]
        ],
    );

    assert_eq!(instructions[0].mnemonic, "lea");
    assert_eq!(instructions[0].size, 3);
    assert_eq!(instructions[0].operands, "eax,[rbp-0x10]");
    assert!(instructions[0].typed_operands.iter().any(|operand| {
        operand.role == OperandRole::Destination
            && operand.kind == OperandKind::Register
            && operand.register.as_deref() == Some("eax")
            && operand.width_bits == Some(32)
    }));
    assert!(instructions[0].typed_operands.iter().any(|operand| {
        operand.role == OperandRole::DataReference
            && operand.kind == OperandKind::Memory
            && operand.base.as_deref() == Some("rbp")
            && operand.displacement == Some(-0x10)
            && operand.width_bits == Some(32)
    }));
    let (reads, writes) = register_accesses_for_instruction(
        instructions[0].mnemonic.as_str(),
        &instructions[0].typed_operands,
    );
    assert_eq!(reads, vec!["rbp"]);
    assert_eq!(writes, vec!["eax"]);

    assert_eq!(instructions[1].mnemonic, "lea");
    assert_eq!(instructions[1].size, 5);
    assert_eq!(instructions[1].operands, "r9d,[rsp+r10*4+0x20]");
    assert!(instructions[1].typed_operands.iter().any(|operand| {
        operand.role == OperandRole::DataReference
            && operand.kind == OperandKind::Memory
            && operand.base.as_deref() == Some("rsp")
            && operand.index.as_deref() == Some("r10")
            && operand.scale == Some(4)
            && operand.displacement == Some(0x20)
    }));
    let (reads, writes) = register_accesses_for_instruction(
        instructions[1].mnemonic.as_str(),
        &instructions[1].typed_operands,
    );
    assert_eq!(reads, vec!["r10", "rsp"]);
    assert_eq!(writes, vec!["r9d"]);
}

#[test]
fn native_instruction_register_access_summaries_include_memory_address_registers() {
    let instructions = decode_native_instructions(
        0x2000,
        &[
            0x48, 0x8b, 0x45, 0xf8, // mov rax,qword ptr [rbp-0x8]
            0x48, 0x89, 0x4c, 0x84, 0x20, // mov qword ptr [rsp+rax*4+0x20],rcx
        ],
    );

    let (reads, writes) = register_accesses_for_operands(&instructions[0].typed_operands);
    assert_eq!(reads, vec!["rbp"]);
    assert_eq!(writes, vec!["rax"]);

    let (reads, writes) = register_accesses_for_operands(&instructions[1].typed_operands);
    assert_eq!(reads, vec!["rax", "rcx", "rsp"]);
    assert!(writes.is_empty());
}

#[test]
fn native_decoder_and_indexer_track_mov_immediate_constants() {
    let instructions = decode_native_instructions(
        0x8000,
        &[
            0x48, 0xb8, 0x88, 0x77, 0x66, 0x55, 0x44, 0x33, 0x22,
            0x11, // mov rax,0x1122334455667788
            0x49, 0xc7, 0xc0, 0x2a, 0x00, 0x00, 0x00, // mov r8,0x2a
            0xb8, 0x78, 0x56, 0x34, 0x12, // mov eax,0x12345678
            0xb9, 0xff, 0x00, 0x00, 0x00, // mov ecx,0xff
            0x41, 0xb8, 0x34, 0x12, 0x00, 0x00, // mov r8d,0x1234
            0x41, 0xbf, 0xef, 0xbe, 0x00, 0x00, // mov r15d,0xbeef
            0xc7, 0xc2, 0x78, 0x56, 0x34, 0x12, // mov edx,0x12345678
            0x41, 0xc7, 0xc1, 0xef, 0xbe, 0x00, 0x00, // mov r9d,0xbeef
        ],
    );

    assert_eq!(instructions[0].mnemonic, "mov");
    assert_eq!(instructions[0].size, 10);
    assert_eq!(instructions[0].operands, "rax,0x1122334455667788");
    let constants = constant_writes_for_instruction(
        instructions[0].mnemonic.as_str(),
        &instructions[0].typed_operands,
        instructions[0].data_target,
    );
    assert_eq!(
        constants,
        vec![RegisterConstantWrite {
            register: "rax".to_string(),
            value: 0x1122_3344_5566_7788,
            width_bits: Some(64),
        }]
    );

    assert_eq!(instructions[1].mnemonic, "mov");
    assert_eq!(instructions[1].operands, "r8,0x2a");
    let constants = constant_writes_for_instruction(
        instructions[1].mnemonic.as_str(),
        &instructions[1].typed_operands,
        instructions[1].data_target,
    );
    assert_eq!(
        constants,
        vec![RegisterConstantWrite {
            register: "r8".to_string(),
            value: 0x2a,
            width_bits: Some(32),
        }]
    );

    assert_eq!(instructions[2].mnemonic, "mov");
    assert_eq!(instructions[2].size, 5);
    assert_eq!(instructions[2].operands, "eax,0x12345678");
    let constants = constant_writes_for_instruction(
        instructions[2].mnemonic.as_str(),
        &instructions[2].typed_operands,
        instructions[2].data_target,
    );
    assert_eq!(
        constants,
        vec![RegisterConstantWrite {
            register: "eax".to_string(),
            value: 0x1234_5678,
            width_bits: Some(32),
        }]
    );

    assert_eq!(instructions[3].mnemonic, "mov");
    assert_eq!(instructions[3].operands, "ecx,0xff");
    let constants = constant_writes_for_instruction(
        instructions[3].mnemonic.as_str(),
        &instructions[3].typed_operands,
        instructions[3].data_target,
    );
    assert_eq!(
        constants,
        vec![RegisterConstantWrite {
            register: "ecx".to_string(),
            value: 0xff,
            width_bits: Some(32),
        }]
    );

    assert_eq!(instructions[4].mnemonic, "mov");
    assert_eq!(instructions[4].size, 6);
    assert_eq!(instructions[4].operands, "r8d,0x1234");
    let constants = constant_writes_for_instruction(
        instructions[4].mnemonic.as_str(),
        &instructions[4].typed_operands,
        instructions[4].data_target,
    );
    assert_eq!(
        constants,
        vec![RegisterConstantWrite {
            register: "r8d".to_string(),
            value: 0x1234,
            width_bits: Some(32),
        }]
    );

    assert_eq!(instructions[5].mnemonic, "mov");
    assert_eq!(instructions[5].operands, "r15d,0xbeef");
    let constants = constant_writes_for_instruction(
        instructions[5].mnemonic.as_str(),
        &instructions[5].typed_operands,
        instructions[5].data_target,
    );
    assert_eq!(
        constants,
        vec![RegisterConstantWrite {
            register: "r15d".to_string(),
            value: 0xbeef,
            width_bits: Some(32),
        }]
    );

    assert_eq!(instructions[6].mnemonic, "mov");
    assert_eq!(instructions[6].size, 6);
    assert_eq!(instructions[6].operands, "edx,0x12345678");
    let constants = constant_writes_for_instruction(
        instructions[6].mnemonic.as_str(),
        &instructions[6].typed_operands,
        instructions[6].data_target,
    );
    assert_eq!(
        constants,
        vec![RegisterConstantWrite {
            register: "edx".to_string(),
            value: 0x1234_5678,
            width_bits: Some(32),
        }]
    );

    assert_eq!(instructions[7].mnemonic, "mov");
    assert_eq!(instructions[7].size, 7);
    assert_eq!(instructions[7].operands, "r9d,0xbeef");
    let constants = constant_writes_for_instruction(
        instructions[7].mnemonic.as_str(),
        &instructions[7].typed_operands,
        instructions[7].data_target,
    );
    assert_eq!(
        constants,
        vec![RegisterConstantWrite {
            register: "r9d".to_string(),
            value: 0xbeef,
            width_bits: Some(32),
        }]
    );
}

#[test]
fn native_decoder_decodes_32_bit_mov_register_copies() {
    let instructions = decode_native_instructions(
        0x8070,
        &[
            0x89, 0xc8, // mov eax,ecx
            0x8b, 0xd0, // mov edx,eax
            0x41, 0x89, 0xc0, // mov r8d,eax
            0x45, 0x8b, 0xc8, // mov r9d,r8d
        ],
    );

    assert_eq!(instructions[0].mnemonic, "mov");
    assert_eq!(instructions[0].size, 2);
    assert_eq!(instructions[0].operands, "eax,ecx");
    let (reads, writes) = register_accesses_for_instruction(
        instructions[0].mnemonic.as_str(),
        &instructions[0].typed_operands,
    );
    assert_eq!(reads, vec!["ecx"]);
    assert_eq!(writes, vec!["eax"]);
    assert!(instructions[0].typed_operands.iter().any(|operand| {
        operand.role == OperandRole::Destination
            && operand.kind == OperandKind::Register
            && operand.register.as_deref() == Some("eax")
            && operand.width_bits == Some(32)
    }));
    assert!(instructions[0].typed_operands.iter().any(|operand| {
        operand.role == OperandRole::Source
            && operand.kind == OperandKind::Register
            && operand.register.as_deref() == Some("ecx")
            && operand.width_bits == Some(32)
    }));

    assert_eq!(instructions[1].mnemonic, "mov");
    assert_eq!(instructions[1].operands, "edx,eax");
    let (reads, writes) = register_accesses_for_instruction(
        instructions[1].mnemonic.as_str(),
        &instructions[1].typed_operands,
    );
    assert_eq!(reads, vec!["eax"]);
    assert_eq!(writes, vec!["edx"]);

    assert_eq!(instructions[2].mnemonic, "mov");
    assert_eq!(instructions[2].size, 3);
    assert_eq!(instructions[2].operands, "r8d,eax");
    let (reads, writes) = register_accesses_for_instruction(
        instructions[2].mnemonic.as_str(),
        &instructions[2].typed_operands,
    );
    assert_eq!(reads, vec!["eax"]);
    assert_eq!(writes, vec!["r8d"]);

    assert_eq!(instructions[3].mnemonic, "mov");
    assert_eq!(instructions[3].operands, "r9d,r8d");
    let (reads, writes) = register_accesses_for_instruction(
        instructions[3].mnemonic.as_str(),
        &instructions[3].typed_operands,
    );
    assert_eq!(reads, vec!["r8d"]);
    assert_eq!(writes, vec!["r9d"]);
}

#[test]
fn native_decoder_decodes_mov_rm32_register_memory_operands() {
    let instructions = decode_native_instructions(
        0x8078,
        &[
            0x89, 0x45, 0xfc, // mov dword ptr [rbp-0x4],eax
            0x8b, 0x4d, 0xfc, // mov ecx,dword ptr [rbp-0x4]
            0x41, 0x89, 0x48, 0x10, // mov dword ptr [r8+0x10],ecx
            0x41, 0x8b, 0x48, 0x10, // mov ecx,dword ptr [r8+0x10]
        ],
    );

    assert_eq!(instructions[0].mnemonic, "mov");
    assert_eq!(instructions[0].size, 3);
    assert_eq!(instructions[0].operands, "dword ptr [rbp-0x4],eax");
    assert!(instructions[0].typed_operands.iter().any(|operand| {
        operand.role == OperandRole::Destination
            && operand.kind == OperandKind::Memory
            && operand.base.as_deref() == Some("rbp")
            && operand.displacement == Some(-4)
            && operand.width_bits == Some(32)
    }));
    assert!(instructions[0].typed_operands.iter().any(|operand| {
        operand.role == OperandRole::Source
            && operand.kind == OperandKind::Register
            && operand.register.as_deref() == Some("eax")
            && operand.width_bits == Some(32)
    }));
    let (reads, writes) = register_accesses_for_instruction(
        instructions[0].mnemonic.as_str(),
        &instructions[0].typed_operands,
    );
    assert_eq!(reads, vec!["eax", "rbp"]);
    assert!(writes.is_empty());

    assert_eq!(instructions[1].mnemonic, "mov");
    assert_eq!(instructions[1].size, 3);
    assert_eq!(instructions[1].operands, "ecx,dword ptr [rbp-0x4]");
    assert!(instructions[1].typed_operands.iter().any(|operand| {
        operand.role == OperandRole::Destination
            && operand.kind == OperandKind::Register
            && operand.register.as_deref() == Some("ecx")
            && operand.width_bits == Some(32)
    }));
    assert!(instructions[1].typed_operands.iter().any(|operand| {
        operand.role == OperandRole::Source
            && operand.kind == OperandKind::Memory
            && operand.base.as_deref() == Some("rbp")
            && operand.displacement == Some(-4)
            && operand.width_bits == Some(32)
    }));
    let (reads, writes) = register_accesses_for_instruction(
        instructions[1].mnemonic.as_str(),
        &instructions[1].typed_operands,
    );
    assert_eq!(reads, vec!["rbp"]);
    assert_eq!(writes, vec!["ecx"]);

    assert_eq!(instructions[2].mnemonic, "mov");
    assert_eq!(instructions[2].size, 4);
    assert_eq!(instructions[2].operands, "dword ptr [r8+0x10],ecx");
    assert!(instructions[2].typed_operands.iter().any(|operand| {
        operand.role == OperandRole::Destination
            && operand.kind == OperandKind::Memory
            && operand.base.as_deref() == Some("r8")
            && operand.displacement == Some(0x10)
            && operand.width_bits == Some(32)
    }));
    let (reads, writes) = register_accesses_for_instruction(
        instructions[2].mnemonic.as_str(),
        &instructions[2].typed_operands,
    );
    assert_eq!(reads, vec!["ecx", "r8"]);
    assert!(writes.is_empty());

    assert_eq!(instructions[3].mnemonic, "mov");
    assert_eq!(instructions[3].size, 4);
    assert_eq!(instructions[3].operands, "ecx,dword ptr [r8+0x10]");
    let (reads, writes) = register_accesses_for_instruction(
        instructions[3].mnemonic.as_str(),
        &instructions[3].typed_operands,
    );
    assert_eq!(reads, vec!["r8"]);
    assert_eq!(writes, vec!["ecx"]);
}

#[test]
fn native_decoder_decodes_mov_rm8_register_memory_operands() {
    let instructions = decode_native_instructions(
        0x8078,
        &[
            0x88, 0x45, 0xff, // mov byte ptr [rbp-0x1],al
            0x8a, 0x4d, 0xff, // mov cl,byte ptr [rbp-0x1]
            0x41, 0x88, 0x48, 0x10, // mov byte ptr [r8+0x10],cl
            0x41, 0x8a, 0x48, 0x10, // mov cl,byte ptr [r8+0x10]
            0x44, 0x88, 0x48, 0x11, // mov byte ptr [rax+0x11],r9b
        ],
    );

    assert_eq!(instructions[0].mnemonic, "mov");
    assert_eq!(instructions[0].size, 3);
    assert_eq!(instructions[0].operands, "byte ptr [rbp-0x1],al");
    assert!(instructions[0].typed_operands.iter().any(|operand| {
        operand.role == OperandRole::Destination
            && operand.kind == OperandKind::Memory
            && operand.base.as_deref() == Some("rbp")
            && operand.displacement == Some(-1)
            && operand.width_bits == Some(8)
    }));
    assert!(instructions[0].typed_operands.iter().any(|operand| {
        operand.role == OperandRole::Source
            && operand.kind == OperandKind::Register
            && operand.register.as_deref() == Some("al")
            && operand.width_bits == Some(8)
    }));
    let (reads, writes) = register_accesses_for_instruction(
        instructions[0].mnemonic.as_str(),
        &instructions[0].typed_operands,
    );
    assert_eq!(reads, vec!["al", "rbp"]);
    assert!(writes.is_empty());

    assert_eq!(instructions[1].mnemonic, "mov");
    assert_eq!(instructions[1].size, 3);
    assert_eq!(instructions[1].operands, "cl,byte ptr [rbp-0x1]");
    assert!(instructions[1].typed_operands.iter().any(|operand| {
        operand.role == OperandRole::Destination
            && operand.kind == OperandKind::Register
            && operand.register.as_deref() == Some("cl")
            && operand.width_bits == Some(8)
    }));
    assert!(instructions[1].typed_operands.iter().any(|operand| {
        operand.role == OperandRole::Source
            && operand.kind == OperandKind::Memory
            && operand.base.as_deref() == Some("rbp")
            && operand.displacement == Some(-1)
            && operand.width_bits == Some(8)
    }));
    let (reads, writes) = register_accesses_for_instruction(
        instructions[1].mnemonic.as_str(),
        &instructions[1].typed_operands,
    );
    assert_eq!(reads, vec!["rbp"]);
    assert_eq!(writes, vec!["cl"]);

    assert_eq!(instructions[2].mnemonic, "mov");
    assert_eq!(instructions[2].size, 4);
    assert_eq!(instructions[2].operands, "byte ptr [r8+0x10],cl");
    let (reads, writes) = register_accesses_for_instruction(
        instructions[2].mnemonic.as_str(),
        &instructions[2].typed_operands,
    );
    assert_eq!(reads, vec!["cl", "r8"]);
    assert!(writes.is_empty());

    assert_eq!(instructions[3].mnemonic, "mov");
    assert_eq!(instructions[3].size, 4);
    assert_eq!(instructions[3].operands, "cl,byte ptr [r8+0x10]");
    let (reads, writes) = register_accesses_for_instruction(
        instructions[3].mnemonic.as_str(),
        &instructions[3].typed_operands,
    );
    assert_eq!(reads, vec!["r8"]);
    assert_eq!(writes, vec!["cl"]);

    assert_eq!(instructions[4].mnemonic, "mov");
    assert_eq!(instructions[4].size, 4);
    assert_eq!(instructions[4].operands, "byte ptr [rax+0x11],r9b");
    assert!(instructions[4].typed_operands.iter().any(|operand| {
        operand.role == OperandRole::Source
            && operand.kind == OperandKind::Register
            && operand.register.as_deref() == Some("r9b")
            && operand.width_bits == Some(8)
    }));
}

#[test]
fn native_decoder_decodes_cmp_test_rm8_register_memory_operands() {
    let instructions = decode_native_instructions(
        0x8078,
        &[
            0x38, 0x45, 0xff, // cmp byte ptr [rbp-0x1],al
            0x3a, 0x4d, 0xff, // cmp cl,byte ptr [rbp-0x1]
            0x84, 0x4d, 0xff, // test byte ptr [rbp-0x1],cl
            0x41, 0x38, 0x48, 0x10, // cmp byte ptr [r8+0x10],cl
            0x45, 0x84, 0x48, 0x10, // test byte ptr [r8+0x10],r9b
        ],
    );

    assert_eq!(instructions[0].mnemonic, "cmp");
    assert_eq!(instructions[0].size, 3);
    assert_eq!(instructions[0].operands, "byte ptr [rbp-0x1],al");
    assert!(instructions[0].typed_operands.iter().any(|operand| {
        operand.role == OperandRole::Source
            && operand.kind == OperandKind::Memory
            && operand.base.as_deref() == Some("rbp")
            && operand.displacement == Some(-1)
            && operand.width_bits == Some(8)
    }));
    let (reads, writes) = register_accesses_for_instruction(
        instructions[0].mnemonic.as_str(),
        &instructions[0].typed_operands,
    );
    assert_eq!(reads, vec!["al", "rbp"]);
    assert!(writes.is_empty());

    assert_eq!(instructions[1].mnemonic, "cmp");
    assert_eq!(instructions[1].size, 3);
    assert_eq!(instructions[1].operands, "cl,byte ptr [rbp-0x1]");
    let (reads, writes) = register_accesses_for_instruction(
        instructions[1].mnemonic.as_str(),
        &instructions[1].typed_operands,
    );
    assert_eq!(reads, vec!["cl", "rbp"]);
    assert!(writes.is_empty());

    assert_eq!(instructions[2].mnemonic, "test");
    assert_eq!(instructions[2].size, 3);
    assert_eq!(instructions[2].operands, "byte ptr [rbp-0x1],cl");
    let (reads, writes) = register_accesses_for_instruction(
        instructions[2].mnemonic.as_str(),
        &instructions[2].typed_operands,
    );
    assert_eq!(reads, vec!["cl", "rbp"]);
    assert!(writes.is_empty());

    assert_eq!(instructions[3].mnemonic, "cmp");
    assert_eq!(instructions[3].size, 4);
    assert_eq!(instructions[3].operands, "byte ptr [r8+0x10],cl");
    let (reads, writes) = register_accesses_for_instruction(
        instructions[3].mnemonic.as_str(),
        &instructions[3].typed_operands,
    );
    assert_eq!(reads, vec!["cl", "r8"]);
    assert!(writes.is_empty());

    assert_eq!(instructions[4].mnemonic, "test");
    assert_eq!(instructions[4].size, 4);
    assert_eq!(instructions[4].operands, "byte ptr [r8+0x10],r9b");
    let (reads, writes) = register_accesses_for_instruction(
        instructions[4].mnemonic.as_str(),
        &instructions[4].typed_operands,
    );
    assert_eq!(reads, vec!["r8", "r9b"]);
    assert!(writes.is_empty());
}

#[test]
fn native_decoder_decodes_cmp_test_rm8_immediate_operands() {
    let instructions = decode_native_instructions(
        0x8078,
        &[
            0x80, 0x7d, 0xff, 0x7f, // cmp byte ptr [rbp-0x1],0x7f
            0xf6, 0x45, 0xff, 0x80, // test byte ptr [rbp-0x1],0x80
            0x41, 0x80, 0x78, 0x10, 0x01, // cmp byte ptr [r8+0x10],0x1
            0x41, 0xf6, 0x40, 0x10, 0xff, // test byte ptr [r8+0x10],0xff
            0x40, 0x80, 0xfc, 0x01, // cmp spl,0x1
        ],
    );

    assert_eq!(instructions[0].mnemonic, "cmp");
    assert_eq!(instructions[0].size, 4);
    assert_eq!(instructions[0].operands, "byte ptr [rbp-0x1],0x7f");
    assert!(instructions[0].typed_operands.iter().any(|operand| {
        operand.role == OperandRole::Source
            && operand.kind == OperandKind::Memory
            && operand.base.as_deref() == Some("rbp")
            && operand.displacement == Some(-1)
            && operand.width_bits == Some(8)
    }));
    assert!(instructions[0].typed_operands.iter().any(|operand| {
        operand.role == OperandRole::Source
            && operand.kind == OperandKind::Immediate
            && operand.value == Some(0x7f)
            && operand.width_bits == Some(8)
    }));
    let (reads, writes) = register_accesses_for_instruction(
        instructions[0].mnemonic.as_str(),
        &instructions[0].typed_operands,
    );
    assert_eq!(reads, vec!["rbp"]);
    assert!(writes.is_empty());

    assert_eq!(instructions[1].mnemonic, "test");
    assert_eq!(instructions[1].size, 4);
    assert_eq!(instructions[1].operands, "byte ptr [rbp-0x1],0x80");
    let (reads, writes) = register_accesses_for_instruction(
        instructions[1].mnemonic.as_str(),
        &instructions[1].typed_operands,
    );
    assert_eq!(reads, vec!["rbp"]);
    assert!(writes.is_empty());

    assert_eq!(instructions[2].mnemonic, "cmp");
    assert_eq!(instructions[2].size, 5);
    assert_eq!(instructions[2].operands, "byte ptr [r8+0x10],0x1");
    let (reads, writes) = register_accesses_for_instruction(
        instructions[2].mnemonic.as_str(),
        &instructions[2].typed_operands,
    );
    assert_eq!(reads, vec!["r8"]);
    assert!(writes.is_empty());

    assert_eq!(instructions[3].mnemonic, "test");
    assert_eq!(instructions[3].size, 5);
    assert_eq!(instructions[3].operands, "byte ptr [r8+0x10],0xff");
    let (reads, writes) = register_accesses_for_instruction(
        instructions[3].mnemonic.as_str(),
        &instructions[3].typed_operands,
    );
    assert_eq!(reads, vec!["r8"]);
    assert!(writes.is_empty());

    assert_eq!(instructions[4].mnemonic, "cmp");
    assert_eq!(instructions[4].size, 4);
    assert_eq!(instructions[4].operands, "spl,0x1");
    let (reads, writes) = register_accesses_for_instruction(
        instructions[4].mnemonic.as_str(),
        &instructions[4].typed_operands,
    );
    assert_eq!(reads, vec!["spl"]);
    assert!(writes.is_empty());
}

#[test]
fn native_decoder_decodes_group1_rm8_immediates() {
    let instructions = decode_native_instructions(
        0x8078,
        &[
            0x80, 0x45, 0xff, 0x02, // add byte ptr [rbp-0x1],0x2
            0x80, 0x6d, 0xff, 0x01, // sub byte ptr [rbp-0x1],0x1
            0x80, 0x65, 0xff, 0x0f, // and byte ptr [rbp-0x1],0xf
            0x80, 0x4d, 0xff, 0x03, // or byte ptr [rbp-0x1],0x3
            0x80, 0x75, 0xff, 0xff, // xor byte ptr [rbp-0x1],0xff
            0x41, 0x80, 0x40, 0x10, 0x02, // add byte ptr [r8+0x10],0x2
            0x40, 0x80, 0xc4, 0x01, // add spl,0x1
        ],
    );

    assert_eq!(instructions[0].mnemonic, "add");
    assert_eq!(instructions[0].size, 4);
    assert_eq!(instructions[0].operands, "byte ptr [rbp-0x1],0x2");
    assert!(instructions[0].typed_operands.iter().any(|operand| {
        operand.role == OperandRole::Destination
            && operand.kind == OperandKind::Memory
            && operand.base.as_deref() == Some("rbp")
            && operand.displacement == Some(-1)
            && operand.width_bits == Some(8)
    }));
    let (reads, writes) = register_accesses_for_instruction(
        instructions[0].mnemonic.as_str(),
        &instructions[0].typed_operands,
    );
    assert_eq!(reads, vec!["rbp"]);
    assert!(writes.is_empty());

    assert_eq!(instructions[1].mnemonic, "sub");
    assert_eq!(instructions[1].operands, "byte ptr [rbp-0x1],0x1");
    assert_eq!(instructions[2].mnemonic, "and");
    assert_eq!(instructions[2].operands, "byte ptr [rbp-0x1],0xf");
    assert_eq!(instructions[3].mnemonic, "or");
    assert_eq!(instructions[3].operands, "byte ptr [rbp-0x1],0x3");
    assert_eq!(instructions[4].mnemonic, "xor");
    assert_eq!(instructions[4].operands, "byte ptr [rbp-0x1],0xff");

    assert_eq!(instructions[5].mnemonic, "add");
    assert_eq!(instructions[5].size, 5);
    assert_eq!(instructions[5].operands, "byte ptr [r8+0x10],0x2");
    assert!(instructions[5].typed_operands.iter().any(|operand| {
        operand.role == OperandRole::Destination
            && operand.kind == OperandKind::Memory
            && operand.base.as_deref() == Some("r8")
            && operand.displacement == Some(0x10)
            && operand.width_bits == Some(8)
    }));

    assert_eq!(instructions[6].mnemonic, "add");
    assert_eq!(instructions[6].size, 4);
    assert_eq!(instructions[6].operands, "spl,0x1");
    let (reads, writes) = register_accesses_for_instruction(
        instructions[6].mnemonic.as_str(),
        &instructions[6].typed_operands,
    );
    assert_eq!(reads, vec!["spl"]);
    assert_eq!(writes, vec!["spl"]);
}

#[test]
fn native_decoder_decodes_group1_rm8_adc_sbb_immediates() {
    let instructions = decode_native_instructions(
        0x807c,
        &[
            0x80, 0xd0, 0x05, // adc al,0x5
            0x80, 0xd9, 0x01, // sbb cl,0x1
            0x80, 0x55, 0xff, 0x02, // adc byte ptr [rbp-0x1],0x2
            0x80, 0x5d, 0xff, 0x01, // sbb byte ptr [rbp-0x1],0x1
            0x41, 0x80, 0x50, 0x10, 0x02, // adc byte ptr [r8+0x10],0x2
            0x40, 0x80, 0xd4, 0x01, // adc spl,0x1
        ],
    );

    assert_eq!(instructions[0].mnemonic, "adc");
    assert_eq!(instructions[0].size, 3);
    assert_eq!(instructions[0].operands, "al,0x5");
    let (reads, writes) = register_accesses_for_instruction(
        instructions[0].mnemonic.as_str(),
        &instructions[0].typed_operands,
    );
    assert_eq!(reads, vec!["al"]);
    assert_eq!(writes, vec!["al"]);

    assert_eq!(instructions[1].mnemonic, "sbb");
    assert_eq!(instructions[1].operands, "cl,0x1");

    assert_eq!(instructions[2].mnemonic, "adc");
    assert_eq!(instructions[2].size, 4);
    assert_eq!(instructions[2].operands, "byte ptr [rbp-0x1],0x2");
    assert!(instructions[2].typed_operands.iter().any(|operand| {
        operand.role == OperandRole::Destination
            && operand.kind == OperandKind::Memory
            && operand.base.as_deref() == Some("rbp")
            && operand.displacement == Some(-1)
            && operand.width_bits == Some(8)
    }));

    assert_eq!(instructions[3].mnemonic, "sbb");
    assert_eq!(instructions[3].operands, "byte ptr [rbp-0x1],0x1");

    assert_eq!(instructions[4].mnemonic, "adc");
    assert_eq!(instructions[4].size, 5);
    assert_eq!(instructions[4].operands, "byte ptr [r8+0x10],0x2");
    assert!(instructions[4].typed_operands.iter().any(|operand| {
        operand.role == OperandRole::Destination
            && operand.kind == OperandKind::Memory
            && operand.base.as_deref() == Some("r8")
            && operand.displacement == Some(0x10)
            && operand.width_bits == Some(8)
    }));

    assert_eq!(instructions[5].mnemonic, "adc");
    assert_eq!(instructions[5].size, 4);
    assert_eq!(instructions[5].operands, "spl,0x1");
    let (reads, writes) = register_accesses_for_instruction(
        instructions[5].mnemonic.as_str(),
        &instructions[5].typed_operands,
    );
    assert_eq!(reads, vec!["spl"]);
    assert_eq!(writes, vec!["spl"]);
}

#[test]
fn native_decoder_decodes_adc_sbb_rm8_register_memory_operands() {
    let instructions = decode_native_instructions(
        0x807e,
        &[
            0x10, 0xc8, // adc al,cl
            0x12, 0xc8, // adc cl,al
            0x18, 0x45, 0xff, // sbb byte ptr [rbp-0x1],al
            0x1a, 0x4d, 0xff, // sbb cl,byte ptr [rbp-0x1]
            0x41, 0x10, 0x48, 0x10, // adc byte ptr [r8+0x10],cl
            0x45, 0x1a, 0x48, 0x10, // sbb r9b,byte ptr [r8+0x10]
            0x40, 0x10, 0xcc, // adc spl,cl
        ],
    );

    assert_eq!(instructions[0].mnemonic, "adc");
    assert_eq!(instructions[0].size, 2);
    assert_eq!(instructions[0].operands, "al,cl");
    let (reads, writes) = register_accesses_for_instruction(
        instructions[0].mnemonic.as_str(),
        &instructions[0].typed_operands,
    );
    assert_eq!(reads, vec!["al", "cl"]);
    assert_eq!(writes, vec!["al"]);

    assert_eq!(instructions[1].mnemonic, "adc");
    assert_eq!(instructions[1].operands, "cl,al");
    let (reads, writes) = register_accesses_for_instruction(
        instructions[1].mnemonic.as_str(),
        &instructions[1].typed_operands,
    );
    assert_eq!(reads, vec!["al", "cl"]);
    assert_eq!(writes, vec!["cl"]);

    assert_eq!(instructions[2].mnemonic, "sbb");
    assert_eq!(instructions[2].size, 3);
    assert_eq!(instructions[2].operands, "byte ptr [rbp-0x1],al");
    assert!(instructions[2].typed_operands.iter().any(|operand| {
        operand.role == OperandRole::Destination
            && operand.kind == OperandKind::Memory
            && operand.base.as_deref() == Some("rbp")
            && operand.displacement == Some(-1)
            && operand.width_bits == Some(8)
    }));
    let (reads, writes) = register_accesses_for_instruction(
        instructions[2].mnemonic.as_str(),
        &instructions[2].typed_operands,
    );
    assert_eq!(reads, vec!["al", "rbp"]);
    assert!(writes.is_empty());

    assert_eq!(instructions[3].mnemonic, "sbb");
    assert_eq!(instructions[3].size, 3);
    assert_eq!(instructions[3].operands, "cl,byte ptr [rbp-0x1]");
    assert!(instructions[3].typed_operands.iter().any(|operand| {
        operand.role == OperandRole::Source
            && operand.kind == OperandKind::Memory
            && operand.base.as_deref() == Some("rbp")
            && operand.displacement == Some(-1)
            && operand.width_bits == Some(8)
    }));
    let (reads, writes) = register_accesses_for_instruction(
        instructions[3].mnemonic.as_str(),
        &instructions[3].typed_operands,
    );
    assert_eq!(reads, vec!["cl", "rbp"]);
    assert_eq!(writes, vec!["cl"]);

    assert_eq!(instructions[4].mnemonic, "adc");
    assert_eq!(instructions[4].size, 4);
    assert_eq!(instructions[4].operands, "byte ptr [r8+0x10],cl");
    assert!(instructions[4].typed_operands.iter().any(|operand| {
        operand.role == OperandRole::Destination
            && operand.kind == OperandKind::Memory
            && operand.base.as_deref() == Some("r8")
            && operand.displacement == Some(0x10)
            && operand.width_bits == Some(8)
    }));

    assert_eq!(instructions[5].mnemonic, "sbb");
    assert_eq!(instructions[5].size, 4);
    assert_eq!(instructions[5].operands, "r9b,byte ptr [r8+0x10]");
    let (reads, writes) = register_accesses_for_instruction(
        instructions[5].mnemonic.as_str(),
        &instructions[5].typed_operands,
    );
    assert_eq!(reads, vec!["r8", "r9b"]);
    assert_eq!(writes, vec!["r9b"]);

    assert_eq!(instructions[6].mnemonic, "adc");
    assert_eq!(instructions[6].size, 3);
    assert_eq!(instructions[6].operands, "spl,cl");
    let (reads, writes) = register_accesses_for_instruction(
        instructions[6].mnemonic.as_str(),
        &instructions[6].typed_operands,
    );
    assert_eq!(reads, vec!["cl", "spl"]);
    assert_eq!(writes, vec!["spl"]);
}

#[test]
fn native_decoder_decodes_mov_rm32_immediate_memory_destinations() {
    let instructions = decode_native_instructions(
        0x8078,
        &[
            0xc7, 0x45, 0xfc, 0x2a, 0x00, 0x00, 0x00, // mov dword ptr [rbp-0x4],0x2a
            0x41, 0xc7, 0x40, 0x10, 0xef, 0xbe, 0x00,
            0x00, // mov dword ptr [r8+0x10],0xbeef
        ],
    );

    assert_eq!(instructions[0].mnemonic, "mov");
    assert_eq!(instructions[0].size, 7);
    assert_eq!(instructions[0].operands, "dword ptr [rbp-0x4],0x2a");
    assert!(instructions[0].typed_operands.iter().any(|operand| {
        operand.role == OperandRole::Destination
            && operand.kind == OperandKind::Memory
            && operand.base.as_deref() == Some("rbp")
            && operand.displacement == Some(-4)
            && operand.width_bits == Some(32)
    }));
    let (reads, writes) = register_accesses_for_instruction(
        instructions[0].mnemonic.as_str(),
        &instructions[0].typed_operands,
    );
    assert_eq!(reads, vec!["rbp"]);
    assert!(writes.is_empty());

    assert_eq!(instructions[1].mnemonic, "mov");
    assert_eq!(instructions[1].size, 8);
    assert_eq!(instructions[1].operands, "dword ptr [r8+0x10],0xbeef");
    assert!(instructions[1].typed_operands.iter().any(|operand| {
        operand.role == OperandRole::Destination
            && operand.kind == OperandKind::Memory
            && operand.base.as_deref() == Some("r8")
            && operand.displacement == Some(0x10)
            && operand.width_bits == Some(32)
    }));
    let (reads, writes) = register_accesses_for_instruction(
        instructions[1].mnemonic.as_str(),
        &instructions[1].typed_operands,
    );
    assert_eq!(reads, vec!["r8"]);
    assert!(writes.is_empty());
}

#[test]
fn native_decoder_decodes_mov_rm8_immediate_destinations() {
    let instructions = decode_native_instructions(
        0x807a,
        &[
            0xc6, 0xc0, 0x7f, // mov al,0x7f
            0x41, 0xc6, 0xc0, 0x80, // mov r8b,0x80
            0xc6, 0x45, 0xff, 0x01, // mov byte ptr [rbp-0x1],0x1
        ],
    );

    assert_eq!(instructions[0].mnemonic, "mov");
    assert_eq!(instructions[0].size, 3);
    assert_eq!(instructions[0].operands, "al,0x7f");
    assert!(instructions[0].typed_operands.iter().any(|operand| {
        operand.role == OperandRole::Destination
            && operand.kind == OperandKind::Register
            && operand.register.as_deref() == Some("al")
            && operand.width_bits == Some(8)
    }));

    assert_eq!(instructions[1].mnemonic, "mov");
    assert_eq!(instructions[1].size, 4);
    assert_eq!(instructions[1].operands, "r8b,0x80");
    assert!(instructions[1].typed_operands.iter().any(|operand| {
        operand.role == OperandRole::Destination
            && operand.kind == OperandKind::Register
            && operand.register.as_deref() == Some("r8b")
            && operand.width_bits == Some(8)
    }));

    assert_eq!(instructions[2].mnemonic, "mov");
    assert_eq!(instructions[2].size, 4);
    assert_eq!(instructions[2].operands, "byte ptr [rbp-0x1],0x1");
    assert!(instructions[2].typed_operands.iter().any(|operand| {
        operand.role == OperandRole::Destination
            && operand.kind == OperandKind::Memory
            && operand.base.as_deref() == Some("rbp")
            && operand.displacement == Some(-1)
            && operand.width_bits == Some(8)
    }));
    let (reads, writes) = register_accesses_for_instruction(
        instructions[2].mnemonic.as_str(),
        &instructions[2].typed_operands,
    );
    assert_eq!(reads, vec!["rbp"]);
    assert!(writes.is_empty());
}

#[test]
fn native_decoder_decodes_mov_rm16_immediate_destinations() {
    let instructions = decode_native_instructions(
        0x807c,
        &[
            0x66, 0xc7, 0xc0, 0x34, 0x12, // mov ax,0x1234
            0x66, 0xc7, 0x45, 0xfe, 0xef, 0xbe, // mov word ptr [rbp-0x2],0xbeef
        ],
    );

    assert_eq!(instructions[0].mnemonic, "mov");
    assert_eq!(instructions[0].size, 5);
    assert_eq!(instructions[0].operands, "ax,0x1234");
    assert!(instructions[0].typed_operands.iter().any(|operand| {
        operand.role == OperandRole::Destination
            && operand.kind == OperandKind::Register
            && operand.register.as_deref() == Some("ax")
            && operand.width_bits == Some(16)
    }));
    assert!(instructions[0].typed_operands.iter().any(|operand| {
        operand.role == OperandRole::Source
            && operand.kind == OperandKind::Immediate
            && operand.value == Some(0x1234)
            && operand.width_bits == Some(16)
    }));

    assert_eq!(instructions[1].mnemonic, "mov");
    assert_eq!(instructions[1].size, 6);
    assert_eq!(instructions[1].operands, "word ptr [rbp-0x2],0xbeef");
    assert!(instructions[1].typed_operands.iter().any(|operand| {
        operand.role == OperandRole::Destination
            && operand.kind == OperandKind::Memory
            && operand.base.as_deref() == Some("rbp")
            && operand.displacement == Some(-2)
            && operand.width_bits == Some(16)
    }));
    let (reads, writes) = register_accesses_for_instruction(
        instructions[1].mnemonic.as_str(),
        &instructions[1].typed_operands,
    );
    assert_eq!(reads, vec!["rbp"]);
    assert!(writes.is_empty());
}

#[test]
fn native_decoder_decodes_mov_rm16_register_and_memory_forms() {
    let instructions = decode_native_instructions(
        0x8082,
        &[
            0x66, 0x89, 0xc8, // mov ax,cx
            0x66, 0x8b, 0xc8, // mov cx,ax
            0x66, 0x89, 0x45, 0xfe, // mov word ptr [rbp-0x2],ax
            0x66, 0x8b, 0x4d, 0xfe, // mov cx,word ptr [rbp-0x2]
            0x66, 0x41, 0x89, 0xc8, // mov r8w,cx
        ],
    );

    assert_eq!(instructions[0].mnemonic, "mov");
    assert_eq!(instructions[0].size, 3);
    assert_eq!(instructions[0].operands, "ax,cx");
    assert!(instructions[0].typed_operands.iter().any(|operand| {
        operand.role == OperandRole::Destination
            && operand.kind == OperandKind::Register
            && operand.register.as_deref() == Some("ax")
            && operand.width_bits == Some(16)
    }));
    assert!(instructions[0].typed_operands.iter().any(|operand| {
        operand.role == OperandRole::Source
            && operand.kind == OperandKind::Register
            && operand.register.as_deref() == Some("cx")
            && operand.width_bits == Some(16)
    }));
    let (reads, writes) = register_accesses_for_instruction(
        instructions[0].mnemonic.as_str(),
        &instructions[0].typed_operands,
    );
    assert_eq!(reads, vec!["cx"]);
    assert_eq!(writes, vec!["ax"]);

    assert_eq!(instructions[1].mnemonic, "mov");
    assert_eq!(instructions[1].size, 3);
    assert_eq!(instructions[1].operands, "cx,ax");
    let (reads, writes) = register_accesses_for_instruction(
        instructions[1].mnemonic.as_str(),
        &instructions[1].typed_operands,
    );
    assert_eq!(reads, vec!["ax"]);
    assert_eq!(writes, vec!["cx"]);

    assert_eq!(instructions[2].mnemonic, "mov");
    assert_eq!(instructions[2].size, 4);
    assert_eq!(instructions[2].operands, "word ptr [rbp-0x2],ax");
    assert!(instructions[2].typed_operands.iter().any(|operand| {
        operand.role == OperandRole::Destination
            && operand.kind == OperandKind::Memory
            && operand.base.as_deref() == Some("rbp")
            && operand.displacement == Some(-2)
            && operand.width_bits == Some(16)
    }));
    let (reads, writes) = register_accesses_for_instruction(
        instructions[2].mnemonic.as_str(),
        &instructions[2].typed_operands,
    );
    assert_eq!(reads, vec!["ax", "rbp"]);
    assert!(writes.is_empty());

    assert_eq!(instructions[3].mnemonic, "mov");
    assert_eq!(instructions[3].size, 4);
    assert_eq!(instructions[3].operands, "cx,word ptr [rbp-0x2]");
    assert!(instructions[3].typed_operands.iter().any(|operand| {
        operand.role == OperandRole::Source
            && operand.kind == OperandKind::Memory
            && operand.base.as_deref() == Some("rbp")
            && operand.displacement == Some(-2)
            && operand.width_bits == Some(16)
    }));
    let (reads, writes) = register_accesses_for_instruction(
        instructions[3].mnemonic.as_str(),
        &instructions[3].typed_operands,
    );
    assert_eq!(reads, vec!["rbp"]);
    assert_eq!(writes, vec!["cx"]);

    assert_eq!(instructions[4].mnemonic, "mov");
    assert_eq!(instructions[4].size, 4);
    assert_eq!(instructions[4].operands, "r8w,cx");
    assert!(instructions[4].typed_operands.iter().any(|operand| {
        operand.role == OperandRole::Destination
            && operand.kind == OperandKind::Register
            && operand.register.as_deref() == Some("r8w")
            && operand.width_bits == Some(16)
    }));
}

#[test]
fn native_decoder_decodes_32_bit_group1_immediates() {
    let instructions = decode_native_instructions(
        0x8080,
        &[
            0x83, 0xc0, 0x05, // add eax,0x5
            0x81, 0xe9, 0x78, 0x56, 0x34, 0x12, // sub ecx,0x12345678
            0x41, 0x83, 0xc0, 0x02, // add r8d,0x2
            0x41, 0x83, 0xe9, 0x01, // sub r9d,0x1
            0x83, 0xe0, 0xf0, // and eax,-0x10
            0x83, 0xc9, 0x03, // or ecx,0x3
            0x41, 0x81, 0xf0, 0xff, 0x00, 0x00, 0x00, // xor r8d,0xff
        ],
    );

    assert_eq!(instructions[0].mnemonic, "add");
    assert_eq!(instructions[0].size, 3);
    assert_eq!(instructions[0].operands, "eax,0x5");
    let (reads, writes) = register_accesses_for_instruction(
        instructions[0].mnemonic.as_str(),
        &instructions[0].typed_operands,
    );
    assert_eq!(reads, vec!["eax"]);
    assert_eq!(writes, vec!["eax"]);
    assert!(instructions[0].typed_operands.iter().any(|operand| {
        operand.role == OperandRole::Destination
            && operand.kind == OperandKind::Register
            && operand.register.as_deref() == Some("eax")
            && operand.width_bits == Some(32)
    }));
    assert!(instructions[0].typed_operands.iter().any(|operand| {
        operand.role == OperandRole::Source
            && operand.kind == OperandKind::Immediate
            && operand.value == Some(0x5)
            && operand.width_bits == Some(8)
    }));

    assert_eq!(instructions[1].mnemonic, "sub");
    assert_eq!(instructions[1].size, 6);
    assert_eq!(instructions[1].operands, "ecx,0x12345678");
    let (reads, writes) = register_accesses_for_instruction(
        instructions[1].mnemonic.as_str(),
        &instructions[1].typed_operands,
    );
    assert_eq!(reads, vec!["ecx"]);
    assert_eq!(writes, vec!["ecx"]);

    assert_eq!(instructions[2].mnemonic, "add");
    assert_eq!(instructions[2].size, 4);
    assert_eq!(instructions[2].operands, "r8d,0x2");
    let (reads, writes) = register_accesses_for_instruction(
        instructions[2].mnemonic.as_str(),
        &instructions[2].typed_operands,
    );
    assert_eq!(reads, vec!["r8d"]);
    assert_eq!(writes, vec!["r8d"]);

    assert_eq!(instructions[3].mnemonic, "sub");
    assert_eq!(instructions[3].operands, "r9d,0x1");

    assert_eq!(instructions[4].mnemonic, "and");
    assert_eq!(instructions[4].operands, "eax,0xfffffffffffffff0");
    let (reads, writes) = register_accesses_for_instruction(
        instructions[4].mnemonic.as_str(),
        &instructions[4].typed_operands,
    );
    assert_eq!(reads, vec!["eax"]);
    assert_eq!(writes, vec!["eax"]);

    assert_eq!(instructions[5].mnemonic, "or");
    assert_eq!(instructions[5].operands, "ecx,0x3");

    assert_eq!(instructions[6].mnemonic, "xor");
    assert_eq!(instructions[6].size, 7);
    assert_eq!(instructions[6].operands, "r8d,0xff");
}

#[test]
fn native_decoder_decodes_32_bit_group1_memory_immediates() {
    let instructions = decode_native_instructions(
        0x8086,
        &[
            0x83, 0x45, 0xfc, 0x02, // add dword ptr [rbp-0x4],0x2
            0x83, 0x6d, 0xfc, 0x01, // sub dword ptr [rbp-0x4],0x1
            0x83, 0x65, 0xfc, 0x0f, // and dword ptr [rbp-0x4],0xf
            0x83, 0x4d, 0xfc, 0x03, // or dword ptr [rbp-0x4],0x3
            0x81, 0x75, 0xfc, 0xff, 0x00, 0x00, 0x00, // xor dword ptr [rbp-0x4],0xff
            0x41, 0x83, 0x40, 0x10, 0x02, // add dword ptr [r8+0x10],0x2
        ],
    );

    assert_eq!(instructions[0].mnemonic, "add");
    assert_eq!(instructions[0].size, 4);
    assert_eq!(instructions[0].operands, "dword ptr [rbp-0x4],0x2");
    assert!(instructions[0].typed_operands.iter().any(|operand| {
        operand.role == OperandRole::Destination
            && operand.kind == OperandKind::Memory
            && operand.base.as_deref() == Some("rbp")
            && operand.displacement == Some(-4)
            && operand.width_bits == Some(32)
    }));
    let (reads, writes) = register_accesses_for_instruction(
        instructions[0].mnemonic.as_str(),
        &instructions[0].typed_operands,
    );
    assert_eq!(reads, vec!["rbp"]);
    assert!(writes.is_empty());

    assert_eq!(instructions[1].mnemonic, "sub");
    assert_eq!(instructions[1].operands, "dword ptr [rbp-0x4],0x1");
    assert_eq!(instructions[2].mnemonic, "and");
    assert_eq!(instructions[2].operands, "dword ptr [rbp-0x4],0xf");
    assert_eq!(instructions[3].mnemonic, "or");
    assert_eq!(instructions[3].operands, "dword ptr [rbp-0x4],0x3");
    assert_eq!(instructions[4].mnemonic, "xor");
    assert_eq!(instructions[4].size, 7);
    assert_eq!(instructions[4].operands, "dword ptr [rbp-0x4],0xff");
    assert_eq!(instructions[5].mnemonic, "add");
    assert_eq!(instructions[5].size, 5);
    assert_eq!(instructions[5].operands, "dword ptr [r8+0x10],0x2");
    assert!(instructions[5].typed_operands.iter().any(|operand| {
        operand.role == OperandRole::Destination
            && operand.kind == OperandKind::Memory
            && operand.base.as_deref() == Some("r8")
            && operand.displacement == Some(0x10)
            && operand.width_bits == Some(32)
    }));
}

#[test]
fn native_decoder_decodes_32_bit_group1_adc_sbb_immediates() {
    let instructions = decode_native_instructions(
        0x8088,
        &[
            0x83, 0xd0, 0x05, // adc eax,0x5
            0x81, 0xd9, 0x78, 0x56, 0x34, 0x12, // sbb ecx,0x12345678
            0x83, 0x55, 0xfc, 0x02, // adc dword ptr [rbp-0x4],0x2
            0x83, 0x5d, 0xfc, 0x01, // sbb dword ptr [rbp-0x4],0x1
            0x41, 0x83, 0x50, 0x10, 0x02, // adc dword ptr [r8+0x10],0x2
        ],
    );

    assert_eq!(instructions[0].mnemonic, "adc");
    assert_eq!(instructions[0].size, 3);
    assert_eq!(instructions[0].operands, "eax,0x5");
    let (reads, writes) = register_accesses_for_instruction(
        instructions[0].mnemonic.as_str(),
        &instructions[0].typed_operands,
    );
    assert_eq!(reads, vec!["eax"]);
    assert_eq!(writes, vec!["eax"]);
    assert!(instructions[0].typed_operands.iter().any(|operand| {
        operand.role == OperandRole::Destination
            && operand.kind == OperandKind::Register
            && operand.register.as_deref() == Some("eax")
            && operand.width_bits == Some(32)
    }));
    assert!(instructions[0].typed_operands.iter().any(|operand| {
        operand.role == OperandRole::Source
            && operand.kind == OperandKind::Immediate
            && operand.value == Some(0x5)
            && operand.width_bits == Some(8)
    }));

    assert_eq!(instructions[1].mnemonic, "sbb");
    assert_eq!(instructions[1].size, 6);
    assert_eq!(instructions[1].operands, "ecx,0x12345678");

    assert_eq!(instructions[2].mnemonic, "adc");
    assert_eq!(instructions[2].size, 4);
    assert_eq!(instructions[2].operands, "dword ptr [rbp-0x4],0x2");
    assert!(instructions[2].typed_operands.iter().any(|operand| {
        operand.role == OperandRole::Destination
            && operand.kind == OperandKind::Memory
            && operand.base.as_deref() == Some("rbp")
            && operand.displacement == Some(-4)
            && operand.width_bits == Some(32)
    }));
    let (reads, writes) = register_accesses_for_instruction(
        instructions[2].mnemonic.as_str(),
        &instructions[2].typed_operands,
    );
    assert_eq!(reads, vec!["rbp"]);
    assert!(writes.is_empty());

    assert_eq!(instructions[3].mnemonic, "sbb");
    assert_eq!(instructions[3].operands, "dword ptr [rbp-0x4],0x1");

    assert_eq!(instructions[4].mnemonic, "adc");
    assert_eq!(instructions[4].size, 5);
    assert_eq!(instructions[4].operands, "dword ptr [r8+0x10],0x2");
    assert!(instructions[4].typed_operands.iter().any(|operand| {
        operand.role == OperandRole::Destination
            && operand.kind == OperandKind::Memory
            && operand.base.as_deref() == Some("r8")
            && operand.displacement == Some(0x10)
            && operand.width_bits == Some(32)
    }));
}

#[test]
fn native_decoder_decodes_32_bit_adc_sbb_register_memory_operands() {
    let instructions = decode_native_instructions(
        0x808a,
        &[
            0x11, 0xc8, // adc eax,ecx
            0x13, 0xc8, // adc ecx,eax
            0x19, 0x45, 0xfc, // sbb dword ptr [rbp-0x4],eax
            0x1b, 0x4d, 0xfc, // sbb ecx,dword ptr [rbp-0x4]
            0x41, 0x11, 0x48, 0x10, // adc dword ptr [r8+0x10],ecx
            0x45, 0x1b, 0x48, 0x10, // sbb r9d,dword ptr [r8+0x10]
            0x49, 0x11, 0x48, 0x10, // adc qword ptr [r8+0x10],rcx
        ],
    );

    assert_eq!(instructions[0].mnemonic, "adc");
    assert_eq!(instructions[0].size, 2);
    assert_eq!(instructions[0].operands, "eax,ecx");
    let (reads, writes) = register_accesses_for_instruction(
        instructions[0].mnemonic.as_str(),
        &instructions[0].typed_operands,
    );
    assert_eq!(reads, vec!["eax", "ecx"]);
    assert_eq!(writes, vec!["eax"]);
    assert!(instructions[0].typed_operands.iter().any(|operand| {
        operand.role == OperandRole::Destination
            && operand.kind == OperandKind::Register
            && operand.register.as_deref() == Some("eax")
            && operand.width_bits == Some(32)
    }));

    assert_eq!(instructions[1].mnemonic, "adc");
    assert_eq!(instructions[1].operands, "ecx,eax");
    let (reads, writes) = register_accesses_for_instruction(
        instructions[1].mnemonic.as_str(),
        &instructions[1].typed_operands,
    );
    assert_eq!(reads, vec!["eax", "ecx"]);
    assert_eq!(writes, vec!["ecx"]);

    assert_eq!(instructions[2].mnemonic, "sbb");
    assert_eq!(instructions[2].size, 3);
    assert_eq!(instructions[2].operands, "dword ptr [rbp-0x4],eax");
    assert!(instructions[2].typed_operands.iter().any(|operand| {
        operand.role == OperandRole::Destination
            && operand.kind == OperandKind::Memory
            && operand.base.as_deref() == Some("rbp")
            && operand.displacement == Some(-4)
            && operand.width_bits == Some(32)
    }));
    let (reads, writes) = register_accesses_for_instruction(
        instructions[2].mnemonic.as_str(),
        &instructions[2].typed_operands,
    );
    assert_eq!(reads, vec!["eax", "rbp"]);
    assert!(writes.is_empty());

    assert_eq!(instructions[3].mnemonic, "sbb");
    assert_eq!(instructions[3].size, 3);
    assert_eq!(instructions[3].operands, "ecx,dword ptr [rbp-0x4]");
    assert!(instructions[3].typed_operands.iter().any(|operand| {
        operand.role == OperandRole::Source
            && operand.kind == OperandKind::Memory
            && operand.base.as_deref() == Some("rbp")
            && operand.displacement == Some(-4)
            && operand.width_bits == Some(32)
    }));
    let (reads, writes) = register_accesses_for_instruction(
        instructions[3].mnemonic.as_str(),
        &instructions[3].typed_operands,
    );
    assert_eq!(reads, vec!["ecx", "rbp"]);
    assert_eq!(writes, vec!["ecx"]);

    assert_eq!(instructions[4].mnemonic, "adc");
    assert_eq!(instructions[4].size, 4);
    assert_eq!(instructions[4].operands, "dword ptr [r8+0x10],ecx");
    assert!(instructions[4].typed_operands.iter().any(|operand| {
        operand.role == OperandRole::Destination
            && operand.kind == OperandKind::Memory
            && operand.base.as_deref() == Some("r8")
            && operand.displacement == Some(0x10)
            && operand.width_bits == Some(32)
    }));

    assert_eq!(instructions[5].mnemonic, "sbb");
    assert_eq!(instructions[5].size, 4);
    assert_eq!(instructions[5].operands, "r9d,dword ptr [r8+0x10]");
    let (reads, writes) = register_accesses_for_instruction(
        instructions[5].mnemonic.as_str(),
        &instructions[5].typed_operands,
    );
    assert_eq!(reads, vec!["r8", "r9d"]);
    assert_eq!(writes, vec!["r9d"]);

    assert_eq!(instructions[6].mnemonic, "adc");
    assert_eq!(instructions[6].size, 4);
    assert_eq!(instructions[6].operands, "qword ptr [r8+0x10],rcx");
    assert!(instructions[6].typed_operands.iter().any(|operand| {
        operand.role == OperandRole::Destination
            && operand.kind == OperandKind::Memory
            && operand.base.as_deref() == Some("r8")
            && operand.displacement == Some(0x10)
            && operand.width_bits == Some(64)
    }));
}

#[test]
fn native_decoder_decodes_32_bit_imul_immediates() {
    let instructions = decode_native_instructions(
        0x8088,
        &[
            0x6b, 0xc1, 0x05, // imul eax,ecx,5
            0x69, 0xd0, 0x78, 0x56, 0x34, 0x12, // imul edx,eax,0x12345678
            0x45, 0x6b, 0xc1, 0xfb, // imul r8d,r9d,-5
        ],
    );

    assert_eq!(instructions[0].mnemonic, "imul");
    assert_eq!(instructions[0].size, 3);
    assert_eq!(instructions[0].operands, "eax,ecx,0x5");
    let (reads, writes) = register_accesses_for_instruction(
        instructions[0].mnemonic.as_str(),
        &instructions[0].typed_operands,
    );
    assert_eq!(reads, vec!["ecx"]);
    assert_eq!(writes, vec!["eax"]);
    assert!(instructions[0].typed_operands.iter().any(|operand| {
        operand.role == OperandRole::Destination
            && operand.kind == OperandKind::Register
            && operand.register.as_deref() == Some("eax")
            && operand.width_bits == Some(32)
    }));
    assert!(instructions[0].typed_operands.iter().any(|operand| {
        operand.role == OperandRole::Source
            && operand.kind == OperandKind::Register
            && operand.register.as_deref() == Some("ecx")
            && operand.width_bits == Some(32)
    }));
    assert!(instructions[0].typed_operands.iter().any(|operand| {
        operand.role == OperandRole::Source
            && operand.kind == OperandKind::Immediate
            && operand.value == Some(0x5)
            && operand.width_bits == Some(8)
    }));

    assert_eq!(instructions[1].mnemonic, "imul");
    assert_eq!(instructions[1].size, 6);
    assert_eq!(instructions[1].operands, "edx,eax,0x12345678");

    assert_eq!(instructions[2].mnemonic, "imul");
    assert_eq!(instructions[2].size, 4);
    assert_eq!(instructions[2].operands, "r8d,r9d,0xfffffffffffffffb");
    let (reads, writes) = register_accesses_for_instruction(
        instructions[2].mnemonic.as_str(),
        &instructions[2].typed_operands,
    );
    assert_eq!(reads, vec!["r9d"]);
    assert_eq!(writes, vec!["r8d"]);
}

#[test]
fn native_decoder_decodes_32_bit_cmovcc_registers() {
    let instructions = decode_native_instructions(
        0x808c,
        &[
            0x0f, 0x44, 0xc1, // cmove eax,ecx
            0x45, 0x0f, 0x45, 0xc1, // cmovne r8d,r9d
        ],
    );

    assert_eq!(instructions[0].mnemonic, "cmove");
    assert_eq!(instructions[0].size, 3);
    assert_eq!(instructions[0].operands, "eax,ecx");
    let (reads, writes) = register_accesses_for_instruction(
        instructions[0].mnemonic.as_str(),
        &instructions[0].typed_operands,
    );
    assert_eq!(reads, vec!["ecx"]);
    assert_eq!(writes, vec!["eax"]);
    assert!(instructions[0].typed_operands.iter().any(|operand| {
        operand.role == OperandRole::Destination
            && operand.kind == OperandKind::Register
            && operand.register.as_deref() == Some("eax")
            && operand.width_bits == Some(32)
    }));
    assert!(instructions[0].typed_operands.iter().any(|operand| {
        operand.role == OperandRole::Source
            && operand.kind == OperandKind::Register
            && operand.register.as_deref() == Some("ecx")
            && operand.width_bits == Some(32)
    }));

    assert_eq!(instructions[1].mnemonic, "cmovne");
    assert_eq!(instructions[1].size, 4);
    assert_eq!(instructions[1].operands, "r8d,r9d");
    let (reads, writes) = register_accesses_for_instruction(
        instructions[1].mnemonic.as_str(),
        &instructions[1].typed_operands,
    );
    assert_eq!(reads, vec!["r9d"]);
    assert_eq!(writes, vec!["r8d"]);
}

#[test]
fn native_decoder_decodes_32_bit_cmovcc_memory_sources() {
    let instructions = decode_native_instructions(
        0x8090,
        &[
            0x0f, 0x44, 0x45, 0xfc, // cmove eax,dword ptr [rbp-0x4]
            0x0f, 0x45, 0x4d, 0xfc, // cmovne ecx,dword ptr [rbp-0x4]
            0x41, 0x0f, 0x44, 0x50, 0x10, // cmove edx,dword ptr [r8+0x10]
        ],
    );

    assert_eq!(instructions[0].mnemonic, "cmove");
    assert_eq!(instructions[0].size, 4);
    assert_eq!(instructions[0].operands, "eax,dword ptr [rbp-0x4]");
    assert!(instructions[0].typed_operands.iter().any(|operand| {
        operand.role == OperandRole::Destination
            && operand.kind == OperandKind::Register
            && operand.register.as_deref() == Some("eax")
            && operand.width_bits == Some(32)
    }));
    assert!(instructions[0].typed_operands.iter().any(|operand| {
        operand.role == OperandRole::Source
            && operand.kind == OperandKind::Memory
            && operand.base.as_deref() == Some("rbp")
            && operand.displacement == Some(-4)
            && operand.width_bits == Some(32)
    }));
    let (reads, writes) = register_accesses_for_instruction(
        instructions[0].mnemonic.as_str(),
        &instructions[0].typed_operands,
    );
    assert_eq!(reads, vec!["rbp"]);
    assert_eq!(writes, vec!["eax"]);

    assert_eq!(instructions[1].mnemonic, "cmovne");
    assert_eq!(instructions[1].size, 4);
    assert_eq!(instructions[1].operands, "ecx,dword ptr [rbp-0x4]");

    assert_eq!(instructions[2].mnemonic, "cmove");
    assert_eq!(instructions[2].size, 5);
    assert_eq!(instructions[2].operands, "edx,dword ptr [r8+0x10]");
    assert!(instructions[2].typed_operands.iter().any(|operand| {
        operand.role == OperandRole::Source
            && operand.kind == OperandKind::Memory
            && operand.base.as_deref() == Some("r8")
            && operand.displacement == Some(0x10)
            && operand.width_bits == Some(32)
    }));
}

#[test]
fn native_decoder_decodes_setcc_and_movzx_r32_rm8_registers() {
    let instructions = decode_native_instructions(
        0x8092,
        &[
            0x0f, 0x94, 0xc0, // sete al
            0x0f, 0xb6, 0xc0, // movzx eax,al
            0x41, 0x0f, 0x95, 0xc0, // setne r8b
            0x45, 0x0f, 0xb6, 0xc8, // movzx r9d,r8b
        ],
    );

    assert_eq!(instructions[0].mnemonic, "sete");
    assert_eq!(instructions[0].size, 3);
    assert_eq!(instructions[0].operands, "al");
    let (reads, writes) = register_accesses_for_instruction(
        instructions[0].mnemonic.as_str(),
        &instructions[0].typed_operands,
    );
    assert!(reads.is_empty());
    assert_eq!(writes, vec!["al"]);
    assert!(instructions[0].typed_operands.iter().any(|operand| {
        operand.role == OperandRole::Destination
            && operand.kind == OperandKind::Register
            && operand.register.as_deref() == Some("al")
            && operand.width_bits == Some(8)
    }));

    assert_eq!(instructions[1].mnemonic, "movzx");
    assert_eq!(instructions[1].size, 3);
    assert_eq!(instructions[1].operands, "eax,al");
    let (reads, writes) = register_accesses_for_instruction(
        instructions[1].mnemonic.as_str(),
        &instructions[1].typed_operands,
    );
    assert_eq!(reads, vec!["al"]);
    assert_eq!(writes, vec!["eax"]);

    assert_eq!(instructions[2].mnemonic, "setne");
    assert_eq!(instructions[2].size, 4);
    assert_eq!(instructions[2].operands, "r8b");

    assert_eq!(instructions[3].mnemonic, "movzx");
    assert_eq!(instructions[3].size, 4);
    assert_eq!(instructions[3].operands, "r9d,r8b");
    let (reads, writes) = register_accesses_for_instruction(
        instructions[3].mnemonic.as_str(),
        &instructions[3].typed_operands,
    );
    assert_eq!(reads, vec!["r8b"]);
    assert_eq!(writes, vec!["r9d"]);
}

#[test]
fn native_decoder_decodes_setcc_rm8_memory_operands() {
    let instructions = decode_native_instructions(
        0x8096,
        &[
            0x0f, 0x94, 0x45, 0xff, // sete byte ptr [rbp-0x1]
            0x0f, 0x95, 0x5d, 0xff, // setne byte ptr [rbp-0x1]
            0x41, 0x0f, 0x94, 0x40, 0x10, // sete byte ptr [r8+0x10]
            0x40, 0x0f, 0x94, 0xc4, // sete spl
        ],
    );

    assert_eq!(instructions[0].mnemonic, "sete");
    assert_eq!(instructions[0].size, 4);
    assert_eq!(instructions[0].operands, "byte ptr [rbp-0x1]");
    assert!(instructions[0].typed_operands.iter().any(|operand| {
        operand.role == OperandRole::Destination
            && operand.kind == OperandKind::Memory
            && operand.base.as_deref() == Some("rbp")
            && operand.displacement == Some(-1)
            && operand.width_bits == Some(8)
    }));
    let (reads, writes) = register_accesses_for_instruction(
        instructions[0].mnemonic.as_str(),
        &instructions[0].typed_operands,
    );
    assert_eq!(reads, vec!["rbp"]);
    assert!(writes.is_empty());

    assert_eq!(instructions[1].mnemonic, "setne");
    assert_eq!(instructions[1].size, 4);
    assert_eq!(instructions[1].operands, "byte ptr [rbp-0x1]");

    assert_eq!(instructions[2].mnemonic, "sete");
    assert_eq!(instructions[2].size, 5);
    assert_eq!(instructions[2].operands, "byte ptr [r8+0x10]");
    assert!(instructions[2].typed_operands.iter().any(|operand| {
        operand.role == OperandRole::Destination
            && operand.kind == OperandKind::Memory
            && operand.base.as_deref() == Some("r8")
            && operand.displacement == Some(0x10)
            && operand.width_bits == Some(8)
    }));

    assert_eq!(instructions[3].mnemonic, "sete");
    assert_eq!(instructions[3].size, 4);
    assert_eq!(instructions[3].operands, "spl");
    let (reads, writes) = register_accesses_for_instruction(
        instructions[3].mnemonic.as_str(),
        &instructions[3].typed_operands,
    );
    assert!(reads.is_empty());
    assert_eq!(writes, vec!["spl"]);
}

#[test]
fn native_decoder_decodes_movzx_r32_memory_sources() {
    let instructions = decode_native_instructions(
        0x8096,
        &[
            0x0f, 0xb6, 0x45, 0xff, // movzx eax,byte ptr [rbp-0x1]
            0x0f, 0xb7, 0x4d, 0xfe, // movzx ecx,word ptr [rbp-0x2]
            0x41, 0x0f, 0xb6, 0x50, 0x10, // movzx edx,byte ptr [r8+0x10]
            0x45, 0x0f, 0xb7, 0xc8, // movzx r9d,r8w
        ],
    );

    assert_eq!(instructions[0].mnemonic, "movzx");
    assert_eq!(instructions[0].size, 4);
    assert_eq!(instructions[0].operands, "eax,byte ptr [rbp-0x1]");
    assert!(instructions[0].typed_operands.iter().any(|operand| {
        operand.role == OperandRole::Source
            && operand.kind == OperandKind::Memory
            && operand.base.as_deref() == Some("rbp")
            && operand.displacement == Some(-1)
            && operand.width_bits == Some(8)
    }));
    let (reads, writes) = register_accesses_for_instruction(
        instructions[0].mnemonic.as_str(),
        &instructions[0].typed_operands,
    );
    assert_eq!(reads, vec!["rbp"]);
    assert_eq!(writes, vec!["eax"]);

    assert_eq!(instructions[1].mnemonic, "movzx");
    assert_eq!(instructions[1].size, 4);
    assert_eq!(instructions[1].operands, "ecx,word ptr [rbp-0x2]");
    assert!(instructions[1].typed_operands.iter().any(|operand| {
        operand.role == OperandRole::Source
            && operand.kind == OperandKind::Memory
            && operand.base.as_deref() == Some("rbp")
            && operand.displacement == Some(-2)
            && operand.width_bits == Some(16)
    }));
    let (reads, writes) = register_accesses_for_instruction(
        instructions[1].mnemonic.as_str(),
        &instructions[1].typed_operands,
    );
    assert_eq!(reads, vec!["rbp"]);
    assert_eq!(writes, vec!["ecx"]);

    assert_eq!(instructions[2].mnemonic, "movzx");
    assert_eq!(instructions[2].size, 5);
    assert_eq!(instructions[2].operands, "edx,byte ptr [r8+0x10]");
    assert!(instructions[2].typed_operands.iter().any(|operand| {
        operand.role == OperandRole::Source
            && operand.kind == OperandKind::Memory
            && operand.base.as_deref() == Some("r8")
            && operand.displacement == Some(0x10)
            && operand.width_bits == Some(8)
    }));
    let (reads, writes) = register_accesses_for_instruction(
        instructions[2].mnemonic.as_str(),
        &instructions[2].typed_operands,
    );
    assert_eq!(reads, vec!["r8"]);
    assert_eq!(writes, vec!["edx"]);

    assert_eq!(instructions[3].mnemonic, "movzx");
    assert_eq!(instructions[3].size, 4);
    assert_eq!(instructions[3].operands, "r9d,r8w");
    assert!(instructions[3].typed_operands.iter().any(|operand| {
        operand.role == OperandRole::Source
            && operand.kind == OperandKind::Register
            && operand.register.as_deref() == Some("r8w")
            && operand.width_bits == Some(16)
    }));
}

#[test]
fn native_decoder_decodes_movsx_r32_rm8_registers() {
    let instructions = decode_native_instructions(
        0x8098,
        &[
            0x0f, 0xbe, 0xc8, // movsx ecx,al
            0x45, 0x0f, 0xbe, 0xc8, // movsx r9d,r8b
        ],
    );

    assert_eq!(instructions[0].mnemonic, "movsx");
    assert_eq!(instructions[0].size, 3);
    assert_eq!(instructions[0].operands, "ecx,al");
    let (reads, writes) = register_accesses_for_instruction(
        instructions[0].mnemonic.as_str(),
        &instructions[0].typed_operands,
    );
    assert_eq!(reads, vec!["al"]);
    assert_eq!(writes, vec!["ecx"]);
    assert!(instructions[0].typed_operands.iter().any(|operand| {
        operand.role == OperandRole::Destination
            && operand.kind == OperandKind::Register
            && operand.register.as_deref() == Some("ecx")
            && operand.width_bits == Some(32)
    }));
    assert!(instructions[0].typed_operands.iter().any(|operand| {
        operand.role == OperandRole::Source
            && operand.kind == OperandKind::Register
            && operand.register.as_deref() == Some("al")
            && operand.width_bits == Some(8)
    }));

    assert_eq!(instructions[1].mnemonic, "movsx");
    assert_eq!(instructions[1].size, 4);
    assert_eq!(instructions[1].operands, "r9d,r8b");
    let (reads, writes) = register_accesses_for_instruction(
        instructions[1].mnemonic.as_str(),
        &instructions[1].typed_operands,
    );
    assert_eq!(reads, vec!["r8b"]);
    assert_eq!(writes, vec!["r9d"]);
}

#[test]
fn native_decoder_decodes_movsx_r32_memory_sources() {
    let instructions = decode_native_instructions(
        0x809a,
        &[
            0x0f, 0xbe, 0x45, 0xff, // movsx eax,byte ptr [rbp-0x1]
            0x0f, 0xbf, 0x4d, 0xfe, // movsx ecx,word ptr [rbp-0x2]
            0x41, 0x0f, 0xbe, 0x50, 0x10, // movsx edx,byte ptr [r8+0x10]
            0x45, 0x0f, 0xbf, 0xc8, // movsx r9d,r8w
        ],
    );

    assert_eq!(instructions[0].mnemonic, "movsx");
    assert_eq!(instructions[0].size, 4);
    assert_eq!(instructions[0].operands, "eax,byte ptr [rbp-0x1]");
    assert!(instructions[0].typed_operands.iter().any(|operand| {
        operand.role == OperandRole::Source
            && operand.kind == OperandKind::Memory
            && operand.base.as_deref() == Some("rbp")
            && operand.displacement == Some(-1)
            && operand.width_bits == Some(8)
    }));
    let (reads, writes) = register_accesses_for_instruction(
        instructions[0].mnemonic.as_str(),
        &instructions[0].typed_operands,
    );
    assert_eq!(reads, vec!["rbp"]);
    assert_eq!(writes, vec!["eax"]);

    assert_eq!(instructions[1].mnemonic, "movsx");
    assert_eq!(instructions[1].size, 4);
    assert_eq!(instructions[1].operands, "ecx,word ptr [rbp-0x2]");
    assert!(instructions[1].typed_operands.iter().any(|operand| {
        operand.role == OperandRole::Source
            && operand.kind == OperandKind::Memory
            && operand.base.as_deref() == Some("rbp")
            && operand.displacement == Some(-2)
            && operand.width_bits == Some(16)
    }));
    let (reads, writes) = register_accesses_for_instruction(
        instructions[1].mnemonic.as_str(),
        &instructions[1].typed_operands,
    );
    assert_eq!(reads, vec!["rbp"]);
    assert_eq!(writes, vec!["ecx"]);

    assert_eq!(instructions[2].mnemonic, "movsx");
    assert_eq!(instructions[2].size, 5);
    assert_eq!(instructions[2].operands, "edx,byte ptr [r8+0x10]");
    assert!(instructions[2].typed_operands.iter().any(|operand| {
        operand.role == OperandRole::Source
            && operand.kind == OperandKind::Memory
            && operand.base.as_deref() == Some("r8")
            && operand.displacement == Some(0x10)
            && operand.width_bits == Some(8)
    }));
    let (reads, writes) = register_accesses_for_instruction(
        instructions[2].mnemonic.as_str(),
        &instructions[2].typed_operands,
    );
    assert_eq!(reads, vec!["r8"]);
    assert_eq!(writes, vec!["edx"]);

    assert_eq!(instructions[3].mnemonic, "movsx");
    assert_eq!(instructions[3].size, 4);
    assert_eq!(instructions[3].operands, "r9d,r8w");
    assert!(instructions[3].typed_operands.iter().any(|operand| {
        operand.role == OperandRole::Source
            && operand.kind == OperandKind::Register
            && operand.register.as_deref() == Some("r8w")
            && operand.width_bits == Some(16)
    }));
}

#[test]
fn native_decoder_decodes_movsxd_r64_rm32_registers() {
    let instructions = decode_native_instructions(
        0x809c,
        &[
            0x48, 0x63, 0xc0, // movsxd rax,eax
            0x4d, 0x63, 0xc8, // movsxd r9,r8d
        ],
    );

    assert_eq!(instructions[0].mnemonic, "movsxd");
    assert_eq!(instructions[0].size, 3);
    assert_eq!(instructions[0].operands, "rax,eax");
    let (reads, writes) = register_accesses_for_instruction(
        instructions[0].mnemonic.as_str(),
        &instructions[0].typed_operands,
    );
    assert_eq!(reads, vec!["eax"]);
    assert_eq!(writes, vec!["rax"]);
    assert!(instructions[0].typed_operands.iter().any(|operand| {
        operand.role == OperandRole::Destination
            && operand.kind == OperandKind::Register
            && operand.register.as_deref() == Some("rax")
            && operand.width_bits.is_none()
    }));
    assert!(instructions[0].typed_operands.iter().any(|operand| {
        operand.role == OperandRole::Source
            && operand.kind == OperandKind::Register
            && operand.register.as_deref() == Some("eax")
            && operand.width_bits == Some(32)
    }));

    assert_eq!(instructions[1].mnemonic, "movsxd");
    assert_eq!(instructions[1].size, 3);
    assert_eq!(instructions[1].operands, "r9,r8d");
    let (reads, writes) = register_accesses_for_instruction(
        instructions[1].mnemonic.as_str(),
        &instructions[1].typed_operands,
    );
    assert_eq!(reads, vec!["r8d"]);
    assert_eq!(writes, vec!["r9"]);
}

#[test]
fn native_decoder_decodes_movsxd_r64_memory_sources() {
    let instructions = decode_native_instructions(
        0x809e,
        &[
            0x48, 0x63, 0x45, 0xfc, // movsxd rax,dword ptr [rbp-0x4]
            0x4d, 0x63, 0x48, 0x10, // movsxd r9,dword ptr [r8+0x10]
        ],
    );

    assert_eq!(instructions[0].mnemonic, "movsxd");
    assert_eq!(instructions[0].size, 4);
    assert_eq!(instructions[0].operands, "rax,dword ptr [rbp-0x4]");
    assert!(instructions[0].typed_operands.iter().any(|operand| {
        operand.role == OperandRole::Source
            && operand.kind == OperandKind::Memory
            && operand.base.as_deref() == Some("rbp")
            && operand.displacement == Some(-4)
            && operand.width_bits == Some(32)
    }));
    let (reads, writes) = register_accesses_for_instruction(
        instructions[0].mnemonic.as_str(),
        &instructions[0].typed_operands,
    );
    assert_eq!(reads, vec!["rbp"]);
    assert_eq!(writes, vec!["rax"]);

    assert_eq!(instructions[1].mnemonic, "movsxd");
    assert_eq!(instructions[1].size, 4);
    assert_eq!(instructions[1].operands, "r9,dword ptr [r8+0x10]");
    assert!(instructions[1].typed_operands.iter().any(|operand| {
        operand.role == OperandRole::Source
            && operand.kind == OperandKind::Memory
            && operand.base.as_deref() == Some("r8")
            && operand.displacement == Some(0x10)
            && operand.width_bits == Some(32)
    }));
    let (reads, writes) = register_accesses_for_instruction(
        instructions[1].mnemonic.as_str(),
        &instructions[1].typed_operands,
    );
    assert_eq!(reads, vec!["r8"]);
    assert_eq!(writes, vec!["r9"]);
}

#[test]
fn native_decoder_decodes_32_bit_inc_dec_registers() {
    let instructions = decode_native_instructions(
        0x8090,
        &[
            0xff, 0xc0, // inc eax
            0xff, 0xc9, // dec ecx
            0x41, 0xff, 0xc0, // inc r8d
            0x41, 0xff, 0xc9, // dec r9d
        ],
    );

    assert_eq!(instructions[0].mnemonic, "inc");
    assert_eq!(instructions[0].size, 2);
    assert_eq!(instructions[0].operands, "eax");
    let (reads, writes) = register_accesses_for_instruction(
        instructions[0].mnemonic.as_str(),
        &instructions[0].typed_operands,
    );
    assert_eq!(reads, vec!["eax"]);
    assert_eq!(writes, vec!["eax"]);

    assert_eq!(instructions[1].mnemonic, "dec");
    assert_eq!(instructions[1].operands, "ecx");
    let (reads, writes) = register_accesses_for_instruction(
        instructions[1].mnemonic.as_str(),
        &instructions[1].typed_operands,
    );
    assert_eq!(reads, vec!["ecx"]);
    assert_eq!(writes, vec!["ecx"]);

    assert_eq!(instructions[2].mnemonic, "inc");
    assert_eq!(instructions[2].size, 3);
    assert_eq!(instructions[2].operands, "r8d");

    assert_eq!(instructions[3].mnemonic, "dec");
    assert_eq!(instructions[3].operands, "r9d");
}

#[test]
fn native_decoder_decodes_32_bit_inc_dec_memory_operands() {
    let instructions = decode_native_instructions(
        0x8091,
        &[
            0xff, 0x45, 0xfc, // inc dword ptr [rbp-0x4]
            0xff, 0x4d, 0xfc, // dec dword ptr [rbp-0x4]
            0x41, 0xff, 0x40, 0x10, // inc dword ptr [r8+0x10]
        ],
    );

    assert_eq!(instructions[0].mnemonic, "inc");
    assert_eq!(instructions[0].size, 3);
    assert_eq!(instructions[0].operands, "dword ptr [rbp-0x4]");
    assert!(instructions[0].typed_operands.iter().any(|operand| {
        operand.role == OperandRole::Destination
            && operand.kind == OperandKind::Memory
            && operand.base.as_deref() == Some("rbp")
            && operand.displacement == Some(-4)
            && operand.width_bits == Some(32)
    }));
    let (reads, writes) = register_accesses_for_instruction(
        instructions[0].mnemonic.as_str(),
        &instructions[0].typed_operands,
    );
    assert_eq!(reads, vec!["rbp"]);
    assert!(writes.is_empty());

    assert_eq!(instructions[1].mnemonic, "dec");
    assert_eq!(instructions[1].size, 3);
    assert_eq!(instructions[1].operands, "dword ptr [rbp-0x4]");

    assert_eq!(instructions[2].mnemonic, "inc");
    assert_eq!(instructions[2].size, 4);
    assert_eq!(instructions[2].operands, "dword ptr [r8+0x10]");
    assert!(instructions[2].typed_operands.iter().any(|operand| {
        operand.role == OperandRole::Destination
            && operand.kind == OperandKind::Memory
            && operand.base.as_deref() == Some("r8")
            && operand.displacement == Some(0x10)
            && operand.width_bits == Some(32)
    }));
}

#[test]
fn native_decoder_decodes_inc_dec_rm8_memory_operands() {
    let instructions = decode_native_instructions(
        0x8098,
        &[
            0xfe, 0x45, 0xff, // inc byte ptr [rbp-0x1]
            0xfe, 0x4d, 0xff, // dec byte ptr [rbp-0x1]
            0x41, 0xfe, 0x40, 0x10, // inc byte ptr [r8+0x10]
            0x40, 0xfe, 0xc4, // inc spl
        ],
    );

    assert_eq!(instructions[0].mnemonic, "inc");
    assert_eq!(instructions[0].size, 3);
    assert_eq!(instructions[0].operands, "byte ptr [rbp-0x1]");
    assert!(instructions[0].typed_operands.iter().any(|operand| {
        operand.role == OperandRole::Destination
            && operand.kind == OperandKind::Memory
            && operand.base.as_deref() == Some("rbp")
            && operand.displacement == Some(-1)
            && operand.width_bits == Some(8)
    }));
    let (reads, writes) = register_accesses_for_instruction(
        instructions[0].mnemonic.as_str(),
        &instructions[0].typed_operands,
    );
    assert_eq!(reads, vec!["rbp"]);
    assert!(writes.is_empty());

    assert_eq!(instructions[1].mnemonic, "dec");
    assert_eq!(instructions[1].size, 3);
    assert_eq!(instructions[1].operands, "byte ptr [rbp-0x1]");

    assert_eq!(instructions[2].mnemonic, "inc");
    assert_eq!(instructions[2].size, 4);
    assert_eq!(instructions[2].operands, "byte ptr [r8+0x10]");
    assert!(instructions[2].typed_operands.iter().any(|operand| {
        operand.role == OperandRole::Destination
            && operand.kind == OperandKind::Memory
            && operand.base.as_deref() == Some("r8")
            && operand.displacement == Some(0x10)
            && operand.width_bits == Some(8)
    }));

    assert_eq!(instructions[3].mnemonic, "inc");
    assert_eq!(instructions[3].size, 3);
    assert_eq!(instructions[3].operands, "spl");
    let (reads, writes) = register_accesses_for_instruction(
        instructions[3].mnemonic.as_str(),
        &instructions[3].typed_operands,
    );
    assert_eq!(reads, vec!["spl"]);
    assert_eq!(writes, vec!["spl"]);
}

#[test]
fn native_decoder_decodes_32_bit_shift_immediates() {
    let instructions = decode_native_instructions(
        0x80a0,
        &[
            0xc1, 0xe0, 0x01, // shl eax,1
            0xc1, 0xe9, 0x04, // shr ecx,4
            0x41, 0xc1, 0xe0, 0x03, // shl r8d,3
            0x41, 0xc1, 0xe9, 0x02, // shr r9d,2
            0xc1, 0xf8, 0x01, // sar eax,1
            0x41, 0xc1, 0xf8, 0x04, // sar r8d,4
        ],
    );

    assert_eq!(instructions[0].mnemonic, "shl");
    assert_eq!(instructions[0].size, 3);
    assert_eq!(instructions[0].operands, "eax,0x1");
    let (reads, writes) = register_accesses_for_instruction(
        instructions[0].mnemonic.as_str(),
        &instructions[0].typed_operands,
    );
    assert_eq!(reads, vec!["eax"]);
    assert_eq!(writes, vec!["eax"]);
    assert!(instructions[0].typed_operands.iter().any(|operand| {
        operand.role == OperandRole::Destination
            && operand.kind == OperandKind::Register
            && operand.register.as_deref() == Some("eax")
            && operand.width_bits == Some(32)
    }));
    assert!(instructions[0].typed_operands.iter().any(|operand| {
        operand.role == OperandRole::Source
            && operand.kind == OperandKind::Immediate
            && operand.value == Some(1)
            && operand.width_bits == Some(8)
    }));

    assert_eq!(instructions[1].mnemonic, "shr");
    assert_eq!(instructions[1].operands, "ecx,0x4");

    assert_eq!(instructions[2].mnemonic, "shl");
    assert_eq!(instructions[2].size, 4);
    assert_eq!(instructions[2].operands, "r8d,0x3");

    assert_eq!(instructions[3].mnemonic, "shr");
    assert_eq!(instructions[3].operands, "r9d,0x2");

    assert_eq!(instructions[4].mnemonic, "sar");
    assert_eq!(instructions[4].operands, "eax,0x1");

    assert_eq!(instructions[5].mnemonic, "sar");
    assert_eq!(instructions[5].size, 4);
    assert_eq!(instructions[5].operands, "r8d,0x4");
}

#[test]
fn native_decoder_decodes_32_bit_shift_memory_immediates() {
    let instructions = decode_native_instructions(
        0x80a6,
        &[
            0xc1, 0x65, 0xfc, 0x01, // shl dword ptr [rbp-0x4],0x1
            0xc1, 0x6d, 0xfc, 0x04, // shr dword ptr [rbp-0x4],0x4
            0xc1, 0x7d, 0xfc, 0x02, // sar dword ptr [rbp-0x4],0x2
            0x41, 0xc1, 0x60, 0x10, 0x03, // shl dword ptr [r8+0x10],0x3
        ],
    );

    assert_eq!(instructions[0].mnemonic, "shl");
    assert_eq!(instructions[0].size, 4);
    assert_eq!(instructions[0].operands, "dword ptr [rbp-0x4],0x1");
    assert!(instructions[0].typed_operands.iter().any(|operand| {
        operand.role == OperandRole::Destination
            && operand.kind == OperandKind::Memory
            && operand.base.as_deref() == Some("rbp")
            && operand.displacement == Some(-4)
            && operand.width_bits == Some(32)
    }));
    let (reads, writes) = register_accesses_for_instruction(
        instructions[0].mnemonic.as_str(),
        &instructions[0].typed_operands,
    );
    assert_eq!(reads, vec!["rbp"]);
    assert!(writes.is_empty());

    assert_eq!(instructions[1].mnemonic, "shr");
    assert_eq!(instructions[1].operands, "dword ptr [rbp-0x4],0x4");
    assert_eq!(instructions[2].mnemonic, "sar");
    assert_eq!(instructions[2].operands, "dword ptr [rbp-0x4],0x2");
    assert_eq!(instructions[3].mnemonic, "shl");
    assert_eq!(instructions[3].size, 5);
    assert_eq!(instructions[3].operands, "dword ptr [r8+0x10],0x3");
    assert!(instructions[3].typed_operands.iter().any(|operand| {
        operand.role == OperandRole::Destination
            && operand.kind == OperandKind::Memory
            && operand.base.as_deref() == Some("r8")
            && operand.displacement == Some(0x10)
            && operand.width_bits == Some(32)
    }));
}

#[test]
fn native_decoder_decodes_32_bit_shift_one_and_cl_counts() {
    let instructions = decode_native_instructions(
        0x80aa,
        &[
            0xd1, 0xe0, // shl eax,0x1
            0xd3, 0xe9, // shr ecx,cl
            0xd3, 0xf8, // sar eax,cl
            0xd1, 0x65, 0xfc, // shl dword ptr [rbp-0x4],0x1
            0xd3, 0x7d, 0xfc, // sar dword ptr [rbp-0x4],cl
            0x41, 0xd1, 0x60, 0x10, // shl dword ptr [r8+0x10],0x1
        ],
    );

    assert_eq!(instructions[0].mnemonic, "shl");
    assert_eq!(instructions[0].size, 2);
    assert_eq!(instructions[0].operands, "eax,0x1");
    let (reads, writes) = register_accesses_for_instruction(
        instructions[0].mnemonic.as_str(),
        &instructions[0].typed_operands,
    );
    assert_eq!(reads, vec!["eax"]);
    assert_eq!(writes, vec!["eax"]);
    assert!(instructions[0].typed_operands.iter().any(|operand| {
        operand.role == OperandRole::Source
            && operand.kind == OperandKind::Immediate
            && operand.value == Some(1)
            && operand.width_bits == Some(8)
    }));

    assert_eq!(instructions[1].mnemonic, "shr");
    assert_eq!(instructions[1].size, 2);
    assert_eq!(instructions[1].operands, "ecx,cl");
    assert!(instructions[1].typed_operands.iter().any(|operand| {
        operand.role == OperandRole::Source
            && operand.kind == OperandKind::Register
            && operand.register.as_deref() == Some("cl")
            && operand.width_bits == Some(8)
    }));
    let (reads, writes) = register_accesses_for_instruction(
        instructions[1].mnemonic.as_str(),
        &instructions[1].typed_operands,
    );
    assert_eq!(reads, vec!["cl", "ecx"]);
    assert_eq!(writes, vec!["ecx"]);

    assert_eq!(instructions[2].mnemonic, "sar");
    assert_eq!(instructions[2].operands, "eax,cl");

    assert_eq!(instructions[3].mnemonic, "shl");
    assert_eq!(instructions[3].size, 3);
    assert_eq!(instructions[3].operands, "dword ptr [rbp-0x4],0x1");
    assert!(instructions[3].typed_operands.iter().any(|operand| {
        operand.role == OperandRole::Destination
            && operand.kind == OperandKind::Memory
            && operand.base.as_deref() == Some("rbp")
            && operand.displacement == Some(-4)
            && operand.width_bits == Some(32)
    }));

    assert_eq!(instructions[4].mnemonic, "sar");
    assert_eq!(instructions[4].operands, "dword ptr [rbp-0x4],cl");
    let (reads, writes) = register_accesses_for_instruction(
        instructions[4].mnemonic.as_str(),
        &instructions[4].typed_operands,
    );
    assert_eq!(reads, vec!["cl", "rbp"]);
    assert!(writes.is_empty());

    assert_eq!(instructions[5].mnemonic, "shl");
    assert_eq!(instructions[5].size, 4);
    assert_eq!(instructions[5].operands, "dword ptr [r8+0x10],0x1");
    assert!(instructions[5].typed_operands.iter().any(|operand| {
        operand.role == OperandRole::Destination
            && operand.kind == OperandKind::Memory
            && operand.base.as_deref() == Some("r8")
            && operand.displacement == Some(0x10)
            && operand.width_bits == Some(32)
    }));
}

#[test]
fn native_decoder_decodes_shift_rm8_memory_immediates() {
    let instructions = decode_native_instructions(
        0x80aa,
        &[
            0xc0, 0x65, 0xff, 0x01, // shl byte ptr [rbp-0x1],0x1
            0xc0, 0x6d, 0xff, 0x04, // shr byte ptr [rbp-0x1],0x4
            0xc0, 0x7d, 0xff, 0x02, // sar byte ptr [rbp-0x1],0x2
            0x41, 0xc0, 0x60, 0x10, 0x03, // shl byte ptr [r8+0x10],0x3
            0x40, 0xc0, 0xe4, 0x01, // shl spl,0x1
        ],
    );

    assert_eq!(instructions[0].mnemonic, "shl");
    assert_eq!(instructions[0].size, 4);
    assert_eq!(instructions[0].operands, "byte ptr [rbp-0x1],0x1");
    assert!(instructions[0].typed_operands.iter().any(|operand| {
        operand.role == OperandRole::Destination
            && operand.kind == OperandKind::Memory
            && operand.base.as_deref() == Some("rbp")
            && operand.displacement == Some(-1)
            && operand.width_bits == Some(8)
    }));
    let (reads, writes) = register_accesses_for_instruction(
        instructions[0].mnemonic.as_str(),
        &instructions[0].typed_operands,
    );
    assert_eq!(reads, vec!["rbp"]);
    assert!(writes.is_empty());

    assert_eq!(instructions[1].mnemonic, "shr");
    assert_eq!(instructions[1].operands, "byte ptr [rbp-0x1],0x4");
    assert_eq!(instructions[2].mnemonic, "sar");
    assert_eq!(instructions[2].operands, "byte ptr [rbp-0x1],0x2");

    assert_eq!(instructions[3].mnemonic, "shl");
    assert_eq!(instructions[3].size, 5);
    assert_eq!(instructions[3].operands, "byte ptr [r8+0x10],0x3");
    assert!(instructions[3].typed_operands.iter().any(|operand| {
        operand.role == OperandRole::Destination
            && operand.kind == OperandKind::Memory
            && operand.base.as_deref() == Some("r8")
            && operand.displacement == Some(0x10)
            && operand.width_bits == Some(8)
    }));

    assert_eq!(instructions[4].mnemonic, "shl");
    assert_eq!(instructions[4].size, 4);
    assert_eq!(instructions[4].operands, "spl,0x1");
    let (reads, writes) = register_accesses_for_instruction(
        instructions[4].mnemonic.as_str(),
        &instructions[4].typed_operands,
    );
    assert_eq!(reads, vec!["spl"]);
    assert_eq!(writes, vec!["spl"]);
}

#[test]
fn native_decoder_decodes_shift_rm8_one_and_cl_counts() {
    let instructions = decode_native_instructions(
        0x80ae,
        &[
            0xd0, 0x65, 0xff, // shl byte ptr [rbp-0x1],0x1
            0xd2, 0x6d, 0xff, // shr byte ptr [rbp-0x1],cl
            0xd2, 0x7d, 0xff, // sar byte ptr [rbp-0x1],cl
            0x41, 0xd0, 0x60, 0x10, // shl byte ptr [r8+0x10],0x1
            0x40, 0xd2, 0xe4, // shl spl,cl
        ],
    );

    assert_eq!(instructions[0].mnemonic, "shl");
    assert_eq!(instructions[0].size, 3);
    assert_eq!(instructions[0].operands, "byte ptr [rbp-0x1],0x1");
    assert!(instructions[0].typed_operands.iter().any(|operand| {
        operand.role == OperandRole::Destination
            && operand.kind == OperandKind::Memory
            && operand.base.as_deref() == Some("rbp")
            && operand.displacement == Some(-1)
            && operand.width_bits == Some(8)
    }));
    let (reads, writes) = register_accesses_for_instruction(
        instructions[0].mnemonic.as_str(),
        &instructions[0].typed_operands,
    );
    assert_eq!(reads, vec!["rbp"]);
    assert!(writes.is_empty());

    assert_eq!(instructions[1].mnemonic, "shr");
    assert_eq!(instructions[1].size, 3);
    assert_eq!(instructions[1].operands, "byte ptr [rbp-0x1],cl");
    assert!(instructions[1].typed_operands.iter().any(|operand| {
        operand.role == OperandRole::Source
            && operand.kind == OperandKind::Register
            && operand.register.as_deref() == Some("cl")
            && operand.width_bits == Some(8)
    }));
    let (reads, writes) = register_accesses_for_instruction(
        instructions[1].mnemonic.as_str(),
        &instructions[1].typed_operands,
    );
    assert_eq!(reads, vec!["cl", "rbp"]);
    assert!(writes.is_empty());

    assert_eq!(instructions[2].mnemonic, "sar");
    assert_eq!(instructions[2].operands, "byte ptr [rbp-0x1],cl");

    assert_eq!(instructions[3].mnemonic, "shl");
    assert_eq!(instructions[3].size, 4);
    assert_eq!(instructions[3].operands, "byte ptr [r8+0x10],0x1");
    assert!(instructions[3].typed_operands.iter().any(|operand| {
        operand.role == OperandRole::Destination
            && operand.kind == OperandKind::Memory
            && operand.base.as_deref() == Some("r8")
            && operand.displacement == Some(0x10)
            && operand.width_bits == Some(8)
    }));

    assert_eq!(instructions[4].mnemonic, "shl");
    assert_eq!(instructions[4].size, 3);
    assert_eq!(instructions[4].operands, "spl,cl");
    let (reads, writes) = register_accesses_for_instruction(
        instructions[4].mnemonic.as_str(),
        &instructions[4].typed_operands,
    );
    assert_eq!(reads, vec!["cl", "spl"]);
    assert_eq!(writes, vec!["spl"]);
}

#[test]
fn native_decoder_decodes_32_bit_not_neg_registers() {
    let instructions = decode_native_instructions(
        0x80b0,
        &[
            0xf7, 0xd0, // not eax
            0xf7, 0xd9, // neg ecx
            0x41, 0xf7, 0xd0, // not r8d
            0x41, 0xf7, 0xd9, // neg r9d
        ],
    );

    assert_eq!(instructions[0].mnemonic, "not");
    assert_eq!(instructions[0].size, 2);
    assert_eq!(instructions[0].operands, "eax");
    let (reads, writes) = register_accesses_for_instruction(
        instructions[0].mnemonic.as_str(),
        &instructions[0].typed_operands,
    );
    assert_eq!(reads, vec!["eax"]);
    assert_eq!(writes, vec!["eax"]);

    assert_eq!(instructions[1].mnemonic, "neg");
    assert_eq!(instructions[1].operands, "ecx");

    assert_eq!(instructions[2].mnemonic, "not");
    assert_eq!(instructions[2].size, 3);
    assert_eq!(instructions[2].operands, "r8d");

    assert_eq!(instructions[3].mnemonic, "neg");
    assert_eq!(instructions[3].operands, "r9d");
}

#[test]
fn native_decoder_decodes_32_bit_not_neg_memory_operands() {
    let instructions = decode_native_instructions(
        0x80b4,
        &[
            0xf7, 0x55, 0xfc, // not dword ptr [rbp-0x4]
            0xf7, 0x5d, 0xfc, // neg dword ptr [rbp-0x4]
            0x41, 0xf7, 0x50, 0x10, // not dword ptr [r8+0x10]
        ],
    );

    assert_eq!(instructions[0].mnemonic, "not");
    assert_eq!(instructions[0].size, 3);
    assert_eq!(instructions[0].operands, "dword ptr [rbp-0x4]");
    assert!(instructions[0].typed_operands.iter().any(|operand| {
        operand.role == OperandRole::Destination
            && operand.kind == OperandKind::Memory
            && operand.base.as_deref() == Some("rbp")
            && operand.displacement == Some(-4)
            && operand.width_bits == Some(32)
    }));
    let (reads, writes) = register_accesses_for_instruction(
        instructions[0].mnemonic.as_str(),
        &instructions[0].typed_operands,
    );
    assert_eq!(reads, vec!["rbp"]);
    assert!(writes.is_empty());

    assert_eq!(instructions[1].mnemonic, "neg");
    assert_eq!(instructions[1].size, 3);
    assert_eq!(instructions[1].operands, "dword ptr [rbp-0x4]");

    assert_eq!(instructions[2].mnemonic, "not");
    assert_eq!(instructions[2].size, 4);
    assert_eq!(instructions[2].operands, "dword ptr [r8+0x10]");
    assert!(instructions[2].typed_operands.iter().any(|operand| {
        operand.role == OperandRole::Destination
            && operand.kind == OperandKind::Memory
            && operand.base.as_deref() == Some("r8")
            && operand.displacement == Some(0x10)
            && operand.width_bits == Some(32)
    }));
}

#[test]
fn native_decoder_decodes_not_neg_rm8_memory_operands() {
    let instructions = decode_native_instructions(
        0x80b4,
        &[
            0xf6, 0x55, 0xff, // not byte ptr [rbp-0x1]
            0xf6, 0x5d, 0xff, // neg byte ptr [rbp-0x1]
            0x41, 0xf6, 0x50, 0x10, // not byte ptr [r8+0x10]
            0x40, 0xf6, 0xd4, // not spl
        ],
    );

    assert_eq!(instructions[0].mnemonic, "not");
    assert_eq!(instructions[0].size, 3);
    assert_eq!(instructions[0].operands, "byte ptr [rbp-0x1]");
    assert!(instructions[0].typed_operands.iter().any(|operand| {
        operand.role == OperandRole::Destination
            && operand.kind == OperandKind::Memory
            && operand.base.as_deref() == Some("rbp")
            && operand.displacement == Some(-1)
            && operand.width_bits == Some(8)
    }));
    let (reads, writes) = register_accesses_for_instruction(
        instructions[0].mnemonic.as_str(),
        &instructions[0].typed_operands,
    );
    assert_eq!(reads, vec!["rbp"]);
    assert!(writes.is_empty());

    assert_eq!(instructions[1].mnemonic, "neg");
    assert_eq!(instructions[1].size, 3);
    assert_eq!(instructions[1].operands, "byte ptr [rbp-0x1]");

    assert_eq!(instructions[2].mnemonic, "not");
    assert_eq!(instructions[2].size, 4);
    assert_eq!(instructions[2].operands, "byte ptr [r8+0x10]");
    assert!(instructions[2].typed_operands.iter().any(|operand| {
        operand.role == OperandRole::Destination
            && operand.kind == OperandKind::Memory
            && operand.base.as_deref() == Some("r8")
            && operand.displacement == Some(0x10)
            && operand.width_bits == Some(8)
    }));

    assert_eq!(instructions[3].mnemonic, "not");
    assert_eq!(instructions[3].size, 3);
    assert_eq!(instructions[3].operands, "spl");
    let (reads, writes) = register_accesses_for_instruction(
        instructions[3].mnemonic.as_str(),
        &instructions[3].typed_operands,
    );
    assert_eq!(reads, vec!["spl"]);
    assert_eq!(writes, vec!["spl"]);
}

#[test]
fn native_indexer_tracks_lea_data_target_constants() {
    let instructions = decode_native_instructions(
        0x8020,
        &[
            0x48, 0x8d, 0x0d, 0x2a, 0x00, 0x00, 0x00, // lea rcx,[rip+0x2a]
            0x4c, 0x8d, 0x0d, 0x20, 0x00, 0x00, 0x00, // lea r9,[rip+0x20]
            0x48, 0x8b, 0x05, 0x10, 0x00, 0x00, 0x00, // mov rax,[rip+0x10]
        ],
    );

    assert_eq!(instructions[0].mnemonic, "lea");
    assert_eq!(instructions[0].data_target, Some(0x8051));
    let constants = constant_writes_for_instruction(
        instructions[0].mnemonic.as_str(),
        &instructions[0].typed_operands,
        instructions[0].data_target,
    );
    assert_eq!(
        constants,
        vec![RegisterConstantWrite {
            register: "rcx".to_string(),
            value: 0x8051,
            width_bits: Some(64),
        }]
    );

    assert_eq!(instructions[1].mnemonic, "lea");
    assert_eq!(instructions[1].data_target, Some(0x804e));
    let constants = constant_writes_for_instruction(
        instructions[1].mnemonic.as_str(),
        &instructions[1].typed_operands,
        instructions[1].data_target,
    );
    assert_eq!(
        constants,
        vec![RegisterConstantWrite {
            register: "r9".to_string(),
            value: 0x804e,
            width_bits: Some(64),
        }]
    );

    assert_eq!(instructions[2].mnemonic, "mov");
    assert_eq!(instructions[2].data_target, Some(0x8045));
    assert!(constant_writes_for_instruction(
        instructions[2].mnemonic.as_str(),
        &instructions[2].typed_operands,
        instructions[2].data_target,
    )
    .is_empty());
}

#[test]
fn native_decoder_and_indexer_track_self_xor_zero_constants() {
    let instructions = decode_native_instructions(
        0x8010,
        &[
            0x48, 0x31, 0xc0, // xor rax,rax
            0x4d, 0x33, 0xc0, // xor r8,r8
            0x31, 0xc0, // xor eax,eax
            0x45, 0x31, 0xc0, // xor r8d,r8d
        ],
    );

    assert_eq!(instructions[0].mnemonic, "xor");
    assert_eq!(instructions[0].operands, "rax,rax");
    let (reads, writes) = register_accesses_for_instruction(
        instructions[0].mnemonic.as_str(),
        &instructions[0].typed_operands,
    );
    assert!(reads.is_empty());
    assert_eq!(writes, vec!["rax"]);
    let constants = constant_writes_for_instruction(
        instructions[0].mnemonic.as_str(),
        &instructions[0].typed_operands,
        instructions[0].data_target,
    );
    assert_eq!(
        constants,
        vec![RegisterConstantWrite {
            register: "rax".to_string(),
            value: 0,
            width_bits: Some(64),
        }]
    );

    assert_eq!(instructions[1].mnemonic, "xor");
    assert_eq!(instructions[1].operands, "r8,r8");
    let (reads, writes) = register_accesses_for_instruction(
        instructions[1].mnemonic.as_str(),
        &instructions[1].typed_operands,
    );
    assert!(reads.is_empty());
    assert_eq!(writes, vec!["r8"]);
    let constants = constant_writes_for_instruction(
        instructions[1].mnemonic.as_str(),
        &instructions[1].typed_operands,
        instructions[1].data_target,
    );
    assert_eq!(
        constants,
        vec![RegisterConstantWrite {
            register: "r8".to_string(),
            value: 0,
            width_bits: Some(64),
        }]
    );

    assert_eq!(instructions[2].mnemonic, "xor");
    assert_eq!(instructions[2].operands, "eax,eax");
    let (reads, writes) = register_accesses_for_instruction(
        instructions[2].mnemonic.as_str(),
        &instructions[2].typed_operands,
    );
    assert!(reads.is_empty());
    assert_eq!(writes, vec!["eax"]);
    let constants = constant_writes_for_instruction(
        instructions[2].mnemonic.as_str(),
        &instructions[2].typed_operands,
        instructions[2].data_target,
    );
    assert_eq!(
        constants,
        vec![RegisterConstantWrite {
            register: "eax".to_string(),
            value: 0,
            width_bits: Some(32),
        }]
    );

    assert_eq!(instructions[3].mnemonic, "xor");
    assert_eq!(instructions[3].operands, "r8d,r8d");
    let (reads, writes) = register_accesses_for_instruction(
        instructions[3].mnemonic.as_str(),
        &instructions[3].typed_operands,
    );
    assert!(reads.is_empty());
    assert_eq!(writes, vec!["r8d"]);
    let constants = constant_writes_for_instruction(
        instructions[3].mnemonic.as_str(),
        &instructions[3].typed_operands,
        instructions[3].data_target,
    );
    assert_eq!(
        constants,
        vec![RegisterConstantWrite {
            register: "r8d".to_string(),
            value: 0,
            width_bits: Some(32),
        }]
    );
}

#[test]
fn native_decoder_decodes_rex_extended_registers() {
    let instructions = decode_native_instructions(
        0x3000,
        &[
            0x4e, 0x8b, 0x4c, 0x94, 0x10, // mov r9,qword ptr [rsp+r10*4+0x10]
            0x49, 0x89, 0x4c, 0x24, 0xf0, // mov qword ptr [r12-0x10],rcx
        ],
    );

    assert_eq!(instructions[0].mnemonic, "mov");
    assert_eq!(instructions[0].operands, "r9,qword ptr [rsp+r10*4+0x10]");
    assert!(instructions[0].typed_operands.iter().any(|operand| {
        operand.role == OperandRole::Destination
            && operand.kind == OperandKind::Register
            && operand.register.as_deref() == Some("r9")
    }));
    assert!(instructions[0].typed_operands.iter().any(|operand| {
        operand.role == OperandRole::Source
            && operand.kind == OperandKind::Memory
            && operand.base.as_deref() == Some("rsp")
            && operand.index.as_deref() == Some("r10")
            && operand.scale == Some(4)
            && operand.displacement == Some(0x10)
    }));

    assert_eq!(instructions[1].operands, "qword ptr [r12-0x10],rcx");
    assert!(instructions[1].typed_operands.iter().any(|operand| {
        operand.role == OperandRole::Destination
            && operand.kind == OperandKind::Memory
            && operand.base.as_deref() == Some("r12")
            && operand.displacement == Some(-0x10)
    }));
}

#[test]
fn native_decoder_decodes_cmp_and_test_typed_operands() {
    let instructions = decode_native_instructions(
        0x4000,
        &[
            0x4c, 0x39, 0x4d, 0xf8, // cmp qword ptr [rbp-0x8],r9
            0x4f, 0x3b, 0x4c, 0x94, 0x20, // cmp r9,qword ptr [r12+r10*4+0x20]
            0x4c, 0x85, 0xc9, // test rcx,r9
            0x39, 0xc8, // cmp eax,ecx
            0x3b, 0xd8, // cmp ebx,eax
        ],
    );

    assert_eq!(instructions[0].mnemonic, "cmp");
    assert_eq!(instructions[0].operands, "qword ptr [rbp-0x8],r9");
    assert!(instructions[0].typed_operands.iter().any(|operand| {
        operand.role == OperandRole::Source
            && operand.kind == OperandKind::Memory
            && operand.base.as_deref() == Some("rbp")
            && operand.displacement == Some(-8)
    }));
    assert!(instructions[0].typed_operands.iter().any(|operand| {
        operand.role == OperandRole::Source
            && operand.kind == OperandKind::Register
            && operand.register.as_deref() == Some("r9")
    }));

    assert_eq!(instructions[1].mnemonic, "cmp");
    assert_eq!(instructions[1].operands, "r9,qword ptr [r12+r10*4+0x20]");
    assert!(instructions[1].typed_operands.iter().any(|operand| {
        operand.role == OperandRole::Source
            && operand.kind == OperandKind::Memory
            && operand.base.as_deref() == Some("r12")
            && operand.index.as_deref() == Some("r10")
            && operand.scale == Some(4)
            && operand.displacement == Some(0x20)
    }));

    assert_eq!(instructions[2].mnemonic, "test");
    assert_eq!(instructions[2].operands, "rcx,r9");
    assert!(instructions[2].typed_operands.iter().all(|operand| {
        operand.role == OperandRole::Source && operand.kind == OperandKind::Register
    }));
    assert!(instructions[2]
        .typed_operands
        .iter()
        .any(|operand| operand.register.as_deref() == Some("r9")));

    assert_eq!(instructions[3].mnemonic, "cmp");
    assert_eq!(instructions[3].size, 2);
    assert_eq!(instructions[3].operands, "eax,ecx");
    assert!(instructions[3].typed_operands.iter().all(|operand| {
        operand.role == OperandRole::Source
            && operand.kind == OperandKind::Register
            && operand.width_bits == Some(32)
    }));
    assert!(instructions[3]
        .typed_operands
        .iter()
        .any(|operand| operand.register.as_deref() == Some("eax")));
    assert!(instructions[3]
        .typed_operands
        .iter()
        .any(|operand| operand.register.as_deref() == Some("ecx")));

    assert_eq!(instructions[4].mnemonic, "cmp");
    assert_eq!(instructions[4].operands, "ebx,eax");
    assert!(instructions[4]
        .typed_operands
        .iter()
        .any(|operand| operand.register.as_deref() == Some("ebx")));
    assert!(instructions[4]
        .typed_operands
        .iter()
        .any(|operand| operand.register.as_deref() == Some("eax")));
}

#[test]
fn native_decoder_decodes_32_bit_test_register_operands() {
    let instructions = decode_native_instructions(
        0x4100,
        &[
            0x85, 0xc0, // test eax,eax
            0x85, 0xd1, // test ecx,edx
        ],
    );

    assert_eq!(instructions[0].mnemonic, "test");
    assert_eq!(instructions[0].size, 2);
    assert_eq!(instructions[0].operands, "eax,eax");
    assert!(instructions[0].typed_operands.iter().all(|operand| {
        operand.role == OperandRole::Source
            && operand.kind == OperandKind::Register
            && operand.width_bits == Some(32)
    }));
    assert!(instructions[0]
        .typed_operands
        .iter()
        .all(|operand| operand.register.as_deref() == Some("eax")));

    assert_eq!(instructions[1].mnemonic, "test");
    assert_eq!(instructions[1].operands, "ecx,edx");
    assert!(instructions[1]
        .typed_operands
        .iter()
        .any(|operand| operand.register.as_deref() == Some("ecx")));
    assert!(instructions[1]
        .typed_operands
        .iter()
        .any(|operand| operand.register.as_deref() == Some("edx")));
}

#[test]
fn native_decoder_decodes_32_bit_cmp_and_test_memory_operands() {
    let instructions = decode_native_instructions(
        0x4108,
        &[
            0x39, 0x45, 0xfc, // cmp dword ptr [rbp-0x4],eax
            0x3b, 0x4d, 0xfc, // cmp ecx,dword ptr [rbp-0x4]
            0x85, 0x55, 0xfc, // test dword ptr [rbp-0x4],edx
            0x41, 0x39, 0x48, 0x10, // cmp dword ptr [r8+0x10],ecx
            0x45, 0x85, 0x48, 0x10, // test dword ptr [r8+0x10],r9d
        ],
    );

    assert_eq!(instructions[0].mnemonic, "cmp");
    assert_eq!(instructions[0].size, 3);
    assert_eq!(instructions[0].operands, "dword ptr [rbp-0x4],eax");
    assert!(instructions[0].typed_operands.iter().any(|operand| {
        operand.role == OperandRole::Source
            && operand.kind == OperandKind::Memory
            && operand.base.as_deref() == Some("rbp")
            && operand.displacement == Some(-4)
            && operand.width_bits == Some(32)
    }));
    let (reads, writes) = register_accesses_for_instruction(
        instructions[0].mnemonic.as_str(),
        &instructions[0].typed_operands,
    );
    assert_eq!(reads, vec!["eax", "rbp"]);
    assert!(writes.is_empty());

    assert_eq!(instructions[1].mnemonic, "cmp");
    assert_eq!(instructions[1].size, 3);
    assert_eq!(instructions[1].operands, "ecx,dword ptr [rbp-0x4]");
    let (reads, writes) = register_accesses_for_instruction(
        instructions[1].mnemonic.as_str(),
        &instructions[1].typed_operands,
    );
    assert_eq!(reads, vec!["ecx", "rbp"]);
    assert!(writes.is_empty());

    assert_eq!(instructions[2].mnemonic, "test");
    assert_eq!(instructions[2].size, 3);
    assert_eq!(instructions[2].operands, "dword ptr [rbp-0x4],edx");
    let (reads, writes) = register_accesses_for_instruction(
        instructions[2].mnemonic.as_str(),
        &instructions[2].typed_operands,
    );
    assert_eq!(reads, vec!["edx", "rbp"]);
    assert!(writes.is_empty());

    assert_eq!(instructions[3].mnemonic, "cmp");
    assert_eq!(instructions[3].size, 4);
    assert_eq!(instructions[3].operands, "dword ptr [r8+0x10],ecx");
    assert!(instructions[3].typed_operands.iter().any(|operand| {
        operand.kind == OperandKind::Memory
            && operand.base.as_deref() == Some("r8")
            && operand.displacement == Some(0x10)
            && operand.width_bits == Some(32)
    }));

    assert_eq!(instructions[4].mnemonic, "test");
    assert_eq!(instructions[4].size, 4);
    assert_eq!(instructions[4].operands, "dword ptr [r8+0x10],r9d");
    let (reads, writes) = register_accesses_for_instruction(
        instructions[4].mnemonic.as_str(),
        &instructions[4].typed_operands,
    );
    assert_eq!(reads, vec!["r8", "r9d"]);
    assert!(writes.is_empty());
}

#[test]
fn native_decoder_decodes_32_bit_cmp_and_test_memory_immediates() {
    let instructions = decode_native_instructions(
        0x4118,
        &[
            0x83, 0x7d, 0xfc, 0x2a, // cmp dword ptr [rbp-0x4],0x2a
            0x81, 0x7d, 0xfc, 0x78, 0x56, 0x34,
            0x12, // cmp dword ptr [rbp-0x4],0x12345678
            0xf7, 0x45, 0xfc, 0xff, 0x00, 0x00, 0x00, // test dword ptr [rbp-0x4],0xff
            0x41, 0x83, 0x78, 0x10, 0xfb, // cmp dword ptr [r8+0x10],-5
            0x41, 0xf7, 0x40, 0x10, 0x03, 0x00, 0x00,
            0x00, // test dword ptr [r8+0x10],0x3
        ],
    );

    assert_eq!(instructions[0].mnemonic, "cmp");
    assert_eq!(instructions[0].size, 4);
    assert_eq!(instructions[0].operands, "dword ptr [rbp-0x4],0x2a");
    assert!(instructions[0].typed_operands.iter().any(|operand| {
        operand.role == OperandRole::Source
            && operand.kind == OperandKind::Memory
            && operand.base.as_deref() == Some("rbp")
            && operand.displacement == Some(-4)
            && operand.width_bits == Some(32)
    }));
    assert!(instructions[0].typed_operands.iter().any(|operand| {
        operand.role == OperandRole::Source
            && operand.kind == OperandKind::Immediate
            && operand.value == Some(0x2a)
            && operand.width_bits == Some(8)
    }));
    let (reads, writes) = register_accesses_for_instruction(
        instructions[0].mnemonic.as_str(),
        &instructions[0].typed_operands,
    );
    assert_eq!(reads, vec!["rbp"]);
    assert!(writes.is_empty());

    assert_eq!(instructions[1].mnemonic, "cmp");
    assert_eq!(instructions[1].size, 7);
    assert_eq!(instructions[1].operands, "dword ptr [rbp-0x4],0x12345678");
    assert!(instructions[1].typed_operands.iter().any(|operand| {
        operand.role == OperandRole::Source
            && operand.kind == OperandKind::Immediate
            && operand.value == Some(0x12345678)
            && operand.width_bits == Some(32)
    }));

    assert_eq!(instructions[2].mnemonic, "test");
    assert_eq!(instructions[2].size, 7);
    assert_eq!(instructions[2].operands, "dword ptr [rbp-0x4],0xff");
    let (reads, writes) = register_accesses_for_instruction(
        instructions[2].mnemonic.as_str(),
        &instructions[2].typed_operands,
    );
    assert_eq!(reads, vec!["rbp"]);
    assert!(writes.is_empty());

    assert_eq!(instructions[3].mnemonic, "cmp");
    assert_eq!(instructions[3].size, 5);
    assert_eq!(
        instructions[3].operands,
        "dword ptr [r8+0x10],0xfffffffffffffffb"
    );
    assert!(instructions[3].typed_operands.iter().any(|operand| {
        operand.kind == OperandKind::Memory
            && operand.base.as_deref() == Some("r8")
            && operand.displacement == Some(0x10)
    }));

    assert_eq!(instructions[4].mnemonic, "test");
    assert_eq!(instructions[4].size, 8);
    assert_eq!(instructions[4].operands, "dword ptr [r8+0x10],0x3");
}

#[test]
fn native_decoder_decodes_cmp_and_test_immediate_operands() {
    let instructions = decode_native_instructions(
        0x5000,
        &[
            0x48, 0x83, 0xf8, 0x7f, // cmp rax,0x7f
            0x48, 0x81, 0x7d, 0xf8, 0x78, 0x56, 0x34,
            0x12, // cmp qword ptr [rbp-0x8],0x12345678
            0x49, 0xf7, 0x44, 0x24, 0xf0, 0xff, 0x00, 0x00,
            0x00, // test qword ptr [r12-0x10],0xff
            0x83, 0xf8, 0x2a, // cmp eax,0x2a
            0x81, 0xfa, 0x78, 0x56, 0x34, 0x12, // cmp edx,0x12345678
            0xf7, 0xc1, 0x03, 0x00, 0x00, 0x00, // test ecx,0x3
            0x41, 0x83, 0xf8, 0xfb, // cmp r8d,-5
        ],
    );

    assert_eq!(instructions[0].mnemonic, "cmp");
    assert_eq!(instructions[0].size, 4);
    assert_eq!(instructions[0].operands, "rax,0x7f");
    assert!(instructions[0].typed_operands.iter().any(|operand| {
        operand.role == OperandRole::Source
            && operand.kind == OperandKind::Register
            && operand.register.as_deref() == Some("rax")
    }));
    assert!(instructions[0].typed_operands.iter().any(|operand| {
        operand.role == OperandRole::Source
            && operand.kind == OperandKind::Immediate
            && operand.value == Some(0x7f)
            && operand.width_bits == Some(8)
    }));

    assert_eq!(instructions[1].mnemonic, "cmp");
    assert_eq!(instructions[1].size, 8);
    assert_eq!(instructions[1].operands, "qword ptr [rbp-0x8],0x12345678");
    assert!(instructions[1].typed_operands.iter().any(|operand| {
        operand.role == OperandRole::Source
            && operand.kind == OperandKind::Memory
            && operand.base.as_deref() == Some("rbp")
            && operand.displacement == Some(-8)
    }));
    assert!(instructions[1].typed_operands.iter().any(|operand| {
        operand.role == OperandRole::Source
            && operand.kind == OperandKind::Immediate
            && operand.value == Some(0x12345678)
            && operand.width_bits == Some(32)
    }));

    assert_eq!(instructions[2].mnemonic, "test");
    assert_eq!(instructions[2].size, 9);
    assert_eq!(instructions[2].operands, "qword ptr [r12-0x10],0xff");
    assert!(instructions[2].typed_operands.iter().any(|operand| {
        operand.role == OperandRole::Source
            && operand.kind == OperandKind::Memory
            && operand.base.as_deref() == Some("r12")
            && operand.displacement == Some(-0x10)
    }));
    assert!(instructions[2].typed_operands.iter().any(|operand| {
        operand.role == OperandRole::Source
            && operand.kind == OperandKind::Immediate
            && operand.value == Some(0xff)
            && operand.width_bits == Some(32)
    }));

    assert_eq!(instructions[3].mnemonic, "cmp");
    assert_eq!(instructions[3].size, 3);
    assert_eq!(instructions[3].operands, "eax,0x2a");
    assert!(instructions[3].typed_operands.iter().any(|operand| {
        operand.role == OperandRole::Source
            && operand.kind == OperandKind::Register
            && operand.register.as_deref() == Some("eax")
            && operand.width_bits == Some(32)
    }));
    assert!(instructions[3].typed_operands.iter().any(|operand| {
        operand.role == OperandRole::Source
            && operand.kind == OperandKind::Immediate
            && operand.value == Some(0x2a)
            && operand.width_bits == Some(8)
    }));

    assert_eq!(instructions[4].mnemonic, "cmp");
    assert_eq!(instructions[4].size, 6);
    assert_eq!(instructions[4].operands, "edx,0x12345678");
    assert!(instructions[4].typed_operands.iter().any(|operand| {
        operand.role == OperandRole::Source
            && operand.kind == OperandKind::Register
            && operand.register.as_deref() == Some("edx")
            && operand.width_bits == Some(32)
    }));
    assert!(instructions[4].typed_operands.iter().any(|operand| {
        operand.role == OperandRole::Source
            && operand.kind == OperandKind::Immediate
            && operand.value == Some(0x12345678)
            && operand.width_bits == Some(32)
    }));

    assert_eq!(instructions[5].mnemonic, "test");
    assert_eq!(instructions[5].size, 6);
    assert_eq!(instructions[5].operands, "ecx,0x3");
    assert!(instructions[5].typed_operands.iter().any(|operand| {
        operand.role == OperandRole::Source
            && operand.kind == OperandKind::Register
            && operand.register.as_deref() == Some("ecx")
            && operand.width_bits == Some(32)
    }));
    assert!(instructions[5].typed_operands.iter().any(|operand| {
        operand.role == OperandRole::Source
            && operand.kind == OperandKind::Immediate
            && operand.value == Some(0x3)
            && operand.width_bits == Some(32)
    }));

    assert_eq!(instructions[6].mnemonic, "cmp");
    assert_eq!(instructions[6].size, 4);
    assert_eq!(instructions[6].operands, "r8d,0xfffffffffffffffb");
    assert!(instructions[6].typed_operands.iter().any(|operand| {
        operand.role == OperandRole::Source
            && operand.kind == OperandKind::Register
            && operand.register.as_deref() == Some("r8d")
            && operand.width_bits == Some(32)
    }));
    assert!(instructions[6].typed_operands.iter().any(|operand| {
        operand.role == OperandRole::Source
            && operand.kind == OperandKind::Immediate
            && operand.value == Some(0xffff_ffff_ffff_fffb)
            && operand.width_bits == Some(8)
    }));
}
