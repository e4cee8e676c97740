use revdeck_index::cfg::{NativeRef, XrefRelation};
use revdeck_index::frame::ArtifactFormat;
use revdeck_index::functions::{BoundaryConfidence, ParsedFunction};
use revdeck_index::parse::{parse_binary, ParsedBinary};
use revdeck_index::profile::AnalysisProfile;

fn synthetic_pe_fixture() -> Vec<u8> {
    let mut bytes = vec![0u8; 0x600];
    put_u16(&mut bytes, 0x00, 0x5a4d);
    put_u32(&mut bytes, 0x3c, 0x80);
    put_u32(&mut bytes, 0x80, 0x0000_4550);
    put_u16(&mut bytes, 0x84, 0x8664);
    put_u16(&mut bytes, 0x86, 2);
    put_u16(&mut bytes, 0x94, 0xf0);
    put_u16(&mut bytes, 0x96, 0x0022);

    let optional = 0x98;
    put_u16(&mut bytes, optional, 0x20b);
    bytes[optional + 2] = 14;
    put_u32(&mut bytes, optional + 4, 0x200);
    put_u32(&mut bytes, optional + 16, 0x1000);
    put_u32(&mut bytes, optional + 20, 0x1000);
    put_u64(&mut bytes, optional + 24, 0x140000000);
    put_u32(&mut bytes, optional + 32, 0x1000);
    put_u32(&mut bytes, optional + 36, 0x200);
    put_u16(&mut bytes, optional + 48, 6);
    put_u32(&mut bytes, optional + 56, 0x3000);
    put_u32(&mut bytes, optional + 60, 0x200);
    put_u16(&mut bytes, optional + 68, 3);
    put_u64(&mut bytes, optional + 72, 0x100000);
    put_u64(&mut bytes, optional + 80, 0x1000);
    put_u64(&mut bytes, optional + 88, 0x100000);
    put_u64(&mut bytes, optional + 96, 0x1000);
    put_u32(&mut bytes, optional + 108, 16);

    let text = 0x188;
    put_section(&mut bytes, text, b".text", 0x40, 0x1000, 0x200, 0x200, 0x6000_0020);
    let rdata = text + 40;
    put_section(&mut bytes, rdata, b".rdata", 0x80, 0x2000, 0x200, 0x400, 0x4000_0040);

    bytes[0x200..0x205].copy_from_slice(&[0x74, 0x02, 0x90, 0xc3, 0xc3]);
    bytes[0x400..0x40f].copy_from_slice(b"cmd.exe /c calc");
    bytes[0x420..0x42b].copy_from_slice(b"admin-token");
    bytes
}

fn synthetic_pe_with_import_fixture() -> Vec<u8> {
    let mut bytes = synthetic_pe_fixture();
    put_u32(&mut bytes, 0x1b0 + 8, 0x100);
    bytes[0x400..0x500].fill(0);
    put_u32(&mut bytes, 0x400, 0x2040);
    put_u32(&mut bytes, 0x404, 0);
    put_u32(&mut bytes, 0x408, 0);
    put_u32(&mut bytes, 0x40c, 0x2030);
    put_u32(&mut bytes, 0x410, 0x2080);
    bytes[0x430..0x43c].copy_from_slice(b"kernel32.dll");
    put_u64(&mut bytes, 0x440, 0x2060);
    put_u64(&mut bytes, 0x448, 0);
    put_u16(&mut bytes, 0x460, 0);
    bytes[0x462..0x46d].copy_from_slice(b"ExitProcess");
    put_u64(&mut bytes, 0x480, 0x2060);
    put_u64(&mut bytes, 0x488, 0);
    put_u32(&mut bytes, 0x98 + 112 + 8, 0x2000);
    put_u32(&mut bytes, 0x98 + 112 + 12, 0x100);
    bytes
}

#[allow(clippy::too_many_arguments)]
fn put_section(
    bytes: &mut [u8],
    offset: usize,
    name: &[u8],
    virtual_size: u32,
    virtual_address: u32,
    raw_size: u32,
    raw_pointer: u32,
    characteristics: u32,
) {
    bytes[offset..offset + name.len()].copy_from_slice(name);
    put_u32(bytes, offset + 8, virtual_size);
    put_u32(bytes, offset + 12, virtual_address);
    put_u32(bytes, offset + 16, raw_size);
    put_u32(bytes, offset + 20, raw_pointer);
    put_u32(bytes, offset + 36, characteristics);
}

fn put_u16(bytes: &mut [u8], offset: usize, value: u16) {
    bytes[offset..offset + 2].copy_from_slice(&value.to_le_bytes());
}

fn put_u32(bytes: &mut [u8], offset: usize, value: u32) {
    bytes[offset..offset + 4].copy_from_slice(&value.to_le_bytes());
}

fn put_u64(bytes: &mut [u8], offset: usize, value: u64) {
    bytes[offset..offset + 8].copy_from_slice(&value.to_le_bytes());
}


fn entry_function(binary: &ParsedBinary) -> &ParsedFunction {
    binary
        .functions
        .iter()
        .find(|function| function.name == "entrypoint")
        .expect("entrypoint function should be indexed")
}

#[test]
fn synthetic_pe_fixture_indexes_sections_strings_and_entrypoint() {
    let binary = parse_binary(&synthetic_pe_fixture(), AnalysisProfile::Balanced).unwrap();

    assert_eq!(binary.sections.len(), 2);
    assert!(binary.strings.len() >= 2);
    assert!(binary.functions.len() >= 1);
    assert!(binary.basic_blocks.len() > 0);
    assert!(binary.instructions.len() > 0);
    assert!(binary.cfg_edges.len() > 0);
    assert_eq!(binary.format, ArtifactFormat::Pe);
    assert_eq!(
        binary
            .strings
            .iter()
            .filter(|string| string.value == "cmd.exe /c calc" || string.value == "admin-token")
            .count(),
        2
    );
}

#[test]
fn quick_profile_skips_native_cfg_but_keeps_surface_facts() {
    let binary = parse_binary(&synthetic_pe_fixture(), AnalysisProfile::Quick).unwrap();

    assert_eq!(binary.sections.len(), 2);
    assert!(binary.strings.len() >= 2);
    assert!(binary.functions.len() >= 1);
    assert!(binary
        .diagnostics
        .iter()
        .any(|diagnostic| diagnostic.code == "pass_skipped_by_profile" && diagnostic.recoverable));
    assert_eq!(binary.basic_blocks.len(), 0);
    assert_eq!(binary.instructions.len(), 0);
    assert_eq!(binary.cfg_edges.len(), 0);
}

#[test]
fn synthetic_pe_direct_call_targets_create_heuristic_functions() {
    let mut bytes = synthetic_pe_fixture();
    bytes[0x200..0x20b].copy_from_slice(&[
        0xe8, 0x03, 0x00, 0x00, 0x00, // call 0x1008
        0xc3, // ret
        0x90, 0x90, // padding
        0x55, // push rbp
        0xc3, // ret
        0x90, // padding
    ]);
    let binary = parse_binary(&bytes, AnalysisProfile::Balanced).unwrap();

    let entry = entry_function(&binary);
    let entrypoint_address = entry.address.unwrap();
    let target_address = entrypoint_address + 8;
    assert_eq!(entry.size, Some(6));
    assert_eq!(
        binary
            .functions
            .iter()
            .filter(|function| function.address == Some(target_address)
                && function.boundary_source == "call_target"
                && function.boundary_confidence == BoundaryConfidence::Heuristic)
            .count(),
        1
    );
    let entry_index =
        binary.functions.iter().position(|function| function.name == "entrypoint").unwrap() as u64;
    let target_index =
        binary.functions.iter().rposition(|function| function.address == Some(target_address)).unwrap() as u64;
    assert_eq!(
        binary
            .xrefs
            .iter()
            .filter(|xref| xref.relation == XrefRelation::Calls
                && xref.source == NativeRef::Function(entrypoint_address, entry_index)
                && xref.target == NativeRef::Function(target_address, target_index))
            .count(),
        1
    );
}

#[test]
fn synthetic_pe_function_metadata_includes_stack_frame() {
    let mut bytes = synthetic_pe_fixture();
    bytes[0x200..0x21b].copy_from_slice(&[
        0x55, // push rbp
        0x48, 0x89, 0xe5, // mov rbp,rsp
        0x48, 0x83, 0xec, 0x20, // sub rsp,0x20
        0x48, 0x89, 0xc8, // mov rax,rcx
        0x48, 0x89, 0x45, 0xf8, // mov qword ptr [rbp-0x8],rax
        0x48, 0x8b, 0x45, 0xf8, // mov rax,qword ptr [rbp-0x8]
        0x48, 0x83, 0xc4, 0x20, // add rsp,0x20
        0x5d, // pop rbp
        0xc3, // ret
        0x90, 0x90, // padding
    ]);
    let binary = parse_binary(&bytes, AnalysisProfile::Balanced).unwrap();

    let metadata = entry_function(&binary);
    assert_eq!(metadata.frame_pointer.as_deref(), Some("rbp"));
    assert_eq!(metadata.stack_frame_size, Some(0x20));
    assert_eq!(metadata.stack_cleanup_size, Some(0x20));
    assert_eq!(metadata.epilogue_kind.as_deref(), Some("stack-add-pop-rbp"));
    assert!(metadata.has_frame_epilogue);
    assert_eq!(metadata.calling_convention.as_deref(), Some("windows-x64"));
    assert!(metadata
        .argument_registers
        .iter()
        .any(|register| register.ordinal == 0 && register.register == "rcx"));
    assert!(metadata.stack_slots.iter().any(|slot| slot.base == "rbp"
        && slot.offset == -8
        && slot.width_bits == Some(64)
        && slot.accesses.iter().any(|access| access == "read")
        && slot.accesses.iter().any(|access| access == "write")));
}

#[test]
fn synthetic_pe_imports_include_iat_slot_addresses() {
    let bytes = synthetic_pe_with_import_fixture();
    let binary = parse_binary(&bytes, AnalysisProfile::Balanced).expect("synthetic PE should parse");

    let exit_process = binary
        .imports
        .iter()
        .find(|import| import.symbol == "ExitProcess")
        .expect("synthetic PE import should be indexed");
    assert_eq!(exit_process.module.as_deref(), Some("kernel32.dll"));
    assert_eq!(exit_process.address, Some(0x140002080));
}

#[test]
fn synthetic_pe_function_metadata_tracks_stack_slot_immediate_writes() {
    let mut bytes = synthetic_pe_fixture();
    bytes[0x200..0x20f].copy_from_slice(&[
        0x55, // push rbp
        0x48, 0x89, 0xe5, // mov rbp,rsp
        0xc7, 0x45, 0xfc, 0x2a, 0x00, 0x00, 0x00, // mov dword ptr [rbp-0x4],0x2a
        0x5d, // pop rbp
        0xc3, // ret
        0x90, 0x90, // padding
    ]);
    let binary = parse_binary(&bytes, AnalysisProfile::Balanced).unwrap();
    let metadata = entry_function(&binary);
    assert!(metadata.stack_slots.iter()
        .any(|slot| slot.base == "rbp"
            && slot.offset == -4
            && slot.width_bits == Some(32)
            && slot.accesses.iter()
                .any(|access| access == "write")));
}

#[test]
fn synthetic_pe_function_metadata_tracks_byte_stack_slot_immediate_writes() {
    let mut bytes = synthetic_pe_fixture();
    bytes[0x200..0x20c].copy_from_slice(&[
        0x55, // push rbp
        0x48, 0x89, 0xe5, // mov rbp,rsp
        0xc6, 0x45, 0xff, 0x01, // mov byte ptr [rbp-0x1],0x1
        0x5d, // pop rbp
        0xc3, // ret
        0x90, 0x90, // padding
    ]);
    let binary = parse_binary(&bytes, AnalysisProfile::Balanced).unwrap();
    let metadata = entry_function(&binary);
    assert!(metadata.stack_slots.iter()
        .any(|slot| slot.base == "rbp"
            && slot.offset == -1
            && slot.width_bits == Some(8)
            && slot.accesses.iter()
                .any(|access| access == "write")));
}

#[test]
fn synthetic_pe_function_metadata_tracks_mov_rm8_register_memory_stack_slots() {
    let mut bytes = synthetic_pe_fixture();
    bytes[0x200..0x210].copy_from_slice(&[
        0x55, // push rbp
        0x48, 0x89, 0xe5, // mov rbp,rsp
        0x88, 0x45, 0xff, // mov byte ptr [rbp-0x1],al
        0x8a, 0x4d, 0xff, // mov cl,byte ptr [rbp-0x1]
        0x5d, // pop rbp
        0xc3, // ret
        0x90, 0x90, 0x90, 0x90, // padding
    ]);
    let binary = parse_binary(&bytes, AnalysisProfile::Balanced).unwrap();
    let metadata = entry_function(&binary);
    assert!(metadata.stack_slots.iter()
        .any(|slot| slot.base == "rbp"
            && slot.offset == -1
            && slot.width_bits == Some(8)
            && slot.accesses.iter()
                .any(|access| access == "read")
            && slot.accesses.iter()
                .any(|access| access == "write")));
}

#[test]
fn synthetic_pe_function_metadata_tracks_cmp_test_rm8_stack_slot_reads() {
    let mut bytes = synthetic_pe_fixture();
    bytes[0x200..0x210].copy_from_slice(&[
        0x55, // push rbp
        0x48, 0x89, 0xe5, // mov rbp,rsp
        0xc6, 0x45, 0xff, 0x7f, // mov byte ptr [rbp-0x1],0x7f
        0x38, 0x45, 0xff, // cmp byte ptr [rbp-0x1],al
        0x84, 0x4d, 0xff, // test byte ptr [rbp-0x1],cl
        0x5d, // pop rbp
        0xc3, // ret
    ]);
    let binary = parse_binary(&bytes, AnalysisProfile::Balanced).unwrap();
    let metadata = entry_function(&binary);
    assert!(metadata.stack_slots.iter()
        .any(|slot| slot.base == "rbp"
            && slot.offset == -1
            && slot.width_bits == Some(8)
            && slot.accesses.iter()
                .any(|access| access == "read")
            && slot.accesses.iter()
                .any(|access| access == "write")));
}

#[test]
fn synthetic_pe_function_metadata_tracks_cmp_test_rm8_immediate_stack_slot_reads() {
    let mut bytes = synthetic_pe_fixture();
    bytes[0x200..0x216].copy_from_slice(&[
        0x55, // push rbp
        0x48, 0x89, 0xe5, // mov rbp,rsp
        0xc6, 0x45, 0xff, 0x7f, // mov byte ptr [rbp-0x1],0x7f
        0x80, 0x7d, 0xff, 0x7f, // cmp byte ptr [rbp-0x1],0x7f
        0xf6, 0x45, 0xff, 0x80, // test byte ptr [rbp-0x1],0x80
        0x5d, // pop rbp
        0xc3, // ret
        0x90, 0x90, 0x90, 0x90, // padding
    ]);
    let binary = parse_binary(&bytes, AnalysisProfile::Balanced).unwrap();
    let metadata = entry_function(&binary);
    assert!(metadata.stack_slots.iter()
        .any(|slot| slot.base == "rbp"
            && slot.offset == -1
            && slot.width_bits == Some(8)
            && slot.accesses.iter()
                .any(|access| access == "read")
            && slot.accesses.iter()
                .any(|access| access == "write")));
}

#[test]
fn synthetic_pe_function_metadata_tracks_word_stack_slot_immediate_writes() {
    let mut bytes = synthetic_pe_fixture();
    bytes[0x200..0x20e].copy_from_slice(&[
        0x55, // push rbp
        0x48, 0x89, 0xe5, // mov rbp,rsp
        0x66, 0xc7, 0x45, 0xfe, 0xef, 0xbe, // mov word ptr [rbp-0x2],0xbeef
        0x5d, // pop rbp
        0xc3, // ret
        0x90, 0x90, // padding
    ]);
    let binary = parse_binary(&bytes, AnalysisProfile::Balanced).unwrap();
    let metadata = entry_function(&binary);
    assert!(metadata.stack_slots.iter()
        .any(|slot| slot.base == "rbp"
            && slot.offset == -2
            && slot.width_bits == Some(16)
            && slot.accesses.iter()
                .any(|access| access == "write")));
}

#[test]
fn synthetic_pe_function_metadata_tracks_word_stack_slot_register_moves() {
    let mut bytes = synthetic_pe_fixture();
    bytes[0x200..0x212].copy_from_slice(&[
        0x55, // push rbp
        0x48, 0x89, 0xe5, // mov rbp,rsp
        0x66, 0x89, 0x45, 0xfe, // mov word ptr [rbp-0x2],ax
        0x66, 0x8b, 0x4d, 0xfe, // mov cx,word ptr [rbp-0x2]
        0x5d, // pop rbp
        0xc3, // ret
        0x90, 0x90, 0x90, 0x90, // padding
    ]);
    let binary = parse_binary(&bytes, AnalysisProfile::Balanced).unwrap();
    let metadata = entry_function(&binary);
    assert!(metadata.stack_slots.iter()
        .any(|slot| slot.base == "rbp"
            && slot.offset == -2
            && slot.width_bits == Some(16)
            && slot.accesses.iter()
                .any(|access| access == "read")
            && slot.accesses.iter()
                .any(|access| access == "write")));
}

#[test]
fn synthetic_pe_function_metadata_tracks_mov_rm32_register_memory_stack_slots() {
    let mut bytes = synthetic_pe_fixture();
    bytes[0x200..0x210].copy_from_slice(&[
        0x55, // push rbp
        0x48, 0x89, 0xe5, // mov rbp,rsp
        0x89, 0x45, 0xfc, // mov dword ptr [rbp-0x4],eax
        0x8b, 0x4d, 0xfc, // mov ecx,dword ptr [rbp-0x4]
        0x5d, // pop rbp
        0xc3, // ret
        0x90, 0x90, 0x90, 0x90, // padding
    ]);
    let binary = parse_binary(&bytes, AnalysisProfile::Balanced).unwrap();
    let metadata = entry_function(&binary);
    assert!(metadata.stack_slots.iter()
        .any(|slot| slot.base == "rbp"
            && slot.offset == -4
            && slot.width_bits == Some(32)
            && slot.accesses.iter()
                .any(|access| access == "read")
            && slot.accesses.iter()
                .any(|access| access == "write")));
}

#[test]
fn synthetic_pe_function_metadata_tracks_movzx_stack_slot_reads() {
    let mut bytes = synthetic_pe_fixture();
    bytes[0x200..0x212].copy_from_slice(&[
        0x55, // push rbp
        0x48, 0x89, 0xe5, // mov rbp,rsp
        0xc6, 0x45, 0xff, 0x7f, // mov byte ptr [rbp-0x1],0x7f
        0x0f, 0xb6, 0x45, 0xff, // movzx eax,byte ptr [rbp-0x1]
        0x5d, // pop rbp
        0xc3, // ret
        0x90, 0x90, 0x90, 0x90, // padding
    ]);
    let binary = parse_binary(&bytes, AnalysisProfile::Balanced).unwrap();
    let metadata = entry_function(&binary);
    assert!(metadata.stack_slots.iter()
        .any(|slot| slot.base == "rbp"
            && slot.offset == -1
            && slot.width_bits == Some(8)
            && slot.accesses.iter()
                .any(|access| access == "read")
            && slot.accesses.iter()
                .any(|access| access == "write")));
}

#[test]
fn synthetic_pe_function_metadata_tracks_setcc_stack_slot_writes() {
    let mut bytes = synthetic_pe_fixture();
    bytes[0x200..0x20e].copy_from_slice(&[
        0x55, // push rbp
        0x48, 0x89, 0xe5, // mov rbp,rsp
        0x31, 0xc0, // xor eax,eax
        0x39, 0xc0, // cmp eax,eax
        0x0f, 0x94, 0x45, 0xff, // sete byte ptr [rbp-0x1]
        0x5d, // pop rbp
        0xc3, // ret
    ]);
    let binary = parse_binary(&bytes, AnalysisProfile::Balanced).unwrap();
    let metadata = entry_function(&binary);
    assert!(metadata.stack_slots.iter()
        .any(|slot| slot.base == "rbp"
            && slot.offset == -1
            && slot.width_bits == Some(8)
            && slot.accesses.iter()
                .any(|access| access == "write")));
}

#[test]
fn synthetic_pe_function_metadata_tracks_movsx_stack_slot_reads() {
    let mut bytes = synthetic_pe_fixture();
    bytes[0x200..0x212].copy_from_slice(&[
        0x55, // push rbp
        0x48, 0x89, 0xe5, // mov rbp,rsp
        0xc6, 0x45, 0xff, 0x80, // mov byte ptr [rbp-0x1],0x80
        0x0f, 0xbe, 0x45, 0xff, // movsx eax,byte ptr [rbp-0x1]
        0x5d, // pop rbp
        0xc3, // ret
        0x90, 0x90, 0x90, 0x90, // padding
    ]);
    let binary = parse_binary(&bytes, AnalysisProfile::Balanced).unwrap();
    let metadata = entry_function(&binary);
    assert!(metadata.stack_slots.iter()
        .any(|slot| slot.base == "rbp"
            && slot.offset == -1
            && slot.width_bits == Some(8)
            && slot.accesses.iter()
                .any(|access| access == "read")
            && slot.accesses.iter()
                .any(|access| access == "write")));
}

#[test]
fn synthetic_pe_function_metadata_tracks_movsxd_stack_slot_reads() {
    let mut bytes = synthetic_pe_fixture();
    bytes[0x200..0x215].copy_from_slice(&[
        0x55, // push rbp
        0x48, 0x89, 0xe5, // mov rbp,rsp
        0xc7, 0x45, 0xfc, 0x80, 0xff, 0xff, 0xff, // mov dword ptr [rbp-0x4],0xffffff80
        0x48, 0x63, 0x45, 0xfc, // movsxd rax,dword ptr [rbp-0x4]
        0x5d, // pop rbp
        0xc3, // ret
        0x90, 0x90, 0x90, 0x90, // padding
    ]);
    let binary = parse_binary(&bytes, AnalysisProfile::Balanced).unwrap();
    let metadata = entry_function(&binary);
    assert!(metadata.stack_slots.iter()
        .any(|slot| slot.base == "rbp"
            && slot.offset == -4
            && slot.width_bits == Some(32)
            && slot.accesses.iter()
                .any(|access| access == "read")
            && slot.accesses.iter()
                .any(|access| access == "write")));
}

#[test]
fn synthetic_pe_function_metadata_tracks_cmp_test_stack_slot_reads() {
    let mut bytes = synthetic_pe_fixture();
    bytes[0x200..0x217].copy_from_slice(&[
        0x55, // push rbp
        0x48, 0x89, 0xe5, // mov rbp,rsp
        0xc7, 0x45, 0xfc, 0x2a, 0x00, 0x00, 0x00, // mov dword ptr [rbp-0x4],0x2a
        0x39, 0x45, 0xfc, // cmp dword ptr [rbp-0x4],eax
        0x85, 0x4d, 0xfc, // test dword ptr [rbp-0x4],ecx
        0x5d, // pop rbp
        0xc3, // ret
        0x90, 0x90, 0x90, 0x90, // padding
    ]);
    let binary = parse_binary(&bytes, AnalysisProfile::Balanced).unwrap();
    let metadata = entry_function(&binary);
    assert!(metadata.stack_slots.iter()
        .any(|slot| slot.base == "rbp"
            && slot.offset == -4
            && slot.width_bits == Some(32)
            && slot.accesses.iter()
                .any(|access| access == "read")
            && slot.accesses.iter()
                .any(|access| access == "write")));
}

#[test]
fn synthetic_pe_function_metadata_tracks_cmovcc_stack_slot_reads() {
    let mut bytes = synthetic_pe_fixture();
    bytes[0x200..0x215].copy_from_slice(&[
        0x55, // push rbp
        0x48, 0x89, 0xe5, // mov rbp,rsp
        0xc7, 0x45, 0xfc, 0x2a, 0x00, 0x00, 0x00, // mov dword ptr [rbp-0x4],0x2a
        0x31, 0xc0, // xor eax,eax
        0x39, 0xc0, // cmp eax,eax
        0x0f, 0x44, 0x45, 0xfc, // cmove eax,dword ptr [rbp-0x4]
        0x5d, // pop rbp
        0xc3, // ret
    ]);
    let binary = parse_binary(&bytes, AnalysisProfile::Balanced).unwrap();
    let metadata = entry_function(&binary);
    assert!(metadata.stack_slots.iter()
        .any(|slot| slot.base == "rbp"
            && slot.offset == -4
            && slot.width_bits == Some(32)
            && slot.accesses.iter()
                .any(|access| access == "read")));
}

#[test]
fn synthetic_pe_function_metadata_tracks_cmp_test_immediate_stack_slot_reads() {
    let mut bytes = synthetic_pe_fixture();
    bytes[0x200..0x21a].copy_from_slice(&[
        0x55, // push rbp
        0x48, 0x89, 0xe5, // mov rbp,rsp
        0xc7, 0x45, 0xfc, 0x2a, 0x00, 0x00, 0x00, // mov dword ptr [rbp-0x4],0x2a
        0x83, 0x7d, 0xfc, 0x2a, // cmp dword ptr [rbp-0x4],0x2a
        0xf7, 0x45, 0xfc, 0xff, 0x00, 0x00, 0x00, // test dword ptr [rbp-0x4],0xff
        0x5d, // pop rbp
        0xc3, // ret
        0x90, 0x90, // padding
    ]);
    let binary = parse_binary(&bytes, AnalysisProfile::Balanced).unwrap();
    let metadata = entry_function(&binary);
    assert!(metadata.stack_slots.iter()
        .any(|slot| slot.base == "rbp"
            && slot.offset == -4
            && slot.width_bits == Some(32)
            && slot.accesses.iter()
                .any(|access| access == "read")
            && slot.accesses.iter()
                .any(|access| access == "write")));
}

#[test]
fn synthetic_pe_function_metadata_tracks_group1_stack_slot_writes() {
    let mut bytes = synthetic_pe_fixture();
    bytes[0x200..0x217].copy_from_slice(&[
        0x55, // push rbp
        0x48, 0x89, 0xe5, // mov rbp,rsp
        0xc7, 0x45, 0xfc, 0x01, 0x00, 0x00, 0x00, // mov dword ptr [rbp-0x4],0x1
        0x83, 0x45, 0xfc, 0x02, // add dword ptr [rbp-0x4],0x2
        0x83, 0x65, 0xfc, 0x0f, // and dword ptr [rbp-0x4],0xf
        0x5d, // pop rbp
        0xc3, // ret
        0x90, 0x90, // padding
    ]);
    let binary = parse_binary(&bytes, AnalysisProfile::Balanced).unwrap();
    let metadata = entry_function(&binary);
    assert!(metadata.stack_slots.iter()
        .any(|slot| slot.base == "rbp"
            && slot.offset == -4
            && slot.width_bits == Some(32)
            && slot.accesses.iter()
                .any(|access| access == "write")));
}

#[test]
fn synthetic_pe_function_metadata_tracks_group1_adc_sbb_stack_slot_writes() {
    let mut bytes = synthetic_pe_fixture();
    bytes[0x200..0x217].copy_from_slice(&[
        0x55, // push rbp
        0x48, 0x89, 0xe5, // mov rbp,rsp
        0xc7, 0x45, 0xfc, 0x01, 0x00, 0x00, 0x00, // mov dword ptr [rbp-0x4],0x1
        0x83, 0x55, 0xfc, 0x02, // adc dword ptr [rbp-0x4],0x2
        0x83, 0x5d, 0xfc, 0x01, // sbb dword ptr [rbp-0x4],0x1
        0x5d, // pop rbp
        0xc3, // ret
        0x90, 0x90, // padding
    ]);
    let binary = parse_binary(&bytes, AnalysisProfile::Balanced).unwrap();
    let metadata = entry_function(&binary);
    assert!(metadata.stack_slots.iter()
        .any(|slot| slot.base == "rbp"
            && slot.offset == -4
            && slot.width_bits == Some(32)
            && slot.accesses.iter()
                .any(|access| access == "write")));
}

#[test]
fn synthetic_pe_function_metadata_tracks_group1_rm8_stack_slot_writes() {
    let mut bytes = synthetic_pe_fixture();
    bytes[0x200..0x212].copy_from_slice(&[
        0x55, // push rbp
        0x48, 0x89, 0xe5, // mov rbp,rsp
        0xc6, 0x45, 0xff, 0x01, // mov byte ptr [rbp-0x1],0x1
        0x80, 0x45, 0xff, 0x02, // add byte ptr [rbp-0x1],0x2
        0x80, 0x65, 0xff, 0x0f, // and byte ptr [rbp-0x1],0xf
        0x5d, // pop rbp
        0xc3, // ret
    ]);
    let binary = parse_binary(&bytes, AnalysisProfile::Balanced).unwrap();
    let metadata = entry_function(&binary);
    assert!(metadata.stack_slots.iter()
        .any(|slot| slot.base == "rbp"
            && slot.offset == -1
            && slot.width_bits == Some(8)
            && slot.accesses.iter()
                .any(|access| access == "write")));
}

#[test]
fn synthetic_pe_function_metadata_tracks_group1_rm8_adc_sbb_stack_slot_writes() {
    let mut bytes = synthetic_pe_fixture();
    bytes[0x200..0x212].copy_from_slice(&[
        0x55, // push rbp
        0x48, 0x89, 0xe5, // mov rbp,rsp
        0xc6, 0x45, 0xff, 0x01, // mov byte ptr [rbp-0x1],0x1
        0x80, 0x55, 0xff, 0x02, // adc byte ptr [rbp-0x1],0x2
        0x80, 0x5d, 0xff, 0x01, // sbb byte ptr [rbp-0x1],0x1
        0x5d, // pop rbp
        0xc3, // ret
    ]);
    let binary = parse_binary(&bytes, AnalysisProfile::Balanced).unwrap();
    let metadata = entry_function(&binary);
    assert!(metadata.stack_slots.iter()
        .any(|slot| slot.base == "rbp"
            && slot.offset == -1
            && slot.width_bits == Some(8)
            && slot.accesses.iter()
                .any(|access| access == "write")));
}

#[test]
fn synthetic_pe_function_metadata_tracks_adc_sbb_register_memory_stack_slot_writes() {
    let mut bytes = synthetic_pe_fixture();
    bytes[0x200..0x217].copy_from_slice(&[
        0x55, // push rbp
        0x48, 0x89, 0xe5, // mov rbp,rsp
        0xc7, 0x45, 0xfc, 0x01, 0x00, 0x00, 0x00, // mov dword ptr [rbp-0x4],0x1
        0x11, 0x45, 0xfc, // adc dword ptr [rbp-0x4],eax
        0x1b, 0x4d, 0xfc, // sbb ecx,dword ptr [rbp-0x4]
        0x5d, // pop rbp
        0xc3, // ret
        0x90, 0x90, 0x90, 0x90, // padding
    ]);
    let binary = parse_binary(&bytes, AnalysisProfile::Balanced).unwrap();
    let metadata = entry_function(&binary);
    assert!(metadata.stack_slots.iter()
        .any(|slot| slot.base == "rbp"
            && slot.offset == -4
            && slot.width_bits == Some(32)
            && slot.accesses.iter()
                .any(|access| access == "read")
            && slot.accesses.iter()
                .any(|access| access == "write")));
}

#[test]
fn synthetic_pe_function_metadata_tracks_adc_sbb_rm8_register_memory_stack_slot_writes() {
    let mut bytes = synthetic_pe_fixture();
    bytes[0x200..0x210].copy_from_slice(&[
        0x55, // push rbp
        0x48, 0x89, 0xe5, // mov rbp,rsp
        0xc6, 0x45, 0xff, 0x01, // mov byte ptr [rbp-0x1],0x1
        0x10, 0x45, 0xff, // adc byte ptr [rbp-0x1],al
        0x1a, 0x4d, 0xff, // sbb cl,byte ptr [rbp-0x1]
        0x5d, // pop rbp
        0xc3, // ret
    ]);
    let binary = parse_binary(&bytes, AnalysisProfile::Balanced).unwrap();
    let metadata = entry_function(&binary);
    assert!(metadata.stack_slots.iter()
        .any(|slot| slot.base == "rbp"
            && slot.offset == -1
            && slot.width_bits == Some(8)
            && slot.accesses.iter()
                .any(|access| access == "read")
            && slot.accesses.iter()
                .any(|access| access == "write")));
}

#[test]
fn synthetic_pe_function_metadata_tracks_inc_dec_stack_slot_writes() {
    let mut bytes = synthetic_pe_fixture();
    bytes[0x200..0x215].copy_from_slice(&[
        0x55, // push rbp
        0x48, 0x89, 0xe5, // mov rbp,rsp
        0xc7, 0x45, 0xfc, 0x01, 0x00, 0x00, 0x00, // mov dword ptr [rbp-0x4],0x1
        0xff, 0x45, 0xfc, // inc dword ptr [rbp-0x4]
        0xff, 0x4d, 0xfc, // dec dword ptr [rbp-0x4]
        0x5d, // pop rbp
        0xc3, // ret
        0x90, 0x90, // padding
    ]);
    let binary = parse_binary(&bytes, AnalysisProfile::Balanced).unwrap();
    let metadata = entry_function(&binary);
    assert!(metadata.stack_slots.iter()
        .any(|slot| slot.base == "rbp"
            && slot.offset == -4
            && slot.width_bits == Some(32)
            && slot.accesses.iter()
                .any(|access| access == "write")));
}

#[test]
fn synthetic_pe_function_metadata_tracks_inc_dec_rm8_stack_slot_writes() {
    let mut bytes = synthetic_pe_fixture();
    bytes[0x200..0x210].copy_from_slice(&[
        0x55, // push rbp
        0x48, 0x89, 0xe5, // mov rbp,rsp
        0xc6, 0x45, 0xff, 0x01, // mov byte ptr [rbp-0x1],0x1
        0xfe, 0x45, 0xff, // inc byte ptr [rbp-0x1]
        0xfe, 0x4d, 0xff, // dec byte ptr [rbp-0x1]
        0x5d, // pop rbp
        0xc3, // ret
    ]);
    let binary = parse_binary(&bytes, AnalysisProfile::Balanced).unwrap();
    let metadata = entry_function(&binary);
    assert!(metadata.stack_slots.iter()
        .any(|slot| slot.base == "rbp"
            && slot.offset == -1
            && slot.width_bits == Some(8)
            && slot.accesses.iter()
                .any(|access| access == "write")));
}

#[test]
fn synthetic_pe_function_metadata_tracks_shift_stack_slot_writes() {
    let mut bytes = synthetic_pe_fixture();
    bytes[0x200..0x215].copy_from_slice(&[
        0x55, // push rbp
        0x48, 0x89, 0xe5, // mov rbp,rsp
        0xc7, 0x45, 0xfc, 0x08, 0x00, 0x00, 0x00, // mov dword ptr [rbp-0x4],0x8
        0xc1, 0x65, 0xfc, 0x01, // shl dword ptr [rbp-0x4],0x1
        0xc1, 0x7d, 0xfc, 0x02, // sar dword ptr [rbp-0x4],0x2
        0x5d, // pop rbp
        0xc3, // ret
    ]);
    let binary = parse_binary(&bytes, AnalysisProfile::Balanced).unwrap();
    let metadata = entry_function(&binary);
    assert!(metadata.stack_slots.iter()
        .any(|slot| slot.base == "rbp"
            && slot.offset == -4
            && slot.width_bits == Some(32)
            && slot.accesses.iter()
                .any(|access| access == "write")));
}

#[test]
fn synthetic_pe_function_metadata_tracks_shift_one_and_cl_stack_slot_writes() {
    let mut bytes = synthetic_pe_fixture();
    bytes[0x200..0x213].copy_from_slice(&[
        0x55, // push rbp
        0x48, 0x89, 0xe5, // mov rbp,rsp
        0xc7, 0x45, 0xfc, 0x08, 0x00, 0x00, 0x00, // mov dword ptr [rbp-0x4],0x8
        0xd1, 0x65, 0xfc, // shl dword ptr [rbp-0x4],1
        0xd3, 0x7d, 0xfc, // sar dword ptr [rbp-0x4],cl
        0x5d, // pop rbp
        0xc3, // ret
    ]);
    let binary = parse_binary(&bytes, AnalysisProfile::Balanced).unwrap();
    let metadata = entry_function(&binary);
    assert!(metadata.stack_slots.iter()
        .any(|slot| slot.base == "rbp"
            && slot.offset == -4
            && slot.width_bits == Some(32)
            && slot.accesses.iter()
                .any(|access| access == "write")));
}

#[test]
fn synthetic_pe_function_metadata_tracks_not_neg_stack_slot_writes() {
    let mut bytes = synthetic_pe_fixture();
    bytes[0x200..0x214].copy_from_slice(&[
        0x55, // push rbp
        0x48, 0x89, 0xe5, // mov rbp,rsp
        0xc7, 0x45, 0xfc, 0x08, 0x00, 0x00, 0x00, // mov dword ptr [rbp-0x4],0x8
        0xf7, 0x55, 0xfc, // not dword ptr [rbp-0x4]
        0xf7, 0x5d, 0xfc, // neg dword ptr [rbp-0x4]
        0x5d, // pop rbp
        0xc3, // ret
        0x90, // padding
    ]);
    let binary = parse_binary(&bytes, AnalysisProfile::Balanced).unwrap();
    let metadata = entry_function(&binary);
    assert!(metadata.stack_slots.iter()
        .any(|slot| slot.base == "rbp"
            && slot.offset == -4
            && slot.width_bits == Some(32)
            && slot.accesses.iter()
                .any(|access| access == "write")));
}

#[test]
fn synthetic_pe_function_metadata_tracks_shift_rm8_stack_slot_writes() {
    let mut bytes = synthetic_pe_fixture();
    bytes[0x200..0x212].copy_from_slice(&[
        0x55, // push rbp
        0x48, 0x89, 0xe5, // mov rbp,rsp
        0xc6, 0x45, 0xff, 0x08, // mov byte ptr [rbp-0x1],0x8
        0xc0, 0x65, 0xff, 0x01, // shl byte ptr [rbp-0x1],0x1
        0xc0, 0x7d, 0xff, 0x02, // sar byte ptr [rbp-0x1],0x2
        0x5d, // pop rbp
        0xc3, // ret
    ]);
    let binary = parse_binary(&bytes, AnalysisProfile::Balanced).unwrap();
    let metadata = entry_function(&binary);
    assert!(metadata.stack_slots.iter()
        .any(|slot| slot.base == "rbp"
            && slot.offset == -1
            && slot.width_bits == Some(8)
            && slot.accesses.iter()
                .any(|access| access == "write")));
}

#[test]
fn synthetic_pe_function_metadata_tracks_shift_rm8_one_and_cl_stack_slot_writes() {
    let mut bytes = synthetic_pe_fixture();
    bytes[0x200..0x210].copy_from_slice(&[
        0x55, // push rbp
        0x48, 0x89, 0xe5, // mov rbp,rsp
        0xc6, 0x45, 0xff, 0x08, // mov byte ptr [rbp-0x1],0x8
        0xd0, 0x65, 0xff, // shl byte ptr [rbp-0x1],1
        0xd2, 0x7d, 0xff, // sar byte ptr [rbp-0x1],cl
        0x5d, // pop rbp
        0xc3, // ret
    ]);
    let binary = parse_binary(&bytes, AnalysisProfile::Balanced).unwrap();
    let metadata = entry_function(&binary);
    assert!(metadata.stack_slots.iter()
        .any(|slot| slot.base == "rbp"
            && slot.offset == -1
            && slot.width_bits == Some(8)
            && slot.accesses.iter()
                .any(|access| access == "write")));
}

#[test]
fn synthetic_pe_function_metadata_tracks_not_neg_rm8_stack_slot_writes() {
    let mut bytes = synthetic_pe_fixture();
    bytes[0x200..0x210].copy_from_slice(&[
        0x55, // push rbp
        0x48, 0x89, 0xe5, // mov rbp,rsp
        0xc6, 0x45, 0xff, 0x01, // mov byte ptr [rbp-0x1],0x1
        0xf6, 0x55, 0xff, // not byte ptr [rbp-0x1]
        0xf6, 0x5d, 0xff, // neg byte ptr [rbp-0x1]
        0x5d, // pop rbp
        0xc3, // ret
    ]);
    let binary = parse_binary(&bytes, AnalysisProfile::Balanced).unwrap();
    let metadata = entry_function(&binary);
    assert!(metadata.stack_slots.iter()
        .any(|slot| slot.base == "rbp"
            && slot.offset == -1
            && slot.width_bits == Some(8)
            && slot.accesses.iter()
                .any(|access| access == "write")));
}

#[test]
fn synthetic_pe_function_metadata_marks_lea_stack_slots_as_address_references() {
    let mut bytes = synthetic_pe_fixture();
    bytes[0x200..0x20e].copy_from_slice(&[
        0x55, // push rbp
        0x48, 0x89, 0xe5, // mov rbp,rsp
        0x48, 0x8d, 0x45, 0xf0, // lea rax,[rbp-0x10]
        0x5d, // pop rbp
        0xc3, // ret
        0x90, 0x90, 0x90, 0x90, // padding
    ]);
    let binary = parse_binary(&bytes, AnalysisProfile::Balanced).unwrap();
    let metadata = entry_function(&binary);
    assert!(metadata.stack_slots.iter()
        .any(|slot| slot.base == "rbp"
            && slot.offset == -0x10
            && slot.width_bits == Some(64)
            && slot.accesses.iter()
                .any(|access| access == "address_reference")
            && !slot.accesses.iter()
                .any(|access| access == "read")));
}

#[test]
fn synthetic_pe_instruction_metadata_tracks_push_pop_stack_pointer_effects() {
    let mut bytes = synthetic_pe_fixture();
    bytes[0x200..0x204].copy_from_slice(&[
        0x50, // push rax
        0x5b, // pop rbx
        0xc3, // ret
        0x90, // padding
    ]);
    let binary = parse_binary(&bytes, AnalysisProfile::Balanced).unwrap();

    let rows: Vec<_> = binary
        .instructions
        .iter()
        .filter(|instruction| instruction.mnemonic == "push" || instruction.mnemonic == "pop")
        .collect();
    assert_eq!(rows.len(), 2);
    assert_eq!(rows[0].mnemonic, "push");
    assert_eq!(rows[0].register_reads, vec!["rax", "rsp"]);
    assert_eq!(rows[0].register_writes, vec!["rsp"]);
    assert_eq!(rows[1].mnemonic, "pop");
    assert_eq!(rows[1].register_reads, vec!["rsp"]);
    assert_eq!(rows[1].register_writes, vec!["rbx", "rsp"]);
}

#[test]
fn synthetic_pe_instruction_metadata_tracks_call_return_stack_effects() {
    let mut bytes = synthetic_pe_fixture();
    bytes[0x200..0x20a].copy_from_slice(&[
        0xe8, 0x01, 0x00, 0x00, 0x00, // call 0x1006
        0xc3, // ret
        0xc9, // leave
        0xc3, // ret
        0x90, 0x90, // padding
    ]);
    let binary = parse_binary(&bytes, AnalysisProfile::Balanced).unwrap();

    let mut rows: Vec<_> = binary
        .instructions
        .iter()
        .filter(|instruction| {
            instruction.mnemonic == "call" || instruction.mnemonic == "leave" || instruction.mnemonic == "ret"
        })
        .collect();
    rows.sort_by_key(|instruction| instruction.address);
    assert_eq!(rows.len(), 4);
    assert_eq!(rows[0].mnemonic, "call");
    assert_eq!(rows[0].register_reads, vec!["rsp"]);
    assert_eq!(rows[0].register_writes, vec!["rsp"]);
    assert_eq!(rows[1].mnemonic, "ret");
    assert_eq!(rows[1].register_reads, vec!["rsp"]);
    assert_eq!(rows[1].register_writes, vec!["rsp"]);
    assert_eq!(rows[2].mnemonic, "leave");
    assert_eq!(rows[2].register_reads, vec!["rbp"]);
    assert_eq!(rows[2].register_writes, vec!["rbp", "rsp"]);
}
