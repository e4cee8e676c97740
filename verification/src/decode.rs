use vstd::prelude::*;

use crate::text::{hex_text, push_hex, push_hex_digits, push_hex_padded, string_of};

verus! {

/// What an operand is.
#[derive(Clone, Copy, Debug, PartialEq, Eq, Structural)]
pub enum OperandKind {
    Register,
    Immediate,
    Memory,
    RelativeTarget,
    Raw,
}

/// What an instruction does with an operand.
#[derive(Clone, Copy, Debug, PartialEq, Eq, Structural)]
pub enum OperandRole {
    Destination,
    Source,
    CallTarget,
    BranchTarget,
    DataReference,
    Unknown,
}

/// How an instruction transfers control.
#[derive(Clone, Copy, Debug, PartialEq, Eq, Structural)]
pub enum InstructionFlow {
    Sequential,
    Call,
    Jump,
    ConditionalBranch,
    Return,
}

/// One typed operand of a decoded instruction.
#[derive(Clone, Debug)]
pub struct DecodedOperand {
    pub role: OperandRole,
    pub kind: OperandKind,
    pub text: String,
    pub register: Option<String>,
    pub base: Option<String>,
    pub index: Option<String>,
    pub scale: Option<u8>,
    pub displacement: Option<i64>,
    pub value: Option<u64>,
    pub width_bits: Option<u16>,
    pub effective_address: Option<u64>,
}

/// One decoded x86-64 instruction.
#[derive(Clone, Debug)]
pub struct DecodedInstruction {
    pub address: u64,
    pub size: usize,
    pub bytes: Vec<u8>,
    pub mnemonic: String,
    pub operands: String,
    pub typed_operands: Vec<DecodedOperand>,
    pub target: Option<u64>,
    pub data_target: Option<u64>,
    pub flow: InstructionFlow,
}

/// The control-flow target an operand names directly, if any.
pub open spec fn spec_control_flow_target(op: DecodedOperand) -> Option<u64> {
    if op.kind == OperandKind::RelativeTarget && (op.role == OperandRole::CallTarget || op.role
        == OperandRole::BranchTarget) {
        op.value
    } else {
        None
    }
}

/// The data address a memory operand names statically, if any.
pub open spec fn spec_data_reference_target(op: DecodedOperand) -> Option<u64> {
    if op.kind == OperandKind::Memory {
        op.effective_address
    } else {
        None
    }
}

impl DecodedOperand {
    /// The direct call or branch target of this operand.
    pub fn control_flow_target(&self) -> (r: Option<u64>)
        ensures
            r == spec_control_flow_target(*self),
    {
        if self.kind == OperandKind::RelativeTarget && (self.role == OperandRole::CallTarget
            || self.role == OperandRole::BranchTarget) {
            self.value
        } else {
            None
        }
    }

    /// The statically known address this memory operand refers to.
    pub fn data_reference_target(&self) -> (r: Option<u64>)
        ensures
            r == spec_data_reference_target(*self),
    {
        if self.kind == OperandKind::Memory {
            self.effective_address
        } else {
            None
        }
    }
}

/// The label of a control-flow kind, as stored with an instruction.
pub open spec fn spec_flow_kind(flow: InstructionFlow) -> Option<Seq<char>> {
    match flow {
        InstructionFlow::Call => Some("call"@),
        InstructionFlow::Jump => Some("jump"@),
        InstructionFlow::ConditionalBranch => Some("conditional_branch"@),
        _ => None,
    }
}

/// Whether control may leave the straight-line path at this flow kind.
pub open spec fn spec_is_branch(flow: InstructionFlow) -> bool {
    flow == InstructionFlow::Jump || flow == InstructionFlow::ConditionalBranch
}

/// Whether a basic block ends after an instruction of this flow kind.
pub open spec fn spec_is_terminal(flow: InstructionFlow) -> bool {
    flow == InstructionFlow::Jump || flow == InstructionFlow::ConditionalBranch || flow
        == InstructionFlow::Return
}

/// Whether execution never falls through an instruction of this flow kind.
pub open spec fn spec_is_unconditional_terminal(flow: InstructionFlow) -> bool {
    flow == InstructionFlow::Jump || flow == InstructionFlow::Return
}

impl DecodedInstruction {
    /// The flow label: `call`, `jump`, `conditional_branch`, or none.
    pub fn flow_kind(&self) -> (r: Option<&'static str>)
        ensures
            match r {
                Some(s) => spec_flow_kind(self.flow) == Some(s@),
                None => spec_flow_kind(self.flow) is None,
            },
    {
        match self.flow {
            InstructionFlow::Call => Some("call"),
            InstructionFlow::Jump => Some("jump"),
            InstructionFlow::ConditionalBranch => Some("conditional_branch"),
            _ => None,
        }
    }

    pub fn is_branch(&self) -> (r: bool)
        ensures
            r == spec_is_branch(self.flow),
    {
        self.flow == InstructionFlow::Jump || self.flow == InstructionFlow::ConditionalBranch
    }

    pub fn is_terminal(&self) -> (r: bool)
        ensures
            r == spec_is_terminal(self.flow),
    {
        self.flow == InstructionFlow::Jump || self.flow == InstructionFlow::ConditionalBranch
            || self.flow == InstructionFlow::Return
    }

    pub fn is_unconditional_terminal(&self) -> (r: bool)
        ensures
            r == spec_is_unconditional_terminal(self.flow),
    {
        self.flow == InstructionFlow::Jump || self.flow == InstructionFlow::Return
    }
}

/// The general registers by number at a width of 8, 16, 32 or 64 (any other width) bits.
pub open spec fn register_names(width: int) -> Seq<Seq<char>> {
    if width == 8 {
        seq![
            "al"@, "cl"@, "dl"@, "bl"@, "spl"@, "bpl"@, "sil"@, "dil"@, "r8b"@, "r9b"@, "r10b"@, "r11b"@,
            "r12b"@, "r13b"@, "r14b"@, "r15b"@,
        ]
    } else if width == 16 {
        seq![
            "ax"@, "cx"@, "dx"@, "bx"@, "sp"@, "bp"@, "si"@, "di"@, "r8w"@, "r9w"@, "r10w"@, "r11w"@, "r12w"@,
            "r13w"@, "r14w"@, "r15w"@,
        ]
    } else if width == 32 {
        seq![
            "eax"@, "ecx"@, "edx"@, "ebx"@, "esp"@, "ebp"@, "esi"@, "edi"@, "r8d"@, "r9d"@, "r10d"@, "r11d"@,
            "r12d"@, "r13d"@, "r14d"@, "r15d"@,
        ]
    } else {
        seq![
            "rax"@, "rcx"@, "rdx"@, "rbx"@, "rsp"@, "rbp"@, "rsi"@, "rdi"@, "r8"@, "r9"@, "r10"@, "r11"@, "r12"@,
            "r13"@, "r14"@, "r15"@,
        ]
    }
}

/// The name of general register `num` at a width: without a REX prefix, byte registers 4..7
/// are the legacy high-byte registers `ah`, `ch`, `dh`, `bh`.
pub open spec fn register_name_of(num: int, width: int, has_rex: bool) -> Seq<char> {
    if width == 8 && !has_rex && 4 <= num < 8 {
        seq!["ah"@, "ch"@, "dh"@, "bh"@][num - 4]
    } else {
        register_names(width)[num]
    }
}

/// Name of general register `num` (0..15) at a width of 8, 16, 32 or 64 bits.
/// Without a REX prefix, byte registers 4..7 are the legacy high-byte registers.
pub fn register_name(num: u8, width: u16, has_rex: bool) -> (r: &'static str)
    requires
        num < 16,
    ensures
        r@ == register_name_of(num as int, width as int, has_rex),
{
    if width == 8 {
        if !has_rex && 4 <= num && num < 8 {
            return match num {
                4 => "ah",
                5 => "ch",
                6 => "dh",
                _ => "bh",
            };
        }
        match num {
            0 => "al",
            1 => "cl",
            2 => "dl",
            3 => "bl",
            4 => "spl",
            5 => "bpl",
            6 => "sil",
            7 => "dil",
            8 => "r8b",
            9 => "r9b",
            10 => "r10b",
            11 => "r11b",
            12 => "r12b",
            13 => "r13b",
            14 => "r14b",
            _ => "r15b",
        }
    } else if width == 16 {
        match num {
            0 => "ax",
            1 => "cx",
            2 => "dx",
            3 => "bx",
            4 => "sp",
            5 => "bp",
            6 => "si",
            7 => "di",
            8 => "r8w",
            9 => "r9w",
            10 => "r10w",
            11 => "r11w",
            12 => "r12w",
            13 => "r13w",
            14 => "r14w",
            _ => "r15w",
        }
    } else if width == 32 {
        match num {
            0 => "eax",
            1 => "ecx",
            2 => "edx",
            3 => "ebx",
            4 => "esp",
            5 => "ebp",
            6 => "esi",
            7 => "edi",
            8 => "r8d",
            9 => "r9d",
            10 => "r10d",
            11 => "r11d",
            12 => "r12d",
            13 => "r13d",
            14 => "r14d",
            _ => "r15d",
        }
    } else {
        match num {
            0 => "rax",
            1 => "rcx",
            2 => "rdx",
            3 => "rbx",
            4 => "rsp",
            5 => "rbp",
            6 => "rsi",
            7 => "rdi",
            8 => "r8",
            9 => "r9",
            10 => "r10",
            11 => "r11",
            12 => "r12",
            13 => "r13",
            14 => "r14",
            _ => "r15",
        }
    }
}

/// The condition suffixes, by the low nibble of a `Jcc`, `SETcc` or `CMOVcc` opcode.
pub open spec fn condition_suffixes() -> Seq<Seq<char>> {
    seq![
        "o"@, "no"@, "b"@, "ae"@, "e"@, "ne"@, "be"@, "a"@, "s"@, "ns"@, "p"@, "np"@, "l"@, "ge"@, "le"@, "g"@,
    ]
}

/// The ALU operations, by the `/digit` of group 1 or bits 3..5 of opcodes `0x00`..`0x3f`.
pub open spec fn alu_names() -> Seq<Seq<char>> {
    seq!["add"@, "or"@, "adc"@, "sbb"@, "and"@, "sub"@, "xor"@, "cmp"@]
}

/// The shift and rotate operations, by the `/digit` of the shift groups.
pub open spec fn shift_names() -> Seq<Seq<char>> {
    seq!["rol"@, "ror"@, "rcl"@, "rcr"@, "shl"@, "shr"@, "sal"@, "sar"@]
}

/// The group 3 operations (`0xf6`, `0xf7`), by `/digit`.
pub open spec fn group3_names() -> Seq<Seq<char>> {
    seq!["test"@, "test"@, "not"@, "neg"@, "mul"@, "imul"@, "div"@, "idiv"@]
}

/// The group 4 and 5 operations (`0xfe`, `0xff`), by `/digit`; the empty names do not decode.
pub open spec fn group5_names() -> Seq<Seq<char>> {
    seq!["inc"@, "dec"@, "call"@, ""@, "jmp"@, ""@, "push"@, ""@]
}

/// The mnemonic of a two-byte opcode whose `0x0f` byte is at `p`.
pub open spec fn two_byte_mnemonic(bytes: Seq<u8>, p: int) -> Seq<char> {
    let s = bytes[p + 1];
    if 0x80 <= s <= 0x8f {
        "j"@ + condition_suffixes()[s - 0x80]
    } else if 0x40 <= s <= 0x4f {
        "cmov"@ + condition_suffixes()[s - 0x40]
    } else if 0x90 <= s <= 0x9f {
        "set"@ + condition_suffixes()[s - 0x90]
    } else if s == 0xb6 || s == 0xb7 {
        "movzx"@
    } else if s == 0xbe || s == 0xbf {
        "movsx"@
    } else if s == 0xaf {
        "imul"@
    } else if s == 0x1f {
        "nop"@
    } else {
        "syscall"@
    }
}

/// The mnemonic of the encoding whose opcode byte is at `p`, for the opcodes that decode.
pub open spec fn encoding_mnemonic(bytes: Seq<u8>, p: int) -> Seq<char> {
    let op = bytes[p];
    let reg = modrm_reg(bytes, p + 1);
    if op == 0x0f {
        two_byte_mnemonic(bytes, p)
    } else if op < 0x40 {
        alu_names()[(op / 8) as int]
    } else if (0x50 <= op <= 0x57) || op == 0x68 || op == 0x6a {
        "push"@
    } else if (0x58 <= op <= 0x5f) || op == 0x8f {
        "pop"@
    } else if 0x70 <= op <= 0x7f {
        "j"@ + condition_suffixes()[op - 0x70]
    } else if op == 0xe8 {
        "call"@
    } else if op == 0xe9 || op == 0xeb {
        "jmp"@
    } else if op == 0xc2 || op == 0xc3 {
        "ret"@
    } else if op == 0xc9 {
        "leave"@
    } else if op == 0x90 {
        "nop"@
    } else if op == 0xcc {
        "int3"@
    } else if op == 0x63 {
        "movsxd"@
    } else if op == 0x69 || op == 0x6b {
        "imul"@
    } else if op == 0x80 || op == 0x81 || op == 0x83 {
        alu_names()[reg]
    } else if op == 0x84 || op == 0x85 || op == 0xa8 || op == 0xa9 {
        "test"@
    } else if (0x88 <= op <= 0x8b) || (0xb0 <= op <= 0xbf) || op == 0xc6 || op == 0xc7 {
        "mov"@
    } else if op == 0x8d {
        "lea"@
    } else if op == 0xc0 || op == 0xc1 || (0xd0 <= op <= 0xd3) {
        shift_names()[reg]
    } else if op == 0xf6 || op == 0xf7 {
        group3_names()[reg]
    } else {
        group5_names()[reg]
    }
}

/// The target of a relative branch whose displacement of `n` bytes sits at `at` and whose
/// instruction ends `len` bytes after its first prefix.
pub open spec fn relative_target(px: Prefix, bytes: Seq<u8>, at: int, n: int) -> u64 {
    rip_target(
        (px.address + (at + n - px.start)) as u64,
        if n == 1 {
            rel8_at(bytes, at)
        } else {
            rel32_at(bytes, at)
        },
    )
}

/// The operands of a two-byte opcode whose `0x0f` byte is at `p`.
pub open spec fn two_byte_operands(bytes: Seq<u8>, p: int, px: Prefix) -> Seq<OperandShape> {
    let s = bytes[p + 1];
    let q = p + 2;
    let w = prefix_width(px) as u16;
    let end = end_at(px, q + modrm_extent(bytes, q));
    if 0x80 <= s <= 0x8f {
        seq![relative_shape(OperandRole::BranchTarget, relative_target(px, bytes, p + 2, 4))]
    } else if (0x40 <= s <= 0x4f) || s == 0xaf {
        pair_shapes(bytes, q, px, w, true, false)
    } else if 0x90 <= s <= 0x9f {
        seq![rm_shape(bytes, q, px, OperandRole::Destination, 8, end, true)]
    } else if s == 0xb6 || s == 0xb7 || s == 0xbe || s == 0xbf {
        seq![
            reg_shape(bytes, q, px, OperandRole::Destination, w),
            rm_shape(
                bytes,
                q,
                px,
                OperandRole::Source,
                if s == 0xb6 || s == 0xbe {
                    8u16
                } else {
                    16u16
                },
                end,
                true,
            ),
        ]
    } else {
        Seq::empty()
    }
}

/// The operands of a one-byte ALU opcode (`0x00`..`0x3f`): a ModRM pair, or the accumulator
/// with an immediate; comparisons only read.
pub open spec fn alu_operands(bytes: Seq<u8>, p: int, px: Prefix) -> Seq<OperandShape> {
    let op = bytes[p];
    let form = op % 8;
    let compare = op / 8 == 7;
    let w = prefix_width(px) as u16;
    let role = if compare {
        OperandRole::Source
    } else {
        OperandRole::Destination
    };
    if form < 4 {
        pair_shapes(
            bytes,
            p + 1,
            px,
            if form % 2 == 0 {
                8u16
            } else {
                w
            },
            form >= 2,
            compare,
        )
    } else if form == 4 {
        seq![register_shape(role, 0, 8, px.has_rex), immediate_shape(bytes[p + 1] as u64, 8)]
    } else {
        seq![
            register_shape(role, 0, w, px.has_rex),
            immediate_shape(imm_value(bytes, p + 1, immediate_size(w as int)), (immediate_size(w as int) * 8) as u16),
        ]
    }
}

/// The operands of the encoding whose opcode byte is at `p`, for the opcodes that decode.
pub open spec fn encoding_operands(bytes: Seq<u8>, p: int, px: Prefix) -> Seq<OperandShape> {
    let op = bytes[p];
    let q = p + 1;
    let next = q + modrm_extent(bytes, q);
    let w = prefix_width(px) as u16;
    let reg = modrm_reg(bytes, q);
    let end = end_at(px, next);
    if op == 0x0f {
        two_byte_operands(bytes, p, px)
    } else if op < 0x40 {
        alu_operands(bytes, p, px)
    } else if 0x50 <= op <= 0x5f {
        seq![
            register_shape(
                if op < 0x58 {
                    OperandRole::Source
                } else {
                    OperandRole::Destination
                },
                op % 8 + rex_bit(px.rex, 0),
                64,
                px.has_rex,
            ),
        ]
    } else if (0x70 <= op <= 0x7f) || op == 0xeb {
        seq![relative_shape(OperandRole::BranchTarget, relative_target(px, bytes, q, 1))]
    } else if op == 0xe8 {
        seq![relative_shape(OperandRole::CallTarget, relative_target(px, bytes, q, 4))]
    } else if op == 0xe9 {
        seq![relative_shape(OperandRole::BranchTarget, relative_target(px, bytes, q, 4))]
    } else if op == 0xc2 {
        seq![immediate_shape(le16(bytes[q], bytes[q + 1]) as u64, 16)]
    } else if op == 0x63 {
        seq![
            (
                OperandRole::Destination,
                OperandKind::Register,
                None,
                None,
                Some(register_name_of(reg + rex_bit(px.rex, 2), w as int, px.has_rex)),
                no_memory(),
                register_name_of(reg + rex_bit(px.rex, 2), w as int, px.has_rex),
            ),
            rm_shape(bytes, q, px, OperandRole::Source, 32, end, true),
        ]
    } else if op == 0x68 {
        seq![immediate_shape(sext32_64(le32(bytes[q], bytes[q + 1], bytes[q + 2], bytes[q + 3]) as u32), 32)]
    } else if op == 0x6a {
        seq![immediate_shape(sext8_64(bytes[q]), 8)]
    } else if op == 0x69 || op == 0x6b {
        seq![
            reg_shape(bytes, q, px, OperandRole::Destination, w),
            rm_shape(
                bytes,
                q,
                px,
                OperandRole::Source,
                w,
                end_at(
                    px,
                    next + if op == 0x6b {
                        1
                    } else {
                        immediate_size(w as int)
                    },
                ),
                true,
            ),
            if op == 0x6b {
                immediate_shape(sext8_64(bytes[next]), 8)
            } else {
                immediate_shape(imm_value(bytes, next, immediate_size(w as int)), (immediate_size(w as int) * 8) as u16)
            },
        ]
    } else if op == 0x80 || op == 0x81 || op == 0x83 {
        rm_imm_shapes(
            bytes,
            q,
            px,
            reg == 7,
            if op == 0x80 {
                8u16
            } else {
                w
            },
            if op == 0x81 {
                immediate_size(w as int)
            } else {
                1
            },
            op == 0x83,
        )
    } else if op == 0x84 || op == 0x85 {
        pair_shapes(
            bytes,
            q,
            px,
            if op == 0x84 {
                8u16
            } else {
                w
            },
            false,
            true,
        )
    } else if 0x88 <= op <= 0x8b {
        pair_shapes(
            bytes,
            q,
            px,
            if op % 2 == 0 {
                8u16
            } else {
                w
            },
            op >= 0x8a,
            false,
        )
    } else if op == 0x8d {
        seq![reg_shape(bytes, q, px, OperandRole::Destination, w), rm_shape(bytes, q, px, OperandRole::DataReference, w, end, false)]
    } else if op == 0x8f {
        seq![rm_shape(bytes, q, px, OperandRole::Destination, 64, end, true)]
    } else if op == 0xa8 {
        seq![register_shape(OperandRole::Source, 0, 8, px.has_rex), immediate_shape(bytes[q] as u64, 8)]
    } else if op == 0xa9 {
        seq![
            register_shape(OperandRole::Source, 0, w, px.has_rex),
            immediate_shape(imm_value(bytes, q, immediate_size(w as int)), (immediate_size(w as int) * 8) as u16),
        ]
    } else if 0xb0 <= op <= 0xb7 {
        seq![
            register_shape(OperandRole::Destination, op % 8 + rex_bit(px.rex, 0), 8, px.has_rex),
            immediate_shape(bytes[q] as u64, 8),
        ]
    } else if 0xb8 <= op <= 0xbf {
        seq![
            register_shape(OperandRole::Destination, op % 8 + rex_bit(px.rex, 0), w, px.has_rex),
            immediate_shape(
                if w == 64 {
                    (le32(bytes[q], bytes[q + 1], bytes[q + 2], bytes[q + 3]) + 0x1_0000_0000 * le32(
                        bytes[q + 4],
                        bytes[q + 5],
                        bytes[q + 6],
                        bytes[q + 7],
                    )) as u64
                } else if w == 16 {
                    le16(bytes[q], bytes[q + 1]) as u64
                } else {
                    le32(bytes[q], bytes[q + 1], bytes[q + 2], bytes[q + 3]) as u64
                },
                w,
            ),
        ]
    } else if op == 0xc0 || op == 0xc1 {
        shift_shapes(
            bytes,
            q,
            px,
            if op == 0xc0 {
                8u16
            } else {
                w
            },
            2,
        )
    } else if 0xd0 <= op <= 0xd3 {
        shift_shapes(
            bytes,
            q,
            px,
            if op % 2 == 0 {
                8u16
            } else {
                w
            },
            if op <= 0xd1 {
                1u8
            } else {
                0u8
            },
        )
    } else if op == 0xc6 || op == 0xc7 {
        rm_imm_shapes(
            bytes,
            q,
            px,
            false,
            if op == 0xc6 {
                8u16
            } else {
                w
            },
            if op == 0xc6 {
                1
            } else {
                immediate_size(w as int)
            },
            false,
        )
    } else if op == 0xf6 || op == 0xf7 {
        group3_shapes(
            bytes,
            q,
            px,
            if op == 0xf6 {
                8u16
            } else {
                w
            },
        )
    } else if op == 0xfe {
        seq![rm_shape(bytes, q, px, OperandRole::Destination, 8, end, true)]
    } else if op == 0xff {
        group5_shapes(bytes, q, px, w)
    } else {
        Seq::empty()
    }
}

/// A decoding at `p`, if any, has the operands of its encoding.
pub open spec fn operand_facts(r: Option<Body>, px: Prefix, bytes: Seq<u8>, p: int) -> bool {
    r matches Some(b) ==> operand_shapes(b.operands@) == encoding_operands(bytes, p, px)
}

/// A decoding at `p`, if any, carries the mnemonic of its encoding.
pub open spec fn mnemonic_facts(r: Option<Body>, bytes: Seq<u8>, p: int) -> bool {
    r matches Some(b) ==> b.mnemonic@ == encoding_mnemonic(bytes, p)
}

/// Suffix of the condition encoded in the low nibble of a `Jcc`, `SETcc` or `CMOVcc` opcode.
pub fn condition_suffix(code: u8) -> (r: &'static str)
    requires
        code < 16,
    ensures
        r@ == condition_suffixes()[code as int],
{
    match code {
        0 => "o",
        1 => "no",
        2 => "b",
        3 => "ae",
        4 => "e",
        5 => "ne",
        6 => "be",
        7 => "a",
        8 => "s",
        9 => "ns",
        10 => "p",
        11 => "np",
        12 => "l",
        13 => "ge",
        14 => "le",
        _ => "g",
    }
}

/// Little-endian value of two bytes.
pub open spec fn le16(b0: u8, b1: u8) -> nat {
    b0 as nat + 256 * (b1 as nat)
}

/// Little-endian value of four bytes.
pub open spec fn le32(b0: u8, b1: u8, b2: u8, b3: u8) -> nat {
    b0 as nat + 256 * (b1 as nat) + 65536 * (b2 as nat) + 16777216 * (b3 as nat)
}

/// Sign extension of an 8-bit value to 64 bits.
pub open spec fn sext8_64(v: u8) -> u64 {
    if v < 128 {
        v as u64
    } else {
        (v as u64 + 0xffff_ffff_ffff_ff00) as u64
    }
}

/// Sign extension of a 32-bit value to 64 bits.
pub open spec fn sext32_64(v: u32) -> u64 {
    if v < 0x8000_0000 {
        v as u64
    } else {
        (v as u64 + 0xffff_ffff_0000_0000) as u64
    }
}

/// Signed value of a 32-bit two's complement value.
pub open spec fn signed32(v: u32) -> int {
    if v < 0x8000_0000 {
        v as int
    } else {
        v as int - 0x1_0000_0000
    }
}

/// Signed value of an 8-bit two's complement value.
pub open spec fn signed8(v: u8) -> int {
    if v < 128 {
        v as int
    } else {
        v as int - 256
    }
}

fn read_u16(bytes: &[u8], pos: usize) -> (r: u16)
    requires
        pos + 2 <= bytes@.len(),
    ensures
        r as nat == le16(bytes@[pos as int], bytes@[pos + 1]),
{
    bytes[pos] as u16 + 256 * (bytes[pos + 1] as u16)
}

fn read_u32(bytes: &[u8], pos: usize) -> (r: u32)
    requires
        pos + 4 <= bytes@.len(),
    ensures
        r as nat == le32(bytes@[pos as int], bytes@[pos + 1], bytes@[pos + 2], bytes@[pos + 3]),
{
    bytes[pos] as u32 + 256 * (bytes[pos + 1] as u32) + 65536 * (bytes[pos + 2] as u32)
        + 16777216 * (bytes[pos + 3] as u32)
}

fn read_u64(bytes: &[u8], pos: usize) -> (r: u64)
    requires
        pos + 8 <= bytes@.len(),
    ensures
        r as nat == le32(bytes@[pos as int], bytes@[pos + 1], bytes@[pos + 2], bytes@[pos + 3])
            + 0x1_0000_0000 * le32(bytes@[pos + 4], bytes@[pos + 5], bytes@[pos + 6], bytes@[pos
            + 7]),
{
    let _len = bytes.len();
    let lo = read_u32(bytes, pos) as u64;
    let hi = read_u32(bytes, pos + 4) as u64;
    lo + 0x1_0000_0000 * hi
}

/// Sign-extends an 8-bit value to 64 bits.
pub fn sign_extend_8(v: u8) -> (r: u64)
    ensures
        r == sext8_64(v),
{
    if v < 128 {
        v as u64
    } else {
        v as u64 + 0xffff_ffff_ffff_ff00
    }
}

/// Sign-extends a 32-bit value to 64 bits.
pub fn sign_extend_32(v: u32) -> (r: u64)
    ensures
        r == sext32_64(v),
{
    if v < 0x8000_0000 {
        v as u64
    } else {
        v as u64 + 0xffff_ffff_0000_0000
    }
}

fn signed_8(v: u8) -> (r: i64)
    ensures
        r == signed8(v),
{
    if v < 128 {
        v as i64
    } else {
        v as i64 - 256
    }
}

fn signed_32(v: u32) -> (r: i64)
    ensures
        r == signed32(v),
{
    if v < 0x8000_0000 {
        v as i64
    } else {
        v as i64 - 0x1_0000_0000
    }
}

/// A memory reference decoded from a ModRM byte (and SIB byte and displacement).
pub struct MemRef {
    pub base: Option<u8>,
    pub index: Option<u8>,
    pub scale: u8,
    pub disp: i64,
    pub rip: bool,
}

/// A decoded ModRM byte; `reg` and `rm` include the REX extension bits.
pub struct ModRm {
    pub reg: u8,
    pub rm: u8,
    pub mem: Option<MemRef>,
}

pub open spec fn rex_bit(rex: u8, bit: u8) -> u8 {
    if (rex / pow2_u8(bit)) % 2 == 1 {
        8
    } else {
        0
    }
}

pub open spec fn pow2_u8(bit: u8) -> u8 {
    if bit == 0 {
        1
    } else if bit == 1 {
        2
    } else if bit == 2 {
        4
    } else {
        8
    }
}

/// The extension (0 or 8) that REX bit `bit` (0 = B, 1 = X, 2 = R, 3 = W) adds.
fn rex_ext(rex: u8, bit: u8) -> (r: u8)
    requires
        bit < 4,
    ensures
        r == rex_bit(rex, bit),
        r == 0 || r == 8,
{
    let p: u8 = if bit == 0 {
        1
    } else if bit == 1 {
        2
    } else if bit == 2 {
        4
    } else {
        8
    };
    if (rex / p) % 2 == 1 {
        8
    } else {
        0
    }
}

/// How many bytes the ModRM byte at `pos` spans with its SIB byte and displacement:
/// one for a register operand; otherwise one more for a SIB byte (`rm` = 4), then one
/// displacement byte for `mod` = 1, four for `mod` = 2, for RIP-relative (`mod` = 0, `rm` = 5)
/// and for a SIB byte without base (`mod` = 0, SIB base = 5).
pub open spec fn modrm_extent(bytes: Seq<u8>, pos: int) -> int {
    let modrm = bytes[pos];
    let md = modrm / 64;
    let rm_low = modrm % 8;
    if md == 3 {
        1
    } else {
        let sib_len: int = if rm_low == 4 {
            1
        } else {
            0
        };
        let disp_len: int = if md == 1 {
            1
        } else if md == 2 {
            4
        } else if rm_low == 5 {
            4
        } else if rm_low == 4 && pos + 1 < bytes.len() && bytes[pos + 1] % 8 == 5 {
            4
        } else {
            0
        };
        1 + sib_len + disp_len
    }
}

/// The `reg` field (bits 3..5) of the ModRM byte at `q`.
pub open spec fn modrm_reg(bytes: Seq<u8>, q: int) -> int {
    ((bytes[q] / 8) % 8) as int
}

/// Immediate bytes for an operand size: two for 16-bit operands, four otherwise.
pub open spec fn immediate_size(w: int) -> int {
    if w == 16 {
        2
    } else {
        4
    }
}

/// The length of a two-byte opcode's encoding, counted from its `0x0f` byte at `p`: near
/// conditional branches carry a 32-bit displacement, SYSCALL is the two bytes alone, and
/// CMOVcc, SETcc, MOVZX, MOVSX, IMUL and the multi-byte NOP take a ModRM operand.
pub open spec fn two_byte_length(bytes: Seq<u8>, p: int) -> Option<int> {
    let s = bytes[p + 1];
    if 0x80 <= s <= 0x8f {
        Some(6)
    } else if (0x40 <= s <= 0x4f) || (0x90 <= s <= 0x9f) || s == 0xb6 || s == 0xb7 || s == 0xbe
        || s == 0xbf || s == 0xaf || s == 0x1f {
        Some(2 + modrm_extent(bytes, p + 2))
    } else if s == 0x05 {
        Some(2)
    } else {
        None
    }
}

/// The length of a one-byte ALU opcode's encoding (`0x00`..`0x3f`): the register/memory forms
/// take a ModRM operand, the accumulator forms an 8-bit or operand-sized immediate.
pub open spec fn alu_length(bytes: Seq<u8>, p: int, w: int) -> Option<int> {
    let form = bytes[p] % 8;
    if form < 4 {
        Some(1 + modrm_extent(bytes, p + 1))
    } else if form == 4 {
        Some(2)
    } else if form == 5 {
        Some(1 + immediate_size(w))
    } else {
        None
    }
}

/// The length of the encoding whose opcode byte is at `p` (the opcode, its ModRM operand with
/// SIB byte and displacement, and its immediate) under operand size `w`, for the opcodes that
/// decode; `None` for the others.
pub open spec fn encoding_length(bytes: Seq<u8>, p: int, w: int) -> Option<int> {
    let op = bytes[p];
    let m = modrm_extent(bytes, p + 1);
    let reg = modrm_reg(bytes, p + 1);
    if op == 0x0f {
        two_byte_length(bytes, p)
    } else if op < 0x40 {
        alu_length(bytes, p, w)
    } else if (0x50 <= op <= 0x5f) || op == 0xc3 || op == 0xc9 || op == 0x90 || op == 0xcc {
        Some(1)
    } else if (0x70 <= op <= 0x7f) || op == 0xeb || op == 0x6a || op == 0xa8 || (0xb0 <= op <= 0xb7) {
        Some(2)
    } else if op == 0xc2 {
        Some(3)
    } else if op == 0xe8 || op == 0xe9 || op == 0x68 {
        Some(5)
    } else if op == 0x63 || op == 0x84 || op == 0x85 || (0x88 <= op <= 0x8b) || op == 0x8d || op
        == 0x8f || (0xd0 <= op <= 0xd3) {
        Some(1 + m)
    } else if op == 0x6b || op == 0x80 || op == 0x83 || op == 0xc0 || op == 0xc1 {
        Some(2 + m)
    } else if op == 0x69 || op == 0x81 {
        Some(1 + m + immediate_size(w))
    } else if op == 0xa9 {
        Some(1 + immediate_size(w))
    } else if 0xb8 <= op <= 0xbf {
        Some(
            1 + if w == 64 {
                8int
            } else if w == 16 {
                2int
            } else {
                4int
            },
        )
    } else if op == 0xc6 {
        if reg == 0 {
            Some(2 + m)
        } else {
            None
        }
    } else if op == 0xc7 {
        if reg == 0 {
            Some(1 + m + immediate_size(w))
        } else {
            None
        }
    } else if op == 0xf6 {
        if reg <= 1 {
            Some(2 + m)
        } else {
            Some(1 + m)
        }
    } else if op == 0xf7 {
        if reg <= 1 {
            Some(1 + m + immediate_size(w))
        } else {
            Some(1 + m)
        }
    } else if op == 0xfe {
        if reg <= 1 {
            Some(1 + m)
        } else {
            None
        }
    } else if op == 0xff {
        if reg == 0 || reg == 1 || reg == 2 || reg == 4 || reg == 6 {
            Some(1 + m)
        } else {
            None
        }
    } else {
        None
    }
}

/// Whether a decoding `r` of the encoding at `p` has length `n` counted from `p`: it decodes
/// exactly when the encoding is known and fits in the bytes, and then spans from the
/// instruction's first prefix to the encoding's end.
pub open spec fn length_facts(r: Option<Body>, px: Prefix, bytes: Seq<u8>, p: int, n: Option<int>) -> bool {
    match n {
        Some(n) => if p + n <= bytes.len() {
            r matches Some(b) && b.len == p + n - px.start
        } else {
            r is None
        },
        None => r is None,
    }
}

/// The displacement of the memory operand of the ModRM byte at `q`: eight bits for `mod` = 1,
/// thirty-two for `mod` = 2, RIP-relative and SIB-without-base forms, none otherwise; it
/// follows the SIB byte when there is one.
pub open spec fn modrm_displacement(bytes: Seq<u8>, q: int) -> i64 {
    let md = bytes[q] / 64;
    let rm_low = bytes[q] % 8;
    let at = if rm_low == 4 {
        q + 2
    } else {
        q + 1
    };
    if md == 1 {
        signed8(bytes[at]) as i64
    } else if md == 2 || (md == 0 && rm_low == 5) || (md == 0 && rm_low == 4 && bytes[q + 1] % 8 == 5) {
        signed32(le32(bytes[at], bytes[at + 1], bytes[at + 2], bytes[at + 3]) as u32) as i64
    } else {
        0
    }
}

/// The memory reference of the ModRM byte at `q` (with `mod` below 3): RIP-relative for
/// `mod` = 0, `rm` = 5; with a SIB byte for `rm` = 4, whose index 4 (without REX.X) means none
/// and whose base 5 under `mod` = 0 means none; otherwise based on `rm`. REX.B extends the base
/// and REX.X the index.
pub open spec fn modrm_memory(bytes: Seq<u8>, q: int, rex: u8) -> MemRef {
    let md = bytes[q] / 64;
    let rm_low = bytes[q] % 8;
    let disp = modrm_displacement(bytes, q);
    if rm_low == 4 {
        let sib = bytes[q + 1];
        let idx = (sib / 8) % 8 + rex_bit(rex, 1);
        let b = sib % 8;
        MemRef {
            base: if b == 5 && md == 0 {
                None
            } else {
                Some((b + rex_bit(rex, 0)) as u8)
            },
            index: if idx != 4 {
                Some(idx as u8)
            } else {
                None
            },
            scale: seq![1u8, 2u8, 4u8, 8u8][(sib / 64) as int],
            disp,
            rip: false,
        }
    } else if rm_low == 5 && md == 0 {
        MemRef { base: None, index: None, scale: 1, disp, rip: true }
    } else {
        MemRef { base: Some((rm_low + rex_bit(rex, 0)) as u8), index: None, scale: 1, disp, rip: false }
    }
}

/// Decodes the ModRM byte at `pos` with its SIB byte and displacement.
/// Returns the fields and the position after them, or `None` when the bytes run out.
pub fn parse_modrm(bytes: &[u8], pos: usize, rex: u8) -> (r: Option<(ModRm, usize)>)
    requires
        pos < bytes@.len(),
    ensures
        r is Some <==> pos + modrm_extent(bytes@, pos as int) <= bytes@.len(),
        r matches Some((m, next)) ==> next == pos + modrm_extent(bytes@, pos as int),
        match r {
            Some((m, next)) => {
                &&& pos < next <= bytes@.len()
                &&& next <= pos + 6
                &&& m.reg == (bytes@[pos as int] / 8) % 8 + rex_bit(rex, 2)
                &&& m.rm < 16
                &&& m.reg < 16
                &&& (m.mem is None <==> bytes@[pos as int] / 64 == 3)
                &&& (m.mem is None ==> m.rm == bytes@[pos as int] % 8 + rex_bit(rex, 0))
                &&& (m.mem is Some ==> m.mem == Some(modrm_memory(bytes@, pos as int, rex)))
                &&& (m.mem matches Some(mem) ==> {
                    &&& (mem.base matches Some(b) ==> b < 16)
                    &&& (mem.index matches Some(x) ==> x < 16)
                })
            },
            None => true,
        },
{
    let modrm = bytes[pos];
    let md = modrm / 64;
    let reg = (modrm / 8) % 8 + rex_ext(rex, 2);
    let rm_low = modrm % 8;
    let mut p = pos + 1;
    if md == 3 {
        let rm = rm_low + rex_ext(rex, 0);
        return Some((ModRm { reg, rm, mem: None }, p));
    }
    let mut base: Option<u8> = None;
    let mut index: Option<u8> = None;
    let mut scale: u8 = 1;
    let mut rip = false;
    let mut disp32_no_base = false;
    if rm_low == 4 {
        if p >= bytes.len() {
            return None;
        }
        let sib = bytes[p];
        p = p + 1;
        let ss = sib / 64;
        let idx = (sib / 8) % 8 + rex_ext(rex, 1);
        let b = sib % 8;
        scale = if ss == 0 {
            1
        } else if ss == 1 {
            2
        } else if ss == 2 {
            4
        } else {
            8
        };
        if idx != 4 {
            index = Some(idx);
        }
        if b == 5 && md == 0 {
            disp32_no_base = true;
        } else {
            base = Some(b + rex_ext(rex, 0));
        }
    } else if rm_low == 5 && md == 0 {
        rip = true;
    } else {
        base = Some(rm_low + rex_ext(rex, 0));
    }
    let mut disp: i64 = 0;
    if md == 1 {
        if p >= bytes.len() {
            return None;
        }
        disp = signed_8(bytes[p]);
        p = p + 1;
    } else if md == 2 || rip || disp32_no_base {
        if bytes.len() < 4 || p > bytes.len() - 4 {
            return None;
        }
        disp = signed_32(read_u32(bytes, p));
        p = p + 4;
    }
    let rm = rm_low + rex_ext(rex, 0);
    Some((ModRm { reg, rm, mem: Some(MemRef { base, index, scale, disp, rip }) }, p))
}

/// An operand with every optional field empty.
fn blank_operand(role: OperandRole, kind: OperandKind, text: String) -> (r: DecodedOperand)
    ensures
        r.role == role,
        r.kind == kind,
        r.text == text,
        r.register is None,
        r.base is None,
        r.index is None,
        r.scale is None,
        r.displacement is None,
        r.value is None,
        r.width_bits is None,
        r.effective_address is None,
{
    DecodedOperand {
        role,
        kind,
        text,
        register: None,
        base: None,
        index: None,
        scale: None,
        displacement: None,
        value: None,
        width_bits: None,
        effective_address: None,
    }
}

/// The memory fields of an operand: base and index register names, scale, displacement and
/// statically known address.
pub type MemoryFields = (Option<Seq<char>>, Option<Seq<char>>, Option<u8>, Option<i64>, Option<u64>);

/// An operand as a value: its role, kind, width, value, register name, memory fields and text.
pub type OperandShape = (
    OperandRole,
    OperandKind,
    Option<u16>,
    Option<u64>,
    Option<Seq<char>>,
    MemoryFields,
    Seq<char>,
);

/// An optional text as a value.
pub open spec fn text_of(t: Option<String>) -> Option<Seq<char>> {
    match t {
        Some(n) => Some(n@),
        None => None,
    }
}

/// An operand's shape.
pub open spec fn operand_shape(op: DecodedOperand) -> OperandShape {
    (
        op.role,
        op.kind,
        op.width_bits,
        op.value,
        text_of(op.register),
        (text_of(op.base), text_of(op.index), op.scale, op.displacement, op.effective_address),
        op.text@,
    )
}

/// The memory fields of an operand that is not in memory: none.
pub open spec fn no_memory() -> MemoryFields {
    (None, None, None, None, None)
}

/// The memory fields of a reference in an instruction that ends at `end`: a RIP-relative one
/// has base `rip` and the address `end` plus the displacement; otherwise the base and index are
/// named as 64-bit registers, the scale comes with the index, and the address is known only
/// without base and index, as the displacement.
pub open spec fn memory_fields(mem: MemRef, end: u64) -> MemoryFields {
    if mem.rip {
        (Some("rip"@), None, None, Some(mem.disp), Some(rip_target(end, mem.disp)))
    } else {
        (
            match mem.base {
                Some(b) => Some(register_names(64)[b as int]),
                None => None,
            },
            match mem.index {
                Some(x) => Some(register_names(64)[x as int]),
                None => None,
            },
            match mem.index {
                Some(_) => Some(mem.scale),
                None => None,
            },
            Some(mem.disp),
            if mem.base is None && mem.index is None {
                Some(mem.disp as u64)
            } else {
                None
            },
        )
    }
}

/// The shapes of operands, in order.
pub open spec fn operand_shapes(ops: Seq<DecodedOperand>) -> Seq<OperandShape> {
    Seq::new(ops.len(), |i: int| operand_shape(ops[i]))
}

/// General register `num` at `width` bits.
pub open spec fn register_shape(role: OperandRole, num: int, width: u16, has_rex: bool) -> OperandShape {
    (
        role,
        OperandKind::Register,
        Some(width),
        None,
        Some(register_name_of(num, width as int, has_rex)),
        no_memory(),
        register_name_of(num, width as int, has_rex),
    )
}

/// An immediate of `width` bits.
pub open spec fn immediate_shape(value: u64, width: u16) -> OperandShape {
    (OperandRole::Source, OperandKind::Immediate, Some(width), Some(value), None, no_memory(), hex_text(value as nat))
}

/// A direct call or branch target.
pub open spec fn relative_shape(role: OperandRole, target: u64) -> OperandShape {
    (role, OperandKind::RelativeTarget, None, Some(target), None, no_memory(), hex_text(target as nat))
}

/// A memory reference of `width` bits in an instruction that ends at `end`.
pub open spec fn memory_shape(role: OperandRole, mem: MemRef, width: u16, end: u64, show_width: bool) -> OperandShape {
    (role, OperandKind::Memory, Some(width), None, None, memory_fields(mem, end), memory_text(mem, width, end, show_width))
}

/// The address just past an instruction whose bytes end at `at`.
pub open spec fn end_at(px: Prefix, at: int) -> u64 {
    (px.address + (at - px.start)) as u64
}

/// The r/m operand of the ModRM byte at `q`, in an instruction that ends at `end`: a register
/// (extended by REX.B) when `mod` is 3, the ModRM memory reference otherwise (written with its
/// width keyword unless `show_width` is off).
pub open spec fn rm_shape(
    bytes: Seq<u8>,
    q: int,
    px: Prefix,
    role: OperandRole,
    width: u16,
    end: u64,
    show_width: bool,
) -> OperandShape {
    if bytes[q] / 64 == 3 {
        register_shape(role, bytes[q] % 8 + rex_bit(px.rex, 0), width, px.has_rex)
    } else {
        memory_shape(role, modrm_memory(bytes, q, px.rex), width, end, show_width)
    }
}

/// The register named by the `reg` field of the ModRM byte at `q` (extended by REX.R).
pub open spec fn reg_shape(bytes: Seq<u8>, q: int, px: Prefix, role: OperandRole, width: u16) -> OperandShape {
    register_shape(role, modrm_reg(bytes, q) + rex_bit(px.rex, 2), width, px.has_rex)
}

/// A 16-bit immediate as it is, or a 32-bit one sign-extended to 64 bits, read at `at`.
pub open spec fn imm_value(bytes: Seq<u8>, at: int, n: int) -> u64 {
    if n == 2 {
        le16(bytes[at], bytes[at + 1]) as u64
    } else {
        sext32_64(le32(bytes[at], bytes[at + 1], bytes[at + 2], bytes[at + 3]) as u32)
    }
}

/// The operands of a ModRM register/memory pair: the register first when `to_reg`; both are
/// sources for a comparison, otherwise the first is the destination.
pub open spec fn pair_shapes(bytes: Seq<u8>, q: int, px: Prefix, width: u16, to_reg: bool, compare: bool) -> Seq<
    OperandShape,
> {
    let first = if compare {
        OperandRole::Source
    } else {
        OperandRole::Destination
    };
    let end = end_at(px, q + modrm_extent(bytes, q));
    if to_reg {
        seq![reg_shape(bytes, q, px, first, width), rm_shape(bytes, q, px, OperandRole::Source, width, end, true)]
    } else {
        seq![rm_shape(bytes, q, px, first, width, end, true), reg_shape(bytes, q, px, OperandRole::Source, width)]
    }
}

/// The operands of an r/m operand with an immediate after the ModRM operand: a one-byte
/// immediate as it is or sign-extended, or a 16/32-bit one.
pub open spec fn rm_imm_shapes(
    bytes: Seq<u8>,
    q: int,
    px: Prefix,
    compare: bool,
    width: u16,
    imm_bytes: int,
    sign8: bool,
) -> Seq<OperandShape> {
    let next = q + modrm_extent(bytes, q);
    let role = if compare {
        OperandRole::Source
    } else {
        OperandRole::Destination
    };
    let imm = if imm_bytes == 1 {
        immediate_shape(
            if sign8 {
                sext8_64(bytes[next])
            } else {
                bytes[next] as u64
            },
            8,
        )
    } else {
        immediate_shape(imm_value(bytes, next, imm_bytes), (imm_bytes * 8) as u16)
    };
    seq![rm_shape(bytes, q, px, role, width, end_at(px, next + imm_bytes), true), imm]
}

/// The operands of a shift: the r/m destination and the count (`cl`, one, or an 8-bit
/// immediate after the ModRM operand).
pub open spec fn shift_shapes(bytes: Seq<u8>, q: int, px: Prefix, width: u16, count: u8) -> Seq<OperandShape> {
    let next = q + modrm_extent(bytes, q);
    let rm = rm_shape(
        bytes,
        q,
        px,
        OperandRole::Destination,
        width,
        end_at(
            px,
            next + if count == 2 {
                1int
            } else {
                0int
            },
        ),
        true,
    );
    if count == 0 {
        seq![rm, register_shape(OperandRole::Source, 1, 8, px.has_rex)]
    } else if count == 1 {
        seq![rm, immediate_shape(1, 8)]
    } else {
        seq![rm, immediate_shape(bytes[next] as u64, 8)]
    }
}

/// The operands of group 3 (`0xf6`, `0xf7`): TEST with an immediate, or one r/m destination.
pub open spec fn group3_shapes(bytes: Seq<u8>, q: int, px: Prefix, width: u16) -> Seq<OperandShape> {
    if modrm_reg(bytes, q) <= 1 {
        rm_imm_shapes(
            bytes,
            q,
            px,
            true,
            width,
            if width == 8 {
                1
            } else {
                immediate_size(width as int)
            },
            false,
        )
    } else {
        seq![rm_shape(bytes, q, px, OperandRole::Destination, width, end_at(px, q + modrm_extent(bytes, q)), true)]
    }
}

/// The operand of group 5 (`0xff`): INC/DEC destination, CALL/JMP target, PUSH source.
pub open spec fn group5_shapes(bytes: Seq<u8>, q: int, px: Prefix, width: u16) -> Seq<OperandShape> {
    let n = modrm_reg(bytes, q);
    let end = end_at(px, q + modrm_extent(bytes, q));
    if n <= 1 {
        seq![rm_shape(bytes, q, px, OperandRole::Destination, width, end, true)]
    } else if n == 2 {
        seq![rm_shape(bytes, q, px, OperandRole::CallTarget, 64, end, true)]
    } else if n == 4 {
        seq![rm_shape(bytes, q, px, OperandRole::BranchTarget, 64, end, true)]
    } else {
        seq![rm_shape(bytes, q, px, OperandRole::Source, 64, end, true)]
    }
}

/// The shapes of up to three operands, one by one.
proof fn lemma_operand_shapes(ops: Seq<DecodedOperand>)
    ensures
        ops.len() == 0 ==> operand_shapes(ops) == Seq::<OperandShape>::empty(),
        ops.len() == 1 ==> operand_shapes(ops) == seq![operand_shape(ops[0])],
        ops.len() == 2 ==> operand_shapes(ops) == seq![operand_shape(ops[0]), operand_shape(ops[1])],
        ops.len() == 3 ==> operand_shapes(ops) == seq![
            operand_shape(ops[0]),
            operand_shape(ops[1]),
            operand_shape(ops[2]),
        ],
{
    if ops.len() == 0 {
        assert(operand_shapes(ops) =~= Seq::<OperandShape>::empty());
    } else if ops.len() == 1 {
        assert(operand_shapes(ops) =~= seq![operand_shape(ops[0])]);
    } else if ops.len() == 2 {
        assert(operand_shapes(ops) =~= seq![operand_shape(ops[0]), operand_shape(ops[1])]);
    } else if ops.len() == 3 {
        assert(operand_shapes(ops) =~= seq![operand_shape(ops[0]), operand_shape(ops[1]), operand_shape(ops[2])]);
    }
}

/// A register operand.
pub fn register_operand(role: OperandRole, num: u8, width: u16, has_rex: bool) -> (r:
    DecodedOperand)
    requires
        num < 16,
    ensures
        r.role == role,
        r.kind == OperandKind::Register,
        r.width_bits == Some(width),
        r.register matches Some(name) && name@ == r.text@,
        r.base is None && r.index is None && r.value is None && r.effective_address is None,
        operand_shape(r) == register_shape(role, num as int, width, has_rex),
{
    let name = register_name(num, width, has_rex);
    let mut op = blank_operand(role, OperandKind::Register, string_of(name));
    op.register = Some(string_of(name));
    op.width_bits = Some(width);
    op
}

/// An immediate operand, written `0x…`.
pub fn immediate_operand(value: u64, width: u16) -> (r: DecodedOperand)
    ensures
        r.role == OperandRole::Source,
        r.kind == OperandKind::Immediate,
        r.value == Some(value),
        r.width_bits == Some(width),
        r.text@ == hex_text(value as nat),
        r.register is None && r.base is None && r.index is None && r.effective_address is None,
        operand_shape(r) == immediate_shape(value, width),
{
    let mut text = String::new();
    push_hex(&mut text, value);
    assert(text@ =~= hex_text(value as nat));
    let mut op = blank_operand(OperandRole::Source, OperandKind::Immediate, text);
    op.value = Some(value);
    op.width_bits = Some(width);
    op
}

/// A direct (relative) call or branch target operand.
pub fn relative_operand(role: OperandRole, target: u64) -> (r: DecodedOperand)
    ensures
        r.role == role,
        r.kind == OperandKind::RelativeTarget,
        r.value == Some(target),
        r.text@ == hex_text(target as nat),
        r.register is None && r.base is None && r.index is None && r.effective_address is None,
        operand_shape(r) == relative_shape(role, target),
{
    let mut text = String::new();
    push_hex(&mut text, target);
    assert(text@ =~= hex_text(target as nat));
    let mut op = blank_operand(role, OperandKind::RelativeTarget, text);
    op.value = Some(target);
    op
}

/// The width keyword in front of a memory operand.
/// The width keyword in front of a memory operand, as text.
pub open spec fn width_keyword(width: u16) -> Seq<char> {
    if width == 8 {
        "byte ptr "@
    } else if width == 16 {
        "word ptr "@
    } else if width == 32 {
        "dword ptr "@
    } else {
        "qword ptr "@
    }
}

/// A signed displacement after a base or index: `+0x…`, `-0x…`, or nothing for zero.
pub open spec fn displacement_text(disp: i64) -> Seq<char> {
    if disp > 0 {
        "+"@ + hex_text(disp as nat)
    } else if disp < 0 {
        "-"@ + hex_text((-disp) as nat)
    } else {
        Seq::empty()
    }
}

/// The text of a memory operand: `[rip+disp32] -> 0x` and the sixteen-digit address for a
/// RIP-relative one; otherwise the width keyword (when shown), then in brackets the base, the
/// index with `*` and its scale, and the signed displacement, or the bare address when there
/// is neither base nor index.
pub open spec fn memory_text(mem: MemRef, width: u16, end: u64, show_width: bool) -> Seq<char> {
    if mem.rip {
        "[rip+disp32] -> 0x"@ + crate::text::hex_digits_padded(rip_target(end, mem.disp) as nat, 16)
    } else {
        let base = match mem.base {
            Some(b) => register_names(64)[b as int],
            None => Seq::empty(),
        };
        let index = match mem.index {
            Some(x) => (if mem.base is Some {
                "+"@
            } else {
                Seq::empty()
            }) + register_names(64)[x as int] + "*"@ + crate::text::hex_digits(mem.scale as nat),
            None => Seq::empty(),
        };
        let tail = if mem.base is Some || mem.index is Some {
            displacement_text(mem.disp)
        } else {
            hex_text((mem.disp as u64) as nat)
        };
        (if show_width {
            width_keyword(width)
        } else {
            Seq::empty()
        }) + "["@ + base + index + tail + "]"@
    }
}

fn ptr_prefix(width: u16) -> (r: &'static str)
    ensures
        r@ == width_keyword(width),
{
    if width == 8 {
        "byte ptr "
    } else if width == 16 {
        "word ptr "
    } else if width == 32 {
        "dword ptr "
    } else {
        "qword ptr "
    }
}

/// Appends a signed displacement as `+0x…` or `-0x…` (nothing for zero).
fn push_displacement(s: &mut String, disp: i64)
    ensures
        final(s)@ == old(s)@ + displacement_text(disp),
{
    if disp > 0 {
        s.append("+");
        push_hex(s, disp as u64);
    } else if disp < 0 {
        s.append("-");
        if disp == i64::MIN {
            push_hex(s, 0x8000_0000_0000_0000);
        } else {
            push_hex(s, (-disp) as u64);
        }
    }
}

/// The address a RIP-relative reference names: the end of the instruction plus the displacement.
pub open spec fn rip_target(end: u64, disp: i64) -> u64 {
    ((end as int + disp as int) % 0x1_0000_0000_0000_0000) as u64
}

/// The signed 8-bit displacement at `p`.
pub open spec fn rel8_at(bytes: Seq<u8>, p: int) -> i64 {
    signed8(bytes[p]) as i64
}

/// The signed 32-bit little-endian displacement at `p`.
pub open spec fn rel32_at(bytes: Seq<u8>, p: int) -> i64 {
    signed32(le32(bytes[p], bytes[p + 1], bytes[p + 2], bytes[p + 3]) as u32) as i64
}

/// What the opcode at `pos` (of an instruction starting at `start`, loaded at `insn`) decodes
/// to when it is a return or a direct call, jump or conditional branch with all its bytes:
/// the flow, the instruction length, the target (the end of the instruction plus the
/// displacement) and the mnemonic.
pub open spec fn direct_flow(insn: u64, bytes: Seq<u8>, start: int, pos: int) -> Option<
    (InstructionFlow, int, Option<u64>, Seq<char>),
> {
    let op = bytes[pos];
    if op == 0xc3 {
        Some((InstructionFlow::Return, pos + 1 - start, None, "ret"@))
    } else if op == 0xc2 && pos + 3 <= bytes.len() {
        Some((InstructionFlow::Return, pos + 3 - start, None, "ret"@))
    } else if op == 0xe8 && pos + 5 <= bytes.len() {
        Some((InstructionFlow::Call, pos + 5 - start, Some(rip_target((insn + (pos + 5 - start)) as u64, rel32_at(bytes, pos + 1))), "call"@))
    } else if op == 0xe9 && pos + 5 <= bytes.len() {
        Some((InstructionFlow::Jump, pos + 5 - start, Some(rip_target((insn + (pos + 5 - start)) as u64, rel32_at(bytes, pos + 1))), "jmp"@))
    } else if op == 0xeb && pos + 2 <= bytes.len() {
        Some((InstructionFlow::Jump, pos + 2 - start, Some(rip_target((insn + (pos + 2 - start)) as u64, rel8_at(bytes, pos + 1))), "jmp"@))
    } else if 0x70 <= op <= 0x7f && pos + 2 <= bytes.len() {
        Some(
            (
                InstructionFlow::ConditionalBranch,
                pos + 2 - start,
                Some(rip_target((insn + (pos + 2 - start)) as u64, rel8_at(bytes, pos + 1))),
                "j"@ + condition_suffixes()[op - 0x70],
            ),
        )
    } else if op == 0x0f && pos + 6 <= bytes.len() && 0x80 <= bytes[pos + 1] <= 0x8f {
        Some(
            (
                InstructionFlow::ConditionalBranch,
                pos + 6 - start,
                Some(rip_target((insn + (pos + 6 - start)) as u64, rel32_at(bytes, pos + 2))),
                "j"@ + condition_suffixes()[bytes[pos + 1] - 0x80],
            ),
        )
    } else {
        None
    }
}

/// The flow and mnemonic of an indirect call (`ff /2`) or jump (`ff /4`) whose opcode sits
/// at `pos`; the ModRM byte's `reg` field picks which.
pub open spec fn indirect_flow(bytes: Seq<u8>, pos: int) -> Option<(InstructionFlow, Seq<char>)> {
    if bytes[pos] == 0xff && pos + 1 < bytes.len() {
        let reg = (bytes[pos + 1] / 8) % 8;
        if reg == 2 {
            Some((InstructionFlow::Call, "call"@))
        } else if reg == 4 {
            Some((InstructionFlow::Jump, "jmp"@))
        } else {
            None
        }
    } else {
        None
    }
}

/// A body decoded at `pos` agrees with the indirect-flow decoding of its opcode, if any: it
/// decodes exactly when its ModRM operand fits in the bytes, spans the opcode and that
/// operand, and has no static target.
pub open spec fn indirect_facts(r: Option<Body>, px: Prefix, bytes: Seq<u8>, pos: int) -> bool {
    match indirect_flow(bytes, pos) {
        Some((f, m)) => if pos + 1 + modrm_extent(bytes, pos + 1) <= bytes.len() {
            r matches Some(b) && b.flow == f && b.mnemonic@ == m && b.target is None && b.len
                == pos + 1 + modrm_extent(bytes, pos + 1) - px.start
        } else {
            r is None
        },
        None => true,
    }
}

/// A decoded body, if any, falls through to the next instruction and names no target.
pub open spec fn plain(r: Option<Body>) -> bool {
    r matches Some(b) ==> b.flow == InstructionFlow::Sequential && b.target is None
}

/// A body decoded at `pos` agrees with the direct-flow decoding of its opcode, if any.
pub open spec fn flow_facts(r: Option<Body>, px: Prefix, bytes: Seq<u8>, pos: int) -> bool {
    match direct_flow(px.address, bytes, px.start as int, pos) {
        Some((f, n, t, m)) => match r {
            Some(b) => b.flow == f && b.len == n && b.target == t && b.mnemonic@ == m,
            None => false,
        },
        None => true,
    }
}

fn add_signed(end: u64, disp: i64) -> (r: u64)
    ensures
        r == rip_target(end, disp),
{
    if disp >= 0 {
        end.wrapping_add(disp as u64)
    } else if disp == i64::MIN {
        end.wrapping_sub(0x8000_0000_0000_0000)
    } else {
        end.wrapping_sub((-disp) as u64)
    }
}

/// A memory operand. `end` is the address just past the instruction (for RIP-relative forms);
/// `show_width` adds the `byte ptr`-style keyword.
pub fn memory_operand(role: OperandRole, mem: &MemRef, width: u16, end: u64, show_width: bool) -> (r:
    DecodedOperand)
    requires
        mem.base matches Some(b) ==> b < 16,
        mem.index matches Some(x) ==> x < 16,
    ensures
        r.role == role,
        r.kind == OperandKind::Memory,
        r.width_bits == Some(width),
        r.displacement == Some(mem.disp),
        r.register is None,
        mem.rip ==> r.effective_address == Some(rip_target(end, mem.disp)),
        !mem.rip && mem.base is None && mem.index is None ==> r.effective_address == Some(
            mem.disp as u64),
        !mem.rip && (mem.base is Some || mem.index is Some) ==> r.effective_address is None,
        operand_shape(r) == memory_shape(role, *mem, width, end, show_width),
{
    let mut text = String::new();
    let mut op = blank_operand(role, OperandKind::Memory, String::new());
    op.width_bits = Some(width);
    op.displacement = Some(mem.disp);
    if mem.rip {
        let target = add_signed(end, mem.disp);
        text.append("[rip+disp32] -> 0x");
        push_hex_padded(&mut text, target, 16);
        op.base = Some(string_of("rip"));
        op.effective_address = Some(target);
        op.text = text;
        return op;
    }
    if show_width {
        text.append(ptr_prefix(width));
    }
    text.append("[");
    let mut wrote = false;
    match mem.base {
        Some(b) => {
            let name = register_name(b, 64, true);
            text.append(name);
            op.base = Some(string_of(name));
            wrote = true;
        },
        None => {},
    }
    match mem.index {
        Some(x) => {
            let name = register_name(x, 64, true);
            if wrote {
                text.append("+");
            }
            text.append(name);
            text.append("*");
            push_hex_digits(&mut text, mem.scale as u64);
            op.index = Some(string_of(name));
            op.scale = Some(mem.scale);
            wrote = true;
        },
        None => {},
    }
    if wrote {
        push_displacement(&mut text, mem.disp);
    } else {
        push_hex(&mut text, mem.disp as u64);
        op.effective_address = Some(mem.disp as u64);
    }
    text.append("]");
    op.text = text;
    op
}

/// Comma-separated join of operand texts.
pub open spec fn join_operand_texts(ops: Seq<DecodedOperand>) -> Seq<char>
    decreases ops.len(),
{
    if ops.len() == 0 {
        Seq::empty()
    } else if ops.len() == 1 {
        ops[0].text@
    } else {
        join_operand_texts(ops.drop_last()) + ","@ + ops.last().text@
    }
}

fn join_texts(ops: &Vec<DecodedOperand>) -> (r: String)
    ensures
        r@ == join_operand_texts(ops@),
{
    let mut s = String::new();
    let mut i: usize = 0;
    while i < ops.len()
        invariant
            i <= ops@.len(),
            s@ == join_operand_texts(ops@.subrange(0, i as int)),
        decreases ops@.len() - i,
    {
        if i > 0 {
            s.append(",");
        }
        s.append(ops[i].text.as_str());
        proof {
            let pre = ops@.subrange(0, i as int);
            let next = ops@.subrange(0, i + 1);
            assert(next.drop_last() =~= pre);
            if i == 0 {
                assert(join_operand_texts(next) == next[0].text@);
                assert(s@ =~= next[0].text@);
            }
        }
        i += 1;
    }
    assert(ops@.subrange(0, ops@.len() as int) =~= ops@);
    s
}

/// What the opcode-level decoding of one instruction yields.
pub struct Body {
    pub mnemonic: String,
    pub operands: Vec<DecodedOperand>,
    pub flow: InstructionFlow,
    pub target: Option<u64>,
    pub len: usize,
}

/// Prefix state of the instruction being decoded.
pub struct Prefix {
    pub start: usize,
    pub address: u64,
    pub opsize16: bool,
    pub rex: u8,
    pub has_rex: bool,
}

pub open spec fn prefix_ok(px: Prefix, bytes: Seq<u8>) -> bool {
    &&& px.start < bytes.len()
    &&& bytes.len() <= usize::MAX
    &&& px.address as int + (bytes.len() - px.start) <= u64::MAX
}

pub open spec fn body_ok(b: Body, px: Prefix, bytes: Seq<u8>) -> bool {
    &&& 1 <= b.len
    &&& px.start + b.len <= bytes.len()
}

/// The operand size a prefix selects: 64 with REX.W, 16 with the operand-size prefix, 32
/// otherwise.
pub open spec fn prefix_width(px: Prefix) -> int {
    if px.has_rex && rex_bit(px.rex, 3) == 8 {
        64
    } else if px.opsize16 {
        16
    } else {
        32
    }
}

/// The operand size selected by REX.W and the operand-size prefix.
fn operand_width(px: &Prefix) -> (r: u16)
    ensures
        r == 16 || r == 32 || r == 64,
        r == prefix_width(*px),
{
    if px.has_rex && rex_ext(px.rex, 3) == 8 {
        64
    } else if px.opsize16 {
        16
    } else {
        32
    }
}

/// End address of an instruction of length `len` starting at the prefix position.
fn end_address(px: &Prefix, bytes: &[u8], len: usize) -> (r: u64)
    requires
        prefix_ok(*px, bytes@),
        px.start + len <= bytes@.len(),
    ensures
        r == px.address + len,
{
    px.address + len as u64
}

/// The r/m operand of a decoded ModRM byte.
fn rm_operand(
    px: &Prefix,
    m: &ModRm,
    role: OperandRole,
    width: u16,
    end: u64,
    show_width: bool,
) -> (r: DecodedOperand)
    requires
        m.rm < 16,
        m.mem matches Some(mem) ==> (mem.base matches Some(b) ==> b < 16) && (
        mem.index matches Some(x) ==> x < 16),
    ensures
        r.role == role,
        m.mem is None ==> operand_shape(r) == register_shape(role, m.rm as int, width, px.has_rex),
        m.mem matches Some(mem) ==> operand_shape(r) == memory_shape(role, mem, width, end, show_width),
{
    match &m.mem {
        Some(mem) => memory_operand(role, mem, width, end, show_width),
        None => register_operand(role, m.rm, width, px.has_rex),
    }
}

/// Number of immediate bytes for an operand size (16-bit operands take two, others four).
fn imm_len(width: u16) -> (r: usize)
    ensures
        r == 2 || r == 4,
        r == immediate_size(width as int),
{
    if width == 16 {
        2
    } else {
        4
    }
}

/// Reads an immediate of `n` bytes (2 or 4): 16-bit values as they are, 32-bit values
/// sign-extended to 64 bits.
fn read_imm(bytes: &[u8], pos: usize, n: usize) -> (r: u64)
    requires
        n == 2 || n == 4,
        pos + n <= bytes@.len(),
    ensures
        r == imm_value(bytes@, pos as int, n as int),
{
    if n == 2 {
        read_u16(bytes, pos) as u64
    } else {
        sign_extend_32(read_u32(bytes, pos))
    }
}

fn name_string(parts1: &str, parts2: &str) -> (r: String)
    ensures
        r@ == parts1@ + parts2@,
{
    let mut s = string_of(parts1);
    s.append(parts2);
    s
}

fn body(mnemonic: String, operands: Vec<DecodedOperand>, len: usize) -> (r: Body)
    ensures
        r.mnemonic == mnemonic,
        r.operands == operands,
        r.len == len,
        r.flow == InstructionFlow::Sequential,
        r.target is None,
{
    Body { mnemonic, operands, flow: InstructionFlow::Sequential, target: None, len }
}

/// `op r/m, reg` / `op reg, r/m` forms of the two-operand ALU, MOV and TEST opcodes.
/// `to_reg` puts the register operand first; `compare` makes both operands sources.
fn decode_modrm_pair(
    bytes: &[u8],
    px: &Prefix,
    pos: usize,
    mnemonic: &str,
    width: u16,
    to_reg: bool,
    compare: bool,
) -> (r: Option<Body>)
    requires
        prefix_ok(*px, bytes@),
        px.start < pos,
        pos < bytes@.len(),
    ensures
        r matches Some(b) ==> body_ok(b, *px, bytes@),
        r matches Some(b) ==> operand_shapes(b.operands@) == pair_shapes(bytes@, pos as int, *px, width, to_reg, compare),
        r matches Some(b) ==> b.mnemonic@ == mnemonic@,
        length_facts(r, *px, bytes@, pos as int, Some(modrm_extent(bytes@, pos as int))),
        plain(r),
{
    match parse_modrm(bytes, pos, px.rex) {
        None => None,
        Some((m, next)) => {
            let len = next - px.start;
            let end = end_address(px, bytes, len);
            let first_role = if compare {
                OperandRole::Source
            } else {
                OperandRole::Destination
            };
            let reg_op_role = if to_reg {
                first_role
            } else {
                OperandRole::Source
            };
            let rm_role = if to_reg {
                OperandRole::Source
            } else {
                first_role
            };
            let reg_op = register_operand(reg_op_role, m.reg, width, px.has_rex);
            let rm_op = rm_operand(px, &m, rm_role, width, end, true);
            let mut ops = Vec::new();
            if to_reg {
                ops.push(reg_op);
                ops.push(rm_op);
            } else {
                ops.push(rm_op);
                ops.push(reg_op);
            }
            Some(body(string_of(mnemonic), ops, len))
        },
    }
}

/// Mnemonic of an ALU operation number (the `/digit` of group 1, or bits 3..5 of opcodes
/// 0x00..0x3f).
fn alu_mnemonic(n: u8) -> (r: &'static str)
    requires
        n < 8,
    ensures
        r@ == alu_names()[n as int],
{
    match n {
        0 => "add",
        1 => "or",
        2 => "adc",
        3 => "sbb",
        4 => "and",
        5 => "sub",
        6 => "xor",
        _ => "cmp",
    }
}

/// Mnemonic of a shift-group operation number.
fn shift_mnemonic(n: u8) -> (r: &'static str)
    requires
        n < 8,
    ensures
        r@ == shift_names()[n as int],
{
    match n {
        0 => "rol",
        1 => "ror",
        2 => "rcl",
        3 => "rcr",
        4 => "shl",
        5 => "shr",
        6 => "sal",
        _ => "sar",
    }
}

/// `op r/m, imm` forms (group 1, MOV C6/C7, TEST F6/F7 /0).
/// `imm_bytes` is 1, 2 or 4; `sign8` sign-extends a one-byte immediate to 64 bits.
fn decode_rm_imm(
    bytes: &[u8],
    px: &Prefix,
    pos: usize,
    mnemonic: &str,
    width: u16,
    imm_bytes: usize,
    sign8: bool,
    compare: bool,
) -> (r: Option<Body>)
    requires
        prefix_ok(*px, bytes@),
        px.start < pos,
        pos < bytes@.len(),
        imm_bytes == 1 || imm_bytes == 2 || imm_bytes == 4,
    ensures
        r matches Some(b) ==> body_ok(b, *px, bytes@),
        r matches Some(b) ==> operand_shapes(b.operands@) == rm_imm_shapes(bytes@, pos as int, *px, compare, width, imm_bytes as int, sign8),
        r matches Some(b) ==> b.mnemonic@ == mnemonic@,
        length_facts(r, *px, bytes@, pos as int, Some(modrm_extent(bytes@, pos as int) + imm_bytes)),
        plain(r),
{
    match parse_modrm(bytes, pos, px.rex) {
        None => None,
        Some((m, next)) => {
            if bytes.len() < imm_bytes || next > bytes.len() - imm_bytes {
                return None;
            }
            let (value, imm_width) = if imm_bytes == 1 {
                let b = bytes[next];
                if sign8 {
                    (sign_extend_8(b), 8u16)
                } else {
                    (b as u64, 8u16)
                }
            } else {
                (read_imm(bytes, next, imm_bytes), (imm_bytes * 8) as u16)
            };
            let len = next + imm_bytes - px.start;
            let end = end_address(px, bytes, len);
            let role = if compare {
                OperandRole::Source
            } else {
                OperandRole::Destination
            };
            let mut ops = Vec::new();
            ops.push(rm_operand(px, &m, role, width, end, true));
            ops.push(immediate_operand(value, imm_width));
            Some(body(string_of(mnemonic), ops, len))
        },
    }
}

/// Single r/m operand forms (INC/DEC/NOT/NEG, SETcc, POP r/m, PUSH r/m).
fn decode_rm_only(
    bytes: &[u8],
    px: &Prefix,
    pos: usize,
    mnemonic: String,
    width: u16,
    role: OperandRole,
) -> (r: Option<Body>)
    requires
        prefix_ok(*px, bytes@),
        px.start < pos,
        pos < bytes@.len(),
    ensures
        r matches Some(b) ==> body_ok(b, *px, bytes@),
        r matches Some(b) ==> operand_shapes(b.operands@) == seq![
            rm_shape(bytes@, pos as int, *px, role, width, end_at(*px, pos + modrm_extent(bytes@, pos as int)), true),
        ],
        r matches Some(b) ==> b.mnemonic@ == mnemonic@,
        length_facts(r, *px, bytes@, pos as int, Some(modrm_extent(bytes@, pos as int))),
        plain(r),
{
    match parse_modrm(bytes, pos, px.rex) {
        None => None,
        Some((m, next)) => {
            let len = next - px.start;
            let end = end_address(px, bytes, len);
            let mut ops = Vec::new();
            ops.push(rm_operand(px, &m, role, width, end, true));
            Some(body(mnemonic, ops, len))
        },
    }
}

/// Shift group: `count` is 0 for CL, 1 for the implicit one, 2 for an imm8 count.
fn decode_shift(bytes: &[u8], px: &Prefix, pos: usize, width: u16, count: u8) -> (r: Option<
    Body,
>)
    requires
        prefix_ok(*px, bytes@),
        px.start < pos,
        pos < bytes@.len(),
        count <= 2,
    ensures
        r matches Some(b) ==> body_ok(b, *px, bytes@),
        r matches Some(b) ==> operand_shapes(b.operands@) == shift_shapes(bytes@, pos as int, *px, width, count),
        r matches Some(b) ==> b.mnemonic@ == shift_names()[modrm_reg(bytes@, pos as int)],
        length_facts(
            r,
            *px,
            bytes@,
            pos as int,
            Some(
                modrm_extent(bytes@, pos as int) + if count == 2 {
                    1int
                } else {
                    0int
                },
            ),
        ),
        plain(r),
{
    match parse_modrm(bytes, pos, px.rex) {
        None => None,
        Some((m, next)) => {
            let extra: usize = if count == 2 {
                1
            } else {
                0
            };
            if count >= 2 && next >= bytes.len() {
                return None;
            }
            let len = next + extra - px.start;
            let end = end_address(px, bytes, len);
            let mnemonic = shift_mnemonic(m.reg % 8);
            let mut ops = Vec::new();
            ops.push(rm_operand(px, &m, OperandRole::Destination, width, end, true));
            if count == 0 {
                ops.push(register_operand(OperandRole::Source, 1, 8, px.has_rex));
            } else if count == 1 {
                ops.push(immediate_operand(1, 8));
            } else {
                ops.push(immediate_operand(bytes[next] as u64, 8));
            }
            Some(body(string_of(mnemonic), ops, len))
        },
    }
}

/// A relative call, jump or conditional branch with a displacement of `n` (1 or 4) bytes.
fn decode_relative(
    bytes: &[u8],
    px: &Prefix,
    pos: usize,
    mnemonic: String,
    n: usize,
    flow: InstructionFlow,
) -> (r: Option<Body>)
    requires
        prefix_ok(*px, bytes@),
        px.start < pos <= bytes@.len(),
        n == 1 || n == 4,
    ensures
        r matches Some(b) ==> body_ok(b, *px, bytes@) && b.flow == flow && b.target is Some,
        r is Some <==> pos + n <= bytes@.len(),
        length_facts(r, *px, bytes@, pos as int, Some(n as int)),
        r matches Some(b) ==> operand_shapes(b.operands@) == seq![
            relative_shape(
                if flow == InstructionFlow::Call {
                    OperandRole::CallTarget
                } else {
                    OperandRole::BranchTarget
                },
                b.target->0,
            ),
        ],
        pos + n <= bytes@.len() ==> (r matches Some(b) && b.flow == flow && b.mnemonic == mnemonic && b.len == pos
            + n - px.start && b.target == Some(
            rip_target(
                (px.address + (pos + n - px.start)) as u64,
                if n == 1 {
                    rel8_at(bytes@, pos as int)
                } else {
                    rel32_at(bytes@, pos as int)
                },
            ),
        )),
{
    if bytes.len() < n || pos > bytes.len() - n {
        return None;
    }
    let disp: i64 = if n == 1 {
        signed_8(bytes[pos])
    } else {
        signed_32(read_u32(bytes, pos))
    };
    let len = pos + n - px.start;
    let end = end_address(px, bytes, len);
    let target = add_signed(end, disp);
    let role = if flow == InstructionFlow::Call {
        OperandRole::CallTarget
    } else {
        OperandRole::BranchTarget
    };
    let mut ops = Vec::new();
    ops.push(relative_operand(role, target));
    Some(Body { mnemonic, operands: ops, flow, target: Some(target), len })
}

/// Two-byte (0x0f-prefixed) opcodes.
fn decode_two_byte(bytes: &[u8], px: &Prefix, pos: usize) -> (r: Option<Body>)
    requires
        prefix_ok(*px, bytes@),
        px.start < pos,
        pos < bytes@.len(),
        bytes@[pos - 1] == 0x0f,
    ensures
        r matches Some(b) ==> body_ok(b, *px, bytes@),
        r matches Some(b) ==> operand_shapes(b.operands@) == two_byte_operands(bytes@, pos - 1, *px),
        mnemonic_facts(r, bytes@, pos - 1),
        length_facts(r, *px, bytes@, pos - 1, two_byte_length(bytes@, pos - 1)),
        direct_flow(px.address, bytes@, px.start as int, pos - 1) is None ==> plain(r),
        flow_facts(r, *px, bytes@, pos - 1),
{
    let op = bytes[pos];
    let width = operand_width(px);
    if op == 0x05 {
        return Some(body(string_of("syscall"), Vec::new(), pos + 1 - px.start));
    }
    if bytes.len() - pos <= 1 {
        return None;
    }
    if 0x80 <= op && op <= 0x8f {
        let mnemonic = name_string("j", condition_suffix(op - 0x80));
        return decode_relative(bytes, px, pos + 1, mnemonic, 4, InstructionFlow::ConditionalBranch);
    }
    if 0x40 <= op && op <= 0x4f {
        let mnemonic = name_string("cmov", condition_suffix(op - 0x40));
        return match decode_modrm_pair(bytes, px, pos + 1, "cmov", width, true, false) {
            Some(b) => Some(
                Body {
                    mnemonic,
                    operands: b.operands,
                    flow: b.flow,
                    target: b.target,
                    len: b.len,
                },
            ),
            None => None,
        };
    }
    if 0x90 <= op && op <= 0x9f {
        let mnemonic = name_string("set", condition_suffix(op - 0x90));
        return decode_rm_only(bytes, px, pos + 1, mnemonic, 8, OperandRole::Destination);
    }
    if op == 0xb6 || op == 0xb7 || op == 0xbe || op == 0xbf {
        let source_width: u16 = if op == 0xb6 || op == 0xbe {
            8
        } else {
            16
        };
        let mnemonic = if op == 0xb6 || op == 0xb7 {
            "movzx"
        } else {
            "movsx"
        };
        return match parse_modrm(bytes, pos + 1, px.rex) {
            None => None,
            Some((m, next)) => {
                let len = next - px.start;
                let end = end_address(px, bytes, len);
                let mut ops = Vec::new();
                ops.push(register_operand(OperandRole::Destination, m.reg, width, px.has_rex));
                ops.push(rm_operand(px, &m, OperandRole::Source, source_width, end, true));
                Some(body(string_of(mnemonic), ops, len))
            },
        };
    }
    if op == 0xaf {
        return decode_modrm_pair(bytes, px, pos + 1, "imul", width, true, false);
    }
    if op == 0x1f {
        return match parse_modrm(bytes, pos + 1, px.rex) {
            None => None,
            Some((m, next)) => Some(body(string_of("nop"), Vec::new(), next - px.start)),
        };
    }
    None
}

/// Group 5 (0xff): INC, DEC, CALL, JMP, PUSH on an r/m operand.
fn decode_group5(bytes: &[u8], px: &Prefix, pos: usize, width: u16) -> (r: Option<Body>)
    requires
        prefix_ok(*px, bytes@),
        px.start < pos,
        pos < bytes@.len(),
        bytes@[pos - 1] == 0xff,
    ensures
        r matches Some(b) ==> body_ok(b, *px, bytes@),
        r matches Some(b) ==> operand_shapes(b.operands@) == group5_shapes(bytes@, pos as int, *px, width),
        r matches Some(b) ==> b.mnemonic@ == group5_names()[modrm_reg(bytes@, pos as int)],
        length_facts(
            r,
            *px,
            bytes@,
            pos as int,
            if modrm_reg(bytes@, pos as int) == 0 || modrm_reg(bytes@, pos as int) == 1 || modrm_reg(bytes@, pos as int) == 2
                || modrm_reg(bytes@, pos as int) == 4 || modrm_reg(bytes@, pos as int) == 6 {
                Some(modrm_extent(bytes@, pos as int))
            } else {
                None
            },
        ),
        indirect_flow(bytes@, pos - 1) is None ==> plain(r),
        indirect_facts(r, *px, bytes@, pos - 1),
{
    match parse_modrm(bytes, pos, px.rex) {
        None => None,
        Some((m, next)) => {
            let len = next - px.start;
            let end = end_address(px, bytes, len);
            let n = m.reg % 8;
            if n == 0 || n == 1 {
                let mut ops = Vec::new();
                ops.push(rm_operand(px, &m, OperandRole::Destination, width, end, true));
                let mnemonic = if n == 0 {
                    "inc"
                } else {
                    "dec"
                };
                Some(body(string_of(mnemonic), ops, len))
            } else if n == 2 || n == 4 {
                let role = if n == 2 {
                    OperandRole::CallTarget
                } else {
                    OperandRole::BranchTarget
                };
                let mut ops = Vec::new();
                ops.push(rm_operand(px, &m, role, 64, end, true));
                let mnemonic = if n == 2 {
                    "call"
                } else {
                    "jmp"
                };
                let flow = if n == 2 {
                    InstructionFlow::Call
                } else {
                    InstructionFlow::Jump
                };
                Some(Body { mnemonic: string_of(mnemonic), operands: ops, flow, target: None, len })
            } else if n == 6 {
                let mut ops = Vec::new();
                ops.push(rm_operand(px, &m, OperandRole::Source, 64, end, true));
                Some(body(string_of("push"), ops, len))
            } else {
                None
            }
        },
    }
}

/// Group 3 (0xf6 / 0xf7): TEST imm, NOT, NEG, MUL, IMUL, DIV, IDIV.
fn decode_group3(bytes: &[u8], px: &Prefix, pos: usize, width: u16) -> (r: Option<Body>)
    requires
        prefix_ok(*px, bytes@),
        px.start < pos,
        pos < bytes@.len(),
    ensures
        r matches Some(b) ==> body_ok(b, *px, bytes@),
        r matches Some(b) ==> operand_shapes(b.operands@) == group3_shapes(bytes@, pos as int, *px, width),
        r matches Some(b) ==> b.mnemonic@ == group3_names()[modrm_reg(bytes@, pos as int)],
        length_facts(
            r,
            *px,
            bytes@,
            pos as int,
            Some(
                modrm_extent(bytes@, pos as int) + if modrm_reg(bytes@, pos as int) <= 1 {
                    if width == 8 {
                        1int
                    } else {
                        immediate_size(width as int)
                    }
                } else {
                    0int
                },
            ),
        ),
        plain(r),
{
    let n = (bytes[pos] / 8) % 8;
    if n == 0 || n == 1 {
        let imm_bytes = if width == 8 {
            1
        } else {
            imm_len(width)
        };
        return decode_rm_imm(bytes, px, pos, "test", width, imm_bytes, false, true);
    }
    let mnemonic = match n {
        2 => "not",
        3 => "neg",
        4 => "mul",
        5 => "imul",
        6 => "div",
        _ => "idiv",
    };
    decode_rm_only(bytes, px, pos, string_of(mnemonic), width, OperandRole::Destination)
}

/// One-byte opcodes 0x00..0x3f (ALU families).
fn decode_alu(bytes: &[u8], px: &Prefix, pos: usize, op: u8) -> (r: Option<Body>)
    requires
        prefix_ok(*px, bytes@),
        px.start <= pos,
        pos < bytes@.len(),
        op < 0x40,
        op == bytes@[pos as int],
    ensures
        r matches Some(b) ==> body_ok(b, *px, bytes@),
        r matches Some(b) ==> operand_shapes(b.operands@) == alu_operands(bytes@, pos as int, *px),
        mnemonic_facts(r, bytes@, pos as int),
        length_facts(r, *px, bytes@, pos as int, alu_length(bytes@, pos as int, prefix_width(*px))),
        plain(r),
{
    let family = op / 8;
    let form = op % 8;
    if form >= 6 {
        return None;
    }
    let mnemonic = alu_mnemonic(family);
    let compare = family == 7;
    let width = operand_width(px);
    if form < 4 {
        if bytes.len() - pos <= 1 {
            return None;
        }
        let w = if form % 2 == 0 {
            8
        } else {
            width
        };
        return decode_modrm_pair(bytes, px, pos + 1, mnemonic, w, form >= 2, compare);
    }
    let w: u16 = if form == 4 {
        8
    } else {
        width
    };
    let n: usize = if form == 4 {
        1
    } else {
        imm_len(width)
    };
    if bytes.len() - pos <= n {
        return None;
    }
    let value = if n == 1 {
        bytes[pos + 1] as u64
    } else {
        read_imm(bytes, pos + 1, n)
    };
    let role = if compare {
        OperandRole::Source
    } else {
        OperandRole::Destination
    };
    let mut ops = Vec::new();
    ops.push(register_operand(role, 0, w, px.has_rex));
    ops.push(immediate_operand(value, (n * 8) as u16));
    Some(body(string_of(mnemonic), ops, pos + 1 + n - px.start))
}

/// Opcode-level decoding after the prefixes; `pos` is the position of the opcode byte.
fn decode_opcode(bytes: &[u8], px: &Prefix, pos: usize) -> (r: Option<Body>)
    requires
        prefix_ok(*px, bytes@),
        px.start <= pos,
        pos < bytes@.len(),
    ensures
        r matches Some(b) ==> body_ok(b, *px, bytes@),
        operand_facts(r, *px, bytes@, pos as int),
        mnemonic_facts(r, bytes@, pos as int),
        length_facts(r, *px, bytes@, pos as int, encoding_length(bytes@, pos as int, prefix_width(*px))),
        direct_flow(px.address, bytes@, px.start as int, pos as int) is None && indirect_flow(bytes@, pos as int) is None ==> plain(r),
        flow_facts(r, *px, bytes@, pos as int),
        indirect_facts(r, *px, bytes@, pos as int),
{
    let op = bytes[pos];
    if op < 0x40 {
        if op == 0x0f {
            if bytes.len() - pos <= 1 {
                return None;
            }
            return decode_two_byte(bytes, px, pos + 1);
        }
        return decode_alu(bytes, px, pos, op);
    }
    if (0x50 <= op && op <= 0x5f) || (0x70 <= op && op <= 0x7f) || op == 0xe8 || op == 0xe9 || op == 0xeb || op == 0xc2 || op
        == 0xc3 || op == 0xc9 || op == 0x90 || op == 0xcc {
        return decode_flow_and_stack(bytes, px, pos, op);
    }
    if bytes.len() - pos <= 1 {
        return None;
    }
    if op == 0x63 || op == 0x68 || op == 0x69 || op == 0x6a || op == 0x6b {
        return decode_6x(bytes, px, pos, op);
    }
    if 0x80 <= op && op <= 0x8f {
        return decode_8x(bytes, px, pos, op);
    }
    if op == 0xa8 || op == 0xa9 || (0xb0 <= op && op <= 0xbf) {
        return decode_immediate_moves(bytes, px, pos, op);
    }
    decode_groups(bytes, px, pos, op)
}

/// PUSH/POP of registers, relative branches, RET, LEAVE, NOP, INT3.
fn decode_flow_and_stack(bytes: &[u8], px: &Prefix, pos: usize, op: u8) -> (r: Option<Body>)
    requires
        prefix_ok(*px, bytes@),
        px.start <= pos,
        pos < bytes@.len(),
        op == bytes@[pos as int],
        (0x50 <= op <= 0x5f) || (0x70 <= op <= 0x7f) || op == 0xe8 || op == 0xe9 || op == 0xeb || op
            == 0xc2 || op == 0xc3 || op == 0xc9 || op == 0x90 || op == 0xcc,
    ensures
        r matches Some(b) ==> body_ok(b, *px, bytes@),
        operand_facts(r, *px, bytes@, pos as int),
        mnemonic_facts(r, bytes@, pos as int),
        length_facts(r, *px, bytes@, pos as int, encoding_length(bytes@, pos as int, prefix_width(*px))),
        direct_flow(px.address, bytes@, px.start as int, pos as int) is None ==> plain(r),
        flow_facts(r, *px, bytes@, pos as int),
{
    proof {
        lemma_operand_shapes(Seq::<DecodedOperand>::empty());
    }
    let after = pos + 1;
    if 0x50 <= op && op <= 0x5f {
        let num = (op % 8) + rex_ext(px.rex, 0);
        let push = op < 0x58;
        let role = if push {
            OperandRole::Source
        } else {
            OperandRole::Destination
        };
        let mut ops = Vec::new();
        ops.push(register_operand(role, num, 64, px.has_rex));
        let mnemonic = if push {
            "push"
        } else {
            "pop"
        };
        proof {
            lemma_operand_shapes(ops@);
        }
        return Some(body(string_of(mnemonic), ops, after - px.start));
    }
    if 0x70 <= op && op <= 0x7f {
        let mnemonic = name_string("j", condition_suffix(op - 0x70));
        return decode_relative(bytes, px, after, mnemonic, 1, InstructionFlow::ConditionalBranch);
    }
    if op == 0xe8 {
        return decode_relative(bytes, px, after, string_of("call"), 4, InstructionFlow::Call);
    }
    if op == 0xe9 {
        return decode_relative(bytes, px, after, string_of("jmp"), 4, InstructionFlow::Jump);
    }
    if op == 0xeb {
        return decode_relative(bytes, px, after, string_of("jmp"), 1, InstructionFlow::Jump);
    }
    if op == 0xc3 {
        return Some(
            Body {
                mnemonic: string_of("ret"),
                operands: Vec::new(),
                flow: InstructionFlow::Return,
                target: None,
                len: after - px.start,
            },
        );
    }
    if op == 0xc2 {
        if bytes.len() - after < 2 {
            return None;
        }
        let mut ops = Vec::new();
        ops.push(immediate_operand(read_u16(bytes, after) as u64, 16));
        proof {
            lemma_operand_shapes(ops@);
        }
        return Some(
            Body {
                mnemonic: string_of("ret"),
                operands: ops,
                flow: InstructionFlow::Return,
                target: None,
                len: after + 2 - px.start,
            },
        );
    }
    if op == 0xc9 {
        return Some(body(string_of("leave"), Vec::new(), after - px.start));
    }
    if op == 0x90 {
        return Some(body(string_of("nop"), Vec::new(), after - px.start));
    }
    if op == 0xcc {
        return Some(body(string_of("int3"), Vec::new(), after - px.start));
    }
    None
}

/// MOVSXD, PUSH imm, IMUL with an immediate.
fn decode_6x(bytes: &[u8], px: &Prefix, pos: usize, op: u8) -> (r: Option<Body>)
    requires
        prefix_ok(*px, bytes@),
        px.start <= pos,
        pos + 1 < bytes@.len(),
        op == bytes@[pos as int],
        op == 0x63 || op == 0x68 || op == 0x69 || op == 0x6a || op == 0x6b,
    ensures
        r matches Some(b) ==> body_ok(b, *px, bytes@),
        operand_facts(r, *px, bytes@, pos as int),
        mnemonic_facts(r, bytes@, pos as int),
        length_facts(r, *px, bytes@, pos as int, encoding_length(bytes@, pos as int, prefix_width(*px))),
        plain(r),
{
    let width = operand_width(px);
    let after = pos + 1;
    if op == 0x63 {
        return match parse_modrm(bytes, after, px.rex) {
            None => None,
            Some((m, next)) => {
                let len = next - px.start;
                let end = end_address(px, bytes, len);
                let mut ops = Vec::new();
                let mut dest = register_operand(OperandRole::Destination, m.reg, width, px.has_rex);
                dest.width_bits = None;
                ops.push(dest);
                ops.push(rm_operand(px, &m, OperandRole::Source, 32, end, true));
                proof {
                    lemma_operand_shapes(ops@);
                }
                Some(body(string_of("movsxd"), ops, len))
            },
        };
    }
    if op == 0x68 || op == 0x6a {
        let n: usize = if op == 0x6a {
            1
        } else {
            4
        };
        if bytes.len() - after < n {
            return None;
        }
        let value = if n == 1 {
            sign_extend_8(bytes[after])
        } else {
            sign_extend_32(read_u32(bytes, after))
        };
        let mut ops = Vec::new();
        ops.push(immediate_operand(value, (n * 8) as u16));
        proof {
            lemma_operand_shapes(ops@);
        }
        return Some(body(string_of("push"), ops, after + n - px.start));
    }
    match parse_modrm(bytes, after, px.rex) {
        None => None,
        Some((m, next)) => {
            let n: usize = if op == 0x6b {
                1
            } else {
                imm_len(width)
            };
            if bytes.len() - next < n {
                return None;
            }
            let (value, imm_width) = if n == 1 {
                (sign_extend_8(bytes[next]), 8u16)
            } else {
                (read_imm(bytes, next, n), (n * 8) as u16)
            };
            let len = next + n - px.start;
            let end = end_address(px, bytes, len);
            let mut ops = Vec::new();
            ops.push(register_operand(OperandRole::Destination, m.reg, width, px.has_rex));
            ops.push(rm_operand(px, &m, OperandRole::Source, width, end, true));
            ops.push(immediate_operand(value, imm_width));
            proof {
                lemma_operand_shapes(ops@);
            }
            Some(body(string_of("imul"), ops, len))
        },
    }
}

/// Group 1 immediates, TEST, MOV, LEA, POP r/m (opcodes 0x80..0x8f).
fn decode_8x(bytes: &[u8], px: &Prefix, pos: usize, op: u8) -> (r: Option<Body>)
    requires
        prefix_ok(*px, bytes@),
        px.start <= pos,
        pos + 1 < bytes@.len(),
        op == bytes@[pos as int],
        0x80 <= op <= 0x8f,
    ensures
        r matches Some(b) ==> body_ok(b, *px, bytes@),
        operand_facts(r, *px, bytes@, pos as int),
        mnemonic_facts(r, bytes@, pos as int),
        length_facts(r, *px, bytes@, pos as int, encoding_length(bytes@, pos as int, prefix_width(*px))),
        plain(r),
{
    let width = operand_width(px);
    let after = pos + 1;
    if op == 0x80 || op == 0x81 || op == 0x83 {
        let n = (bytes[after] / 8) % 8;
        let w = if op == 0x80 {
            8
        } else {
            width
        };
        let imm_bytes = if op == 0x81 {
            imm_len(width)
        } else {
            1
        };
        return decode_rm_imm(bytes, px, after, alu_mnemonic(n), w, imm_bytes, op == 0x83, n == 7);
    }
    if op == 0x84 || op == 0x85 {
        let w = if op == 0x84 {
            8
        } else {
            width
        };
        return decode_modrm_pair(bytes, px, after, "test", w, false, true);
    }
    if 0x88 <= op && op <= 0x8b {
        let w = if op % 2 == 0 {
            8
        } else {
            width
        };
        return decode_modrm_pair(bytes, px, after, "mov", w, op >= 0x8a, false);
    }
    if op == 0x8d {
        return match parse_modrm(bytes, after, px.rex) {
            None => None,
            Some((m, next)) => {
                let len = next - px.start;
                let end = end_address(px, bytes, len);
                let mut ops = Vec::new();
                ops.push(register_operand(OperandRole::Destination, m.reg, width, px.has_rex));
                ops.push(rm_operand(px, &m, OperandRole::DataReference, width, end, false));
                proof {
                    lemma_operand_shapes(ops@);
                }
                Some(body(string_of("lea"), ops, len))
            },
        };
    }
    if op == 0x8f {
        return decode_rm_only(bytes, px, after, string_of("pop"), 64, OperandRole::Destination);
    }
    None
}

/// TEST with the accumulator, MOV of an immediate into a register.
fn decode_immediate_moves(bytes: &[u8], px: &Prefix, pos: usize, op: u8) -> (r: Option<Body>)
    requires
        prefix_ok(*px, bytes@),
        px.start <= pos,
        pos + 1 < bytes@.len(),
        op == bytes@[pos as int],
        op == 0xa8 || op == 0xa9 || (0xb0 <= op <= 0xbf),
    ensures
        r matches Some(b) ==> body_ok(b, *px, bytes@),
        operand_facts(r, *px, bytes@, pos as int),
        mnemonic_facts(r, bytes@, pos as int),
        length_facts(r, *px, bytes@, pos as int, encoding_length(bytes@, pos as int, prefix_width(*px))),
        plain(r),
{
    let width = operand_width(px);
    let after = pos + 1;
    if op == 0xa8 || op == 0xa9 {
        let w: u16 = if op == 0xa8 {
            8
        } else {
            width
        };
        let n: usize = if op == 0xa8 {
            1
        } else {
            imm_len(width)
        };
        if bytes.len() - after < n {
            return None;
        }
        let value = if n == 1 {
            bytes[after] as u64
        } else {
            read_imm(bytes, after, n)
        };
        let mut ops = Vec::new();
        ops.push(register_operand(OperandRole::Source, 0, w, px.has_rex));
        ops.push(immediate_operand(value, (n * 8) as u16));
        proof {
            lemma_operand_shapes(ops@);
        }
        return Some(body(string_of("test"), ops, after + n - px.start));
    }
    if 0xb0 <= op && op <= 0xbf {
        let num = (op % 8) + rex_ext(px.rex, 0);
        let (n, w): (usize, u16) = if op < 0xb8 {
            (1, 8)
        } else if width == 64 {
            (8, 64)
        } else if width == 16 {
            (2, 16)
        } else {
            (4, 32)
        };
        if bytes.len() - after < n {
            return None;
        }
        let value: u64 = if n == 1 {
            bytes[after] as u64
        } else if n == 2 {
            read_u16(bytes, after) as u64
        } else if n == 4 {
            read_u32(bytes, after) as u64
        } else {
            read_u64(bytes, after)
        };
        let mut ops = Vec::new();
        ops.push(register_operand(OperandRole::Destination, num, w, px.has_rex));
        ops.push(immediate_operand(value, w));
        proof {
            lemma_operand_shapes(ops@);
        }
        return Some(body(string_of("mov"), ops, after + n - px.start));
    }
    None
}

/// Shift groups, MOV r/m imm, groups 3, 4 and 5.
fn decode_groups(bytes: &[u8], px: &Prefix, pos: usize, op: u8) -> (r: Option<Body>)
    requires
        prefix_ok(*px, bytes@),
        px.start <= pos,
        pos + 1 < bytes@.len(),
        op == bytes@[pos as int],
        op >= 0x40,
        !((0x50 <= op <= 0x5f) || (0x70 <= op <= 0x7f) || op == 0xe8 || op == 0xe9 || op == 0xeb || op
            == 0xc2 || op == 0xc3 || op == 0xc9 || op == 0x90 || op == 0xcc),
        !(op == 0x63 || op == 0x68 || op == 0x69 || op == 0x6a || op == 0x6b),
        !(0x80 <= op <= 0x8f),
        !(op == 0xa8 || op == 0xa9 || (0xb0 <= op <= 0xbf)),
    ensures
        r matches Some(b) ==> body_ok(b, *px, bytes@),
        operand_facts(r, *px, bytes@, pos as int),
        mnemonic_facts(r, bytes@, pos as int),
        length_facts(r, *px, bytes@, pos as int, encoding_length(bytes@, pos as int, prefix_width(*px))),
        indirect_flow(bytes@, pos as int) is None ==> plain(r),
        indirect_facts(r, *px, bytes@, pos as int),
{
    let width = operand_width(px);
    let after = pos + 1;
    if op == 0xc0 || op == 0xc1 {
        let w = if op == 0xc0 {
            8
        } else {
            width
        };
        return decode_shift(bytes, px, after, w, 2);
    }
    if 0xd0 <= op && op <= 0xd3 {
        let w = if op % 2 == 0 {
            8
        } else {
            width
        };
        let count: u8 = if op <= 0xd1 {
            1
        } else {
            0
        };
        return decode_shift(bytes, px, after, w, count);
    }
    if op == 0xc6 || op == 0xc7 {
        if (bytes[after] / 8) % 8 != 0 {
            return None;
        }
        let w = if op == 0xc6 {
            8
        } else {
            width
        };
        let imm_bytes = if op == 0xc6 {
            1
        } else {
            imm_len(width)
        };
        return decode_rm_imm(bytes, px, after, "mov", w, imm_bytes, false, false);
    }
    if op == 0xf6 || op == 0xf7 {
        let w = if op == 0xf6 {
            8
        } else {
            width
        };
        return decode_group3(bytes, px, after, w);
    }
    if op == 0xfe {
        let n = (bytes[after] / 8) % 8;
        if n > 1 {
            return None;
        }
        let mnemonic = if n == 0 {
            "inc"
        } else {
            "dec"
        };
        return decode_rm_only(bytes, px, after, string_of(mnemonic), 8, OperandRole::Destination);
    }
    if op == 0xff {
        return decode_group5(bytes, px, after, width);
    }
    None
}

/// The one-byte fallback for bytes that do not decode: `db 0x…`.
fn raw_byte_body(bytes: &[u8], px: &Prefix) -> (r: Body)
    requires
        prefix_ok(*px, bytes@),
    ensures
        body_ok(r, *px, bytes@),
        r.len == 1,
        r.flow == InstructionFlow::Sequential,
        r.target is None,
        r.mnemonic@ == "db"@,
        operand_shapes(r.operands@) == raw_shapes(bytes@[px.start as int]),
{
    let b = bytes[px.start];
    let mut text = String::new();
    push_hex(&mut text, b as u64);
    let mut op = blank_operand(OperandRole::Unknown, OperandKind::Raw, text);
    op.value = Some(b as u64);
    op.width_bits = Some(8);
    let mut ops = Vec::new();
    ops.push(op);
    proof {
        lemma_operand_shapes(ops@);
    }
    body(string_of("db"), ops, 1)
}

fn copy_bytes(bytes: &[u8], start: usize, end: usize) -> (r: Vec<u8>)
    requires
        start <= end <= bytes@.len(),
    ensures
        r@ == bytes@.subrange(start as int, end as int),
{
    let mut out = Vec::new();
    let mut i = start;
    while i < end
        invariant
            start <= i <= end <= bytes@.len(),
            out@ == bytes@.subrange(start as int, i as int),
        decreases end - i,
    {
        out.push(bytes[i]);
        i += 1;
        assert(out@ =~= bytes@.subrange(start as int, i as int));
    }
    out
}

/// Where the opcode of the instruction at `offset` sits: after an operand-size prefix
/// (`0x66`) and then a REX prefix (`0x40`..`0x4f`), each skipped only when a byte follows it.
pub open spec fn opcode_position(bytes: Seq<u8>, offset: int) -> int {
    let p = if bytes[offset] == 0x66 && offset + 1 < bytes.len() {
        offset + 1
    } else {
        offset
    };
    if 0x40 <= bytes[p] <= 0x4f && p + 1 < bytes.len() {
        p + 1
    } else {
        p
    }
}

/// The operand size, in bits, that the prefixes of the instruction at `offset` select: 64
/// with REX.W, 16 with the operand-size prefix, 32 otherwise.
pub open spec fn operand_size(bytes: Seq<u8>, offset: int) -> int {
    let has66 = bytes[offset] == 0x66 && offset + 1 < bytes.len();
    let q = if has66 {
        offset + 1
    } else {
        offset
    };
    let has_rex = 0x40 <= bytes[q] <= 0x4f && q + 1 < bytes.len();
    if has_rex && rex_bit(bytes[q], 3) == 8 {
        64
    } else if has66 {
        16
    } else {
        32
    }
}

/// The length of the instruction at `offset`: its prefixes and its encoding when the opcode
/// is one that decodes and the encoding fits in the bytes; one byte otherwise.
#[verifier::opaque]
pub open spec fn instruction_length(bytes: Seq<u8>, offset: int) -> int {
    let p = opcode_position(bytes, offset);
    match encoding_length(bytes, p, operand_size(bytes, offset)) {
        Some(n) => if p + n <= bytes.len() {
            p + n - offset
        } else {
            1
        },
        None => 1,
    }
}

/// The prefixes of the instruction at `offset` of bytes placed at `address`: an operand-size
/// prefix, then a REX prefix, each taken only when a byte follows it.
pub open spec fn prefix_at(address: u64, bytes: Seq<u8>, offset: int) -> Prefix {
    let has66 = bytes[offset] == 0x66 && offset + 1 < bytes.len();
    let q = if has66 {
        offset + 1
    } else {
        offset
    };
    let has_rex = 0x40 <= bytes[q] <= 0x4f && q + 1 < bytes.len();
    Prefix {
        start: offset as usize,
        address: (address + offset) as u64,
        opsize16: has66,
        rex: if has_rex {
            bytes[q]
        } else {
            0
        },
        has_rex,
    }
}

/// The single operand of a byte that does not decode: the raw byte.
pub open spec fn raw_shapes(b: u8) -> Seq<OperandShape> {
    seq![(OperandRole::Unknown, OperandKind::Raw, Some(8u16), Some(b as u64), None, no_memory(), hex_text(b as nat))]
}

/// The operands of the instruction at `offset`: those of its encoding when it decodes, the
/// raw byte otherwise.
#[verifier::opaque]
pub open spec fn instruction_operands(address: u64, bytes: Seq<u8>, offset: int) -> Seq<OperandShape> {
    let p = opcode_position(bytes, offset);
    match encoding_length(bytes, p, operand_size(bytes, offset)) {
        Some(n) => if p + n <= bytes.len() {
            encoding_operands(bytes, p, prefix_at(address, bytes, offset))
        } else {
            raw_shapes(bytes[offset])
        },
        None => raw_shapes(bytes[offset]),
    }
}

/// The mnemonic of the instruction at `offset`: that of its encoding when the instruction
/// decodes, `db` (one raw byte) otherwise.
#[verifier::opaque]
pub open spec fn instruction_mnemonic(bytes: Seq<u8>, offset: int) -> Seq<char> {
    let p = opcode_position(bytes, offset);
    match encoding_length(bytes, p, operand_size(bytes, offset)) {
        Some(n) => if p + n <= bytes.len() {
            encoding_mnemonic(bytes, p)
        } else {
            "db"@
        },
        None => "db"@,
    }
}

/// How the instruction at `offset` transfers control, as its bytes say: a return or a direct
/// call, jump or conditional branch has the flow, length, target and mnemonic of its encoding;
/// an indirect call or jump (`ff /2`, `ff /4`) spans its ModRM operand and has no static
/// target, or decodes as one raw byte when that operand runs past the bytes; every other
/// instruction falls through and names no target.
#[verifier::opaque]
pub open spec fn branch_semantics(address: u64, bytes: Seq<u8>, offset: int, ins: DecodedInstruction) -> bool {
    let p = opcode_position(bytes, offset);
    &&& match direct_flow((address + offset) as u64, bytes, offset, p) {
        Some((f, n, t, m)) => ins.flow == f && ins.size == n && ins.target == t && ins.mnemonic@ == m,
        None => true,
    }
    &&& match indirect_flow(bytes, p) {
        Some((f, m)) => if p + 1 + modrm_extent(bytes, p + 1) <= bytes.len() {
            &&& ins.flow == f
            &&& ins.mnemonic@ == m
            &&& ins.target is None
            &&& ins.size == p + 1 + modrm_extent(bytes, p + 1) - offset
        } else {
            &&& ins.size == 1
            &&& ins.flow == InstructionFlow::Sequential
            &&& ins.target is None
            &&& ins.mnemonic@ == "db"@
        },
        None => true,
    }
    &&& direct_flow((address + offset) as u64, bytes, offset, p) is None && indirect_flow(bytes, p) is None
        ==> ins.flow == InstructionFlow::Sequential && ins.target is None
}

/// Whether `ins` is the instruction decoded at `offset` of `bytes` (placed at `address`): its
/// length, mnemonic and typed operands are those of its encoding, its data target is the first
/// statically known memory address among its operands, it holds the bytes it was decoded from, its operand text
/// joins its typed operands, and its control flow is that of its encoding.
pub open spec fn instruction_at(address: u64, bytes: Seq<u8>, offset: int, ins: DecodedInstruction) -> bool {
    &&& ins.size >= 1
    &&& 0 <= offset
    &&& offset + ins.size <= bytes.len()
    &&& ins.size == instruction_length(bytes, offset)
    &&& ins.mnemonic@ == instruction_mnemonic(bytes, offset)
    &&& operand_shapes(ins.typed_operands@) == instruction_operands(address, bytes, offset)
    &&& ins.data_target == first_data_reference_spec(ins.typed_operands@)
    &&& ins.address == address + offset
    &&& ins.bytes@ == bytes.subrange(offset, offset + ins.size)
    &&& ins.operands@ == join_operand_texts(ins.typed_operands@)
    &&& branch_semantics(address, bytes, offset, ins)
}

/// Decodes the instruction at `offset`. Bytes that do not form a known instruction decode as a
/// one-byte `db`.
#[verifier::rlimit(60)]
#[verifier::spinoff_prover]
pub fn decode_instruction_at(address: u64, bytes: &[u8], offset: usize) -> (r: DecodedInstruction)
    requires
        offset < bytes@.len(),
        address as int + bytes@.len() <= u64::MAX,
    ensures
        instruction_at(address, bytes@, offset as int, r),
{
    let _len = bytes.len();
    let mut px = Prefix {
        start: offset,
        address: address + offset as u64,
        opsize16: false,
        rex: 0,
        has_rex: false,
    };
    let mut pos = offset;
    if bytes[pos] == 0x66 && pos + 1 < bytes.len() {
        px.opsize16 = true;
        pos = pos + 1;
    }
    if 0x40 <= bytes[pos] && bytes[pos] <= 0x4f && pos + 1 < bytes.len() {
        px.rex = bytes[pos];
        px.has_rex = true;
        pos = pos + 1;
    }
    let decoded = decode_opcode(bytes, &px, pos);
    let ghost decoded_body = decoded;
    let b = match decoded {
        Some(b) => b,
        None => raw_byte_body(bytes, &px),
    };
    let ghost chosen = b;
    let operands = join_texts(&b.operands);
    let data_target = first_data_reference(&b.operands);
    let ins = DecodedInstruction {
        address: px.address,
        size: b.len,
        bytes: copy_bytes(bytes, offset, offset + b.len),
        mnemonic: b.mnemonic,
        operands,
        typed_operands: b.operands,
        target: b.target,
        data_target,
        flow: b.flow,
    };
    proof {
        assert(prefix_width(px) == operand_size(bytes@, offset as int));
        assert(px == prefix_at(address, bytes@, offset as int));
        lemma_branch_semantics(address, bytes@, offset as int, px, pos as int, decoded_body, chosen, ins);
    }
    ins
}

/// The opcode-level facts of a decoding give the instruction built from it its branch
/// semantics.
proof fn lemma_branch_semantics(
    address: u64,
    bytes: Seq<u8>,
    offset: int,
    px: Prefix,
    pos: int,
    decoded: Option<Body>,
    b: Body,
    ins: DecodedInstruction,
)
    requires
        px.start == offset,
        px.address == address + offset,
        0 <= offset <= pos < bytes.len(),
        pos == opcode_position(bytes, offset),
        flow_facts(decoded, px, bytes, pos),
        indirect_facts(decoded, px, bytes, pos),
        direct_flow(px.address, bytes, offset, pos) is None && indirect_flow(bytes, pos) is None ==> plain(decoded),
        decoded matches Some(d) ==> b == d,
        decoded is None ==> b.len == 1 && b.flow == InstructionFlow::Sequential && b.target is None
            && b.mnemonic@ == "db"@,
        length_facts(decoded, px, bytes, pos, encoding_length(bytes, pos, prefix_width(px))),
        mnemonic_facts(decoded, bytes, pos),
        operand_facts(decoded, px, bytes, pos),
        decoded is None ==> operand_shapes(b.operands@) == raw_shapes(bytes[offset]),
        px == prefix_at(address, bytes, offset),
        prefix_width(px) == operand_size(bytes, offset),
        ins.flow == b.flow,
        ins.size == b.len,
        ins.target == b.target,
        ins.mnemonic == b.mnemonic,
        ins.typed_operands == b.operands,
    ensures
        branch_semantics(address, bytes, offset, ins),
        ins.size == instruction_length(bytes, offset),
        ins.mnemonic@ == instruction_mnemonic(bytes, offset),
        operand_shapes(ins.typed_operands@) == instruction_operands(address, bytes, offset),
{
    reveal(branch_semantics);
    reveal(instruction_operands);
    reveal(instruction_length);
    reveal(instruction_mnemonic);
}

/// The first statically known data address among the operands.
pub open spec fn first_data_reference_spec(ops: Seq<DecodedOperand>) -> Option<u64>
    decreases ops.len(),
{
    if ops.len() == 0 {
        None
    } else {
        match spec_data_reference_target(ops[0]) {
            Some(a) => Some(a),
            None => first_data_reference_spec(ops.drop_first()),
        }
    }
}

fn first_data_reference(ops: &Vec<DecodedOperand>) -> (r: Option<u64>)
    ensures
        r == first_data_reference_spec(ops@),
{
    let mut i: usize = 0;
    assert(ops@.skip(0) =~= ops@);
    while i < ops.len()
        invariant
            i <= ops@.len(),
            first_data_reference_spec(ops@) == first_data_reference_spec(ops@.skip(i as int)),
        decreases ops@.len() - i,
    {
        assert(ops@.skip(i as int)[0] == ops@[i as int]);
        match ops[i].data_reference_target() {
            Some(a) => {
                return Some(a);
            },
            None => {},
        }
        assert(ops@.skip(i as int).drop_first() =~= ops@.skip(i + 1));
        i += 1;
    }
    None
}

/// Decoding covers the bytes exactly: instruction `k` starts where instruction `k - 1` ends,
/// the first starts at `address`, and the last ends at the end of the bytes.
pub open spec fn decoding_tiles(address: u64, bytes: Seq<u8>, out: Seq<DecodedInstruction>) -> bool {
    &&& forall|k: int|
        0 <= k < out.len() ==> instruction_at(address, bytes, out[k].address - address, #[trigger] out[k])
    &&& out.len() > 0 ==> out[0].address == address
    &&& forall|k: int|
        0 <= k < out.len() - 1 ==> #[trigger] out[k + 1].address == out[k].address + out[k].size
    &&& (out.len() == 0 <==> bytes.len() == 0)
    &&& out.len() > 0 ==> out.last().address + out.last().size == address + bytes.len()
}

/// A tiling decoding has instructions of at least one byte, each starting where the previous
/// one ends, all inside the decoded bytes.
#[verifier::spinoff_prover]
pub proof fn lemma_tiling_facts(address: u64, bytes: Seq<u8>, ds: Seq<DecodedInstruction>)
    requires
        decoding_tiles(address, bytes, ds),
    ensures
        forall|k: int| 0 <= k < ds.len() ==> (#[trigger] ds[k]).size >= 1,
        forall|k: int| 0 <= k < ds.len() ==> (#[trigger] ds[k]).address + ds[k].size <= address + bytes.len(),
        forall|k: int| 0 < k < ds.len() ==> (#[trigger] ds[k]).address == ds[k - 1].address + ds[k - 1].size,
{
    assert forall|k: int| 0 <= k < ds.len() implies (#[trigger] ds[k]).size >= 1 && ds[k].address + ds[k].size <= address + bytes.len() by {
        assert(instruction_at(address, bytes, ds[k].address - address, ds[k]));
    }
    assert forall|k: int| 0 < k < ds.len() implies (#[trigger] ds[k]).address == ds[k - 1].address + ds[k - 1].size by {
        assert(ds[(k - 1) + 1].address == ds[k - 1].address + ds[k - 1].size);
    }
}

/// The first data reference among operands depends only on their shapes.
proof fn lemma_data_reference_by_shapes(x: Seq<DecodedOperand>, y: Seq<DecodedOperand>)
    requires
        operand_shapes(x) == operand_shapes(y),
    ensures
        first_data_reference_spec(x) == first_data_reference_spec(y),
    decreases x.len(),
{
    assert(operand_shapes(x).len() == x.len());
    assert(operand_shapes(y).len() == y.len());
    if x.len() > 0 {
        assert(operand_shape(x[0]) == operand_shapes(x)[0]);
        assert(operand_shape(y[0]) == operand_shapes(y)[0]);
        assert(operand_shapes(x.drop_first()) =~= operand_shapes(x).drop_first());
        assert(operand_shapes(y.drop_first()) =~= operand_shapes(y).drop_first());
        lemma_data_reference_by_shapes(x.drop_first(), y.drop_first());
    }
}

/// The joined operand text depends only on the operands' shapes.
proof fn lemma_joined_text_by_shapes(x: Seq<DecodedOperand>, y: Seq<DecodedOperand>)
    requires
        operand_shapes(x) == operand_shapes(y),
    ensures
        join_operand_texts(x) == join_operand_texts(y),
    decreases x.len(),
{
    assert(operand_shapes(x).len() == x.len());
    assert(operand_shapes(y).len() == y.len());
    if x.len() > 0 {
        let n = x.len() - 1;
        assert(operand_shape(x[n]) == operand_shapes(x)[n]);
        assert(operand_shape(y[n]) == operand_shapes(y)[n]);
        assert(operand_shape(x[0]) == operand_shapes(x)[0]);
        assert(operand_shape(y[0]) == operand_shapes(y)[0]);
        assert(operand_shapes(x.drop_last()) =~= operand_shapes(x).drop_last());
        assert(operand_shapes(y.drop_last()) =~= operand_shapes(y).drop_last());
        lemma_joined_text_by_shapes(x.drop_last(), y.drop_last());
    }
}

/// Two decodings of the same bytes agree on their first `k` instructions.
proof fn lemma_decodings_agree_upto(
    address: u64,
    bytes: Seq<u8>,
    a: Seq<DecodedInstruction>,
    b: Seq<DecodedInstruction>,
    k: int,
)
    requires
        decoding_tiles(address, bytes, a),
        decoding_tiles(address, bytes, b),
        0 <= k <= a.len(),
        k <= b.len(),
    ensures
        forall|j: int|
            0 <= j < k ==> {
                &&& (#[trigger] a[j]).address == b[j].address
                &&& a[j].size == b[j].size
                &&& a[j].bytes@ == b[j].bytes@
                &&& a[j].mnemonic@ == b[j].mnemonic@
                &&& operand_shapes(a[j].typed_operands@) == operand_shapes(b[j].typed_operands@)
                &&& a[j].data_target == b[j].data_target
                &&& a[j].operands@ == b[j].operands@
                &&& a[j].flow == b[j].flow
                &&& a[j].target == b[j].target
            },
    decreases k,
{
    if k > 0 {
        lemma_decodings_agree_upto(address, bytes, a, b, k - 1);
        let i = k - 1;
        if i > 0 {
            assert(a[(i - 1) + 1].address == a[i - 1].address + a[i - 1].size);
            assert(b[(i - 1) + 1].address == b[i - 1].address + b[i - 1].size);
        }
        assert(a[i].address == b[i].address);
        let off = a[i].address - address;
        assert(instruction_at(address, bytes, off, a[i]));
        assert(instruction_at(address, bytes, off, b[i]));
        reveal(branch_semantics);
        assert(a[i].size == b[i].size);
        assert(a[i].bytes@ == b[i].bytes@);
        assert(a[i].flow == b[i].flow && a[i].target == b[i].target);
        lemma_data_reference_by_shapes(a[i].typed_operands@, b[i].typed_operands@);
        lemma_joined_text_by_shapes(a[i].typed_operands@, b[i].typed_operands@);
    }
}

/// Decoding is determined by the bytes: two decodings of the same bytes at the same address
/// have the same instructions at the same places, with the same lengths, bytes, mnemonics,
/// operand text, typed operands (roles, kinds, widths, values, registers, memory references
/// and texts), data targets, control flow and branch targets.
#[verifier::spinoff_prover]
pub proof fn law_decoding_is_determined_by_the_bytes(
    address: u64,
    bytes: Seq<u8>,
    a: Seq<DecodedInstruction>,
    b: Seq<DecodedInstruction>,
)
    requires
        decoding_tiles(address, bytes, a),
        decoding_tiles(address, bytes, b),
    ensures
        a.len() == b.len(),
        forall|k: int|
            0 <= k < a.len() ==> {
                &&& (#[trigger] a[k]).address == b[k].address
                &&& a[k].size == b[k].size
                &&& a[k].bytes@ == b[k].bytes@
                &&& a[k].mnemonic@ == b[k].mnemonic@
                &&& operand_shapes(a[k].typed_operands@) == operand_shapes(b[k].typed_operands@)
                &&& a[k].data_target == b[k].data_target
                &&& a[k].operands@ == b[k].operands@
                &&& a[k].flow == b[k].flow
                &&& a[k].target == b[k].target
            },
{
    let n = if a.len() < b.len() {
        a.len() as int
    } else {
        b.len() as int
    };
    lemma_decodings_agree_upto(address, bytes, a, b, n);
    lemma_no_instruction_after_the_end(address, bytes, a, b);
    lemma_no_instruction_after_the_end(address, bytes, b, a);
}

/// A decoding that agrees with another on where their common instructions start and how long
/// they are has at least as many instructions: its last instruction ends where the bytes end.
proof fn lemma_no_instruction_after_the_end(
    address: u64,
    bytes: Seq<u8>,
    a: Seq<DecodedInstruction>,
    b: Seq<DecodedInstruction>,
)
    requires
        decoding_tiles(address, bytes, a),
        decoding_tiles(address, bytes, b),
        forall|j: int|
            0 <= j < a.len() && j < b.len() ==> (#[trigger] a[j]).address == b[j].address && a[j].size
                == b[j].size,
    ensures
        a.len() >= b.len(),
{
    if a.len() < b.len() {
        if a.len() == 0 {
            assert(bytes.len() == 0);
        } else {
            let m = a.len() - 1;
            assert(a[m] == a.last());
            assert(a[m].address == b[m].address && a[m].size == b[m].size);
            assert(b[m + 1].address == b[m].address + b[m].size);
            assert(instruction_at(address, bytes, b[m + 1].address - address, b[m + 1]));
        }
    }
}

/// Decodes x86-64 instructions linearly from `bytes`, which sit at `address`.
pub fn decode_native_instructions(address: u64, bytes: &[u8]) -> (out: Vec<DecodedInstruction>)
    requires
        address as int + bytes@.len() <= u64::MAX,
    ensures
        decoding_tiles(address, bytes@, out@),
        out@.len() <= bytes@.len(),
{
    let mut out: Vec<DecodedInstruction> = Vec::new();
    let mut offset: usize = 0;
    while offset < bytes.len()
        invariant
            address as int + bytes@.len() <= u64::MAX,
            offset <= bytes@.len(),
            out@.len() <= offset,
            forall|k: int|
                0 <= k < out@.len() ==> instruction_at(
                    address,
                    bytes@,
                    out@[k].address - address,
                    #[trigger] out@[k],
                ),
            out@.len() > 0 ==> out@[0].address == address,
            forall|k: int|
                0 <= k < out@.len() - 1 ==> #[trigger] out@[k + 1].address == out@[k].address
                    + out@[k].size,
            out@.len() == 0 <==> offset == 0,
            out@.len() > 0 ==> out@.last().address + out@.last().size == address + offset,
        decreases bytes@.len() - offset,
    {
        let ins = decode_instruction_at(address, bytes, offset);
        offset = offset + ins.size;
        out.push(ins);
        proof {
            let k = out@.len() - 1;
            assert(out@[k].address - address == offset - out@[k].size);
        }
    }
    out
}

/// Lower-case hexadecimal text of the bytes, two digits each.
pub open spec fn bytes_hex_spec(bytes: Seq<u8>) -> Seq<char>
    decreases bytes.len(),
{
    if bytes.len() == 0 {
        Seq::empty()
    } else {
        bytes_hex_spec(bytes.drop_last()) + crate::text::hex_digits_padded(bytes.last() as nat, 2)
    }
}

/// Two digits per byte.
pub proof fn lemma_bytes_hex_len(bytes: Seq<u8>)
    ensures
        bytes_hex_spec(bytes).len() == 2 * bytes.len(),
    decreases bytes.len(),
{
    if bytes.len() > 0 {
        lemma_bytes_hex_len(bytes.drop_last());
        crate::text::lemma_padded_len(bytes.last() as nat, 2);
    }
}

/// The bytes as lower-case hexadecimal, two digits per byte.
pub fn bytes_hex(bytes: &[u8]) -> (r: String)
    ensures
        r@ == bytes_hex_spec(bytes@),
{
    let mut s = String::new();
    let mut i: usize = 0;
    while i < bytes.len()
        invariant
            i <= bytes@.len(),
            s@ == bytes_hex_spec(bytes@.subrange(0, i as int)),
        decreases bytes@.len() - i,
    {
        push_hex_padded(&mut s, bytes[i] as u64, 2);
        assert(bytes@.subrange(0, i + 1).drop_last() =~= bytes@.subrange(0, i as int));
        i += 1;
    }
    assert(bytes@.subrange(0, bytes@.len() as int) =~= bytes@);
    s
}

} // verus!
