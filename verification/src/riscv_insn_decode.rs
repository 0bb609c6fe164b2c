//! RISC-V instruction decoding and classification.
//!
//! A probed instruction is overwritten with a breakpoint encoding and a copy
//! of it is executed out of line, so the decoder must answer two questions
//! about the bytes found at the probe point: how long the instruction is
//! (compressed 16-bit or full 32-bit encoding), and whether it may legally be
//! re-executed away from its original address.  Instructions whose meaning
//! depends on their own program counter (branches, jumps, `auipc`), traps and
//! trap returns, CSR accesses and fences are rejected; everything else,
//! including encodings the classifier does not recognize, is accepted.
//!
//! Instruction words are handed in as raw bytes read from the target address
//! space; `arr_to_u16_as_it_is` and `arr_to_u32_as_it_is` assemble them with
//! the first byte in the most significant position, while the instruction
//! length is decided by the two low bits of the first halfword read at the
//! probe address.

use vstd::prelude::*;

verus! {

/// Opcode classes of the compressed ("C") instruction-set extension.
#[derive(Copy, Clone, Debug, PartialEq, Eq)]
pub enum Opcode {
    CADDI4SPN,
    CADDI,
    CNOP,
    CFLD,
    CLW,
    CLD,
    CSW,
    CSD,
    CADDIW,
    CLI,
    CADDI16SP,
    CLUI,
    CSRLI,
    CSRAI,
    CANDI,
    CSUB,
    CXOR,
    COR,
    CAND,
    CSUBW,
    CADDW,
    CJ,
    CBEQZ,
    CBNEZ,
    CSLLI,
    CLWSP,
    CLDSP,
    CJR,
    CMV,
    CBREAK,
    CJALR,
    CADD,
    CSWSP,
    CSDSP,
    CEBREAK,
    NOTFOUND,
}

/// Whether an instruction may be relocated into an out-of-line slot.
#[derive(Copy, Clone, Debug, PartialEq, Eq)]
pub enum InsnStatus {
    Illegal,
    Legal,
}

/// The two bytes at a probe point, first byte in the high half.
pub open spec fn spec_word16(b0: u8, b1: u8) -> u16 {
    ((b0 as u16) << 8) | (b1 as u16)
}

/// The four bytes at a probe point, first byte in the highest position.
pub open spec fn spec_word32(b0: u8, b1: u8, b2: u8, b3: u8) -> u32 {
    ((b0 as u32) << 24) | ((b1 as u32) << 16) | ((b2 as u32) << 8) | (b3 as u32)
}

/// The 32-bit instruction value encoded little-endian by four bytes.
pub open spec fn spec_word32_le(b0: u8, b1: u8, b2: u8, b3: u8) -> u32 {
    (b0 as u32) | ((b1 as u32) << 8) | ((b2 as u32) << 16) | ((b3 as u32) << 24)
}

/// Assembles two bytes into a halfword, first byte in the high half.
pub fn arr_to_u16_as_it_is(array: &[u8; 2]) -> (r: u16)
    ensures
        r == spec_word16(array[0], array[1]),
{
    ((array[0] as u16) << 8) | (array[1] as u16)
}

/// Assembles four bytes into a word, first byte in the highest position.
pub fn arr_to_u32_as_it_is(array: &[u8; 4]) -> (r: u32)
    ensures
        r == spec_word32(array[0], array[1], array[2], array[3]),
{
    ((array[0] as u32) << 24) | ((array[1] as u32) << 16) | ((array[2] as u32) << 8) | (array[3]
        as u32)
}

/// Decoded length in bytes of the instruction whose first halfword is `insn`:
/// 2 unless the two low bits signal the full 32-bit encoding.
pub open spec fn spec_insn_length(insn: u16) -> usize {
    if insn & 0b11 == 0b11 {
        4
    } else {
        2
    }
}

/// Length of the instruction that starts with the halfword `insn`.
pub fn get_insn_length(insn: u16) -> (r: usize)
    ensures
        r == spec_insn_length(insn),
{
    if insn & 0b11 == 0b11 {
        4
    } else {
        2
    }
}

/// The compressed-instruction decode table: classification of the 16-bit
/// encoding `base` by its quadrant (two low bits), major opcode (three high
/// bits) and the embedded function-code bits.
pub open spec fn spec_c_decode(base: u16) -> Opcode {
    let op_low = base & 0b11;
    let op_high = (base >> 13) & 0b111;
    if op_low == 0b00 {
        if op_high == 0b000 {
            Opcode::CADDI4SPN
        } else if op_high == 0b001 {
            Opcode::CFLD
        } else if op_high == 0b010 {
            Opcode::CLW
        } else if op_high == 0b011 {
            Opcode::CLD
        } else if op_high == 0b110 {
            Opcode::CSW
        } else if op_high == 0b111 {
            Opcode::CSD
        } else {
            Opcode::NOTFOUND
        }
    } else if op_low == 0b01 {
        if op_high == 0b000 {
            if (base >> 7) & 0b11111 == 0 {
                Opcode::CNOP
            } else {
                Opcode::CADDI
            }
        } else if op_high == 0b001 {
            Opcode::CADDIW
        } else if op_high == 0b010 {
            Opcode::CLI
        } else if op_high == 0b011 {
            if (base >> 7) & 0b11111 == 2 {
                Opcode::CADDI16SP
            } else {
                Opcode::CLUI
            }
        } else if op_high == 0b100 {
            spec_c_decode_alu(base)
        } else if op_high == 0b101 {
            Opcode::CJ
        } else if op_high == 0b110 {
            Opcode::CBEQZ
        } else {
            Opcode::CBNEZ
        }
    } else if op_low == 0b10 {
        if op_high == 0b000 {
            Opcode::CSLLI
        } else if op_high == 0b010 {
            Opcode::CLWSP
        } else if op_high == 0b011 {
            Opcode::CLDSP
        } else if op_high == 0b100 {
            spec_c_decode_jump_group(base)
        } else if op_high == 0b110 {
            Opcode::CSWSP
        } else if op_high == 0b111 {
            Opcode::CSDSP
        } else {
            Opcode::NOTFOUND
        }
    } else {
        Opcode::NOTFOUND
    }
}

/// Disambiguation of the quadrant-1 ALU group by its function-code bits.
pub open spec fn spec_c_decode_alu(base: u16) -> Opcode {
    let func3 = (base >> 10) & 0b111;
    let func2 = (base >> 5) & 0b11;
    if func3 == 0b000 || func3 == 0b100 {
        Opcode::CSRLI
    } else if func3 == 0b001 || func3 == 0b101 {
        Opcode::CSRAI
    } else if func3 == 0b010 || func3 == 0b110 {
        Opcode::CANDI
    } else if func3 == 0b011 {
        if func2 == 0b00 {
            Opcode::CSUB
        } else if func2 == 0b01 {
            Opcode::CXOR
        } else if func2 == 0b10 {
            Opcode::COR
        } else {
            Opcode::CAND
        }
    } else if func3 == 0b111 {
        if func2 == 0b00 {
            Opcode::CSUBW
        } else if func2 == 0b01 {
            Opcode::CADDW
        } else {
            Opcode::NOTFOUND
        }
    } else {
        Opcode::NOTFOUND
    }
}

/// Disambiguation of the quadrant-2 jump/move/breakpoint group.
pub open spec fn spec_c_decode_jump_group(base: u16) -> Opcode {
    let func12 = (base >> 12) & 0b1;
    let func11_7 = (base >> 7) & 0b11111;
    let func6_2 = (base >> 2) & 0b11111;
    if func12 == 0b0 {
        if func6_2 == 0b00000 {
            Opcode::CJR
        } else {
            Opcode::CMV
        }
    } else {
        if func11_7 == 0b0 && func6_2 == 0b00000 {
            Opcode::CEBREAK
        } else if func6_2 == 0b00000 {
            Opcode::CJALR
        } else {
            Opcode::CADD
        }
    }
}

/// Classifies a compressed instruction by quadrant, major opcode and
/// function-code bits.
pub fn c_decode(base: u16) -> (r: Opcode)
    ensures
        r == spec_c_decode(base),
{
    proof {
        assert((base & 0b11) < 4) by (bit_vector);
        assert(((base >> 13) & 0b111) < 8) by (bit_vector);
        assert(((base >> 10) & 0b111) < 8) by (bit_vector);
        assert(((base >> 5) & 0b11) < 4) by (bit_vector);
        assert(((base >> 12) & 0b1) < 2) by (bit_vector);
    }
    let op_low = base & 0b11;
    let op_high = (base >> 13) & 0b111;

    match (op_high, op_low) {
        (0b000, 0b00) => Opcode::CADDI4SPN,
        (0b000, 0b01) => {
            if (base >> 7) & 0b11111 == 0 {
                Opcode::CNOP
            } else {
                Opcode::CADDI
            }
        },
        (0b001, 0b00) => Opcode::CFLD,
        (0b010, 0b00) => Opcode::CLW,
        (0b011, 0b00) => Opcode::CLD,
        (0b110, 0b00) => Opcode::CSW,
        (0b111, 0b00) => Opcode::CSD,
        (0b001, 0b01) => Opcode::CADDIW,
        (0b010, 0b01) => Opcode::CLI,
        (0b011, 0b01) => {
            if (base >> 7) & 0b11111 == 2 {
                Opcode::CADDI16SP
            } else {
                Opcode::CLUI
            }
        },
        (0b100, 0b01) => {
            let func3 = (base >> 10) & 0b111;
            let func2 = (base >> 5) & 0b11;
            match (func3, func2) {
                (0b000, _) | (0b100, _) => Opcode::CSRLI,
                (0b001, _) | (0b101, _) => Opcode::CSRAI,
                (0b010, _) | (0b110, _) => Opcode::CANDI,
                (0b011, 0b00) => Opcode::CSUB,
                (0b011, 0b01) => Opcode::CXOR,
                (0b011, 0b10) => Opcode::COR,
                (0b011, 0b11) => Opcode::CAND,
                (0b111, 0b00) => Opcode::CSUBW,
                (0b111, 0b01) => Opcode::CADDW,
                _ => Opcode::NOTFOUND,
            }
        },
        (0b101, 0b01) => Opcode::CJ,
        (0b110, 0b01) => Opcode::CBEQZ,
        (0b111, 0b01) => Opcode::CBNEZ,
        (0b000, 0b10) => Opcode::CSLLI,
        (0b010, 0b10) => Opcode::CLWSP,
        (0b011, 0b10) => Opcode::CLDSP,
        (0b100, 0b10) => {
            let func12 = (base >> 12) & 0b1;
            let func11_7 = (base >> 7) & 0b11111;
            let func6_2 = (base >> 2) & 0b11111;

            match (func12, func11_7, func6_2) {
                (0b0, _, 0b00000) => Opcode::CJR,
                (0b0, _, _) => Opcode::CMV,
                (0b1, 0b0, 0b00000) => Opcode::CEBREAK,
                (0b1, _, 0b00000) => Opcode::CJALR,
                (0b1, _, _) => Opcode::CADD,
                _ => Opcode::NOTFOUND,
            }
        },
        (0b110, 0b10) => Opcode::CSWSP,
        (0b111, 0b10) => Opcode::CSDSP,
        _ => Opcode::NOTFOUND,
    }
}

/// A compressed instruction may be relocated unless it is a jump, a branch or
/// an environment breakpoint; an unrecognized encoding is accepted.
pub open spec fn spec_c_legal(op: Opcode) -> bool {
    match op {
        Opcode::CJ => false,
        Opcode::CJR => false,
        Opcode::CJALR => false,
        Opcode::CBEQZ => false,
        Opcode::CBNEZ => false,
        Opcode::CEBREAK => false,
        _ => true,
    }
}

/// A 32-bit instruction may be relocated unless its opcode field marks it as
/// program-counter-relative (`auipc`, branches, `jal`, `jalr`), a fence, or
/// part of the system group (`ecall`, `ebreak`, trap returns, `wfi`,
/// `sfence.vma`, and the CSR accesses); an encoding outside those groups is
/// accepted even when it is not otherwise recognized.
pub open spec fn spec_rv32_legal(word: u32) -> bool {
    let opcode = word & 0b1111111;
    let funct3 = (word >> 12) & 0b111;
    if opcode == 0b1110011 {
        // System group: `ecall`/`ebreak`/trap returns/`wfi`/`sfence.vma`
        // share funct3 0, the CSR instructions funct3 1-3 and 5-7.
        funct3 == 0b100
    } else if opcode == 0b0001111 {
        // `fence` and `fence.i`.
        !(funct3 == 0b000 || funct3 == 0b001)
    } else if opcode == 0b0010111 {
        // `auipc`.
        false
    } else if opcode == 0b1100011 {
        // Conditional branches.
        false
    } else if opcode == 0b1101111 {
        // `jal`.
        false
    } else if opcode == 0b1100111 {
        // `jalr`.
        false
    } else {
        true
    }
}

/// Whether the instruction whose first four bytes are `b0..b3` may be
/// relocated: the two low bits of the first byte select the compressed or
/// the full-width classifier.
pub open spec fn spec_insn_legal(b0: u8, b1: u8, b2: u8, b3: u8) -> bool {
    if b0 & 0b11 != 0b11 {
        spec_c_legal(spec_c_decode(spec_word16(b0, b1)))
    } else {
        spec_rv32_legal(spec_word32_le(b0, b1, b2, b3))
    }
}

/// Classifies the instruction found at a probe point, given the four bytes
/// read there, as safe or unsafe to relocate into an out-of-line slot.
pub fn insn_decode(bytes: &[u8; 4]) -> (r: InsnStatus)
    ensures
        (r == InsnStatus::Legal) == spec_insn_legal(bytes[0], bytes[1], bytes[2], bytes[3]),
{
    if bytes[0] & 0b11 != 0b11 {
        let halfword = arr_to_u16_as_it_is(&[bytes[0], bytes[1]]);
        match c_decode(halfword) {
            Opcode::CJ => InsnStatus::Illegal,
            Opcode::CJR => InsnStatus::Illegal,
            Opcode::CJALR => InsnStatus::Illegal,
            Opcode::CBEQZ => InsnStatus::Illegal,
            Opcode::CBNEZ => InsnStatus::Illegal,
            Opcode::CEBREAK => InsnStatus::Illegal,
            _ => InsnStatus::Legal,
        }
    } else {
        let word = (bytes[0] as u32) | ((bytes[1] as u32) << 8) | ((bytes[2] as u32) << 16) | ((
        bytes[3] as u32) << 24);
        let opcode = word & 0b1111111;
        let funct3 = (word >> 12) & 0b111;
        if opcode == 0b1110011 {
            if funct3 == 0b100 {
                InsnStatus::Legal
            } else {
                InsnStatus::Illegal
            }
        } else if opcode == 0b0001111 {
            if funct3 == 0b000 || funct3 == 0b001 {
                InsnStatus::Illegal
            } else {
                InsnStatus::Legal
            }
        } else if opcode == 0b0010111 || opcode == 0b1100011 || opcode == 0b1101111 || opcode
            == 0b1100111 {
            InsnStatus::Illegal
        } else {
            InsnStatus::Legal
        }
    }
}

/// Law: every program-counter-relative, fence or system-group 32-bit
/// encoding is rejected for relocation, and every encoding in the
/// register-register arithmetic group is accepted.
pub proof fn lemma_rv32_legality(word: u32)
    ensures
        word & 0b1111111 == 0b1100011 ==> !spec_rv32_legal(word),  // branches
        word & 0b1111111 == 0b1101111 ==> !spec_rv32_legal(word),  // jal
        word & 0b1111111 == 0b1100111 ==> !spec_rv32_legal(word),  // jalr
        word & 0b1111111 == 0b0010111 ==> !spec_rv32_legal(word),  // auipc
        word & 0b1111111 == 0b1110011 && (word >> 12) & 0b111 != 0b100 ==> !spec_rv32_legal(
            word,
        ),  // ecall, ebreak, trap returns, wfi, sfence.vma, CSR accesses
        word & 0b1111111 == 0b0001111 && (word >> 12) & 0b111 == 0b000 ==> !spec_rv32_legal(
            word,
        ),  // fence
        word & 0b1111111 == 0b0001111 && (word >> 12) & 0b111 == 0b001 ==> !spec_rv32_legal(
            word,
        ),  // fence.i
        word & 0b1111111 == 0b0110011 ==> spec_rv32_legal(word),  // register-register ALU ops
{
}

/// Law: every compressed jump, branch and environment-breakpoint form is
/// rejected for relocation.
pub proof fn lemma_compressed_legality(base: u16)
    ensures
        spec_c_decode(base) == Opcode::CJ ==> !spec_c_legal(spec_c_decode(base)),
        spec_c_decode(base) == Opcode::CJR ==> !spec_c_legal(spec_c_decode(base)),
        spec_c_decode(base) == Opcode::CJALR ==> !spec_c_legal(spec_c_decode(base)),
        spec_c_decode(base) == Opcode::CBEQZ ==> !spec_c_legal(spec_c_decode(base)),
        spec_c_decode(base) == Opcode::CBNEZ ==> !spec_c_legal(spec_c_decode(base)),
        spec_c_decode(base) == Opcode::CEBREAK ==> !spec_c_legal(spec_c_decode(base)),
{
}

} // verus!
