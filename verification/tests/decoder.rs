use ruprobes::riscv_insn_decode::arr_to_u16_as_it_is;
use ruprobes::riscv_insn_decode::arr_to_u32_as_it_is;
use ruprobes::riscv_insn_decode::c_decode;
use ruprobes::riscv_insn_decode::get_insn_length;
use ruprobes::riscv_insn_decode::insn_decode;
use ruprobes::riscv_insn_decode::InsnStatus;
use ruprobes::riscv_insn_decode::Opcode;

#[test]
fn length_is_two_unless_low_bits_are_three() {
    // bytes 0x01 0x00: low bits of the first halfword are 01
    assert_eq!(get_insn_length(0x0001), 2);
    assert_eq!(get_insn_length(0x0000), 2);
    assert_eq!(get_insn_length(0x0002), 2);
    // low bits 11 signal the full 32-bit encoding
    assert_eq!(get_insn_length(0x0003), 4);
    assert_eq!(get_insn_length(0x0533), 4);
    assert_eq!(get_insn_length(0xFFFF), 4);
}

#[test]
fn example_bytes_are_caddi4spn_class_of_length_two() {
    let halfword = arr_to_u16_as_it_is(&[0x01, 0x00]);
    assert_eq!(halfword, 0x0100);
    assert_eq!(c_decode(halfword), Opcode::CADDI4SPN);
    assert_eq!(get_insn_length(0x0001), 2);
}

#[test]
fn word_assembly_keeps_byte_order() {
    assert_eq!(arr_to_u16_as_it_is(&[0xAB, 0xCD]), 0xABCD);
    assert_eq!(arr_to_u32_as_it_is(&[0x12, 0x34, 0x56, 0x78]), 0x12345678);
}

#[test]
fn compressed_decode_table() {
    assert_eq!(c_decode(0x0001), Opcode::CNOP); // all-zero destination
    assert_eq!(c_decode(0x0081), Opcode::CADDI);
    assert_eq!(c_decode(0xA001), Opcode::CJ);
    assert_eq!(c_decode(0x8082), Opcode::CJR); // plain return
    assert_eq!(c_decode(0x9002), Opcode::CEBREAK);
    assert_eq!(c_decode(0x9086), Opcode::CADD);
    assert_eq!(c_decode(0xC001), Opcode::CBEQZ);
    assert_eq!(c_decode(0xE001), Opcode::CBNEZ);
    assert_eq!(c_decode(0x9082), Opcode::CJALR);
    assert_eq!(c_decode(0x8C01), Opcode::CSUB);
}

#[test]
fn system_instructions_are_illegal() {
    // ecall
    assert_eq!(insn_decode(&[0x73, 0x00, 0x00, 0x00]), InsnStatus::Illegal);
    // ebreak
    assert_eq!(insn_decode(&[0x73, 0x00, 0x10, 0x00]), InsnStatus::Illegal);
    // csrrw x0, mstatus, x0
    assert_eq!(insn_decode(&[0x73, 0x10, 0x00, 0x30]), InsnStatus::Illegal);
    // csrrs
    assert_eq!(insn_decode(&[0x73, 0x20, 0x00, 0x30]), InsnStatus::Illegal);
    // csrrci
    assert_eq!(insn_decode(&[0x73, 0x70, 0x00, 0x30]), InsnStatus::Illegal);
}

#[test]
fn branches_and_jumps_are_illegal() {
    // beq
    assert_eq!(insn_decode(&[0x63, 0x00, 0x00, 0x00]), InsnStatus::Illegal);
    // bltu
    assert_eq!(insn_decode(&[0x63, 0x60, 0x00, 0x00]), InsnStatus::Illegal);
    // jal
    assert_eq!(insn_decode(&[0x6F, 0x00, 0x00, 0x00]), InsnStatus::Illegal);
    // jalr
    assert_eq!(insn_decode(&[0x67, 0x00, 0x00, 0x00]), InsnStatus::Illegal);
    // auipc
    assert_eq!(insn_decode(&[0x17, 0x00, 0x00, 0x00]), InsnStatus::Illegal);
    // compressed c.j
    assert_eq!(insn_decode(&[0xA0, 0x01, 0x00, 0x00]), InsnStatus::Illegal);
    // compressed c.jr
    assert_eq!(insn_decode(&[0x80, 0x82, 0x00, 0x00]), InsnStatus::Illegal);
    // compressed c.beqz
    assert_eq!(insn_decode(&[0xC0, 0x01, 0x00, 0x00]), InsnStatus::Illegal);
    // compressed c.ebreak
    assert_eq!(insn_decode(&[0x90, 0x02, 0x00, 0x00]), InsnStatus::Illegal);
}

#[test]
fn fences_are_illegal() {
    // fence
    assert_eq!(insn_decode(&[0x0F, 0x00, 0xF0, 0x0F]), InsnStatus::Illegal);
    // fence.i
    assert_eq!(insn_decode(&[0x0F, 0x10, 0x00, 0x00]), InsnStatus::Illegal);
}

#[test]
fn plain_computation_is_legal() {
    // add a0, a0, a1
    assert_eq!(insn_decode(&[0x33, 0x05, 0xB5, 0x00]), InsnStatus::Legal);
    // lw a0, 0(a0)
    assert_eq!(insn_decode(&[0x03, 0x25, 0x05, 0x00]), InsnStatus::Legal);
    // compressed CADDI4SPN-class bytes
    assert_eq!(insn_decode(&[0x01, 0x00, 0x00, 0x00]), InsnStatus::Legal);
    // compressed c.add
    assert_eq!(insn_decode(&[0x90, 0x86, 0x00, 0x00]), InsnStatus::Legal);
}
