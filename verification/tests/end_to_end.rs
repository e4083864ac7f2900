use assembler::assemble;
use assembler::error::AsmError;
use assembler::image::binary_image;

#[test]
fn halt_alone() {
    let (data, code) = assemble("halt").unwrap();
    assert_eq!(code, vec![0xFF, 0xFF]);
    assert!(data.is_empty());
    let image = binary_image(&data, &code).unwrap();
    assert_eq!(image, vec![0x00, 0x00, 0x00, 0x00, 0xFF, 0xFF]);
}

#[test]
fn byte_then_ascii() {
    let (data, code) = assemble(".byte 5\n.ascii \"AB\"").unwrap();
    assert_eq!(data, vec![0x05, 0x41, 0x42]);
    assert!(code.is_empty());
}

#[test]
fn addi_a_ten() {
    let (_, code) = assemble("addi A, #10").unwrap();
    assert_eq!(code.len(), 2);
    let word = u16::from_be_bytes([code[0], code[1]]);
    assert_eq!(word & 0b111, 0b001);
    assert_eq!((word >> 3) & 0b111, 0b000);
    assert_eq!((word >> 6) & 0b111, 0b000);
    assert_eq!(word >> 9, 0b0001010);
}

#[test]
fn empty_source() {
    assert_eq!(assemble(""), Ok((vec![], vec![])));
    assert_eq!(assemble("\n\n  \t"), Ok((vec![], vec![])));
}

#[test]
fn forward_reference() {
    let (_, code) = assemble("addi A, #done\nhalt\ndone: ret").unwrap();
    assert_eq!(code, vec![0x08, 0x01, 0xFF, 0xFF, 0x00, 0x1B]);
}

#[test]
fn backward_reference() {
    let (_, code) = assemble("halt\nback: halt\naddi B, #back").unwrap();
    assert_eq!(code, vec![0xFF, 0xFF, 0xFF, 0xFF, 0x04, 0x41]);
}

#[test]
fn forward_and_backward_reference_agree() {
    let (_, code) = assemble("int #here\nhere:\nint #here").unwrap();
    assert_eq!(code, vec![0x00, 0x93, 0x00, 0x93]);
}

#[test]
fn label_address_counts_data_in_source_order() {
    let (data, code) = assemble(".byte 1\n.byte 2\n.byte 3\nhere: addi A, #here").unwrap();
    assert_eq!(data, vec![1, 2, 3]);
    assert_eq!(code, vec![0x06, 0x01]);
}

#[test]
fn a_small_program() {
    let src = "\
        .org 4\n\
        start:\n\
            addi A, #start\n\
            add  A, B\n\
        msg: .ascii \"Hi\"\n\
            .byte 0\n\
            int  #msg\n\
            push A\n\
            pop  B\n\
            jneq\n\
            halt\n";
    let (data, code) = assemble(src).unwrap();
    assert_eq!(data, vec![0x48, 0x69, 0x00]);
    assert_eq!(
        code,
        vec![
            0x00, 0x00, 0x00, 0x00, // .org 4
            0x08, 0x01, // addi A, #4
            0x02, 0x00, // add A, B
            0x02, 0x13, // int #8
            0x00, 0x03, // push A
            0x00, 0x4B, // pop B
            0x00, 0x12, // jneq
            0xFF, 0xFF, // halt
        ]
    );
    assert_eq!(
        binary_image(&data, &code).unwrap(),
        vec![
            0x03, 0x00, 0x00, 0x00, 0x48, 0x69, 0x00, 0x00, 0x00, 0x00, 0x00, 0x08, 0x01, 0x02,
            0x00, 0x02, 0x13, 0x00, 0x03, 0x00, 0x4B, 0x00, 0x12, 0xFF, 0xFF,
        ]
    );
}

#[test]
fn same_label_twice() {
    assert_eq!(
        assemble("x: halt\nadd A, B\n.byte 1\nx: halt"),
        Err(AsmError::DuplicateLabel("x".to_string()))
    );
}

#[test]
fn each_failure_comes_out_of_assemble() {
    assert_eq!(
        assemble(".org"),
        Err(AsmError::Syntax(".org <number>".to_string()))
    );
    assert_eq!(
        assemble(".align 4"),
        Err(AsmError::UnknownDirective("align".to_string()))
    );
    assert_eq!(assemble("halt ,"), Err(AsmError::UnsupportedInst));
    assert_eq!(
        assemble("l: l:"),
        Err(AsmError::DuplicateLabel("l".to_string()))
    );
    assert_eq!(
        assemble("addi A, #l"),
        Err(AsmError::UnknownSymbol("l".to_string()))
    );
    assert_eq!(
        assemble("addi A, #100"),
        Err(AsmError::Range("imm7 out of range (-64..63)".to_string()))
    );
    assert_eq!(
        assemble("int #99"),
        Err(AsmError::Range("intnum 0\u{2025}15".to_string()))
    );
    assert_eq!(
        assemble(".byte 4294967296"),
        Err(AsmError::Range("number literal exceeds 32 bits".to_string()))
    );
    assert_eq!(assemble("halt add A,"), Err(AsmError::UnexpectedEof));
    assert_eq!(assemble(".org 0xFFFF halt"), Err(AsmError::Overflow));
}

#[test]
fn first_failure_in_pipeline_order() {
    assert_eq!(
        assemble("bogus , .word 99999999999"),
        Err(AsmError::Range("number literal exceeds 32 bits".to_string()))
    );
    assert_eq!(
        assemble("bogus , .word 1"),
        Err(AsmError::UnknownDirective("word".to_string()))
    );
    assert_eq!(assemble("bogus , .byte 1"), Err(AsmError::UnsupportedInst));
}

#[test]
fn label_beyond_an_immediate() {
    let mut src = String::new();
    for _ in 0..32 {
        src.push_str("halt\n");
    }
    src.push_str("far: addi A, #far");
    assert_eq!(
        assemble(&src),
        Err(AsmError::Range("imm7 out of range (-64..63)".to_string()))
    );
}

#[test]
fn org_moves_code_but_not_data() {
    let (data, code) = assemble(".byte 1 .org 2 .byte 2 halt .org 0 ret").unwrap();
    assert_eq!(data, vec![1, 2]);
    assert_eq!(code, vec![0x00, 0x1B, 0xFF, 0xFF]);
}
