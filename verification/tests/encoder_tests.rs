use assembler::encoder::{
    enc_i, enc_j, enc_mem, enc_r, enc_t, enc_t_int, encode, imm7_bits, parse_imm, reg_code,
    HALT_WORD,
};
use assembler::error::AsmError;
use assembler::lexer::{tokenize, Token};
use assembler::symtab::SymTab;

fn words(src: &str) -> Result<u16, AsmError> {
    let toks = tokenize(src).unwrap();
    encode(&toks, &SymTab::new())
}

fn reg(name: &str) -> Token {
    Token::Reg(name.to_string())
}

fn syntax(msg: &str) -> AsmError {
    AsmError::Syntax(msg.to_string())
}

fn range(msg: &str) -> AsmError {
    AsmError::Range(msg.to_string())
}

#[test]
fn register_codes() {
    let names = ["A", "B", "C", "D", "E", "SP", "AH", "AL"];
    for (code, name) in names.iter().enumerate() {
        assert_eq!(reg_code(&reg(name)), Ok(code as u8));
    }
}

#[test]
fn register_codes_are_pairwise_different() {
    let names = ["A", "B", "C", "D", "E", "SP", "AH", "AL"];
    let mut seen = [false; 8];
    for name in names {
        let code = reg_code(&reg(name)).unwrap() as usize;
        assert!(code < 8);
        assert!(!seen[code]);
        seen[code] = true;
    }
    assert!(seen.iter().all(|s| *s));
}

#[test]
fn other_tokens_are_no_registers() {
    let expected = Err(syntax("register expected"));
    assert_eq!(reg_code(&reg("F")), expected);
    assert_eq!(reg_code(&reg("a")), expected);
    assert_eq!(reg_code(&reg("")), expected);
    assert_eq!(reg_code(&reg("AX")), expected);
    assert_eq!(reg_code(&Token::Ident("A".to_string())), expected);
    assert_eq!(reg_code(&Token::String("A".to_string())), expected);
    assert_eq!(reg_code(&Token::Number(0)), expected);
    assert_eq!(reg_code(&Token::Comma), expected);
    assert_eq!(reg_code(&Token::Add), expected);
}

#[test]
fn immediate_from_number() {
    let sym = SymTab::new();
    assert_eq!(parse_imm(&Token::Number(0), &sym), Ok(0));
    assert_eq!(parse_imm(&Token::Number(10), &sym), Ok(10));
    assert_eq!(parse_imm(&Token::Number(0x7FFF_FFFF), &sym), Ok(i32::MAX));
    assert_eq!(parse_imm(&Token::Number(0x8000_0000), &sym), Ok(i32::MIN));
    assert_eq!(parse_imm(&Token::Number(0xFFFF_FFFF), &sym), Ok(-1));
    assert_eq!(parse_imm(&Token::Number(0xFFFF_FFC0), &sym), Ok(-64));
}

#[test]
fn immediate_from_symbol() {
    let mut sym = SymTab::new();
    assert_eq!(sym.define("start".to_string(), 0), Ok(()));
    assert_eq!(sym.define("end".to_string(), 0xFFFF), Ok(()));
    assert_eq!(parse_imm(&Token::Ident("start".to_string()), &sym), Ok(0));
    assert_eq!(parse_imm(&Token::Ident("end".to_string()), &sym), Ok(65535));
    assert_eq!(
        parse_imm(&Token::Ident("End".to_string()), &sym),
        Err(AsmError::UnknownSymbol("End".to_string()))
    );
    assert_eq!(
        parse_imm(&Token::Ident("missing".to_string()), &sym),
        Err(AsmError::UnknownSymbol("missing".to_string()))
    );
}

#[test]
fn immediate_from_other_tokens() {
    let sym = SymTab::new();
    let expected = Err(syntax("immediate/label expected"));
    assert_eq!(parse_imm(&reg("A"), &sym), expected);
    assert_eq!(parse_imm(&Token::Hash, &sym), expected);
    assert_eq!(parse_imm(&Token::String("1".to_string()), &sym), expected);
    assert_eq!(parse_imm(&Token::Halt, &sym), expected);
}

#[test]
fn symbol_table_binds_a_name_once() {
    let mut sym = SymTab::new();
    assert_eq!(sym.get("x"), None);
    assert_eq!(sym.define("x".to_string(), 1), Ok(()));
    assert_eq!(sym.get("x"), Some(1));
    assert_eq!(
        sym.define("x".to_string(), 2),
        Err(AsmError::DuplicateLabel("x".to_string()))
    );
    assert_eq!(sym.get("x"), Some(1));
    assert_eq!(sym.get("X"), None);
    assert_eq!(sym.define("X".to_string(), 3), Ok(()));
    assert_eq!(sym.get("X"), Some(3));
    assert_eq!(sym.get("x"), Some(1));
}

#[test]
fn imm7_limits() {
    assert_eq!(imm7_bits(-64), Ok(0b100_0000));
    assert_eq!(imm7_bits(63), Ok(0b011_1111));
    let expected = Err(range("imm7 out of range (-64..63)"));
    assert_eq!(imm7_bits(-65), expected);
    assert_eq!(imm7_bits(64), expected);
    assert_eq!(imm7_bits(i32::MAX), expected);
    assert_eq!(imm7_bits(i32::MIN), expected);
}

#[test]
fn imm7_keeps_the_twos_complement_pattern() {
    assert_eq!(imm7_bits(0), Ok(0));
    assert_eq!(imm7_bits(1), Ok(1));
    assert_eq!(imm7_bits(10), Ok(0b000_1010));
    assert_eq!(imm7_bits(-1), Ok(0b111_1111));
    assert_eq!(imm7_bits(-2), Ok(0b111_1110));
    assert_eq!(imm7_bits(-10), Ok(0b111_0110));
    for val in -64..=63 {
        assert_eq!(imm7_bits(val), Ok((val as u16) & 0x7F));
    }
}

#[test]
fn trap_number_limits() {
    assert_eq!(enc_t_int(0), Ok(0x0013));
    assert_eq!(enc_t_int(15), Ok(0x03D3));
    assert_eq!(enc_t_int(16), Err(range("intnum 0\u{2025}15")));
    assert_eq!(enc_t_int(-1), Err(range("intnum 0\u{2025}15")));
    for n in 0..=15 {
        assert_eq!(enc_t_int(n), Ok(((n as u16) << 6) | 0b010_011));
    }
}

#[test]
fn format_words() {
    assert_eq!(enc_r(0b1000, 0b101, 0b010, 0b110), 0b1000_110_010_101_000);
    assert_eq!(enc_r(15, 7, 7, 7), 0xFFF8);
    assert_eq!(enc_r(0, 0, 0, 0), 0);
    assert_eq!(enc_i(0b110, 0b011, -3), Ok(0b1111101_011_110_001));
    assert_eq!(enc_i(0, 0, 10), Ok(0x1401));
    assert_eq!(
        enc_i(0, 0, 64),
        Err(range("imm7 out of range (-64..63)"))
    );
    assert_eq!(enc_mem(0b001, 0b100), 0b100_001_101);
    assert_eq!(enc_j(0b110), 0b110_010);
    assert_eq!(enc_t(0b001, 0b0111), 0b0111_001_011);
    assert_eq!(enc_t(0b010, 0b1111), 0b1111_010_011);
}

#[test]
fn register_register_instructions() {
    assert_eq!(words("add A, B"), Ok(0x0200));
    assert_eq!(words("sub C, D"), Ok(0x8680));
    assert_eq!(words("or E, SP"), Ok(0x0B08));
    assert_eq!(words("and AH, AL"), Ok(0x0F90));
    assert_eq!(words("xor A, A"), Ok(0x0018));
    assert_eq!(words("lsl B, C"), Ok(0x0460));
    assert_eq!(words("lsr A, B"), Ok(0x0228));
    assert_eq!(words("asr A, B"), Ok(0x8228));
    assert_eq!(words("cmp A, B"), Ok(0x0230));
}

#[test]
fn register_immediate_instructions() {
    assert_eq!(words("addi A, #10"), Ok(0x1401));
    assert_eq!(words("ori B, #1"), Ok(0x0249));
    assert_eq!(words("andi C, #63"), Ok(0x7E91));
    assert_eq!(words("xori D, #0"), Ok(0x00D9));
    assert_eq!(words("lsli E, #2"), Ok(0x0521));
    assert_eq!(words("lsri SP, #3"), Ok(0x0769));
    assert_eq!(words("cmpi AL, #0xFFFFFFC0"), Ok(0x81F1));
    assert_eq!(words("addi A, #0xFFFFFFFF"), Ok(0xFE01));
}

#[test]
fn load_store_instructions() {
    assert_eq!(words("ld A"), Ok(0x0005));
    assert_eq!(words("ld B"), Ok(0x0045));
    assert_eq!(words("st C"), Ok(0x008D));
    assert_eq!(words("st AL"), Ok(0x01CD));
}

#[test]
fn jump_instructions() {
    assert_eq!(words("jmp"), Ok(0x0002));
    assert_eq!(words("jeq"), Ok(0x000A));
    assert_eq!(words("jneq"), Ok(0x0012));
    assert_eq!(words("jgt"), Ok(0x001A));
    assert_eq!(words("jlt"), Ok(0x0022));
    assert_eq!(words("jegt"), Ok(0x002A));
    assert_eq!(words("jelt"), Ok(0x0032));
}

#[test]
fn stack_trap_and_system_instructions() {
    assert_eq!(words("push A"), Ok(0x0003));
    assert_eq!(words("push B"), Ok(0x0043));
    assert_eq!(words("pop C"), Ok(0x008B));
    assert_eq!(words("int #0"), Ok(0x0013));
    assert_eq!(words("int #15"), Ok(0x03D3));
    assert_eq!(words("ret"), Ok(0x001B));
    assert_eq!(words("halt"), Ok(0xFFFF));
    assert_eq!(HALT_WORD, 0xFFFF);
}

#[test]
fn immediate_out_of_range() {
    assert_eq!(words("addi A, #63"), Ok(0x7E01));
    assert_eq!(words("addi A, #64"), Err(range("imm7 out of range (-64..63)")));
    assert_eq!(words("addi A, #0xFFFFFFC0"), Ok(0x8001));
    assert_eq!(
        words("addi A, #0xFFFFFFBF"),
        Err(range("imm7 out of range (-64..63)"))
    );
    assert_eq!(words("int #16"), Err(range("intnum 0\u{2025}15")));
    assert_eq!(words("int #0xFFFFFFFF"), Err(range("intnum 0\u{2025}15")));
}

#[test]
fn label_as_immediate() {
    let mut sym = SymTab::new();
    sym.define("near".to_string(), 12).unwrap();
    sym.define("far".to_string(), 64).unwrap();
    let toks = tokenize("addi B, #near").unwrap();
    assert_eq!(encode(&toks, &sym), Ok((12 << 9) | (1 << 6) | 1));
    let toks = tokenize("int #near").unwrap();
    assert_eq!(encode(&toks, &sym), Ok((12 << 6) | 0b010_011));
    let toks = tokenize("addi B, #far").unwrap();
    assert_eq!(
        encode(&toks, &sym),
        Err(range("imm7 out of range (-64..63)"))
    );
    let toks = tokenize("addi B, #nowhere").unwrap();
    assert_eq!(
        encode(&toks, &sym),
        Err(AsmError::UnknownSymbol("nowhere".to_string()))
    );
}

#[test]
fn operand_errors_come_from_left_to_right() {
    assert_eq!(words("add x, y"), Err(syntax("register expected")));
    assert_eq!(words("add A, 1"), Err(syntax("register expected")));
    assert_eq!(words("addi x, #nowhere"), Err(syntax("register expected")));
    assert_eq!(
        words("addi A, #nowhere"),
        Err(AsmError::UnknownSymbol("nowhere".to_string()))
    );
    assert_eq!(words("addi A, #B"), Err(syntax("immediate/label expected")));
    assert_eq!(words("ld 5"), Err(syntax("register expected")));
    assert_eq!(words("push x"), Err(syntax("register expected")));
    assert_eq!(words("int #A"), Err(syntax("immediate/label expected")));
}

#[test]
fn groups_of_no_shape_are_unsupported() {
    let sym = SymTab::new();
    assert_eq!(encode(&[], &sym), Err(AsmError::UnsupportedInst));
    assert_eq!(words("add"), Err(AsmError::UnsupportedInst));
    assert_eq!(words("add A B C"), Err(AsmError::UnsupportedInst));
    assert_eq!(words("add A, B, C"), Err(AsmError::UnsupportedInst));
    assert_eq!(words("add A : B"), Err(AsmError::UnsupportedInst));
    assert_eq!(words("addi A, 10"), Err(AsmError::UnsupportedInst));
    assert_eq!(words("addi A # , 10"), Err(AsmError::UnsupportedInst));
    assert_eq!(words("ld"), Err(AsmError::UnsupportedInst));
    assert_eq!(words("ld A, B"), Err(AsmError::UnsupportedInst));
    assert_eq!(words("jmp A"), Err(AsmError::UnsupportedInst));
    assert_eq!(words("push"), Err(AsmError::UnsupportedInst));
    assert_eq!(words("int 3"), Err(AsmError::UnsupportedInst));
    assert_eq!(words("int , 3"), Err(AsmError::UnsupportedInst));
    assert_eq!(words("ret A"), Err(AsmError::UnsupportedInst));
    assert_eq!(words("halt halt"), Err(AsmError::UnsupportedInst));
    assert_eq!(words("A"), Err(AsmError::UnsupportedInst));
    assert_eq!(words("label"), Err(AsmError::UnsupportedInst));
    assert_eq!(words("7"), Err(AsmError::UnsupportedInst));
    assert_eq!(words(","), Err(AsmError::UnsupportedInst));
}

#[test]
fn fields_come_back_out_of_the_word() {
    let names = ["A", "B", "C", "D", "E", "SP", "AH", "AL"];
    let r_ops = [
        ("add", 0b0000, 0b000),
        ("sub", 0b1000, 0b000),
        ("or", 0b0000, 0b001),
        ("and", 0b0000, 0b010),
        ("xor", 0b0000, 0b011),
        ("lsl", 0b0000, 0b100),
        ("lsr", 0b0000, 0b101),
        ("asr", 0b1000, 0b101),
        ("cmp", 0b0000, 0b110),
    ];
    for (op, fn4, fn3) in r_ops {
        for (rd, rd_name) in names.iter().enumerate() {
            for (rn, rn_name) in names.iter().enumerate() {
                let word = words(&format!("{} {}, {}", op, rd_name, rn_name)).unwrap();
                assert_eq!(word & 0b111, 0b000);
                assert_eq!((word >> 3) & 0b111, fn3);
                assert_eq!(((word >> 6) & 0b111) as usize, rd);
                assert_eq!(((word >> 9) & 0b111) as usize, rn);
                assert_eq!(word >> 12, fn4);
            }
        }
    }
    let i_ops = ["addi", "ori", "andi", "xori", "lsli", "lsri", "cmpi"];
    for (fn3, op) in i_ops.iter().enumerate() {
        for (rd, rd_name) in names.iter().enumerate() {
            for imm in -64i32..=63 {
                let word = words(&format!("{} {}, #{}", op, rd_name, imm as u32)).unwrap();
                assert_eq!(word & 0b111, 0b001);
                assert_eq!(((word >> 3) & 0b111) as usize, fn3);
                assert_eq!(((word >> 6) & 0b111) as usize, rd);
                let field = (word >> 9) as i32;
                let back = if field >= 64 { field - 128 } else { field };
                assert_eq!(back, imm);
            }
        }
    }
}

#[test]
fn only_halt_gives_the_halt_word() {
    let names = ["A", "B", "C", "D", "E", "SP", "AH", "AL"];
    let mut sources: Vec<String> = Vec::new();
    for op in ["add", "sub", "or", "and", "xor", "lsl", "lsr", "asr", "cmp"] {
        for rd in names {
            for rn in names {
                sources.push(format!("{} {}, {}", op, rd, rn));
            }
        }
    }
    for op in ["addi", "ori", "andi", "xori", "lsli", "lsri", "cmpi"] {
        for rd in names {
            for imm in -64i32..=63 {
                sources.push(format!("{} {}, #{}", op, rd, imm as u32));
            }
        }
    }
    for op in ["ld", "st", "push", "pop"] {
        for r in names {
            sources.push(format!("{} {}", op, r));
        }
    }
    for op in ["jmp", "jeq", "jneq", "jgt", "jlt", "jegt", "jelt", "ret"] {
        sources.push(op.to_string());
    }
    for n in 0..=15 {
        sources.push(format!("int #{}", n));
    }
    for src in &sources {
        assert_ne!(words(src), Ok(0xFFFF));
    }
    assert_eq!(words("halt"), Ok(0xFFFF));
}
