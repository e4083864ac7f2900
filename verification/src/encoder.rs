//! The instruction encoder: one statement's tokens to one 16-bit machine word.
//!
//! | Format | Opcode | Fields, from bit 15 down to bit 0                 |
//! |--------|--------|---------------------------------------------------|
//! | R      | `000`  | fn4(4), rn(3), rd(3), fn3(3), opcode(3)           |
//! | I      | `001`  | imm7(7), rd(3), fn3(3), opcode(3)                 |
//! | J      | `010`  | unused(10), fn3(3), opcode(3)                     |
//! | T      | `011`  | unused(6), register or imm4(4), fn3(3), opcode(3) |
//! | MEM    | `101`  | unused(7), r(3), fn3(3), opcode(3)                |
//!
//! `halt` is the word `0xFFFF`, which no format produces.
//!
//! [`encoding`] says what the word of a token group is; [`encode`] computes
//! it. The laws at the end of the module say that the fields can be read
//! back out of a word, and that different statements have different words.

use crate::error::{result_view, AsmError, AsmErrorView};
use crate::lexer::{is_register_name, token_views, Token, TokenView};
use crate::symtab::SymTab;
use crate::text::same_text;
use vstd::prelude::*;

verus! {

/// Opcode of the register-register format.
pub const OPC_R: u16 = 0b000;

/// Opcode of the register-immediate format.
pub const OPC_I: u16 = 0b001;

/// Opcode of the load/store format.
pub const OPC_MEM: u16 = 0b101;

/// Opcode of the jump format.
pub const OPC_J: u16 = 0b010;

/// Opcode of the stack/trap/system format.
pub const OPC_T: u16 = 0b011;

/// Function code of the software interrupt, in the T format.
pub const FN_INT: u8 = 0b010;

/// Function code of `ret`, in the T format.
pub const FN_RET: u8 = 0b011;

/// The word reserved for `halt`.
pub const HALT_WORD: u16 = 0xFFFF;

/// The 3-bit code of the register called `name`.
pub open spec fn register_code(name: Seq<char>) -> Option<u8> {
    if name == "A"@ {
        Some(0u8)
    } else if name == "B"@ {
        Some(1u8)
    } else if name == "C"@ {
        Some(2u8)
    } else if name == "D"@ {
        Some(3u8)
    } else if name == "E"@ {
        Some(4u8)
    } else if name == "SP"@ {
        Some(5u8)
    } else if name == "AH"@ {
        Some(6u8)
    } else if name == "AL"@ {
        Some(7u8)
    } else {
        None
    }
}

/// The name of the register with the code `code`.
pub open spec fn register_name(code: u8) -> Seq<char> {
    if code == 0 {
        "A"@
    } else if code == 1 {
        "B"@
    } else if code == 2 {
        "C"@
    } else if code == 3 {
        "D"@
    } else if code == 4 {
        "E"@
    } else if code == 5 {
        "SP"@
    } else if code == 6 {
        "AH"@
    } else {
        "AL"@
    }
}

/// The register code that `tok` stands for as a register operand.
pub open spec fn reg_operand(tok: TokenView) -> Result<u8, AsmErrorView> {
    match tok {
        TokenView::Reg(name) => match register_code(name) {
            Some(code) => Ok(code),
            None => Err(AsmErrorView::Syntax("register expected"@)),
        },
        _ => Err(AsmErrorView::Syntax("register expected"@)),
    }
}

/// The number that `tok` stands for as an immediate operand: a literal read as
/// a 32-bit two's-complement number, or the address of a symbol.
pub open spec fn imm_operand(tok: TokenView, sym: Map<Seq<char>, u16>) -> Result<
    i32,
    AsmErrorView,
> {
    match tok {
        TokenView::Number(n) => Ok(
            if n < 0x8000_0000 {
                n as i32
            } else {
                (n - 0x1_0000_0000) as i32
            },
        ),
        TokenView::Ident(name) => if sym.contains_key(name) {
            Ok(sym[name] as i32)
        } else {
            Err(AsmErrorView::UnknownSymbol(name))
        },
        _ => Err(AsmErrorView::Syntax("immediate/label expected"@)),
    }
}

/// The 7-bit field for the signed immediate `val`: its value modulo 128.
pub open spec fn imm7_field(val: i32) -> Result<u16, AsmErrorView> {
    if -64 <= val <= 63 {
        Ok(((val as int) % 128) as u16)
    } else {
        Err(AsmErrorView::Range("imm7 out of range (-64..63)"@))
    }
}

/// The 4-bit field for the trap number `n`.
pub open spec fn trap_field(n: i32) -> Result<u8, AsmErrorView> {
    if 0 <= n <= 15 {
        Ok(n as u8)
    } else {
        Err(AsmErrorView::Range("intnum 0\u{2025}15"@))
    }
}

/// A word of the R format: fn4(4), rn(3), rd(3), fn3(3), opcode(3).
pub open spec fn r_word(fn4: u8, fn3: u8, rd: u8, rn: u8) -> u16 {
    (fn4 * 0x1000 + rn * 0x200 + rd * 0x40 + fn3 * 8 + OPC_R) as u16
}

/// A word of the I format: imm7(7), rd(3), fn3(3), opcode(3).
pub open spec fn i_word(fn3: u8, rd: u8, imm7: u16) -> u16 {
    (imm7 * 0x200 + rd * 0x40 + fn3 * 8 + OPC_I) as u16
}

/// A word of the MEM format: unused(7), r(3), fn3(3), opcode(3).
pub open spec fn mem_word(fn3: u8, r: u8) -> u16 {
    (r * 0x40 + fn3 * 8 + OPC_MEM) as u16
}

/// A word of the J format: unused(10), fn3(3), opcode(3).
pub open spec fn j_word(fn3: u8) -> u16 {
    (fn3 * 8 + OPC_J) as u16
}

/// A word of the T format: unused(6), r-or-imm4(4), fn3(3), opcode(3).
pub open spec fn t_word(fn3: u8, arg: u8) -> u16 {
    (arg * 0x40 + fn3 * 8 + OPC_T) as u16
}

/// The function codes (fn4, fn3) of a register-register mnemonic.
pub open spec fn r_function(mnemonic: TokenView) -> Option<(u8, u8)> {
    match mnemonic {
        TokenView::Add => Some((0b0000u8, 0b000u8)),
        TokenView::Sub => Some((0b1000u8, 0b000u8)),
        TokenView::Or => Some((0b0000u8, 0b001u8)),
        TokenView::And => Some((0b0000u8, 0b010u8)),
        TokenView::Xor => Some((0b0000u8, 0b011u8)),
        TokenView::Lsl => Some((0b0000u8, 0b100u8)),
        TokenView::Lsr => Some((0b0000u8, 0b101u8)),
        TokenView::Asr => Some((0b1000u8, 0b101u8)),
        TokenView::Cmp => Some((0b0000u8, 0b110u8)),
        _ => None,
    }
}

/// The function code of a register-immediate mnemonic.
pub open spec fn i_function(mnemonic: TokenView) -> Option<u8> {
    match mnemonic {
        TokenView::Addi => Some(0b000u8),
        TokenView::Ori => Some(0b001u8),
        TokenView::Andi => Some(0b010u8),
        TokenView::Xori => Some(0b011u8),
        TokenView::Lsli => Some(0b100u8),
        TokenView::Lsri => Some(0b101u8),
        TokenView::Cmpi => Some(0b110u8),
        _ => None,
    }
}

/// The function code of a load/store mnemonic.
pub open spec fn mem_function(mnemonic: TokenView) -> Option<u8> {
    match mnemonic {
        TokenView::Ld => Some(0b000u8),
        TokenView::St => Some(0b001u8),
        _ => None,
    }
}

/// The function code of a jump mnemonic.
pub open spec fn j_function(mnemonic: TokenView) -> Option<u8> {
    match mnemonic {
        TokenView::Jmp => Some(0b000u8),
        TokenView::Jeq => Some(0b001u8),
        TokenView::Jneq => Some(0b010u8),
        TokenView::Jgt => Some(0b011u8),
        TokenView::Jlt => Some(0b100u8),
        TokenView::Jegt => Some(0b101u8),
        TokenView::Jelt => Some(0b110u8),
        _ => None,
    }
}

/// The function code of a stack mnemonic that takes a register.
pub open spec fn stack_function(mnemonic: TokenView) -> Option<u8> {
    match mnemonic {
        TokenView::Push => Some(0b000u8),
        TokenView::Pop => Some(0b001u8),
        _ => None,
    }
}

/// A machine instruction, as the fields of its word.
pub enum Instr {
    R { fn4: u8, fn3: u8, rd: u8, rn: u8 },
    I { fn3: u8, rd: u8, imm: i32 },
    Mem { fn3: u8, r: u8 },
    J { fn3: u8 },
    T { fn3: u8, arg: u8 },
    Halt,
}

impl Instr {
    /// Whether each field fits the width that its format gives it.
    pub open spec fn well_formed(self) -> bool {
        match self {
            Instr::R { fn4, fn3, rd, rn } => fn4 < 16 && fn3 < 8 && rd < 8 && rn < 8,
            Instr::I { fn3, rd, imm } => fn3 < 8 && rd < 8 && -64 <= imm <= 63,
            Instr::Mem { fn3, r } => fn3 < 8 && r < 8,
            Instr::J { fn3 } => fn3 < 8,
            Instr::T { fn3, arg } => fn3 < 8 && arg < 16,
            Instr::Halt => true,
        }
    }

    /// The word that holds the instruction.
    pub open spec fn word(self) -> u16 {
        match self {
            Instr::R { fn4, fn3, rd, rn } => r_word(fn4, fn3, rd, rn),
            Instr::I { fn3, rd, imm } => i_word(fn3, rd, ((imm as int) % 128) as u16),
            Instr::Mem { fn3, r } => mem_word(fn3, r),
            Instr::J { fn3 } => j_word(fn3),
            Instr::T { fn3, arg } => t_word(fn3, arg),
            Instr::Halt => HALT_WORD,
        }
    }
}

/// The instruction that the token group `group` writes down, with the symbols
/// of `sym` for its labels.
pub open spec fn instruction_of(group: Seq<TokenView>, sym: Map<Seq<char>, u16>) -> Result<
    Instr,
    AsmErrorView,
> {
    if group.len() == 4 && r_function(group[0]) is Some && group[2] is Comma {
        let (fn4, fn3) = r_function(group[0])->0;
        match reg_operand(group[1]) {
            Err(e) => Err(e),
            Ok(rd) => match reg_operand(group[3]) {
                Err(e) => Err(e),
                Ok(rn) => Ok(Instr::R { fn4, fn3, rd, rn }),
            },
        }
    } else if group.len() == 5 && i_function(group[0]) is Some && group[2] is Comma
        && group[3] is Hash {
        let fn3 = i_function(group[0])->0;
        match reg_operand(group[1]) {
            Err(e) => Err(e),
            Ok(rd) => match imm_operand(group[4], sym) {
                Err(e) => Err(e),
                Ok(imm) => match imm7_field(imm) {
                    Err(e) => Err(e),
                    Ok(_) => Ok(Instr::I { fn3, rd, imm }),
                },
            },
        }
    } else if group.len() == 2 && mem_function(group[0]) is Some {
        match reg_operand(group[1]) {
            Err(e) => Err(e),
            Ok(r) => Ok(Instr::Mem { fn3: mem_function(group[0])->0, r }),
        }
    } else if group.len() == 1 && j_function(group[0]) is Some {
        Ok(Instr::J { fn3: j_function(group[0])->0 })
    } else if group.len() == 2 && stack_function(group[0]) is Some {
        match reg_operand(group[1]) {
            Err(e) => Err(e),
            Ok(r) => Ok(Instr::T { fn3: stack_function(group[0])->0, arg: r }),
        }
    } else if group.len() == 3 && group[0] is Int && group[1] is Hash {
        match imm_operand(group[2], sym) {
            Err(e) => Err(e),
            Ok(n) => match trap_field(n) {
                Err(e) => Err(e),
                Ok(imm4) => Ok(Instr::T { fn3: FN_INT, arg: imm4 }),
            },
        }
    } else if group.len() == 1 && group[0] is Ret {
        Ok(Instr::T { fn3: FN_RET, arg: 0 })
    } else if group.len() == 1 && group[0] is Halt {
        Ok(Instr::Halt)
    } else {
        Err(AsmErrorView::UnsupportedInst)
    }
}

/// The machine word for the token group `group`.
pub open spec fn encoding(group: Seq<TokenView>, sym: Map<Seq<char>, u16>) -> Result<
    u16,
    AsmErrorView,
> {
    match instruction_of(group, sym) {
        Ok(instruction) => Ok(instruction.word()),
        Err(e) => Err(e),
    }
}

/// The signed number that a 7-bit field holds in two's complement.
pub open spec fn signed7(field: u16) -> i32 {
    if field < 64 {
        field as i32
    } else {
        (field - 128) as i32
    }
}

/// The fields of `word`, read by the format that its opcode names. `None`
/// where the opcode names no format.
pub open spec fn fields_of(word: u16) -> Option<Instr> {
    let opcode = word % 8;
    let fn3 = (word / 8 % 8) as u8;
    let low = (word / 0x40 % 8) as u8;
    if word == HALT_WORD {
        Some(Instr::Halt)
    } else if opcode == OPC_R {
        Some(
            Instr::R { fn4: (word / 0x1000) as u8, fn3, rd: low, rn: (word / 0x200 % 8) as u8 },
        )
    } else if opcode == OPC_I {
        Some(Instr::I { fn3, rd: low, imm: signed7(word / 0x200) })
    } else if opcode == OPC_MEM {
        Some(Instr::Mem { fn3, r: low })
    } else if opcode == OPC_J {
        Some(Instr::J { fn3 })
    } else if opcode == OPC_T {
        Some(Instr::T { fn3, arg: (word / 0x40 % 16) as u8 })
    } else {
        None
    }
}

/// The code of a register operand: the token must be a register token with
/// one of the eight names, each of which has a code of its own.
pub fn reg_code(tok: &Token) -> (r: Result<u8, AsmError>)
    ensures
        result_view(r) == reg_operand(tok@),
        r is Ok <==> tok@ is Reg && is_register_name(tok@->Reg_0),
        r matches Ok(code) ==> code < 8 && register_name(code) == tok@->Reg_0,
{
    proof {
        if tok@ is Reg {
            lemma_register_codes_bijective(tok@->Reg_0, 0);
        }
    }
    match tok {
        Token::Reg(name) => {
            let name = name.as_str();
            if same_text(name, "A") {
                Ok(0)
            } else if same_text(name, "B") {
                Ok(1)
            } else if same_text(name, "C") {
                Ok(2)
            } else if same_text(name, "D") {
                Ok(3)
            } else if same_text(name, "E") {
                Ok(4)
            } else if same_text(name, "SP") {
                Ok(5)
            } else if same_text(name, "AH") {
                Ok(6)
            } else if same_text(name, "AL") {
                Ok(7)
            } else {
                Err(AsmError::Syntax("register expected".to_owned()))
            }
        },
        _ => Err(AsmError::Syntax("register expected".to_owned())),
    }
}

/// The value of an immediate operand.
pub fn parse_imm(tok: &Token, sym: &SymTab) -> (r: Result<i32, AsmError>)
    ensures
        result_view(r) == imm_operand(tok@, sym@),
{
    match tok {
        Token::Number(n) => {
            let n = *n;
            let val = #[verifier::truncate] (n as i32);
            assert(val == if n < 0x8000_0000 {
                n as int
            } else {
                n - 0x1_0000_0000
            }) by (bit_vector)
                requires
                    val == n as i32,
            ;
            Ok(val)
        },
        Token::Ident(name) => match sym.get(name.as_str()) {
            Some(addr) => Ok(addr as i32),
            None => Err(AsmError::UnknownSymbol(name.clone())),
        },
        _ => Err(AsmError::Syntax("immediate/label expected".to_owned())),
    }
}

/// The low seven bits of a signed immediate in `[-64, 63]`.
pub fn imm7_bits(val: i32) -> (r: Result<u16, AsmError>)
    ensures
        result_view(r) == imm7_field(val),
{
    if val < -64 || val > 63 {
        return Err(AsmError::Range("imm7 out of range (-64..63)".to_owned()));
    }
    let bits = ((val as i16) & 0x7F) as u16;
    assert(bits == (val as int) % 128) by (bit_vector)
        requires
            -64 <= val <= 63,
            bits == ((val as i16) & 0x7F) as u16,
    ;
    Ok(bits)
}

/// Packs a word of the R format.
pub fn enc_r(fn4: u8, fn3: u8, rd: u8, rn: u8) -> (word: u16)
    requires
        fn4 < 16,
        fn3 < 8,
        rd < 8,
        rn < 8,
    ensures
        word == r_word(fn4, fn3, rd, rn),
{
    let word = ((fn4 as u16) << 12) | ((rn as u16) << 9) | ((rd as u16) << 6) | ((fn3 as u16) << 3)
        | OPC_R;
    assert(word == fn4 * 0x1000 + rn * 0x200 + rd * 0x40 + fn3 * 8 + 0) by (bit_vector)
        requires
            fn4 < 16,
            fn3 < 8,
            rd < 8,
            rn < 8,
            word == ((fn4 as u16) << 12) | ((rn as u16) << 9) | ((rd as u16) << 6) | ((fn3 as u16)
                << 3) | 0u16,
    ;
    word
}

/// Packs a word of the I format around the immediate `imm`.
pub fn enc_i(fn3: u8, rd: u8, imm: i32) -> (r: Result<u16, AsmError>)
    requires
        fn3 < 8,
        rd < 8,
    ensures
        result_view(r) == (match imm7_field(imm) {
            Ok(imm7) => Ok(i_word(fn3, rd, imm7)),
            Err(e) => Err(e),
        }),
{
    let imm7 = imm7_bits(imm)?;
    let word = (imm7 << 9) | ((rd as u16) << 6) | ((fn3 as u16) << 3) | OPC_I;
    assert(word == imm7 * 0x200 + rd * 0x40 + fn3 * 8 + 1) by (bit_vector)
        requires
            imm7 < 128,
            fn3 < 8,
            rd < 8,
            word == (imm7 << 9) | ((rd as u16) << 6) | ((fn3 as u16) << 3) | 1u16,
    ;
    Ok(word)
}

/// Packs a word of the MEM format.
pub fn enc_mem(fn3: u8, r: u8) -> (word: u16)
    requires
        fn3 < 8,
        r < 8,
    ensures
        word == mem_word(fn3, r),
{
    let word = ((r as u16) << 6) | ((fn3 as u16) << 3) | OPC_MEM;
    assert(word == r * 0x40 + fn3 * 8 + 5) by (bit_vector)
        requires
            fn3 < 8,
            r < 8,
            word == ((r as u16) << 6) | ((fn3 as u16) << 3) | 5u16,
    ;
    word
}

/// Packs a word of the J format.
pub fn enc_j(fn3: u8) -> (word: u16)
    requires
        fn3 < 8,
    ensures
        word == j_word(fn3),
{
    let word = ((fn3 as u16) << 3) | OPC_J;
    assert(word == fn3 * 8 + 2) by (bit_vector)
        requires
            fn3 < 8,
            word == ((fn3 as u16) << 3) | 2u16,
    ;
    word
}

/// Packs a word of the T format.
pub fn enc_t(fn3: u8, r: u8) -> (word: u16)
    requires
        fn3 < 8,
        r < 16,
    ensures
        word == t_word(fn3, r),
{
    let word = ((r as u16) << 6) | ((fn3 as u16) << 3) | OPC_T;
    assert(word == r * 0x40 + fn3 * 8 + 3) by (bit_vector)
        requires
            fn3 < 8,
            r < 16,
            word == ((r as u16) << 6) | ((fn3 as u16) << 3) | 3u16,
    ;
    word
}

/// Packs the software interrupt with trap number `n`.
pub fn enc_t_int(n: i32) -> (r: Result<u16, AsmError>)
    ensures
        result_view(r) == (match trap_field(n) {
            Ok(imm4) => Ok(t_word(FN_INT, imm4)),
            Err(e) => Err(e),
        }),
{
    if n < 0 || n > 15 {
        return Err(AsmError::Range("intnum 0\u{2025}15".to_owned()));
    }
    Ok(enc_t(FN_INT, n as u8))
}

fn r_function_of(mnemonic: &Token) -> (codes: Option<(u8, u8)>)
    ensures
        codes == r_function(mnemonic@),
{
    match mnemonic {
        Token::Add => Some((0b0000, 0b000)),
        Token::Sub => Some((0b1000, 0b000)),
        Token::Or => Some((0b0000, 0b001)),
        Token::And => Some((0b0000, 0b010)),
        Token::Xor => Some((0b0000, 0b011)),
        Token::Lsl => Some((0b0000, 0b100)),
        Token::Lsr => Some((0b0000, 0b101)),
        Token::Asr => Some((0b1000, 0b101)),
        Token::Cmp => Some((0b0000, 0b110)),
        _ => None,
    }
}

fn i_function_of(mnemonic: &Token) -> (code: Option<u8>)
    ensures
        code == i_function(mnemonic@),
{
    match mnemonic {
        Token::Addi => Some(0b000),
        Token::Ori => Some(0b001),
        Token::Andi => Some(0b010),
        Token::Xori => Some(0b011),
        Token::Lsli => Some(0b100),
        Token::Lsri => Some(0b101),
        Token::Cmpi => Some(0b110),
        _ => None,
    }
}

fn mem_function_of(mnemonic: &Token) -> (code: Option<u8>)
    ensures
        code == mem_function(mnemonic@),
{
    match mnemonic {
        Token::Ld => Some(0b000),
        Token::St => Some(0b001),
        _ => None,
    }
}

fn j_function_of(mnemonic: &Token) -> (code: Option<u8>)
    ensures
        code == j_function(mnemonic@),
{
    match mnemonic {
        Token::Jmp => Some(0b000),
        Token::Jeq => Some(0b001),
        Token::Jneq => Some(0b010),
        Token::Jgt => Some(0b011),
        Token::Jlt => Some(0b100),
        Token::Jegt => Some(0b101),
        Token::Jelt => Some(0b110),
        _ => None,
    }
}

fn stack_function_of(mnemonic: &Token) -> (code: Option<u8>)
    ensures
        code == stack_function(mnemonic@),
{
    match mnemonic {
        Token::Push => Some(0b000),
        Token::Pop => Some(0b001),
        _ => None,
    }
}

/// Encodes one instruction statement.
///
/// The statement is held against the instruction shapes in turn: mnemonic,
/// operands and punctuation must all agree with one of them. Operands are
/// read from left to right, and the first that fails decides the error. The
/// fields of the instruction can be read back out of the word, and the word
/// is `0xFFFF` for `halt` and for nothing else.
pub fn encode(toks: &[Token], sym: &SymTab) -> (r: Result<u16, AsmError>)
    ensures
        result_view(r) == encoding(token_views(toks@), sym@),
        r matches Ok(word) ==> instruction_of(token_views(toks@), sym@) matches Ok(instruction)
            && fields_of(word) == Some(instruction),
        (r matches Ok(word) && word == HALT_WORD) <==> token_views(toks@) == seq![TokenView::Halt],
{
    proof {
        lemma_encoding_keeps_fields(token_views(toks@), sym@);
        lemma_halt_word(token_views(toks@), sym@);
    }
    let n = toks.len();
    if n == 4 {
        if let Some((fn4, fn3)) = r_function_of(&toks[0]) {
            if let Token::Comma = &toks[2] {
                let rd = reg_code(&toks[1])?;
                let rn = reg_code(&toks[3])?;
                return Ok(enc_r(fn4, fn3, rd, rn));
            }
        }
    } else if n == 5 {
        if let Some(fn3) = i_function_of(&toks[0]) {
            if let (Token::Comma, Token::Hash) = (&toks[2], &toks[3]) {
                let rd = reg_code(&toks[1])?;
                let imm = parse_imm(&toks[4], sym)?;
                return enc_i(fn3, rd, imm);
            }
        }
    } else if n == 2 {
        if let Some(fn3) = mem_function_of(&toks[0]) {
            let r = reg_code(&toks[1])?;
            return Ok(enc_mem(fn3, r));
        }
        if let Some(fn3) = stack_function_of(&toks[0]) {
            let r = reg_code(&toks[1])?;
            return Ok(enc_t(fn3, r));
        }
    } else if n == 3 {
        if let (Token::Int, Token::Hash) = (&toks[0], &toks[1]) {
            let num = parse_imm(&toks[2], sym)?;
            return enc_t_int(num);
        }
    } else if n == 1 {
        if let Some(fn3) = j_function_of(&toks[0]) {
            return Ok(enc_j(fn3));
        }
        match &toks[0] {
            Token::Ret => {
                return Ok(enc_t(FN_RET, 0));
            },
            Token::Halt => {
                return Ok(HALT_WORD);
            },
            _ => {},
        }
    }
    Err(AsmError::UnsupportedInst)
}

/// Each of the eight codes is the code of its name: the names differ.
proof fn lemma_register_names_differ()
    ensures
        forall|code: u8| code < 8 ==> register_code(#[trigger] register_name(code)) == Some(code),
{
    reveal_strlit("A");
    reveal_strlit("B");
    reveal_strlit("C");
    reveal_strlit("D");
    reveal_strlit("E");
    reveal_strlit("SP");
    reveal_strlit("AH");
    reveal_strlit("AL");
    assert("A"@[0] == 'A' && "B"@[0] == 'B' && "C"@[0] == 'C' && "D"@[0] == 'D' && "E"@[0]
        == 'E');
    assert("SP"@[0] == 'S' && "AH"@[1] == 'H' && "AL"@[1] == 'L');
    assert("A"@.len() == 1 && "SP"@.len() == 2 && "AH"@.len() == 2 && "AL"@.len() == 2);
}

/// Register names and register codes correspond one to one: a name has a
/// code exactly where it is one of the eight names, that code is below 8 and
/// belongs to no other name, and each code below 8 is the code of its name.
pub proof fn lemma_register_codes_bijective(name: Seq<char>, code: u8)
    ensures
        register_code(name) is Some <==> is_register_name(name),
        register_code(name) == Some(code) <==> code < 8 && register_name(code) == name,
{
    lemma_register_names_differ();
}

/// As a register operand, a token has a code exactly where it is a register
/// token with one of the eight names; any other token is a syntax error.
pub proof fn lemma_reg_operand_total(tok: TokenView)
    ensures
        reg_operand(tok) is Ok <==> tok is Reg && is_register_name(tok->Reg_0),
        reg_operand(tok) is Err ==> reg_operand(tok) == Err::<u8, AsmErrorView>(
            AsmErrorView::Syntax("register expected"@),
        ),
{
}

/// The instruction that a token group writes down is well formed.
pub proof fn lemma_instruction_well_formed(group: Seq<TokenView>, sym: Map<Seq<char>, u16>)
    ensures
        instruction_of(group, sym) matches Ok(instruction) ==> instruction.well_formed(),
{
}

/// Reading the fields of an instruction's word gives the instruction back:
/// opcode, function bits, registers and immediate are those that went in.
pub proof fn lemma_fields_of_word(instruction: Instr)
    requires
        instruction.well_formed(),
    ensures
        fields_of(instruction.word()) == Some(instruction),
{
    match instruction {
        Instr::R { fn4, fn3, rd, rn } => {
            let word = r_word(fn4, fn3, rd, rn);
            assert(word % 8 == 0 && word / 8 % 8 == fn3 && word / 0x40 % 8 == rd && word / 0x200
                % 8 == rn && word / 0x1000 == fn4 && word != 0xFFFF) by (bit_vector)
                requires
                    fn4 < 16 && fn3 < 8 && rd < 8 && rn < 8,
                    word == (fn4 * 0x1000 + rn * 0x200 + rd * 0x40 + fn3 * 8 + 0) as u16,
            ;
        },
        Instr::I { fn3, rd, imm } => {
            let imm7 = ((imm as int) % 128) as u16;
            assert(imm7 < 128 && signed7(imm7) == imm);
            let word = i_word(fn3, rd, imm7);
            assert(word % 8 == 1 && word / 8 % 8 == fn3 && word / 0x40 % 8 == rd && word / 0x200
                == imm7 && word != 0xFFFF) by (bit_vector)
                requires
                    imm7 < 128 && fn3 < 8 && rd < 8,
                    word == (imm7 * 0x200 + rd * 0x40 + fn3 * 8 + 1) as u16,
            ;
        },
        Instr::Mem { fn3, r } => {
            let word = mem_word(fn3, r);
            assert(word % 8 == 5 && word / 8 % 8 == fn3 && word / 0x40 % 8 == r && word != 0xFFFF)
                by (bit_vector)
                requires
                    fn3 < 8 && r < 8,
                    word == (r * 0x40 + fn3 * 8 + 5) as u16,
            ;
        },
        Instr::J { fn3 } => {
            let word = j_word(fn3);
            assert(word % 8 == 2 && word / 8 % 8 == fn3 && word != 0xFFFF) by (bit_vector)
                requires
                    fn3 < 8,
                    word == (fn3 * 8 + 2) as u16,
            ;
        },
        Instr::T { fn3, arg } => {
            let word = t_word(fn3, arg);
            assert(word % 8 == 3 && word / 8 % 8 == fn3 && word / 0x40 % 16 == arg && word
                != 0xFFFF) by (bit_vector)
                requires
                    fn3 < 8 && arg < 16,
                    word == (arg * 0x40 + fn3 * 8 + 3) as u16,
            ;
        },
        Instr::Halt => {},
    }
}

/// Encoding a token group and then reading the fields of the word gives back
/// the instruction that the group writes down.
pub proof fn lemma_encoding_keeps_fields(group: Seq<TokenView>, sym: Map<Seq<char>, u16>)
    ensures
        instruction_of(group, sym) matches Ok(instruction) ==> encoding(group, sym) == Ok::<
            u16,
            AsmErrorView,
        >(instruction.word()) && fields_of(instruction.word()) == Some(instruction),
{
    lemma_instruction_well_formed(group, sym);
    if instruction_of(group, sym) is Ok {
        lemma_fields_of_word(instruction_of(group, sym)->Ok_0);
    }
}

/// `halt`, and nothing else, encodes to the all-ones word.
pub proof fn lemma_halt_word(group: Seq<TokenView>, sym: Map<Seq<char>, u16>)
    ensures
        encoding(group, sym) == Ok::<u16, AsmErrorView>(HALT_WORD) <==> group == seq![
            TokenView::Halt,
        ],
{
    lemma_encoding_keeps_fields(group, sym);
    if group.len() == 1 && group[0] is Halt {
        assert(group =~= seq![TokenView::Halt]);
    }
}

/// A word is the word of one statement only: two token groups that encode to
/// the same word write down the same instruction, and are the same token for
/// token but for an immediate operand, which may be spelled in more than one
/// way and stands for the same number in both.
pub proof fn lemma_encoding_injective(
    a: Seq<TokenView>,
    b: Seq<TokenView>,
    sym: Map<Seq<char>, u16>,
)
    requires
        encoding(a, sym) is Ok,
        encoding(a, sym) == encoding(b, sym),
    ensures
        instruction_of(a, sym) == instruction_of(b, sym),
        a.len() == b.len(),
        forall|k: int|
            0 <= k < a.len() ==> a[k] == b[k] || (imm_operand(#[trigger] a[k], sym) is Ok
                && imm_operand(a[k], sym) == imm_operand(b[k], sym)),
{
    lemma_encoding_keeps_fields(a, sym);
    lemma_encoding_keeps_fields(b, sym);
    let instruction = instruction_of(a, sym)->Ok_0;
    assert(instruction_of(b, sym) == Ok::<Instr, AsmErrorView>(instruction));
    assert forall|k: int| 0 <= k < a.len() implies a[k] == b[k] || (imm_operand(
        #[trigger] a[k],
        sym,
    ) is Ok && imm_operand(a[k], sym) == imm_operand(b[k], sym)) by {
        assert(a[0] == b[0]);
        if a[k] is Reg {
            assert(register_code(a[k]->Reg_0) == register_code(b[k]->Reg_0));
            assert(a[k]->Reg_0 == b[k]->Reg_0);
        }
    }
}

} // verus!
