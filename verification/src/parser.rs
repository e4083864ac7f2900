//! The two passes: layout resolution, then emission.
//!
//! The first pass ([`first_pass`], specified by [`layout`]) cuts the tokens
//! into items and binds labels; the second ([`second_pass`], specified by
//! [`emission`]) turns the items into a data segment and a code segment. The
//! laws at the end of the module say what the two have to do with each other:
//! what a label stands for, that no label is defined twice, and that a
//! reference resolves wherever the definition stands.

use crate::encoder::{
    encode, encoding, fields_of, imm_operand, lemma_encoding_keeps_fields, Instr,
};
use crate::error::{result_view, AsmError, AsmErrorView};
use crate::image::append;
use crate::lexer::{token_views, Token, TokenView};
use crate::symtab::SymTab;
use crate::text::same_text;
use vstd::prelude::*;
use vstd::utf8::encode_utf8;

verus! {

/// One recognized construct of the source, in source order.
#[derive(Debug, PartialEq, Eq)]
pub enum Item {
    /// The tokens of one instruction statement.
    Inst(Vec<Token>),
    /// `.org <addr>`
    Org(u16),
    /// `.byte <value>`
    Byte(u8),
    /// `.ascii "text"`
    Ascii(String),
    /// `<label>:`
    Label(String),
}

/// The mathematical value of an [`Item`].
#[verifier::ext_equal]
pub enum ItemView {
    Inst(Seq<TokenView>),
    Org(u16),
    Byte(u8),
    Ascii(Seq<char>),
    Label(Seq<char>),
}

impl View for Item {
    type V = ItemView;

    open spec fn view(&self) -> ItemView {
        match self {
            Item::Inst(tokens) => ItemView::Inst(token_views(tokens@)),
            Item::Org(addr) => ItemView::Org(*addr),
            Item::Byte(value) => ItemView::Byte(*value),
            Item::Ascii(text) => ItemView::Ascii(text@),
            Item::Label(name) => ItemView::Label(name@),
        }
    }
}

/// The values of a sequence of items, one by one.
pub open spec fn item_views(items: Seq<Item>) -> Seq<ItemView> {
    items.map_values(|item: Item| item@)
}

/// What the first pass hands to the second: the symbol table and the items.
pub struct FirstPassResult {
    pub symbols: SymTab,
    pub items: Vec<Item>,
}

/// The mathematical value of a [`FirstPassResult`].
#[verifier::ext_equal]
pub struct FirstPassView {
    pub symbols: Map<Seq<char>, u16>,
    pub items: Seq<ItemView>,
}

impl View for FirstPassResult {
    type V = FirstPassView;

    open spec fn view(&self) -> FirstPassView {
        FirstPassView { symbols: self.symbols@, items: item_views(self.items@) }
    }
}

/// The number of tokens in the statement that `first` opens. The instruction
/// set fixes it for each mnemonic; any other token stands alone.
pub open spec fn statement_len(first: TokenView) -> int {
    match first {
        TokenView::Add
        | TokenView::Sub
        | TokenView::Or
        | TokenView::And
        | TokenView::Xor
        | TokenView::Lsl
        | TokenView::Lsr
        | TokenView::Asr
        | TokenView::Cmp => 4,
        TokenView::Addi
        | TokenView::Ori
        | TokenView::Andi
        | TokenView::Xori
        | TokenView::Lsli
        | TokenView::Lsri
        | TokenView::Cmpi => 5,
        TokenView::Ld | TokenView::St | TokenView::Push | TokenView::Pop => 2,
        TokenView::Int => 3,
        _ => 1,
    }
}

/// The state of the layout scan after one more construct, and the number of
/// tokens that the construct took.
pub struct LayoutStep {
    pub pc: u16,
    pub out: FirstPassView,
    pub taken: int,
}

/// Whether a label definition stands at `i`: an identifier and then a colon.
pub open spec fn label_at(tokens: Seq<TokenView>, i: int) -> bool {
    &&& tokens[i] is Ident
    &&& i + 1 < tokens.len()
    &&& tokens[i + 1] is Colon
}

/// The effect of the directive whose `.` stands at `i`.
pub open spec fn directive_step(tokens: Seq<TokenView>, i: int, pc: u16, out: FirstPassView)
    -> Result<LayoutStep, AsmErrorView> {
    if !(i + 1 < tokens.len() && tokens[i + 1] is Ident) {
        Err(AsmErrorView::Syntax(".<directive> expected"@))
    } else {
        let name = tokens[i + 1]->Ident_0;
        let has_operand = i + 2 < tokens.len();
        let operand = tokens[i + 2];
        if name == "org"@ {
            if has_operand && operand is Number {
                let addr = (operand->Number_0 % 0x1_0000) as u16;
                Ok(
                    LayoutStep {
                        pc: addr,
                        out: FirstPassView {
                            symbols: out.symbols,
                            items: out.items.push(ItemView::Org(addr)),
                        },
                        taken: 3,
                    },
                )
            } else {
                Err(AsmErrorView::Syntax(".org <number>"@))
            }
        } else if name == "byte"@ {
            if has_operand && operand is Number {
                let value = (operand->Number_0 % 0x100) as u8;
                if pc + 1 > 0xFFFF {
                    Err(AsmErrorView::Overflow)
                } else {
                    Ok(
                        LayoutStep {
                            pc: (pc + 1) as u16,
                            out: FirstPassView {
                                symbols: out.symbols,
                                items: out.items.push(ItemView::Byte(value)),
                            },
                            taken: 3,
                        },
                    )
                }
            } else {
                Err(AsmErrorView::Syntax(".byte <number>"@))
            }
        } else if name == "ascii"@ {
            if has_operand && operand is String {
                let text = operand->String_0;
                if pc + encode_utf8(text).len() > 0xFFFF {
                    Err(AsmErrorView::Overflow)
                } else {
                    Ok(
                        LayoutStep {
                            pc: (pc + encode_utf8(text).len()) as u16,
                            out: FirstPassView {
                                symbols: out.symbols,
                                items: out.items.push(ItemView::Ascii(text)),
                            },
                            taken: 3,
                        },
                    )
                }
            } else {
                Err(AsmErrorView::Syntax(".ascii \"...\""@))
            }
        } else {
            Err(AsmErrorView::UnknownDirective(name))
        }
    }
}

/// The effect of the construct that starts at `i`, for `0 <= i < tokens.len()`.
pub open spec fn layout_step(tokens: Seq<TokenView>, i: int, pc: u16, out: FirstPassView)
    -> Result<LayoutStep, AsmErrorView> {
    if label_at(tokens, i) {
        let name = tokens[i]->Ident_0;
        if out.symbols.contains_key(name) {
            Err(AsmErrorView::DuplicateLabel(name))
        } else {
            Ok(
                LayoutStep {
                    pc,
                    out: FirstPassView {
                        symbols: out.symbols.insert(name, pc),
                        items: out.items.push(ItemView::Label(name)),
                    },
                    taken: 2,
                },
            )
        }
    } else if tokens[i] is Dot {
        directive_step(tokens, i, pc, out)
    } else {
        let len = statement_len(tokens[i]);
        if i + len > tokens.len() {
            Err(AsmErrorView::UnexpectedEof)
        } else if pc + 2 > 0xFFFF {
            Err(AsmErrorView::Overflow)
        } else {
            Ok(
                LayoutStep {
                    pc: (pc + 2) as u16,
                    out: FirstPassView {
                        symbols: out.symbols,
                        items: out.items.push(ItemView::Inst(tokens.subrange(i, i + len))),
                    },
                    taken: len,
                },
            )
        }
    }
}

/// The outcome of the layout scan from token `i` on, when the scan so far has
/// brought the program counter to `pc` and produced `out`.
pub open spec fn layout_from(tokens: Seq<TokenView>, i: int, pc: u16, out: FirstPassView)
    -> Result<FirstPassView, AsmErrorView>
    decreases tokens.len() - i,
{
    if i < 0 || i >= tokens.len() {
        Ok(out)
    } else {
        match layout_step(tokens, i, pc, out) {
            Err(e) => Err(e),
            Ok(step) => layout_from(tokens, i + step.taken, step.pc, step.out),
        }
    }
}

/// The outcome of the first pass on `tokens`.
pub open spec fn layout(tokens: Seq<TokenView>) -> Result<FirstPassView, AsmErrorView> {
    layout_from(
        tokens,
        0,
        0,
        FirstPassView { symbols: Map::empty(), items: Seq::empty() },
    )
}

/// The value of the first pass's program counter after `items`, as long as
/// the counter stays within 16 bits.
pub open spec fn counter_after(items: Seq<ItemView>) -> int
    decreases items.len(),
{
    if items.len() == 0 {
        0
    } else {
        let before = counter_after(items.drop_last());
        match items.last() {
            ItemView::Inst(_) => before + 2,
            ItemView::Org(addr) => addr as int,
            ItemView::Byte(_) => before + 1,
            ItemView::Ascii(text) => before + encode_utf8(text).len(),
            ItemView::Label(_) => before,
        }
    }
}

/// Whether item `k` of `items` defines the label `name`.
pub open spec fn defines(items: Seq<ItemView>, k: int, name: Seq<char>) -> bool {
    0 <= k < items.len() && items[k] == ItemView::Label(name)
}

/// Whether the symbol table of `out` is that of its items: each label is
/// defined by one item only, stands in the table for the value that the
/// program counter has before that item, and the table holds no other name.
pub open spec fn labels_resolved(out: FirstPassView) -> bool {
    &&& forall|k: int, name: Seq<char>| #[trigger]
        defines(out.items, k, name) ==> out.symbols.contains_key(name) && out.symbols[name]
            == counter_after(out.items.take(k))
    &&& forall|name: Seq<char>| #[trigger]
        out.symbols.contains_key(name) ==> exists|k: int| defines(out.items, k, name)
    &&& forall|j: int, k: int, name: Seq<char>|
        #[trigger] defines(out.items, j, name) && #[trigger] defines(out.items, k, name) ==> j
            == k
}

/// Whether the first pass's program counter is within 16 bits after each
/// item of `items`.
pub open spec fn counter_in_range(items: Seq<ItemView>) -> bool {
    forall|k: int| 0 <= k <= items.len() ==> 0 <= #[trigger] counter_after(items.take(k)) <= 0xFFFF
}

/// `code`, with zero bytes after it where it is shorter than `len`.
pub open spec fn zero_extended(code: Seq<u8>, len: int) -> Seq<u8> {
    if code.len() >= len {
        code
    } else {
        code + Seq::new((len - code.len()) as nat, |i: int| 0u8)
    }
}

/// `code`, with `word` at offset `pc`, most significant byte first, and with
/// zero bytes in the gap where `code` ended before `pc`.
pub open spec fn word_placed(code: Seq<u8>, pc: int, word: u16) -> Seq<u8> {
    zero_extended(code, pc + 2).update(pc, (word / 0x100) as u8).update(
        pc + 1,
        (word % 0x100) as u8,
    )
}

/// The outcome of the emission from item `k` on, when the emission so far has
/// brought the program counter to `pc` and produced `data` and `code`.
pub open spec fn emission_from(
    pass1: FirstPassView,
    k: int,
    pc: u16,
    data: Seq<u8>,
    code: Seq<u8>,
) -> Result<(Seq<u8>, Seq<u8>), AsmErrorView>
    decreases pass1.items.len() - k,
{
    if k < 0 || k >= pass1.items.len() {
        Ok((data, code))
    } else {
        match pass1.items[k] {
            ItemView::Inst(group) => match encoding(group, pass1.symbols) {
                Err(e) => Err(e),
                Ok(word) => if pc + 2 > 0xFFFF {
                    Err(AsmErrorView::Overflow)
                } else {
                    emission_from(
                        pass1,
                        k + 1,
                        (pc + 2) as u16,
                        data,
                        word_placed(code, pc as int, word),
                    )
                },
            },
            ItemView::Org(addr) => emission_from(
                pass1,
                k + 1,
                addr,
                data,
                zero_extended(code, addr as int),
            ),
            ItemView::Byte(value) => emission_from(pass1, k + 1, pc, data.push(value), code),
            ItemView::Ascii(text) => emission_from(
                pass1,
                k + 1,
                pc,
                data + encode_utf8(text),
                code,
            ),
            ItemView::Label(_) => emission_from(pass1, k + 1, pc, data, code),
        }
    }
}

/// The outcome of the second pass on `pass1`: the data segment and the code
/// segment.
pub open spec fn emission(pass1: FirstPassView) -> Result<(Seq<u8>, Seq<u8>), AsmErrorView> {
    emission_from(pass1, 0, 0, Seq::empty(), Seq::empty())
}

/// The value of the second pass's program counter after `items`, as long as
/// the counter stays within 16 bits: data does not move it.
pub open spec fn code_counter_after(items: Seq<ItemView>) -> int
    decreases items.len(),
{
    if items.len() == 0 {
        0
    } else {
        let before = code_counter_after(items.drop_last());
        match items.last() {
            ItemView::Inst(_) => before + 2,
            ItemView::Org(addr) => addr as int,
            _ => before,
        }
    }
}

/// The number of tokens in the statement that `first` opens.
fn statement_width(first: &Token) -> (len: usize)
    ensures
        len == statement_len(first@),
{
    match first {
        Token::Add
        | Token::Sub
        | Token::Or
        | Token::And
        | Token::Xor
        | Token::Lsl
        | Token::Lsr
        | Token::Asr
        | Token::Cmp => 4,
        Token::Addi
        | Token::Ori
        | Token::Andi
        | Token::Xori
        | Token::Lsli
        | Token::Lsri
        | Token::Cmpi => 5,
        Token::Ld | Token::St | Token::Push | Token::Pop => 2,
        Token::Int => 3,
        _ => 1,
    }
}

/// A copy of the tokens from `from` up to, not including, `to`.
fn copy_tokens(tokens: &[Token], from: usize, to: usize) -> (group: Vec<Token>)
    requires
        from <= to <= tokens.len(),
    ensures
        group@ == tokens@.subrange(from as int, to as int),
{
    let mut group: Vec<Token> = Vec::new();
    let mut k: usize = from;
    while k < to
        invariant
            from <= k <= to <= tokens.len(),
            group@ == tokens@.subrange(from as int, k as int),
        decreases to - k,
    {
        group.push(tokens[k].clone());
        k += 1;
    }
    group
}

/// Pass 1. Walks the tokens once with a program counter, binds each label to
/// the counter's value where the label stands, and cuts the stream into items.
///
/// An identifier followed by `:` defines a label. A `.` opens a directive:
/// `.org <number>` sets the counter to the low 16 bits of the number,
/// `.byte <number>` holds the low 8 bits of the number and advances the counter
/// by 1, `.ascii <string>` advances it by the length of the text in bytes. Any
/// other token opens an instruction statement of as many tokens as its
/// mnemonic fixes (one, where it is no mnemonic), which advances the counter
/// by 2. No step may take the counter past 65535.
///
/// In the result no label is defined twice, and the symbol table holds each
/// label with the value that the counter had at its definition.
pub fn first_pass(tokens: &[Token]) -> (r: Result<FirstPassResult, AsmError>)
    ensures
        result_view(r) == layout(token_views(tokens@)),
        r matches Ok(res) ==> labels_resolved(res@) && counter_in_range(res@.items),
{
    let mut pc: u16 = 0;
    let mut symbols = SymTab::new();
    let mut items: Vec<Item> = Vec::new();
    let ghost views = token_views(tokens@);
    proof {
        lemma_labels_resolved(views);
    }
    let mut i: usize = 0;
    assert(item_views(items@) =~= Seq::empty());
    while i < tokens.len()
        invariant
            i <= tokens.len(),
            views == token_views(tokens@),
            layout(views) == layout_from(
                views,
                i as int,
                pc,
                FirstPassView { symbols: symbols@, items: item_views(items@) },
            ),
        decreases tokens.len() - i,
    {
        let ghost before = items@;
        let followed_by_colon = match tokens.get(i + 1) {
            Some(Token::Colon) => true,
            _ => false,
        };
        match &tokens[i] {
            Token::Ident(name) if followed_by_colon => {
                symbols.define(name.clone(), pc)?;
                items.push(Item::Label(name.clone()));
                i += 2;
            },
            Token::Dot => {
                let dir = match tokens.get(i + 1) {
                    Some(Token::Ident(dir)) => dir,
                    _ => {
                        return Err(AsmError::Syntax(".<directive> expected".to_owned()));
                    },
                };
                if same_text(dir.as_str(), "org") {
                    match tokens.get(i + 2) {
                        Some(Token::Number(addr)) => {
                            pc = (*addr % 0x1_0000) as u16;
                            items.push(Item::Org(pc));
                        },
                        _ => {
                            return Err(AsmError::Syntax(".org <number>".to_owned()));
                        },
                    }
                } else if same_text(dir.as_str(), "byte") {
                    match tokens.get(i + 2) {
                        Some(Token::Number(value)) => {
                            pc = match pc.checked_add(1) {
                                Some(next) => next,
                                None => {
                                    return Err(AsmError::Overflow);
                                },
                            };
                            items.push(Item::Byte((*value % 0x100) as u8));
                        },
                        _ => {
                            return Err(AsmError::Syntax(".byte <number>".to_owned()));
                        },
                    }
                } else if same_text(dir.as_str(), "ascii") {
                    match tokens.get(i + 2) {
                        Some(Token::String(text)) => {
                            let len = text.as_str().as_bytes().len();
                            if len > (0xFFFF - pc) as usize {
                                return Err(AsmError::Overflow);
                            }
                            items.push(Item::Ascii(text.clone()));
                            pc = pc + len as u16;
                        },
                        _ => {
                            return Err(AsmError::Syntax(".ascii \"...\"".to_owned()));
                        },
                    }
                } else {
                    return Err(AsmError::UnknownDirective(dir.clone()));
                }
                i += 3;
            },
            first => {
                let len = statement_width(first);
                if len > tokens.len() - i {
                    return Err(AsmError::UnexpectedEof);
                }
                pc = match pc.checked_add(2) {
                    Some(next) => next,
                    None => {
                        return Err(AsmError::Overflow);
                    },
                };
                let group = copy_tokens(tokens, i, i + len);
                assert(token_views(group@) =~= views.subrange(i as int, i + len));
                items.push(Item::Inst(group));
                i += len;
            },
        }
        assert(item_views(items@) =~= item_views(before).push(items@.last()@));
    }
    Ok(FirstPassResult { symbols, items })
}

/// Grows `code` with zero bytes up to the length `len`.
fn pad_to(code: &mut Vec<u8>, len: usize)
    ensures
        final(code)@ == zero_extended(old(code)@, len as int),
{
    if len > code.len() {
        code.resize(len, 0);
    }
}

/// Pass 2. Walks the items in order with a program counter of its own, which
/// only instructions and `.org` move, and returns the data segment and the
/// code segment.
///
/// An instruction is encoded against the whole symbol table and its word is
/// written at the counter's offset in the code segment, most significant byte
/// first; the counter then advances by 2 and may not pass 65535. `.org` sets
/// the counter. Either grows the code segment with zero bytes where it ends
/// before the counter. Data bytes and strings are appended to the data
/// segment in source order.
pub fn second_pass(pass1: FirstPassResult) -> (r: Result<(Vec<u8>, Vec<u8>), AsmError>)
    ensures
        result_view(r) == emission(pass1@),
{
    let mut code: Vec<u8> = Vec::new();
    let mut data: Vec<u8> = Vec::new();
    let mut pc: u16 = 0;
    let mut k: usize = 0;
    while k < pass1.items.len()
        invariant
            k <= pass1.items.len(),
            emission(pass1@) == emission_from(pass1@, k as int, pc, data@, code@),
        decreases pass1.items.len() - k,
    {
        match &pass1.items[k] {
            Item::Inst(toks) => {
                let word = encode(toks.as_slice(), &pass1.symbols)?;
                let next = match pc.checked_add(2) {
                    Some(next) => next,
                    None => {
                        return Err(AsmError::Overflow);
                    },
                };
                let at = pc as usize;
                pad_to(&mut code, at + 2);
                code[at] = (word >> 8) as u8;
                code[at + 1] = (word & 0xFF) as u8;
                assert(word >> 8 == word / 0x100 && word & 0xFF == word % 0x100) by (bit_vector);
                pc = next;
            },
            Item::Org(addr) => {
                pc = *addr;
                pad_to(&mut code, pc as usize);
            },
            Item::Byte(value) => {
                data.push(*value);
            },
            Item::Ascii(text) => {
                append(&mut data, text.as_str().as_bytes());
            },
            Item::Label(_) => {},
        }
        k += 1;
    }
    Ok((data, code))
}

/// A successful step of the layout scan keeps the symbol table that of the
/// items, and the program counter that after the items and within 16 bits.
proof fn lemma_step_resolves(tokens: Seq<TokenView>, i: int, pc: u16, out: FirstPassView)
    requires
        0 <= i < tokens.len(),
        labels_resolved(out),
        counter_in_range(out.items),
        pc == counter_after(out.items),
    ensures
        layout_step(tokens, i, pc, out) matches Ok(step) ==> labels_resolved(step.out)
            && counter_in_range(step.out.items) && step.pc == counter_after(step.out.items)
            && step.taken >= 1,
{
    if layout_step(tokens, i, pc, out) is Ok {
        let step = layout_step(tokens, i, pc, out)->Ok_0;
        let items = step.out.items;
        let n = out.items.len() as int;
        assert(items.drop_last() =~= out.items);
        assert forall|k: int| 0 <= k <= n implies #[trigger] items.take(k) == out.items.take(
            k,
        ) by {
            assert(items.take(k) =~= out.items.take(k));
        }
        assert(out.items.take(n) =~= out.items);
        assert(items.take(n + 1) =~= items);
        assert forall|k: int| 0 <= k <= items.len() implies 0 <= #[trigger] counter_after(
            items.take(k),
        ) <= 0xFFFF by {
            if k <= n {
                assert(items.take(k) == out.items.take(k));
            }
        }
        assert forall|k: int, name: Seq<char>| #[trigger] defines(items, k, name) implies (k < n
            && defines(out.items, k, name)) || (k == n && label_at(tokens, i) && name
            == tokens[i]->Ident_0) by {}
        assert forall|k: int, name: Seq<char>| #[trigger]
            defines(items, k, name) implies step.out.symbols.contains_key(name)
            && step.out.symbols[name] == counter_after(items.take(k)) by {
            if k < n {
                assert(defines(out.items, k, name));
            }
        }
        assert forall|name: Seq<char>| #[trigger]
            step.out.symbols.contains_key(name) implies exists|k: int|
            defines(items, k, name) by {
            if out.symbols.contains_key(name) {
                let k = choose|k: int| defines(out.items, k, name);
                assert(defines(items, k, name));
            } else {
                assert(defines(items, n, name));
            }
        }
        assert forall|j: int, k: int, name: Seq<char>|
            #[trigger] defines(items, j, name) && #[trigger] defines(items, k, name) implies j
            == k by {
            if j < n && k < n {
                assert(defines(out.items, j, name) && defines(out.items, k, name));
            } else if j < n {
                assert(defines(out.items, j, name));
            } else if k < n {
                assert(defines(out.items, k, name));
            }
        }
    }
}

/// The layout scan keeps the symbol table that of the items, and the program
/// counter within 16 bits.
proof fn lemma_layout_from_resolves(tokens: Seq<TokenView>, i: int, pc: u16, out: FirstPassView)
    requires
        0 <= i,
        labels_resolved(out),
        counter_in_range(out.items),
        pc == counter_after(out.items),
    ensures
        layout_from(tokens, i, pc, out) matches Ok(result) ==> labels_resolved(result)
            && counter_in_range(result.items),
    decreases tokens.len() - i,
{
    if i < tokens.len() {
        lemma_step_resolves(tokens, i, pc, out);
        if layout_step(tokens, i, pc, out) is Ok {
            let step = layout_step(tokens, i, pc, out)->Ok_0;
            lemma_layout_from_resolves(tokens, i + step.taken, step.pc, step.out);
        }
    }
}

/// Where the first pass succeeds, each label is defined by one item only, the
/// symbol table holds the labels and no other name, each label stands for the
/// value that the program counter had where the label is defined, and the
/// program counter is within 16 bits after each item.
pub proof fn lemma_labels_resolved(tokens: Seq<TokenView>)
    ensures
        layout(tokens) matches Ok(out) ==> labels_resolved(out) && counter_in_range(out.items),
{
    let start = FirstPassView { symbols: Map::empty(), items: Seq::empty() };
    lemma_layout_from_resolves(tokens, 0, 0, start);
}

/// Whether `long` starts with `short` and goes on in a way that leaves the
/// constructs of `short` as they are: not with a colon that would turn a last
/// identifier of `short` into a label.
pub open spec fn extends(long: Seq<TokenView>, short: Seq<TokenView>) -> bool {
    &&& short.len() <= long.len()
    &&& long.take(short.len() as int) == short
    &&& !(short.len() > 0 && short.last() is Ident && short.len() < long.len()
        && long[short.len() as int] is Colon)
}

/// Where the layout scan of `short` succeeds, the scan of a text that extends
/// `short` arrives at the end of `short` with the same result.
proof fn lemma_layout_extends(
    short: Seq<TokenView>,
    long: Seq<TokenView>,
    i: int,
    pc: u16,
    out: FirstPassView,
)
    requires
        0 <= i <= short.len(),
        extends(long, short),
        labels_resolved(out),
        counter_in_range(out.items),
        pc == counter_after(out.items),
        layout_from(short, i, pc, out) is Ok,
    ensures
        ({
            let result = layout_from(short, i, pc, out)->Ok_0;
            &&& 0 <= counter_after(result.items) <= 0xFFFF
            &&& labels_resolved(result)
            &&& counter_in_range(result.items)
            &&& layout_from(long, i, pc, out) == layout_from(
                long,
                short.len() as int,
                counter_after(result.items) as u16,
                result,
            )
        }),
    decreases short.len() - i,
{
    if i < short.len() {
        assert forall|k: int| 0 <= k < short.len() implies long[k] == short[k] by {
            assert(long.take(short.len() as int)[k] == long[k]);
        }
        lemma_step_resolves(short, i, pc, out);
        let step = layout_step(short, i, pc, out)->Ok_0;
        if !label_at(short, i) && !(short[i] is Dot) {
            assert(long.subrange(i, i + step.taken) =~= short.subrange(i, i + step.taken));
        }
        assert(layout_step(long, i, pc, out) == Ok::<LayoutStep, AsmErrorView>(step));
        lemma_layout_extends(short, long, i + step.taken, step.pc, step.out);
    }
}

/// The first pass on a text that extends `short` goes on from the end of
/// `short` as the first pass on `short` ended, where that one succeeded.
pub proof fn lemma_layout_of_extension(short: Seq<TokenView>, long: Seq<TokenView>)
    requires
        extends(long, short),
        layout(short) is Ok,
    ensures
        ({
            let result = layout(short)->Ok_0;
            &&& 0 <= counter_after(result.items) <= 0xFFFF
            &&& layout(long) == layout_from(
                long,
                short.len() as int,
                counter_after(result.items) as u16,
                result,
            )
        }),
{
    let start = FirstPassView { symbols: Map::empty(), items: Seq::empty() };
    lemma_layout_extends(short, long, 0, 0, start);
}

/// Defining a label a second time fails with `DuplicateLabel`, whatever
/// stands between the two definitions and whatever follows the second: where
/// the first pass succeeds on `before` and binds `name`, it fails on `before`
/// followed by another definition of `name`.
pub proof fn lemma_second_definition_fails(
    before: Seq<TokenView>,
    name: Seq<char>,
    after: Seq<TokenView>,
)
    requires
        layout(before) matches Ok(out) && out.symbols.contains_key(name),
    ensures
        layout(before + seq![TokenView::Ident(name), TokenView::Colon] + after) == Err::<
            FirstPassView,
            AsmErrorView,
        >(AsmErrorView::DuplicateLabel(name)),
{
    let long = before + seq![TokenView::Ident(name), TokenView::Colon] + after;
    let n = before.len() as int;
    assert(long.take(n) =~= before);
    assert(long[n] == TokenView::Ident(name));
    assert(long[n + 1] == TokenView::Colon);
    lemma_layout_of_extension(before, long);
}

/// A label stands for the same address in every instruction of the program,
/// in those before its definition as in those after it: where the first pass
/// succeeds, the label that item `k` defines is, as an immediate operand
/// under the symbol table that the second pass encodes with, the value that
/// the program counter had before item `k`.
pub proof fn lemma_label_operand_resolves(tokens: Seq<TokenView>, k: int, name: Seq<char>)
    requires
        layout(tokens) matches Ok(out) && defines(out.items, k, name),
    ensures
        ({
            let out = layout(tokens)->Ok_0;
            let addr = counter_after(out.items.take(k));
            &&& 0 <= addr <= 0xFFFF
            &&& imm_operand(TokenView::Ident(name), out.symbols) == Ok::<i32, AsmErrorView>(
                addr as i32,
            )
        }),
{
    lemma_labels_resolved(tokens);
}

/// A reference to a label resolves to the label's address, before the
/// definition as after it: where the first pass succeeds, item `j` is a
/// register-immediate statement whose immediate is the label that item `k`
/// defines, and the statement encodes under the resulting symbol table, the
/// immediate field of the word holds the value that the program counter had
/// before item `k`. Nothing is asked of the order of `j` and `k`.
pub proof fn lemma_reference_resolves(tokens: Seq<TokenView>, j: int, k: int, name: Seq<char>)
    requires
        layout(tokens) matches Ok(out) && 0 <= j < out.items.len() && defines(out.items, k, name)
            && (out.items[j] matches ItemView::Inst(group) && group.len() == 5 && group[4]
            == TokenView::Ident(name) && encoding(group, out.symbols) is Ok),
    ensures
        ({
            let out = layout(tokens)->Ok_0;
            let word = encoding(out.items[j]->Inst_0, out.symbols)->Ok_0;
            fields_of(word) matches Some(Instr::I { imm, .. }) && imm == counter_after(
                out.items.take(k),
            )
        }),
{
    let out = layout(tokens)->Ok_0;
    lemma_label_operand_resolves(tokens, k, name);
    lemma_encoding_keeps_fields(out.items[j]->Inst_0, out.symbols);
}

/// The second pass's program counter is never ahead of the first pass's.
pub proof fn lemma_code_counter_behind(items: Seq<ItemView>)
    ensures
        0 <= code_counter_after(items) <= counter_after(items),
    decreases items.len(),
{
    if items.len() > 0 {
        lemma_code_counter_behind(items.drop_last());
    }
}

/// Where the first pass's program counter stays within 16 bits, the second
/// pass's does.
proof fn lemma_emission_from_in_range(
    pass1: FirstPassView,
    k: int,
    pc: u16,
    data: Seq<u8>,
    code: Seq<u8>,
)
    requires
        0 <= k <= pass1.items.len(),
        counter_in_range(pass1.items),
        pc == code_counter_after(pass1.items.take(k)),
    ensures
        emission_from(pass1, k, pc, data, code) != Err::<(Seq<u8>, Seq<u8>), AsmErrorView>(
            AsmErrorView::Overflow,
        ),
    decreases pass1.items.len() - k,
{
    if k < pass1.items.len() {
        let next = pass1.items.take(k + 1);
        assert(next.drop_last() =~= pass1.items.take(k));
        assert(next.last() == pass1.items[k]);
        lemma_code_counter_behind(next);
        assert(0 <= counter_after(next) <= 0xFFFF);
        match pass1.items[k] {
            ItemView::Inst(group) => {
                if encoding(group, pass1.symbols) is Ok {
                    lemma_emission_from_in_range(
                        pass1,
                        k + 1,
                        (pc + 2) as u16,
                        data,
                        word_placed(code, pc as int, encoding(group, pass1.symbols)->Ok_0),
                    );
                }
            },
            ItemView::Org(addr) => {
                lemma_emission_from_in_range(
                    pass1,
                    k + 1,
                    addr,
                    data,
                    zero_extended(code, addr as int),
                );
            },
            ItemView::Byte(value) => {
                lemma_emission_from_in_range(pass1, k + 1, pc, data.push(value), code);
            },
            ItemView::Ascii(text) => {
                lemma_emission_from_in_range(pass1, k + 1, pc, data + encode_utf8(text), code);
            },
            ItemView::Label(_) => {
                lemma_emission_from_in_range(pass1, k + 1, pc, data, code);
            },
        }
    }
}

/// After a first pass that succeeded, the second pass does not run out of
/// addresses: it fails only where the encoder refuses an instruction.
pub proof fn lemma_second_pass_in_range(tokens: Seq<TokenView>)
    ensures
        layout(tokens) matches Ok(out) ==> emission(out) != Err::<
            (Seq<u8>, Seq<u8>),
            AsmErrorView,
        >(AsmErrorView::Overflow),
{
    if layout(tokens) is Ok {
        let out = layout(tokens)->Ok_0;
        lemma_labels_resolved(tokens);
        assert(out.items.take(0) =~= Seq::<ItemView>::empty());
        lemma_emission_from_in_range(out, 0, 0, Seq::empty(), Seq::empty());
    }
}

} // verus!
