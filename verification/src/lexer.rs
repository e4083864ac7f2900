//! Tokens, and the tokenizer that cuts source text into them.
//!
//! The lexical grammar, by what a token starts with:
//!
//! * a letter or `_`: a word, which runs on over letters, digits and `_`. It
//!   is a mnemonic where it spells one (`add`, `jmp`, ...), else a register
//!   where it names one (`A`, `B`, `C`, `D`, `E`, `SP`, `AH`, `AL`), else an
//!   identifier;
//! * a digit: a number literal, hexadecimal after `0x`, binary after `0b`,
//!   decimal otherwise, which runs on over the digits of its base;
//! * `"`: a string literal up to the next `"`, in which a backslash takes the
//!   character after it along, unless that is a line feed;
//! * `,` `:` `#` `.`: punctuation.
//!
//! [`lexing`] says what the tokens of a text are; [`tokenize`] computes them.

use crate::error::{AsmError, AsmErrorView};
use crate::text::{chars_of, same_text, text_of};
use vstd::prelude::*;

verus! {

/// A lexical token of RISC-8 assembly text.
#[derive(Debug, PartialEq, Eq)]
pub enum Token {
    // Register-register instructions.
    Add,
    Sub,
    Or,
    And,
    Xor,
    Lsl,
    Lsr,
    Asr,
    Cmp,
    // Register-immediate instructions.
    Addi,
    Ori,
    Andi,
    Xori,
    Lsli,
    Lsri,
    Cmpi,
    // Load and store.
    Ld,
    St,
    // Jumps.
    Jmp,
    Jeq,
    Jneq,
    Jgt,
    Jlt,
    Jegt,
    Jelt,
    // Stack, trap and system instructions.
    Push,
    Pop,
    Int,
    Ret,
    Halt,
    /// A register name.
    Reg(String),
    /// An identifier: a label, a symbol or a directive name.
    Ident(String),
    /// A number literal, as an unsigned 32-bit magnitude.
    Number(u32),
    /// What stands between the quotes of a string literal, escapes untouched.
    String(String),
    Comma,
    Colon,
    Hash,
    Dot,
}

/// The mathematical value of a [`Token`]: texts are sequences of characters.
#[verifier::ext_equal]
pub enum TokenView {
    Add,
    Sub,
    Or,
    And,
    Xor,
    Lsl,
    Lsr,
    Asr,
    Cmp,
    Addi,
    Ori,
    Andi,
    Xori,
    Lsli,
    Lsri,
    Cmpi,
    Ld,
    St,
    Jmp,
    Jeq,
    Jneq,
    Jgt,
    Jlt,
    Jegt,
    Jelt,
    Push,
    Pop,
    Int,
    Ret,
    Halt,
    Reg(Seq<char>),
    Ident(Seq<char>),
    Number(u32),
    String(Seq<char>),
    Comma,
    Colon,
    Hash,
    Dot,
}

impl View for Token {
    type V = TokenView;

    open spec fn view(&self) -> TokenView {
        match self {
            Token::Add => TokenView::Add,
            Token::Sub => TokenView::Sub,
            Token::Or => TokenView::Or,
            Token::And => TokenView::And,
            Token::Xor => TokenView::Xor,
            Token::Lsl => TokenView::Lsl,
            Token::Lsr => TokenView::Lsr,
            Token::Asr => TokenView::Asr,
            Token::Cmp => TokenView::Cmp,
            Token::Addi => TokenView::Addi,
            Token::Ori => TokenView::Ori,
            Token::Andi => TokenView::Andi,
            Token::Xori => TokenView::Xori,
            Token::Lsli => TokenView::Lsli,
            Token::Lsri => TokenView::Lsri,
            Token::Cmpi => TokenView::Cmpi,
            Token::Ld => TokenView::Ld,
            Token::St => TokenView::St,
            Token::Jmp => TokenView::Jmp,
            Token::Jeq => TokenView::Jeq,
            Token::Jneq => TokenView::Jneq,
            Token::Jgt => TokenView::Jgt,
            Token::Jlt => TokenView::Jlt,
            Token::Jegt => TokenView::Jegt,
            Token::Jelt => TokenView::Jelt,
            Token::Push => TokenView::Push,
            Token::Pop => TokenView::Pop,
            Token::Int => TokenView::Int,
            Token::Ret => TokenView::Ret,
            Token::Halt => TokenView::Halt,
            Token::Reg(name) => TokenView::Reg(name@),
            Token::Ident(name) => TokenView::Ident(name@),
            Token::Number(n) => TokenView::Number(*n),
            Token::String(text) => TokenView::String(text@),
            Token::Comma => TokenView::Comma,
            Token::Colon => TokenView::Colon,
            Token::Hash => TokenView::Hash,
            Token::Dot => TokenView::Dot,
        }
    }
}

impl Clone for Token {
    fn clone(&self) -> (copy: Self)
        ensures
            copy == *self,
    {
        match self {
            Token::Add => Token::Add,
            Token::Sub => Token::Sub,
            Token::Or => Token::Or,
            Token::And => Token::And,
            Token::Xor => Token::Xor,
            Token::Lsl => Token::Lsl,
            Token::Lsr => Token::Lsr,
            Token::Asr => Token::Asr,
            Token::Cmp => Token::Cmp,
            Token::Addi => Token::Addi,
            Token::Ori => Token::Ori,
            Token::Andi => Token::Andi,
            Token::Xori => Token::Xori,
            Token::Lsli => Token::Lsli,
            Token::Lsri => Token::Lsri,
            Token::Cmpi => Token::Cmpi,
            Token::Ld => Token::Ld,
            Token::St => Token::St,
            Token::Jmp => Token::Jmp,
            Token::Jeq => Token::Jeq,
            Token::Jneq => Token::Jneq,
            Token::Jgt => Token::Jgt,
            Token::Jlt => Token::Jlt,
            Token::Jegt => Token::Jegt,
            Token::Jelt => Token::Jelt,
            Token::Push => Token::Push,
            Token::Pop => Token::Pop,
            Token::Int => Token::Int,
            Token::Ret => Token::Ret,
            Token::Halt => Token::Halt,
            Token::Reg(name) => Token::Reg(name.clone()),
            Token::Ident(name) => Token::Ident(name.clone()),
            Token::Number(n) => Token::Number(*n),
            Token::String(text) => Token::String(text.clone()),
            Token::Comma => Token::Comma,
            Token::Colon => Token::Colon,
            Token::Hash => Token::Hash,
            Token::Dot => Token::Dot,
        }
    }
}

/// The values of a sequence of tokens, one by one.
pub open spec fn token_views(tokens: Seq<Token>) -> Seq<TokenView> {
    tokens.map_values(|t: Token| t@)
}

/// A class of characters of which a lexeme is a maximal run.
#[derive(Clone, Copy, Debug, PartialEq, Eq)]
pub enum CharClass {
    /// Letters, digits and `_`: the characters of a word after its first.
    Word,
    /// `0` and `1`.
    Binary,
    /// `0` to `9`.
    Decimal,
    /// `0` to `9`, `a` to `f` and `A` to `F`.
    Hex,
}

/// Whether a word can start with `c`: a letter or `_`.
pub open spec fn is_word_start(c: char) -> bool {
    ||| 'a' <= c <= 'z'
    ||| 'A' <= c <= 'Z'
    ||| c == '_'
}

/// Whether a word can start with `c`.
fn starts_word(c: char) -> (b: bool)
    ensures
        b == is_word_start(c),
{
    ('a' <= c && c <= 'z') || ('A' <= c && c <= 'Z') || c == '_'
}

impl CharClass {
    /// Whether `c` belongs to the class.
    pub open spec fn contains(self, c: char) -> bool {
        match self {
            CharClass::Word => is_word_start(c) || '0' <= c <= '9',
            CharClass::Binary => c == '0' || c == '1',
            CharClass::Decimal => '0' <= c <= '9',
            CharClass::Hex => '0' <= c <= '9' || 'a' <= c <= 'f' || 'A' <= c <= 'F',
        }
    }

    /// The base in which the digits of the class count; 0 for words.
    pub open spec fn radix(self) -> nat {
        match self {
            CharClass::Word => 0,
            CharClass::Binary => 2,
            CharClass::Decimal => 10,
            CharClass::Hex => 16,
        }
    }

    /// Whether `c` belongs to the class.
    pub fn has(&self, c: char) -> (b: bool)
        ensures
            b == self.contains(c),
    {
        match self {
            CharClass::Word => starts_word(c) || ('0' <= c && c <= '9'),
            CharClass::Binary => c == '0' || c == '1',
            CharClass::Decimal => '0' <= c && c <= '9',
            CharClass::Hex => ('0' <= c && c <= '9') || ('a' <= c && c <= 'f') || ('A' <= c
                && c <= 'F'),
        }
    }

    /// The base in which the digits of the class count.
    fn base(&self) -> (radix: u64)
        ensures
            radix == self.radix(),
    {
        match self {
            CharClass::Word => 0,
            CharClass::Binary => 2,
            CharClass::Decimal => 10,
            CharClass::Hex => 16,
        }
    }
}

/// The length of the longest run of characters of `class` that starts at `i`.
pub open spec fn run_len(s: Seq<char>, i: int, class: CharClass) -> nat
    decreases s.len() - i,
{
    if 0 <= i < s.len() && class.contains(s[i]) {
        1 + run_len(s, i + 1, class)
    } else {
        0
    }
}

/// The value of a hexadecimal digit.
pub open spec fn digit_value(c: char) -> nat {
    if '0' <= c <= '9' {
        (c as u32 - '0' as u32) as nat
    } else if 'a' <= c <= 'f' {
        (c as u32 - 'a' as u32 + 10) as nat
    } else {
        (c as u32 - 'A' as u32 + 10) as nat
    }
}

/// The number that `digits` write in base `radix`.
pub open spec fn digits_value(digits: Seq<char>, radix: nat) -> nat
    decreases digits.len(),
{
    if digits.len() == 0 {
        0
    } else {
        digits_value(digits.drop_last(), radix) * radix + digit_value(digits.last())
    }
}

/// The number of characters between `k` and the quote that closes the string
/// literal whose content starts at `k`. A backslash takes the character after
/// it along, which may be anything but a line feed. `None` where no quote
/// closes the literal.
pub open spec fn string_len(s: Seq<char>, k: int) -> Option<nat>
    decreases s.len() - k,
{
    if k < 0 || k >= s.len() {
        None
    } else if s[k] == '"' {
        Some(0nat)
    } else if s[k] == '\\' {
        if k + 1 < s.len() && s[k + 1] != '\n' {
            match string_len(s, k + 2) {
                Some(n) => Some(n + 2),
                None => None,
            }
        } else {
            None
        }
    } else {
        match string_len(s, k + 1) {
            Some(n) => Some(n + 1),
            None => None,
        }
    }
}

/// Whether `word` names a register.
pub open spec fn is_register_name(word: Seq<char>) -> bool {
    ||| word == "A"@
    ||| word == "B"@
    ||| word == "C"@
    ||| word == "D"@
    ||| word == "E"@
    ||| word == "SP"@
    ||| word == "AH"@
    ||| word == "AL"@
}

/// The mnemonic that `word` spells, if it spells one.
pub open spec fn mnemonic(word: Seq<char>) -> Option<TokenView> {
    if word == "add"@ {
        Some(TokenView::Add)
    } else if word == "sub"@ {
        Some(TokenView::Sub)
    } else if word == "or"@ {
        Some(TokenView::Or)
    } else if word == "and"@ {
        Some(TokenView::And)
    } else if word == "xor"@ {
        Some(TokenView::Xor)
    } else if word == "lsl"@ {
        Some(TokenView::Lsl)
    } else if word == "lsr"@ {
        Some(TokenView::Lsr)
    } else if word == "asr"@ {
        Some(TokenView::Asr)
    } else if word == "cmp"@ {
        Some(TokenView::Cmp)
    } else if word == "addi"@ {
        Some(TokenView::Addi)
    } else if word == "ori"@ {
        Some(TokenView::Ori)
    } else if word == "andi"@ {
        Some(TokenView::Andi)
    } else if word == "xori"@ {
        Some(TokenView::Xori)
    } else if word == "lsli"@ {
        Some(TokenView::Lsli)
    } else if word == "lsri"@ {
        Some(TokenView::Lsri)
    } else if word == "cmpi"@ {
        Some(TokenView::Cmpi)
    } else if word == "ld"@ {
        Some(TokenView::Ld)
    } else if word == "st"@ {
        Some(TokenView::St)
    } else if word == "jmp"@ {
        Some(TokenView::Jmp)
    } else if word == "jeq"@ {
        Some(TokenView::Jeq)
    } else if word == "jneq"@ {
        Some(TokenView::Jneq)
    } else if word == "jgt"@ {
        Some(TokenView::Jgt)
    } else if word == "jlt"@ {
        Some(TokenView::Jlt)
    } else if word == "jegt"@ {
        Some(TokenView::Jegt)
    } else if word == "jelt"@ {
        Some(TokenView::Jelt)
    } else if word == "push"@ {
        Some(TokenView::Push)
    } else if word == "pop"@ {
        Some(TokenView::Pop)
    } else if word == "int"@ {
        Some(TokenView::Int)
    } else if word == "ret"@ {
        Some(TokenView::Ret)
    } else if word == "halt"@ {
        Some(TokenView::Halt)
    } else {
        None
    }
}

/// The token that the word `word` is: a mnemonic where it spells one, else a
/// register where it names one, else an identifier.
pub open spec fn word_token(word: Seq<char>) -> TokenView {
    match mnemonic(word) {
        Some(token) => token,
        None => if is_register_name(word) {
            TokenView::Reg(word)
        } else {
            TokenView::Ident(word)
        },
    }
}

/// What stands at one position of the text.
#[verifier::ext_equal]
pub enum Lexeme {
    /// A token that ends before `end`.
    Token { token: TokenView, end: int },
    /// A character that starts no token.
    Skip,
    /// A number literal that no token can hold.
    TooLarge,
}

/// The number literal whose first digit stands at `i`. `0x` before a
/// hexadecimal digit and `0b` before a binary digit set the base, which is ten
/// otherwise.
pub open spec fn number_at(s: Seq<char>, i: int) -> Lexeme {
    let prefixed = s[i] == '0' && i + 2 < s.len();
    let class = if prefixed && s[i + 1] == 'x' && CharClass::Hex.contains(s[i + 2]) {
        CharClass::Hex
    } else if prefixed && s[i + 1] == 'b' && CharClass::Binary.contains(s[i + 2]) {
        CharClass::Binary
    } else {
        CharClass::Decimal
    };
    let start = if class == CharClass::Decimal {
        i
    } else {
        i + 2
    };
    let end = start + 1 + run_len(s, start + 1, class);
    let value = digits_value(s.subrange(start, end), class.radix());
    if value <= u32::MAX {
        Lexeme::Token { token: TokenView::Number(value as u32), end }
    } else {
        Lexeme::TooLarge
    }
}

/// What stands at position `i` of `s`, for `0 <= i < s.len()`: the longest
/// token that starts there, if one does.
pub open spec fn lexeme_at(s: Seq<char>, i: int) -> Lexeme {
    let c = s[i];
    if is_word_start(c) {
        let end = i + 1 + run_len(s, i + 1, CharClass::Word);
        Lexeme::Token { token: word_token(s.subrange(i, end)), end }
    } else if CharClass::Decimal.contains(c) {
        number_at(s, i)
    } else if c == '"' {
        match string_len(s, i + 1) {
            Some(n) => Lexeme::Token {
                token: TokenView::String(s.subrange(i + 1, i + 1 + n)),
                end: i + 1 + n + 1,
            },
            None => Lexeme::Skip,
        }
    } else if c == ',' {
        Lexeme::Token { token: TokenView::Comma, end: i + 1 }
    } else if c == ':' {
        Lexeme::Token { token: TokenView::Colon, end: i + 1 }
    } else if c == '#' {
        Lexeme::Token { token: TokenView::Hash, end: i + 1 }
    } else if c == '.' {
        Lexeme::Token { token: TokenView::Dot, end: i + 1 }
    } else {
        Lexeme::Skip
    }
}

/// The tokens of `s` from position `i` on.
pub open spec fn tokens_from(s: Seq<char>, i: int) -> Result<Seq<TokenView>, AsmErrorView>
    decreases s.len() - i,
    via tokens_from_terminates
{
    if i < 0 || i >= s.len() {
        Ok(Seq::empty())
    } else {
        match lexeme_at(s, i) {
            Lexeme::TooLarge => Err(AsmErrorView::Range("number literal exceeds 32 bits"@)),
            Lexeme::Skip => tokens_from(s, i + 1),
            Lexeme::Token { token, end } => match tokens_from(s, end) {
                Ok(rest) => Ok(seq![token] + rest),
                Err(e) => Err(e),
            },
        }
    }
}

#[via_fn]
proof fn tokens_from_terminates(s: Seq<char>, i: int) {
    if 0 <= i < s.len() {
        lemma_token_span(s, i);
    }
}

/// A run ends within the text.
proof fn lemma_run_len_bound(s: Seq<char>, i: int, class: CharClass)
    requires
        0 <= i <= s.len(),
    ensures
        i + run_len(s, i, class) <= s.len(),
    decreases s.len() - i,
{
    if i < s.len() && class.contains(s[i]) {
        lemma_run_len_bound(s, i + 1, class);
    }
}

/// A run is the longest of its class: every character of it belongs to the
/// class, and the character after it, if there is one, does not.
pub proof fn lemma_run_len_maximal(s: Seq<char>, i: int, class: CharClass)
    requires
        0 <= i <= s.len(),
    ensures
        ({
            let end = i + run_len(s, i, class);
            &&& forall|k: int| i <= k < end ==> class.contains(#[trigger] s[k])
            &&& end == s.len() || !class.contains(s[end])
        }),
    decreases s.len() - i,
{
    lemma_run_len_bound(s, i, class);
    if i < s.len() && class.contains(s[i]) {
        lemma_run_len_maximal(s, i + 1, class);
    }
}

/// The quote that closes a string literal stands within the text.
proof fn lemma_string_len_bound(s: Seq<char>, k: int)
    requires
        0 <= k,
    ensures
        string_len(s, k) matches Some(n) ==> k + n < s.len(),
    decreases s.len() - k,
{
    if k < s.len() && s[k] != '"' {
        if s[k] == '\\' {
            if k + 1 < s.len() && s[k + 1] != '\n' {
                lemma_string_len_bound(s, k + 2);
            }
        } else {
            lemma_string_len_bound(s, k + 1);
        }
    }
}

/// A token ends after the position where it starts, and within the text.
proof fn lemma_token_span(s: Seq<char>, i: int)
    requires
        0 <= i < s.len(),
    ensures
        lexeme_at(s, i) matches Lexeme::Token { end, .. } ==> i < end <= s.len(),
{
    lemma_run_len_bound(s, i + 1, CharClass::Word);
    lemma_run_len_bound(s, i + 1, CharClass::Decimal);
    if i + 2 < s.len() {
        lemma_run_len_bound(s, i + 3, CharClass::Hex);
        lemma_run_len_bound(s, i + 3, CharClass::Binary);
    }
    lemma_string_len_bound(s, i + 1);
}

/// The tokens of the source text `s`.
pub open spec fn lexing(s: Seq<char>) -> Result<Seq<TokenView>, AsmErrorView> {
    tokens_from(s, 0)
}

/// The end of the longest run of characters of `class` that starts at `i`.
fn run_end(chars: &[char], i: usize, class: CharClass) -> (end: usize)
    requires
        i <= chars.len(),
    ensures
        end == i + run_len(chars@, i as int, class),
        end <= chars.len(),
{
    let mut end: usize = i;
    while end < chars.len() && class.has(chars[end])
        invariant
            i <= end <= chars.len(),
            i + run_len(chars@, i as int, class) == end + run_len(chars@, end as int, class),
        decreases chars.len() - end,
    {
        end += 1;
    }
    end
}

/// The value of a hexadecimal digit.
fn digit_of(c: char) -> (value: u64)
    requires
        CharClass::Hex.contains(c),
    ensures
        value == digit_value(c),
        value < 16,
{
    if '0' <= c && c <= '9' {
        (c as u32 - '0' as u32) as u64
    } else if 'a' <= c && c <= 'f' {
        (c as u32 - 'a' as u32 + 10) as u64
    } else {
        (c as u32 - 'A' as u32 + 10) as u64
    }
}

/// The digits of a number write at least what any of their prefixes writes.
proof fn lemma_digits_value_prefix(digits: Seq<char>, n: int, radix: nat)
    requires
        0 <= n <= digits.len(),
        radix >= 1,
    ensures
        digits_value(digits.take(n), radix) <= digits_value(digits, radix),
    decreases digits.len(),
{
    if n == digits.len() {
        assert(digits.take(n) =~= digits);
    } else {
        let shorter = digits.drop_last();
        lemma_digits_value_prefix(shorter, n, radix);
        assert(shorter.take(n) =~= digits.take(n));
        let v = digits_value(shorter, radix);
        assert(v * radix >= v) by (nonlinear_arith)
            requires
                radix >= 1,
                v >= 0,
        ;
    }
}

/// The number literal whose digits, of `class`, start at `start`: its value
/// and its end, or `None` where 32 bits do not hold the value.
fn number_from(chars: &[char], start: usize, class: CharClass) -> (r: Option<(u32, usize)>)
    requires
        start <= chars.len(),
        class != CharClass::Word,
    ensures
        ({
            let end = start + run_len(chars@, start as int, class);
            let value = digits_value(chars@.subrange(start as int, end), class.radix());
            match r {
                Some((number, stop)) => number == value && stop == end && stop <= chars.len(),
                None => value > u32::MAX,
            }
        }),
{
    let radix = class.base();
    let ghost end = start + run_len(chars@, start as int, class);
    let ghost digits = chars@.subrange(start as int, end);
    proof {
        lemma_run_len_bound(chars@, start as int, class);
    }
    let mut acc: u64 = 0;
    let mut k: usize = start;
    while k < chars.len() && class.has(chars[k])
        invariant
            start <= k <= chars.len(),
            end == start + run_len(chars@, start as int, class),
            end == k + run_len(chars@, k as int, class),
            end <= chars.len(),
            digits == chars@.subrange(start as int, end),
            acc == digits_value(chars@.subrange(start as int, k as int), class.radix()),
            acc <= u32::MAX,
            radix == class.radix(),
            2 <= radix <= 16,
        decreases chars.len() - k,
    {
        let digit = digit_of(chars[k]);
        let next = acc * radix + digit;
        proof {
            let longer = chars@.subrange(start as int, k + 1);
            assert(longer.drop_last() =~= chars@.subrange(start as int, k as int));
            assert(next == digits_value(longer, class.radix()));
            if next > u32::MAX {
                lemma_digits_value_prefix(digits, k + 1 - start, class.radix());
                assert(digits.take(k + 1 - start) =~= longer);
            }
        }
        if next > u32::MAX as u64 {
            return None;
        }
        acc = next;
        k += 1;
    }
    Some((acc as u32, k))
}

/// The position of the quote that closes the string literal whose content
/// starts at `start`.
fn string_end(chars: &[char], start: usize) -> (close: Option<usize>)
    requires
        start <= chars.len(),
    ensures
        match close {
            Some(at) => start <= at < chars.len() && string_len(chars@, start as int) == Some(
                (at - start) as nat,
            ),
            None => string_len(chars@, start as int) is None,
        },
{
    let mut k: usize = start;
    while k < chars.len()
        invariant
            start <= k <= chars.len(),
            string_len(chars@, start as int) == (match string_len(chars@, k as int) {
                Some(n) => Some((n + (k - start)) as nat),
                None => None,
            }),
        decreases chars.len() - k,
    {
        let c = chars[k];
        if c == '"' {
            return Some(k);
        } else if c == '\\' {
            if k + 1 < chars.len() && chars[k + 1] != '\n' {
                k += 2;
            } else {
                return None;
            }
        } else {
            k += 1;
        }
    }
    None
}

/// The token that the word `word` is.
fn word_token_of(word: String) -> (token: Token)
    ensures
        token@ == word_token(word@),
{
    let w = word.as_str();
    if same_text(w, "add") {
        Token::Add
    } else if same_text(w, "sub") {
        Token::Sub
    } else if same_text(w, "or") {
        Token::Or
    } else if same_text(w, "and") {
        Token::And
    } else if same_text(w, "xor") {
        Token::Xor
    } else if same_text(w, "lsl") {
        Token::Lsl
    } else if same_text(w, "lsr") {
        Token::Lsr
    } else if same_text(w, "asr") {
        Token::Asr
    } else if same_text(w, "cmp") {
        Token::Cmp
    } else if same_text(w, "addi") {
        Token::Addi
    } else if same_text(w, "ori") {
        Token::Ori
    } else if same_text(w, "andi") {
        Token::Andi
    } else if same_text(w, "xori") {
        Token::Xori
    } else if same_text(w, "lsli") {
        Token::Lsli
    } else if same_text(w, "lsri") {
        Token::Lsri
    } else if same_text(w, "cmpi") {
        Token::Cmpi
    } else if same_text(w, "ld") {
        Token::Ld
    } else if same_text(w, "st") {
        Token::St
    } else if same_text(w, "jmp") {
        Token::Jmp
    } else if same_text(w, "jeq") {
        Token::Jeq
    } else if same_text(w, "jneq") {
        Token::Jneq
    } else if same_text(w, "jgt") {
        Token::Jgt
    } else if same_text(w, "jlt") {
        Token::Jlt
    } else if same_text(w, "jegt") {
        Token::Jegt
    } else if same_text(w, "jelt") {
        Token::Jelt
    } else if same_text(w, "push") {
        Token::Push
    } else if same_text(w, "pop") {
        Token::Pop
    } else if same_text(w, "int") {
        Token::Int
    } else if same_text(w, "ret") {
        Token::Ret
    } else if same_text(w, "halt") {
        Token::Halt
    } else if same_text(w, "A") || same_text(w, "B") || same_text(w, "C") || same_text(w, "D")
        || same_text(w, "E") || same_text(w, "SP") || same_text(w, "AH") || same_text(w, "AL") {
        Token::Reg(word)
    } else {
        Token::Ident(word)
    }
}

/// `tokens` and then the tokens of `rest`, where there is no failure in `rest`.
spec fn tokens_then(
    tokens: Seq<TokenView>,
    rest: Result<Seq<TokenView>, AsmErrorView>,
) -> Result<Seq<TokenView>, AsmErrorView> {
    match rest {
        Ok(more) => Ok(tokens + more),
        Err(e) => Err(e),
    }
}

/// What the scan found at one position: a [`Lexeme`] in executable form.
enum Scanned {
    Token(Token, usize),
    Skip,
    TooLarge,
}

impl View for Scanned {
    type V = Lexeme;

    closed spec fn view(&self) -> Lexeme {
        match self {
            Scanned::Token(token, end) => Lexeme::Token { token: token@, end: *end as int },
            Scanned::Skip => Lexeme::Skip,
            Scanned::TooLarge => Lexeme::TooLarge,
        }
    }
}

/// The number literal whose first digit stands at `i`.
fn scan_number(chars: &[char], i: usize) -> (found: Scanned)
    requires
        i < chars.len(),
        CharClass::Decimal.contains(chars@[i as int]),
    ensures
        found@ == number_at(chars@, i as int),
{
    let prefixed = chars[i] == '0' && chars.len() - i > 2;
    let class = if prefixed && chars[i + 1] == 'x' && CharClass::Hex.has(chars[i + 2]) {
        CharClass::Hex
    } else if prefixed && chars[i + 1] == 'b' && CharClass::Binary.has(chars[i + 2]) {
        CharClass::Binary
    } else {
        CharClass::Decimal
    };
    let start = match class {
        CharClass::Decimal => i,
        _ => i + 2,
    };
    match number_from(chars, start, class) {
        Some((value, end)) => Scanned::Token(Token::Number(value), end),
        None => Scanned::TooLarge,
    }
}

/// What stands at position `i`.
fn scan(chars: &[char], i: usize) -> (found: Scanned)
    requires
        i < chars.len(),
    ensures
        found@ == lexeme_at(chars@, i as int),
{
    let c = chars[i];
    if starts_word(c) {
        let end = run_end(chars, i + 1, CharClass::Word);
        Scanned::Token(word_token_of(text_of(chars, i, end)), end)
    } else if CharClass::Decimal.has(c) {
        scan_number(chars, i)
    } else if c == '"' {
        match string_end(chars, i + 1) {
            Some(close) => Scanned::Token(Token::String(text_of(chars, i + 1, close)), close + 1),
            None => Scanned::Skip,
        }
    } else if c == ',' {
        Scanned::Token(Token::Comma, i + 1)
    } else if c == ':' {
        Scanned::Token(Token::Colon, i + 1)
    } else if c == '#' {
        Scanned::Token(Token::Hash, i + 1)
    } else if c == '.' {
        Scanned::Token(Token::Dot, i + 1)
    } else {
        Scanned::Skip
    }
}

/// Cuts source text into tokens.
///
/// At each position the longest token that starts there is taken. A word is a
/// mnemonic where it spells one, else a register where it names one, else an
/// identifier. A character that starts no token, white space among them, is
/// skipped. A number literal that 32 bits do not hold is a range error.
pub fn tokenize(src: &str) -> (r: Result<Vec<Token>, AsmError>)
    ensures
        match r {
            Ok(tokens) => lexing(src@) == Ok::<Seq<TokenView>, AsmErrorView>(
                token_views(tokens@),
            ),
            Err(e) => lexing(src@) == Err::<Seq<TokenView>, AsmErrorView>(e@),
        },
{
    let text = chars_of(src);
    let chars = text.as_slice();
    let mut tokens: Vec<Token> = Vec::new();
    let mut i: usize = 0;
    while i < chars.len()
        invariant
            i <= chars.len(),
            chars@ == src@,
            lexing(src@) == tokens_then(token_views(tokens@), tokens_from(chars@, i as int)),
        decreases chars.len() - i,
    {
        let ghost before = tokens@;
        proof {
            lemma_token_span(chars@, i as int);
        }
        match scan(chars, i) {
            Scanned::Token(token, end) => {
                proof {
                    if tokens_from(chars@, end as int) is Ok {
                        let rest = tokens_from(chars@, end as int)->Ok_0;
                        assert(token_views(before) + (seq![token@] + rest) =~= token_views(
                            before.push(token),
                        ) + rest);
                    }
                }
                tokens.push(token);
                i = end;
            },
            Scanned::Skip => {
                i += 1;
            },
            Scanned::TooLarge => {
                return Err(AsmError::Range("number literal exceeds 32 bits".to_owned()));
            },
        }
    }
    Ok(tokens)
}

} // verus!
