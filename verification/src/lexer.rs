//! Tokens and the character-level scanner.
//!
//! The scanner works over an in-memory byte buffer and produces one token per
//! call to [`Lexer::scan`], tagging each with the current source line.  Bytes
//! outside the ASCII range and integer literals that do not fit in 32 bits are
//! reported as lexical errors.

use crate::error::Error;
use crate::text::ascii_string;
use crate::text::dec_seq;
use crate::text::dec_u32;
use crate::types::lexeme_of;
use crate::types::type_bool;
use crate::types::type_char;
use crate::types::type_float;
use crate::types::type_int;
use crate::types::Type;
use crate::types::TypeBase;
use vstd::prelude::*;

verus! {

broadcast use vstd::std_specs::vec::axiom_spec_len;

/// Token kinds beyond single-character operators, whose codes sit above the
/// one-byte range so they can share a numbering space with raw characters.
#[derive(Debug, Clone, Copy, PartialEq, Eq, Structural)]
pub enum Tag {
    And,
    Basic,
    Break,
    Do,
    Else,
    Eq_,
    False,
    Ge,
    Id,
    If,
    Le,
    Minus,
    Num,
    Or,
    Real,
    Temp,
    True,
    While,
}

impl Tag {
    /// The numeric code of this tag.  Codes start at 256, just past the
    /// single-character token range.
    pub open spec fn code_spec(self) -> u32 {
        match self {
            Tag::And => 256,
            Tag::Basic => 257,
            Tag::Break => 258,
            Tag::Do => 259,
            Tag::Else => 260,
            Tag::Eq_ => 261,
            Tag::False => 262,
            Tag::Ge => 263,
            Tag::Id => 264,
            Tag::If => 265,
            Tag::Le => 266,
            Tag::Minus => 267,
            Tag::Num => 268,
            Tag::Or => 269,
            Tag::Real => 270,
            Tag::Temp => 271,
            Tag::True => 272,
            Tag::While => 273,
        }
    }

    #[verifier::when_used_as_spec(code_spec)]
    pub fn code(self) -> (c: u32)
        ensures
            c == self.code_spec(),
    {
        match self {
            Tag::And => 256,
            Tag::Basic => 257,
            Tag::Break => 258,
            Tag::Do => 259,
            Tag::Else => 260,
            Tag::Eq_ => 261,
            Tag::False => 262,
            Tag::Ge => 263,
            Tag::Id => 264,
            Tag::If => 265,
            Tag::Le => 266,
            Tag::Minus => 267,
            Tag::Num => 268,
            Tag::Or => 269,
            Tag::Real => 270,
            Tag::Temp => 271,
            Tag::True => 272,
            Tag::While => 273,
        }
    }
}

/// The common core of every token: its numeric tag.
#[derive(Debug, Clone, Copy, PartialEq, Eq, Structural)]
pub struct TokenBase {
    pub tag: u32,
}

impl TokenBase {
    pub fn new(c: u32) -> (t: TokenBase)
        ensures
            t.tag == c,
    {
        TokenBase { tag: c }
    }
}

/// A word token: a reserved word, an operator written as a word, or an
/// identifier, together with its lexeme.
#[derive(Debug)]
pub struct WordBase {
    pub token: TokenBase,
    pub lexeme: String,
}

impl Clone for WordBase {
    fn clone(&self) -> (res: Self)
        ensures
            res == *self,
    {
        WordBase { token: self.token, lexeme: self.lexeme.clone() }
    }
}

impl WordBase {
    pub fn new(s: String, tag: u32) -> (w: WordBase)
        ensures
            w.lexeme == s,
            w.token.tag == tag,
    {
        WordBase { token: TokenBase::new(tag), lexeme: s }
    }
}

/// The reserved word `&&`.
pub fn word_and() -> (w: WordBase)
    ensures
        w.lexeme@ == "&&"@,
        w.token.tag == Tag::And.code_spec(),
{
    WordBase::new("&&".to_owned(), Tag::And.code())
}

/// The reserved word `||`.
pub fn word_or() -> (w: WordBase)
    ensures
        w.lexeme@ == "||"@,
        w.token.tag == Tag::Or.code_spec(),
{
    WordBase::new("||".to_owned(), Tag::Or.code())
}

/// The reserved word `==`.
pub fn word_eq() -> (w: WordBase)
    ensures
        w.lexeme@ == "=="@,
        w.token.tag == Tag::Eq_.code_spec(),
{
    WordBase::new("==".to_owned(), Tag::Eq_.code())
}

/// The reserved word `<=`.
pub fn word_le() -> (w: WordBase)
    ensures
        w.lexeme@ == "<="@,
        w.token.tag == Tag::Le.code_spec(),
{
    WordBase::new("<=".to_owned(), Tag::Le.code())
}

/// The reserved word `>=`.
pub fn word_ge() -> (w: WordBase)
    ensures
        w.lexeme@ == ">="@,
        w.token.tag == Tag::Ge.code_spec(),
{
    WordBase::new(">=".to_owned(), Tag::Ge.code())
}

/// The reserved word `true`.
pub fn word_true() -> (w: WordBase)
    ensures
        w.lexeme@ == "true"@,
        w.token.tag == Tag::True.code_spec(),
{
    WordBase::new("true".to_owned(), Tag::True.code())
}

/// The reserved word `false`.
pub fn word_false() -> (w: WordBase)
    ensures
        w.lexeme@ == "false"@,
        w.token.tag == Tag::False.code_spec(),
{
    WordBase::new("false".to_owned(), Tag::False.code())
}

/// The word `minus`, used as the operator token of unary negation.
pub fn word_minus() -> (w: WordBase)
    ensures
        w.lexeme@ == "minus"@,
        w.token.tag == Tag::Minus.code_spec(),
{
    WordBase::new("minus".to_owned(), Tag::Minus.code())
}

/// An integer literal token.
#[derive(Debug, Clone, Copy)]
pub struct Num {
    pub token: TokenBase,
    pub value: u32,
}

impl Num {
    pub fn new(v: u32) -> (n: Num)
        ensures
            n.value == v,
            n.wf(),
    {
        Num { token: TokenBase { tag: Tag::Num.code() }, value: v }
    }

    pub open spec fn wf(self) -> bool {
        self.token.tag == Tag::Num.code_spec()
    }

    /// The decimal rendering of the literal.
    pub fn to_string(&self) -> (s: String)
        ensures
            s@ == dec_seq(self.value as nat),
    {
        dec_u32(self.value)
    }
}

/// A floating-point literal token.  The literal is carried as the digit text
/// it was scanned from (`"2.5"`); the translator only ever uses that text, so
/// no floating-point value is computed.
#[derive(Debug)]
pub struct Real {
    pub token: TokenBase,
    pub text: String,
}

impl Clone for Real {
    fn clone(&self) -> (res: Self)
        ensures
            res == *self,
    {
        Real { token: self.token, text: self.text.clone() }
    }
}

impl Real {
    pub fn new(text: String) -> (r: Real)
        ensures
            r.text == text,
            r.wf(),
    {
        Real { token: TokenBase { tag: Tag::Real.code() }, text }
    }

    pub open spec fn wf(self) -> bool {
        self.token.tag == Tag::Real.code_spec()
    }

    /// The literal's scanned digit text.
    pub fn to_string(&self) -> (s: String)
        ensures
            s@ == self.text@,
    {
        self.text.clone()
    }
}

/// A word-shaped token: either a plain word or a basic-type name.
#[derive(Debug)]
pub enum Word {
    Word(WordBase),
    Type(TypeBase),
}

impl Clone for Word {
    fn clone(&self) -> (res: Self)
        ensures
            res == *self,
    {
        match self {
            Word::Word(w) => Word::Word(w.clone()),
            Word::Type(t) => Word::Type(*t),
        }
    }
}

impl Word {
    /// Wraps a lexeme and tag as a plain word token.
    pub fn new(s: String, tag: u32) -> (w: Word)
        ensures
            w matches Word::Word(b) && b.lexeme == s && b.token.tag == tag,
    {
        Word::Word(WordBase::new(s, tag))
    }

    pub open spec fn text_spec(self) -> Seq<char> {
        match self {
            Word::Word(w) => w.lexeme@,
            Word::Type(t) => lexeme_of(t.kind),
        }
    }

    /// The word's lexeme.
    pub fn to_string(&self) -> (s: String)
        ensures
            s@ == self.text_spec(),
    {
        match self {
            Word::Word(w) => w.lexeme.clone(),
            Word::Type(t) => t.lexeme(),
        }
    }
}

/// A scanned token.
#[derive(Debug)]
pub enum Token {
    Token(TokenBase),
    Word(Word),
    Num(Num),
    Real(Real),
    Eof,
}

impl Clone for Token {
    fn clone(&self) -> (res: Self)
        ensures
            res == *self,
    {
        match self {
            Token::Token(b) => Token::Token(*b),
            Token::Word(w) => Token::Word(w.clone()),
            Token::Num(n) => Token::Num(*n),
            Token::Real(r) => Token::Real(r.clone()),
            Token::Eof => Token::Eof,
        }
    }
}

/// The numeric tag of a token; `None` for end of input.
pub open spec fn tag_of(t: Token) -> Option<u32> {
    match t {
        Token::Token(a) => Some(a.tag),
        Token::Word(w) => match w {
            Word::Word(x) => Some(x.token.tag),
            Word::Type(_) => Some(Tag::Basic.code_spec()),
        },
        Token::Num(c) => Some(c.token.tag),
        Token::Real(d) => Some(d.token.tag),
        Token::Eof => None,
    }
}

/// A token that [`Token::to_string`] can render: not end-of-input, and if a
/// single-character token, an ASCII one.
pub open spec fn renderable(t: Token) -> bool {
    match t {
        Token::Token(a) => a.tag < 128,
        Token::Eof => false,
        _ => true,
    }
}

/// The canonical rendering of a token.
pub open spec fn token_text(t: Token) -> Seq<char> {
    match t {
        Token::Token(a) => seq![a.tag as char],
        Token::Word(w) => w.text_spec(),
        Token::Num(n) => dec_seq(n.value as nat),
        Token::Real(r) => r.text@,
        Token::Eof => Seq::empty(),
    }
}

impl Token {
    pub fn get_tag(&self) -> (r: Option<u32>)
        ensures
            r == tag_of(*self),
    {
        match self {
            Token::Token(a) => Some(a.tag),
            Token::Word(b) => match b {
                Word::Word(x) => Some(x.token.tag),
                Word::Type(_) => Some(Tag::Basic.code()),
            },
            Token::Num(c) => Some(c.token.tag),
            Token::Real(d) => Some(d.token.tag),
            Token::Eof => None,
        }
    }

    pub fn to_string(&self) -> (s: String)
        requires
            renderable(*self),
        ensures
            s@ == token_text(*self),
    {
        match self {
            Token::Token(a) => {
                let b: u8 = a.tag as u8;
                let s = ascii_string(vec![b]);
                proof {
                    assert(s@ =~= seq![a.tag as char]);
                }
                s
            },
            Token::Word(b) => b.to_string(),
            Token::Num(c) => c.to_string(),
            Token::Real(d) => d.to_string(),
            Token::Eof => {
                // unreachable under the precondition; kept total for Rust
                String::new()
            },
        }
    }
}


/// ASCII byte codes used by the scanner.
pub const B_TAB: u8 = 9;
pub const B_NL: u8 = 10;
pub const B_CR: u8 = 13;
pub const B_SPACE: u8 = 32;
pub const B_AMP: u8 = 38;
pub const B_DOT: u8 = 46;
pub const B_ZERO: u8 = 48;
pub const B_NINE: u8 = 57;
pub const B_LT: u8 = 60;
pub const B_EQ: u8 = 61;
pub const B_GT: u8 = 62;
pub const B_UPPER_A: u8 = 65;
pub const B_UPPER_Z: u8 = 90;
pub const B_LOWER_A: u8 = 97;
pub const B_LOWER_Z: u8 = 122;
pub const B_PIPE: u8 = 124;

/// `true` for an ASCII decimal digit byte.
pub open spec fn is_digit_byte(b: u8) -> bool {
    48 <= b <= 57
}

/// `true` for an ASCII letter byte.
pub open spec fn is_letter_byte(b: u8) -> bool {
    (97 <= b <= 122) || (65 <= b <= 90)
}

/// `true` for a white-space byte the scanner skips (newlines also advance the
/// line count).
pub open spec fn is_ws_byte(b: u8) -> bool {
    b == B_SPACE || b == B_TAB || b == B_CR || b == B_NL
}

/// The first position at or after `i` holding a non-white-space byte (or the
/// end of input).
pub open spec fn ws_end(s: Seq<u8>, i: int) -> int
    decreases s.len() - i,
{
    if i < 0 || i >= s.len() {
        i
    } else if is_ws_byte(s[i]) {
        ws_end(s, i + 1)
    } else {
        i
    }
}

/// The number of newline bytes in `s[i..j)`.
pub open spec fn newlines_between(s: Seq<u8>, i: int, j: int) -> int
    decreases j - i,
{
    if i >= j {
        0
    } else {
        newlines_between(s, i, j - 1) + if s[j - 1] == B_NL {
            1int
        } else {
            0int
        }
    }
}

/// The line count after skipping `s[i..j)`, saturating like the scanner does.
pub open spec fn line_after(line: u32, s: Seq<u8>, i: int, j: int) -> int {
    let total = line + newlines_between(s, i, j);
    if total <= u32::MAX {
        total
    } else {
        u32::MAX as int
    }
}

/// The first position at or after `i` holding a non-digit byte.
pub open spec fn digits_end(s: Seq<u8>, i: int) -> int
    decreases s.len() - i,
{
    if i < 0 || i >= s.len() {
        i
    } else if is_digit_byte(s[i]) {
        digits_end(s, i + 1)
    } else {
        i
    }
}

/// The decimal value of the digit run `s[i..j)`.
pub open spec fn digits_value(s: Seq<u8>, i: int, j: int) -> int
    decreases j - i,
{
    if i >= j {
        0
    } else {
        digits_value(s, i, j - 1) * 10 + (s[j - 1] - B_ZERO)
    }
}

/// The first position at or after `i` holding neither a letter nor a digit.
pub open spec fn word_end(s: Seq<u8>, i: int) -> int
    decreases s.len() - i,
{
    if i < 0 || i >= s.len() {
        i
    } else if is_letter_byte(s[i]) || is_digit_byte(s[i]) {
        word_end(s, i + 1)
    } else {
        i
    }
}

/// The bytes `s[i..j)` read as ASCII characters.
pub open spec fn ascii_chars(s: Seq<u8>, i: int, j: int) -> Seq<char> {
    Seq::new((j - i) as nat, |k: int| s[i + k] as char)
}

/// Every byte of a digit run up to [`digits_end`] is a digit, and the run
/// ends within the input.
pub proof fn lemma_digits_run(s: Seq<u8>, i: int)
    requires
        0 <= i <= s.len(),
    ensures
        i <= digits_end(s, i) <= s.len(),
        forall|m: int| i <= m < digits_end(s, i) ==> is_digit_byte(#[trigger] s[m]),
    decreases s.len() - i,
{
    if i < s.len() && is_digit_byte(s[i]) {
        lemma_digits_run(s, i + 1);
    }
}

/// A run of digits has a non-negative value.
pub proof fn lemma_digits_value_nonneg(s: Seq<u8>, i: int, j: int)
    requires
        forall|m: int| i <= m < j ==> is_digit_byte(#[trigger] s[m]),
    ensures
        digits_value(s, i, j) >= 0,
    decreases j - i,
{
    if i < j {
        lemma_digits_value_nonneg(s, i, j - 1);
    }
}

/// A digit run's value never shrinks as the run extends.
pub proof fn lemma_digits_value_mono(s: Seq<u8>, i: int, j: int, k: int)
    requires
        i <= j <= k,
        forall|m: int| i <= m < k ==> is_digit_byte(#[trigger] s[m]),
    ensures
        digits_value(s, i, j) <= digits_value(s, i, k),
    decreases k - j,
{
    if j < k {
        lemma_digits_value_mono(s, i, j, k - 1);
        lemma_digits_value_nonneg(s, i, k - 1);
    }
}

/// The first entry of the lexeme table whose key is `name`, if any.
pub open spec fn table_find(ws: Seq<(String, Word)>, name: Seq<char>) -> Option<Word>
    decreases ws.len(),
{
    if ws.len() == 0 {
        None
    } else if ws[0].0@ == name {
        Some(ws[0].1)
    } else {
        table_find(ws.drop_first(), name)
    }
}

/// The one condition under which a scan fails: the first unconsumed
/// non-white-space byte is outside ASCII, or it starts a digit run whose
/// value overflows 32 bits.
pub open spec fn scan_fails(pre: Lexer) -> bool {
    let s = pre.input@;
    let p = ws_end(s, pre.pos as int);
    p < s.len() && (s[p] >= 128 || (is_digit_byte(s[p]) && digits_value(s, p, digits_end(s, p))
        > u32::MAX))
}

/// The lexeme table of a fresh scanner: the reserved words and the basic-type
/// names, each keyed by its own lexeme.
pub open spec fn reserved_table(ws: Seq<(String, Word)>) -> bool {
    &&& ws.len() == 11
    &&& ws[0].0@ == "if"@ && (ws[0].1 matches Word::Word(w) && w.lexeme@ == "if"@ && w.token.tag
        == Tag::If.code_spec())
    &&& ws[1].0@ == "else"@ && (ws[1].1 matches Word::Word(w) && w.lexeme@ == "else"@
        && w.token.tag == Tag::Else.code_spec())
    &&& ws[2].0@ == "while"@ && (ws[2].1 matches Word::Word(w) && w.lexeme@ == "while"@
        && w.token.tag == Tag::While.code_spec())
    &&& ws[3].0@ == "do"@ && (ws[3].1 matches Word::Word(w) && w.lexeme@ == "do"@ && w.token.tag
        == Tag::Do.code_spec())
    &&& ws[4].0@ == "break"@ && (ws[4].1 matches Word::Word(w) && w.lexeme@ == "break"@
        && w.token.tag == Tag::Break.code_spec())
    &&& ws[5].0@ == "true"@ && (ws[5].1 matches Word::Word(w) && w.lexeme@ == "true"@
        && w.token.tag == Tag::True.code_spec())
    &&& ws[6].0@ == "false"@ && (ws[6].1 matches Word::Word(w) && w.lexeme@ == "false"@
        && w.token.tag == Tag::False.code_spec())
    &&& ws[7].0@ == "int"@ && ws[7].1 == Word::Type(TypeBase { kind: Type::Int, width: 4 })
    &&& ws[8].0@ == "char"@ && ws[8].1 == Word::Type(TypeBase { kind: Type::Char, width: 1 })
    &&& ws[9].0@ == "bool"@ && ws[9].1 == Word::Type(TypeBase { kind: Type::Bool, width: 1 })
    &&& ws[10].0@ == "float"@ && ws[10].1 == Word::Type(TypeBase { kind: Type::Float, width: 8 })
}

/// The outcome is the operator word with this lexeme and tag.
pub open spec fn scanned_word(r: Result<Token, Error>, lexeme: Seq<char>, tag: u32) -> bool {
    r matches Ok(t) && t matches Token::Word(Word::Word(w)) && w.lexeme@ == lexeme && w.token.tag
        == tag
}

/// The outcome is the single-character token for byte `b`.
pub open spec fn scanned_single(r: Result<Token, Error>, b: u8) -> bool {
    r == Ok::<Token, Error>(Token::Token(TokenBase { tag: b as u32 }))
}

/// The outcome of scanning a numeric literal whose digits start at `p`: the
/// integer value of the digit run, or — after a decimal point — a floating
/// literal carrying the digit text, consuming exactly the literal.
pub open spec fn scanned_number(s: Seq<u8>, p: int, r: Result<Token, Error>, end: int) -> bool {
    let de = digits_end(s, p);
    let v = digits_value(s, p, de);
    if de >= s.len() || s[de] != B_DOT {
        (r matches Ok(t) && t matches Token::Num(n) && n.value == v && n.token.tag
            == Tag::Num.code_spec()) && end == de
    } else {
        let fs = de + 1;
        let fe = digits_end(s, fs);
        (r matches Ok(t) && t matches Token::Real(rl) && rl.token.tag == Tag::Real.code_spec()
            && rl.text@ == (if fe > fs {
            dec_seq(v as nat) + seq!['.'] + ascii_chars(s, fs, fe)
        } else {
            dec_seq(v as nat)
        })) && end == fe
    }
}

/// The outcome of scanning a word starting at `p`: the maximal alphanumeric
/// run is the lexeme; a lexeme already in the table yields that entry's token
/// (so reserved words keep their tags and identifiers are interned), a new
/// lexeme yields a fresh identifier entered into the table.
pub open spec fn scanned_word_or_id(
    s: Seq<u8>,
    p: int,
    pre_words: Seq<(String, Word)>,
    post_words: Seq<(String, Word)>,
    r: Result<Token, Error>,
) -> bool {
    let name = ascii_chars(s, p, word_end(s, p));
    match table_find(pre_words, name) {
        Some(w0) => r == Ok::<Token, Error>(Token::Word(w0)) && post_words == pre_words,
        None => (r matches Ok(t) && t matches Token::Word(Word::Word(wb)) && wb.lexeme@ == name
            && wb.token.tag == Tag::Id.code_spec()) && post_words.len() == pre_words.len() + 1
            && post_words.drop_last() == pre_words && post_words.last().0@ == name && (
        post_words.last().1 matches Word::Word(wb2) && wb2.lexeme@ == name && wb2.token.tag
            == Tag::Id.code_spec()),
    }
}

/// What one `scan` call does: white space up to [`ws_end`] is skipped and its
/// newlines counted (saturating at the largest line number); the first
/// unconsumed byte then decides the token class, and each class clause pins
/// the token produced and the input consumed.  The only faults are a byte
/// outside ASCII and an integer literal overflowing 32 bits, each reported at
/// the current line.
pub open spec fn scan_post(pre: Lexer, post: Lexer, r: Result<Token, Error>) -> bool {
    let s = pre.input@;
    let p = ws_end(s, pre.pos as int);
    &&& post.input == pre.input
    &&& post.line_num == line_after(pre.line_num, s, pre.pos as int, p)
    &&& (r == Ok::<Token, Error>(Token::Eof) <==> p >= s.len())
    &&& (p >= s.len() ==> post.pos == s.len())
    &&& (r is Err <==> scan_fails(pre))
    &&& (r matches Err(e) ==> e == Error::Lexical(post.line_num))
    &&& (p < s.len() && s[p] == B_AMP ==> (if p + 1 < s.len() && s[p + 1] == B_AMP {
        scanned_word(r, "&&"@, Tag::And.code_spec()) && post.pos == p + 2
    } else {
        scanned_single(r, s[p]) && post.pos == p + 1
    }))
    &&& (p < s.len() && s[p] == B_PIPE ==> (if p + 1 < s.len() && s[p + 1] == B_PIPE {
        scanned_word(r, "||"@, Tag::Or.code_spec()) && post.pos == p + 2
    } else {
        scanned_single(r, s[p]) && post.pos == p + 1
    }))
    &&& (p < s.len() && s[p] == B_EQ ==> (if p + 1 < s.len() && s[p + 1] == B_EQ {
        scanned_word(r, "=="@, Tag::Eq_.code_spec()) && post.pos == p + 2
    } else {
        scanned_single(r, s[p]) && post.pos == p + 1
    }))
    &&& (p < s.len() && s[p] == B_LT ==> (if p + 1 < s.len() && s[p + 1] == B_EQ {
        scanned_word(r, "<="@, Tag::Le.code_spec()) && post.pos == p + 2
    } else {
        scanned_single(r, s[p]) && post.pos == p + 1
    }))
    &&& (p < s.len() && s[p] == B_GT ==> (if p + 1 < s.len() && s[p + 1] == B_EQ {
        scanned_word(r, ">="@, Tag::Ge.code_spec()) && post.pos == p + 2
    } else {
        scanned_single(r, s[p]) && post.pos == p + 1
    }))
    &&& (p < s.len() && is_digit_byte(s[p]) && digits_value(s, p, digits_end(s, p)) <= u32::MAX
        ==> scanned_number(s, p, r, post.pos as int))
    &&& (p < s.len() && is_letter_byte(s[p]) ==> scanned_word_or_id(
        s,
        p,
        pre.words@,
        post.words@,
        r,
    ) && post.pos == word_end(s, p))
    &&& (p < s.len() && s[p] < 128 && !is_digit_byte(s[p]) && !is_letter_byte(s[p]) && s[p]
        != B_AMP && s[p] != B_PIPE && s[p] != B_EQ && s[p] != B_LT && s[p] != B_GT
        ==> scanned_single(r, s[p]) && post.pos == p + 1)
    &&& (!(p < s.len() && is_letter_byte(s[p])) ==> post.words == pre.words)
}

/// The pull-based scanner.  It owns the whole source text as bytes and hands
/// out one token per [`Lexer::scan`] call.
#[derive(Debug)]
pub struct Lexer {
    /// The source text.
    pub input: Vec<u8>,
    /// The next unconsumed byte.
    pub pos: usize,
    /// The current source line, counted from 1, used for error reports.
    pub line_num: u32,
    /// Reserved words and previously seen identifiers, keyed by lexeme.
    pub words: Vec<(String, Word)>,
}

impl Lexer {
    /// The scanner never runs past the end of its input.
    pub open spec fn wf(self) -> bool {
        self.pos <= self.input.len()
    }

    /// Enters a word into the lexeme table.
    pub fn reserve(&mut self, w: Word)
        ensures
            final(self).input == old(self).input,
            final(self).pos == old(self).pos,
            final(self).line_num == old(self).line_num,
            final(self).wf() == old(self).wf(),
            final(self).words@.len() == old(self).words@.len() + 1,
            final(self).words@.drop_last() == old(self).words@,
            final(self).words@.last().0@ == w.text_spec(),
            final(self).words@.last().1 == w,
    {
        let key = w.to_string();
        self.words.push((key, w));
        proof {
            assert(self.words@.drop_last() =~= old(self).words@);
        }
    }

    /// A scanner over `input`, with every reserved word and basic-type name
    /// entered into its lexeme table.
    pub fn new(input: Vec<u8>) -> (lex: Lexer)
        ensures
            lex.input == input,
            lex.pos == 0,
            lex.line_num == 1,
            lex.wf(),
            reserved_table(lex.words@),
    {
        let mut lex = Lexer { input, pos: 0, line_num: 1, words: Vec::new() };
        proof {
            assert(lex.words@ =~= Seq::<(String, Word)>::empty());
        }
        lex.reserve(Word::new("if".to_owned(), Tag::If.code()));
        lex.reserve(Word::new("else".to_owned(), Tag::Else.code()));
        lex.reserve(Word::new("while".to_owned(), Tag::While.code()));
        lex.reserve(Word::new("do".to_owned(), Tag::Do.code()));
        lex.reserve(Word::new("break".to_owned(), Tag::Break.code()));
        lex.reserve(Word::Word(word_true()));
        lex.reserve(Word::Word(word_false()));
        lex.reserve(Word::Type(type_int()));
        lex.reserve(Word::Type(type_char()));
        lex.reserve(Word::Type(type_bool()));
        lex.reserve(Word::Type(type_float()));
        proof {
            assert(reserved_table(lex.words@));
        }
        lex
    }

    /// Looks a lexeme up in the table: the first entry whose key is the
    /// lexeme.
    fn find_word(&self, s: &String) -> (r: Option<Word>)
        ensures
            r == table_find(self.words@, s@),
    {
        proof {
            assert(self.words@.skip(0) =~= self.words@);
        }
        let mut i: usize = 0;
        while i < self.words.len()
            invariant
                i <= self.words.len(),
                table_find(self.words@, s@) == table_find(self.words@.skip(i as int), s@),
            decreases self.words.len() - i,
        {
            proof {
                assert(self.words@.skip(i as int).len() == self.words@.len() - i);
                assert(self.words@.skip(i as int)[0] == self.words@[i as int]);
                assert(self.words@.skip(i as int).drop_first() =~= self.words@.skip(i as int + 1));
            }
            if self.words[i].0 == *s {
                proof {
                    assert(table_find(self.words@.skip(i as int), s@) == Some(
                        self.words@[i as int].1,
                    ));
                }
                return Some(self.words[i].1.clone());
            }
            i = i + 1;
        }
        proof {
            assert(self.words@.skip(self.words@.len() as int).len() == 0);
        }
        None
    }

    /// Scans and returns the next token.
    ///
    /// White space is skipped and newlines counted; `&&`, `||`, `==`, `<=` and
    /// `>=` pair into word tokens; digit runs become integer literals (or,
    /// with a decimal point, floating literals carried as text); letter runs
    /// become reserved words or identifiers; any other ASCII byte is a
    /// single-character token.  A byte outside ASCII or an integer literal
    /// overflowing 32 bits is a lexical error at the current line.  The whole
    /// byte-to-token correspondence is [`scan_post`].
    pub fn scan(&mut self) -> (r: Result<Token, Error>)
        requires
            old(self).wf(),
        ensures
            final(self).wf(),
            scan_post(*old(self), *final(self), r),
            final(self).input == old(self).input,
            final(self).pos >= old(self).pos,
            final(self).line_num >= old(self).line_num,
            match r {
                Ok(t) => (renderable(t) || t is Eof) && (t is Eof ==> final(self).pos
                    == final(self).input@.len()) && (!(t is Eof) ==> final(self).pos > old(
                    self,
                ).pos),
                Err(e) => e is Lexical,
            },
    {
        let ghost s_view = self.input@;
        let ghost p0 = self.pos as int;
        let ghost l0 = self.line_num;
        // Skip white space, counting newlines.
        loop
            invariant
                self.wf(),
                self.input == old(self).input,
                s_view == self.input@,
                p0 == old(self).pos as int,
                l0 == old(self).line_num,
                self.pos >= old(self).pos,
                self.line_num >= old(self).line_num,
                self.words == old(self).words,
                ws_end(s_view, p0) == ws_end(s_view, self.pos as int),
                self.line_num as int == line_after(l0, s_view, p0, self.pos as int),
            ensures
                self.wf(),
                self.input == old(self).input,
                self.pos >= old(self).pos,
                self.line_num >= old(self).line_num,
                self.words == old(self).words,
                self.pos < self.input.len(),
                self.pos as int == ws_end(s_view, p0),
                self.line_num as int == line_after(l0, s_view, p0, ws_end(s_view, p0)),
            decreases self.input.len() - self.pos,
        {
            if self.pos >= self.input.len() {
                proof {
                    assert(self.pos == self.input.len());
                    assert(ws_end(s_view, self.pos as int) == self.pos as int);
                }
                return Ok(Token::Eof);
            }
            let b = self.input[self.pos];
            proof {
                assert(s_view[self.pos as int] == b);
                assert(newlines_between(s_view, p0, self.pos as int + 1) == newlines_between(
                    s_view,
                    p0,
                    self.pos as int,
                ) + if b == B_NL {
                    1int
                } else {
                    0int
                });
            }
            if b == B_SPACE || b == B_TAB || b == B_CR {
                proof {
                    assert(ws_end(s_view, self.pos as int) == ws_end(s_view, self.pos as int + 1));
                }
                self.pos = self.pos + 1;
            } else if b == B_NL {
                proof {
                    assert(ws_end(s_view, self.pos as int) == ws_end(s_view, self.pos as int + 1));
                }
                if self.line_num < u32::MAX {
                    self.line_num = self.line_num + 1;
                }
                self.pos = self.pos + 1;
            } else {
                proof {
                    assert(!is_ws_byte(b));
                    assert(ws_end(s_view, self.pos as int) == self.pos as int);
                }
                break;
            }
        }
        let ghost entry_pos = self.pos as int;
        let b = self.input[self.pos];
        if b >= 128 {
            return Err(Error::Lexical(self.line_num));
        }
        // Two-character operator words.
        if b == B_AMP || b == B_PIPE || b == B_EQ || b == B_LT || b == B_GT {
            if self.pos + 1 < self.input.len() {
                let b2 = self.input[self.pos + 1];
                if b == B_AMP && b2 == B_AMP {
                    self.pos = self.pos + 2;
                    return Ok(Token::Word(Word::Word(word_and())));
                }
                if b == B_PIPE && b2 == B_PIPE {
                    self.pos = self.pos + 2;
                    return Ok(Token::Word(Word::Word(word_or())));
                }
                if b == B_EQ && b2 == B_EQ {
                    self.pos = self.pos + 2;
                    return Ok(Token::Word(Word::Word(word_eq())));
                }
                if b == B_LT && b2 == B_EQ {
                    self.pos = self.pos + 2;
                    return Ok(Token::Word(Word::Word(word_le())));
                }
                if b == B_GT && b2 == B_EQ {
                    self.pos = self.pos + 2;
                    return Ok(Token::Word(Word::Word(word_ge())));
                }
            }
            self.pos = self.pos + 1;
            return Ok(Token::Token(TokenBase { tag: b as u32 }));
        }
        // Integer and floating literals.
        if b >= B_ZERO && b <= B_NINE {
            let mut v: u32 = 0;
            loop
                invariant_except_break
                    self.pos < self.input.len(),
                    is_digit_byte(self.input@[self.pos as int]),
                invariant
                    self.wf(),
                    self.input == old(self).input,
                    s_view == self.input@,
                    p0 == old(self).pos as int,
                    l0 == old(self).line_num,
                    self.words == old(self).words,
                    self.pos >= entry_pos >= old(self).pos,
                    entry_pos == ws_end(s_view, p0),
                    entry_pos < s_view.len() && is_digit_byte(s_view[entry_pos]),
                    self.line_num >= old(self).line_num,
                    self.line_num as int == line_after(l0, s_view, p0, entry_pos),
                    v as int == digits_value(s_view, entry_pos, self.pos as int),
                    digits_end(s_view, entry_pos) == digits_end(s_view, self.pos as int),
                ensures
                    self.wf(),
                    self.input == old(self).input,
                    self.words == old(self).words,
                    self.pos > entry_pos >= old(self).pos,
                    self.line_num >= old(self).line_num,
                    self.line_num as int == line_after(l0, s_view, p0, entry_pos),
                    v as int == digits_value(s_view, entry_pos, self.pos as int),
                    self.pos as int == digits_end(s_view, entry_pos),
                decreases self.input.len() - self.pos,
            {
                let d = (self.input[self.pos] - B_ZERO) as u32;
                let ghost pos_now = self.pos as int;
                proof {
                    lemma_digits_run(s_view, entry_pos);
                    assert(digits_end(s_view, pos_now) == digits_end(s_view, pos_now + 1));
                    lemma_digits_run(s_view, pos_now + 1);
                    assert(digits_value(s_view, entry_pos, pos_now + 1) == digits_value(
                        s_view,
                        entry_pos,
                        pos_now,
                    ) * 10 + (s_view[pos_now] - B_ZERO));
                }
                let scaled = match v.checked_mul(10) {
                    Some(x) => x,
                    None => {
                        proof {
                            lemma_digits_value_mono(
                                s_view,
                                entry_pos,
                                pos_now + 1,
                                digits_end(s_view, entry_pos),
                            );
                        }
                        return Err(Error::Lexical(self.line_num));
                    },
                };
                v = match scaled.checked_add(d) {
                    Some(x) => x,
                    None => {
                        proof {
                            lemma_digits_value_mono(
                                s_view,
                                entry_pos,
                                pos_now + 1,
                                digits_end(s_view, entry_pos),
                            );
                        }
                        return Err(Error::Lexical(self.line_num));
                    },
                };
                self.pos = self.pos + 1;
                if self.pos >= self.input.len() || !(self.input[self.pos] >= B_ZERO
                    && self.input[self.pos] <= B_NINE) {
                    proof {
                        assert(digits_end(s_view, self.pos as int) == self.pos as int);
                    }
                    break;
                }
            }
            if self.pos >= self.input.len() || self.input[self.pos] != B_DOT {
                return Ok(Token::Num(Num::new(v)));
            }
            // A decimal point: gather the fraction digits as text.
            self.pos = self.pos + 1;
            let ghost frac_start = self.pos as int;
            let mut frac: Vec<u8> = Vec::new();
            proof {
                assert(frac@ =~= s_view.subrange(frac_start, frac_start));
            }
            loop
                invariant
                    self.wf(),
                    self.input == old(self).input,
                    s_view == self.input@,
                    p0 == old(self).pos as int,
                    l0 == old(self).line_num,
                    self.words == old(self).words,
                    self.pos as int >= frac_start > entry_pos >= old(self).pos,
                    entry_pos == ws_end(s_view, p0),
                    frac_start <= s_view.len(),
                    self.line_num >= old(self).line_num,
                    self.line_num as int == line_after(l0, s_view, p0, entry_pos),
                    frac@ == s_view.subrange(frac_start, self.pos as int),
                    digits_end(s_view, frac_start) == digits_end(s_view, self.pos as int),
                    forall|i: int| 0 <= i < frac@.len() ==> frac@[i] < 128,
                ensures
                    self.wf(),
                    self.input == old(self).input,
                    self.words == old(self).words,
                    self.pos as int >= frac_start > entry_pos >= old(self).pos,
                    self.line_num >= old(self).line_num,
                    self.line_num as int == line_after(l0, s_view, p0, entry_pos),
                    frac@ == s_view.subrange(frac_start, self.pos as int),
                    self.pos as int == digits_end(s_view, frac_start),
                    forall|i: int| 0 <= i < frac@.len() ==> frac@[i] < 128,
                decreases self.input.len() - self.pos,
            {
                if self.pos >= self.input.len() || !(self.input[self.pos] >= B_ZERO
                    && self.input[self.pos] <= B_NINE) {
                    proof {
                        assert(digits_end(s_view, self.pos as int) == self.pos as int);
                    }
                    break;
                }
                proof {
                    assert(digits_end(s_view, self.pos as int) == digits_end(
                        s_view,
                        self.pos as int + 1,
                    ));
                }
                frac.push(self.input[self.pos]);
                self.pos = self.pos + 1;
                proof {
                    assert(frac@ =~= s_view.subrange(frac_start, self.pos as int));
                }
            }
            let mut text = dec_u32(v);
            if frac.len() > 0 {
                text.append(".");
                let f = ascii_string(frac);
                text.append(f.as_str());
                proof {
                    reveal_strlit(".");
                    assert(text@ =~= dec_seq(v as nat) + seq!['.'] + ascii_chars(
                        s_view,
                        frac_start,
                        digits_end(s_view, frac_start),
                    ));
                }
            }
            return Ok(Token::Real(Real::new(text)));
        }
        // Words: reserved words and identifiers.
        if (b >= B_LOWER_A && b <= B_LOWER_Z) || (b >= B_UPPER_A && b <= B_UPPER_Z) {
            let mut chars: Vec<u8> = Vec::new();
            proof {
                assert(chars@ =~= s_view.subrange(entry_pos, entry_pos));
            }
            loop
                invariant_except_break
                    self.pos < self.input.len(),
                    is_letter_byte(self.input@[self.pos as int]) || is_digit_byte(
                        self.input@[self.pos as int],
                    ),
                invariant
                    self.wf(),
                    self.input == old(self).input,
                    s_view == self.input@,
                    p0 == old(self).pos as int,
                    l0 == old(self).line_num,
                    self.words == old(self).words,
                    self.pos >= entry_pos >= old(self).pos,
                    entry_pos == ws_end(s_view, p0),
                    self.line_num >= old(self).line_num,
                    self.line_num as int == line_after(l0, s_view, p0, entry_pos),
                    chars@ == s_view.subrange(entry_pos, self.pos as int),
                    word_end(s_view, entry_pos) == word_end(s_view, self.pos as int),
                    forall|i: int| 0 <= i < chars@.len() ==> chars@[i] < 128,
                ensures
                    self.wf(),
                    self.input == old(self).input,
                    self.words == old(self).words,
                    self.pos > entry_pos >= old(self).pos,
                    self.line_num >= old(self).line_num,
                    self.line_num as int == line_after(l0, s_view, p0, entry_pos),
                    chars@ == s_view.subrange(entry_pos, self.pos as int),
                    self.pos as int == word_end(s_view, entry_pos),
                    forall|i: int| 0 <= i < chars@.len() ==> chars@[i] < 128,
                decreases self.input.len() - self.pos,
            {
                let c = self.input[self.pos];
                proof {
                    assert(c < 128);
                    assert(word_end(s_view, self.pos as int) == word_end(
                        s_view,
                        self.pos as int + 1,
                    ));
                }
                chars.push(c);
                self.pos = self.pos + 1;
                proof {
                    assert(chars@ =~= s_view.subrange(entry_pos, self.pos as int));
                }
                if self.pos >= self.input.len() {
                    proof {
                        assert(word_end(s_view, self.pos as int) == self.pos as int);
                    }
                    break;
                }
                let n = self.input[self.pos];
                if !((n >= B_LOWER_A && n <= B_LOWER_Z) || (n >= B_UPPER_A && n <= B_UPPER_Z) || (n
                    >= B_ZERO && n <= B_NINE)) {
                    proof {
                        assert(!is_letter_byte(n) && !is_digit_byte(n));
                        assert(word_end(s_view, self.pos as int) == self.pos as int);
                    }
                    break;
                }
            }
            let s = ascii_string(chars);
            proof {
                assert(s@ =~= ascii_chars(s_view, entry_pos, word_end(s_view, entry_pos)));
            }
            match self.find_word(&s) {
                Some(word) => {
                    return Ok(Token::Word(word));
                },
                None => {
                    let w = WordBase { token: TokenBase { tag: Tag::Id.code() }, lexeme: s.clone() };
                    self.words.push((s, Word::Word(w.clone())));
                    proof {
                        assert(self.words@.drop_last() =~= old(self).words@);
                    }
                    return Ok(Token::Word(Word::Word(w)));
                },
            }
        }
        // Any other ASCII byte stands for itself.
        self.pos = self.pos + 1;
        Ok(Token::Token(TokenBase { tag: b as u32 }))
    }
}

} // verus!
