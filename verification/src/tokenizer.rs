//! Splitting source lines into tokens.
use vstd::prelude::*;
use crate::text::string_from_chars;
use crate::text::string_to_chars;
use crate::text::str_to_chars;
use crate::text::concat;
use crate::typechecker::Type;

verus! {

/// An error reported by any stage of the compiler.
#[derive(PartialEq, Debug, Clone)]
pub enum Error {
    LocationError { message: String, row: usize, col_start: usize, col_end: usize },
    SimpleError { message: String },
    TypeError {
        message: String,
        expected: Type,
        found: Type,
        row: usize,
        col_start: usize,
        col_end: usize,
    },
}

impl Error {
    /// Whether this is a location error at the given place.
    pub open spec fn is_location(self, row: int, col_start: int, col_end: int) -> bool {
        self matches Error::LocationError { row: r, col_start: s, col_end: e, .. }
            && r == row && s == col_start && e == col_end
    }

    /// Whether this is a location error with the given message at the given place.
    pub open spec fn is_located(self, message: Seq<char>, row: int, col_start: int, col_end: int) -> bool {
        self matches Error::LocationError { message: m, row: r, col_start: s, col_end: e }
            && m@ == message && r == row && s == col_start && e == col_end
    }
}

/// The message of a run of symbol characters that is no sequence of symbols.
pub open spec fn invalid_symbol_message(symbol: Seq<char>) -> Seq<char> {
    "Invalid symbol: "@ + symbol
}

/// The symbols of the language: operators, punctuation and keywords.
#[derive(PartialEq, Eq, Structural, Clone, Copy, Debug)]
pub enum SymbolType {
    Equals,
    Plus,
    Minus,
    Star,
    Slash,
    Hat,
    Dot,
    Comma,
    ParenthesisOpen,
    ParenthesisClosed,
    SquareBracketOpen,
    SquareBracketClosed,
    EqualsEquals,
    NotEquals,
    GreaterThan,
    GreaterThanOrEqual,
    LessThan,
    LessThanOrEqual,
    Or,
    And,
    Not,
    For,
    In,
    If,
    Else,
    Fun,
    QuotationMark,
    Return,
    Break,
    PlusEquals,
    True,
    False,
}

/// A token with its place in the source.
#[derive(PartialEq, Clone, Debug)]
pub struct Token {
    pub data: TokenData,
    pub row: usize,
    pub col_start: usize,
    pub col_end: usize,
}

/// What a token holds.
#[derive(PartialEq, Clone, Debug)]
pub enum TokenData {
    Variable { name: String },
    Symbol { symbol_type: SymbolType },
    Number { number: i32 },
    String { value: String },
}

/// The tokens of one non-blank source line and its indentation level.
#[derive(PartialEq, Debug)]
pub struct TokenLine {
    pub tokens: Vec<Token>,
    pub indentation: usize,
}

/// The mathematical content of a token's data.
pub enum TokenDataView {
    Variable(Seq<char>),
    Symbol(SymbolType),
    Number(i32),
    Str(Seq<char>),
}

/// The mathematical content of a token.
pub struct TokenView {
    pub data: TokenDataView,
    pub row: int,
    pub col_start: int,
    pub col_end: int,
}

impl View for TokenData {
    type V = TokenDataView;

    open spec fn view(&self) -> TokenDataView {
        match self {
            TokenData::Variable { name } => TokenDataView::Variable(name@),
            TokenData::Symbol { symbol_type } => TokenDataView::Symbol(*symbol_type),
            TokenData::Number { number } => TokenDataView::Number(*number),
            TokenData::String { value } => TokenDataView::Str(value@),
        }
    }
}

impl View for Token {
    type V = TokenView;

    open spec fn view(&self) -> TokenView {
        TokenView {
            data: self.data@,
            row: self.row as int,
            col_start: self.col_start as int,
            col_end: self.col_end as int,
        }
    }
}

/// The views of a sequence of tokens.
pub open spec fn tokens_view(ts: Seq<Token>) -> Seq<TokenView> {
    ts.map_values(|t: Token| t@)
}

impl View for TokenLine {
    type V = (Seq<TokenView>, nat);

    open spec fn view(&self) -> (Seq<TokenView>, nat) {
        (tokens_view(self.tokens@), self.indentation as nat)
    }
}

/// The text of each symbol, as the tokenizer reads and writes it.
pub open spec fn symbol_text(t: SymbolType) -> Seq<char> {
    match t {
        SymbolType::Equals => seq!['='],
        SymbolType::Plus => seq!['+'],
        SymbolType::Minus => seq!['-'],
        SymbolType::Star => seq!['*'],
        SymbolType::Slash => seq!['/'],
        SymbolType::Hat => seq!['^'],
        SymbolType::Dot => seq!['.'],
        SymbolType::Comma => seq![','],
        SymbolType::ParenthesisOpen => seq!['('],
        SymbolType::ParenthesisClosed => seq![')'],
        SymbolType::SquareBracketOpen => seq!['['],
        SymbolType::SquareBracketClosed => seq![']'],
        SymbolType::EqualsEquals => seq!['=', '='],
        SymbolType::NotEquals => seq!['!', '='],
        SymbolType::GreaterThan => seq!['>'],
        SymbolType::GreaterThanOrEqual => seq!['>', '='],
        SymbolType::LessThan => seq!['<'],
        SymbolType::LessThanOrEqual => seq!['<', '='],
        SymbolType::Or => seq!['o', 'r'],
        SymbolType::And => seq!['a', 'n', 'd'],
        SymbolType::Not => seq!['n', 'o', 't'],
        SymbolType::For => seq!['f', 'o', 'r'],
        SymbolType::In => seq!['i', 'n'],
        SymbolType::If => seq!['i', 'f'],
        SymbolType::Else => seq!['e', 'l', 's', 'e'],
        SymbolType::Fun => seq!['f', 'u', 'n'],
        SymbolType::QuotationMark => seq!['\"'],
        SymbolType::Return => seq!['r', 'e', 't', 'u', 'r', 'n'],
        SymbolType::Break => seq!['b', 'r', 'e', 'a', 'k'],
        SymbolType::PlusEquals => seq!['+', '='],
        SymbolType::True => seq!['t', 'r', 'u', 'e'],
        SymbolType::False => seq!['f', 'a', 'l', 's', 'e'],
    }
}

/// The symbol whose text is `s`, if there is one.
pub open spec fn symbol_from_text(s: Seq<char>) -> Option<SymbolType> {
    if s.len() == 1 {
        if s[0] == '=' {
            Some(SymbolType::Equals)
        } else if s[0] == '+' {
            Some(SymbolType::Plus)
        } else if s[0] == '-' {
            Some(SymbolType::Minus)
        } else if s[0] == '*' {
            Some(SymbolType::Star)
        } else if s[0] == '/' {
            Some(SymbolType::Slash)
        } else if s[0] == '^' {
            Some(SymbolType::Hat)
        } else if s[0] == '.' {
            Some(SymbolType::Dot)
        } else if s[0] == ',' {
            Some(SymbolType::Comma)
        } else if s[0] == '(' {
            Some(SymbolType::ParenthesisOpen)
        } else if s[0] == ')' {
            Some(SymbolType::ParenthesisClosed)
        } else if s[0] == '[' {
            Some(SymbolType::SquareBracketOpen)
        } else if s[0] == ']' {
            Some(SymbolType::SquareBracketClosed)
        } else if s[0] == '>' {
            Some(SymbolType::GreaterThan)
        } else if s[0] == '<' {
            Some(SymbolType::LessThan)
        } else if s[0] == '\"' {
            Some(SymbolType::QuotationMark)
        } else {
            None
        }
    } else if s.len() == 2 {
        if s[0] == '=' && s[1] == '=' {
            Some(SymbolType::EqualsEquals)
        } else if s[0] == '!' && s[1] == '=' {
            Some(SymbolType::NotEquals)
        } else if s[0] == '>' && s[1] == '=' {
            Some(SymbolType::GreaterThanOrEqual)
        } else if s[0] == '<' && s[1] == '=' {
            Some(SymbolType::LessThanOrEqual)
        } else if s[0] == 'o' && s[1] == 'r' {
            Some(SymbolType::Or)
        } else if s[0] == 'i' && s[1] == 'n' {
            Some(SymbolType::In)
        } else if s[0] == 'i' && s[1] == 'f' {
            Some(SymbolType::If)
        } else if s[0] == '+' && s[1] == '=' {
            Some(SymbolType::PlusEquals)
        } else {
            None
        }
    } else if s.len() == 3 {
        if s[0] == 'a' && s[1] == 'n' && s[2] == 'd' {
            Some(SymbolType::And)
        } else if s[0] == 'n' && s[1] == 'o' && s[2] == 't' {
            Some(SymbolType::Not)
        } else if s[0] == 'f' && s[1] == 'o' && s[2] == 'r' {
            Some(SymbolType::For)
        } else if s[0] == 'f' && s[1] == 'u' && s[2] == 'n' {
            Some(SymbolType::Fun)
        } else {
            None
        }
    } else if s.len() == 4 {
        if s[0] == 'e' && s[1] == 'l' && s[2] == 's' && s[3] == 'e' {
            Some(SymbolType::Else)
        } else if s[0] == 't' && s[1] == 'r' && s[2] == 'u' && s[3] == 'e' {
            Some(SymbolType::True)
        } else {
            None
        }
    } else if s.len() == 5 {
        if s[0] == 'b' && s[1] == 'r' && s[2] == 'e' && s[3] == 'a' && s[4] == 'k' {
            Some(SymbolType::Break)
        } else if s[0] == 'f' && s[1] == 'a' && s[2] == 'l' && s[3] == 's' && s[4] == 'e' {
            Some(SymbolType::False)
        } else {
            None
        }
    } else if s.len() == 6 {
        if s[0] == 'r' && s[1] == 'e' && s[2] == 't' && s[3] == 'u' && s[4] == 'r' && s[5] == 'n' {
            Some(SymbolType::Return)
        } else {
            None
        }
    } else {
        None
    }
}

/// The characters of a symbol's text.
pub fn symbol_chars(t: SymbolType) -> (r: Vec<char>)
    ensures
        r@ == symbol_text(t),
{
    match t {
        SymbolType::Equals => vec!['='],
        SymbolType::Plus => vec!['+'],
        SymbolType::Minus => vec!['-'],
        SymbolType::Star => vec!['*'],
        SymbolType::Slash => vec!['/'],
        SymbolType::Hat => vec!['^'],
        SymbolType::Dot => vec!['.'],
        SymbolType::Comma => vec![','],
        SymbolType::ParenthesisOpen => vec!['('],
        SymbolType::ParenthesisClosed => vec![')'],
        SymbolType::SquareBracketOpen => vec!['['],
        SymbolType::SquareBracketClosed => vec![']'],
        SymbolType::EqualsEquals => vec!['=', '='],
        SymbolType::NotEquals => vec!['!', '='],
        SymbolType::GreaterThan => vec!['>'],
        SymbolType::GreaterThanOrEqual => vec!['>', '='],
        SymbolType::LessThan => vec!['<'],
        SymbolType::LessThanOrEqual => vec!['<', '='],
        SymbolType::Or => vec!['o', 'r'],
        SymbolType::And => vec!['a', 'n', 'd'],
        SymbolType::Not => vec!['n', 'o', 't'],
        SymbolType::For => vec!['f', 'o', 'r'],
        SymbolType::In => vec!['i', 'n'],
        SymbolType::If => vec!['i', 'f'],
        SymbolType::Else => vec!['e', 'l', 's', 'e'],
        SymbolType::Fun => vec!['f', 'u', 'n'],
        SymbolType::QuotationMark => vec!['\"'],
        SymbolType::Return => vec!['r', 'e', 't', 'u', 'r', 'n'],
        SymbolType::Break => vec!['b', 'r', 'e', 'a', 'k'],
        SymbolType::PlusEquals => vec!['+', '='],
        SymbolType::True => vec!['t', 'r', 'u', 'e'],
        SymbolType::False => vec!['f', 'a', 'l', 's', 'e'],
    }
}

/// The symbol spelled by `s[lo..hi]`, if there is one.
fn symbol_type_in(s: &Vec<char>, lo: usize, hi: usize) -> (r: Option<SymbolType>)
    requires
        lo <= hi <= s@.len(),
    ensures
        r == symbol_from_text(s@.subrange(lo as int, hi as int)),
{
    let n = hi - lo;
    if n == 1 {
        if s[lo] == '=' {
            Some(SymbolType::Equals)
        } else if s[lo] == '+' {
            Some(SymbolType::Plus)
        } else if s[lo] == '-' {
            Some(SymbolType::Minus)
        } else if s[lo] == '*' {
            Some(SymbolType::Star)
        } else if s[lo] == '/' {
            Some(SymbolType::Slash)
        } else if s[lo] == '^' {
            Some(SymbolType::Hat)
        } else if s[lo] == '.' {
            Some(SymbolType::Dot)
        } else if s[lo] == ',' {
            Some(SymbolType::Comma)
        } else if s[lo] == '(' {
            Some(SymbolType::ParenthesisOpen)
        } else if s[lo] == ')' {
            Some(SymbolType::ParenthesisClosed)
        } else if s[lo] == '[' {
            Some(SymbolType::SquareBracketOpen)
        } else if s[lo] == ']' {
            Some(SymbolType::SquareBracketClosed)
        } else if s[lo] == '>' {
            Some(SymbolType::GreaterThan)
        } else if s[lo] == '<' {
            Some(SymbolType::LessThan)
        } else if s[lo] == '\"' {
            Some(SymbolType::QuotationMark)
        } else {
            None
        }
    } else if n == 2 {
        if s[lo] == '=' && s[lo + 1] == '=' {
            Some(SymbolType::EqualsEquals)
        } else if s[lo] == '!' && s[lo + 1] == '=' {
            Some(SymbolType::NotEquals)
        } else if s[lo] == '>' && s[lo + 1] == '=' {
            Some(SymbolType::GreaterThanOrEqual)
        } else if s[lo] == '<' && s[lo + 1] == '=' {
            Some(SymbolType::LessThanOrEqual)
        } else if s[lo] == 'o' && s[lo + 1] == 'r' {
            Some(SymbolType::Or)
        } else if s[lo] == 'i' && s[lo + 1] == 'n' {
            Some(SymbolType::In)
        } else if s[lo] == 'i' && s[lo + 1] == 'f' {
            Some(SymbolType::If)
        } else if s[lo] == '+' && s[lo + 1] == '=' {
            Some(SymbolType::PlusEquals)
        } else {
            None
        }
    } else if n == 3 {
        if s[lo] == 'a' && s[lo + 1] == 'n' && s[lo + 2] == 'd' {
            Some(SymbolType::And)
        } else if s[lo] == 'n' && s[lo + 1] == 'o' && s[lo + 2] == 't' {
            Some(SymbolType::Not)
        } else if s[lo] == 'f' && s[lo + 1] == 'o' && s[lo + 2] == 'r' {
            Some(SymbolType::For)
        } else if s[lo] == 'f' && s[lo + 1] == 'u' && s[lo + 2] == 'n' {
            Some(SymbolType::Fun)
        } else {
            None
        }
    } else if n == 4 {
        if s[lo] == 'e' && s[lo + 1] == 'l' && s[lo + 2] == 's' && s[lo + 3] == 'e' {
            Some(SymbolType::Else)
        } else if s[lo] == 't' && s[lo + 1] == 'r' && s[lo + 2] == 'u' && s[lo + 3] == 'e' {
            Some(SymbolType::True)
        } else {
            None
        }
    } else if n == 5 {
        if s[lo] == 'b' && s[lo + 1] == 'r' && s[lo + 2] == 'e' && s[lo + 3] == 'a' && s[lo + 4] == 'k' {
            Some(SymbolType::Break)
        } else if s[lo] == 'f' && s[lo + 1] == 'a' && s[lo + 2] == 'l' && s[lo + 3] == 's' && s[lo + 4] == 'e' {
            Some(SymbolType::False)
        } else {
            None
        }
    } else if n == 6 {
        if s[lo] == 'r' && s[lo + 1] == 'e' && s[lo + 2] == 't' && s[lo + 3] == 'u' && s[lo + 4] == 'r' && s[lo + 5] == 'n' {
            Some(SymbolType::Return)
        } else {
            None
        }
    } else {
        None
    }
}

/// Every symbol maps back to itself through its text.
pub proof fn lemma_symbol_text_round_trip(t: SymbolType)
    ensures
        symbol_from_text(symbol_text(t)) == Some(t),
{
}

/// A symbol's text read back gives the same symbol.
pub proof fn lemma_symbol_text_back(s: Seq<char>)
    ensures
        symbol_from_text(s) matches Some(t) ==> symbol_text(t) == s,
{
    if let Some(t) = symbol_from_text(s) {
        assert(s =~= symbol_text(t));
    }
}

/// The symbol named by `symbol`, or an error when it names none.
pub fn get_symbol_type(symbol: &String) -> (r: Result<SymbolType, Error>)
    ensures
        r matches Ok(t) ==> symbol_from_text(symbol@) == Some(t),
        r is Err ==> symbol_from_text(symbol@) is None && r->Err_0 is SimpleError,
{
    let cs = string_to_chars(symbol);
    match symbol_type_in(&cs, 0, cs.len()) {
        Some(t) => {
            assert(cs@.subrange(0, cs@.len() as int) =~= cs@);
            Ok(t)
        },
        None => {
            assert(cs@.subrange(0, cs@.len() as int) =~= cs@);
            let m = concat(symbol.as_str(), " is not a Symbol");
            Err(Error::SimpleError { message: m })
        },
    }
}

/// The text of a symbol.
pub fn get_symbol_from_type(symbol_type: &SymbolType) -> (r: String)
    ensures
        r@ == symbol_text(*symbol_type),
{
    let cs = symbol_chars(*symbol_type);
    string_from_chars(cs.as_slice())
}

/// Whether `symbol` is the text of some symbol.
pub fn is_symbol(symbol: &String) -> (r: bool)
    ensures
        r == (symbol_from_text(symbol@) is Some),
{
    match get_symbol_type(symbol) {
        Ok(_) => true,
        _ => false,
    }
}

/// Kinds of characters, as the tokenizer sees them.
#[derive(PartialEq, Eq, Structural, Clone, Copy)]
pub enum CharType {
    Space,
    Symbol,
    Number,
    Variable,
}

/// The characters that start or continue a symbol.
pub open spec fn is_reserved_char(c: char) -> bool {
    c == '=' || c == '+' || c == '-' || c == '*' || c == '/' || c == '^' || c == '.' || c == ','
        || c == '(' || c == ')' || c == '"' || c == '<' || c == '>' || c == '!' || c == '['
        || c == ']'
}

/// The kind of a character.
pub open spec fn char_type(c: char) -> CharType {
    if c == ' ' {
        CharType::Space
    } else if '0' <= c && c <= '9' {
        CharType::Number
    } else if is_reserved_char(c) {
        CharType::Symbol
    } else {
        CharType::Variable
    }
}

fn get_char_type(c: char) -> (r: CharType)
    ensures
        r == char_type(c),
{
    if c == ' ' {
        CharType::Space
    } else if '0' <= c && c <= '9' {
        CharType::Number
    } else if c == '=' || c == '+' || c == '-' || c == '*' || c == '/' || c == '^' || c == '.'
        || c == ',' || c == '(' || c == ')' || c == '"' || c == '<' || c == '>' || c == '!'
        || c == '[' || c == ']' {
        CharType::Symbol
    } else {
        CharType::Variable
    }
}

/// A symbol token.
pub open spec fn symbol_token(t: SymbolType, row: int, s: int, e: int) -> TokenView {
    TokenView { data: TokenDataView::Symbol(t), row, col_start: s, col_end: e }
}

/// Splits a run of symbol characters into symbols, longest first, backtracking when the
/// rest cannot be split; the tokens start at column `start`.
pub open spec fn separated_tokens(s: Seq<char>, row: int, start: int) -> Option<Seq<TokenView>>
    decreases s.len(), s.len() + 1,
{
    if s.len() == 0 {
        Some(seq![])
    } else {
        separated_tokens_from(s, row, start, s.len() as int)
    }
}

/// The split of `s` whose first symbol is at most `i` characters long.
pub open spec fn separated_tokens_from(s: Seq<char>, row: int, start: int, i: int) -> Option<
    Seq<TokenView>,
>
    decreases s.len(), i,
{
    if i < 1 || i > s.len() {
        None
    } else {
        match symbol_from_text(s.subrange(0, i)) {
            Some(t) => match separated_tokens(s.subrange(i, s.len() as int), row, start + i) {
                Some(rest) => Some(seq![symbol_token(t, row, start, start + i)] + rest),
                None => separated_tokens_from(s, row, start, i - 1),
            },
            None => separated_tokens_from(s, row, start, i - 1),
        }
    }
}

/// Splits `s[from..]` into symbol tokens starting at column `start`.
fn separate_symbols(s: &Vec<char>, from: usize, row: usize, start: usize) -> (r: Result<
    Vec<Token>,
    Error,
>)
    requires
        from <= s@.len(),
        start + (s@.len() - from) <= usize::MAX,
    ensures
        r matches Ok(v) ==> separated_tokens(s@.subrange(from as int, s@.len() as int), row as int, start as int) == Some(tokens_view(v@)),
        r is Err ==> separated_tokens(s@.subrange(from as int, s@.len() as int), row as int, start as int) is None,
    decreases s@.len() - from,
{
    let ghost sub = s@.subrange(from as int, s@.len() as int);
    let n = s.len() - from;
    if n == 0 {
        assert(tokens_view(Seq::<Token>::empty()) =~= seq![]);
        return Ok(Vec::new());
    }
    let mut i = n;
    while i >= 1
        invariant
            1 <= n == sub.len(),
            i <= n,
            from + n == s@.len(),
            s@.len() <= usize::MAX,
            sub == s@.subrange(from as int, s@.len() as int),
            start + n <= usize::MAX,
            separated_tokens(sub, row as int, start as int) == separated_tokens_from(sub, row as int, start as int, i as int),
        decreases i,
    {
        assert(sub.subrange(0, i as int) =~= s@.subrange(from as int, from + i));
        match symbol_type_in(s, from, from + i) {
            Some(t) => {
                assert(sub.subrange(i as int, sub.len() as int) =~= s@.subrange(from + i, s@.len() as int));
                match separate_symbols(s, from + i, row, start + i) {
                    Ok(rest) => {
                        let mut v = Vec::new();
                        v.push(Token { data: TokenData::Symbol { symbol_type: t }, row, col_start: start, col_end: start + i });
                        let ghost v0 = v@;
                        let mut rest = rest;
                        let ghost rv = rest@;
                        v.append(&mut rest);
                        assert(v@ =~= v0 + rv);
                        assert(tokens_view(v@) =~= seq![symbol_token(t, row as int, start as int, start + i)] + tokens_view(rv));
                        return Ok(v);
                    },
                    Err(_) => {},
                }
            },
            None => {},
        }
        i = i - 1;
    }
    let m = concat("No symbol combination found for ", string_from_chars(s.as_slice()).as_str());
    Err(Error::SimpleError { message: m })
}

/// How many times `c` repeats at the start of `cs`.
pub open spec fn leading_count(cs: Seq<char>, c: char) -> nat
    decreases cs.len(),
{
    if cs.len() > 0 && cs[0] == c {
        1 + leading_count(cs.subrange(1, cs.len() as int), c)
    } else {
        0
    }
}

/// The indentation level of a line: leading tabs, or leading spaces in groups of four;
/// `None` when the leading spaces are not a multiple of four.
pub open spec fn indentation_of(cs: Seq<char>) -> Option<nat> {
    if cs.len() == 0 {
        Some(0)
    } else if cs[0] == '\t' && leading_count(cs, '\t') < cs.len() {
        Some(leading_count(cs, '\t'))
    } else if leading_count(cs, ' ') % 4 == 0 {
        Some(leading_count(cs, ' ') / 4)
    } else {
        None
    }
}

/// The number of leading copies of `c` in `cs`.
fn count_leading(cs: &Vec<char>, c: char) -> (r: usize)
    ensures
        r == leading_count(cs@, c),
{
    let n = cs.len();
    let mut i: usize = 0;
    assert(cs@.subrange(0, n as int) =~= cs@);
    while i < n && cs[i] == c
        invariant
            n == cs@.len(),
            i <= n,
            leading_count(cs@, c) == i + leading_count(cs@.subrange(i as int, n as int), c),
        decreases n - i,
    {
        assert(cs@.subrange(i as int, n as int).subrange(1, n - i) =~= cs@.subrange(i + 1, n as int));
        i = i + 1;
    }
    assert(cs@.subrange(0, n as int) =~= cs@);
    i
}

/// The indentation level of a line, or a location error on the line's leading spaces.
fn count_indentation(line: &Vec<char>, line_index: usize) -> (r: Result<usize, Error>)
    ensures
        r matches Ok(n) ==> indentation_of(line@) == Some(n as nat),
        r matches Err(e) ==> indentation_of(line@) is None && e.is_located("Invalid indentation"@, line_index as int, 0, leading_count(line@, ' ') as int),
{
    if line.len() == 0 {
        return Ok(0);
    }
    if line[0] == '\t' {
        let tabs = count_leading(line, '\t');
        if tabs < line.len() {
            return Ok(tabs);
        }
    }
    let leading_spaces = count_leading(line, ' ');
    if leading_spaces % 4 == 0 {
        return Ok(leading_spaces / 4);
    }
    Err(Error::LocationError {
        message: String::from_str("Invalid indentation"),
        row: line_index,
        col_start: 0,
        col_end: leading_spaces,
    })
}

/// Whether a line holds nothing but spaces, tabs and carriage returns.
pub open spec fn is_blank(s: Seq<char>) -> bool {
    forall|i: int| 0 <= i < s.len() ==> (s[i] == ' ' || s[i] == '\t' || s[i] == '\r')
}

/// A line without carriage returns, with each tab widened to four spaces.
pub open spec fn cleaned(s: Seq<char>) -> Seq<char>
    decreases s.len(),
{
    if s.len() == 0 {
        seq![]
    } else {
        let c = s.last();
        cleaned(s.drop_last()) + if c == '\r' {
            seq![]
        } else if c == '\t' {
            seq![' ', ' ', ' ', ' ']
        } else {
            seq![c]
        }
    }
}

/// The number of bytes that encode `c` in UTF-8.
pub open spec fn char_utf8_len(c: char) -> nat {
    if (c as u32) < 0x80 {
        1
    } else if (c as u32) < 0x800 {
        2
    } else if (c as u32) < 0x10000 {
        3
    } else {
        4
    }
}

/// The number of bytes that encode `s` in UTF-8.
pub open spec fn utf8_len(s: Seq<char>) -> nat
    decreases s.len(),
{
    if s.len() == 0 {
        0
    } else {
        utf8_len(s.drop_last()) + char_utf8_len(s.last())
    }
}

/// Removes carriage returns and widens tabs; also says whether the line is blank.
fn clean_line(s: &Vec<char>) -> (r: (Vec<char>, bool))
    requires
        s@.len() <= usize::MAX / 16,
    ensures
        r.0@ == cleaned(s@),
        r.1 == is_blank(s@),
        r.0@.len() <= 4 * s@.len(),
{
    let mut out: Vec<char> = Vec::new();
    let mut blank = true;
    let mut i: usize = 0;
    while i < s.len()
        invariant
            i <= s@.len() <= usize::MAX / 16,
            out@ == cleaned(s@.subrange(0, i as int)),
            out@.len() <= 4 * i,
            blank == is_blank(s@.subrange(0, i as int)),
        decreases s@.len() - i,
    {
        let c = s[i];
        assert(s@.subrange(0, i + 1).drop_last() =~= s@.subrange(0, i as int));
        if c == '\r' {
        } else if c == '\t' {
            out.push(' ');
            out.push(' ');
            out.push(' ');
            out.push(' ');
            blank = blank;
        } else {
            out.push(c);
            if c != ' ' {
                blank = false;
            }
        }
        proof {
            let p = s@.subrange(0, i + 1);
            assert(p.last() == c);
            if c != '\r' && c != '\t' && c != ' ' {
                assert(!is_blank(p)) by { assert(p[i as int] == c); }
            }
            if is_blank(s@.subrange(0, i as int)) && (c == '\r' || c == '\t' || c == ' ') {
                assert forall|j: int| 0 <= j < p.len() implies (p[j] == ' ' || p[j] == '\t' || p[j] == '\r') by {
                    if j < i {
                        assert(p[j] == s@.subrange(0, i as int)[j]);
                    }
                }
            }
            if !is_blank(s@.subrange(0, i as int)) {
                let j = choose|j: int| 0 <= j < i && !(s@.subrange(0, i as int)[j] == ' ' || s@.subrange(0, i as int)[j] == '\t' || s@.subrange(0, i as int)[j] == '\r');
                assert(p[j] == s@.subrange(0, i as int)[j]);
            }
        }
        i = i + 1;
    }
    assert(s@.subrange(0, s@.len() as int) =~= s@);
    (out, blank)
}

/// The number of bytes that encode `s` in UTF-8.
fn utf8_length(s: &Vec<char>) -> (r: usize)
    requires
        s@.len() <= usize::MAX / 4,
    ensures
        r == utf8_len(s@),
{
    let mut n: usize = 0;
    let mut i: usize = 0;
    while i < s.len()
        invariant
            i <= s@.len() <= usize::MAX / 4,
            n == utf8_len(s@.subrange(0, i as int)),
            n <= 4 * i,
        decreases s@.len() - i,
    {
        let c = s[i];
        assert(s@.subrange(0, i + 1).drop_last() =~= s@.subrange(0, i as int));
        let k: usize = if (c as u32) < 0x80 {
            1
        } else if (c as u32) < 0x800 {
            2
        } else if (c as u32) < 0x10000 {
            3
        } else {
            4
        };
        n = n + k;
        i = i + 1;
    }
    assert(s@.subrange(0, s@.len() as int) =~= s@);
    n
}

/// The tokenizer's state partway through a line.
pub struct LexState {
    pub in_number: bool,
    pub number: i32,
    pub in_string: bool,
    pub string: Seq<char>,
    pub in_variable: bool,
    pub variable: Seq<char>,
    pub in_symbol: bool,
    pub symbol: Seq<char>,
    pub start: int,
    pub tokens: Seq<TokenView>,
}

/// The state at the start of a line.
pub open spec fn lex_initial() -> LexState {
    LexState {
        in_number: false,
        number: 0,
        in_string: false,
        string: seq![],
        in_variable: false,
        variable: seq![],
        in_symbol: false,
        symbol: seq![],
        start: 0,
        tokens: seq![],
    }
}

/// `st` with one more token.
pub open spec fn with_token(st: LexState, data: TokenDataView, row: int, s: int, e: int) -> LexState {
    LexState { tokens: st.tokens.push(TokenView { data, row, col_start: s, col_end: e }), ..st }
}

/// A word is a keyword symbol when it spells one, and a variable otherwise.
pub open spec fn word_data(w: Seq<char>) -> TokenDataView {
    match symbol_from_text(w) {
        Some(t) => TokenDataView::Symbol(t),
        None => TokenDataView::Variable(w),
    }
}

/// The tokens that a pending run of symbol characters ending at column `end` becomes.
pub open spec fn close_symbol(st: LexState, row: int, end: int) -> Option<Seq<TokenView>> {
    match symbol_from_text(st.symbol) {
        Some(t) => Some(seq![symbol_token(t, row, st.start, end)]),
        None => separated_tokens(st.symbol, row, st.start),
    }
}

/// The value of a decimal digit character.
pub open spec fn digit_value(c: char) -> i32 {
    (c as u32 - 48) as i32
}

/// The effect of character `c` once pending numbers, words and symbols were closed.
pub open spec fn lex_char(st: LexState, c: char, col: int, row: int) -> Result<LexState, (Seq<char>, int, int)> {
    match char_type(c) {
        CharType::Space => Ok(st),
        CharType::Symbol => if c == '"' {
            if st.in_symbol {
                match symbol_from_text(st.symbol) {
                    Some(t) => Ok(
                        LexState {
                            in_symbol: false,
                            in_string: true,
                            symbol: seq![],
                            start: col,
                            ..with_token(st, TokenDataView::Symbol(t), row, st.start, col)
                        },
                    ),
                    None => Err((invalid_symbol_message(st.symbol), st.start, col)),
                }
            } else {
                Ok(LexState { in_symbol: false, in_string: true, symbol: seq![], start: col, ..st })
            }
        } else {
            Ok(
                LexState {
                    start: if st.in_symbol { st.start } else { col },
                    in_symbol: true,
                    symbol: st.symbol.push(c),
                    ..st
                },
            )
        },
        CharType::Number => if st.in_variable {
            Ok(LexState { variable: st.variable.push(c), ..st })
        } else {
            Ok(
                LexState {
                    start: if st.in_number { st.start } else { col },
                    in_number: true,
                    number: st.number.wrapping_mul(10).wrapping_add(digit_value(c)),
                    ..st
                },
            )
        },
        CharType::Variable => Ok(
            LexState {
                start: if st.in_variable { st.start } else { col },
                in_variable: true,
                variable: st.variable.push(c),
                ..st
            },
        ),
    }
}

/// Closes a pending number when `c` does not continue it.
pub open spec fn close_number(st: LexState, c: char, col: int, row: int) -> LexState {
    if st.in_number && char_type(c) != CharType::Number {
        LexState {
            number: 0,
            in_number: false,
            ..with_token(st, TokenDataView::Number(st.number), row, st.start, col)
        }
    } else {
        st
    }
}

/// Closes a pending word when `c` does not continue it.
pub open spec fn close_word(st: LexState, c: char, col: int, row: int) -> LexState {
    if st.in_variable && char_type(c) != CharType::Variable && char_type(c) != CharType::Number {
        LexState {
            variable: seq![],
            in_variable: false,
            ..with_token(st, word_data(st.variable), row, st.start, col)
        }
    } else {
        st
    }
}

/// The effect of reading character `c` at column `col`; an error gives the columns of an
/// invalid run of symbol characters.
pub open spec fn lex_step(st: LexState, c: char, col: int, row: int) -> Result<LexState, (Seq<char>, int, int)> {
    if st.in_string {
        if c == '"' {
            Ok(
                LexState {
                    in_string: false,
                    string: seq![],
                    ..with_token(st, TokenDataView::Str(st.string), row, st.start, col + 1)
                },
            )
        } else {
            Ok(LexState { string: st.string.push(c), ..st })
        }
    } else {
        let s2 = close_word(close_number(st, c, col, row), c, col, row);
        if s2.in_symbol && char_type(c) != CharType::Symbol {
            match close_symbol(s2, row, col) {
                None => Err((invalid_symbol_message(s2.symbol), s2.start, col)),
                Some(ts) => lex_char(
                    LexState { tokens: s2.tokens + ts, symbol: seq![], in_symbol: false, ..s2 },
                    c,
                    col,
                    row,
                ),
            }
        } else {
            lex_char(s2, c, col, row)
        }
    }
}

/// The state after reading all of `cs` on line `row`.
pub open spec fn lex_chars(cs: Seq<char>, row: int) -> Result<LexState, (Seq<char>, int, int)>
    decreases cs.len(),
{
    if cs.len() == 0 {
        Ok(lex_initial())
    } else {
        match lex_chars(cs.drop_last(), row) {
            Ok(st) => lex_step(st, cs.last(), cs.len() - 1, row),
            Err(e) => Err(e),
        }
    }
}

/// The tokens of a line once its end (byte length `len`) closes whatever is pending; an
/// unterminated string yields no token.
pub open spec fn lex_finish(st: LexState, row: int, len: int) -> Result<Seq<TokenView>, (Seq<char>, int, int)> {
    let s1 = if st.in_number {
        with_token(st, TokenDataView::Number(st.number), row, st.start, len)
    } else {
        st
    };
    let s2 = if s1.in_variable {
        with_token(s1, word_data(s1.variable), row, s1.start, len)
    } else {
        s1
    };
    if s2.in_symbol {
        match close_symbol(s2, row, len) {
            Some(ts) => Ok(s2.tokens + ts),
            None => Err((invalid_symbol_message(s2.symbol), s2.start, len)),
        }
    } else {
        Ok(s2.tokens)
    }
}

/// The tokens of a cleaned line, or the columns of its first invalid symbol run.
pub open spec fn lex_line(cs: Seq<char>, row: int) -> Result<Seq<TokenView>, (Seq<char>, int, int)> {
    match lex_chars(cs, row) {
        Ok(st) => lex_finish(st, row, utf8_len(cs) as int),
        Err(e) => Err(e),
    }
}

/// The tokens and indentation of a cleaned line, or the place of its first error.
pub open spec fn line_tokens(cs: Seq<char>, row: int) -> Result<(Seq<TokenView>, nat), (Seq<char>, int, int, int)> {
    match indentation_of(cs) {
        None => Err(("Invalid indentation"@, row, 0, leading_count(cs, ' ') as int)),
        Some(ind) => match lex_line(cs, row) {
            Ok(ts) => Ok((ts, ind)),
            Err((m, a, b)) => Err((m, row, a, b)),
        },
    }
}

/// The token lines of a program: blank lines are skipped, each other line is cleaned and
/// tokenized with its index as row; the first error stops the work.
pub open spec fn tokenize_lines(lines: Seq<Seq<char>>) -> Result<Seq<(Seq<TokenView>, nat)>, (Seq<char>, int, int, int)>
    decreases lines.len(),
{
    if lines.len() == 0 {
        Ok(seq![])
    } else {
        match tokenize_lines(lines.drop_last()) {
            Err(e) => Err(e),
            Ok(acc) => if is_blank(lines.last()) {
                Ok(acc)
            } else {
                match line_tokens(cleaned(lines.last()), lines.len() - 1) {
                    Ok(tl) => Ok(acc.push(tl)),
                    Err(e) => Err(e),
                }
            },
        }
    }
}

struct Lexer {
    in_number: bool,
    number: i32,
    in_string: bool,
    string: Vec<char>,
    in_variable: bool,
    variable: Vec<char>,
    in_symbol: bool,
    symbol: Vec<char>,
    start: usize,
    tokens: Vec<Token>,
}

impl Lexer {
    spec fn state(&self) -> LexState {
        LexState {
            in_number: self.in_number,
            number: self.number,
            in_string: self.in_string,
            string: self.string@,
            in_variable: self.in_variable,
            variable: self.variable@,
            in_symbol: self.in_symbol,
            symbol: self.symbol@,
            start: self.start as int,
            tokens: tokens_view(self.tokens@),
        }
    }
}

proof fn lemma_push_token(ts: Seq<Token>, t: Token)
    ensures
        tokens_view(ts.push(t)) == tokens_view(ts).push(t@),
{
    assert(tokens_view(ts.push(t)) =~= tokens_view(ts).push(t@));
}

proof fn lemma_append_tokens(ts: Seq<Token>, us: Seq<Token>)
    ensures
        tokens_view(ts + us) == tokens_view(ts) + tokens_view(us),
{
    assert(tokens_view(ts + us) =~= tokens_view(ts) + tokens_view(us));
}

fn push_token(lx: &mut Lexer, data: TokenData, row: usize, s: usize, e: usize)
    ensures
        final(lx).state() == with_token(old(lx).state(), data@, row as int, s as int, e as int),
        final(lx).start == old(lx).start,
        final(lx).symbol@ == old(lx).symbol@,
{
    let ghost old_tokens = lx.tokens@;
    let t = Token { data, row, col_start: s, col_end: e };
    proof { lemma_push_token(old_tokens, t); }
    lx.tokens.push(t);
}

/// The data of a finished word: a keyword symbol or a variable name.
fn word_token_data(w: &Vec<char>) -> (r: TokenData)
    ensures
        r@ == word_data(w@),
{
    match symbol_type_in(w, 0, w.len()) {
        Some(t) => {
            assert(w@.subrange(0, w@.len() as int) =~= w@);
            TokenData::Symbol { symbol_type: t }
        },
        None => {
            assert(w@.subrange(0, w@.len() as int) =~= w@);
            TokenData::Variable { name: string_from_chars(w.as_slice()) }
        },
    }
}

/// The tokens a pending symbol run becomes, or an error at its columns.
fn close_symbol_exec(lx: &Lexer, row: usize, end: usize) -> (r: Result<Vec<Token>, Error>)
    requires
        lx.start <= end,
        lx.symbol@.len() <= end,
        end <= usize::MAX / 4,
    ensures
        r matches Ok(v) ==> close_symbol(lx.state(), row as int, end as int) == Some(tokens_view(v@)),
        r matches Err(e) ==> close_symbol(lx.state(), row as int, end as int) is None && e.is_located(invalid_symbol_message(lx.state().symbol), row as int, lx.start as int, end as int),
{
    assert(lx.symbol@.subrange(0, lx.symbol@.len() as int) =~= lx.symbol@);
    match symbol_type_in(&lx.symbol, 0, lx.symbol.len()) {
        Some(t) => {
            let mut v = Vec::new();
            v.push(Token { data: TokenData::Symbol { symbol_type: t }, row, col_start: lx.start, col_end: end });
            assert(tokens_view(v@) =~= seq![symbol_token(t, row as int, lx.start as int, end as int)]);
            Ok(v)
        },
        None => match separate_symbols(&lx.symbol, 0, row, lx.start) {
            Ok(v) => Ok(v),
            Err(_) => {
                let m = concat("Invalid symbol: ", string_from_chars(lx.symbol.as_slice()).as_str());
                Err(Error::LocationError { message: m, row, col_start: lx.start, col_end: end })
            },
        },
    }
}

fn append_tokens(lx: &mut Lexer, v: Vec<Token>)
    ensures
        final(lx).state() == (LexState { tokens: old(lx).state().tokens + tokens_view(v@), ..old(lx).state() }),
        final(lx).start == old(lx).start,
        final(lx).symbol@ == old(lx).symbol@,
{
    let ghost t0 = lx.tokens@;
    let mut v = v;
    let ghost vv = v@;
    lx.tokens.append(&mut v);
    proof { lemma_append_tokens(t0, vv); }
}

fn lex_char_exec(lx: &mut Lexer, c: char, col: usize, row: usize) -> (r: Result<(), Error>)
    requires
        old(lx).start <= col,
        old(lx).symbol@.len() <= col,
        col < usize::MAX / 4,
    ensures
        r is Ok ==> lex_char(old(lx).state(), c, col as int, row as int) == Ok::<LexState, (Seq<char>, int, int)>(final(lx).state()),
        r matches Err(e) ==> lex_char(old(lx).state(), c, col as int, row as int) matches Err((m, a, b)) && e.is_located(m, row as int, a, b),
        final(lx).start <= col,
        final(lx).symbol@.len() <= col + 1,
{
    let ct = get_char_type(c);
    match ct {
        CharType::Space => Ok(()),
        CharType::Symbol => {
            if c == '"' {
                if lx.in_symbol {
                    assert(lx.symbol@.subrange(0, lx.symbol@.len() as int) =~= lx.symbol@);
                    match symbol_type_in(&lx.symbol, 0, lx.symbol.len()) {
                        Some(t) => {
                            let s0 = lx.start;
                            push_token(lx, TokenData::Symbol { symbol_type: t }, row, s0, col);
                        },
                        None => {
                            let m = concat("Invalid symbol: ", string_from_chars(lx.symbol.as_slice()).as_str());
                            return Err(Error::LocationError { message: m, row, col_start: lx.start, col_end: col });
                        },
                    }
                }
                lx.in_symbol = false;
                lx.in_string = true;
                lx.symbol = Vec::new();
                lx.start = col;
                Ok(())
            } else {
                if !lx.in_symbol {
                    lx.start = col;
                }
                lx.in_symbol = true;
                lx.symbol.push(c);
                Ok(())
            }
        },
        CharType::Number => {
            if lx.in_variable {
                lx.variable.push(c);
                return Ok(());
            }
            if !lx.in_number {
                lx.start = col;
            }
            lx.in_number = true;
            let d = (c as u32 - 48) as i32;
            lx.number = lx.number.wrapping_mul(10).wrapping_add(d);
            Ok(())
        },
        CharType::Variable => {
            if !lx.in_variable {
                lx.start = col;
            }
            lx.in_variable = true;
            lx.variable.push(c);
            Ok(())
        },
    }
}

fn lex_step_exec(lx: &mut Lexer, c: char, col: usize, row: usize) -> (r: Result<(), Error>)
    requires
        old(lx).start <= col,
        old(lx).symbol@.len() <= col,
        col < usize::MAX / 4,
    ensures
        r is Ok ==> lex_step(old(lx).state(), c, col as int, row as int) == Ok::<LexState, (Seq<char>, int, int)>(final(lx).state()),
        r matches Err(e) ==> lex_step(old(lx).state(), c, col as int, row as int) matches Err((m, a, b)) && e.is_located(m, row as int, a, b),
        final(lx).start <= col + 1,
        final(lx).symbol@.len() <= col + 1,
{
    if lx.in_string {
        if c == '"' {
            let value = string_from_chars(lx.string.as_slice());
            let s0 = lx.start;
            push_token(lx, TokenData::String { value }, row, s0, col + 1);
            lx.in_string = false;
            lx.string = Vec::new();
        } else {
            lx.string.push(c);
        }
        return Ok(());
    }
    let ct = get_char_type(c);
    if lx.in_number && ct != CharType::Number {
        let s0 = lx.start;
        let n0 = lx.number;
        push_token(lx, TokenData::Number { number: n0 }, row, s0, col);
        lx.number = 0;
        lx.in_number = false;
    }
    assert(lx.state() == close_number(old(lx).state(), c, col as int, row as int));
    let ghost st1 = lx.state();
    if lx.in_variable && ct != CharType::Variable && ct != CharType::Number {
        let data = word_token_data(&lx.variable);
        let s0 = lx.start;
        push_token(lx, data, row, s0, col);
        lx.variable = Vec::new();
        lx.in_variable = false;
    }
    assert(lx.state() == close_word(st1, c, col as int, row as int));
    if lx.in_symbol && ct != CharType::Symbol {
        match close_symbol_exec(lx, row, col) {
            Ok(v) => {
                append_tokens(lx, v);
                lx.symbol = Vec::new();
                lx.in_symbol = false;
            },
            Err(e) => return Err(e),
        }
    }
    lex_char_exec(lx, c, col, row)
}

/// The tokens of a cleaned line, or the first error in it.
fn lex_line_exec(cs: &Vec<char>, row: usize) -> (r: Result<Vec<Token>, Error>)
    requires
        cs@.len() < usize::MAX / 16,
    ensures
        r matches Ok(v) ==> lex_line(cs@, row as int) == Ok::<Seq<TokenView>, (Seq<char>, int, int)>(tokens_view(v@)),
        r matches Err(e) ==> lex_line(cs@, row as int) matches Err((m, a, b)) && e.is_located(m, row as int, a, b),
{
    let mut lx = Lexer {
        in_number: false,
        number: 0,
        in_string: false,
        string: Vec::new(),
        in_variable: false,
        variable: Vec::new(),
        in_symbol: false,
        symbol: Vec::new(),
        start: 0,
        tokens: Vec::new(),
    };
    assert(tokens_view(lx.tokens@) =~= Seq::<TokenView>::empty());
    assert(lx.string@ =~= Seq::<char>::empty());
    assert(lx.state() == lex_initial());
    let mut i: usize = 0;
    while i < cs.len()
        invariant
            i <= cs@.len() < usize::MAX / 16,
            lex_chars(cs@.subrange(0, i as int), row as int) == Ok::<LexState, (Seq<char>, int, int)>(lx.state()),
            lx.start <= i,
            lx.symbol@.len() <= i,
        decreases cs@.len() - i,
    {
        let ghost before = lx.state();
        let c = cs[i];
        proof {
            let p = cs@.subrange(0, i + 1);
            assert(p.drop_last() =~= cs@.subrange(0, i as int));
            assert(p.last() == c);
        }
        match lex_step_exec(&mut lx, c, i, row) {
            Ok(()) => {},
            Err(e) => {
                proof {
                    lemma_lex_chars_error_stays(cs@, i as int + 1, row as int);
                }
                return Err(e);
            },
        }
        i = i + 1;
    }
    assert(cs@.subrange(0, cs@.len() as int) =~= cs@);
    let len = utf8_length(cs);
    proof { lemma_utf8_len_bound(cs@); }
    let ghost st = lx.state();
    if lx.in_number {
        let s0 = lx.start;
        let n0 = lx.number;
        push_token(&mut lx, TokenData::Number { number: n0 }, row, s0, len);
    }
    if lx.in_variable {
        let data = word_token_data(&lx.variable);
        let s0 = lx.start;
        push_token(&mut lx, data, row, s0, len);
    }
    if lx.in_symbol {
        match close_symbol_exec(&lx, row, len) {
            Ok(v) => {
                append_tokens(&mut lx, v);
            },
            Err(e) => return Err(e),
        }
    }
    Ok(lx.tokens)
}

proof fn lemma_lex_chars_error_stays(cs: Seq<char>, k: int, row: int)
    requires
        0 <= k <= cs.len(),
        lex_chars(cs.subrange(0, k), row) is Err,
    ensures
        lex_chars(cs, row) == lex_chars(cs.subrange(0, k), row),
    decreases cs.len() - k,
{
    if k == cs.len() {
        assert(cs.subrange(0, k) =~= cs);
    } else {
        assert(cs.subrange(0, k + 1).drop_last() =~= cs.subrange(0, k));
        lemma_lex_chars_error_stays(cs, k + 1, row);
    }
}

proof fn lemma_utf8_len_bound(s: Seq<char>)
    ensures
        s.len() <= utf8_len(s) <= 4 * s.len(),
    decreases s.len(),
{
    if s.len() > 0 {
        lemma_utf8_len_bound(s.drop_last());
    }
}

/// The character sequences of a list of lines.
pub open spec fn lines_view(lines: Seq<&str>) -> Seq<Seq<char>> {
    lines.map_values(|l: &str| l@)
}

/// The views of a list of token lines.
pub open spec fn token_lines_view(tls: Seq<TokenLine>) -> Seq<(Seq<TokenView>, nat)> {
    tls.map_values(|tl: TokenLine| tl@)
}

/// Whether every token is on row `row`.
pub open spec fn all_on_row(ts: Seq<TokenView>, row: int) -> bool {
    forall|i: int| 0 <= i < ts.len() ==> (#[trigger] ts[i]).row == row
}

/// The indices of the lines that are not blank, in order.
pub open spec fn nonblank_rows(lines: Seq<Seq<char>>) -> Seq<int>
    decreases lines.len(),
{
    if lines.len() == 0 {
        seq![]
    } else {
        nonblank_rows(lines.drop_last()) + if is_blank(lines.last()) { seq![] } else { seq![lines.len() - 1] }
    }
}

proof fn lemma_separated_rows(s: Seq<char>, row: int, start: int)
    ensures
        separated_tokens(s, row, start) matches Some(ts) ==> all_on_row(ts, row),
    decreases s.len(), s.len() + 1,
{
    if s.len() > 0 {
        lemma_separated_from_rows(s, row, start, s.len() as int);
    }
}

proof fn lemma_separated_from_rows(s: Seq<char>, row: int, start: int, i: int)
    ensures
        separated_tokens_from(s, row, start, i) matches Some(ts) ==> all_on_row(ts, row),
    decreases s.len(), i,
{
    if 1 <= i <= s.len() {
        lemma_separated_from_rows(s, row, start, i - 1);
        if symbol_from_text(s.subrange(0, i)) is Some {
            lemma_separated_rows(s.subrange(i, s.len() as int), row, start + i);
            if let Some(rest) = separated_tokens(s.subrange(i, s.len() as int), row, start + i) {
                let t = symbol_from_text(s.subrange(0, i))->0;
                let ts = seq![symbol_token(t, row, start, start + i)] + rest;
                assert forall|j: int| 0 <= j < ts.len() implies (#[trigger] ts[j]).row == row by {
                    if j > 0 {
                        assert(ts[j] == rest[j - 1]);
                    }
                }
            }
        }
    }
}

proof fn lemma_close_symbol_rows(st: LexState, row: int, end: int)
    ensures
        close_symbol(st, row, end) matches Some(ts) ==> all_on_row(ts, row),
{
    lemma_separated_rows(st.symbol, row, st.start);
}

proof fn lemma_lex_step_rows(st: LexState, c: char, col: int, row: int)
    requires
        all_on_row(st.tokens, row),
    ensures
        lex_step(st, c, col, row) matches Ok(st2) ==> all_on_row(st2.tokens, row),
{
    let s2 = close_word(close_number(st, c, col, row), c, col, row);
    lemma_close_symbol_rows(s2, row, col);
    if !st.in_string && s2.in_symbol && char_type(c) != CharType::Symbol {
        if let Some(ts) = close_symbol(s2, row, col) {
            let toks = s2.tokens + ts;
            assert forall|j: int| 0 <= j < toks.len() implies (#[trigger] toks[j]).row == row by {
                if j >= s2.tokens.len() {
                    assert(toks[j] == ts[j - s2.tokens.len()]);
                }
            }
        }
    }
}

proof fn lemma_lex_chars_rows(cs: Seq<char>, row: int)
    ensures
        lex_chars(cs, row) matches Ok(st) ==> all_on_row(st.tokens, row),
    decreases cs.len(),
{
    if cs.len() > 0 {
        lemma_lex_chars_rows(cs.drop_last(), row);
        if let Ok(st) = lex_chars(cs.drop_last(), row) {
            lemma_lex_step_rows(st, cs.last(), cs.len() - 1, row);
        }
    }
}

proof fn lemma_line_rows(cs: Seq<char>, row: int)
    ensures
        line_tokens(cs, row) matches Ok((ts, _)) ==> all_on_row(ts, row),
{
    lemma_lex_chars_rows(cs, row);
    if let Ok(st) = lex_chars(cs, row) {
        let len = utf8_len(cs) as int;
        let s1 = if st.in_number { with_token(st, TokenDataView::Number(st.number), row, st.start, len) } else { st };
        let s2 = if s1.in_variable { with_token(s1, word_data(s1.variable), row, s1.start, len) } else { s1 };
        assert(all_on_row(s1.tokens, row));
        assert(all_on_row(s2.tokens, row));
        lemma_close_symbol_rows(s2, row, len);
        if s2.in_symbol {
            if let Some(ts) = close_symbol(s2, row, len) {
                let toks = s2.tokens + ts;
                assert forall|j: int| 0 <= j < toks.len() implies (#[trigger] toks[j]).row == row by {
                    if j >= s2.tokens.len() {
                        assert(toks[j] == ts[j - s2.tokens.len()]);
                    }
                }
            }
        }
    }
}

/// Whether each token ends after it starts and no later than the next one starts.
pub open spec fn in_column_order(ts: Seq<TokenView>) -> bool {
    &&& forall|i: int| 0 <= i < ts.len() ==> (#[trigger] ts[i]).col_start < ts[i].col_end
    &&& forall|i: int| 0 <= i < ts.len() - 1 ==> (#[trigger] ts[i]).col_end <= ts[i + 1].col_start
}

proof fn lemma_order_concat(a: Seq<TokenView>, b: Seq<TokenView>)
    requires
        in_column_order(a),
        in_column_order(b),
        a.len() > 0 && b.len() > 0 ==> a.last().col_end <= b[0].col_start,
    ensures
        in_column_order(a + b),
{
    let ab = a + b;
    assert forall|i: int| 0 <= i < ab.len() implies (#[trigger] ab[i]).col_start < ab[i].col_end by {
        if i >= a.len() {
            assert(ab[i] == b[i - a.len()]);
        }
    }
    assert forall|i: int| 0 <= i < ab.len() - 1 implies (#[trigger] ab[i]).col_end <= ab[i + 1].col_start by {
        if i >= a.len() {
            assert(ab[i] == b[i - a.len()]);
            assert(ab[i + 1] == b[i + 1 - a.len()]);
        } else if i == a.len() - 1 {
            assert(ab[i + 1] == b[0]);
        }
    }
}

proof fn lemma_separated_order(s: Seq<char>, row: int, start: int)
    ensures
        separated_tokens(s, row, start) matches Some(ts) ==> in_column_order(ts) && (ts.len() == 0 <==> s.len() == 0)
            && (ts.len() > 0 ==> ts[0].col_start == start && ts.last().col_end == start + s.len()),
    decreases s.len(), s.len() + 1,
{
    if s.len() > 0 {
        lemma_separated_from_order(s, row, start, s.len() as int);
    }
}

proof fn lemma_separated_from_order(s: Seq<char>, row: int, start: int, i: int)
    ensures
        separated_tokens_from(s, row, start, i) matches Some(ts) ==> in_column_order(ts) && ts.len() > 0
            && ts[0].col_start == start && ts.last().col_end == start + s.len(),
    decreases s.len(), i,
{
    if 1 <= i <= s.len() {
        lemma_separated_from_order(s, row, start, i - 1);
        if symbol_from_text(s.subrange(0, i)) is Some {
            let rest_s = s.subrange(i, s.len() as int);
            lemma_separated_order(rest_s, row, start + i);
            if let Some(rest) = separated_tokens(rest_s, row, start + i) {
                let t = symbol_from_text(s.subrange(0, i))->0;
                let first = seq![symbol_token(t, row, start, start + i)];
                lemma_order_concat(first, rest);
                let ts = first + rest;
                if rest.len() > 0 {
                    assert(ts.last() == rest.last());
                } else {
                    assert(ts.last() == first[0]);
                }
            }
        }
    }
}

/// Whether a partial run of symbol, number, word or string is open.
pub open spec fn pending(st: LexState) -> bool {
    st.in_number || st.in_variable || st.in_symbol || st.in_string
}

/// What holds of the tokenizer's state after `col` characters: at most one run is open,
/// and it started before `col`; a symbol run holds the characters since its start; the
/// tokens are in column order and end no later than the open run starts, or than `col`.
pub open spec fn lex_order_inv(st: LexState, col: int) -> bool {
    &&& in_column_order(st.tokens)
    &&& (st.in_number as int) + (st.in_variable as int) + (st.in_symbol as int) + (st.in_string as int) <= 1
    &&& pending(st) ==> st.start < col
    &&& st.in_symbol ==> st.start + st.symbol.len() == col
    &&& !st.in_symbol ==> st.symbol.len() == 0
    &&& st.tokens.len() > 0 ==> st.tokens.last().col_end <= if pending(st) { st.start } else { col }
}

proof fn lemma_push_order(ts: Seq<TokenView>, t: TokenView)
    requires
        in_column_order(ts),
        t.col_start < t.col_end,
        ts.len() > 0 ==> ts.last().col_end <= t.col_start,
    ensures
        in_column_order(ts.push(t)),
{
    lemma_order_concat(ts, seq![t]);
    assert(ts + seq![t] =~= ts.push(t));
}

proof fn lemma_close_symbol_order(st: LexState, row: int, end: int)
    requires
        st.in_symbol,
        st.start < end,
        st.start + st.symbol.len() <= end,
        st.symbol.len() > 0,
    ensures
        close_symbol(st, row, end) matches Some(ts) ==> in_column_order(ts) && ts.len() > 0
            && ts[0].col_start == st.start && ts.last().col_end <= end,
{
    lemma_separated_order(st.symbol, row, st.start);
    if symbol_from_text(st.symbol) is Some {
        let ts = seq![symbol_token(symbol_from_text(st.symbol)->0, row, st.start, end)];
        assert(in_column_order(ts));
    }
}

/// What holds of the state once the runs that character `c` at column `col` does not
/// continue were closed, before `c` itself is read.
pub open spec fn ready_for(st: LexState, c: char, col: int) -> bool {
    &&& in_column_order(st.tokens)
    &&& (st.in_number as int) + (st.in_variable as int) + (st.in_symbol as int) <= 1
    &&& !st.in_string
    &&& pending(st) ==> st.start < col
    &&& st.in_symbol ==> st.start + st.symbol.len() == col
    &&& !st.in_symbol ==> st.symbol.len() == 0
    &&& st.in_number ==> char_type(c) == CharType::Number
    &&& st.in_variable ==> (char_type(c) == CharType::Variable || char_type(c) == CharType::Number)
    &&& st.in_symbol ==> char_type(c) == CharType::Symbol
    &&& st.tokens.len() > 0 ==> st.tokens.last().col_end <= if pending(st) { st.start } else { col }
}

proof fn lemma_lex_char_order(st: LexState, c: char, col: int, row: int)
    requires
        ready_for(st, c, col),
    ensures
        lex_char(st, c, col, row) matches Ok(st2) ==> lex_order_inv(st2, col + 1),
{
    if char_type(c) == CharType::Symbol && c == '"' && st.in_symbol {
        if let Some(t) = symbol_from_text(st.symbol) {
            lemma_push_order(st.tokens, TokenView { data: TokenDataView::Symbol(t), row, col_start: st.start, col_end: col });
        }
    }
}

proof fn lemma_closers_order(st: LexState, c: char, col: int, row: int)
    requires
        lex_order_inv(st, col),
        !st.in_string,
    ensures
        ({
            let s2 = close_word(close_number(st, c, col, row), c, col, row);
            &&& in_column_order(s2.tokens)
            &&& (s2.in_number as int) + (s2.in_variable as int) + (s2.in_symbol as int) <= 1
            &&& !s2.in_string
            &&& pending(s2) ==> s2.start < col
            &&& s2.in_symbol ==> s2.start + s2.symbol.len() == col
            &&& !s2.in_symbol ==> s2.symbol.len() == 0
            &&& s2.in_number ==> char_type(c) == CharType::Number
            &&& s2.in_variable ==> (char_type(c) == CharType::Variable || char_type(c) == CharType::Number)
            &&& s2.tokens.len() > 0 ==> s2.tokens.last().col_end <= if pending(s2) { s2.start } else { col }
        }),
{
    let s1 = close_number(st, c, col, row);
    if st.in_number && char_type(c) != CharType::Number {
        lemma_push_order(st.tokens, TokenView { data: TokenDataView::Number(st.number), row, col_start: st.start, col_end: col });
    }
    if s1.in_variable && char_type(c) != CharType::Variable && char_type(c) != CharType::Number {
        lemma_push_order(s1.tokens, TokenView { data: word_data(s1.variable), row, col_start: s1.start, col_end: col });
    }
}

#[verifier::spinoff_prover]
#[verifier::rlimit(60)]
proof fn lemma_lex_step_order(st: LexState, c: char, col: int, row: int)
    requires
        lex_order_inv(st, col),
    ensures
        lex_step(st, c, col, row) matches Ok(st2) ==> lex_order_inv(st2, col + 1),
{
    if st.in_string {
        if c == '"' {
            lemma_push_order(st.tokens, TokenView { data: TokenDataView::Str(st.string), row, col_start: st.start, col_end: col + 1 });
        }
    } else {
        lemma_closers_order(st, c, col, row);
        let s2 = close_word(close_number(st, c, col, row), c, col, row);
        if s2.in_symbol && char_type(c) != CharType::Symbol {
            lemma_close_symbol_order(s2, row, col);
            if let Some(ts) = close_symbol(s2, row, col) {
                lemma_order_concat(s2.tokens, ts);
                assert((s2.tokens + ts).last() == ts.last());
                let s3 = LexState { tokens: s2.tokens + ts, symbol: seq![], in_symbol: false, ..s2 };
                assert(ready_for(s3, c, col));
                lemma_lex_char_order(s3, c, col, row);
            }
        } else {
            assert(ready_for(s2, c, col));
            lemma_lex_char_order(s2, c, col, row);
        }
    }
}

proof fn lemma_lex_chars_order(cs: Seq<char>, row: int)
    ensures
        lex_chars(cs, row) matches Ok(st) ==> lex_order_inv(st, cs.len() as int),
    decreases cs.len(),
{
    if cs.len() > 0 {
        lemma_lex_chars_order(cs.drop_last(), row);
        if let Ok(st) = lex_chars(cs.drop_last(), row) {
            lemma_lex_step_order(st, cs.last(), cs.len() - 1, row);
        }
    }
}

proof fn lemma_line_order(cs: Seq<char>, row: int)
    ensures
        line_tokens(cs, row) matches Ok((ts, _)) ==> in_column_order(ts),
{
    lemma_lex_chars_order(cs, row);
    lemma_utf8_len_bound(cs);
    if let Ok(st) = lex_chars(cs, row) {
        let len = utf8_len(cs) as int;
        let s1 = if st.in_number { with_token(st, TokenDataView::Number(st.number), row, st.start, len) } else { st };
        if st.in_number {
            lemma_push_order(st.tokens, TokenView { data: TokenDataView::Number(st.number), row, col_start: st.start, col_end: len });
        }
        let s2 = if s1.in_variable { with_token(s1, word_data(s1.variable), row, s1.start, len) } else { s1 };
        if s1.in_variable {
            lemma_push_order(s1.tokens, TokenView { data: word_data(s1.variable), row, col_start: s1.start, col_end: len });
        }
        assert(in_column_order(s2.tokens));
        if s2.in_symbol {
            lemma_close_symbol_order(s2, row, len);
            if let Some(ts) = close_symbol(s2, row, len) {
                lemma_order_concat(s2.tokens, ts);
            }
        }
    }
}

proof fn lemma_cleaned_has_no_tabs(s: Seq<char>)
    ensures
        forall|i: int| 0 <= i < cleaned(s).len() ==> cleaned(s)[i] != '\t',
    decreases s.len(),
{
    if s.len() > 0 {
        lemma_cleaned_has_no_tabs(s.drop_last());
        let c = s.last();
        let tail: Seq<char> = if c == '\r' { seq![] } else if c == '\t' { seq![' ', ' ', ' ', ' '] } else { seq![c] };
        assert(cleaned(s) == cleaned(s.drop_last()) + tail);
        assert forall|i: int| 0 <= i < cleaned(s).len() implies cleaned(s)[i] != '\t' by {
            if i >= cleaned(s.drop_last()).len() {
                assert(cleaned(s)[i] == tail[i - cleaned(s.drop_last()).len()]);
            }
        }
    }
}

/// The shape of what tokenizing gives: one token line for each line that is not blank,
/// in order; the tokens of the `k`-th come from the `k`-th such line, carry its index as
/// their row and are in column order (each ends after it starts and no later than the
/// next one starts); its indentation is the number of its leading spaces, once each tab
/// became four spaces, divided by four.
pub proof fn lemma_token_lines_shape(lines: Seq<Seq<char>>, tls: Seq<(Seq<TokenView>, nat)>)
    requires
        tokenize_lines(lines) == Ok::<Seq<(Seq<TokenView>, nat)>, (Seq<char>, int, int, int)>(tls),
    ensures
        tls.len() == nonblank_rows(lines).len(),
        forall|k: int| 0 <= k < tls.len() ==> {
            let j = #[trigger] nonblank_rows(lines)[k];
            &&& 0 <= j < lines.len()
            &&& !is_blank(lines[j])
            &&& all_on_row(tls[k].0, j)
            &&& in_column_order(tls[k].0)
            &&& tls[k].1 == leading_count(cleaned(lines[j]), ' ') / 4
        },
    decreases lines.len(),
{
    if lines.len() > 0 {
        let prev = lines.drop_last();
        let acc = tokenize_lines(prev)->Ok_0;
        lemma_token_lines_shape(prev, acc);
        let last = lines.last();
        let j = lines.len() - 1;
        if !is_blank(last) {
            let cs = cleaned(last);
            lemma_line_rows(cs, j);
            lemma_line_order(cs, j);
            lemma_cleaned_has_no_tabs(last);
            assert(cs.len() > 0 ==> cs[0] != '\t');
            if cs.len() == 0 {
                assert(leading_count(cs, ' ') == 0);
            }
        }
        assert forall|k: int| 0 <= k < tls.len() implies {
            let j2 = #[trigger] nonblank_rows(lines)[k];
            &&& 0 <= j2 < lines.len()
            &&& !is_blank(lines[j2])
            &&& all_on_row(tls[k].0, j2)
            &&& in_column_order(tls[k].0)
            &&& tls[k].1 == leading_count(cleaned(lines[j2]), ' ') / 4
        } by {
            if k < acc.len() {
                assert(nonblank_rows(lines)[k] == nonblank_rows(prev)[k]);
                assert(tls[k] == acc[k]);
                assert(lines[nonblank_rows(prev)[k]] == prev[nonblank_rows(prev)[k]]);
            } else {
                assert(nonblank_rows(lines)[k] == j);
            }
        }
    }
}

proof fn lemma_tokenize_error_stays(lines: Seq<Seq<char>>, k: int)
    requires
        0 <= k <= lines.len(),
        tokenize_lines(lines.subrange(0, k)) is Err,
    ensures
        tokenize_lines(lines) == tokenize_lines(lines.subrange(0, k)),
    decreases lines.len() - k,
{
    if k == lines.len() {
        assert(lines.subrange(0, k) =~= lines);
    } else {
        assert(lines.subrange(0, k + 1).drop_last() =~= lines.subrange(0, k));
        lemma_tokenize_error_stays(lines, k + 1);
    }
}

/// Splits the lines of a program into token lines. Blank lines are skipped; tabs count as
/// four spaces; a token's row is the index of its line and its columns count characters
/// of the cleaned line, except that a token that runs to the end of the line ends at the
/// line's length in bytes. Number literals wrap around on overflow.
pub fn tokenize(lines: Vec<&str>) -> (r: Result<Vec<TokenLine>, Error>)
    requires
        forall|i: int| 0 <= i < lines@.len() ==> (#[trigger] lines@[i])@.len() <= usize::MAX / 64,
    ensures
        r matches Ok(v) ==> tokenize_lines(lines_view(lines@)) == Ok::<Seq<(Seq<TokenView>, nat)>, (Seq<char>, int, int, int)>(token_lines_view(v@)),
        r matches Err(e) ==> tokenize_lines(lines_view(lines@)) matches Err((m, row, a, b)) && e.is_located(m, row, a, b),
{
    let ghost lv = lines_view(lines@);
    let mut token_lines: Vec<TokenLine> = Vec::new();
    let mut k: usize = 0;
    assert(token_lines_view(token_lines@) =~= Seq::<(Seq<TokenView>, nat)>::empty());
    while k < lines.len()
        invariant
            lv == lines_view(lines@),
            k <= lines@.len(),
            forall|i: int| 0 <= i < lines@.len() ==> (#[trigger] lines@[i])@.len() <= usize::MAX / 64,
            tokenize_lines(lv.subrange(0, k as int)) == Ok::<Seq<(Seq<TokenView>, nat)>, (Seq<char>, int, int, int)>(token_lines_view(token_lines@)),
        decreases lines@.len() - k,
    {
        let line = lines[k];
        let chars = str_to_chars(line);
        assert(chars@ == lv[k as int]);
        assert(lv.subrange(0, k + 1).drop_last() =~= lv.subrange(0, k as int));
        assert(lv.subrange(0, k + 1).last() == lv[k as int]);
        let (cleaned_line, blank) = clean_line(&chars);
        if !blank {
            let indentation = match count_indentation(&cleaned_line, k) {
                Ok(indentation) => indentation,
                Err(e) => {
                    proof { lemma_tokenize_error_stays(lv, k + 1); }
                    return Err(e);
                },
            };
            let tokens = match lex_line_exec(&cleaned_line, k) {
                Ok(tokens) => tokens,
                Err(e) => {
                    proof { lemma_tokenize_error_stays(lv, k + 1); }
                    return Err(e);
                },
            };
            let tl = TokenLine { tokens, indentation };
            let ghost before = token_lines@;
            token_lines.push(tl);
            assert(token_lines_view(token_lines@) =~= token_lines_view(before).push(tl@));
        }
        k = k + 1;
    }
    assert(lv.subrange(0, lines@.len() as int) =~= lv);
    Ok(token_lines)
}

} // verus!
