//! Lexical scanner: turns raw source text into a sequence of typed tokens,
//! collecting lexical diagnostics without aborting the scan.
use vstd::prelude::*;
use vstd::string::StrSliceExecFns;
use vstd::string::StringExecFns;

verus! {

/// The closed set of token kinds produced by the scanner.
#[derive(Debug, Copy, Clone, PartialEq, Eq, Structural)]
pub enum TokenType {
    // Single-character tokens.
    LeftParen,
    RightParen,
    LeftBrace,
    RightBrace,
    Comma,
    Dot,
    Minus,
    Plus,
    Semicolon,
    Slash,
    Star,
    // One or two character tokens.
    Bang,
    BangEqual,
    Equal,
    EqualEqual,
    Greater,
    GreaterEqual,
    Less,
    LessEqual,
    // Literals.
    Identifier,
    StringLit,
    Number,
    // Keywords.
    And,
    Class,
    Else,
    False,
    Fun,
    For,
    If,
    Nil,
    Or,
    Print,
    Return,
    Super,
    This,
    True,
    Var,
    While,
    Eof,
}

/// The name of a token kind, as written in its declaration.
pub open spec fn token_type_text(t: TokenType) -> Seq<char> {
    match t {
        TokenType::LeftParen => "LeftParen"@,
        TokenType::RightParen => "RightParen"@,
        TokenType::LeftBrace => "LeftBrace"@,
        TokenType::RightBrace => "RightBrace"@,
        TokenType::Comma => "Comma"@,
        TokenType::Dot => "Dot"@,
        TokenType::Minus => "Minus"@,
        TokenType::Plus => "Plus"@,
        TokenType::Semicolon => "Semicolon"@,
        TokenType::Slash => "Slash"@,
        TokenType::Star => "Star"@,
        TokenType::Bang => "Bang"@,
        TokenType::BangEqual => "BangEqual"@,
        TokenType::Equal => "Equal"@,
        TokenType::EqualEqual => "EqualEqual"@,
        TokenType::Greater => "Greater"@,
        TokenType::GreaterEqual => "GreaterEqual"@,
        TokenType::Less => "Less"@,
        TokenType::LessEqual => "LessEqual"@,
        TokenType::Identifier => "Identifier"@,
        TokenType::StringLit => "StringLit"@,
        TokenType::Number => "Number"@,
        TokenType::And => "And"@,
        TokenType::Class => "Class"@,
        TokenType::Else => "Else"@,
        TokenType::False => "False"@,
        TokenType::Fun => "Fun"@,
        TokenType::For => "For"@,
        TokenType::If => "If"@,
        TokenType::Nil => "Nil"@,
        TokenType::Or => "Or"@,
        TokenType::Print => "Print"@,
        TokenType::Return => "Return"@,
        TokenType::Super => "Super"@,
        TokenType::This => "This"@,
        TokenType::True => "True"@,
        TokenType::Var => "Var"@,
        TokenType::While => "While"@,
        TokenType::Eof => "Eof"@,
    }
}

impl TokenType {
    /// The kind's name as a string, for diagnostics.
    pub fn name(&self) -> (r: String)
        ensures
            r@ == token_type_text(*self),
    {
        match self {
            TokenType::LeftParen => "LeftParen".to_owned(),
            TokenType::RightParen => "RightParen".to_owned(),
            TokenType::LeftBrace => "LeftBrace".to_owned(),
            TokenType::RightBrace => "RightBrace".to_owned(),
            TokenType::Comma => "Comma".to_owned(),
            TokenType::Dot => "Dot".to_owned(),
            TokenType::Minus => "Minus".to_owned(),
            TokenType::Plus => "Plus".to_owned(),
            TokenType::Semicolon => "Semicolon".to_owned(),
            TokenType::Slash => "Slash".to_owned(),
            TokenType::Star => "Star".to_owned(),
            TokenType::Bang => "Bang".to_owned(),
            TokenType::BangEqual => "BangEqual".to_owned(),
            TokenType::Equal => "Equal".to_owned(),
            TokenType::EqualEqual => "EqualEqual".to_owned(),
            TokenType::Greater => "Greater".to_owned(),
            TokenType::GreaterEqual => "GreaterEqual".to_owned(),
            TokenType::Less => "Less".to_owned(),
            TokenType::LessEqual => "LessEqual".to_owned(),
            TokenType::Identifier => "Identifier".to_owned(),
            TokenType::StringLit => "StringLit".to_owned(),
            TokenType::Number => "Number".to_owned(),
            TokenType::And => "And".to_owned(),
            TokenType::Class => "Class".to_owned(),
            TokenType::Else => "Else".to_owned(),
            TokenType::False => "False".to_owned(),
            TokenType::Fun => "Fun".to_owned(),
            TokenType::For => "For".to_owned(),
            TokenType::If => "If".to_owned(),
            TokenType::Nil => "Nil".to_owned(),
            TokenType::Or => "Or".to_owned(),
            TokenType::Print => "Print".to_owned(),
            TokenType::Return => "Return".to_owned(),
            TokenType::Super => "Super".to_owned(),
            TokenType::This => "This".to_owned(),
            TokenType::True => "True".to_owned(),
            TokenType::Var => "Var".to_owned(),
            TokenType::While => "While".to_owned(),
            TokenType::Eof => "Eof".to_owned(),
        }
    }
}

impl View for TokenType {
    type V = TokenType;

    open spec fn view(&self) -> TokenType {
        *self
    }
}

impl DeepView for TokenType {
    type V = TokenType;

    open spec fn deep_view(&self) -> TokenType {
        *self
    }
}

/// Literal payload attached to a token. Number literals carry their exact
/// decimal text, a verbatim slice of the source; callers that need a machine
/// float convert outside the library.
#[derive(Debug)]
pub enum LiteralValue {
    NumberValue(String),
    StringValue(String),
}

/// Mathematical model of a literal payload.
pub enum LiteralModel {
    NumberValue(Seq<char>),
    StringValue(Seq<char>),
}

impl View for LiteralValue {
    type V = LiteralModel;

    open spec fn view(&self) -> LiteralModel {
        match self {
            LiteralValue::NumberValue(s) => LiteralModel::NumberValue(s@),
            LiteralValue::StringValue(s) => LiteralModel::StringValue(s@),
        }
    }
}

impl DeepView for LiteralValue {
    type V = LiteralModel;

    open spec fn deep_view(&self) -> LiteralModel {
        self.view()
    }
}

impl Clone for LiteralValue {
    fn clone(&self) -> (r: Self)
        ensures
            r == *self,
    {
        match self {
            LiteralValue::NumberValue(s) => LiteralValue::NumberValue(s.clone()),
            LiteralValue::StringValue(s) => LiteralValue::StringValue(s.clone()),
        }
    }
}

/// One lexical unit: its kind, the verbatim source text that produced it,
/// an optional literal payload, and the 1-based source line it ends on.
#[derive(Debug)]
pub struct Token {
    pub token_type: TokenType,
    pub lexeme: String,
    pub literal: Option<LiteralValue>,
    pub line_number: usize,
}

/// Mathematical model of a token.
pub struct TokenModel {
    pub kind: TokenType,
    pub lexeme: Seq<char>,
    pub literal: Option<LiteralModel>,
    pub line: int,
}

impl View for Token {
    type V = TokenModel;

    open spec fn view(&self) -> TokenModel {
        TokenModel {
            kind: self.token_type,
            lexeme: self.lexeme@,
            literal: self.literal.deep_view(),
            line: self.line_number as int,
        }
    }
}

impl DeepView for Token {
    type V = TokenModel;

    open spec fn deep_view(&self) -> TokenModel {
        self.view()
    }
}

impl Clone for Token {
    fn clone(&self) -> (r: Self)
        ensures
            r == *self,
    {
        Token {
            token_type: self.token_type,
            lexeme: self.lexeme.clone(),
            literal: match &self.literal {
                Some(l) => Some(l.clone()),
                None => None,
            },
            line_number: self.line_number,
        }
    }
}

/// Textual form of an optional literal payload, for diagnostics.
pub open spec fn literal_payload_text(literal: Option<LiteralModel>) -> Seq<char> {
    match literal {
        None => "None"@,
        Some(LiteralModel::NumberValue(s)) => s,
        Some(LiteralModel::StringValue(s)) => s,
    }
}

/// Diagnostic rendering of a token: its kind's name, its lexeme, and its
/// literal payload, separated by single spaces.
pub open spec fn token_text(t: Token) -> Seq<char> {
    token_type_text(t.token_type) + " "@ + t.lexeme@ + " "@ + literal_payload_text(t.literal.deep_view())
}

impl Token {
    pub fn new(token_type: TokenType, lexeme: String, literal: Option<LiteralValue>, line_number: usize) -> (r: Self)
        ensures
            r.token_type == token_type,
            r.lexeme == lexeme,
            r.literal == literal,
            r.line_number == line_number,
    {
        Token { token_type, lexeme, literal, line_number }
    }

    pub fn to_string(&self) -> (r: String)
        ensures
            r@ == token_text(*self),
    {
        let mut s = self.token_type.name();
        s.append(" ");
        s.append(self.lexeme.as_str());
        s.append(" ");
        match &self.literal {
            None => {
                s.append("None");
            },
            Some(LiteralValue::NumberValue(t)) => {
                s.append(t.as_str());
            },
            Some(LiteralValue::StringValue(t)) => {
                s.append(t.as_str());
            },
        }
        s
    }
}

/// A lexical diagnostic. Scanning records these and continues; none is fatal.
#[derive(Debug)]
pub enum LexError {
    UnrecognizedCharacter { character: char, line: usize },
    UnterminatedString { line: usize },
    MalformedNumber { lexeme: String, line: usize },
}

/// Mathematical model of a lexical diagnostic.
pub enum LexErrorModel {
    UnrecognizedCharacter { character: char, line: int },
    UnterminatedString { line: int },
    MalformedNumber { lexeme: Seq<char>, line: int },
}

impl View for LexError {
    type V = LexErrorModel;

    open spec fn view(&self) -> LexErrorModel {
        match self {
            LexError::UnrecognizedCharacter { character, line } => LexErrorModel::UnrecognizedCharacter {
                character: *character,
                line: *line as int,
            },
            LexError::UnterminatedString { line } => LexErrorModel::UnterminatedString { line: *line as int },
            LexError::MalformedNumber { lexeme, line } => LexErrorModel::MalformedNumber {
                lexeme: lexeme@,
                line: *line as int,
            },
        }
    }
}

impl DeepView for LexError {
    type V = LexErrorModel;

    open spec fn deep_view(&self) -> LexErrorModel {
        self.view()
    }
}

/// ASCII decimal digit.
pub open spec fn is_digit_char(c: char) -> bool {
    '0' <= c && c <= '9'
}

/// ASCII letter or underscore: may start an identifier.
pub open spec fn is_alpha_char(c: char) -> bool {
    ('a' <= c && c <= 'z') || ('A' <= c && c <= 'Z') || c == '_'
}

/// Character that may continue an identifier.
pub open spec fn is_alnum_char(c: char) -> bool {
    is_alpha_char(c) || is_digit_char(c)
}

/// Kind of a token made of this single punctuation character, if any.
/// `/` is not here: it may open a line comment and is classified separately.
pub open spec fn punct_kind(c: char) -> Option<TokenType> {
    if c == '(' {
        Some(TokenType::LeftParen)
    } else if c == ')' {
        Some(TokenType::RightParen)
    } else if c == '{' {
        Some(TokenType::LeftBrace)
    } else if c == '}' {
        Some(TokenType::RightBrace)
    } else if c == ',' {
        Some(TokenType::Comma)
    } else if c == '.' {
        Some(TokenType::Dot)
    } else if c == '-' {
        Some(TokenType::Minus)
    } else if c == '+' {
        Some(TokenType::Plus)
    } else if c == ';' {
        Some(TokenType::Semicolon)
    } else if c == '*' {
        Some(TokenType::Star)
    } else {
        None
    }
}

/// For a character that may start a one- or two-character operator: the kind
/// emitted alone, and the kind emitted when a `=` follows (maximal munch).
pub open spec fn pair_kinds(c: char) -> Option<(TokenType, TokenType)> {
    if c == '!' {
        Some((TokenType::Bang, TokenType::BangEqual))
    } else if c == '=' {
        Some((TokenType::Equal, TokenType::EqualEqual))
    } else if c == '<' {
        Some((TokenType::Less, TokenType::LessEqual))
    } else if c == '>' {
        Some((TokenType::Greater, TokenType::GreaterEqual))
    } else {
        None
    }
}

/// The fixed keyword table: lexemes recognized as reserved words, each with
/// its token kind, by exact match.
pub open spec fn keyword_table() -> Seq<(Seq<char>, TokenType)> {
    seq![
        ("and"@, TokenType::And),
        ("class"@, TokenType::Class),
        ("else"@, TokenType::Else),
        ("false"@, TokenType::False),
        ("for"@, TokenType::For),
        ("fun"@, TokenType::Fun),
        ("if"@, TokenType::If),
        ("nil"@, TokenType::Nil),
        ("or"@, TokenType::Or),
        ("print"@, TokenType::Print),
        ("return"@, TokenType::Return),
        ("super"@, TokenType::Super),
        ("this"@, TokenType::This),
        ("true"@, TokenType::True),
        ("var"@, TokenType::Var),
        ("while"@, TokenType::While),
    ]
}

/// Keyword recognition: the kind reserved for this exact lexeme, or `None`
/// for an ordinary identifier. Exact match only: a keyword prefix of a longer
/// lexeme does not match.
pub open spec fn keyword_kind(s: Seq<char>) -> Option<TokenType> {
    if s == "and"@ {
        Some(TokenType::And)
    } else if s == "class"@ {
        Some(TokenType::Class)
    } else if s == "else"@ {
        Some(TokenType::Else)
    } else if s == "false"@ {
        Some(TokenType::False)
    } else if s == "for"@ {
        Some(TokenType::For)
    } else if s == "fun"@ {
        Some(TokenType::Fun)
    } else if s == "if"@ {
        Some(TokenType::If)
    } else if s == "nil"@ {
        Some(TokenType::Nil)
    } else if s == "or"@ {
        Some(TokenType::Or)
    } else if s == "print"@ {
        Some(TokenType::Print)
    } else if s == "return"@ {
        Some(TokenType::Return)
    } else if s == "super"@ {
        Some(TokenType::Super)
    } else if s == "this"@ {
        Some(TokenType::This)
    } else if s == "true"@ {
        Some(TokenType::True)
    } else if s == "var"@ {
        Some(TokenType::Var)
    } else if s == "while"@ {
        Some(TokenType::While)
    } else {
        None
    }
}

/// End of the maximal digit run starting at `i`: the first position at or
/// after `i` holding no digit, or the end of the source.
pub open spec fn digit_run_end(src: Seq<char>, i: int) -> int
    decreases src.len() - i,
{
    if !(0 <= i < src.len()) || !is_digit_char(src[i]) {
        i
    } else {
        digit_run_end(src, i + 1)
    }
}

/// End of the maximal identifier-character run starting at `i`.
pub open spec fn ident_run_end(src: Seq<char>, i: int) -> int
    decreases src.len() - i,
{
    if !(0 <= i < src.len()) || !is_alnum_char(src[i]) {
        i
    } else {
        ident_run_end(src, i + 1)
    }
}

/// Position of the first `"` at or after `i`, or the source length if the
/// string literal is unterminated.
pub open spec fn string_close(src: Seq<char>, i: int) -> int
    decreases src.len() - i,
{
    if !(0 <= i < src.len()) {
        src.len() as int
    } else if src[i] == '"' {
        i
    } else {
        string_close(src, i + 1)
    }
}

/// Position of the first newline at or after `i`, or the source length:
/// where a line comment stops consuming.
pub open spec fn comment_end(src: Seq<char>, i: int) -> int
    decreases src.len() - i,
{
    if !(0 <= i < src.len()) {
        src.len() as int
    } else if src[i] == '\n' {
        i
    } else {
        comment_end(src, i + 1)
    }
}

/// Number of newline characters in `src[a .. b)`.
pub open spec fn newline_count(src: Seq<char>, a: int, b: int) -> int
    decreases b - a,
{
    if a < 0 || a >= b {
        0
    } else {
        (if 0 <= a < src.len() && src[a] == '\n' {
            1int
        } else {
            0int
        }) + newline_count(src, a + 1, b)
    }
}

/// One scanning step at position `i` (which must hold a character) on line
/// `line`: the next position, the next line, the token emitted, and the
/// diagnostic recorded, if any.
pub open spec fn scan_step(src: Seq<char>, i: int, line: int) -> (int, int, Option<TokenModel>, Option<
    LexErrorModel,
>) {
    let c = src[i];
    match punct_kind(c) {
        Some(k) => (
            i + 1,
            line,
            Some(TokenModel { kind: k, lexeme: src.subrange(i, i + 1), literal: None, line }),
            None,
        ),
        None => match pair_kinds(c) {
            Some(p) => if i + 1 < src.len() && src[i + 1] == '=' {
                (
                    i + 2,
                    line,
                    Some(TokenModel { kind: p.1, lexeme: src.subrange(i, i + 2), literal: None, line }),
                    None,
                )
            } else {
                (
                    i + 1,
                    line,
                    Some(TokenModel { kind: p.0, lexeme: src.subrange(i, i + 1), literal: None, line }),
                    None,
                )
            },
            None => if c == '/' {
                if i + 1 < src.len() && src[i + 1] == '/' {
                    (comment_end(src, i + 2), line, None, None)
                } else {
                    (
                        i + 1,
                        line,
                        Some(
                            TokenModel {
                                kind: TokenType::Slash,
                                lexeme: src.subrange(i, i + 1),
                                literal: None,
                                line,
                            },
                        ),
                        None,
                    )
                }
            } else if c == '"' {
                let close = string_close(src, i + 1);
                if close >= src.len() {
                    let l2 = line + newline_count(src, i + 1, src.len() as int);
                    (src.len() as int, l2, None, Some(LexErrorModel::UnterminatedString { line: l2 }))
                } else {
                    let l2 = line + newline_count(src, i + 1, close);
                    (
                        close + 1,
                        l2,
                        Some(
                            TokenModel {
                                kind: TokenType::StringLit,
                                lexeme: src.subrange(i, close + 1),
                                literal: Some(LiteralModel::StringValue(src.subrange(i + 1, close))),
                                line: l2,
                            },
                        ),
                        None,
                    )
                }
            } else if c == ' ' || c == '\r' || c == '\t' {
                (i + 1, line, None, None)
            } else if c == '\n' {
                (i + 1, line + 1, None, None)
            } else if is_digit_char(c) {
                let whole = digit_run_end(src, i + 1);
                let end = if whole < src.len() && src[whole] == '.' && whole + 1 < src.len()
                    && is_digit_char(src[whole + 1]) {
                    digit_run_end(src, whole + 1)
                } else {
                    whole
                };
                (
                    end,
                    line,
                    Some(
                        TokenModel {
                            kind: TokenType::Number,
                            lexeme: src.subrange(i, end),
                            literal: Some(LiteralModel::NumberValue(src.subrange(i, end))),
                            line,
                        },
                    ),
                    None,
                )
            } else if is_alpha_char(c) {
                let end = ident_run_end(src, i + 1);
                let lex = src.subrange(i, end);
                let kind = match keyword_kind(lex) {
                    Some(k) => k,
                    None => TokenType::Identifier,
                };
                (end, line, Some(TokenModel { kind, lexeme: lex, literal: None, line }), None)
            } else {
                (i + 1, line, None, Some(LexErrorModel::UnrecognizedCharacter { character: c, line }))
            },
        },
    }
}

pub proof fn lemma_digit_run_end(src: Seq<char>, i: int)
    requires
        0 <= i <= src.len(),
    ensures
        i <= digit_run_end(src, i) <= src.len(),
    decreases src.len() - i,
{
    if i < src.len() && is_digit_char(src[i]) {
        lemma_digit_run_end(src, i + 1);
    }
}

pub proof fn lemma_ident_run_end(src: Seq<char>, i: int)
    requires
        0 <= i <= src.len(),
    ensures
        i <= ident_run_end(src, i) <= src.len(),
    decreases src.len() - i,
{
    if i < src.len() && is_alnum_char(src[i]) {
        lemma_ident_run_end(src, i + 1);
    }
}

pub proof fn lemma_string_close(src: Seq<char>, i: int)
    requires
        0 <= i <= src.len(),
    ensures
        i <= string_close(src, i) <= src.len(),
    decreases src.len() - i,
{
    if i < src.len() && src[i] != '"' {
        lemma_string_close(src, i + 1);
    }
}

pub proof fn lemma_comment_end(src: Seq<char>, i: int)
    requires
        0 <= i <= src.len(),
    ensures
        i <= comment_end(src, i) <= src.len(),
    decreases src.len() - i,
{
    if i < src.len() && src[i] != '\n' {
        lemma_comment_end(src, i + 1);
    }
}

/// Every scanning step consumes at least one character and stays within the
/// source, so scanning terminates.
pub proof fn lemma_scan_step_bounds(src: Seq<char>, i: int, line: int)
    requires
        0 <= i < src.len(),
    ensures
        i < scan_step(src, i, line).0 <= src.len(),
{
    let c = src[i];
    if punct_kind(c) is Some {
    } else if pair_kinds(c) is Some {
    } else if c == '/' {
        if i + 1 < src.len() && src[i + 1] == '/' {
            lemma_comment_end(src, i + 2);
        }
    } else if c == '"' {
        lemma_string_close(src, i + 1);
    } else if c == ' ' || c == '\r' || c == '\t' || c == '\n' {
    } else if is_digit_char(c) {
        lemma_digit_run_end(src, i + 1);
        let whole = digit_run_end(src, i + 1);
        if whole < src.len() && src[whole] == '.' && whole + 1 < src.len() && is_digit_char(src[whole + 1]) {
            lemma_digit_run_end(src, whole + 1);
        }
    } else if is_alpha_char(c) {
        lemma_ident_run_end(src, i + 1);
    } else {
    }
}

/// Scan of the source from position `i` on line `line` to the end: the
/// tokens emitted, the diagnostics recorded, and the final line reached.
/// The end-of-input token is not included here.
pub open spec fn scan_rest(src: Seq<char>, i: int, line: int) -> (Seq<TokenModel>, Seq<LexErrorModel>, int)
    decreases src.len() - i,
{
    if !(0 <= i < src.len()) {
        (Seq::empty(), Seq::empty(), line)
    } else {
        proof {
            lemma_scan_step_bounds(src, i, line);
        }
        let st = scan_step(src, i, line);
        let rest = scan_rest(src, st.0, st.1);
        (opt_seq(st.2) + rest.0, opt_seq(st.3) + rest.1, rest.2)
    }
}

/// A zero- or one-element sequence from an option.
pub open spec fn opt_seq<T>(o: Option<T>) -> Seq<T> {
    match o {
        None => Seq::empty(),
        Some(x) => seq![x],
    }
}

/// The end-of-input token: empty lexeme, no literal, stamped with the final
/// line reached.
pub open spec fn eof_token(line: int) -> TokenModel {
    TokenModel { kind: TokenType::Eof, lexeme: Seq::empty(), literal: None, line }
}

/// Complete scan of a source: all tokens in order, terminated by exactly one
/// end-of-input token, together with all lexical diagnostics in order.
pub open spec fn scan_output(src: Seq<char>) -> (Seq<TokenModel>, Seq<LexErrorModel>) {
    let r = scan_rest(src, 0, 1);
    (r.0.push(eof_token(r.2)), r.1)
}

/// What holds of the token scanned from a single punctuation character at
/// position `k` of the source, on line `line`.
pub open spec fn punct_token_ok(src: Seq<char>, line: int, tm: TokenModel, k: int) -> bool {
    &&& punct_kind(src[k]) == Some(tm.kind)
    &&& tm.lexeme == src.subrange(k, k + 1)
    &&& tm.literal is None
    &&& tm.line == line
}

proof fn lemma_punct_scan_rest(src: Seq<char>, i: int, line: int)
    requires
        0 <= i <= src.len(),
        forall|k: int| 0 <= k < src.len() ==> (#[trigger] punct_kind(src[k])) is Some,
    ensures
        ({
            let r = scan_rest(src, i, line);
            &&& r.0.len() == src.len() - i
            &&& r.1.len() == 0
            &&& r.2 == line
            &&& forall|j: int| 0 <= j < r.0.len() ==> punct_token_ok(src, line, #[trigger] r.0[j], i + j)
        }),
    decreases src.len() - i,
{
    if i < src.len() {
        lemma_punct_scan_rest(src, i + 1, line);
        let st = scan_step(src, i, line);
        let r = scan_rest(src, i, line);
        let rest = scan_rest(src, i + 1, line);
        assert(st.0 == i + 1);
        assert(r.0 =~= opt_seq(st.2) + rest.0);
        assert(r.1 =~= opt_seq(st.3) + rest.1);
        assert forall|j: int| 0 <= j < r.0.len() implies punct_token_ok(src, line, #[trigger] r.0[j], i + j) by {
            if j > 0 {
                assert(r.0[j] == rest.0[j - 1]);
            } else {
                assert(punct_kind(src[i]) is Some);
                assert(r.0[0] == opt_seq(st.2)[0]);
                assert(punct_token_ok(src, line, opt_seq(st.2)[0], i));
            }
        }
    }
}

/// For a source made only of single-character punctuation, the scan yields
/// one token per character, of that character's kind, positionally in order,
/// all on line 1, with no diagnostics, plus the end-of-input token.
pub proof fn lemma_punct_scan(src: Seq<char>)
    requires
        forall|k: int| 0 <= k < src.len() ==> (#[trigger] punct_kind(src[k])) is Some,
    ensures
        ({
            let out = scan_output(src);
            &&& out.0.len() == src.len() + 1
            &&& out.1.len() == 0
            &&& forall|k: int| 0 <= k < src.len() ==> punct_token_ok(src, 1, #[trigger] out.0[k], k)
            &&& out.0[src.len() as int] == eof_token(1)
        }),
{
    lemma_punct_scan_rest(src, 0, 1);
    let r = scan_rest(src, 0, 1);
    let out = scan_output(src);
    assert forall|k: int| 0 <= k < src.len() implies punct_token_ok(src, 1, #[trigger] out.0[k], k) by {
        assert(out.0[k] == r.0[k]);
        assert(punct_token_ok(src, 1, r.0[k], 0 + k));
    }
}

proof fn lemma_ident_run_full(src: Seq<char>, j: int)
    requires
        0 <= j <= src.len(),
        forall|k: int| j <= k < src.len() ==> is_alnum_char(#[trigger] src[k]),
    ensures
        ident_run_end(src, j) == src.len(),
    decreases src.len() - j,
{
    if j < src.len() {
        lemma_ident_run_full(src, j + 1);
    }
}

/// A source that is one maximal identifier run scans to exactly one token
/// plus the end-of-input token: a keyword token where the whole lexeme
/// matches the keyword table exactly, an identifier otherwise — so a keyword
/// that is merely a prefix of a longer lexeme does not match.
pub proof fn lemma_identifier_scan(src: Seq<char>)
    requires
        src.len() >= 1,
        is_alpha_char(src[0]),
        forall|k: int| 1 <= k < src.len() ==> is_alnum_char(#[trigger] src[k]),
    ensures
        ({
            let out = scan_output(src);
            &&& out.0.len() == 2
            &&& out.1.len() == 0
            &&& out.0[0].kind == (match keyword_kind(src) {
                Some(k) => k,
                None => TokenType::Identifier,
            })
            &&& out.0[0].lexeme == src
            &&& out.0[0].literal is None
            &&& out.0[0].line == 1
            &&& out.0[1] == eof_token(1)
        }),
{
    lemma_ident_run_full(src, 1);
    let st = scan_step(src, 0, 1);
    assert(st.0 == src.len());
    assert(src.subrange(0, src.len() as int) =~= src);
    let rest = scan_rest(src, src.len() as int, 1);
    assert(rest.0 =~= Seq::empty());
    let r = scan_rest(src, 0, 1);
    assert(r.0 =~= opt_seq(st.2) + rest.0);
    assert(r.1 =~= opt_seq(st.3) + rest.1);
    assert(scan_output(src).0 =~= opt_seq(st.2).push(eof_token(1)));
}

proof fn lemma_newline_count_nonneg(src: Seq<char>, a: int, b: int)
    ensures
        0 <= newline_count(src, a, b),
    decreases b - a,
{
    if !(a < 0 || a >= b) {
        lemma_newline_count_nonneg(src, a + 1, b);
    }
}

proof fn lemma_scan_step_lines(src: Seq<char>, i: int, line: int)
    requires
        0 <= i < src.len(),
    ensures
        ({
            let st = scan_step(src, i, line);
            &&& line <= st.1
            &&& match st.2 {
                Some(tm) => line <= tm.line && tm.line <= st.1 && tm.kind != TokenType::Eof,
                None => true,
            }
        }),
{
    if src[i] == '"' {
        lemma_newline_count_nonneg(src, i + 1, string_close(src, i + 1));
        lemma_newline_count_nonneg(src, i + 1, src.len() as int);
    }
}

proof fn lemma_scan_rest_lines(src: Seq<char>, i: int, line: int)
    requires
        0 <= i <= src.len(),
    ensures
        ({
            let r = scan_rest(src, i, line);
            &&& line <= r.2
            &&& forall|j: int|
                0 <= j < r.0.len() ==> line <= (#[trigger] r.0[j]).line && r.0[j].line <= r.2 && r.0[j].kind
                    != TokenType::Eof
            &&& forall|j: int, j2: int|
                0 <= j <= j2 < r.0.len() ==> (#[trigger] r.0[j]).line <= (#[trigger] r.0[j2]).line
        }),
    decreases src.len() - i,
{
    if 0 <= i < src.len() {
        lemma_scan_step_bounds(src, i, line);
        lemma_scan_step_lines(src, i, line);
        let st = scan_step(src, i, line);
        lemma_scan_rest_lines(src, st.0, st.1);
        let r = scan_rest(src, i, line);
        let rest = scan_rest(src, st.0, st.1);
        let h = opt_seq(st.2).len() as int;
        assert(r.0 =~= opt_seq(st.2) + rest.0);
        assert forall|j: int|
            0 <= j < r.0.len() implies line <= (#[trigger] r.0[j]).line && r.0[j].line <= r.2 && r.0[j].kind
            != TokenType::Eof by {
            if j >= h {
                assert(r.0[j] == rest.0[j - h]);
            } else {
                assert(r.0[j] == opt_seq(st.2)[0]);
            }
        }
        assert forall|j: int, j2: int|
            0 <= j <= j2 < r.0.len() implies (#[trigger] r.0[j]).line <= (#[trigger] r.0[j2]).line by {
            if j >= h {
                assert(r.0[j] == rest.0[j - h]);
                assert(r.0[j2] == rest.0[j2 - h]);
            } else {
                assert(r.0[j] == opt_seq(st.2)[0]);
                if j2 >= h {
                    assert(r.0[j2] == rest.0[j2 - h]);
                }
            }
        }
    }
}

/// Across a scanned token sequence, line numbers are monotonically
/// non-decreasing, and the end-of-input token appears exactly once, at the
/// end, stamped with the final line reached.
pub proof fn lemma_token_lines_monotone(src: Seq<char>)
    ensures
        ({
            let out = scan_output(src);
            &&& out.0.len() >= 1
            &&& forall|j: int, j2: int|
                0 <= j <= j2 < out.0.len() ==> (#[trigger] out.0[j]).line <= (#[trigger] out.0[j2]).line
            &&& forall|j: int| 0 <= j < out.0.len() - 1 ==> (#[trigger] out.0[j]).kind != TokenType::Eof
            &&& out.0[out.0.len() - 1].kind == TokenType::Eof
        }),
{
    lemma_scan_rest_lines(src, 0, 1);
    let r = scan_rest(src, 0, 1);
    let out = scan_output(src);
    assert forall|j: int, j2: int|
        0 <= j <= j2 < out.0.len() implies (#[trigger] out.0[j]).line <= (#[trigger] out.0[j2]).line by {
        if j < r.0.len() {
            assert(out.0[j] == r.0[j]);
        }
        if j2 < r.0.len() {
            assert(out.0[j2] == r.0[j2]);
        }
    }
    assert forall|j: int| 0 <= j < out.0.len() - 1 implies (#[trigger] out.0[j]).kind != TokenType::Eof by {
        assert(out.0[j] == r.0[j]);
    }
}

proof fn lemma_string_close_at(src: Seq<char>, j: int, q: int)
    requires
        0 <= j <= q < src.len(),
        src[q] == '"',
        forall|k: int| j <= k < q ==> src[k] != '"',
    ensures
        string_close(src, j) == q,
    decreases q - j,
{
    if j < q {
        lemma_string_close_at(src, j + 1, q);
    }
}

/// String literal round-trip: a source that is one whole string literal
/// scans to exactly one string token (plus the end-of-input token) whose
/// literal payload is the contents between the quotes, quotes stripped, and
/// whose lexeme is the whole literal, quotes included.
pub proof fn lemma_string_literal_scan(src: Seq<char>)
    requires
        src.len() >= 2,
        src[0] == '"',
        src[src.len() - 1] == '"',
        forall|k: int| 1 <= k < src.len() - 1 ==> src[k] != '"',
    ensures
        ({
            let out = scan_output(src);
            let body = src.subrange(1, src.len() - 1);
            let l2 = 1 + newline_count(src, 1, src.len() - 1);
            &&& out.0.len() == 2
            &&& out.1.len() == 0
            &&& out.0[0].kind == TokenType::StringLit
            &&& out.0[0].lexeme == src
            &&& out.0[0].literal == Some(LiteralModel::StringValue(body))
            &&& out.0[0].line == l2
            &&& out.0[1] == eof_token(l2)
        }),
{
    lemma_string_close_at(src, 1, src.len() - 1);
    let st = scan_step(src, 0, 1);
    assert(st.0 == src.len());
    assert(src.subrange(0, src.len() as int) =~= src);
    let rest = scan_rest(src, src.len() as int, st.1);
    let r = scan_rest(src, 0, 1);
    assert(r.0 =~= opt_seq(st.2) + rest.0);
    assert(r.1 =~= opt_seq(st.3) + rest.1);
    assert(scan_output(src).0 =~= opt_seq(st.2).push(eof_token(r.2)));
}

proof fn lemma_digit_run_full(src: Seq<char>, j: int)
    requires
        0 <= j <= src.len(),
        forall|k: int| j <= k < src.len() ==> is_digit_char(#[trigger] src[k]),
    ensures
        digit_run_end(src, j) == src.len(),
    decreases src.len() - j,
{
    if j < src.len() {
        lemma_digit_run_full(src, j + 1);
    }
}

/// A source that is one maximal digit run scans to exactly one number token
/// (plus the end-of-input token) whose literal payload and lexeme are both
/// the exact digits.
pub proof fn lemma_number_scan(src: Seq<char>)
    requires
        src.len() >= 1,
        forall|k: int| 0 <= k < src.len() ==> is_digit_char(#[trigger] src[k]),
    ensures
        ({
            let out = scan_output(src);
            &&& out.0.len() == 2
            &&& out.1.len() == 0
            &&& out.0[0].kind == TokenType::Number
            &&& out.0[0].lexeme == src
            &&& out.0[0].literal == Some(LiteralModel::NumberValue(src))
            &&& out.0[0].line == 1
            &&& out.0[1] == eof_token(1)
        }),
{
    lemma_digit_run_full(src, 1);
    let st = scan_step(src, 0, 1);
    assert(st.0 == src.len());
    assert(src.subrange(0, src.len() as int) =~= src);
    let rest = scan_rest(src, src.len() as int, 1);
    let r = scan_rest(src, 0, 1);
    assert(r.0 =~= opt_seq(st.2) + rest.0);
    assert(r.1 =~= opt_seq(st.3) + rest.1);
    assert(scan_output(src).0 =~= opt_seq(st.2).push(eof_token(1)));
}

/// A string literal opened at `i` and never closed yields exactly one
/// diagnostic, an unterminated-string error, and no token at all: the scan
/// consumes the rest of the source and completes, counting embedded newlines
/// (the end-of-input token is still appended by `scan_output`).
pub proof fn lemma_unterminated_string(src: Seq<char>, i: int, line: int)
    requires
        0 <= i < src.len(),
        src[i] == '"',
        string_close(src, i + 1) == src.len(),
    ensures
        ({
            let r = scan_rest(src, i, line);
            let l2 = line + newline_count(src, i + 1, src.len() as int);
            &&& r.0 == Seq::<TokenModel>::empty()
            &&& r.1 == seq![LexErrorModel::UnterminatedString { line: l2 }]
            &&& r.2 == l2
        }),
{
    let st = scan_step(src, i, line);
    assert(st.0 == src.len());
    let rest = scan_rest(src, st.0, st.1);
    assert(rest.0 =~= Seq::<TokenModel>::empty());
    assert(rest.1 =~= Seq::<LexErrorModel>::empty());
    let r = scan_rest(src, i, line);
    assert(r.0 =~= opt_seq(st.2) + rest.0);
    assert(r.0 =~= Seq::<TokenModel>::empty());
    assert(r.1 =~= opt_seq(st.3) + rest.1);
    assert(r.1 =~= seq![
        LexErrorModel::UnterminatedString { line: line + newline_count(src, i + 1, src.len() as int) },
    ]);
}

pub proof fn lemma_newline_count_extend(src: Seq<char>, a: int, b: int)
    requires
        0 <= a <= b < src.len(),
    ensures
        newline_count(src, a, b + 1) == newline_count(src, a, b) + (if src[b] == '\n' {
            1int
        } else {
            0int
        }),
    decreases b - a,
{
    if a < b {
        lemma_newline_count_extend(src, a + 1, b);
    } else {
        assert(newline_count(src, a + 1, b + 1) == 0);
    }
}

/// Relies on `String::push`: appends one character at the end of the string.
pub assume_specification[ String::push ](s: &mut String, c: char)
    ensures
        final(s)@ == old(s)@.push(c),
;

/// Builds the fixed keyword table as explicit lexeme / kind pairs.
pub fn get_keywords_map() -> (r: Vec<(String, TokenType)>)
    ensures
        r.deep_view() == keyword_table(),
{
    let mut v: Vec<(String, TokenType)> = Vec::new();
    v.push(("and".to_owned(), TokenType::And));
    v.push(("class".to_owned(), TokenType::Class));
    v.push(("else".to_owned(), TokenType::Else));
    v.push(("false".to_owned(), TokenType::False));
    v.push(("for".to_owned(), TokenType::For));
    v.push(("fun".to_owned(), TokenType::Fun));
    v.push(("if".to_owned(), TokenType::If));
    v.push(("nil".to_owned(), TokenType::Nil));
    v.push(("or".to_owned(), TokenType::Or));
    v.push(("print".to_owned(), TokenType::Print));
    v.push(("return".to_owned(), TokenType::Return));
    v.push(("super".to_owned(), TokenType::Super));
    v.push(("this".to_owned(), TokenType::This));
    v.push(("true".to_owned(), TokenType::True));
    v.push(("var".to_owned(), TokenType::Var));
    v.push(("while".to_owned(), TokenType::While));
    proof {
        assert(v.deep_view() =~= keyword_table());
    }
    v
}

/// Looks a lexeme up in the keyword table, by exact match.
fn keyword_match(lexeme: &String) -> (r: Option<TokenType>)
    ensures
        r == keyword_kind(lexeme@),
{
    if *lexeme == "and".to_owned() {
        Some(TokenType::And)
    } else if *lexeme == "class".to_owned() {
        Some(TokenType::Class)
    } else if *lexeme == "else".to_owned() {
        Some(TokenType::Else)
    } else if *lexeme == "false".to_owned() {
        Some(TokenType::False)
    } else if *lexeme == "for".to_owned() {
        Some(TokenType::For)
    } else if *lexeme == "fun".to_owned() {
        Some(TokenType::Fun)
    } else if *lexeme == "if".to_owned() {
        Some(TokenType::If)
    } else if *lexeme == "nil".to_owned() {
        Some(TokenType::Nil)
    } else if *lexeme == "or".to_owned() {
        Some(TokenType::Or)
    } else if *lexeme == "print".to_owned() {
        Some(TokenType::Print)
    } else if *lexeme == "return".to_owned() {
        Some(TokenType::Return)
    } else if *lexeme == "super".to_owned() {
        Some(TokenType::Super)
    } else if *lexeme == "this".to_owned() {
        Some(TokenType::This)
    } else if *lexeme == "true".to_owned() {
        Some(TokenType::True)
    } else if *lexeme == "var".to_owned() {
        Some(TokenType::Var)
    } else if *lexeme == "while".to_owned() {
        Some(TokenType::While)
    } else {
        None
    }
}

/// The scanner: owns the source as a character sequence and a cursor into it,
/// and accumulates the tokens produced so far.
pub struct Scanner {
    source: Vec<char>,
    tokens: Vec<Token>,
    start: usize,
    current: usize,
    line: usize,
}

impl Scanner {
    /// The source text under scan.
    pub closed spec fn src(&self) -> Seq<char> {
        self.source@
    }

    /// Internal well-formedness: cursors within the source, line counter
    /// 1-based and bounded by the characters consumed.
    pub closed spec fn wf(&self) -> bool {
        &&& self.source@.len() < usize::MAX
        &&& self.current <= self.source@.len()
        &&& self.start <= self.source@.len()
        &&& 1 <= self.line
        &&& self.line as int <= 1 + self.current as int
    }

    /// A scanner that has not consumed anything yet.
    pub closed spec fn fresh(&self) -> bool {
        &&& self.tokens@.len() == 0
        &&& self.start == 0
        &&& self.current == 0
        &&& self.line == 1
    }

    pub fn new(source: &str) -> (r: Self)
        requires
            source@.len() < usize::MAX,
        ensures
            r.wf(),
            r.fresh(),
            r.src() == source@,
    {
        let n = source.unicode_len();
        let mut chars: Vec<char> = Vec::new();
        let mut i: usize = 0;
        while i < n
            invariant
                i <= n,
                n == source@.len(),
                chars@ == source@.subrange(0, i as int),
            decreases n - i,
        {
            let c = source.get_char(i);
            chars.push(c);
            proof {
                assert(chars@ =~= source@.subrange(0, i as int + 1));
            }
            i = i + 1;
        }
        proof {
            assert(chars@ =~= source@);
        }
        Scanner { source: chars, tokens: Vec::new(), start: 0, current: 0, line: 1 }
    }

    fn is_at_end(&self) -> (r: bool)
        ensures
            r == (self.current >= self.source@.len()),
    {
        self.current >= self.source.len()
    }

    fn advance(&mut self) -> (c: char)
        requires
            old(self).wf(),
            old(self).current < old(self).source@.len(),
        ensures
            final(self).wf(),
            final(self).source == old(self).source,
            final(self).tokens == old(self).tokens,
            final(self).start == old(self).start,
            final(self).line == old(self).line,
            final(self).current == old(self).current + 1,
            c == old(self).source@[old(self).current as int],
    {
        let c = self.source[self.current];
        self.current = self.current + 1;
        c
    }

    fn peek(&self) -> (c: char)
        ensures
            c == (if self.current < self.source@.len() {
                self.source@[self.current as int]
            } else {
                '\0'
            }),
    {
        if self.current < self.source.len() {
            self.source[self.current]
        } else {
            '\0'
        }
    }

    fn peek_next(&self) -> (c: char)
        requires
            self.wf(),
        ensures
            c == (if self.current + 1 < self.source@.len() {
                self.source@[self.current as int + 1]
            } else {
                '\0'
            }),
    {
        if self.current < usize::MAX && self.current + 1 < self.source.len() {
            self.source[self.current + 1]
        } else {
            '\0'
        }
    }

    fn char_match(&mut self, c: char) -> (r: bool)
        requires
            old(self).wf(),
        ensures
            final(self).wf(),
            final(self).source == old(self).source,
            final(self).tokens == old(self).tokens,
            final(self).start == old(self).start,
            final(self).line == old(self).line,
            r == (old(self).current < old(self).source@.len() && old(self).source@[old(self).current as int]
                == c),
            final(self).current as int == (if r {
                old(self).current as int + 1
            } else {
                old(self).current as int
            }),
    {
        if self.is_at_end() {
            return false;
        }
        if self.source[self.current] != c {
            false
        } else {
            self.current = self.current + 1;
            true
        }
    }

    fn is_num(&self, n: char) -> (r: bool)
        ensures
            r == is_digit_char(n),
    {
        '0' <= n && n <= '9'
    }

    fn is_alpha(&self, c: char) -> (r: bool)
        ensures
            r == is_alpha_char(c),
    {
        ('a' <= c && c <= 'z') || ('A' <= c && c <= 'Z') || c == '_'
    }

    fn is_alpha_num(&self, c: char) -> (r: bool)
        ensures
            r == is_alnum_char(c),
    {
        self.is_alpha(c) || self.is_num(c)
    }

    fn at_digit(&self) -> (r: bool)
        ensures
            r == (self.current < self.source@.len() && is_digit_char(self.source@[self.current as int])),
    {
        if self.current < self.source.len() {
            let c = self.source[self.current];
            '0' <= c && c <= '9'
        } else {
            false
        }
    }

    fn at_alnum(&self) -> (r: bool)
        ensures
            r == (self.current < self.source@.len() && is_alnum_char(self.source@[self.current as int])),
    {
        if self.current < self.source.len() {
            let c = self.source[self.current];
            self.is_alpha_num(c)
        } else {
            false
        }
    }

    fn in_string_body(&self) -> (r: bool)
        ensures
            r == (self.current < self.source@.len() && self.source@[self.current as int] != '"'),
    {
        if self.current < self.source.len() {
            self.source[self.current] != '"'
        } else {
            false
        }
    }

    fn in_comment_body(&self) -> (r: bool)
        ensures
            r == (self.current < self.source@.len() && self.source@[self.current as int] != '\n'),
    {
        if self.current < self.source.len() {
            self.source[self.current] != '\n'
        } else {
            false
        }
    }

    /// The verbatim source text between two positions, as a fresh string.
    fn substring(&self, from: usize, to: usize) -> (r: String)
        requires
            from <= to <= self.source@.len(),
        ensures
            r@ == self.source@.subrange(from as int, to as int),
    {
        let mut s = String::new();
        let mut i = from;
        while i < to
            invariant
                from <= i <= to,
                to <= self.source@.len(),
                s@ == self.source@.subrange(from as int, i as int),
            decreases to - i,
        {
            let c = self.source[i];
            s.push(c);
            proof {
                assert(s@ =~= self.source@.subrange(from as int, i as int + 1));
            }
            i = i + 1;
        }
        s
    }

    /// Emits a token whose lexeme is the source text between the start and
    /// current cursors, stamped with the current line.
    fn add_token_lit(&mut self, token_type: TokenType, literal: Option<LiteralValue>)
        requires
            old(self).wf(),
            old(self).start <= old(self).current,
        ensures
            final(self).wf(),
            final(self).source == old(self).source,
            final(self).start == old(self).start,
            final(self).current == old(self).current,
            final(self).line == old(self).line,
            final(self).tokens.deep_view() == old(self).tokens.deep_view().push(
                TokenModel {
                    kind: token_type,
                    lexeme: old(self).source@.subrange(old(self).start as int, old(self).current as int),
                    literal: literal.deep_view(),
                    line: old(self).line as int,
                },
            ),
    {
        let text = self.substring(self.start, self.current);
        let ghost litm = literal.deep_view();
        self.tokens.push(Token { token_type, lexeme: text, literal, line_number: self.line });
        proof {
            assert(self.tokens.deep_view() =~= old(self).tokens.deep_view().push(
                TokenModel {
                    kind: token_type,
                    lexeme: old(self).source@.subrange(old(self).start as int, old(self).current as int),
                    literal: litm,
                    line: old(self).line as int,
                },
            ));
        }
    }

    /// Scans the whole source, left to right: returns the complete token
    /// sequence, terminated by exactly one end-of-input token, together with
    /// all lexical diagnostics in order. Diagnostics do not stop the scan.
    pub fn scan_tokens(&mut self) -> (r: (Vec<Token>, Vec<LexError>))
        requires
            old(self).wf(),
            old(self).fresh(),
        ensures
            r.0.deep_view() == scan_output(old(self).src()).0,
            r.1.deep_view() == scan_output(old(self).src()).1,
            r.0@.len() >= 1,
            r.0@[r.0@.len() - 1].token_type == TokenType::Eof,
    {
        let ghost src = self.source@;
        let mut errors: Vec<LexError> = Vec::new();
        proof {
            assert(self.tokens.deep_view() =~= Seq::<TokenModel>::empty());
            assert(errors.deep_view() =~= Seq::<LexErrorModel>::empty());
            assert(Seq::<TokenModel>::empty() + scan_rest(src, 0, 1).0 =~= scan_rest(src, 0, 1).0);
            assert(Seq::<LexErrorModel>::empty() + scan_rest(src, 0, 1).1 =~= scan_rest(src, 0, 1).1);
        }
        while self.current < self.source.len()
            invariant
                self.wf(),
                src == self.source@,
                scan_rest(src, 0, 1).0 == self.tokens.deep_view() + scan_rest(
                    src,
                    self.current as int,
                    self.line as int,
                ).0,
                scan_rest(src, 0, 1).1 == errors.deep_view() + scan_rest(
                    src,
                    self.current as int,
                    self.line as int,
                ).1,
                scan_rest(src, 0, 1).2 == scan_rest(src, self.current as int, self.line as int).2,
            decreases src.len() - self.current,
        {
            self.start = self.current;
            let ghost pre = *self;
            let res = self.scan_token();
            let ghost st = scan_step(src, pre.current as int, pre.line as int);
            match res {
                Ok(_) => {
                    proof {
                        assert(errors.deep_view() + scan_rest(src, pre.current as int, pre.line as int).1
                            =~= errors.deep_view() + opt_seq(st.3) + scan_rest(src, st.0, st.1).1);
                    }
                },
                Err(e) => {
                    let ghost errs0 = errors.deep_view();
                    errors.push(e);
                    proof {
                        assert(errors.deep_view() =~= errs0 + opt_seq(st.3));
                    }
                },
            }
            proof {
                lemma_scan_step_bounds(src, pre.current as int, pre.line as int);
                assert(pre.tokens.deep_view() + scan_rest(src, pre.current as int, pre.line as int).0
                    =~= self.tokens.deep_view() + scan_rest(src, self.current as int, self.line as int).0);
                assert(errors.deep_view() + scan_rest(src, self.current as int, self.line as int).1
                    =~= scan_rest(src, 0, 1).1);
            }
        }
        assert(scan_rest(src, self.current as int, self.line as int).0 =~= Seq::<TokenModel>::empty());
        assert(scan_rest(src, 0, 1).0 =~= self.tokens.deep_view());
        assert(scan_rest(src, 0, 1).1 =~= errors.deep_view());
        self.tokens.push(
            Token { token_type: TokenType::Eof, lexeme: String::new(), literal: None, line_number: self.line },
        );
        proof {
            assert(self.tokens.deep_view() =~= scan_output(src).0);
        }
        let toks = self.tokens.clone();
        proof {
            assert forall|i: int| 0 <= i < self.tokens@.len() implies toks@[i] == self.tokens@[i] by {
                assert(cloned::<Token>(self.tokens[i], toks[i]));
            }
            assert(toks@ =~= self.tokens@);
            assert(toks.deep_view() =~= self.tokens.deep_view());
        }
        (toks, errors)
    }

    /// Classifies and consumes one lexeme starting at the current cursor:
    /// emits at most one token and records at most one diagnostic, exactly as
    /// one step of the scanning model.
    fn scan_token(&mut self) -> (r: Result<(), LexError>)
        requires
            old(self).wf(),
            old(self).start == old(self).current,
            old(self).current < old(self).source@.len(),
        ensures
            final(self).wf(),
            final(self).source == old(self).source,
            final(self).start == old(self).start,
            ({
                let st = scan_step(old(self).source@, old(self).current as int, old(self).line as int);
                &&& final(self).current as int == st.0
                &&& final(self).line as int == st.1
                &&& final(self).tokens.deep_view() == old(self).tokens.deep_view() + opt_seq(st.2)
                &&& (match (r, st.3) {
                    (Ok(_), None) => true,
                    (Err(e), Some(m)) => e@ == m,
                    _ => false,
                })
            }),
    {
        let ghost st = scan_step(old(self).source@, old(self).current as int, old(self).line as int);
        let c = self.advance();
        match c {
            '(' => {
                self.add_token(TokenType::LeftParen);
                assert(self.tokens.deep_view() =~= old(self).tokens.deep_view() + opt_seq(st.2));
                Ok(())
            },
            ')' => {
                self.add_token(TokenType::RightParen);
                assert(self.tokens.deep_view() =~= old(self).tokens.deep_view() + opt_seq(st.2));
                Ok(())
            },
            '{' => {
                self.add_token(TokenType::LeftBrace);
                assert(self.tokens.deep_view() =~= old(self).tokens.deep_view() + opt_seq(st.2));
                Ok(())
            },
            '}' => {
                self.add_token(TokenType::RightBrace);
                assert(self.tokens.deep_view() =~= old(self).tokens.deep_view() + opt_seq(st.2));
                Ok(())
            },
            ',' => {
                self.add_token(TokenType::Comma);
                assert(self.tokens.deep_view() =~= old(self).tokens.deep_view() + opt_seq(st.2));
                Ok(())
            },
            '.' => {
                self.add_token(TokenType::Dot);
                assert(self.tokens.deep_view() =~= old(self).tokens.deep_view() + opt_seq(st.2));
                Ok(())
            },
            '-' => {
                self.add_token(TokenType::Minus);
                assert(self.tokens.deep_view() =~= old(self).tokens.deep_view() + opt_seq(st.2));
                Ok(())
            },
            '+' => {
                self.add_token(TokenType::Plus);
                assert(self.tokens.deep_view() =~= old(self).tokens.deep_view() + opt_seq(st.2));
                Ok(())
            },
            ';' => {
                self.add_token(TokenType::Semicolon);
                assert(self.tokens.deep_view() =~= old(self).tokens.deep_view() + opt_seq(st.2));
                Ok(())
            },
            '*' => {
                self.add_token(TokenType::Star);
                assert(self.tokens.deep_view() =~= old(self).tokens.deep_view() + opt_seq(st.2));
                Ok(())
            },
            '!' => {
                let two = self.char_match('=');
                let token = if two {
                    TokenType::BangEqual
                } else {
                    TokenType::Bang
                };
                self.add_token(token);
                assert(self.tokens.deep_view() =~= old(self).tokens.deep_view() + opt_seq(st.2));
                Ok(())
            },
            '=' => {
                let two = self.char_match('=');
                let token = if two {
                    TokenType::EqualEqual
                } else {
                    TokenType::Equal
                };
                self.add_token(token);
                assert(self.tokens.deep_view() =~= old(self).tokens.deep_view() + opt_seq(st.2));
                Ok(())
            },
            '<' => {
                let two = self.char_match('=');
                let token = if two {
                    TokenType::LessEqual
                } else {
                    TokenType::Less
                };
                self.add_token(token);
                assert(self.tokens.deep_view() =~= old(self).tokens.deep_view() + opt_seq(st.2));
                Ok(())
            },
            '>' => {
                let two = self.char_match('=');
                let token = if two {
                    TokenType::GreaterEqual
                } else {
                    TokenType::Greater
                };
                self.add_token(token);
                assert(self.tokens.deep_view() =~= old(self).tokens.deep_view() + opt_seq(st.2));
                Ok(())
            },
            '/' => {
                let two = self.char_match('/');
                if two {
                    let ghost src = self.source@;
                    let ghost c0 = self.current as int;
                    while self.in_comment_body()
                        invariant
                            self.wf(),
                            self.source == old(self).source,
                            self.start == old(self).start,
                            self.line == old(self).line,
                            self.tokens == old(self).tokens,
                            0 <= c0 <= self.current as int <= src.len(),
                            src == self.source@,
                            comment_end(src, c0) == comment_end(src, self.current as int),
                        decreases src.len() - self.current,
                    {
                        self.current = self.current + 1;
                    }
                    assert(self.current as int == comment_end(src, c0));
                    assert(self.tokens.deep_view() =~= old(self).tokens.deep_view() + opt_seq(st.2));
                } else {
                    self.add_token(TokenType::Slash);
                    assert(self.tokens.deep_view() =~= old(self).tokens.deep_view() + opt_seq(st.2));
                }
                Ok(())
            },
            '"' => {
                let r = self.string_check();
                assert(self.tokens.deep_view() == old(self).tokens.deep_view() + opt_seq(st.2));
                r
            },
            ' ' | '\r' | '\t' => {
                assert(self.tokens.deep_view() =~= old(self).tokens.deep_view() + opt_seq(st.2));
                Ok(())
            },
            '\n' => {
                self.line = self.line + 1;
                assert(self.tokens.deep_view() =~= old(self).tokens.deep_view() + opt_seq(st.2));
                Ok(())
            },
            _ => {
                if self.is_num(c) {
                    self.number();
                    assert(self.tokens.deep_view() == old(self).tokens.deep_view() + opt_seq(st.2));
                    Ok(())
                } else if self.is_alpha(c) {
                    self.indentifier_check();
                    assert(self.tokens.deep_view() == old(self).tokens.deep_view() + opt_seq(st.2));
                    Ok(())
                } else {
                    assert(self.tokens.deep_view() =~= old(self).tokens.deep_view() + opt_seq(st.2));
                    Err(LexError::UnrecognizedCharacter { character: c, line: self.line })
                }
            },
        }
    }

    /// Scans a number literal: a maximal digit run, optionally followed by a
    /// decimal point and a further digit run when at least one digit follows
    /// the point. The literal payload is the exact decimal text.
    fn number(&mut self)
        requires
            old(self).wf(),
            old(self).start as int + 1 == old(self).current as int,
            old(self).current <= old(self).source@.len(),
            is_digit_char(old(self).source@[old(self).start as int]),
        ensures
            final(self).wf(),
            final(self).source == old(self).source,
            final(self).start == old(self).start,
            ({
                let st = scan_step(old(self).source@, old(self).start as int, old(self).line as int);
                &&& final(self).current as int == st.0
                &&& final(self).line as int == st.1
                &&& final(self).tokens.deep_view() == old(self).tokens.deep_view() + opt_seq(st.2)
                &&& st.3 is None
            }),
    {
        let ghost src = self.source@;
        let ghost i0 = self.current as int;
        while self.at_digit()
            invariant
                self.wf(),
                self.source == old(self).source,
                self.start == old(self).start,
                self.line == old(self).line,
                self.tokens == old(self).tokens,
                i0 <= self.current as int <= src.len(),
                src == self.source@,
                digit_run_end(src, i0) == digit_run_end(src, self.current as int),
            decreases src.len() - self.current,
        {
            self.current = self.current + 1;
        }
        assert(self.current as int == digit_run_end(src, i0));
        let dot = self.peek();
        if dot == '.' {
            let nx = self.peek_next();
            if '0' <= nx && nx <= '9' {
                self.current = self.current + 1;
                let ghost f0 = self.current as int;
                while self.at_digit()
                    invariant
                        self.wf(),
                        self.source == old(self).source,
                        self.start == old(self).start,
                        self.line == old(self).line,
                        self.tokens == old(self).tokens,
                        f0 <= self.current as int <= src.len(),
                        src == self.source@,
                        digit_run_end(src, f0) == digit_run_end(src, self.current as int),
                    decreases src.len() - self.current,
                {
                    self.current = self.current + 1;
                }
                assert(self.current as int == digit_run_end(src, f0));
            }
        }
        let text = self.substring(self.start, self.current);
        self.add_token_lit(TokenType::Number, Some(LiteralValue::NumberValue(text)));
    }

    /// Scans a string literal through the next `"`, counting embedded
    /// newlines; reports an unterminated string when input ends first, with
    /// no token emitted for that lexeme.
    fn string_check(&mut self) -> (r: Result<(), LexError>)
        requires
            old(self).wf(),
            old(self).start as int + 1 == old(self).current as int,
            old(self).current <= old(self).source@.len(),
            old(self).source@[old(self).start as int] == '"',
        ensures
            final(self).wf(),
            final(self).source == old(self).source,
            final(self).start == old(self).start,
            ({
                let st = scan_step(old(self).source@, old(self).start as int, old(self).line as int);
                &&& final(self).current as int == st.0
                &&& final(self).line as int == st.1
                &&& final(self).tokens.deep_view() == old(self).tokens.deep_view() + opt_seq(st.2)
                &&& (match (r, st.3) {
                    (Ok(_), None) => true,
                    (Err(e), Some(m)) => e@ == m,
                    _ => false,
                })
            }),
    {
        let ghost src = self.source@;
        let ghost i0 = self.current as int;
        while self.in_string_body()
            invariant
                self.wf(),
                self.source == old(self).source,
                self.start == old(self).start,
                self.tokens == old(self).tokens,
                0 <= i0 <= self.current as int <= src.len(),
                src == self.source@,
                string_close(src, i0) == string_close(src, self.current as int),
                self.line as int == old(self).line as int + newline_count(src, i0, self.current as int),
            decreases src.len() - self.current,
        {
            let ghost cur0 = self.current as int;
            assert(i0 <= cur0 < src.len());
            let c = self.source[self.current];
            if c == '\n' {
                self.line = self.line + 1;
            }
            self.current = self.current + 1;
            proof {
                lemma_newline_count_extend(src, i0, cur0);
            }
        }
        if self.is_at_end() {
            assert(string_close(src, i0) == src.len());
            return Err(LexError::UnterminatedString { line: self.line });
        }
        assert(string_close(src, i0) == self.current as int);
        self.current = self.current + 1;
        let value = self.substring(self.start + 1, self.current - 1);
        self.add_token_lit(TokenType::StringLit, Some(LiteralValue::StringValue(value)));
        Ok(())
    }

    /// Scans an identifier or keyword: a maximal run of letters, digits and
    /// underscores, then an exact-match lookup in the keyword table.
    fn indentifier_check(&mut self)
        requires
            old(self).wf(),
            old(self).start as int + 1 == old(self).current as int,
            old(self).current <= old(self).source@.len(),
            is_alpha_char(old(self).source@[old(self).start as int]),
        ensures
            final(self).wf(),
            final(self).source == old(self).source,
            final(self).start == old(self).start,
            ({
                let st = scan_step(old(self).source@, old(self).start as int, old(self).line as int);
                &&& final(self).current as int == st.0
                &&& final(self).line as int == st.1
                &&& final(self).tokens.deep_view() == old(self).tokens.deep_view() + opt_seq(st.2)
                &&& st.3 is None
            }),
    {
        let ghost src = self.source@;
        let ghost i0 = self.current as int;
        while self.at_alnum()
            invariant
                self.wf(),
                self.source == old(self).source,
                self.start == old(self).start,
                self.line == old(self).line,
                self.tokens == old(self).tokens,
                i0 <= self.current as int <= src.len(),
                src == self.source@,
                ident_run_end(src, i0) == ident_run_end(src, self.current as int),
            decreases src.len() - self.current,
        {
            self.current = self.current + 1;
        }
        assert(self.current as int == ident_run_end(src, i0));
        let text = self.substring(self.start, self.current);
        let kind = match keyword_match(&text) {
            Some(k) => k,
            None => TokenType::Identifier,
        };
        self.add_token(kind);
    }

    fn add_token(&mut self, token_type: TokenType)
        requires
            old(self).wf(),
            old(self).start <= old(self).current,
        ensures
            final(self).wf(),
            final(self).source == old(self).source,
            final(self).start == old(self).start,
            final(self).current == old(self).current,
            final(self).line == old(self).line,
            final(self).tokens.deep_view() == old(self).tokens.deep_view().push(
                TokenModel {
                    kind: token_type,
                    lexeme: old(self).source@.subrange(old(self).start as int, old(self).current as int),
                    literal: None,
                    line: old(self).line as int,
                },
            ),
    {
        self.add_token_lit(token_type, None);
    }
}

} // verus!
