//! Tokens: their kinds, literals and the keyword table.

use vstd::prelude::*;
use crate::number::{literal_text, Number};
use crate::text::text_of;

verus! {

/// The kinds of tokens.
#[allow(non_camel_case_types)]
#[derive(Debug, Clone, Copy, PartialEq, Eq, Structural)]
pub enum TokenType {
    // Single-character tokens.
    LEFT_PAREN,
    RIGHT_PAREN,
    LEFT_BRACE,
    RIGHT_BRACE,
    COMMA,
    DOT,
    MINUS,
    PLUS,
    SEMICOLON,
    SLASH,
    STAR,
    QUESTION,
    COLON,

    // One or two character tokens.
    BANG,
    BANG_EQUAL,
    EQUAL,
    EQUAL_EQUAL,
    GREATER,
    GREATER_EQUAL,
    LESS,
    LESS_EQUAL,

    // Literals.
    IDENTIFIER,
    STRING,
    NUMBER,

    // Keywords.
    AND,
    CLASS,
    ELSE,
    FALSE,
    FUN,
    FOR,
    IF,
    NIL,
    OR,
    PRINT,
    RETURN,
    SUPER,
    THIS,
    TRUE,
    VAR,
    WHILE,

    EOF,
}

/// The name of a token kind, as the tokenizer prints it.
pub open spec fn token_type_name(tt: TokenType) -> Seq<char> {
    match tt {
        TokenType::LEFT_PAREN => "LEFT_PAREN"@,
        TokenType::RIGHT_PAREN => "RIGHT_PAREN"@,
        TokenType::LEFT_BRACE => "LEFT_BRACE"@,
        TokenType::RIGHT_BRACE => "RIGHT_BRACE"@,
        TokenType::COMMA => "COMMA"@,
        TokenType::DOT => "DOT"@,
        TokenType::MINUS => "MINUS"@,
        TokenType::PLUS => "PLUS"@,
        TokenType::SEMICOLON => "SEMICOLON"@,
        TokenType::SLASH => "SLASH"@,
        TokenType::STAR => "STAR"@,
        TokenType::QUESTION => "QUESTION"@,
        TokenType::COLON => "COLON"@,
        TokenType::BANG => "BANG"@,
        TokenType::BANG_EQUAL => "BANG_EQUAL"@,
        TokenType::EQUAL => "EQUAL"@,
        TokenType::EQUAL_EQUAL => "EQUAL_EQUAL"@,
        TokenType::GREATER => "GREATER"@,
        TokenType::GREATER_EQUAL => "GREATER_EQUAL"@,
        TokenType::LESS => "LESS"@,
        TokenType::LESS_EQUAL => "LESS_EQUAL"@,
        TokenType::IDENTIFIER => "IDENTIFIER"@,
        TokenType::STRING => "STRING"@,
        TokenType::NUMBER => "NUMBER"@,
        TokenType::AND => "AND"@,
        TokenType::CLASS => "CLASS"@,
        TokenType::ELSE => "ELSE"@,
        TokenType::FALSE => "FALSE"@,
        TokenType::FUN => "FUN"@,
        TokenType::FOR => "FOR"@,
        TokenType::IF => "IF"@,
        TokenType::NIL => "NIL"@,
        TokenType::OR => "OR"@,
        TokenType::PRINT => "PRINT"@,
        TokenType::RETURN => "RETURN"@,
        TokenType::SUPER => "SUPER"@,
        TokenType::THIS => "THIS"@,
        TokenType::TRUE => "TRUE"@,
        TokenType::VAR => "VAR"@,
        TokenType::WHILE => "WHILE"@,
        TokenType::EOF => "EOF"@,
    }
}

/// The keyword kind of a word, if it is one of Lox's reserved words.
pub open spec fn keyword_spec(word: Seq<char>) -> Option<TokenType> {
    if word == "and"@ {
        Some(TokenType::AND)
    } else if word == "class"@ {
        Some(TokenType::CLASS)
    } else if word == "else"@ {
        Some(TokenType::ELSE)
    } else if word == "false"@ {
        Some(TokenType::FALSE)
    } else if word == "for"@ {
        Some(TokenType::FOR)
    } else if word == "fun"@ {
        Some(TokenType::FUN)
    } else if word == "if"@ {
        Some(TokenType::IF)
    } else if word == "nil"@ {
        Some(TokenType::NIL)
    } else if word == "or"@ {
        Some(TokenType::OR)
    } else if word == "print"@ {
        Some(TokenType::PRINT)
    } else if word == "return"@ {
        Some(TokenType::RETURN)
    } else if word == "super"@ {
        Some(TokenType::SUPER)
    } else if word == "this"@ {
        Some(TokenType::THIS)
    } else if word == "true"@ {
        Some(TokenType::TRUE)
    } else if word == "var"@ {
        Some(TokenType::VAR)
    } else if word == "while"@ {
        Some(TokenType::WHILE)
    } else {
        None
    }
}

/// The name of a token kind, as the tokenizer prints it.
pub fn token_type_name_text(tt: TokenType) -> (s: String)
    ensures
        s@ == token_type_name(tt),
{
    match tt {
        TokenType::LEFT_PAREN => text_of("LEFT_PAREN"),
        TokenType::RIGHT_PAREN => text_of("RIGHT_PAREN"),
        TokenType::LEFT_BRACE => text_of("LEFT_BRACE"),
        TokenType::RIGHT_BRACE => text_of("RIGHT_BRACE"),
        TokenType::COMMA => text_of("COMMA"),
        TokenType::DOT => text_of("DOT"),
        TokenType::MINUS => text_of("MINUS"),
        TokenType::PLUS => text_of("PLUS"),
        TokenType::SEMICOLON => text_of("SEMICOLON"),
        TokenType::SLASH => text_of("SLASH"),
        TokenType::STAR => text_of("STAR"),
        TokenType::QUESTION => text_of("QUESTION"),
        TokenType::COLON => text_of("COLON"),
        TokenType::BANG => text_of("BANG"),
        TokenType::BANG_EQUAL => text_of("BANG_EQUAL"),
        TokenType::EQUAL => text_of("EQUAL"),
        TokenType::EQUAL_EQUAL => text_of("EQUAL_EQUAL"),
        TokenType::GREATER => text_of("GREATER"),
        TokenType::GREATER_EQUAL => text_of("GREATER_EQUAL"),
        TokenType::LESS => text_of("LESS"),
        TokenType::LESS_EQUAL => text_of("LESS_EQUAL"),
        TokenType::IDENTIFIER => text_of("IDENTIFIER"),
        TokenType::STRING => text_of("STRING"),
        TokenType::NUMBER => text_of("NUMBER"),
        TokenType::AND => text_of("AND"),
        TokenType::CLASS => text_of("CLASS"),
        TokenType::ELSE => text_of("ELSE"),
        TokenType::FALSE => text_of("FALSE"),
        TokenType::FUN => text_of("FUN"),
        TokenType::FOR => text_of("FOR"),
        TokenType::IF => text_of("IF"),
        TokenType::NIL => text_of("NIL"),
        TokenType::OR => text_of("OR"),
        TokenType::PRINT => text_of("PRINT"),
        TokenType::RETURN => text_of("RETURN"),
        TokenType::SUPER => text_of("SUPER"),
        TokenType::THIS => text_of("THIS"),
        TokenType::TRUE => text_of("TRUE"),
        TokenType::VAR => text_of("VAR"),
        TokenType::WHILE => text_of("WHILE"),
        TokenType::EOF => text_of("EOF"),
    }
}

fn same_text(s: &String, lit: &str) -> (r: bool)
    ensures
        r == (s@ == lit@),
{
    *s == text_of(lit)
}

/// The keyword kind of a word, if it is a reserved word.
pub fn keyword_type(word: &String) -> (r: Option<TokenType>)
    ensures
        r == keyword_spec(word@),
{
    if same_text(word, "and") {
        Some(TokenType::AND)
    } else if same_text(word, "class") {
        Some(TokenType::CLASS)
    } else if same_text(word, "else") {
        Some(TokenType::ELSE)
    } else if same_text(word, "false") {
        Some(TokenType::FALSE)
    } else if same_text(word, "for") {
        Some(TokenType::FOR)
    } else if same_text(word, "fun") {
        Some(TokenType::FUN)
    } else if same_text(word, "if") {
        Some(TokenType::IF)
    } else if same_text(word, "nil") {
        Some(TokenType::NIL)
    } else if same_text(word, "or") {
        Some(TokenType::OR)
    } else if same_text(word, "print") {
        Some(TokenType::PRINT)
    } else if same_text(word, "return") {
        Some(TokenType::RETURN)
    } else if same_text(word, "super") {
        Some(TokenType::SUPER)
    } else if same_text(word, "this") {
        Some(TokenType::THIS)
    } else if same_text(word, "true") {
        Some(TokenType::TRUE)
    } else if same_text(word, "var") {
        Some(TokenType::VAR)
    } else if same_text(word, "while") {
        Some(TokenType::WHILE)
    } else {
        None
    }
}
/// The value of a literal token.
#[derive(Debug)]
pub enum Literal {
    Str(String),
    Num(Number),
    Bool(bool),
    Nil,
}

/// A literal as plain values: strings as characters, numbers as bits.
pub enum LiteralView {
    Str(Seq<char>),
    Num(u64),
    Bool(bool),
    Nil,
}

impl View for Literal {
    type V = LiteralView;

    open spec fn view(&self) -> LiteralView {
        match self {
            Literal::Str(s) => LiteralView::Str(s@),
            Literal::Num(n) => LiteralView::Num(n.bits),
            Literal::Bool(b) => LiteralView::Bool(*b),
            Literal::Nil => LiteralView::Nil,
        }
    }
}

/// How a literal is written by the tokenizer and the printers.
pub open spec fn literal_view_text(l: LiteralView) -> Seq<char> {
    match l {
        LiteralView::Str(s) => s,
        LiteralView::Num(bits) => literal_text(bits),
        LiteralView::Bool(b) => if b { "true"@ } else { "false"@ },
        LiteralView::Nil => "nil"@,
    }
}

impl Clone for Literal {
    fn clone(&self) -> (r: Literal)
        ensures
            r == *self,
    {
        match self {
            Literal::Str(s) => Literal::Str(s.clone()),
            Literal::Num(n) => Literal::Num(*n),
            Literal::Bool(b) => Literal::Bool(*b),
            Literal::Nil => Literal::Nil,
        }
    }
}

impl Literal {
    /// How the literal is written by the tokenizer and the printers.
    pub fn to_text(&self) -> (s: String)
        ensures
            s@ == literal_view_text(self@),
    {
        match self {
            Literal::Str(s) => s.clone(),
            Literal::Num(n) => n.to_literal_text(),
            Literal::Bool(b) => if *b { text_of("true") } else { text_of("false") },
            Literal::Nil => text_of("nil"),
        }
    }
}

/// A token: its kind, its text in the source, its literal value and its line.
#[derive(Debug)]
pub struct Token {
    pub token_type: TokenType,
    pub lexeme: String,
    pub literal: Option<Literal>,
    pub line: usize,
}

/// A token as plain values.
pub struct TokenView {
    pub token_type: TokenType,
    pub lexeme: Seq<char>,
    pub literal: Option<LiteralView>,
    pub line: nat,
}

impl View for Token {
    type V = TokenView;

    open spec fn view(&self) -> TokenView {
        TokenView {
            token_type: self.token_type,
            lexeme: self.lexeme@,
            literal: match self.literal {
                Some(l) => Some(l@),
                None => None,
            },
            line: self.line as nat,
        }
    }
}

/// How the tokenizer prints a token: kind, lexeme and literal (or `null`).
pub open spec fn token_text(t: TokenView) -> Seq<char> {
    token_type_name(t.token_type) + " "@ + t.lexeme + " "@ + match t.literal {
        Some(l) => literal_view_text(l),
        None => "null"@,
    }
}

impl Clone for Token {
    fn clone(&self) -> (r: Token)
        ensures
            r == *self,
    {
        Token {
            token_type: self.token_type,
            lexeme: self.lexeme.clone(),
            literal: match &self.literal {
                Some(l) => Some(l.clone()),
                None => None,
            },
            line: self.line,
        }
    }
}

impl Token {
    /// A token of the given parts.
    pub fn new(token_type: TokenType, lexeme: String, literal: Option<Literal>, line: usize) -> (r: Token)
        ensures
            r.token_type == token_type,
            r.lexeme == lexeme,
            r.literal == literal,
            r.line == line,
    {
        Token { token_type, lexeme, literal, line }
    }

    /// How the tokenizer prints the token.
    pub fn to_text(&self) -> (s: String)
        ensures
            s@ == token_text(self@),
    {
        let mut s = token_type_name_text(self.token_type);
        s.append(" ");
        s.append(self.lexeme.as_str());
        s.append(" ");
        let lit = match &self.literal {
            Some(l) => l.to_text(),
            None => text_of("null"),
        };
        s.append(lit.as_str());
        s
    }
}

} // verus!

verus! {

/// The kinds of the tokens of Lox's reserved words.
pub open spec fn is_keyword_kind(tt: TokenType) -> bool {
    match tt {
        TokenType::AND
        | TokenType::CLASS
        | TokenType::ELSE
        | TokenType::FALSE
        | TokenType::FOR
        | TokenType::FUN
        | TokenType::IF
        | TokenType::NIL
        | TokenType::OR
        | TokenType::PRINT
        | TokenType::RETURN
        | TokenType::SUPER
        | TokenType::THIS
        | TokenType::TRUE
        | TokenType::VAR
        | TokenType::WHILE => true,
        _ => false,
    }
}

/// `c` in lower case, for ASCII letters.
pub open spec fn lower_char(c: char) -> char {
    if 'A' <= c && c <= 'Z' {
        ((c as u32) + 32) as char
    } else {
        c
    }
}

/// `s` in lower case, for ASCII letters.
pub open spec fn lower_text(s: Seq<char>) -> Seq<char> {
    s.map_values(|c: char| lower_char(c))
}

proof fn lemma_keyword_name(tt: TokenType)
    requires
        is_keyword_kind(tt),
    ensures
        keyword_spec(lower_text(token_type_name(tt))) == Some(tt),
{
    reveal_strlit("and");
    reveal_strlit("class");
    reveal_strlit("else");
    reveal_strlit("false");
    reveal_strlit("for");
    reveal_strlit("fun");
    reveal_strlit("if");
    reveal_strlit("nil");
    reveal_strlit("or");
    reveal_strlit("print");
    reveal_strlit("return");
    reveal_strlit("super");
    reveal_strlit("this");
    reveal_strlit("true");
    reveal_strlit("var");
    reveal_strlit("while");
    match tt {
        TokenType::AND => {
            reveal_strlit("AND");
            reveal_strlit("and");
            assert(lower_char('A') == 'a');
            assert(lower_text("AND"@).len() == 3);
            assert(lower_text("AND"@)[0] == 'a');
            assert(lower_text("AND"@) =~= "and"@);
            assert(token_type_name(tt) == "AND"@);
            assert(keyword_spec("and"@) == Some(TokenType::AND));
            assert(keyword_spec("and"@) == Some(TokenType::AND));
        },
        TokenType::CLASS => {
            reveal_strlit("CLASS");
            reveal_strlit("class");
            assert(lower_text("CLASS"@) =~= "class"@);
            assert(token_type_name(tt) == "CLASS"@);
            assert("class"@.len() != "and"@.len());
            assert(keyword_spec("class"@) == Some(TokenType::CLASS));
        },
        TokenType::ELSE => {
            reveal_strlit("ELSE");
            reveal_strlit("else");
            assert(lower_text("ELSE"@) =~= "else"@);
            assert(token_type_name(tt) == "ELSE"@);
            assert("else"@.len() != "and"@.len());
            assert("else"@.len() != "class"@.len());
            assert(keyword_spec("else"@) == Some(TokenType::ELSE));
        },
        TokenType::FALSE => {
            reveal_strlit("FALSE");
            reveal_strlit("false");
            assert(lower_text("FALSE"@) =~= "false"@);
            assert(token_type_name(tt) == "FALSE"@);
            assert("false"@.len() != "and"@.len());
            assert("false"@[0] != "class"@[0]);
            assert("false"@.len() != "else"@.len());
            assert(keyword_spec("false"@) == Some(TokenType::FALSE));
        },
        TokenType::FOR => {
            reveal_strlit("FOR");
            reveal_strlit("for");
            assert(lower_text("FOR"@) =~= "for"@);
            assert(token_type_name(tt) == "FOR"@);
            assert("for"@[0] != "and"@[0]);
            assert("for"@.len() != "class"@.len());
            assert("for"@.len() != "else"@.len());
            assert("for"@.len() != "false"@.len());
            assert(keyword_spec("for"@) == Some(TokenType::FOR));
        },
        TokenType::FUN => {
            reveal_strlit("FUN");
            reveal_strlit("fun");
            assert(lower_text("FUN"@) =~= "fun"@);
            assert(token_type_name(tt) == "FUN"@);
            assert("fun"@[0] != "and"@[0]);
            assert("fun"@.len() != "class"@.len());
            assert("fun"@.len() != "else"@.len());
            assert("fun"@.len() != "false"@.len());
            assert("fun"@[1] != "for"@[1]);
            assert(keyword_spec("fun"@) == Some(TokenType::FUN));
        },
        TokenType::IF => {
            reveal_strlit("IF");
            reveal_strlit("if");
            assert(lower_text("IF"@) =~= "if"@);
            assert(token_type_name(tt) == "IF"@);
            assert("if"@.len() != "and"@.len());
            assert("if"@.len() != "class"@.len());
            assert("if"@.len() != "else"@.len());
            assert("if"@.len() != "false"@.len());
            assert("if"@.len() != "for"@.len());
            assert("if"@.len() != "fun"@.len());
            assert(keyword_spec("if"@) == Some(TokenType::IF));
        },
        TokenType::NIL => {
            reveal_strlit("NIL");
            reveal_strlit("nil");
            assert(lower_text("NIL"@) =~= "nil"@);
            assert(token_type_name(tt) == "NIL"@);
            assert("nil"@[0] != "and"@[0]);
            assert("nil"@.len() != "class"@.len());
            assert("nil"@.len() != "else"@.len());
            assert("nil"@.len() != "false"@.len());
            assert("nil"@[0] != "for"@[0]);
            assert("nil"@[0] != "fun"@[0]);
            assert("nil"@.len() != "if"@.len());
            assert(keyword_spec("nil"@) == Some(TokenType::NIL));
        },
        TokenType::OR => {
            reveal_strlit("OR");
            reveal_strlit("or");
            assert(lower_text("OR"@) =~= "or"@);
            assert(token_type_name(tt) == "OR"@);
            assert("or"@.len() != "and"@.len());
            assert("or"@.len() != "class"@.len());
            assert("or"@.len() != "else"@.len());
            assert("or"@.len() != "false"@.len());
            assert("or"@.len() != "for"@.len());
            assert("or"@.len() != "fun"@.len());
            assert("or"@[0] != "if"@[0]);
            assert("or"@.len() != "nil"@.len());
            assert(keyword_spec("or"@) == Some(TokenType::OR));
        },
        TokenType::PRINT => {
            reveal_strlit("PRINT");
            reveal_strlit("print");
            assert(lower_text("PRINT"@) =~= "print"@);
            assert(token_type_name(tt) == "PRINT"@);
            assert("print"@.len() != "and"@.len());
            assert("print"@[0] != "class"@[0]);
            assert("print"@.len() != "else"@.len());
            assert("print"@[0] != "false"@[0]);
            assert("print"@.len() != "for"@.len());
            assert("print"@.len() != "fun"@.len());
            assert("print"@.len() != "if"@.len());
            assert("print"@.len() != "nil"@.len());
            assert("print"@.len() != "or"@.len());
            assert(keyword_spec("print"@) == Some(TokenType::PRINT));
        },
        TokenType::RETURN => {
            reveal_strlit("RETURN");
            reveal_strlit("return");
            assert(lower_text("RETURN"@) =~= "return"@);
            assert(token_type_name(tt) == "RETURN"@);
            assert("return"@.len() != "and"@.len());
            assert("return"@.len() != "class"@.len());
            assert("return"@.len() != "else"@.len());
            assert("return"@.len() != "false"@.len());
            assert("return"@.len() != "for"@.len());
            assert("return"@.len() != "fun"@.len());
            assert("return"@.len() != "if"@.len());
            assert("return"@.len() != "nil"@.len());
            assert("return"@.len() != "or"@.len());
            assert("return"@.len() != "print"@.len());
            assert(keyword_spec("return"@) == Some(TokenType::RETURN));
        },
        TokenType::SUPER => {
            reveal_strlit("SUPER");
            reveal_strlit("super");
            assert(lower_text("SUPER"@) =~= "super"@);
            assert(token_type_name(tt) == "SUPER"@);
            assert("super"@.len() != "and"@.len());
            assert("super"@[0] != "class"@[0]);
            assert("super"@.len() != "else"@.len());
            assert("super"@[0] != "false"@[0]);
            assert("super"@.len() != "for"@.len());
            assert("super"@.len() != "fun"@.len());
            assert("super"@.len() != "if"@.len());
            assert("super"@.len() != "nil"@.len());
            assert("super"@.len() != "or"@.len());
            assert("super"@[0] != "print"@[0]);
            assert("super"@.len() != "return"@.len());
            assert(keyword_spec("super"@) == Some(TokenType::SUPER));
        },
        TokenType::THIS => {
            reveal_strlit("THIS");
            reveal_strlit("this");
            assert(lower_text("THIS"@) =~= "this"@);
            assert(token_type_name(tt) == "THIS"@);
            assert("this"@.len() != "and"@.len());
            assert("this"@.len() != "class"@.len());
            assert("this"@[0] != "else"@[0]);
            assert("this"@.len() != "false"@.len());
            assert("this"@.len() != "for"@.len());
            assert("this"@.len() != "fun"@.len());
            assert("this"@.len() != "if"@.len());
            assert("this"@.len() != "nil"@.len());
            assert("this"@.len() != "or"@.len());
            assert("this"@.len() != "print"@.len());
            assert("this"@.len() != "return"@.len());
            assert("this"@.len() != "super"@.len());
            assert(keyword_spec("this"@) == Some(TokenType::THIS));
        },
        TokenType::TRUE => {
            reveal_strlit("TRUE");
            reveal_strlit("true");
            assert(lower_text("TRUE"@) =~= "true"@);
            assert(token_type_name(tt) == "TRUE"@);
            assert("true"@.len() != "and"@.len());
            assert("true"@.len() != "class"@.len());
            assert("true"@[0] != "else"@[0]);
            assert("true"@.len() != "false"@.len());
            assert("true"@.len() != "for"@.len());
            assert("true"@.len() != "fun"@.len());
            assert("true"@.len() != "if"@.len());
            assert("true"@.len() != "nil"@.len());
            assert("true"@.len() != "or"@.len());
            assert("true"@.len() != "print"@.len());
            assert("true"@.len() != "return"@.len());
            assert("true"@.len() != "super"@.len());
            assert("true"@[1] != "this"@[1]);
            assert(keyword_spec("true"@) == Some(TokenType::TRUE));
        },
        TokenType::VAR => {
            reveal_strlit("VAR");
            reveal_strlit("var");
            assert(lower_text("VAR"@) =~= "var"@);
            assert(token_type_name(tt) == "VAR"@);
            assert("var"@[0] != "and"@[0]);
            assert("var"@.len() != "class"@.len());
            assert("var"@.len() != "else"@.len());
            assert("var"@.len() != "false"@.len());
            assert("var"@[0] != "for"@[0]);
            assert("var"@[0] != "fun"@[0]);
            assert("var"@.len() != "if"@.len());
            assert("var"@[0] != "nil"@[0]);
            assert("var"@.len() != "or"@.len());
            assert("var"@.len() != "print"@.len());
            assert("var"@.len() != "return"@.len());
            assert("var"@.len() != "super"@.len());
            assert("var"@.len() != "this"@.len());
            assert("var"@.len() != "true"@.len());
            assert(keyword_spec("var"@) == Some(TokenType::VAR));
        },
        TokenType::WHILE => {
            reveal_strlit("WHILE");
            reveal_strlit("while");
            assert(lower_text("WHILE"@) =~= "while"@);
            assert(token_type_name(tt) == "WHILE"@);
            assert("while"@.len() != "and"@.len());
            assert("while"@[0] != "class"@[0]);
            assert("while"@.len() != "else"@.len());
            assert("while"@[0] != "false"@[0]);
            assert("while"@.len() != "for"@.len());
            assert("while"@.len() != "fun"@.len());
            assert("while"@.len() != "if"@.len());
            assert("while"@.len() != "nil"@.len());
            assert("while"@.len() != "or"@.len());
            assert("while"@[0] != "print"@[0]);
            assert("while"@.len() != "return"@.len());
            assert("while"@[0] != "super"@[0]);
            assert("while"@.len() != "this"@.len());
            assert("while"@.len() != "true"@.len());
            assert("while"@.len() != "var"@.len());
            assert(keyword_spec("while"@) == Some(TokenType::WHILE));
        },
        _ => {},
    }
}

/// Each reserved word is the name of its keyword kind in lower case, and
/// reads as that kind, never as an identifier; and a word reads as a keyword
/// only if it is such a name.
pub proof fn law_reserved_words_are_keywords(tt: TokenType, w: Seq<char>)
    ensures
        is_keyword_kind(tt) ==> keyword_spec(lower_text(token_type_name(tt))) == Some(tt),
        keyword_spec(w) matches Some(k) ==> is_keyword_kind(k) && w == lower_text(token_type_name(k)),
{
    if is_keyword_kind(tt) {
        lemma_keyword_name(tt);
    }
    if w == "and"@ {
        lemma_keyword_name(TokenType::AND);
    }
    if w == "class"@ {
        lemma_keyword_name(TokenType::CLASS);
    }
    if w == "else"@ {
        lemma_keyword_name(TokenType::ELSE);
    }
    if w == "false"@ {
        lemma_keyword_name(TokenType::FALSE);
    }
    if w == "for"@ {
        lemma_keyword_name(TokenType::FOR);
    }
    if w == "fun"@ {
        lemma_keyword_name(TokenType::FUN);
    }
    if w == "if"@ {
        lemma_keyword_name(TokenType::IF);
    }
    if w == "nil"@ {
        lemma_keyword_name(TokenType::NIL);
    }
    if w == "or"@ {
        lemma_keyword_name(TokenType::OR);
    }
    if w == "print"@ {
        lemma_keyword_name(TokenType::PRINT);
    }
    if w == "return"@ {
        lemma_keyword_name(TokenType::RETURN);
    }
    if w == "super"@ {
        lemma_keyword_name(TokenType::SUPER);
    }
    if w == "this"@ {
        lemma_keyword_name(TokenType::THIS);
    }
    if w == "true"@ {
        lemma_keyword_name(TokenType::TRUE);
    }
    if w == "var"@ {
        lemma_keyword_name(TokenType::VAR);
    }
    if w == "while"@ {
        lemma_keyword_name(TokenType::WHILE);
    }
}

} // verus!
