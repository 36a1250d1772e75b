//! The tree-walking front end's scanner: eagerly turns a whole source text
//! into a vector of tokens that carry their lexeme and literal text.
//!
//! This is the simpler sibling of the bytecode lexer: it scans everything
//! up front, keeps the tokens, and reports failure as a `Result` instead of
//! error tokens. Its contracts state safety and shape — the cursor stays in
//! bounds, every scan makes progress, a clean scan ends in exactly one
//! end-of-input token — rather than the full tokenization function, which
//! the bytecode lexer carries.

use vstd::prelude::*;

use crate::ast::lang::Lang;
use crate::ast::tokens::{Token, TokenType};

verus! {

/// The scanner: the source, the token vector built so far, and a cursor.
pub struct Scanner {
    source: String,
    length: usize,
    tokens: Vec<Token>,
    start: usize,
    current: usize,
    line: i32,
    lang: Lang,
}

impl Scanner {
    /// The source text.
    pub closed spec fn srcv(self) -> Seq<char> {
        self.source@
    }

    /// The tokens built so far.
    pub closed spec fn toks(self) -> Seq<Token> {
        self.tokens@
    }

    /// The cursor.
    pub closed spec fn posv(self) -> int {
        self.current as int
    }

    /// The scanner's invariant: the cached length matches the source and
    /// the cursor stays inside it.
    pub closed spec fn wf(self) -> bool {
        &&& self.length == self.source@.len()
        &&& self.start <= self.current <= self.length
        &&& self.source@.len() < usize::MAX
        &&& 1 <= self.line
        &&& self.lang.wf()
    }

    /// A scanner with no source yet.
    pub fn new() -> (sc: Scanner)
        ensures
            sc.wf(),
            sc.srcv() == Seq::<char>::empty(),
            sc.toks() == Seq::<Token>::empty(),
    {
        Scanner {
            source: String::new(),
            length: 0,
            tokens: Vec::new(),
            start: 0,
            current: 0,
            line: 1,
            lang: Lang::new(),
        }
    }

    /// A scanner over `source`.
    pub fn with_source(source: String) -> (sc: Scanner)
        requires
            source@.len() < usize::MAX,
        ensures
            sc.wf(),
            sc.srcv() == source@,
            sc.toks() == Seq::<Token>::empty(),
    {
        let n: usize = source.as_str().unicode_len();
        Scanner {
            source,
            length: n,
            tokens: Vec::new(),
            start: 0,
            current: 0,
            line: 1,
            lang: Lang::new(),
        }
    }

    /// Replaces the source and rewinds the cursor for a fresh scan.
    pub fn set_source(&mut self, source: String)
        requires
            old(self).wf(),
            source@.len() < usize::MAX,
        ensures
            final(self).wf(),
            final(self).srcv() == source@,
            final(self).toks() == old(self).toks(),
    {
        let n: usize = source.as_str().unicode_len();
        self.source = source;
        self.length = n;
        self.start = 0;
        self.current = 0;
    }

    /// True when the cursor has passed the last character.
    fn is_at_end(&self) -> (b: bool)
        requires
            self.wf(),
        ensures
            b == (self.posv() >= self.srcv().len()),
    {
        self.current >= self.length
    }

    /// The character at `pos`.
    fn char_at(&self, pos: usize) -> (c: char)
        requires
            self.wf(),
            pos < self.srcv().len(),
        ensures
            c == self.srcv()[pos as int],
    {
        self.source.as_str().get_char(pos)
    }

    /// The source text between two cursor positions.
    fn substr(&self, start: usize, end: usize) -> (r: String)
        requires
            self.wf(),
            start <= end,
            end <= self.srcv().len(),
        ensures
            r@ == self.srcv().subrange(start as int, end as int),
    {
        let piece: &str = self.source.as_str().substring_char(start, end);
        piece.to_owned()
    }

    /// Consumes and returns the character under the cursor.
    fn advance(&mut self) -> (c: char)
        requires
            old(self).wf(),
            old(self).posv() < old(self).srcv().len(),
        ensures
            final(self).wf(),
            final(self).srcv() == old(self).srcv(),
            final(self).toks() == old(self).toks(),
            final(self).posv() == old(self).posv() + 1,
            c == old(self).srcv()[old(self).posv()],
    {
        self.current = self.current + 1;
        self.char_at(self.current - 1)
    }

    /// The character under the cursor, or NUL at the end.
    fn peek(&self) -> (c: char)
        requires
            self.wf(),
        ensures
            c == if self.posv() < self.srcv().len() {
                self.srcv()[self.posv()]
            } else {
                '\0'
            },
    {
        if self.is_at_end() {
            return '\0';
        }
        self.char_at(self.current)
    }

    /// The character after the cursor, or NUL at the end.
    fn peek_next(&self) -> (c: char)
        requires
            self.wf(),
        ensures
            c == if self.posv() + 1 < self.srcv().len() {
                self.srcv()[self.posv() + 1]
            } else {
                '\0'
            },
    {
        if self.current >= self.length {
            return '\0';
        }
        if self.current + 1 >= self.length {
            return '\0';
        }
        self.char_at(self.current + 1)
    }

    /// Consumes the cursor character when it equals `expected`.
    fn match_char(&mut self, expected: char) -> (b: bool)
        requires
            old(self).wf(),
        ensures
            final(self).wf(),
            final(self).srcv() == old(self).srcv(),
            final(self).toks() == old(self).toks(),
            b == (old(self).posv() < old(self).srcv().len() && old(self).srcv()[old(self).posv()]
                == expected),
            final(self).posv() == old(self).posv() + if b {
                1int
            } else {
                0int
            },
    {
        if self.is_at_end() {
            return false;
        }
        if self.char_at(self.current) != expected {
            return false;
        }
        self.current = self.current + 1;
        true
    }

    /// Decimal digit.
    fn is_digit(character: char) -> (b: bool)
        ensures
            b == crate::bytecode::scanner::is_digit_c(character),
    {
        character >= '0' && character <= '9'
    }

    /// Letter or underscore.
    fn is_alpha(character: char) -> (b: bool)
        ensures
            b == crate::bytecode::scanner::is_alpha_c(character),
    {
        (character >= 'a' && character <= 'z') || (character >= 'A' && character <= 'Z')
            || character == '_'
    }

    /// Letter, underscore or digit.
    fn is_alphanumeric(character: char) -> (b: bool)
        ensures
            b == crate::bytecode::scanner::is_alnum_c(character),
    {
        Scanner::is_alpha(character) || Scanner::is_digit(character)
    }

    /// Pushes a token for the text between the token start and the cursor,
    /// carrying `literal`.
    fn add_token_lit(&mut self, type_of: TokenType, literal: String)
        requires
            old(self).wf(),
        ensures
            final(self).wf(),
            final(self).srcv() == old(self).srcv(),
            final(self).posv() == old(self).posv(),
            final(self).toks().len() == old(self).toks().len() + 1,
            final(self).toks().last().type_of == type_of,
    {
        let text: String = self.substr(self.start, self.current);
        let line: i32 = self.line;
        self.tokens.push(Token::new(type_of, text, literal, line));
    }

    /// Pushes a token with no literal.
    fn add_token(&mut self, type_of: TokenType)
        requires
            old(self).wf(),
        ensures
            final(self).wf(),
            final(self).srcv() == old(self).srcv(),
            final(self).posv() == old(self).posv(),
            final(self).toks().len() == old(self).toks().len() + 1,
            final(self).toks().last().type_of == type_of,
    {
        self.add_token_lit(type_of, String::new());
    }

    /// Counts one source line, saturating at the counter's top.
    fn bump_line(&mut self)
        requires
            old(self).wf(),
        ensures
            final(self).wf(),
            final(self).srcv() == old(self).srcv(),
            final(self).toks() == old(self).toks(),
            final(self).posv() == old(self).posv(),
    {
        if self.line < i32::MAX {
            self.line = self.line + 1;
        }
    }

    /// Scans the rest of a number literal; its first digit is consumed.
    /// The literal carries the lexeme text.
    fn number(&mut self)
        requires
            old(self).wf(),
        ensures
            final(self).wf(),
            final(self).srcv() == old(self).srcv(),
            old(self).posv() <= final(self).posv(),
            final(self).toks().len() == old(self).toks().len() + 1,
            final(self).toks().last().type_of == TokenType::Number,
    {
        let ghost n = self.srcv().len();
        loop
            invariant_except_break
                self.wf(),
                self.srcv() == old(self).srcv(),
                self.toks() == old(self).toks(),
                old(self).posv() <= self.posv(),
                n == self.srcv().len(),
            ensures
                self.wf(),
                self.srcv() == old(self).srcv(),
                self.toks() == old(self).toks(),
                old(self).posv() <= self.posv(),
            decreases n - self.posv(),
        {
            if !Scanner::is_digit(self.peek()) {
                break ;
            }
            let _ = self.advance();
        }
        if self.peek() == '.' && Scanner::is_digit(self.peek_next()) {
            let _ = self.advance();
            loop
                invariant_except_break
                    self.wf(),
                    self.srcv() == old(self).srcv(),
                    self.toks() == old(self).toks(),
                    old(self).posv() <= self.posv(),
                    n == self.srcv().len(),
                ensures
                    self.wf(),
                    self.srcv() == old(self).srcv(),
                    self.toks() == old(self).toks(),
                    old(self).posv() <= self.posv(),
                decreases n - self.posv(),
            {
                if !Scanner::is_digit(self.peek()) {
                    break ;
                }
                let _ = self.advance();
            }
        }
        let st: usize = self.start;
        let cur: usize = self.current;
        let lexeme: String = if st <= cur {
            self.substr(st, cur)
        } else {
            String::new()
        };
        self.add_token_lit(TokenType::Number, lexeme);
    }

    /// Scans the rest of a string literal; the opening quote is consumed.
    /// The literal carries the contents between the quotes.
    fn string(&mut self) -> (r: Result<(), String>)
        requires
            old(self).wf(),
        ensures
            final(self).wf(),
            final(self).srcv() == old(self).srcv(),
            old(self).posv() <= final(self).posv(),
            match r {
                Ok(_) => final(self).toks().len() == old(self).toks().len() + 1
                    && final(self).toks().last().type_of == TokenType::Str,
                Err(m) => m@ == "Unterminated string."@ && final(self).toks() == old(self).toks(),
            },
    {
        let ghost n = self.srcv().len();
        loop
            invariant_except_break
                self.wf(),
                self.srcv() == old(self).srcv(),
                self.toks() == old(self).toks(),
                old(self).posv() <= self.posv(),
                n == self.srcv().len(),
            ensures
                self.wf(),
                self.srcv() == old(self).srcv(),
                self.toks() == old(self).toks(),
                old(self).posv() <= self.posv(),
                self.posv() < self.srcv().len(),
                self.srcv()[self.posv()] == '"',
            decreases n - self.posv(),
        {
            if self.is_at_end() {
                return Err("Unterminated string.".to_owned());
            }
            if self.peek() == '"' {
                break ;
            }
            if self.peek() == '\n' {
                self.bump_line();
            }
            let _ = self.advance();
        }
        let _ = self.advance();
        let st: usize = self.start;
        let cur: usize = self.current;
        let contents: String = if st + 1 <= cur - 1 && cur >= 1 {
            self.substr(st + 1, cur - 1)
        } else {
            String::new()
        };
        self.add_token_lit(TokenType::Str, contents);
        Ok(())
    }

    /// Scans the rest of an identifier or keyword; its first character is
    /// consumed.
    fn identifier(&mut self)
        requires
            old(self).wf(),
        ensures
            final(self).wf(),
            final(self).srcv() == old(self).srcv(),
            old(self).posv() <= final(self).posv(),
            final(self).toks().len() == old(self).toks().len() + 1,
    {
        let ghost n = self.srcv().len();
        loop
            invariant_except_break
                self.wf(),
                self.srcv() == old(self).srcv(),
                self.toks() == old(self).toks(),
                old(self).posv() <= self.posv(),
                n == self.srcv().len(),
            ensures
                self.wf(),
                self.srcv() == old(self).srcv(),
                self.toks() == old(self).toks(),
                old(self).posv() <= self.posv(),
            decreases n - self.posv(),
        {
            if !Scanner::is_alphanumeric(self.peek()) {
                break ;
            }
            let _ = self.advance();
        }
        let st: usize = self.start;
        let cur: usize = self.current;
        let text: String = if st <= cur {
            self.substr(st, cur)
        } else {
            String::new()
        };
        let kind: Option<TokenType> = self.lang.lookup(text.as_str());
        match kind {
            Some(t) => self.add_token(t),
            None => self.add_token(TokenType::Identifier),
        }
    }

    /// Scans one token (or skips whitespace or a comment): single- and
    /// two-character operators, line comments after `//`, string and number
    /// literals, identifiers and keywords; anything else is an error.
    fn scan_token(&mut self) -> (r: Result<(), String>)
        requires
            old(self).wf(),
            old(self).posv() < old(self).srcv().len(),
        ensures
            final(self).wf(),
            final(self).srcv() == old(self).srcv(),
            old(self).posv() < final(self).posv(),
            r matches Err(m) ==> m@ == "Unexpected character."@ || m@ == "Unterminated string."@,
    {
        let current_char: char = self.advance();
        match current_char {
            '(' => {
                self.add_token(TokenType::LeftParen);
                Ok(())
            },
            ')' => {
                self.add_token(TokenType::RightParen);
                Ok(())
            },
            '{' => {
                self.add_token(TokenType::LeftBrace);
                Ok(())
            },
            '}' => {
                self.add_token(TokenType::RightBrace);
                Ok(())
            },
            ',' => {
                self.add_token(TokenType::Comma);
                Ok(())
            },
            '.' => {
                self.add_token(TokenType::Dot);
                Ok(())
            },
            '-' => {
                self.add_token(TokenType::Minus);
                Ok(())
            },
            '+' => {
                self.add_token(TokenType::Plus);
                Ok(())
            },
            ';' => {
                self.add_token(TokenType::Semicolon);
                Ok(())
            },
            '*' => {
                self.add_token(TokenType::Star);
                Ok(())
            },
            '!' => {
                let two: bool = self.match_char('=');
                self.add_token(
                    if two {
                        TokenType::BangEqual
                    } else {
                        TokenType::Bang
                    },
                );
                Ok(())
            },
            '=' => {
                let two: bool = self.match_char('=');
                self.add_token(
                    if two {
                        TokenType::EqualEqual
                    } else {
                        TokenType::Equal
                    },
                );
                Ok(())
            },
            '<' => {
                let two: bool = self.match_char('=');
                self.add_token(
                    if two {
                        TokenType::LessEqual
                    } else {
                        TokenType::Less
                    },
                );
                Ok(())
            },
            '>' => {
                let two: bool = self.match_char('=');
                self.add_token(
                    if two {
                        TokenType::GreaterEqual
                    } else {
                        TokenType::Greater
                    },
                );
                Ok(())
            },
            '/' => {
                if self.match_char('/') {
                    // A line comment runs to the end of the line.
                    let ghost n = self.srcv().len();
                    loop
                        invariant_except_break
                            self.wf(),
                            self.srcv() == old(self).srcv(),
                            old(self).posv() < self.posv(),
                            n == self.srcv().len(),
                        ensures
                            self.wf(),
                            self.srcv() == old(self).srcv(),
                            old(self).posv() < self.posv(),
                        decreases n - self.posv(),
                    {
                        if self.is_at_end() {
                            break ;
                        }
                        if self.peek() == '\n' {
                            break ;
                        }
                        let _ = self.advance();
                    }
                } else {
                    self.add_token(TokenType::Slash);
                }
                Ok(())
            },
            '"' => {
                match self.string() {
                    Ok(_) => Ok(()),
                    Err(e) => Err(e),
                }
            },
            ' ' => Ok(()),
            '\r' => Ok(()),
            '\t' => Ok(()),
            '\n' => {
                self.bump_line();
                Ok(())
            },
            _ => {
                if Scanner::is_digit(current_char) {
                    self.number();
                    Ok(())
                } else if Scanner::is_alpha(current_char) {
                    self.identifier();
                    Ok(())
                } else {
                    Err("Unexpected character.".to_owned())
                }
            },
        }
    }

    /// Scans the whole source: on success the token vector, ending in
    /// exactly one end-of-input token; on the first bad character or
    /// unterminated string, an error.
    pub fn scan_tokens(&mut self) -> (r: Result<&Vec<Token>, String>)
        requires
            old(self).wf(),
        ensures
            final(self).wf(),
            final(self).srcv() == old(self).srcv(),
            match r {
                Ok(v) => v@ == final(self).toks() && v@.len() >= 1 && v@.last().type_of
                    == TokenType::EOF,
                Err(m) => m@ == "Failed to parse tokens"@,
            },
    {
        let ghost n = self.srcv().len();
        loop
            invariant_except_break
                self.wf(),
                self.srcv() == old(self).srcv(),
                n == self.srcv().len(),
            ensures
                self.wf(),
                self.srcv() == old(self).srcv(),
                self.posv() >= self.srcv().len(),
            decreases n - self.posv(),
        {
            if self.is_at_end() {
                break ;
            }
            self.start = self.current;
            match self.scan_token() {
                Ok(_) => {},
                Err(_) => {
                    return Err("Failed to parse tokens".to_owned());
                },
            }
        }
        let line: i32 = self.line;
        self.tokens.push(Token::new(TokenType::EOF, String::new(), String::new(), line));
        Ok(&self.tokens)
    }
}

} // verus!
