//! The lexer: turns raw source text into a lazy, one-shot sequence of
//! tokens, produced one at a time by `scan_token`.
//!
//! The whole tokenization is specified by the spec functions below
//! (`sp_scan` and its helpers), which give, for a source text and a cursor,
//! exactly the next token and the cursor after it. Every exec method is
//! proved to compute precisely that function of its input state.

use vstd::prelude::*;

verus! {

/// Lexical category of a token.
#[derive(Clone, Copy, Debug, PartialEq, Eq, Structural)]
pub enum TokenType {
    LeftParen,
    RightParen,
    LeftBrace,
    RightBrace,
    Comma,
    Dot,
    Minus,
    Plus,
    Semicolon,
    Slash,
    Star,
    Bang,
    BangEqual,
    Equal,
    EqualEqual,
    Greater,
    GreaterEqual,
    Less,
    LessEqual,
    Identifier,
    Str,
    Number,
    And,
    Class,
    Else,
    False,
    For,
    Func,
    If,
    Null,
    Or,
    Print,
    Return,
    Super,
    This,
    True,
    Var,
    While,
    Error,
    EOF,
}

/// What an `Error` token reports.
#[derive(Clone, Copy, Debug, PartialEq, Eq, Structural)]
pub enum ScanNote {
    Clean,
    UnexpectedCharacter,
    UnterminatedString,
}

/// A ghost-level token.
pub ghost struct STok {
    pub kind: TokenType,
    pub start: int,
    pub tlen: int,
    pub line: int,
    pub note: ScanNote,
}

/// One token: its category, the span of its lexeme in the source, the line
/// it ends on, and, for `Error` tokens, what went wrong.
#[derive(Clone, Copy, Debug, PartialEq, Eq, Structural)]
pub struct Token {
    pub type_of: TokenType,
    pub start: usize,
    pub length: usize,
    pub line: usize,
    pub note: ScanNote,
}

impl View for Token {
    type V = STok;

    open spec fn view(&self) -> STok {
        STok {
            kind: self.type_of,
            start: self.start as int,
            tlen: self.length as int,
            line: self.line as int,
            note: self.note,
        }
    }
}

/// Decimal digit.
pub open spec fn is_digit_c(c: char) -> bool {
    48 <= c as u32 <= 57
}

/// Letter or underscore.
pub open spec fn is_alpha_c(c: char) -> bool {
    (97 <= c as u32 <= 122) || (65 <= c as u32 <= 90) || c as u32 == 95
}

/// Letter, underscore or digit.
pub open spec fn is_alnum_c(c: char) -> bool {
    is_alpha_c(c) || is_digit_c(c)
}

/// Cursor and line after skipping whitespace and line comments from `pos`.
/// `in_comment` marks that the cursor stands inside a line comment.
pub open spec fn sp_skip_ws(s: Seq<char>, pos: int, line: int, in_comment: bool) -> (int, int)
    recommends
        0 <= pos,
    decreases s.len() - pos, (if in_comment { 1int } else { 0int }),
{
    if pos < 0 || pos >= s.len() {
        (pos, line)
    } else {
        let c = s[pos];
        if in_comment {
            if c == '\n' {
                sp_skip_ws(s, pos, line, false)
            } else {
                sp_skip_ws(s, pos + 1, line, true)
            }
        } else {
            if c == ' ' || c == '\r' || c == '\t' {
                sp_skip_ws(s, pos + 1, line, false)
            } else if c == '\n' {
                sp_skip_ws(s, pos + 1, line + 1, false)
            } else if c == '/' && pos + 1 < s.len() && s[pos + 1] == '/' {
                sp_skip_ws(s, pos + 1, line, true)
            } else {
                (pos, line)
            }
        }
    }
}

/// First index at or after `i` that does not hold a digit.
pub open spec fn sp_digits_end(s: Seq<char>, i: int) -> int
    recommends
        0 <= i,
    decreases s.len() - i,
{
    if 0 <= i < s.len() && is_digit_c(s[i]) {
        sp_digits_end(s, i + 1)
    } else {
        i
    }
}

/// First index at or after `i` that does not hold an identifier character.
pub open spec fn sp_ident_end(s: Seq<char>, i: int) -> int
    recommends
        0 <= i,
    decreases s.len() - i,
{
    if 0 <= i < s.len() && is_alnum_c(s[i]) {
        sp_ident_end(s, i + 1)
    } else {
        i
    }
}

/// End of a number lexeme whose first digit stands at `st`: the digit run
/// after it, and, when a dot with at least one digit behind it follows, the
/// fractional digit run as well.
pub open spec fn sp_number_end(s: Seq<char>, st: int) -> int
    recommends
        0 <= st < s.len(),
{
    let e1 = sp_digits_end(s, st + 1);
    if e1 < s.len() && s[e1] == '.' && e1 + 1 < s.len() && is_digit_c(s[e1 + 1]) {
        sp_digits_end(s, e1 + 1)
    } else {
        e1
    }
}

/// Cursor and line at the closing quote of a string whose contents start at
/// `q`, or at the end of input if the string never closes; newlines passed
/// over advance the line.
pub open spec fn sp_string_end(s: Seq<char>, q: int, line: int) -> (int, int)
    recommends
        0 <= q,
    decreases s.len() - q,
{
    if q < 0 || q >= s.len() {
        (q, line)
    } else if s[q] == '"' {
        (q, line)
    } else {
        sp_string_end(s, q + 1, if s[q] == '\n' {
            line + 1
        } else {
            line
        })
    }
}

/// The category of the identifier spanning `[st, e)`: one of the fixed
/// keywords, or a plain identifier.
pub open spec fn sp_ident_kind(s: Seq<char>, st: int, e: int) -> TokenType
    recommends
        0 <= st <= e <= s.len(),
{
    let l = e - st;
    if l == 3 && s[st] == 'a' && s[st + 1] == 'n' && s[st + 2] == 'd' {
        TokenType::And
    } else if l == 5 && s[st] == 'c' && s[st + 1] == 'l' && s[st + 2] == 'a' && s[st + 3] == 's'
        && s[st + 4] == 's' {
        TokenType::Class
    } else if l == 4 && s[st] == 'e' && s[st + 1] == 'l' && s[st + 2] == 's' && s[st + 3] == 'e' {
        TokenType::Else
    } else if l == 5 && s[st] == 'f' && s[st + 1] == 'a' && s[st + 2] == 'l' && s[st + 3] == 's'
        && s[st + 4] == 'e' {
        TokenType::False
    } else if l == 3 && s[st] == 'f' && s[st + 1] == 'o' && s[st + 2] == 'r' {
        TokenType::For
    } else if l == 4 && s[st] == 'f' && s[st + 1] == 'u' && s[st + 2] == 'n' && s[st + 3] == 'c' {
        TokenType::Func
    } else if l == 2 && s[st] == 'i' && s[st + 1] == 'f' {
        TokenType::If
    } else if l == 4 && s[st] == 'n' && s[st + 1] == 'u' && s[st + 2] == 'l' && s[st + 3] == 'l' {
        TokenType::Null
    } else if l == 2 && s[st] == 'o' && s[st + 1] == 'r' {
        TokenType::Or
    } else if l == 5 && s[st] == 'p' && s[st + 1] == 'r' && s[st + 2] == 'i' && s[st + 3] == 'n'
        && s[st + 4] == 't' {
        TokenType::Print
    } else if l == 6 && s[st] == 'r' && s[st + 1] == 'e' && s[st + 2] == 't' && s[st + 3] == 'u'
        && s[st + 4] == 'r' && s[st + 5] == 'n' {
        TokenType::Return
    } else if l == 5 && s[st] == 's' && s[st + 1] == 'u' && s[st + 2] == 'p' && s[st + 3] == 'e'
        && s[st + 4] == 'r' {
        TokenType::Super
    } else if l == 4 && s[st] == 't' && s[st + 1] == 'h' && s[st + 2] == 'i' && s[st + 3] == 's' {
        TokenType::This
    } else if l == 4 && s[st] == 't' && s[st + 1] == 'r' && s[st + 2] == 'u' && s[st + 3] == 'e' {
        TokenType::True
    } else if l == 3 && s[st] == 'l' && s[st + 1] == 'e' && s[st + 2] == 't' {
        TokenType::Var
    } else if l == 5 && s[st] == 'w' && s[st + 1] == 'h' && s[st + 2] == 'i' && s[st + 3] == 'l'
        && s[st + 4] == 'e' {
        TokenType::While
    } else {
        TokenType::Identifier
    }
}

/// The result of scanning one token: the token, and the cursor and line
/// after it.
pub ghost struct SpScan {
    pub tok: STok,
    pub pos: int,
    pub line: int,
}

/// A one-character token of category `kind` at `p`.
pub open spec fn sp_single(kind: TokenType, p: int, line: int) -> SpScan {
    SpScan {
        tok: STok { kind: kind, start: p, tlen: 1, line: line, note: ScanNote::Clean },
        pos: p + 1,
        line: line,
    }
}

/// A one- or two-character operator at `p`: two characters when `=` follows.
pub open spec fn sp_one_two(s: Seq<char>, one: TokenType, two: TokenType, p: int, line: int) -> SpScan {
    if p + 1 < s.len() && s[p + 1] == '=' {
        SpScan {
            tok: STok { kind: two, start: p, tlen: 2, line: line, note: ScanNote::Clean },
            pos: p + 2,
            line: line,
        }
    } else {
        sp_single(one, p, line)
    }
}

/// The next token of `s` when scanning starts at `pos` on line `line`, and
/// the cursor and line after it: whitespace and line comments first, then
/// end of input, identifiers and keywords, numbers, strings, and the
/// operator characters; a NUL yields the end-of-input token, anything else
/// an `Error` token.
pub open spec fn sp_scan(s: Seq<char>, pos: int, line: int) -> SpScan
    recommends
        0 <= pos,
{
    let pl = sp_skip_ws(s, pos, line, false);
    let p = pl.0;
    let l = pl.1;
    if p >= s.len() {
        SpScan {
            tok: STok { kind: TokenType::EOF, start: p, tlen: 0, line: l, note: ScanNote::Clean },
            pos: p,
            line: l,
        }
    } else {
        let c = s[p];
        if is_alpha_c(c) {
            let e = sp_ident_end(s, p + 1);
            SpScan {
                tok: STok {
                    kind: sp_ident_kind(s, p, e),
                    start: p,
                    tlen: e - p,
                    line: l,
                    note: ScanNote::Clean,
                },
                pos: e,
                line: l,
            }
        } else if is_digit_c(c) {
            let e = sp_number_end(s, p);
            SpScan {
                tok: STok {
                    kind: TokenType::Number,
                    start: p,
                    tlen: e - p,
                    line: l,
                    note: ScanNote::Clean,
                },
                pos: e,
                line: l,
            }
        } else if c == '(' {
            sp_single(TokenType::LeftParen, p, l)
        } else if c == ')' {
            sp_single(TokenType::RightParen, p, l)
        } else if c == '{' {
            sp_single(TokenType::LeftBrace, p, l)
        } else if c == '}' {
            sp_single(TokenType::RightBrace, p, l)
        } else if c == ';' {
            sp_single(TokenType::Semicolon, p, l)
        } else if c == ',' {
            sp_single(TokenType::Comma, p, l)
        } else if c == '.' {
            sp_single(TokenType::Dot, p, l)
        } else if c == '-' {
            sp_single(TokenType::Minus, p, l)
        } else if c == '+' {
            sp_single(TokenType::Plus, p, l)
        } else if c == '/' {
            sp_single(TokenType::Slash, p, l)
        } else if c == '*' {
            sp_single(TokenType::Star, p, l)
        } else if c == '!' {
            sp_one_two(s, TokenType::Bang, TokenType::BangEqual, p, l)
        } else if c == '=' {
            sp_one_two(s, TokenType::Equal, TokenType::EqualEqual, p, l)
        } else if c == '<' {
            sp_one_two(s, TokenType::Less, TokenType::LessEqual, p, l)
        } else if c == '>' {
            sp_one_two(s, TokenType::Greater, TokenType::GreaterEqual, p, l)
        } else if c == '"' {
            let ql = sp_string_end(s, p + 1, l);
            if ql.0 >= s.len() {
                SpScan {
                    tok: STok {
                        kind: TokenType::Error,
                        start: p,
                        tlen: ql.0 - p,
                        line: ql.1,
                        note: ScanNote::UnterminatedString,
                    },
                    pos: ql.0,
                    line: ql.1,
                }
            } else {
                SpScan {
                    tok: STok {
                        kind: TokenType::Str,
                        start: p,
                        tlen: ql.0 + 1 - p,
                        line: ql.1,
                        note: ScanNote::Clean,
                    },
                    pos: ql.0 + 1,
                    line: ql.1,
                }
            }
        } else if c == '\0' {
            SpScan {
                tok: STok { kind: TokenType::EOF, start: p, tlen: 1, line: l, note: ScanNote::Clean },
                pos: p + 1,
                line: l,
            }
        } else {
            SpScan {
                tok: STok {
                    kind: TokenType::Error,
                    start: p,
                    tlen: 1,
                    line: l,
                    note: ScanNote::UnexpectedCharacter,
                },
                pos: p + 1,
                line: l,
            }
        }
    }
}

/// The ghost-level state of a scanner.
pub ghost struct SpScanner {
    pub src: Seq<char>,
    pub start: int,
    pub pos: int,
    pub line: int,
}

/// The lexer: owns the source text and a cursor into it.
pub struct Scanner {
    source: String,
    length: usize,
    start: usize,
    current: usize,
    line: usize,
}

impl View for Scanner {
    type V = SpScanner;

    closed spec fn view(&self) -> SpScanner {
        SpScanner {
            src: self.source@,
            start: self.start as int,
            pos: self.current as int,
            line: self.line as int,
        }
    }
}

impl Scanner {
    /// Internal consistency: the cached character count matches the source.
    pub closed spec fn inv(self) -> bool {
        self.length == self.source@.len()
    }

    /// The scanner's invariant: the cursor stays inside the source, the
    /// token start never passes the cursor, and lines are counted from one.
    pub open spec fn wf(self) -> bool {
        &&& self.inv()
        &&& 0 <= self@.start <= self@.pos <= self@.src.len()
        &&& 1 <= self@.line <= self@.pos + 1
        &&& self@.src.len() < usize::MAX
    }

    /// A scanner with no source yet.
    pub fn new() -> (sc: Scanner)
        ensures
            sc.wf(),
            sc@.src == Seq::<char>::empty(),
            sc@.pos == 0,
            sc@.line == 1,
    {
        Scanner { source: String::new(), length: 0, start: 0, current: 0, line: 1 }
    }

    /// Resets the scanner to the start of a new source string; required
    /// before every (re)scan.
    pub fn init(&mut self, source: String)
        requires
            source@.len() < usize::MAX,
        ensures
            final(self).wf(),
            final(self)@.src == source@,
            final(self)@.pos == 0,
            final(self)@.start == 0,
            final(self)@.line == 1,
    {
        let n: usize = source.as_str().unicode_len();
        self.source = source;
        self.length = n;
        self.start = 0;
        self.current = 0;
        self.line = 1;
    }

    /// True when the cursor has passed the last character.
    fn is_at_end(&self) -> (b: bool)
        requires
            self.inv(),
        ensures
            b == (self@.pos >= self@.src.len()),
    {
        self.current >= self.length
    }

    /// The character at `pos`.
    fn char_at(&self, pos: usize) -> (c: char)
        requires
            self.inv(),
            pos < self@.src.len(),
        ensures
            c == self@.src[pos as int],
    {
        self.source.as_str().get_char(pos)
    }

    /// The character under the cursor, or NUL at the end.
    fn peek(&self) -> (c: char)
        requires
            self.inv(),
            self@.pos <= self@.src.len(),
        ensures
            c == if self@.pos < self@.src.len() {
                self@.src[self@.pos]
            } else {
                '\0'
            },
    {
        if self.current >= self.length {
            '\0'
        } else {
            self.char_at(self.current)
        }
    }

    /// The character after the cursor, or NUL at the end.
    fn peek_next(&self) -> (c: char)
        requires
            self.inv(),
            self@.pos <= self@.src.len(),
        ensures
            c == if self@.pos + 1 < self@.src.len() {
                self@.src[self@.pos + 1]
            } else {
                '\0'
            },
    {
        if self.current >= self.length {
            '\0'
        } else if self.current + 1 >= self.length {
            '\0'
        } else {
            self.char_at(self.current + 1)
        }
    }

    /// Consumes and returns the character under the cursor.
    fn advance(&mut self) -> (c: char)
        requires
            old(self).inv(),
            old(self)@.pos < old(self)@.src.len(),
        ensures
            final(self).inv(),
            c == old(self)@.src[old(self)@.pos],
            final(self)@ == (SpScanner { pos: old(self)@.pos + 1, ..old(self)@ }),
    {
        let c: char = self.char_at(self.current);
        self.current = self.current + 1;
        c
    }

    /// Consumes the cursor character when it equals `character`.
    fn match_type(&mut self, character: char) -> (b: bool)
        requires
            old(self).inv(),
            old(self)@.pos <= old(self)@.src.len(),
        ensures
            final(self).inv(),
            b == (old(self)@.pos < old(self)@.src.len() && old(self)@.src[old(self)@.pos]
                == character),
            final(self)@ == (SpScanner {
                pos: old(self)@.pos + if b {
                    1int
                } else {
                    0int
                },
                ..old(self)@
            }),
    {
        if self.is_at_end() {
            return false;
        }
        if self.char_at(self.current) != character {
            return false;
        }
        self.current = self.current + 1;
        true
    }

    /// Decimal digit.
    fn is_digit(character: char) -> (b: bool)
        ensures
            b == is_digit_c(character),
    {
        character >= '0' && character <= '9'
    }

    /// Letter or underscore.
    fn is_alpha(character: char) -> (b: bool)
        ensures
            b == is_alpha_c(character),
    {
        (character >= 'a' && character <= 'z') || (character >= 'A' && character <= 'Z')
            || character == '_'
    }

    /// A token of category `type_of` spanning from the token start to the
    /// cursor.
    fn make_token(&self, type_of: TokenType) -> (t: Token)
        requires
            self.wf(),
        ensures
            t@ == (STok {
                kind: type_of,
                start: self@.start,
                tlen: self@.pos - self@.start,
                line: self@.line,
                note: ScanNote::Clean,
            }),
    {
        Token {
            type_of,
            start: self.start,
            length: self.current - self.start,
            line: self.line,
            note: ScanNote::Clean,
        }
    }

    /// An `Error` token spanning from the token start to the cursor,
    /// carrying the diagnostic `note`.
    fn error_token(&self, note: ScanNote) -> (t: Token)
        requires
            self.wf(),
        ensures
            t@ == (STok {
                kind: TokenType::Error,
                start: self@.start,
                tlen: self@.pos - self@.start,
                line: self@.line,
                note: note,
            }),
    {
        Token {
            type_of: TokenType::Error,
            start: self.start,
            length: self.current - self.start,
            line: self.line,
            note,
        }
    }

    /// The source text between two character positions.
    pub fn substr(&self, start: usize, end: usize) -> (r: String)
        requires
            self.inv(),
            start <= end,
            end <= self@.src.len(),
        ensures
            r@ == self@.src.subrange(start as int, end as int),
    {
        let piece: &str = self.source.as_str().substring_char(start, end);
        piece.to_owned()
    }

    /// Skips whitespace and line comments.
    fn skip_whitespace(&mut self)
        requires
            old(self).wf(),
        ensures
            final(self).wf(),
            final(self)@.src == old(self)@.src,
            final(self)@.start == old(self)@.start,
            (final(self)@.pos, final(self)@.line) == sp_skip_ws(
                old(self)@.src,
                old(self)@.pos,
                old(self)@.line,
                false,
            ),
    {
        let ghost s = old(self)@.src;
        let ghost target = sp_skip_ws(old(self)@.src, old(self)@.pos, old(self)@.line, false);
        let mut in_comment: bool = false;
        loop
            invariant
                self.wf(),
                s == old(self)@.src,
                target == sp_skip_ws(s, old(self)@.pos, old(self)@.line, false),
                self@.src == s,
                self@.start == old(self)@.start,
                sp_skip_ws(s, self@.pos, self@.line, in_comment) == target,
            decreases s.len() - self@.pos, (if in_comment { 1int } else { 0int }),
        {
            if self.is_at_end() {
                return ;
            }
            let c: char = self.peek();
            if in_comment {
                if c == '\n' {
                    in_comment = false;
                } else {
                    let _ = self.advance();
                }
            } else {
                if c == ' ' || c == '\r' || c == '\t' {
                    let _ = self.advance();
                } else if c == '\n' {
                    self.line = self.line + 1;
                    let _ = self.advance();
                } else if c == '/' {
                    if self.peek_next() == '/' {
                        // A line comment runs to the end of the line.
                        in_comment = true;
                        let _ = self.advance();
                    } else {
                        return ;
                    }
                } else {
                    return ;
                }
            }
        }
    }

    /// Scans the rest of a string literal; the opening quote is consumed.
    fn string(&mut self) -> (t: Token)
        requires
            old(self).wf(),
            old(self)@.start + 1 == old(self)@.pos,
        ensures
            final(self).wf(),
            final(self)@.src == old(self)@.src,
            final(self)@.start == old(self)@.start,
            ({
                let ql = sp_string_end(old(self)@.src, old(self)@.pos, old(self)@.line);
                if ql.0 >= old(self)@.src.len() {
                    t@ == (STok {
                        kind: TokenType::Error,
                        start: old(self)@.start,
                        tlen: ql.0 - old(self)@.start,
                        line: ql.1,
                        note: ScanNote::UnterminatedString,
                    }) && final(self)@.pos == ql.0 && final(self)@.line == ql.1
                } else {
                    t@ == (STok {
                        kind: TokenType::Str,
                        start: old(self)@.start,
                        tlen: ql.0 + 1 - old(self)@.start,
                        line: ql.1,
                        note: ScanNote::Clean,
                    }) && final(self)@.pos == ql.0 + 1 && final(self)@.line == ql.1
                }
            }),
    {
        let ghost s = old(self)@.src;
        let ghost target = sp_string_end(old(self)@.src, old(self)@.pos, old(self)@.line);
        loop
            invariant_except_break
                self.wf(),
                s == old(self)@.src,
                target == sp_string_end(s, old(self)@.pos, old(self)@.line),
                self@.src == s,
                self@.start == old(self)@.start,
                old(self)@.start + 1 <= self@.pos,
                sp_string_end(s, self@.pos, self@.line) == target,
            ensures
                self.wf(),
                s == old(self)@.src,
                target == sp_string_end(s, old(self)@.pos, old(self)@.line),
                self@.src == s,
                self@.start == old(self)@.start,
                old(self)@.start + 1 <= self@.pos,
                self@.pos < s.len() && s[self@.pos] == '"',
                (self@.pos, self@.line) == target,
            decreases s.len() - self@.pos,
        {
            if self.is_at_end() {
                return self.error_token(ScanNote::UnterminatedString);
            }
            if self.peek() == '"' {
                break ;
            }
            if self.peek() == '\n' {
                self.line = self.line + 1;
            }
            let _ = self.advance();
        }
        let _ = self.advance();
        self.make_token(TokenType::Str)
    }

    /// Scans the rest of a number literal; its first digit is consumed.
    fn number(&mut self) -> (t: Token)
        requires
            old(self).wf(),
            old(self)@.start + 1 == old(self)@.pos,
            old(self)@.start < old(self)@.src.len(),
        ensures
            final(self).wf(),
            final(self)@.src == old(self)@.src,
            final(self)@.line == old(self)@.line,
            final(self)@.start == old(self)@.start,
            ({
                let e = sp_number_end(old(self)@.src, old(self)@.start);
                t@ == (STok {
                    kind: TokenType::Number,
                    start: old(self)@.start,
                    tlen: e - old(self)@.start,
                    line: old(self)@.line,
                    note: ScanNote::Clean,
                }) && final(self)@.pos == e
            }),
    {
        let ghost s = old(self)@.src;
        loop
            invariant_except_break
                self.wf(),
                s == old(self)@.src,
                self@.src == s,
                self@.start == old(self)@.start,
                self@.line == old(self)@.line,
                old(self)@.start + 1 <= self@.pos,
                sp_digits_end(s, self@.pos) == sp_digits_end(s, old(self)@.pos),
            ensures
                s == old(self)@.src,
                self.wf(),
                self@.src == s,
                self@.start == old(self)@.start,
                self@.line == old(self)@.line,
                old(self)@.start + 1 <= self@.pos,
                self@.pos == sp_digits_end(s, old(self)@.pos),
            decreases s.len() - self@.pos,
        {
            if !Scanner::is_digit(self.peek()) {
                break ;
            }
            let _ = self.advance();
        }
        if self.peek() == '.' && Scanner::is_digit(self.peek_next()) {
            let _ = self.advance();
            let ghost frac0 = self@.pos;
            proof {
                assert(sp_number_end(s, old(self)@.start) == sp_digits_end(s, frac0));
            }
            loop
                invariant_except_break
                    self.wf(),
                    s == old(self)@.src,
                    self@.src == s,
                    self@.start == old(self)@.start,
                    self@.line == old(self)@.line,
                    old(self)@.start + 1 <= self@.pos,
                    sp_digits_end(s, self@.pos) == sp_digits_end(s, frac0),
                    sp_digits_end(s, frac0) == sp_number_end(s, old(self)@.start),
                ensures
                    s == old(self)@.src,
                    self.wf(),
                    self@.src == s,
                    self@.start == old(self)@.start,
                    self@.line == old(self)@.line,
                    old(self)@.start + 1 <= self@.pos,
                    self@.pos == sp_number_end(s, old(self)@.start),
                decreases s.len() - self@.pos,
            {
                if !Scanner::is_digit(self.peek()) {
                    break ;
                }
                let _ = self.advance();
            }
        }
        self.make_token(TokenType::Number)
    }

    /// Scans the rest of an identifier or keyword; its first character is
    /// consumed.
    fn identifier(&mut self) -> (t: Token)
        requires
            old(self).wf(),
            old(self)@.start + 1 == old(self)@.pos,
            old(self)@.start < old(self)@.src.len(),
        ensures
            final(self).wf(),
            final(self)@.src == old(self)@.src,
            final(self)@.line == old(self)@.line,
            final(self)@.start == old(self)@.start,
            ({
                let e = sp_ident_end(old(self)@.src, old(self)@.pos);
                t@ == (STok {
                    kind: sp_ident_kind(old(self)@.src, old(self)@.start, e),
                    start: old(self)@.start,
                    tlen: e - old(self)@.start,
                    line: old(self)@.line,
                    note: ScanNote::Clean,
                }) && final(self)@.pos == e
            }),
    {
        let ghost s = old(self)@.src;
        loop
            invariant_except_break
                self.wf(),
                s == old(self)@.src,
                self@.src == s,
                self@.start == old(self)@.start,
                self@.line == old(self)@.line,
                old(self)@.start + 1 <= self@.pos,
                sp_ident_end(s, self@.pos) == sp_ident_end(s, old(self)@.pos),
            ensures
                s == old(self)@.src,
                self.wf(),
                self@.src == s,
                self@.start == old(self)@.start,
                self@.line == old(self)@.line,
                old(self)@.start + 1 <= self@.pos,
                self@.pos == sp_ident_end(s, old(self)@.pos),
            decreases s.len() - self@.pos,
        {
            let c: char = self.peek();
            if !(Scanner::is_alpha(c) || Scanner::is_digit(c)) {
                break ;
            }
            let _ = self.advance();
        }
        self.make_token(self.identifier_type())
    }

    /// Keyword lookup for the identifier between the token start and the
    /// cursor: first-character dispatch plus exact-suffix comparison.
    fn identifier_type(&self) -> (t: TokenType)
        requires
            self.wf(),
        ensures
            t == sp_ident_kind(self@.src, self@.start, self@.pos),
    {
        let st: usize = self.start;
        let l: usize = self.current - self.start;
        if l == 3 && self.char_at(st) == 'a' && self.char_at(st + 1) == 'n' && self.char_at(st + 2)
            == 'd' {
            TokenType::And
        } else if l == 5 && self.char_at(st) == 'c' && self.char_at(st + 1) == 'l' && self.char_at(
            st + 2,
        ) == 'a' && self.char_at(st + 3) == 's' && self.char_at(st + 4) == 's' {
            TokenType::Class
        } else if l == 4 && self.char_at(st) == 'e' && self.char_at(st + 1) == 'l' && self.char_at(
            st + 2,
        ) == 's' && self.char_at(st + 3) == 'e' {
            TokenType::Else
        } else if l == 5 && self.char_at(st) == 'f' && self.char_at(st + 1) == 'a' && self.char_at(
            st + 2,
        ) == 'l' && self.char_at(st + 3) == 's' && self.char_at(st + 4) == 'e' {
            TokenType::False
        } else if l == 3 && self.char_at(st) == 'f' && self.char_at(st + 1) == 'o' && self.char_at(
            st + 2,
        ) == 'r' {
            TokenType::For
        } else if l == 4 && self.char_at(st) == 'f' && self.char_at(st + 1) == 'u' && self.char_at(
            st + 2,
        ) == 'n' && self.char_at(st + 3) == 'c' {
            TokenType::Func
        } else if l == 2 && self.char_at(st) == 'i' && self.char_at(st + 1) == 'f' {
            TokenType::If
        } else if l == 4 && self.char_at(st) == 'n' && self.char_at(st + 1) == 'u' && self.char_at(
            st + 2,
        ) == 'l' && self.char_at(st + 3) == 'l' {
            TokenType::Null
        } else if l == 2 && self.char_at(st) == 'o' && self.char_at(st + 1) == 'r' {
            TokenType::Or
        } else if l == 5 && self.char_at(st) == 'p' && self.char_at(st + 1) == 'r' && self.char_at(
            st + 2,
        ) == 'i' && self.char_at(st + 3) == 'n' && self.char_at(st + 4) == 't' {
            TokenType::Print
        } else if l == 6 && self.char_at(st) == 'r' && self.char_at(st + 1) == 'e' && self.char_at(
            st + 2,
        ) == 't' && self.char_at(st + 3) == 'u' && self.char_at(st + 4) == 'r' && self.char_at(
            st + 5,
        ) == 'n' {
            TokenType::Return
        } else if l == 5 && self.char_at(st) == 's' && self.char_at(st + 1) == 'u' && self.char_at(
            st + 2,
        ) == 'p' && self.char_at(st + 3) == 'e' && self.char_at(st + 4) == 'r' {
            TokenType::Super
        } else if l == 4 && self.char_at(st) == 't' && self.char_at(st + 1) == 'h' && self.char_at(
            st + 2,
        ) == 'i' && self.char_at(st + 3) == 's' {
            TokenType::This
        } else if l == 4 && self.char_at(st) == 't' && self.char_at(st + 1) == 'r' && self.char_at(
            st + 2,
        ) == 'u' && self.char_at(st + 3) == 'e' {
            TokenType::True
        } else if l == 3 && self.char_at(st) == 'l' && self.char_at(st + 1) == 'e' && self.char_at(
            st + 2,
        ) == 't' {
            TokenType::Var
        } else if l == 5 && self.char_at(st) == 'w' && self.char_at(st + 1) == 'h' && self.char_at(
            st + 2,
        ) == 'i' && self.char_at(st + 3) == 'l' && self.char_at(st + 4) == 'e' {
            TokenType::While
        } else {
            TokenType::Identifier
        }
    }

    /// Scans and returns the next token, advancing the cursor past it.
    pub fn scan_token(&mut self) -> (t: Token)
        requires
            old(self).wf(),
        ensures
            final(self).wf(),
            final(self)@.src == old(self)@.src,
            ({
                let sc = sp_scan(old(self)@.src, old(self)@.pos, old(self)@.line);
                t@ == sc.tok && final(self)@.pos == sc.pos && final(self)@.line == sc.line
                    && final(self)@.start == sc.tok.start
            }),
    {
        self.skip_whitespace();
        self.start = self.current;
        if self.is_at_end() {
            return self.make_token(TokenType::EOF);
        }
        let c: char = self.advance();
        if Scanner::is_alpha(c) {
            return self.identifier();
        }
        if Scanner::is_digit(c) {
            return self.number();
        }
        match c {
            '(' => self.make_token(TokenType::LeftParen),
            ')' => self.make_token(TokenType::RightParen),
            '{' => self.make_token(TokenType::LeftBrace),
            '}' => self.make_token(TokenType::RightBrace),
            ';' => self.make_token(TokenType::Semicolon),
            ',' => self.make_token(TokenType::Comma),
            '.' => self.make_token(TokenType::Dot),
            '-' => self.make_token(TokenType::Minus),
            '+' => self.make_token(TokenType::Plus),
            '/' => self.make_token(TokenType::Slash),
            '*' => self.make_token(TokenType::Star),
            '!' => {
                let two: bool = self.match_type('=');
                self.make_token(
                    if two {
                        TokenType::BangEqual
                    } else {
                        TokenType::Bang
                    },
                )
            },
            '=' => {
                let two: bool = self.match_type('=');
                self.make_token(
                    if two {
                        TokenType::EqualEqual
                    } else {
                        TokenType::Equal
                    },
                )
            },
            '<' => {
                let two: bool = self.match_type('=');
                self.make_token(
                    if two {
                        TokenType::LessEqual
                    } else {
                        TokenType::Less
                    },
                )
            },
            '>' => {
                let two: bool = self.match_type('=');
                self.make_token(
                    if two {
                        TokenType::GreaterEqual
                    } else {
                        TokenType::Greater
                    },
                )
            },
            '"' => self.string(),
            '\0' => self.make_token(TokenType::EOF),
            _ => self.error_token(ScanNote::UnexpectedCharacter),
        }
    }
}

/// Skipping whitespace never moves the cursor backwards, past the end, or
/// the line count down.
pub proof fn lemma_skip_ws_range(s: Seq<char>, pos: int, line: int, in_comment: bool)
    requires
        0 <= pos <= s.len(),
    ensures
        pos <= sp_skip_ws(s, pos, line, in_comment).0 <= s.len(),
        line <= sp_skip_ws(s, pos, line, in_comment).1,
    decreases s.len() - pos, (if in_comment { 1int } else { 0int }),
{
    if pos < s.len() {
        let c = s[pos];
        if in_comment {
            if c == '\n' {
                lemma_skip_ws_range(s, pos, line, false);
            } else {
                lemma_skip_ws_range(s, pos + 1, line, true);
            }
        } else {
            if c == ' ' || c == '\r' || c == '\t' {
                lemma_skip_ws_range(s, pos + 1, line, false);
            } else if c == '\n' {
                lemma_skip_ws_range(s, pos + 1, line + 1, false);
            } else if c == '/' && pos + 1 < s.len() && s[pos + 1] == '/' {
                lemma_skip_ws_range(s, pos + 1, line, true);
            }
        }
    }
}

/// A digit run ends between its start and the end of input, and every
/// character before its end is a digit.
pub proof fn lemma_digits_end_range(s: Seq<char>, i: int)
    requires
        0 <= i <= s.len(),
    ensures
        i <= sp_digits_end(s, i) <= s.len(),
        forall|j: int| i <= j < sp_digits_end(s, i) ==> is_digit_c(#[trigger] s[j]),
        sp_digits_end(s, i) < s.len() ==> !is_digit_c(s[sp_digits_end(s, i)]),
    decreases s.len() - i,
{
    if i < s.len() && is_digit_c(s[i]) {
        lemma_digits_end_range(s, i + 1);
    }
}

/// An identifier ends between its start and the end of input.
pub proof fn lemma_ident_end_range(s: Seq<char>, i: int)
    requires
        0 <= i <= s.len(),
    ensures
        i <= sp_ident_end(s, i) <= s.len(),
    decreases s.len() - i,
{
    if i < s.len() && is_alnum_c(s[i]) {
        lemma_ident_end_range(s, i + 1);
    }
}

/// A string body ends between its start and the end of input; the line
/// count never goes down; stopping short of the end means a closing quote.
pub proof fn lemma_string_end_range(s: Seq<char>, q: int, line: int)
    requires
        0 <= q <= s.len(),
    ensures
        q <= sp_string_end(s, q, line).0 <= s.len(),
        line <= sp_string_end(s, q, line).1,
        sp_string_end(s, q, line).0 < s.len() ==> s[sp_string_end(s, q, line).0] == '"',
    decreases s.len() - q,
{
    if q < s.len() && s[q] != '"' {
        lemma_string_end_range(s, q + 1, if s[q] == '\n' {
            line + 1
        } else {
            line
        });
    }
}

/// The end of a number lexeme lies between the character after its first
/// digit and the end of input.
pub proof fn lemma_number_end_range(s: Seq<char>, st: int)
    requires
        0 <= st < s.len(),
    ensures
        st + 1 <= sp_number_end(s, st) <= s.len(),
{
    lemma_digits_end_range(s, st + 1);
    let e1 = sp_digits_end(s, st + 1);
    if e1 < s.len() && s[e1] == '.' && e1 + 1 < s.len() && is_digit_c(s[e1 + 1]) {
        lemma_digits_end_range(s, e1 + 1);
    }
}

/// Bounds and progress for one scan: the token lies within the source, the
/// cursor never moves backwards, every token but the end-of-input marker
/// consumes at least one character, and the line count never goes down.
pub proof fn lemma_scan_props(s: Seq<char>, pos: int, line: int)
    requires
        0 <= pos <= s.len(),
    ensures
        ({
            let sc = sp_scan(s, pos, line);
            &&& pos <= sc.pos <= s.len()
            &&& 0 <= sc.tok.start
            &&& sc.tok.start + sc.tok.tlen <= s.len()
            &&& 0 <= sc.tok.tlen
            &&& sc.tok.kind != TokenType::EOF ==> sc.pos >= pos + 1
            &&& line <= sc.line
        }),
{
    lemma_skip_ws_range(s, pos, line, false);
    let pl = sp_skip_ws(s, pos, line, false);
    let p = pl.0;
    let l = pl.1;
    if p < s.len() {
        let c = s[p];
        if is_alpha_c(c) {
            lemma_ident_end_range(s, p + 1);
        } else if is_digit_c(c) {
            lemma_number_end_range(s, p);
        } else if c == '"' {
            lemma_string_end_range(s, p + 1, l);
        }
    }
}

/// The shape of a number lexeme: a nonempty digit run, optionally followed
/// by a dot and another nonempty digit run.
pub open spec fn num_lexeme_shape(lex: Seq<char>) -> bool {
    let dp = sp_digits_end(lex, 0);
    &&& lex.len() >= 1
    &&& 1 <= dp
    &&& (dp == lex.len() || (dp + 2 <= lex.len() && lex[dp] == '.' && sp_digits_end(lex, dp + 1)
        == lex.len()))
}

/// A digit run ends exactly at the first non-digit.
pub proof fn lemma_digits_end_is(s: Seq<char>, i: int, k: int)
    requires
        0 <= i <= k <= s.len(),
        forall|j: int| i <= j < k ==> is_digit_c(#[trigger] s[j]),
        k == s.len() || !is_digit_c(s[k]),
    ensures
        sp_digits_end(s, i) == k,
    decreases k - i,
{
    if i < k {
        lemma_digits_end_is(s, i + 1, k);
    }
}

/// A scanned number token's lexeme has the number shape.
pub proof fn lemma_scan_number_shape(s: Seq<char>, pos: int, line: int)
    requires
        0 <= pos <= s.len(),
    ensures
        ({
            let sc = sp_scan(s, pos, line);
            sc.tok.kind == TokenType::Number ==> num_lexeme_shape(
                s.subrange(sc.tok.start, sc.tok.start + sc.tok.tlen),
            )
        }),
{
    lemma_skip_ws_range(s, pos, line, false);
    let pl = sp_skip_ws(s, pos, line, false);
    let p = pl.0;
    let sc = sp_scan(s, pos, line);
    if sc.tok.kind == TokenType::Number {
        let c = s[p];
        assert(is_digit_c(c));
        let e1 = sp_digits_end(s, p + 1);
        lemma_digits_end_range(s, p + 1);
        let e = sp_number_end(s, p);
        lemma_number_end_range(s, p);
        let lex = s.subrange(p, e);
        assert(lex.len() == e - p);
        assert(forall|j: int| 0 <= j < e - p ==> lex[j] == s[p + j]);
        if e1 < s.len() && s[e1] == '.' && e1 + 1 < s.len() && is_digit_c(s[e1 + 1]) {
            let e2 = sp_digits_end(s, e1 + 1);
            lemma_digits_end_range(s, e1 + 1);
            assert(e == e2);
            assert(!is_digit_c(s[e1]));
            assert(!is_digit_c(lex[e1 - p]));
            // digits up to the dot
            assert(forall|j: int| 0 <= j < e1 - p ==> is_digit_c(#[trigger] lex[j])) by {
                assert(forall|j: int| 0 <= j < e1 - p ==> lex[j] == s[p + j]);
            }
            assert(lex[e1 - p] == s[e1]);
            lemma_digits_end_is(lex, 0, e1 - p);
            // digits after the dot
            assert(forall|j: int| e1 - p + 1 <= j < e - p ==> is_digit_c(#[trigger] lex[j])) by {
                assert(forall|j: int| e1 - p + 1 <= j < e - p ==> lex[j] == s[p + j]);
                assert(forall|j: int| e1 + 1 <= j < e2 ==> is_digit_c(#[trigger] s[j]));
            }
            lemma_digits_end_is(lex, e1 - p + 1, e - p);
        } else {
            assert(e == e1);
            assert(forall|j: int| 0 <= j < e - p ==> is_digit_c(#[trigger] lex[j])) by {
                assert(forall|j: int| 0 <= j < e - p ==> lex[j] == s[p + j]);
            }
            lemma_digits_end_is(lex, 0, e - p);
        }
    }
}

} // verus!
