//! The lexer: characters to tokens, with line and column tracking.
use vstd::prelude::*;
use crate::token::{Token, TokenView, keyword, keyword_token};
use crate::error::CompileError;
use crate::text::{chars_of, push_char, nat_text, digit_char};

verus! {

/// Whitespace: space, tab, carriage return, newline.
pub open spec fn is_space(c: char) -> bool {
    c == ' ' || c == '\t' || c == '\r' || c == '\n'
}

/// A decimal digit.
pub open spec fn is_digit(c: char) -> bool {
    '0' <= c <= '9'
}

/// A character that can start an identifier.
pub open spec fn is_ident_start(c: char) -> bool {
    ('a' <= c <= 'z') || ('A' <= c <= 'Z') || c == '_'
}

/// A character that can continue an identifier.
pub open spec fn is_ident_char(c: char) -> bool {
    is_ident_start(c) || is_digit(c)
}

/// The first index at or after `p` that is not whitespace.
pub open spec fn skip_spaces(s: Seq<char>, p: int) -> int
    decreases s.len() - p,
    when 0 <= p <= s.len()
{
    if p < s.len() && is_space(s[p]) {
        skip_spaces(s, p + 1)
    } else {
        p
    }
}

/// The end of the identifier characters starting at `p`.
pub open spec fn ident_end(s: Seq<char>, p: int) -> int
    decreases s.len() - p,
    when 0 <= p <= s.len()
{
    if p < s.len() && is_ident_char(s[p]) {
        ident_end(s, p + 1)
    } else {
        p
    }
}

/// The end of the digits starting at `p`.
pub open spec fn digits_end(s: Seq<char>, p: int) -> int
    decreases s.len() - p,
    when 0 <= p <= s.len()
{
    if p < s.len() && is_digit(s[p]) {
        digits_end(s, p + 1)
    } else {
        p
    }
}

/// The value of a digit character.
pub open spec fn digit_value(c: char) -> int {
    (c as u32) as int - ('0' as u32) as int
}

/// The value of a string of decimal digits.
pub open spec fn digits_value(d: Seq<char>) -> int
    decreases d.len(),
{
    if d.len() == 0 {
        0
    } else {
        digits_value(d.drop_last()) * 10 + digit_value(d.last())
    }
}

/// What an escape sequence `\c` in a string literal stands for.
pub open spec fn unescape(c: char) -> Seq<char> {
    if c == 'n' {
        seq!['\n']
    } else if c == 'r' {
        seq!['\r']
    } else if c == 't' {
        seq!['\t']
    } else if c == '\\' {
        seq!['\\']
    } else if c == '"' {
        seq!['"']
    } else {
        seq!['\\', c]
    }
}

/// The decoded text of a string literal whose contents start at `p`, and
/// the index of its closing quote (`s.len()` when it has none).
pub open spec fn string_scan(s: Seq<char>, p: int) -> (Seq<char>, int)
    decreases s.len() - p,
    when 0 <= p <= s.len()
{
    if p >= s.len() {
        (seq![], s.len() as int)
    } else if s[p] == '"' {
        (seq![], p)
    } else if s[p] == '\\' && p + 1 < s.len() {
        let r = string_scan(s, p + 2);
        (unescape(s[p + 1]) + r.0, r.1)
    } else {
        let r = string_scan(s, p + 1);
        (seq![s[p]] + r.0, r.1)
    }
}

/// A lexical error: message and hint.
pub type LexFault = (Seq<char>, Seq<char>);

/// The token starting at `p` (past any whitespace), and where it ends. An
/// error is located at `p`.
pub open spec fn scan(s: Seq<char>, p: int) -> (Result<TokenView, LexFault>, int) {
    if p >= s.len() {
        (Ok(TokenView::EOF), p)
    } else {
        let c = s[p];
        let next_is_eq = p + 1 < s.len() && s[p + 1] == '=';
        if c == '(' {
            (Ok(TokenView::LParen), p + 1)
        } else if c == ')' {
            (Ok(TokenView::RParen), p + 1)
        } else if c == '{' {
            (Ok(TokenView::LBrace), p + 1)
        } else if c == '}' {
            (Ok(TokenView::RBrace), p + 1)
        } else if c == ',' {
            (Ok(TokenView::Comma), p + 1)
        } else if c == ':' {
            (Ok(TokenView::Colon), p + 1)
        } else if c == ';' {
            (Ok(TokenView::Semicolon), p + 1)
        } else if c == '.' {
            (Ok(TokenView::Dot), p + 1)
        } else if c == '+' {
            (Ok(TokenView::Plus), p + 1)
        } else if c == '-' {
            (Ok(TokenView::Minus), p + 1)
        } else if c == '*' {
            (Ok(TokenView::Star), p + 1)
        } else if c == '/' {
            (Ok(TokenView::Slash), p + 1)
        } else if c == '%' {
            (Ok(TokenView::Percent), p + 1)
        } else if c == '=' {
            if next_is_eq {
                (Ok(TokenView::EqualEqual), p + 2)
            } else {
                (Ok(TokenView::Assign), p + 1)
            }
        } else if c == '!' {
            if next_is_eq {
                (Ok(TokenView::NotEqual), p + 2)
            } else {
                (Err(("Unexpected '!'"@, "use '!=' to compare for inequality"@)), p + 1)
            }
        } else if c == '<' {
            if next_is_eq {
                (Ok(TokenView::LessEqual), p + 2)
            } else {
                (Ok(TokenView::Less), p + 1)
            }
        } else if c == '>' {
            if next_is_eq {
                (Ok(TokenView::GreaterEqual), p + 2)
            } else {
                (Ok(TokenView::Greater), p + 1)
            }
        } else if c == '"' {
            let r = string_scan(s, p + 1);
            if r.1 < s.len() {
                (Ok(TokenView::String(r.0)), r.1 + 1)
            } else {
                (Err(("Unterminated string"@, "add a closing '\"'"@)), s.len() as int)
            }
        } else if is_digit(c) {
            let q = digits_end(s, p);
            if q + 1 < s.len() && s[q] == '.' && is_digit(s[q + 1]) {
                let r = digits_end(s, q + 1);
                (Ok(TokenView::Float(s.subrange(p, r))), r)
            } else if digits_value(s.subrange(p, q)) <= i64::MAX {
                (Ok(TokenView::Number(digits_value(s.subrange(p, q)) as i64)), q)
            } else {
                (Err(("Integer literal too large"@, "integers must fit in 64 bits"@)), q)
            }
        } else if is_ident_start(c) {
            let q = ident_end(s, p);
            match keyword(s.subrange(p, q)) {
                Some(k) => (Ok(k), q),
                None => (Ok(TokenView::Identifier(s.subrange(p, q))), q),
            }
        } else {
            (Err(("Unknown character '"@ + seq![c] + "'"@, "unexpected character"@)), p + 1)
        }
    }
}

/// `e` carries the message and hint of `f`, located at `line`, `column`.
pub open spec fn reports(e: CompileError, f: LexFault, line: usize, column: usize) -> bool {
    &&& e.message@ == f.0
    &&& (e.help matches Some(h) && h@ == f.1)
    &&& e.line == line
    &&& e.column == column
}

/// The line of index `p`, counting from 1.
pub open spec fn line_at(s: Seq<char>, p: int) -> int
    decreases p,
{
    if p <= 0 {
        1
    } else if s[p - 1] == '\n' {
        line_at(s, p - 1) + 1
    } else {
        line_at(s, p - 1)
    }
}

/// The column of index `p`, counting from 1.
pub open spec fn column_at(s: Seq<char>, p: int) -> int
    decreases p,
{
    if p <= 0 {
        1
    } else if s[p - 1] == '\n' {
        1
    } else {
        column_at(s, p - 1) + 1
    }
}

proof fn lemma_line_col_bound(s: Seq<char>, p: int)
    requires
        0 <= p,
    ensures
        1 <= line_at(s, p) <= p + 1,
        1 <= column_at(s, p) <= p + 1,
    decreases p,
{
    if p > 0 {
        lemma_line_col_bound(s, p - 1);
    }
}

/// A cursor over source text.
pub struct Lexer {
    input: Vec<char>,
    position: usize,
    line: usize,
    column: usize,
    token_line: usize,
    token_column: usize,
}

impl Lexer {
    /// The source text.
    pub closed spec fn text(&self) -> Seq<char> {
        self.input@
    }

    /// The cursor.
    pub closed spec fn pos(&self) -> int {
        self.position as int
    }

    /// Line of the first character of the last token.
    pub closed spec fn start_line(&self) -> int {
        self.token_line as int
    }

    /// Column of the first character of the last token.
    pub closed spec fn start_column(&self) -> int {
        self.token_column as int
    }

    /// Line of the cursor.
    pub closed spec fn cursor_line(&self) -> int {
        self.line as int
    }

    /// Column of the cursor.
    pub closed spec fn cursor_column(&self) -> int {
        self.column as int
    }

    /// The cursor is inside the text, and line and column match it.
    pub closed spec fn wf(&self) -> bool {
        &&& self.position <= self.input@.len()
        &&& self.input@.len() <= isize::MAX
        &&& self.line == line_at(self.input@, self.position as int)
        &&& self.column == column_at(self.input@, self.position as int)
    }

    /// The cursor stays within the text.
    pub proof fn lemma_bounds(&self)
        requires
            self.wf(),
        ensures
            0 <= self.pos() <= self.text().len(),
    {
    }

    /// Line of the cursor, from 1: one more than the newlines before it.
    pub fn line(&self) -> (r: usize)
        ensures
            r == self.cursor_line(),
            self.wf() ==> r == line_at(self.text(), self.pos()),
    {
        self.line
    }

    /// Column of the cursor, from 1: one more than the characters since the
    /// last newline.
    pub fn column(&self) -> (r: usize)
        ensures
            r == self.cursor_column(),
            self.wf() ==> r == column_at(self.text(), self.pos()),
    {
        self.column
    }

    /// Line of the first character of the last token.
    pub fn token_line(&self) -> (r: usize)
        ensures
            r == self.start_line(),
    {
        self.token_line
    }

    /// Column of the first character of the last token.
    pub fn token_column(&self) -> (r: usize)
        ensures
            r == self.start_column(),
    {
        self.token_column
    }

    /// A lexer at the start of `input`.
    pub fn new(input: &str) -> (r: Self)
        ensures
            r.wf(),
            r.text() == input@,
            r.pos() == 0,
            r.cursor_line() == 1,
            r.cursor_column() == 1,
    {
        Lexer { input: chars_of(input), position: 0, line: 1, column: 1, token_line: 1, token_column: 1 }
    }

    fn advance(&mut self)
        requires
            old(self).wf(),
        ensures
            final(self).wf(),
            final(self).input == old(self).input,
            final(self).pos() == if old(self).pos() < old(self).text().len() {
                old(self).pos() + 1
            } else {
                old(self).pos()
            },
            final(self).token_line == old(self).token_line,
            final(self).token_column == old(self).token_column,
    {
        if self.position < self.input.len() {
            proof {
                lemma_line_col_bound(self.input@, self.position as int);
            }
            if self.input[self.position] == '\n' {
                self.line = self.line + 1;
                self.column = 1;
            } else {
                self.column = self.column + 1;
            }
            self.position = self.position + 1;
        }
    }

    fn skip_whitespace(&mut self)
        requires
            old(self).wf(),
        ensures
            final(self).wf(),
            final(self).input == old(self).input,
            final(self).pos() == skip_spaces(old(self).text(), old(self).pos()),
            final(self).token_line == old(self).token_line,
            final(self).token_column == old(self).token_column,
    {
        while self.position < self.input.len() && (self.input[self.position] == ' '
            || self.input[self.position] == '\t' || self.input[self.position] == '\r'
            || self.input[self.position] == '\n')
            invariant
                self.wf(),
                self.input == old(self).input,
                skip_spaces(self.input@, self.position as int) == skip_spaces(old(self).text(), old(self).pos()),
                self.token_line == old(self).token_line,
                self.token_column == old(self).token_column,
            decreases self.input@.len() - self.position,
        {
            self.advance();
        }
    }

    fn simple(&mut self, tok: Token) -> (r: Token)
        requires
            old(self).wf(),
            old(self).pos() < old(self).text().len(),
        ensures
            final(self).wf(),
            final(self).input == old(self).input,
            final(self).pos() == old(self).pos() + 1,
            r == tok,
            final(self).token_line == old(self).token_line,
            final(self).token_column == old(self).token_column,
    {
        self.advance();
        tok
    }

    /// `=`, or `==` when another `=` follows; the same for `!`, `<`, `>`.
    fn peek_two_char_op(&mut self, pair: Token, single: Option<Token>) -> (r: Result<Token, CompileError>)
        requires
            old(self).wf(),
            old(self).pos() < old(self).text().len(),
        ensures
            final(self).wf(),
            final(self).input == old(self).input,
            final(self).token_line == old(self).token_line,
            final(self).token_column == old(self).token_column,
            ({
                let s = old(self).text();
                let p = old(self).pos();
                if p + 1 < s.len() && s[p + 1] == '=' {
                    final(self).pos() == p + 2 && r == Ok::<Token, CompileError>(pair)
                } else {
                    final(self).pos() == p + 1 && match single {
                        Some(t) => r == Ok::<Token, CompileError>(t),
                        None => r matches Err(e) && reports(
                            e,
                            ("Unexpected '!'"@, "use '!=' to compare for inequality"@),
                            final(self).token_line,
                            final(self).token_column,
                        ),
                    }
                }
            }),
    {
        if self.position + 1 < self.input.len() && self.input[self.position + 1] == '=' {
            self.advance();
            self.advance();
            Ok(pair)
        } else {
            self.advance();
            match single {
                Some(t) => Ok(t),
                None => Err(
                    CompileError::new("Unexpected '!'", self.token_line, self.token_column).help(
                        "use '!=' to compare for inequality",
                    ),
                ),
            }
        }
    }

    fn read_identifier(&mut self) -> (r: Token)
        requires
            old(self).wf(),
            old(self).pos() < old(self).text().len(),
            is_ident_start(old(self).text()[old(self).pos()]),
        ensures
            final(self).wf(),
            final(self).input == old(self).input,
            final(self).token_line == old(self).token_line,
            final(self).token_column == old(self).token_column,
            final(self).pos() == ident_end(old(self).text(), old(self).pos()),
            r@ == match keyword(old(self).text().subrange(old(self).pos(), final(self).pos())) {
                Some(k) => k,
                None => TokenView::Identifier(old(self).text().subrange(old(self).pos(), final(self).pos())),
            },
    {
        let start = self.position;
        let mut text = String::new();
        while self.position < self.input.len() && (('a' <= self.input[self.position]
            && self.input[self.position] <= 'z') || ('A' <= self.input[self.position]
            && self.input[self.position] <= 'Z') || ('0' <= self.input[self.position]
            && self.input[self.position] <= '9') || self.input[self.position] == '_')
            invariant
                self.wf(),
                self.input == old(self).input,
                start <= self.position,
                start == old(self).pos(),
                text@ == self.input@.subrange(start as int, self.position as int),
                ident_end(self.input@, self.position as int) == ident_end(self.input@, start as int),
                self.token_line == old(self).token_line,
                self.token_column == old(self).token_column,
            decreases self.input@.len() - self.position,
        {
            push_char(&mut text, self.input[self.position]);
            self.advance();
            assert(text@ =~= self.input@.subrange(start as int, self.position as int));
        }
        match keyword_token(&text) {
            Some(k) => k,
            None => Token::Identifier(text),
        }
    }

    fn read_number(&mut self) -> (r: Result<Token, CompileError>)
        requires
            old(self).wf(),
            old(self).pos() < old(self).text().len(),
            is_digit(old(self).text()[old(self).pos()]),
        ensures
            final(self).wf(),
            final(self).input == old(self).input,
            final(self).token_line == old(self).token_line,
            final(self).token_column == old(self).token_column,
            ({
                let (res, end) = scan(old(self).text(), old(self).pos());
                &&& final(self).pos() == end
                &&& match res {
                    Ok(t) => r matches Ok(x) && x@ == t,
                    Err(f) => r matches Err(e) && reports(e, f, final(self).token_line, final(self).token_column),
                }
            }),
    {
        let start = self.position;
        let mut text = String::new();
        let mut value: i64 = 0;
        let mut fits = true;
        while self.position < self.input.len() && '0' <= self.input[self.position]
            && self.input[self.position] <= '9'
            invariant
                self.wf(),
                self.input == old(self).input,
                start <= self.position,
                start == old(self).pos(),
                text@ == self.input@.subrange(start as int, self.position as int),
                digits_end(self.input@, self.position as int) == digits_end(self.input@, start as int),
                fits ==> value == digits_value(text@),
                !fits ==> digits_value(text@) > i64::MAX,
                digits_value(text@) >= 0,
                self.token_line == old(self).token_line,
                self.token_column == old(self).token_column,
            decreases self.input@.len() - self.position,
        {
            let c = self.input[self.position];
            let d = (c as u32 - '0' as u32) as i64;
            let ghost before = text@;
            push_char(&mut text, c);
            assert(text@.drop_last() =~= before);
            if fits {
                if value <= (i64::MAX - d) / 10 {
                    value = value * 10 + d;
                } else {
                    fits = false;
                }
            }
            self.advance();
            assert(text@ =~= self.input@.subrange(start as int, self.position as int));
        }
        let q = self.position;
        if q + 1 < self.input.len() && self.input[q] == '.' && '0' <= self.input[q + 1]
            && self.input[q + 1] <= '9' {
            push_char(&mut text, '.');
            self.advance();
            while self.position < self.input.len() && '0' <= self.input[self.position]
                && self.input[self.position] <= '9'
                invariant
                    self.wf(),
                    self.input == old(self).input,
                    start < self.position,
                    start == old(self).pos(),
                    text@ == self.input@.subrange(start as int, self.position as int),
                    self.position > q,
                    digits_end(self.input@, self.position as int) == digits_end(self.input@, q + 1),
                    self.token_line == old(self).token_line,
                    self.token_column == old(self).token_column,
                decreases self.input@.len() - self.position,
            {
                push_char(&mut text, self.input[self.position]);
                self.advance();
                assert(text@ =~= self.input@.subrange(start as int, self.position as int));
            }
            Ok(Token::Float(text))
        } else if fits {
            Ok(Token::Number(value))
        } else {
            Err(CompileError::new("Integer literal too large", self.token_line, self.token_column).help(
                "integers must fit in 64 bits",
            ))
        }
    }

    fn read_string(&mut self) -> (r: Result<Token, CompileError>)
        requires
            old(self).wf(),
            old(self).pos() < old(self).text().len(),
            old(self).text()[old(self).pos()] == '"',
        ensures
            final(self).wf(),
            final(self).input == old(self).input,
            final(self).token_line == old(self).token_line,
            final(self).token_column == old(self).token_column,
            ({
                let (res, end) = scan(old(self).text(), old(self).pos());
                &&& final(self).pos() == end
                &&& match res {
                    Ok(t) => r matches Ok(x) && x@ == t,
                    Err(f) => r matches Err(e) && reports(e, f, final(self).token_line, final(self).token_column),
                }
            }),
    {
        self.advance();
        let start = self.position;
        let mut result = String::new();
        while self.position < self.input.len() && self.input[self.position] != '"'
            invariant
                self.wf(),
                self.input == old(self).input,
                start == old(self).pos() + 1,
                start <= self.position,
                result@ + string_scan(self.input@, self.position as int).0 == string_scan(self.input@, start as int).0,
                string_scan(self.input@, self.position as int).1 == string_scan(self.input@, start as int).1,
                self.token_line == old(self).token_line,
                self.token_column == old(self).token_column,
            decreases self.input@.len() - self.position,
        {
            let ghost p = self.position as int;
            let ghost s = self.input@;
            if self.input[self.position] == '\\' && self.position + 1 < self.input.len() {
                self.advance();
                let c = self.input[self.position];
                if c == 'n' {
                    push_char(&mut result, '\n');
                } else if c == 'r' {
                    push_char(&mut result, '\r');
                } else if c == 't' {
                    push_char(&mut result, '\t');
                } else if c == '\\' {
                    push_char(&mut result, '\\');
                } else if c == '"' {
                    push_char(&mut result, '"');
                } else {
                    push_char(&mut result, '\\');
                    push_char(&mut result, c);
                }
                self.advance();
                proof {
                    let r = string_scan(s, p + 2);
                    assert(string_scan(s, p) == (unescape(s[p + 1]) + r.0, r.1));
                    assert(result@ + r.0 =~= (result@.subrange(0, result@.len() - unescape(s[p + 1]).len() as int)) + (unescape(s[p + 1]) + r.0));
                }
            } else {
                push_char(&mut result, self.input[self.position]);
                self.advance();
                proof {
                    let r = string_scan(s, p + 1);
                    assert(string_scan(s, p) == (seq![s[p]] + r.0, r.1));
                    assert(result@ + r.0 =~= result@.drop_last() + (seq![s[p]] + r.0));
                }
            }
        }
        if self.position < self.input.len() {
            self.advance();
            assert(result@ =~= string_scan(self.input@, start as int).0);
            Ok(Token::String(result))
        } else {
            Err(CompileError::new("Unterminated string", self.token_line, self.token_column).help(
                "add a closing '\"'",
            ))
        }
    }

    /// Produces the next token and moves past it. Whitespace is skipped
    /// first; at the end of the text the token is `EOF`. The token's first
    /// character is recorded in `token_line` and `token_column`, where an
    /// error is located too.
    pub fn next_token(&mut self) -> (r: Result<Token, CompileError>)
        requires
            old(self).wf(),
        ensures
            final(self).wf(),
            final(self).text() == old(self).text(),
            ({
                let s = old(self).text();
                let p = skip_spaces(s, old(self).pos());
                let (res, end) = scan(s, p);
                &&& final(self).pos() == end
                &&& final(self).start_line() == line_at(s, p)
                &&& final(self).start_column() == column_at(s, p)
                &&& match res {
                    Ok(t) => r matches Ok(x) && x@ == t,
                    Err(f) => r matches Err(e) && reports(
                        e,
                        f,
                        final(self).start_line() as usize,
                        final(self).start_column() as usize,
                    ),
                }
            }),
            0 <= final(self).start_line() <= usize::MAX,
            0 <= final(self).start_column() <= usize::MAX,
    {
        self.skip_whitespace();
        self.token_line = self.line;
        self.token_column = self.column;
        if self.position >= self.input.len() {
            return Ok(Token::EOF);
        }
        let ch = self.input[self.position];
        if ch == '(' {
            Ok(self.simple(Token::LParen))
        } else if ch == ')' {
            Ok(self.simple(Token::RParen))
        } else if ch == '{' {
            Ok(self.simple(Token::LBrace))
        } else if ch == '}' {
            Ok(self.simple(Token::RBrace))
        } else if ch == ',' {
            Ok(self.simple(Token::Comma))
        } else if ch == ':' {
            Ok(self.simple(Token::Colon))
        } else if ch == ';' {
            Ok(self.simple(Token::Semicolon))
        } else if ch == '.' {
            Ok(self.simple(Token::Dot))
        } else if ch == '+' {
            Ok(self.simple(Token::Plus))
        } else if ch == '-' {
            Ok(self.simple(Token::Minus))
        } else if ch == '*' {
            Ok(self.simple(Token::Star))
        } else if ch == '/' {
            Ok(self.simple(Token::Slash))
        } else if ch == '%' {
            Ok(self.simple(Token::Percent))
        } else if ch == '=' {
            self.peek_two_char_op(Token::EqualEqual, Some(Token::Assign))
        } else if ch == '!' {
            self.peek_two_char_op(Token::NotEqual, None)
        } else if ch == '<' {
            self.peek_two_char_op(Token::LessEqual, Some(Token::Less))
        } else if ch == '>' {
            self.peek_two_char_op(Token::GreaterEqual, Some(Token::Greater))
        } else if ch == '"' {
            self.read_string()
        } else if '0' <= ch && ch <= '9' {
            self.read_number()
        } else if ('a' <= ch && ch <= 'z') || ('A' <= ch && ch <= 'Z') || ch == '_' {
            Ok(self.read_identifier())
        } else {
            self.advance();
            let mut msg = String::from_str("Unknown character '");
            push_char(&mut msg, ch);
            push_char(&mut msg, '\'');
            proof {
                reveal_strlit("'");
                assert(msg@ =~= "Unknown character '"@ + seq![ch] + "'"@);
            }
            Err(CompileError::new(msg.as_str(), self.token_line, self.token_column).help("unexpected character"))
        }
    }
}

/// Scanning a token at a non-final index consumes at least one character,
/// and never runs past the text.
pub proof fn lemma_scan_progress(s: Seq<char>, p: int)
    requires
        0 <= p <= s.len(),
    ensures
        p <= scan(s, p).1 <= s.len(),
        p < s.len() ==> scan(s, p).1 > p,
{
    if p < s.len() {
        let c = s[p];
        if c == '"' {
            lemma_string_scan_end(s, p + 1);
        } else if is_digit(c) {
            lemma_digits_end(s, p);
            let q = digits_end(s, p);
            if q + 1 < s.len() && s[q] == '.' && is_digit(s[q + 1]) {
                lemma_digits_end(s, q + 1);
            }
        } else if is_ident_start(c) {
            lemma_ident_end(s, p);
        }
    }
}

proof fn lemma_string_scan_end(s: Seq<char>, p: int)
    requires
        0 <= p <= s.len(),
    ensures
        p <= string_scan(s, p).1 <= s.len(),
    decreases s.len() - p,
{
    if p < s.len() && s[p] != '"' {
        if s[p] == '\\' && p + 1 < s.len() {
            lemma_string_scan_end(s, p + 2);
        } else {
            lemma_string_scan_end(s, p + 1);
        }
    }
}

proof fn lemma_digits_end(s: Seq<char>, p: int)
    requires
        0 <= p <= s.len(),
    ensures
        p <= digits_end(s, p) <= s.len(),
        p < s.len() && is_digit(s[p]) ==> digits_end(s, p) > p,
    decreases s.len() - p,
{
    if p < s.len() && is_digit(s[p]) {
        lemma_digits_end(s, p + 1);
    }
}

proof fn lemma_ident_end(s: Seq<char>, p: int)
    requires
        0 <= p <= s.len(),
    ensures
        p <= ident_end(s, p) <= s.len(),
        p < s.len() && is_ident_char(s[p]) ==> ident_end(s, p) > p,
    decreases s.len() - p,
{
    if p < s.len() && is_ident_char(s[p]) {
        lemma_ident_end(s, p + 1);
    }
}

/// Skipping whitespace never moves backwards or past the text.
pub proof fn lemma_skip_spaces(s: Seq<char>, p: int)
    requires
        0 <= p <= s.len(),
    ensures
        p <= skip_spaces(s, p) <= s.len(),
    decreases s.len() - p,
{
    if p < s.len() && is_space(s[p]) {
        lemma_skip_spaces(s, p + 1);
    }
}

/// How a string literal writes one character: quote and backslash get a
/// backslash, anything else stands as it is.
pub open spec fn quote_char(c: char) -> Seq<char> {
    if c == '"' || c == '\\' {
        seq!['\\', c]
    } else {
        seq![c]
    }
}

/// How a string literal writes its contents.
pub open spec fn quote_text(x: Seq<char>) -> Seq<char>
    decreases x.len(),
{
    if x.len() == 0 {
        seq![]
    } else {
        quote_char(x[0]) + quote_text(x.subrange(1, x.len() as int))
    }
}

/// The canonical text of a token.
pub open spec fn token_text(t: TokenView) -> Seq<char> {
    match t {
        TokenView::Fn => "fn"@,
        TokenView::Let => "let"@,
        TokenView::Return => "return"@,
        TokenView::If => "if"@,
        TokenView::Else => "else"@,
        TokenView::While => "while"@,
        TokenView::Panic => "panic"@,
        TokenView::Import => "import"@,
        TokenView::Export => "export"@,
        TokenView::True => "true"@,
        TokenView::False => "false"@,
        TokenView::LParen => "("@,
        TokenView::RParen => ")"@,
        TokenView::LBrace => "{"@,
        TokenView::RBrace => "}"@,
        TokenView::Comma => ","@,
        TokenView::Colon => ":"@,
        TokenView::Semicolon => ";"@,
        TokenView::Dot => "."@,
        TokenView::Plus => "+"@,
        TokenView::Minus => "-"@,
        TokenView::Star => "*"@,
        TokenView::Slash => "/"@,
        TokenView::Percent => "%"@,
        TokenView::Assign => "="@,
        TokenView::EqualEqual => "=="@,
        TokenView::NotEqual => "!="@,
        TokenView::Less => "<"@,
        TokenView::LessEqual => "<="@,
        TokenView::Greater => ">"@,
        TokenView::GreaterEqual => ">="@,
        TokenView::Identifier(x) => x,
        TokenView::Number(n) => nat_text(n as nat),
        TokenView::Float(x) => x,
        TokenView::String(x) => seq!['"'] + quote_text(x) + seq!['"'],
        TokenView::EOF => seq![],
    }
}

/// Digits, a dot, digits: the text of a float literal.
pub open spec fn float_lexeme(x: Seq<char>) -> bool {
    exists|d: int|
        0 < d < x.len() - 1 && x[d] == '.' && forall|i: int|
            0 <= i < x.len() && i != d ==> #[trigger] is_digit(x[i])
}

/// A token that the lexer can produce and that its canonical text spells
/// back: any keyword or operator, an identifier that is not a keyword, a
/// non-negative integer, a float literal, and any string.
pub open spec fn printable(t: TokenView) -> bool {
    match t {
        TokenView::Identifier(x) => x.len() > 0 && is_ident_start(x[0]) && (forall|i: int|
            0 <= i < x.len() ==> #[trigger] is_ident_char(x[i])) && keyword(x) is None,
        TokenView::Number(n) => n >= 0,
        TokenView::Float(x) => float_lexeme(x),
        TokenView::EOF => false,
        _ => true,
    }
}

/// The canonical text of a token stream: each token followed by a space.
pub open spec fn stream_text(ts: Seq<TokenView>) -> Seq<char>
    decreases ts.len(),
{
    if ts.len() == 0 {
        seq![]
    } else {
        token_text(ts[0]) + seq![' '] + stream_text(ts.subrange(1, ts.len() as int))
    }
}

/// Lexing `s` from `p` gives the tokens `ts`, then the end.
pub open spec fn lexes_to(s: Seq<char>, p: int, ts: Seq<TokenView>) -> bool
    decreases ts.len(),
{
    let q = skip_spaces(s, p);
    if ts.len() == 0 {
        scan(s, q).0 == Ok::<TokenView, LexFault>(TokenView::EOF)
    } else {
        scan(s, q).0 == Ok::<TokenView, LexFault>(ts[0]) && lexes_to(s, scan(s, q).1, ts.subrange(1, ts.len() as int))
    }
}

/// `text` stands in `s` at `p`, followed by a space or by the end.
pub open spec fn spelled_at(s: Seq<char>, p: int, text: Seq<char>) -> bool {
    &&& 0 <= p
    &&& p + text.len() <= s.len()
    &&& s.subrange(p, p + text.len()) == text
    &&& (p + text.len() == s.len() || s[p + text.len()] == ' ')
}

proof fn lemma_ident_end_exact(s: Seq<char>, p: int, k: int)
    requires
        0 <= p,
        0 <= k,
        p + k <= s.len(),
        forall|i: int| p <= i < p + k ==> #[trigger] is_ident_char(s[i]),
        p + k == s.len() || !is_ident_char(s[p + k]),
    ensures
        ident_end(s, p) == p + k,
    decreases k,
{
    if k > 0 {
        lemma_ident_end_exact(s, p + 1, k - 1);
    }
}

proof fn lemma_digits_end_exact(s: Seq<char>, p: int, k: int)
    requires
        0 <= p,
        0 <= k,
        p + k <= s.len(),
        forall|i: int| p <= i < p + k ==> #[trigger] is_digit(s[i]),
        p + k == s.len() || !is_digit(s[p + k]),
    ensures
        digits_end(s, p) == p + k,
    decreases k,
{
    if k > 0 {
        lemma_digits_end_exact(s, p + 1, k - 1);
    }
}

proof fn lemma_nat_text(n: nat)
    ensures
        nat_text(n).len() > 0,
        forall|i: int| 0 <= i < nat_text(n).len() ==> #[trigger] is_digit(nat_text(n)[i]),
        digits_value(nat_text(n)) == n,
    decreases n,
{
    if n >= 10 {
        lemma_nat_text(n / 10);
        let t = nat_text(n / 10);
        let d = (n % 10) as nat;
        assert(nat_text(n) == t.push(digit_char(d)));
        assert(nat_text(n).drop_last() =~= t);
        assert(digit_value(digit_char(d)) == d);
        assert(forall|i: int| 0 <= i < nat_text(n).len() ==> #[trigger] is_digit(nat_text(n)[i])) by {
            assert forall|i: int| 0 <= i < nat_text(n).len() implies #[trigger] is_digit(nat_text(n)[i]) by {
                if i < t.len() {
                    assert(nat_text(n)[i] == t[i]);
                }
            }
        }
        vstd::arithmetic::div_mod::lemma_fundamental_div_mod(n as int, 10);
        assert(nat_text(n).last() == digit_char(d));
        assert(digits_value(nat_text(n)) == digits_value(t) * 10 + digit_value(digit_char(d)));
        assert(digits_value(t) * 10 + d == n) by (nonlinear_arith)
            requires
                digits_value(t) == n / 10,
                d == n % 10,
                n as int == 10 * (n as int / 10) + n as int % 10,
        ;
    } else {
        assert(digit_value(digit_char(n)) == n);
        assert(seq![digit_char(n)].drop_last() =~= Seq::<char>::empty());
        assert(digits_value(Seq::<char>::empty()) == 0);
        assert(digits_value(seq![digit_char(n)]) == digits_value(Seq::<char>::empty()) * 10 + digit_value(
            digit_char(n),
        ));
    }
}

proof fn lemma_quote_scan(s: Seq<char>, p: int, x: Seq<char>)
    requires
        0 <= p,
        p + quote_text(x).len() < s.len(),
        s.subrange(p, p + quote_text(x).len()) == quote_text(x),
        s[p + quote_text(x).len()] == '"',
    ensures
        string_scan(s, p) == (x, p + quote_text(x).len()),
    decreases x.len(),
{
    if x.len() == 0 {
    } else {
        let c = x[0];
        let rest = x.subrange(1, x.len() as int);
        let qc = quote_char(c);
        assert(quote_text(x) == qc + quote_text(rest));
        assert(s[p] == quote_text(x)[0]);
        let q = p + qc.len();
        assert(s.subrange(q, q + quote_text(rest).len()) =~= quote_text(rest)) by {
            assert forall|i: int| 0 <= i < quote_text(rest).len() implies s.subrange(q, q + quote_text(rest).len())[i] == quote_text(rest)[i] by {
                assert(s[q + i] == s.subrange(p, p + quote_text(x).len())[qc.len() + i]);
                assert(quote_text(x)[qc.len() + i] == quote_text(rest)[i]);
            }
        }
        lemma_quote_scan(s, q, rest);
        if c == '"' || c == '\\' {
            assert(s[p] == '\\');
            assert(s[p + 1] == quote_text(x)[1]);
            assert(unescape(c) =~= seq![c]);
            assert(seq![c] + rest =~= x);
        } else {
            assert(seq![s[p]] + rest =~= x);
        }
    }
}

/// Scanning a printable token's canonical text gives the token back, and
/// ends right after the text.
pub proof fn lemma_scan_token_text(s: Seq<char>, p: int, t: TokenView)
    requires
        printable(t),
        spelled_at(s, p, token_text(t)),
    ensures
        scan(s, p) == (Ok::<TokenView, LexFault>(t), p + token_text(t).len()),
{
    reveal_strlit("fn");
    reveal_strlit("let");
    reveal_strlit("return");
    reveal_strlit("if");
    reveal_strlit("else");
    reveal_strlit("while");
    reveal_strlit("panic");
    reveal_strlit("import");
    reveal_strlit("export");
    reveal_strlit("true");
    reveal_strlit("false");
    reveal_strlit("(");
    reveal_strlit(")");
    reveal_strlit("{");
    reveal_strlit("}");
    reveal_strlit(",");
    reveal_strlit(":");
    reveal_strlit(";");
    reveal_strlit(".");
    reveal_strlit("+");
    reveal_strlit("-");
    reveal_strlit("*");
    reveal_strlit("/");
    reveal_strlit("%");
    reveal_strlit("=");
    reveal_strlit("==");
    reveal_strlit("!=");
    reveal_strlit("<");
    reveal_strlit("<=");
    reveal_strlit(">");
    reveal_strlit(">=");
    let text = token_text(t);
    let e = p + text.len();
    assert(forall|i: int| 0 <= i < text.len() ==> s[p + i] == #[trigger] text[i]) by {
        assert forall|i: int| 0 <= i < text.len() implies s[p + i] == #[trigger] text[i] by {
            assert(s.subrange(p, e)[i] == s[p + i]);
        }
    }
    match t {
        TokenView::Identifier(x) => {
            assert(s[p] == x[0]);
            assert forall|i: int| p <= i < e implies #[trigger] is_ident_char(s[i]) by {
                assert(s[i] == x[i - p]);
            }
            lemma_ident_end_exact(s, p, text.len() as int);
        },
        TokenView::Number(n) => {
            lemma_nat_text(n as nat);
            assert(s[p] == text[0]);
            assert forall|i: int| p <= i < e implies #[trigger] is_digit(s[i]) by {
                assert(s[i] == text[i - p]);
            }
            lemma_digits_end_exact(s, p, text.len() as int);
        },
        TokenView::Float(x) => {
            let d = choose|d: int|
                0 < d < x.len() - 1 && x[d] == '.' && forall|i: int|
                    0 <= i < x.len() && i != d ==> #[trigger] is_digit(x[i]);
            assert(s[p] == x[0]);
            assert(is_digit(x[0]));
            assert forall|i: int| p <= i < p + d implies #[trigger] is_digit(s[i]) by {
                assert(s[i] == x[i - p]);
            }
            assert(s[p + d] == x[d]);
            lemma_digits_end_exact(s, p, d);
            assert(s[p + d + 1] == x[d + 1]);
            assert(is_digit(x[d + 1]));
            assert forall|i: int| p + d + 1 <= i < e implies #[trigger] is_digit(s[i]) by {
                assert(s[i] == x[i - p]);
            }
            lemma_digits_end_exact(s, p + d + 1, x.len() - d - 1);
        },
        TokenView::String(x) => {
            let qt = quote_text(x);
            assert(text[0] == '"');
            assert(s[p] == '"');
            assert(s.subrange(p + 1, p + 1 + qt.len()) =~= qt) by {
                assert forall|i: int| 0 <= i < qt.len() implies s.subrange(p + 1, p + 1 + qt.len())[i] == qt[i] by {
                    assert(s[p + 1 + i] == text[1 + i]);
                }
            }
            assert(s[p + 1 + qt.len()] == text[1 + qt.len() as int]);
            lemma_quote_scan(s, p + 1, x);
        },
        _ => {
            if text.len() == 1 {
                assert(s[p] == text[0]);
            } else if text.len() == 2 {
                assert(s[p] == text[0]);
                assert(s[p + 1] == text[1]);
            }
            if is_ident_start(text[0]) {
                assert(s[p] == text[0]);
                assert forall|i: int| p <= i < e implies #[trigger] is_ident_char(s[i]) by {
                    assert(s[i] == text[i - p]);
                }
                lemma_ident_end_exact(s, p, text.len() as int);
                assert(s.subrange(p, e) == text);
            }
        },
    }
}

proof fn lemma_lexes_skip(s: Seq<char>, p: int, ts: Seq<TokenView>)
    requires
        0 <= p < s.len(),
        s[p] == ' ',
    ensures
        lexes_to(s, p, ts) == lexes_to(s, p + 1, ts),
{
    assert(skip_spaces(s, p) == skip_spaces(s, p + 1));
}

proof fn lemma_stream(pre: Seq<char>, ts: Seq<TokenView>)
    requires
        forall|k: int| 0 <= k < ts.len() ==> printable(#[trigger] ts[k]),
    ensures
        lexes_to(pre + stream_text(ts), pre.len() as int, ts),
    decreases ts.len(),
{
    let s = pre + stream_text(ts);
    let p = pre.len() as int;
    if ts.len() == 0 {
        assert(s =~= pre);
        assert(skip_spaces(s, p) == p);
    } else {
        let t = ts[0];
        let rest = ts.subrange(1, ts.len() as int);
        let text = token_text(t);
        assert(printable(t));
        assert(s =~= pre + text + seq![' '] + stream_text(rest));
        assert(s.subrange(p, p + text.len()) =~= text);
        assert(s[p + text.len()] == ' ');
        lemma_scan_token_text(s, p, t);
        assert(text.len() > 0) by {
            match t {
                TokenView::Number(n) => {
                    lemma_nat_text(n as nat);
                },
                _ => {
                    reveal_strlit("fn"); reveal_strlit("let"); reveal_strlit("return"); reveal_strlit("if");
                    reveal_strlit("else"); reveal_strlit("while"); reveal_strlit("panic"); reveal_strlit("import");
                    reveal_strlit("export"); reveal_strlit("true"); reveal_strlit("false");
    reveal_strlit("fn");
    reveal_strlit("let");
    reveal_strlit("return");
    reveal_strlit("if");
    reveal_strlit("else");
    reveal_strlit("while");
    reveal_strlit("panic");
    reveal_strlit("import");
    reveal_strlit("export");
    reveal_strlit("true");
    reveal_strlit("false");
    reveal_strlit("(");
    reveal_strlit(")");
    reveal_strlit("{");
    reveal_strlit("}");
    reveal_strlit(",");
    reveal_strlit(":");
    reveal_strlit(";");
    reveal_strlit(".");
    reveal_strlit("+");
    reveal_strlit("-");
    reveal_strlit("*");
    reveal_strlit("/");
    reveal_strlit("%");
    reveal_strlit("=");
    reveal_strlit("==");
    reveal_strlit("!=");
    reveal_strlit("<");
    reveal_strlit("<=");
    reveal_strlit(">");
    reveal_strlit(">=");
                },
            }
        }
        assert(!is_space(s[p])) by {
            assert(s[p] == text[0]);
            match t {
                TokenView::Number(n) => {
                    lemma_nat_text(n as nat);
                },
                TokenView::Float(x) => {
                    let d = choose|d: int|
                        0 < d < x.len() - 1 && x[d] == '.' && forall|i: int|
                            0 <= i < x.len() && i != d ==> #[trigger] is_digit(x[i]);
                    assert(is_digit(x[0]));
                },
                _ => {
    reveal_strlit("fn");
    reveal_strlit("let");
    reveal_strlit("return");
    reveal_strlit("if");
    reveal_strlit("else");
    reveal_strlit("while");
    reveal_strlit("panic");
    reveal_strlit("import");
    reveal_strlit("export");
    reveal_strlit("true");
    reveal_strlit("false");
    reveal_strlit("(");
    reveal_strlit(")");
    reveal_strlit("{");
    reveal_strlit("}");
    reveal_strlit(",");
    reveal_strlit(":");
    reveal_strlit(";");
    reveal_strlit(".");
    reveal_strlit("+");
    reveal_strlit("-");
    reveal_strlit("*");
    reveal_strlit("/");
    reveal_strlit("%");
    reveal_strlit("=");
    reveal_strlit("==");
    reveal_strlit("!=");
    reveal_strlit("<");
    reveal_strlit("<=");
    reveal_strlit(">");
    reveal_strlit(">=");
                },
            }
        }
        assert(skip_spaces(s, p) == p);
        assert(forall|k: int| 0 <= k < rest.len() ==> printable(#[trigger] rest[k])) by {
            assert forall|k: int| 0 <= k < rest.len() implies printable(#[trigger] rest[k]) by {
                assert(rest[k] == ts[k + 1]);
            }
        }
        let pre2 = pre + text + seq![' '];
        lemma_stream(pre2, rest);
        assert(pre2 + stream_text(rest) =~= s);
        lemma_lexes_skip(s, p + text.len(), rest);
    }
}

/// Lexing the canonical text of a stream of printable tokens, each followed
/// by a space, gives the same tokens back, then the end.
pub proof fn relex_printed_tokens(ts: Seq<TokenView>)
    requires
        forall|k: int| 0 <= k < ts.len() ==> printable(#[trigger] ts[k]),
    ensures
        lexes_to(stream_text(ts), 0, ts),
{
    lemma_stream(Seq::<char>::empty(), ts);
    assert(Seq::<char>::empty() + stream_text(ts) =~= stream_text(ts));
}

proof fn lemma_ident_range(s: Seq<char>, p: int)
    requires
        0 <= p <= s.len(),
    ensures
        forall|i: int| p <= i < ident_end(s, p) ==> #[trigger] is_ident_char(s[i]),
    decreases s.len() - p,
{
    if p < s.len() && is_ident_char(s[p]) {
        lemma_ident_range(s, p + 1);
    }
}

proof fn lemma_digits_range(s: Seq<char>, p: int)
    requires
        0 <= p <= s.len(),
    ensures
        forall|i: int| p <= i < digits_end(s, p) ==> #[trigger] is_digit(s[i]),
        digits_end(s, p) == s.len() || !is_digit(s[digits_end(s, p)]),
    decreases s.len() - p,
{
    lemma_digits_end(s, p);
    if p < s.len() && is_digit(s[p]) {
        lemma_digits_range(s, p + 1);
    }
}

proof fn lemma_digits_value_nonneg(d: Seq<char>)
    requires
        forall|i: int| 0 <= i < d.len() ==> #[trigger] is_digit(d[i]),
    ensures
        digits_value(d) >= 0,
    decreases d.len(),
{
    if d.len() > 0 {
        assert forall|i: int| 0 <= i < d.drop_last().len() implies #[trigger] is_digit(d.drop_last()[i]) by {
            assert(d.drop_last()[i] == d[i]);
        }
        lemma_digits_value_nonneg(d.drop_last());
        assert(is_digit(d[d.len() - 1]));
    }
}

/// Every token the lexer scans can be printed back: relexing its canonical
/// text gives it again.
pub proof fn scanned_tokens_are_printable(s: Seq<char>, p: int)
    requires
        0 <= p <= s.len(),
    ensures
        scan(s, p).0 matches Ok(t) ==> (t is EOF || printable(t)),
{
    if p < s.len() {
        let c = s[p];
        if is_digit(c) {
            lemma_digits_end(s, p);
            lemma_digits_range(s, p);
            let q = digits_end(s, p);
            let x = s.subrange(p, q);
            assert forall|i: int| 0 <= i < x.len() implies #[trigger] is_digit(x[i]) by {
                assert(x[i] == s[p + i]);
            }
            lemma_digits_value_nonneg(x);
            if q + 1 < s.len() && s[q] == '.' && is_digit(s[q + 1]) {
                lemma_digits_end(s, q + 1);
                lemma_digits_range(s, q + 1);
                let r = digits_end(s, q + 1);
                let f = s.subrange(p, r);
                let d = q - p;
                assert(f[d] == '.');
                assert forall|i: int| 0 <= i < f.len() && i != d implies #[trigger] is_digit(f[i]) by {
                    assert(f[i] == s[p + i]);
                }
                assert(float_lexeme(f));
            }
        } else if is_ident_start(c) {
            lemma_ident_end(s, p);
            lemma_ident_range(s, p);
            let q = ident_end(s, p);
            let x = s.subrange(p, q);
            assert(x[0] == c);
            assert forall|i: int| 0 <= i < x.len() implies #[trigger] is_ident_char(x[i]) by {
                assert(x[i] == s[p + i]);
            }
        }
    }
}

} // verus!
