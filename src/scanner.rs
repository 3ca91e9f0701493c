//! The scanner: walks the source once, left to right, and produces tokens.
use vstd::prelude::*;
use crate::diagnostics::{ScanError, UnexpectedChar};
use crate::model::{
    closing_quote, comment_end, lemma_lex_step_progress,
    lemma_newlines_extend, lex_step, newlines, scan_from, Lexed,
};
use crate::text::{byte_len, push_char};
use crate::token::{eof_token, empty_string, Token, TokenView};
use crate::ttypes::TokenType;

verus! {

/// What a scanner holds, as mathematical values.
pub struct ScannerView {
    pub source: Seq<char>,
    pub tokens: Seq<TokenView>,
    pub reports: Seq<(char, nat)>,
    /// Where the current lexeme begins.
    pub start: nat,
    /// The next character to read.
    pub current: nat,
    /// The line that `current` lies on.
    pub line: nat,
}

/// Turns source text into tokens. Positions count characters.
pub struct Scanner {
    source: String,
    chars: Vec<char>,
    tokens: Vec<Token>,
    reports: Vec<UnexpectedChar>,
    start: usize,
    current: usize,
    line: usize,
}

pub open spec fn token_views(ts: Seq<Token>) -> Seq<TokenView> {
    ts.map_values(|t: Token| t@)
}

pub open spec fn report_views(rs: Seq<UnexpectedChar>) -> Seq<(char, nat)> {
    rs.map_values(|r: UnexpectedChar| r.view_pair())
}

/// How one step of scanning at `o.current` turns state `o` into `n`, with
/// result `r`, as `lex_step` describes it. Each token is put on the line where
/// its text begins.
pub open spec fn step_taken(o: ScannerView, n: ScannerView, r: Result<(), ScanError>) -> bool {
    let src = o.source;
    let i = o.current as int;
    &&& n.source == src
    &&& match lex_step(src, i) {
        Lexed::Emit { ttype, end, literal } => {
            &&& r is Ok
            &&& n.current == end
            &&& n.line == o.line + newlines(src.subrange(i, end))
            &&& n.tokens == o.tokens.push(
                TokenView { ttype, lexeme: src.subrange(i, end), literal, line: o.line },
            )
            &&& n.reports == o.reports
        },
        Lexed::Skip { end } => {
            &&& r is Ok
            &&& n.current == end
            &&& n.line == o.line + newlines(src.subrange(i, end))
            &&& n.tokens == o.tokens
            &&& n.reports == o.reports
        },
        Lexed::Unexpected => {
            &&& r is Ok
            &&& n.current == i + 1
            &&& n.line == o.line
            &&& n.tokens == o.tokens
            &&& n.reports == o.reports.push((src[i], o.line))
        },
        Lexed::Unclosed => {
            &&& r matches Err(ScanError::UnclosedString { line }) && line == o.line
            &&& n.tokens == o.tokens
            &&& n.reports == o.reports
        },
    }
}


impl View for Scanner {
    type V = ScannerView;

    closed spec fn view(&self) -> ScannerView {
        ScannerView {
            source: self.source@,
            tokens: token_views(self.tokens@),
            reports: report_views(self.reports@),
            start: self.start as nat,
            current: self.current as nat,
            line: self.line as nat,
        }
    }
}

impl Scanner {
    /// The cursors lie within the source, and the line count cannot outgrow it.
    pub closed spec fn wf(&self) -> bool {
        &&& self.chars@ == self.source@
        &&& self.chars.len() <= isize::MAX
        &&& self.start <= self.current <= self.chars.len()
        &&& 1 <= self.line <= self.current + 1
    }

    /// A scanner over `s`, at its first character on line 1, with no tokens yet.
    pub fn from_string(s: String) -> (r: Self)
        ensures
            r.wf(),
            r@ == (ScannerView {
                source: s@,
                tokens: Seq::empty(),
                reports: Seq::empty(),
                start: 0,
                current: 0,
                line: 1,
            }),
    {
        // No text has more characters than bytes.
        let bytes = byte_len(s.as_str());
        let mut chars: Vec<char> = Vec::with_capacity(bytes);
        for c in it: s.chars()
            invariant
                it.seq() == s@,
                chars@ == it.seq().take(it.index() as int),
        {
            chars.push(c);
        }
        assert(chars@ =~= s@);
        let r = Scanner {
            source: s,
            chars,
            tokens: Vec::new(),
            reports: Vec::new(),
            start: 0,
            current: 0,
            line: 1,
        };
        assert(token_views(r.tokens@) =~= Seq::empty());
        assert(report_views(r.reports@) =~= Seq::empty());
        r
    }

    pub fn get_source(&self) -> (r: &str)
        ensures
            r@ == self@.source,
    {
        self.source.as_str()
    }

    /// The tokens produced so far, handed over to the caller.
    pub fn into_tokens(self) -> (r: Vec<Token>)
        ensures
            token_views(r@) == self@.tokens,
    {
        self.tokens
    }

    /// The unexpected characters reported so far, in source order.
    pub fn diagnostics(&self) -> (r: &[UnexpectedChar])
        ensures
            report_views(r@) == self@.reports,
    {
        self.reports.as_slice()
    }

    fn is_at_end(&self) -> (r: bool)
        requires
            self.wf(),
        ensures
            r == (self.current >= self.chars.len()),
    {
        self.current >= self.chars.len()
    }

    /// Reads the next character and moves past it; `None` at the end of the
    /// source, where the cursor stays.
    pub fn advance(&mut self) -> (r: Option<char>)
        requires
            old(self).wf(),
        ensures
            final(self).wf(),
            old(self)@.current < old(self)@.source.len() ==> r == Some(
                old(self)@.source[old(self)@.current as int],
            ) && final(self)@ == (ScannerView { current: old(self)@.current + 1, ..old(self)@ }),
            old(self)@.current >= old(self)@.source.len() ==> r is None && final(self)@ == old(
                self,
            )@,
    {
        if self.current < self.chars.len() {
            let c = self.chars[self.current];
            self.current = self.current + 1;
            Some(c)
        } else {
            None
        }
    }

    /// The next character without moving past it; `'\0'` at the end.
    fn peek(&self) -> (r: char)
        requires
            self.wf(),
        ensures
            self.current < self.chars.len() ==> r == self.chars@[self.current as int],
            self.current >= self.chars.len() ==> r == '\0',
    {
        if self.is_at_end() {
            '\0'
        } else {
            self.chars[self.current]
        }
    }

    /// Moves past the next character if it is `expected`.
    fn conditional_advance(&mut self, expected: char) -> (r: bool)
        requires
            old(self).wf(),
        ensures
            final(self).wf(),
            r == (old(self).current < old(self).chars.len() && old(self).chars@[old(
                self,
            ).current as int] == expected),
            r ==> final(self)@ == (ScannerView { current: old(self)@.current + 1, ..old(self)@ }),
            !r ==> final(self)@ == old(self)@,
    {
        if self.is_at_end() {
            false
        } else if expected != self.chars[self.current] {
            false
        } else {
            self.current = self.current + 1;
            true
        }
    }

    /// The source text between two positions.
    fn text(&self, from: usize, to: usize) -> (r: String)
        requires
            self.wf(),
            from <= to <= self.chars.len(),
        ensures
            r@ == self.chars@.subrange(from as int, to as int),
    {
        let mut s = String::new();
        let mut k: usize = from;
        while k < to
            invariant
                from <= k <= to <= self.chars.len(),
                s@ == self.chars@.subrange(from as int, k as int),
            decreases to - k,
        {
            push_char(&mut s, self.chars[k]);
            k = k + 1;
            assert(s@ =~= self.chars@.subrange(from as int, k as int));
        }
        s
    }

    /// Appends a token made of the current lexeme.
    fn add_token(&mut self, ttype: TokenType, literal: String, line: usize)
        requires
            old(self).wf(),
        ensures
            final(self).wf(),
            final(self)@ == (ScannerView {
                tokens: old(self)@.tokens.push(
                    TokenView {
                        ttype,
                        lexeme: old(self)@.source.subrange(
                            old(self)@.start as int,
                            old(self)@.current as int,
                        ),
                        literal: literal@,
                        line: line as nat,
                    },
                ),
                ..old(self)@
            }),
    {
        let text = self.text(self.start, self.current);
        let ghost before = self.tokens@;
        self.tokens.push(Token::new(ttype, text, literal, line));
        assert(token_views(self.tokens@) =~= token_views(before).push(self.tokens@.last()@));
    }

    /// Appends a token that carries no literal.
    fn add_token_no_literal(&mut self, ttype: TokenType, line: usize)
        requires
            old(self).wf(),
        ensures
            final(self).wf(),
            final(self)@ == (ScannerView {
                tokens: old(self)@.tokens.push(
                    TokenView {
                        ttype,
                        lexeme: old(self)@.source.subrange(
                            old(self)@.start as int,
                            old(self)@.current as int,
                        ),
                        literal: Seq::empty(),
                        line: line as nat,
                    },
                ),
                ..old(self)@
            }),
    {
        self.add_token(ttype, empty_string(), line);
    }

    /// Appends `pair` when the next character is `expected`, taking it into
    /// the lexeme, and `single` otherwise.
    fn add_token_conditional(
        &mut self,
        expected: char,
        pair: TokenType,
        single: TokenType,
        line: usize,
    )
        requires
            old(self).wf(),
        ensures
            final(self).wf(),
            ({
                let o = old(self)@;
                let matched = o.current < o.source.len() && o.source[o.current as int] == expected;
                let end: int = if matched { o.current + 1int } else { o.current as int };
                final(self)@ == (ScannerView {
                    tokens: o.tokens.push(
                        TokenView {
                            ttype: if matched { pair } else { single },
                            lexeme: o.source.subrange(o.start as int, end),
                            literal: Seq::empty(),
                            line: line as nat,
                        },
                    ),
                    current: end as nat,
                    ..o
                })
            }),
    {
        if self.conditional_advance(expected) {
            self.add_token_no_literal(pair, line);
        } else {
            self.add_token_no_literal(single, line);
        }
    }

    /// Passes over the rest of a line comment, up to the newline or the end.
    fn skip_comment(&mut self)
        requires
            old(self).wf(),
            newlines(old(self)@.source.subrange(old(self)@.start as int, old(self)@.current as int)) == 0,
        ensures
            final(self).wf(),
            final(self)@ == (ScannerView {
                current: comment_end(old(self)@.source, old(self)@.current as int) as nat,
                ..old(self)@
            }),
            newlines(final(self)@.source.subrange(final(self)@.start as int, final(self)@.current as int)) == 0,
    {
        let ghost o = self@;
        let ghost src = self@.source;
        while self.peek() != '\n' && !self.is_at_end()
            invariant
                self.wf(),
                src == o.source,
                self@ == (ScannerView { current: self@.current, ..o }),
                o.current <= self@.current,
                comment_end(src, self@.current as int) == comment_end(src, o.current as int),
                newlines(src.subrange(o.start as int, self@.current as int)) == 0,
            decreases src.len() - self@.current,
        {
            proof {
                lemma_newlines_extend(src, o.start as int, self@.current as int);
            }
            self.advance();
        }
    }

    /// Scans the rest of a string literal whose opening quote was just read,
    /// on line `line`. The literal is the text between the quotes, escapes
    /// left as they stand.
    fn scan_string(&mut self, line: usize) -> (r: Result<(), ScanError>)
        requires
            old(self).wf(),
            old(self)@.current == old(self)@.start + 1,
            old(self)@.source[old(self)@.start as int] == '"',
            old(self)@.line == line,
        ensures
            final(self).wf(),
            final(self)@.source == old(self)@.source,
            ({
                let o = old(self)@;
                let src = o.source;
                match closing_quote(src, o.current as int) {
                    Some(q) => r is Ok && final(self)@ == (ScannerView {
                        tokens: o.tokens.push(
                            TokenView {
                                ttype: TokenType::STRING,
                                lexeme: src.subrange(o.start as int, q + 1),
                                literal: src.subrange(o.start + 1 as int, q),
                                line: line as nat,
                            },
                        ),
                        current: (q + 1) as nat,
                        line: (line + newlines(src.subrange(o.start as int, q + 1))) as nat,
                        ..o
                    }),
                    None => r == Err::<(), ScanError>(ScanError::UnclosedString { line })
                        && final(self)@.tokens == o.tokens && final(self)@.reports == o.reports,
                }
            }),
    {
        let ghost o = self@;
        let ghost src = self@.source;
        proof {
            lemma_newlines_extend(src, o.start as int, o.start as int);
        }
        while self.peek() != '"' && !self.is_at_end()
            invariant
                self.wf(),
                src == o.source,
                self@ == (ScannerView { current: self@.current, line: self@.line, ..o }),
                o.current <= self@.current,
                closing_quote(src, self@.current as int) == closing_quote(src, o.current as int),
                self@.line == line + newlines(src.subrange(o.start as int, self@.current as int)),
            decreases src.len() - self@.current,
        {
            proof {
                lemma_newlines_extend(src, o.start as int, self@.current as int);
            }
            let ghost k = self@.current as int;
            let c = self.advance().unwrap();
            if c == '\n' {
                self.line = self.line + 1;
            }
            if c == '\\' {
                proof {
                    if self@.current < src.len() {
                        lemma_newlines_extend(src, o.start as int, self@.current as int);
                    }
                }
                if let Some(d) = self.advance() {
                    if d == '\n' {
                        self.line = self.line + 1;
                    }
                } else {
                    assert(closing_quote(src, k + 2) is None);
                    assert(closing_quote(src, self@.current as int) is None);
                }
            }
        }
        if self.is_at_end() {
            return Err(ScanError::UnclosedString { line });
        }
        proof {
            lemma_newlines_extend(src, o.start as int, self@.current as int);
        }
        self.advance();
        let literal = self.text(self.start + 1, self.current - 1);
        self.add_token(TokenType::STRING, literal, line);
        Ok(())
    }

    /// Reads one lexeme starting at the cursor and acts on it.
    fn scan_token(&mut self) -> (r: Result<(), ScanError>)
        requires
            old(self).wf(),
            old(self)@.start == old(self)@.current,
            old(self)@.current < old(self)@.source.len(),
        ensures
            final(self).wf(),
            step_taken(old(self)@, final(self)@, r),
    {
        let ghost src = self@.source;
        let ghost i = self@.current as int;
        let line = self.line;
        proof {
            lemma_lex_step_progress(src, i);
            lemma_newlines_extend(src, i, i);
            if i + 1 < src.len() {
                lemma_newlines_extend(src, i, i + 1);
            }
        }
        let c = self.advance().unwrap();
        match c {
            '(' => self.add_token_no_literal(TokenType::LEFT_PAREN, line),
            ')' => self.add_token_no_literal(TokenType::RIGHT_PAREN, line),
            '{' => self.add_token_no_literal(TokenType::LEFT_BRACE, line),
            '}' => self.add_token_no_literal(TokenType::RIGHT_BRACE, line),
            '[' => self.add_token_no_literal(TokenType::LEFT_SQBR, line),
            ']' => self.add_token_no_literal(TokenType::RIGHT_SQBR, line),
            ',' => self.add_token_no_literal(TokenType::COMMA, line),
            '.' => self.add_token_no_literal(TokenType::DOT, line),
            '-' => self.add_token_no_literal(TokenType::MINUS, line),
            '+' => self.add_token_no_literal(TokenType::PLUS, line),
            ';' => self.add_token_no_literal(TokenType::SEMICOLON, line),
            '*' => self.add_token_no_literal(TokenType::STAR, line),
            '!' => self.add_token_conditional('=', TokenType::BANG_EQ, TokenType::BANG, line),
            '=' => self.add_token_conditional('=', TokenType::EQ_EQ, TokenType::EQ, line),
            '<' => self.add_token_conditional('=', TokenType::LESS_EQ, TokenType::LESS, line),
            '>' => self.add_token_conditional('=', TokenType::GREATER_EQ, TokenType::GREATER, line),
            ' ' | '\r' | '\t' => {},
            '\n' => {
                // A newline is a token of its own, on the line it ends.
                self.line = self.line + 1;
                self.add_token_no_literal(TokenType::NEWLINE, line);
            },
            '/' => {
                if self.conditional_advance('/') {
                    self.skip_comment();
                } else {
                    self.add_token_no_literal(TokenType::SLASH, line);
                }
            },
            '"' => {
                return self.scan_string(line);
            },
            _ => {
                self.report(c, line);
            },
        }
        Ok(())
    }

    /// Records an unexpected character.
    fn report(&mut self, ch: char, line: usize)
        requires
            old(self).wf(),
        ensures
            final(self).wf(),
            final(self)@ == (ScannerView {
                reports: old(self)@.reports.push((ch, line as nat)),
                ..old(self)@
            }),
    {
        let ghost before = self.reports@;
        self.reports.push(UnexpectedChar { ch, line });
        assert(report_views(self.reports@) =~= report_views(before).push((ch, line as nat)));
    }

    /// Scans from the cursor to the end of the source and appends the
    /// end-of-input token, as `scan_from` describes. A string literal that the
    /// source ends inside stops the scan with an error; the tokens before it
    /// are kept and no end-of-input token is added.
    pub fn scan_tokens(&mut self) -> (r: Result<(), ScanError>)
        requires
            old(self).wf(),
        ensures
            final(self).wf(),
            final(self)@.source == old(self)@.source,
            ({
                let o = old(self)@;
                let s = scan_from(o.source, o.current as int, o.line);
                &&& final(self)@.tokens == o.tokens + s.tokens
                &&& final(self)@.reports == o.reports + s.reports
                &&& (r is Ok <==> s.unclosed is None)
                &&& (r matches Err(ScanError::UnclosedString { line }) ==> s.unclosed == Some(
                    line as nat,
                ))
            }),
    {
        let ghost o = self@;
        let ghost src = self@.source;
        let ghost whole = scan_from(src, o.current as int, o.line);
        while !self.is_at_end()
            invariant
                self.wf(),
                o == old(self)@,
                src == o.source,
                whole == scan_from(src, o.current as int, o.line),
                self@.source == src,
                self@.tokens + scan_from(src, self@.current as int, self@.line).tokens == o.tokens
                    + whole.tokens,
                self@.reports + scan_from(src, self@.current as int, self@.line).reports
                    == o.reports + whole.reports,
                scan_from(src, self@.current as int, self@.line).unclosed == whole.unclosed,
            decreases src.len() - self@.current,
        {
            self.start = self.current;
            let ghost before = self@;
            proof {
                lemma_lex_step_progress(src, before.current as int);
            }
            let step = self.scan_token();
            let ghost rest = scan_from(src, self@.current as int, self@.line);
            proof {
                let here = scan_from(src, before.current as int, before.line);
                match lex_step(src, before.current as int) {
                    Lexed::Emit { ttype, end, literal } => {
                        let tok = TokenView {
                            ttype,
                            lexeme: src.subrange(before.current as int, end),
                            literal,
                            line: before.line,
                        };
                        assert(here.tokens == seq![tok] + rest.tokens);
                        assert(before.tokens.push(tok) + rest.tokens =~= before.tokens + here.tokens);
                    },
                    Lexed::Unexpected => {
                        let rep = (src[before.current as int], before.line);
                        assert(before.reports.push(rep) + rest.reports =~= before.reports
                            + here.reports);
                    },
                    _ => {},
                }
            }
            if let Err(e) = step {
                proof {
                    assert(self@.tokens =~= self@.tokens + Seq::<TokenView>::empty());
                    assert(self@.reports =~= self@.reports + Seq::<(char, nat)>::empty());
                }
                return Err(e);
            }
        }
        let ghost before = self.tokens@;
        self.tokens.push(eof_token(self.line));
        assert(token_views(self.tokens@) =~= token_views(before).push(self.tokens@.last()@));
        proof {
            assert(self@.reports =~= self@.reports + Seq::<(char, nat)>::empty());
        }
        Ok(())
    }
}

} // verus!
