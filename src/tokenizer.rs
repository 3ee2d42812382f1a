use vstd::prelude::*;

verus! {

/// Turns source text into tokens, with `Indent` and `Dedent` for changes of
/// indentation at the start of a line.
pub struct Tokenizer<'s> {
    input: &'s [char],
    index: usize,
    indent_level: usize,
    indent_size: usize,
    indent_format: IndentFormat,
    pub tokens: Vec<Token>,
    pub errors: Vec<TokenizerError>,
}

#[derive(Debug, Copy, Clone, PartialEq, Eq, Structural)]
pub enum IndentFormat {
    Spaces,
    Tabs,
}

#[derive(Debug, Clone)]
pub struct Token {
    pub kind: TokenKind,
}

impl Token {
    pub fn new(kind: TokenKind) -> (r: Self)
        ensures
            r.kind == kind,
    {
        Self { kind }
    }
}

#[derive(Debug, Clone, PartialEq, Eq)]
pub enum TokenKind {
    IntegerLiteral(i64),
    Identifier(String),
    Add,
    Subtract,
    Multiply,
    Divide,
    Equals,
    GreaterThan,
    LessThan,
    Range,
    SendArrow,
    ReceiveArrow,
    QuestionMark,
    LeftParen,
    RightParen,
    LeftBrace,
    RightBrace,
    Comma,
    Assign,
    KwTask,
    KwIf,
    KwWhile,
    KwLoop,
    KwTrue,
    KwFalse,
    KwNull,
    KwExit,
    Indent,
    Dedent,
    NewLine,
    EndOfFile,
}

/// Two kinds are the same: identifiers by their text, everything else by value.
pub open spec fn same_kind_spec(a: TokenKind, b: TokenKind) -> bool {
    match (a, b) {
        (TokenKind::Identifier(x), TokenKind::Identifier(y)) => x@ == y@,
        (TokenKind::Identifier(_), _) => false,
        (_, TokenKind::Identifier(_)) => false,
        _ => a == b,
    }
}

pub fn same_kind(a: &TokenKind, b: &TokenKind) -> (r: bool)
    ensures
        r == same_kind_spec(*a, *b),
{
    match (a, b) {
        (TokenKind::IntegerLiteral(x), TokenKind::IntegerLiteral(y)) => *x == *y,
        (TokenKind::Identifier(x), TokenKind::Identifier(y)) => *x == *y,
        (TokenKind::Add, TokenKind::Add) => true,
        (TokenKind::Subtract, TokenKind::Subtract) => true,
        (TokenKind::Multiply, TokenKind::Multiply) => true,
        (TokenKind::Divide, TokenKind::Divide) => true,
        (TokenKind::Equals, TokenKind::Equals) => true,
        (TokenKind::GreaterThan, TokenKind::GreaterThan) => true,
        (TokenKind::LessThan, TokenKind::LessThan) => true,
        (TokenKind::Range, TokenKind::Range) => true,
        (TokenKind::SendArrow, TokenKind::SendArrow) => true,
        (TokenKind::ReceiveArrow, TokenKind::ReceiveArrow) => true,
        (TokenKind::QuestionMark, TokenKind::QuestionMark) => true,
        (TokenKind::LeftParen, TokenKind::LeftParen) => true,
        (TokenKind::RightParen, TokenKind::RightParen) => true,
        (TokenKind::LeftBrace, TokenKind::LeftBrace) => true,
        (TokenKind::RightBrace, TokenKind::RightBrace) => true,
        (TokenKind::Comma, TokenKind::Comma) => true,
        (TokenKind::Assign, TokenKind::Assign) => true,
        (TokenKind::KwTask, TokenKind::KwTask) => true,
        (TokenKind::KwIf, TokenKind::KwIf) => true,
        (TokenKind::KwWhile, TokenKind::KwWhile) => true,
        (TokenKind::KwLoop, TokenKind::KwLoop) => true,
        (TokenKind::KwTrue, TokenKind::KwTrue) => true,
        (TokenKind::KwFalse, TokenKind::KwFalse) => true,
        (TokenKind::KwNull, TokenKind::KwNull) => true,
        (TokenKind::KwExit, TokenKind::KwExit) => true,
        (TokenKind::Indent, TokenKind::Indent) => true,
        (TokenKind::Dedent, TokenKind::Dedent) => true,
        (TokenKind::NewLine, TokenKind::NewLine) => true,
        (TokenKind::EndOfFile, TokenKind::EndOfFile) => true,
        _ => false,
    }
}

#[derive(Debug, Clone)]
pub struct TokenizerError {
    pub message: String,
}

impl TokenizerError {
    fn new(message: &str) -> (r: Self)
        ensures
            r.message@ == message@,
    {
        Self { message: message.to_owned() }
    }
}

/// What `tokenize` keeps apart from its position and indentation state.
pub open spec fn grows<T>(before: Seq<T>, after: Seq<T>) -> bool {
    &&& before.len() <= after.len()
    &&& forall|i: int| 0 <= i < before.len() ==> after[i] == before[i]
}

/// A token as the lexical rules describe it: an identifier by its text, any
/// other token by its kind.
pub enum Lexeme {
    Word(Seq<char>),
    Plain(TokenKind),
}

pub open spec fn lexeme_of(t: Token) -> Lexeme {
    match t.kind {
        TokenKind::Identifier(s) => Lexeme::Word(s@),
        k => Lexeme::Plain(k),
    }
}

pub open spec fn lexemes(ts: Seq<Token>) -> Seq<Lexeme> {
    ts.map_values(|t: Token| lexeme_of(t))
}

/// Where the lexer stands: the position, the indentation level of the current
/// line, and the indentation step once the first indented line has fixed it
/// (size 0 until then).
pub struct LexState {
    pub index: int,
    pub level: int,
    pub size: int,
    pub format: IndentFormat,
}

/// The character at `i`, or `\0` past the end.
pub open spec fn char_at(input: Seq<char>, i: int) -> char {
    if 0 <= i < input.len() { input[i] } else { '\0' }
}

/// The end of the run of identifier characters from `i`.
pub open spec fn ident_end(input: Seq<char>, i: int) -> int
    decreases input.len() - i,
{
    if 0 <= i < input.len() && continues_identifier(input[i]) { ident_end(input, i + 1) } else { i }
}

/// The end of the run of digits from `i`.
pub open spec fn digits_end(input: Seq<char>, i: int) -> int
    decreases input.len() - i,
{
    if 0 <= i < input.len() && is_digit(input[i]) { digits_end(input, i + 1) } else { i }
}

/// Where a comment that continues at `i` ends: at the line break, or at `\0`.
pub open spec fn comment_end(input: Seq<char>, i: int) -> int
    decreases input.len() - i,
{
    if 0 <= i < input.len() && input[i] != '\n' && input[i] != '\0' { comment_end(input, i + 1) } else { i }
}

/// The end of the run of line breaks from `i`.
pub open spec fn breaks_end(input: Seq<char>, i: int) -> int
    decreases input.len() - i,
{
    if 0 <= i < input.len() && input[i] == '\n' { breaks_end(input, i + 1) } else { i }
}

/// The end of the run of `c` from `i`.
pub open spec fn run_end(input: Seq<char>, i: int, c: char) -> int
    decreases input.len() - i,
{
    if 0 <= i < input.len() && input[i] == c { run_end(input, i + 1, c) } else { i }
}

/// Reading the indentation of the next line that has content, from `i`, with
/// step `size` in `format` (size 0 when not fixed yet): the level or `None` for
/// an error, the position after, and the step after.
pub open spec fn indentation(input: Seq<char>, i: int, size: int, format: IndentFormat) -> (Option<int>, int, int, IndentFormat)
    decreases input.len() - i,
{
    let j = breaks_end(input, i);
    if !(0 <= j < input.len()) || indentation_of(input[j]) is None {
        (Some(0), j, size, format)
    } else {
        let given = indentation_of(input[j])->Some_0;
        if size > 0 && format != given {
            (None, j + 1, size, format)
        } else {
            let fmt = if size > 0 { format } else { given };
            let m = run_end(input, j + 1, format_char(fmt));
            if 0 <= m < input.len() && indentation_of(input[m]) is Some {
                (None, m + 1, size, fmt)
            } else if 0 <= m < input.len() && input[m] == '\n' && m + 1 > i {
                indentation(input, m + 1, size, fmt)
            } else {
                let width = m - j;
                let sz = if size > 0 { size } else { width };
                if sz <= 0 || width % sz != 0 {
                    (None, m, sz, fmt)
                } else {
                    (Some(width / sz), m, sz, fmt)
                }
            }
        }
    }
}

/// The kind of token a single character stands for, if it is one.
pub open spec fn single_char_kind(c: char) -> Option<TokenKind> {
    if c == '?' { Some(TokenKind::QuestionMark) }
    else if c == '+' { Some(TokenKind::Add) }
    else if c == '-' { Some(TokenKind::Subtract) }
    else if c == '*' { Some(TokenKind::Multiply) }
    else if c == '/' { Some(TokenKind::Divide) }
    else if c == '(' { Some(TokenKind::LeftParen) }
    else if c == ')' { Some(TokenKind::RightParen) }
    else if c == '[' { Some(TokenKind::LeftBrace) }
    else if c == ']' { Some(TokenKind::RightBrace) }
    else if c == ',' { Some(TokenKind::Comma) }
    else if c == '>' { Some(TokenKind::GreaterThan) }
    else if c == '<' { Some(TokenKind::LessThan) }
    else { None }
}

pub open spec fn dedents(n: int) -> Seq<Lexeme> {
    Seq::new(n as nat, |_i: int| Lexeme::Plain(TokenKind::Dedent))
}

/// One step of the lexer at `st`, which is not at the end: the state after, the
/// tokens it gives, and how many errors it reports.
pub open spec fn lex_step(input: Seq<char>, st: LexState) -> (LexState, Seq<Lexeme>, nat) {
    let i = st.index;
    let c = char_at(input, i);
    let next = char_at(input, i + 1);
    if c == '#' {
        (LexState { index: comment_end(input, i + 1), ..st }, seq![], 0)
    } else if starts_identifier(c) {
        let e = ident_end(input, i + 1);
        let w = input.subrange(i, e);
        let t = match keyword_of(w) {
            Some(k) => Lexeme::Plain(k),
            None => Lexeme::Word(w),
        };
        (LexState { index: e, ..st }, seq![t], 0)
    } else if c == '\n' {
        let (res, j, sz, fmt) = indentation(input, i + 1, st.size, st.format);
        let after = LexState { index: j, size: sz, format: fmt, ..st };
        let nl = seq![Lexeme::Plain(TokenKind::NewLine)];
        match res {
            None => (after, nl, 1),
            Some(l) => if l == st.level + 1 {
                (LexState { level: l, ..after }, nl.push(Lexeme::Plain(TokenKind::Indent)), 0)
            } else if l < st.level {
                (LexState { level: l, ..after }, nl + dedents(st.level - l), 0)
            } else if l == st.level {
                (after, nl, 0)
            } else {
                (LexState { level: l, ..after }, nl, 1)
            },
        }
    } else if c == '<' && next == '-' {
        (LexState { index: i + 2, ..st }, seq![Lexeme::Plain(TokenKind::ReceiveArrow)], 0)
    } else if c == '-' && next == '>' {
        (LexState { index: i + 2, ..st }, seq![Lexeme::Plain(TokenKind::SendArrow)], 0)
    } else if is_digit(c) || (c == '-' && is_digit(next)) {
        let start = if c == '-' { i + 1 } else { i };
        let e = digits_end(input, start);
        let v = if c == '-' { -digits_value(input.subrange(start, e)) } else { digits_value(input.subrange(start, e)) };
        if i64::MIN <= v <= i64::MAX {
            (LexState { index: e, ..st }, seq![Lexeme::Plain(TokenKind::IntegerLiteral(v as i64))], 0)
        } else {
            (LexState { index: e, ..st }, seq![], 1)
        }
    } else if whitespace(c) {
        (LexState { index: i + 1, ..st }, seq![], 0)
    } else if c == '=' {
        if next == '=' {
            (LexState { index: i + 2, ..st }, seq![Lexeme::Plain(TokenKind::Equals)], 0)
        } else {
            (LexState { index: i + 1, ..st }, seq![Lexeme::Plain(TokenKind::Assign)], 0)
        }
    } else if c == '.' && next == '.' {
        (LexState { index: i + 2, ..st }, seq![Lexeme::Plain(TokenKind::Range)], 0)
    } else if single_char_kind(c) is Some {
        (LexState { index: i + 1, ..st }, seq![Lexeme::Plain(single_char_kind(c)->Some_0)], 0)
    } else {
        (LexState { index: i + 1, ..st }, seq![], 1)
    }
}

/// The tokens of `input` from `st` to its end, and how many errors reading
/// them reports.
pub open spec fn lex_from(input: Seq<char>, st: LexState) -> (Seq<Lexeme>, nat)
    decreases input.len() - st.index,
{
    if st.index >= input.len() || st.index < 0 {
        (seq![], 0)
    } else {
        let (st2, ts, errs) = lex_step(input, st);
        if st.index < st2.index <= input.len() {
            let (rest, more) = lex_from(input, st2);
            (ts + rest, errs + more)
        } else {
            (ts, errs)
        }
    }
}

pub open spec fn start_state() -> LexState {
    LexState { index: 0, level: 0, size: 0, format: IndentFormat::Spaces }
}

/// The tokens of a whole source text, before `EndOfFile`, and how many errors
/// reading it reports.
pub open spec fn lex(input: Seq<char>) -> (Seq<Lexeme>, nat) {
    lex_from(input, start_state())
}

/// The indentation step that a character is, if any.
pub open spec fn indentation_of(c: char) -> Option<IndentFormat> {
    if c == '\t' {
        Some(IndentFormat::Tabs)
    } else if c == ' ' {
        Some(IndentFormat::Spaces)
    } else {
        None
    }
}

pub open spec fn format_char(f: IndentFormat) -> char {
    match f {
        IndentFormat::Tabs => '\t',
        IndentFormat::Spaces => ' ',
    }
}

pub open spec fn is_blank(c: char) -> bool {
    c == ' ' || c == '\t' || c == '\n'
}

impl<'s> Tokenizer<'s> {
    pub closed spec fn wf(&self) -> bool {
        &&& self.index <= self.input@.len()
        &&& self.input@.len() <= usize::MAX
    }

    /// Everything but the position is as in `other`.
    pub closed spec fn same_apart_from_index(&self, other: &Self) -> bool {
        &&& self.input == other.input
        &&& self.indent_level == other.indent_level
        &&& self.indent_size == other.indent_size
        &&& self.indent_format == other.indent_format
        &&& self.tokens == other.tokens
        &&& self.errors == other.errors
    }

    pub closed spec fn lex_state(&self) -> LexState {
        LexState {
            index: self.index as int,
            level: self.indent_level as int,
            size: self.indent_size as int,
            format: self.indent_format,
        }
    }

    /// Everything but the tokens is as in `other`.
    pub closed spec fn same_apart_from_tokens(&self, other: &Self) -> bool {
        &&& self.input == other.input
        &&& self.index == other.index
        &&& self.indent_level == other.indent_level
        &&& self.indent_size == other.indent_size
        &&& self.indent_format == other.indent_format
        &&& self.errors == other.errors
    }

    pub closed spec fn token_list(&self) -> Seq<Token> {
        self.tokens@
    }

    pub closed spec fn error_list(&self) -> Seq<TokenizerError> {
        self.errors@
    }

    pub closed spec fn source(&self) -> Seq<char> {
        self.input@
    }

    /// Whether the whole input has been read.
    pub closed spec fn done(&self) -> bool {
        self.index >= self.input@.len()
    }

    /// The tokens and the errors, taken out.
    pub fn into_results(self) -> (r: (Vec<Token>, Vec<TokenizerError>))
        ensures
            r.0@ == self.token_list(),
            r.1@ == self.error_list(),
    {
        (self.tokens, self.errors)
    }

    pub fn new(input: &'s [char]) -> (r: Self)
        ensures
            r.wf(),
            r.source() == input@,
            r.token_list().len() == 0,
            r.error_list().len() == 0,
            r.lex_state() == start_state(),
    {
        let n = input.len();
        assert(n == input@.len());
        Self {
            input,
            index: 0,
            indent_level: 0,
            indent_size: 0,
            indent_format: IndentFormat::Spaces,
            tokens: Vec::new(),
            errors: Vec::new(),
        }
    }

    /// Reads the whole input, appending its tokens and then `EndOfFile`: the
    /// tokens are what `lex` gives from where the tokenizer stands, and one
    /// error is reported for each error `lex` counts.
    pub fn tokenize(&mut self)
        requires
            old(self).wf(),
        ensures
            final(self).wf(),
            final(self).done(),
            final(self).source() == old(self).source(),
            lexemes(final(self).token_list()) == lexemes(old(self).token_list())
                + lex_from(old(self).source(), old(self).lex_state()).0
                + seq![Lexeme::Plain(TokenKind::EndOfFile)],
            final(self).error_list().len() == old(self).error_list().len()
                + lex_from(old(self).source(), old(self).lex_state()).1,
            grows(old(self).token_list(), final(self).token_list()),
            grows(old(self).error_list(), final(self).error_list()),
            final(self).token_list().len() > 0,
            final(self).token_list().last().kind is EndOfFile,
    {
        let ghost input = self.input@;
        let ghost total = lex_from(input, old(self).lex_state());
        while !self.is_at_end()
            invariant
                self.wf(),
                self.input == old(self).input,
                input == self.input@,
                grows(old(self).tokens@, self.tokens@),
                grows(old(self).errors@, self.errors@),
                lexemes(self.tokens@) + lex_from(input, self.lex_state()).0 == lexemes(old(self).tokens@) + total.0,
                self.errors@.len() + lex_from(input, self.lex_state()).1 == old(self).errors@.len() + total.1,
            decreases self.input@.len() - self.index,
        {
            let ghost before = lexemes(self.tokens@);
            let ghost st = self.lex_state();
            self.scan();
            proof {
                let (st2, ts, e) = lex_step(input, st);
                let (rest, more) = lex_from(input, st2);
                assert(lex_from(input, st) == (ts + rest, e + more));
                assert(lexemes(self.tokens@) + rest =~= before + (ts + rest));
            }
        }
        let ghost before = self.tokens@;
        self.tokens.push(Token::new(TokenKind::EndOfFile));
        proof {
            assert(lexemes(self.tokens@) =~= lexemes(before).push(Lexeme::Plain(TokenKind::EndOfFile)));
            assert(lex_from(input, self.lex_state()).0 =~= seq![]);
            assert(lexemes(before) =~= lexemes(before) + lex_from(input, self.lex_state()).0);
        }
    }

    /// Appends one token.
    fn emit(&mut self, kind: TokenKind)
        ensures
            lexemes(final(self).tokens@) == lexemes(old(self).tokens@).push(lexeme_of(Token { kind })),
            grows(old(self).tokens@, final(self).tokens@),
            final(self).tokens@.len() == old(self).tokens@.len() + 1,
            final(self).same_apart_from_tokens(old(self)),
    {
        let ghost before = self.tokens@;
        self.tokens.push(Token::new(kind));
        proof {
            assert(lexemes(self.tokens@) =~= lexemes(before).push(lexeme_of(Token { kind })));
        }
    }

    /// Reports one error.
    fn report(&mut self, message: &str)
        ensures
            final(self).errors@.len() == old(self).errors@.len() + 1,
            grows(old(self).errors@, final(self).errors@),
            final(self).index == old(self).index,
            final(self).input == old(self).input,
            final(self).indent_level == old(self).indent_level,
            final(self).indent_size == old(self).indent_size,
            final(self).indent_format == old(self).indent_format,
            final(self).tokens == old(self).tokens,
    {
        self.errors.push(TokenizerError::new(message));
    }

    /// Reads one token, or skips a comment or white space: one step of `lex`.
    #[verifier::rlimit(100)]
    #[verifier::spinoff_prover]
    fn scan(&mut self)
        requires
            old(self).wf(),
            !old(self).done(),
        ensures
            final(self).wf(),
            final(self).input == old(self).input,
            final(self).index > old(self).index,
            grows(old(self).tokens@, final(self).tokens@),
            grows(old(self).errors@, final(self).errors@),
            ({
                let (st2, ts, e) = lex_step(old(self).input@, old(self).lex_state());
                &&& final(self).lex_state() == st2
                &&& lexemes(final(self).tokens@) == lexemes(old(self).tokens@) + ts
                &&& final(self).errors@.len() == old(self).errors@.len() + e
            }),
    {
        let ghost input = self.input@;
        let ghost l0 = lexemes(self.tokens@);
        let ghost i = self.index as int;
        let c = self.this();
        if c == '#' {
            // A comment runs to the end of the line.
            self.advance();
            while !self.is_at_end() && self.this() != '\n' && self.this() != '\0'
                invariant
                    self.wf(),
                    self.index > i,
                    input == self.input@,
                    self.input == old(self).input,
                    self.tokens == old(self).tokens,
                    self.errors == old(self).errors,
                    self.indent_level == old(self).indent_level,
                    self.indent_size == old(self).indent_size,
                    self.indent_format == old(self).indent_format,
                    comment_end(input, i + 1) == comment_end(input, self.index as int),
                decreases self.input@.len() - self.index,
            {
                self.advance();
            }
            proof {
                assert(lexemes(self.tokens@) =~= l0 + seq![]);
            }
        } else if let Some(id) = self.try_get_identifier() {
            match Self::try_convert_to_keyword(&id) {
                Some(kw) => self.emit(kw),
                None => self.emit(TokenKind::Identifier(id)),
            }
            proof {
                assert(lexemes(self.tokens@) =~= l0 + seq![lexemes(self.tokens@).last()]);
            }
        } else if c == '\n' {
            self.emit(TokenKind::NewLine);
            self.advance();
            match self.consume_all_indentation() {
                Ok(new_level) => {
                    if new_level > self.indent_level && new_level - self.indent_level == 1 {
                        self.emit(TokenKind::Indent);
                        proof {
                            assert(lexemes(self.tokens@) =~= l0 + seq![Lexeme::Plain(TokenKind::NewLine)].push(Lexeme::Plain(TokenKind::Indent)));
                        }
                    } else if new_level < self.indent_level {
                        let n = self.indent_level - new_level;
                        let ghost size_after = self.indent_size;
                        let ghost format_after = self.indent_format;
                        let ghost index_after = self.index;
                        let mut k: usize = 0;
                        while k < n
                            invariant
                                k <= n,
                                self.wf(),
                                self.index > i,
                                self.input == old(self).input,
                                self.indent_level == old(self).indent_level,
                                self.indent_size == size_after,
                                self.indent_format == format_after,
                                self.index == index_after,
                                self.errors == old(self).errors,
                                grows(old(self).tokens@, self.tokens@),
                                lexemes(self.tokens@) == l0 + seq![Lexeme::Plain(TokenKind::NewLine)] + dedents(k as int),
                            decreases n - k,
                        {
                            self.emit(TokenKind::Dedent);
                            proof {
                                assert(dedents(k + 1) =~= dedents(k as int).push(Lexeme::Plain(TokenKind::Dedent)));
                            }
                            k = k + 1;
                        }
                    } else if new_level == self.indent_level {
                        proof {
                            assert(lexemes(self.tokens@) =~= l0 + seq![Lexeme::Plain(TokenKind::NewLine)]);
                        }
                    } else {
                        self.report("indentation increased too much");
                        proof {
                            assert(lexemes(self.tokens@) =~= l0 + seq![Lexeme::Plain(TokenKind::NewLine)]);
                        }
                    }
                    self.indent_level = new_level;
                },
                Err(_) => {
                    self.report("bad indentation");
                    proof {
                        assert(lexemes(self.tokens@) =~= l0 + seq![Lexeme::Plain(TokenKind::NewLine)]);
                    }
                },
            }
        } else if c == '<' && self.next() == '-' {
            self.advance();
            self.advance();
            self.emit(TokenKind::ReceiveArrow);
            proof {
                assert(lexemes(self.tokens@) =~= l0 + seq![Lexeme::Plain(TokenKind::ReceiveArrow)]);
            }
        } else if c == '-' && self.next() == '>' {
            self.advance();
            self.advance();
            self.emit(TokenKind::SendArrow);
            proof {
                assert(lexemes(self.tokens@) =~= l0 + seq![Lexeme::Plain(TokenKind::SendArrow)]);
            }
        } else if is_ascii_digit(c) || (c == '-' && is_ascii_digit(self.next())) {
            match self.read_integer() {
                Some(v) => {
                    self.emit(TokenKind::IntegerLiteral(v));
                    proof {
                        assert(lexemes(self.tokens@) =~= l0 + seq![Lexeme::Plain(TokenKind::IntegerLiteral(v))]);
                    }
                },
                None => {
                    self.report("integer literal out of range");
                    proof {
                        assert(lexemes(self.tokens@) =~= l0 + seq![]);
                    }
                },
            }
        } else if is_whitespace(c) {
            self.advance();
            proof {
                assert(lexemes(self.tokens@) =~= l0 + seq![]);
            }
        } else {
            if c == '=' {
                if self.next() == '=' {
                    self.advance();
                    self.emit(TokenKind::Equals);
                } else {
                    self.emit(TokenKind::Assign);
                }
            } else if c == '.' && self.next() == '.' {
                self.advance();
                self.emit(TokenKind::Range);
            } else {
                match single_char(c) {
                    Some(kind) => self.emit(kind),
                    None => self.report("unexpected character"),
                }
            }
            self.advance();
            proof {
                if self.tokens@.len() > old(self).tokens@.len() {
                    assert(lexemes(self.tokens@) =~= l0 + seq![lexemes(self.tokens@).last()]);
                } else {
                    assert(lexemes(self.tokens@) =~= l0 + seq![]);
                }
            }
        }
    }

    /// Reads a run of digits, with a leading `-` for a negative number, and
    /// gives its value if it fits in an i64.
    fn read_integer(&mut self) -> (r: Option<i64>)
        requires
            old(self).wf(),
            old(self).index < old(self).input@.len(),
            is_digit(old(self).input@[old(self).index as int]) || (old(self).input@[old(self).index as int] == '-'
                && old(self).index + 1 < old(self).input@.len() && is_digit(old(self).input@[old(self).index + 1])),
        ensures
            final(self).wf(),
            final(self).same_apart_from_index(old(self)),
            final(self).index > old(self).index,
            ({
                let negative = old(self).input@[old(self).index as int] == '-';
                let start = if negative { old(self).index + 1 } else { old(self).index as int };
                let digits = old(self).input@.subrange(start, final(self).index as int);
                let v = if negative { -digits_value(digits) } else { digits_value(digits) };
                &&& start < final(self).index
                &&& forall|j: int| 0 <= j < digits.len() ==> is_digit(#[trigger] digits[j])
                &&& final(self).index == digits_end(old(self).input@, start)
                &&& r is Some <==> i64::MIN <= v <= i64::MAX
                &&& r is Some ==> r->Some_0 == v
            }),
    {
        let negative = self.this() == '-';
        if negative {
            self.advance();
        }
        let ghost start = self.index as int;
        let mut buffer: Vec<char> = Vec::new();
        while !self.is_at_end() && is_ascii_digit(self.this())
            invariant
                self.wf(),
                self.same_apart_from_index(old(self)),
                start <= self.index,
                start == if negative { old(self).index + 1 } else { old(self).index as int },
                buffer@ == self.input@.subrange(start, self.index as int),
                digits_end(self.input@, start) == digits_end(self.input@, self.index as int),
                forall|j: int| 0 <= j < buffer@.len() ==> is_digit(#[trigger] buffer@[j]),
            decreases self.input@.len() - self.index,
        {
            buffer.push(self.this());
            self.advance();
            assert(buffer@ =~= self.input@.subrange(start, self.index as int));
        }
        integer_of(&buffer, negative)
    }

    fn this(&self) -> (r: char)
        ensures
            r == if self.index < self.input@.len() { self.input@[self.index as int] } else { '\0' },
    {
        if self.is_at_end() {
            '\0'
        } else {
            self.input[self.index]
        }
    }

    fn next(&self) -> (r: char)
        requires
            self.wf(),
        ensures
            r == if self.index + 1 < self.input@.len() { self.input@[self.index + 1] } else { '\0' },
    {
        if self.next_is_at_end() {
            '\0'
        } else {
            self.input[self.index + 1]
        }
    }

    fn is_at_end(&self) -> (r: bool)
        ensures
            r == (self.index >= self.input@.len()),
    {
        self.index >= self.input.len()
    }

    fn next_is_at_end(&self) -> (r: bool)
        requires
            self.wf(),
        ensures
            r == (self.index + 1 >= self.input@.len()),
    {
        self.index >= self.input.len() || self.input.len() - self.index <= 1
    }

    fn advance(&mut self)
        requires
            old(self).wf(),
            old(self).index < old(self).input@.len(),
        ensures
            final(self).index == old(self).index + 1,
            final(self).wf(),
            final(self).same_apart_from_index(old(self)),
    {
        self.index = self.index + 1;
    }

    /// Reads an identifier: a letter, `_` or `$`, then letters, digits and `_`.
    fn try_get_identifier(&mut self) -> (r: Option<String>)
        requires
            old(self).wf(),
        ensures
            final(self).wf(),
            final(self).input == old(self).input,
            final(self).tokens == old(self).tokens,
            final(self).errors == old(self).errors,
            final(self).indent_level == old(self).indent_level,
            final(self).indent_size == old(self).indent_size,
            final(self).indent_format == old(self).indent_format,
            r is Some ==> final(self).index > old(self).index,
            r is None ==> final(self).index == old(self).index,
            r is None <==> !(old(self).index < old(self).input@.len()
                && starts_identifier(old(self).input@[old(self).index as int])),
            r matches Some(id) ==> id@ == old(self).input@.subrange(old(self).index as int, final(self).index as int),
            r is Some ==> forall|j: int| old(self).index < j < final(self).index
                ==> continues_identifier(#[trigger] old(self).input@[j]),
            r is Some ==> final(self).index == ident_end(old(self).input@, old(self).index + 1),
    {
        let c = self.this();
        if !self.is_at_end() && (is_alphabetic(c) || c == '_' || c == '$') {
            let mut buffer: Vec<char> = vec![c];
            self.advance();
            while !self.is_at_end() && (is_alphanumeric(self.this()) || self.this() == '_')
                invariant
                    self.wf(),
                    self.index > old(self).index,
                    buffer@ == self.input@.subrange(old(self).index as int, self.index as int),
                    ident_end(self.input@, old(self).index + 1) == ident_end(self.input@, self.index as int),
                    forall|j: int| old(self).index < j < self.index ==> continues_identifier(#[trigger] self.input@[j]),
                    self.input == old(self).input,
                    self.tokens == old(self).tokens,
                    self.errors == old(self).errors,
                    self.indent_level == old(self).indent_level,
                    self.indent_size == old(self).indent_size,
                    self.indent_format == old(self).indent_format,
                decreases self.input@.len() - self.index,
            {
                let ghost before = buffer@;
                buffer.push(self.this());
                self.advance();
                assert(buffer@ =~= self.input@.subrange(old(self).index as int, self.index as int));
            }
            Some(string_of(&buffer))
        } else {
            None
        }
    }

    /// The keyword that `s` spells, if any.
    fn try_convert_to_keyword(s: &String) -> (r: Option<TokenKind>)
        ensures
            r == keyword_of(s@),
    {
        if *s == "task".to_owned() {
            Some(TokenKind::KwTask)
        } else if *s == "true".to_owned() {
            Some(TokenKind::KwTrue)
        } else if *s == "false".to_owned() {
            Some(TokenKind::KwFalse)
        } else if *s == "null".to_owned() {
            Some(TokenKind::KwNull)
        } else if *s == "if".to_owned() {
            Some(TokenKind::KwIf)
        } else if *s == "while".to_owned() {
            Some(TokenKind::KwWhile)
        } else if *s == "loop".to_owned() {
            Some(TokenKind::KwLoop)
        } else if *s == "exit".to_owned() {
            Some(TokenKind::KwExit)
        } else {
            None
        }
    }

    /// Reads the indentation at the start of a line, skipping blank lines, and
    /// gives its level: the number of whole indentation steps.
    fn consume_all_indentation(&mut self) -> (r: Result<usize, TokenizerError>)
        requires
            old(self).wf(),
        ensures
            final(self).wf(),
            final(self).index >= old(self).index,
            final(self).input == old(self).input,
            final(self).tokens == old(self).tokens,
            final(self).errors == old(self).errors,
            final(self).indent_level == old(self).indent_level,
            ({
                let (res, j, sz, fmt) = indentation(
                    old(self).input@,
                    old(self).index as int,
                    old(self).indent_size as int,
                    old(self).indent_format,
                );
                &&& final(self).index == j
                &&& final(self).indent_size == sz
                &&& final(self).indent_format == fmt
                &&& match r {
                    Ok(l) => res == Some(l as int),
                    Err(_) => res is None,
                }
            }),
        decreases old(self).input@.len() - old(self).index,
    {
        let ghost input = self.input@;
        let ghost i0 = self.index as int;
        while !self.is_at_end() && self.this() == '\n'
            invariant
                self.wf(),
                self.index >= old(self).index,
                self.input == old(self).input,
                input == self.input@,
                self.tokens == old(self).tokens,
                self.errors == old(self).errors,
                self.indent_level == old(self).indent_level,
                self.indent_size == old(self).indent_size,
                self.indent_format == old(self).indent_format,
                breaks_end(input, i0) == breaks_end(input, self.index as int),
            decreases self.input@.len() - self.index,
        {
            self.advance();
        }
        let ghost j = self.index as int;
        let given = match self.consume_one_indentation() {
            Some(f) => f,
            None => return Ok(0),
        };
        let mut set_indent_size = false;
        if self.indent_size > 0 {
            if self.indent_format != given {
                return Err(TokenizerError::new("indentation format mismatch"));
            }
        } else {
            self.indent_format = given;
            set_indent_size = true;
        }
        let ghost fc = format_char(self.indent_format);
        let mut current: usize = 1;
        loop
            invariant
                self.wf(),
                self.index > old(self).index,
                input == self.input@,
                j + current == self.index,
                0 <= j < self.index,
                1 <= current <= self.index,
                set_indent_size <==> old(self).indent_size == 0,
                self.indent_size == old(self).indent_size,
                fc == format_char(self.indent_format),
                self.indent_format == (if old(self).indent_size > 0 { old(self).indent_format } else { given }),
                indentation_of(input[j]) == Some(given),
                old(self).indent_size > 0 ==> old(self).indent_format == given,
                breaks_end(input, i0) == j,
                i0 == old(self).index,
                run_end(input, j + 1, fc) == run_end(input, self.index as int, fc),
                self.input == old(self).input,
                self.tokens == old(self).tokens,
                self.errors == old(self).errors,
                self.indent_level == old(self).indent_level,
            decreases self.input@.len() - self.index,
        {
            match self.consume_one_indentation() {
                None => {
                    proof {
                        assert(indentation_of(fc) is Some);
                        assert(run_end(input, self.index as int, fc) == self.index);
                    }
                    if !self.is_at_end() && self.this() == '\n' {
                        // A line of nothing but indentation is blank: try the next.
                        self.advance();
                        return self.consume_all_indentation();
                    }
                    if set_indent_size {
                        self.indent_size = current;
                    }
                    if current % self.indent_size != 0 {
                        return Err(TokenizerError::new("incomplete indentation"));
                    }
                    return Ok(current / self.indent_size);
                },
                Some(f) => {
                    if f != self.indent_format {
                        return Err(TokenizerError::new("indentation mismatch"));
                    }
                    current = current + 1;
                },
            }
        }
    }

    /// Reads one tab or space.
    fn consume_one_indentation(&mut self) -> (r: Option<IndentFormat>)
        requires
            old(self).wf(),
        ensures
            final(self).wf(),
            r is Some ==> final(self).index == old(self).index + 1,
            r is None ==> final(self).index == old(self).index,
            final(self).same_apart_from_index(old(self)),
            r == (if old(self).index < old(self).input@.len() {
                indentation_of(old(self).input@[old(self).index as int])
            } else {
                None
            }),
    {
        if self.is_at_end() {
            return None;
        }
        match self.this() {
            '\t' => {
                self.advance();
                Some(IndentFormat::Tabs)
            },
            ' ' => {
                self.advance();
                Some(IndentFormat::Spaces)
            },
            _ => None,
        }
    }

    fn push_unexpected_error(&mut self)
        ensures
            final(self).index == old(self).index,
            final(self).input == old(self).input,
            final(self).indent_level == old(self).indent_level,
            final(self).indent_size == old(self).indent_size,
            final(self).indent_format == old(self).indent_format,
            final(self).tokens == old(self).tokens,
            final(self).errors@ == old(self).errors@.push(final(self).errors@.last()),
    {
        self.errors.push(TokenizerError::new("unexpected character"));
    }
}

/// A character that can start an identifier.
pub open spec fn starts_identifier(c: char) -> bool {
    alphabetic(c) || c == '_' || c == '$'
}

/// A character that can continue an identifier.
pub open spec fn continues_identifier(c: char) -> bool {
    alphanumeric(c) || c == '_'
}

/// Whether `c` is alphabetic in Unicode's sense.
pub uninterp spec fn alphabetic(c: char) -> bool;

/// Whether `c` is alphabetic or numeric in Unicode's sense.
pub uninterp spec fn alphanumeric(c: char) -> bool;

/// Whether `c` is white space in Unicode's sense.
pub uninterp spec fn whitespace(c: char) -> bool;

/// Relies on char::is_alphabetic.
#[verifier::external_body]
fn is_alphabetic(c: char) -> (r: bool)
    ensures
        r == alphabetic(c),
{
    c.is_alphabetic()
}

/// Relies on char::is_alphanumeric.
#[verifier::external_body]
fn is_alphanumeric(c: char) -> (r: bool)
    ensures
        r == alphanumeric(c),
{
    c.is_alphanumeric()
}

/// Relies on char::is_whitespace.
#[verifier::external_body]
fn is_whitespace(c: char) -> (r: bool)
    ensures
        r == whitespace(c),
{
    c.is_whitespace()
}

/// Relies on `String: FromIterator<char>`: the characters in order.
#[verifier::external_body]
fn string_of(chars: &Vec<char>) -> (r: String)
    ensures
        r@ == chars@,
{
    chars.iter().collect()
}

pub open spec fn is_digit(c: char) -> bool {
    '0' <= c <= '9'
}

/// The kind of token a single character stands for, if it is one.
fn single_char(c: char) -> (r: Option<TokenKind>)
    ensures
        r == single_char_kind(c),
{
    match c {
        '?' => Some(TokenKind::QuestionMark),
        '+' => Some(TokenKind::Add),
        '-' => Some(TokenKind::Subtract),
        '*' => Some(TokenKind::Multiply),
        '/' => Some(TokenKind::Divide),
        '(' => Some(TokenKind::LeftParen),
        ')' => Some(TokenKind::RightParen),
        '[' => Some(TokenKind::LeftBrace),
        ']' => Some(TokenKind::RightBrace),
        ',' => Some(TokenKind::Comma),
        '>' => Some(TokenKind::GreaterThan),
        '<' => Some(TokenKind::LessThan),
        _ => None,
    }
}

pub fn is_ascii_digit(c: char) -> (r: bool)
    ensures
        r == is_digit(c),
{
    '0' <= c && c <= '9'
}

pub open spec fn digit_value(c: char) -> int {
    (c as u32) as int - ('0' as u32) as int
}

/// The number that a string of decimal digits denotes.
pub open spec fn digits_value(s: Seq<char>) -> int
    decreases s.len(),
{
    if s.len() == 0 {
        0
    } else {
        digits_value(s.drop_last()) * 10 + digit_value(s.last())
    }
}

pub proof fn lemma_digits_value_grows(s: Seq<char>, k: int)
    requires
        0 <= k <= s.len(),
        forall|i: int| 0 <= i < s.len() ==> is_digit(#[trigger] s[i]),
    ensures
        0 <= digits_value(s.subrange(0, k)) <= digits_value(s),
    decreases s.len(),
{
    if k < s.len() {
        let t = s.drop_last();
        assert(t.subrange(0, k) =~= s.subrange(0, k));
        lemma_digits_value_grows(t, k);
    } else {
        assert(s.subrange(0, k) =~= s);
        if s.len() > 0 {
            lemma_digits_value_grows(s.drop_last(), s.len() - 1);
        }
    }
}

/// The integer that `digits` denote, negated when `negative`, if it fits in an i64.
pub fn integer_of(digits: &Vec<char>, negative: bool) -> (r: Option<i64>)
    requires
        forall|i: int| 0 <= i < digits@.len() ==> is_digit(#[trigger] digits@[i]),
    ensures
        ({
            let v = if negative { -digits_value(digits@) } else { digits_value(digits@) };
            &&& r is Some <==> i64::MIN <= v <= i64::MAX
            &&& r is Some ==> r->Some_0 == v
        }),
{
    let mut acc: i64 = 0;
    let mut i: usize = 0;
    while i < digits.len()
        invariant
            i <= digits.len(),
            forall|j: int| 0 <= j < digits@.len() ==> is_digit(#[trigger] digits@[j]),
            acc == if negative { -digits_value(digits@.subrange(0, i as int)) } else { digits_value(digits@.subrange(0, i as int)) },
        decreases digits.len() - i,
    {
        let d = (digits[i] as u32 - '0' as u32) as i64;
        proof {
            assert(digits@.subrange(0, i + 1).drop_last() =~= digits@.subrange(0, i as int));
        }
        let next = if negative {
            match acc.checked_mul(10) {
                Some(m) => m.checked_sub(d),
                None => None,
            }
        } else {
            match acc.checked_mul(10) {
                Some(m) => m.checked_add(d),
                None => None,
            }
        };
        match next {
            Some(n) => {
                acc = n;
            },
            None => {
                proof {
                    lemma_digits_value_grows(digits@, i + 1);
                }
                return None;
            },
        }
        i = i + 1;
    }
    proof {
        assert(digits@.subrange(0, digits@.len() as int) =~= digits@);
    }
    Some(acc)
}

/// The keyword that `s` spells, if any.
pub open spec fn keyword_of(s: Seq<char>) -> Option<TokenKind> {
    if s == "task"@ {
        Some(TokenKind::KwTask)
    } else if s == "true"@ {
        Some(TokenKind::KwTrue)
    } else if s == "false"@ {
        Some(TokenKind::KwFalse)
    } else if s == "null"@ {
        Some(TokenKind::KwNull)
    } else if s == "if"@ {
        Some(TokenKind::KwIf)
    } else if s == "while"@ {
        Some(TokenKind::KwWhile)
    } else if s == "loop"@ {
        Some(TokenKind::KwLoop)
    } else if s == "exit"@ {
        Some(TokenKind::KwExit)
    } else {
        None
    }
}

} // verus!
