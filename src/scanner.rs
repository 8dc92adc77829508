//! The scanner: groups the characters of a source text into tokens, tracking
//! line and column, or stops at the first lexical error.
use vstd::prelude::*;

use crate::scanner_error::{ScanErrorModel, ScannerError};
use crate::text::{char_string, text_equals};
use crate::token::{LiteralModel, Token, TokenLiteral, TokenModel, TokenPosition, TokenType};

verus! {

pub open spec fn is_digit(c: char) -> bool {
    '0' <= c && c <= '9'
}

pub open spec fn is_letter(c: char) -> bool {
    ('a' <= c && c <= 'z') || ('A' <= c && c <= 'Z')
}

/// Whitespace other than a newline.
pub open spec fn is_blank(c: char) -> bool {
    c == ' ' || c == '\t' || c == '\r'
}

/// The characters that begin a number.
pub open spec fn is_number_start(c: char) -> bool {
    c == '-' || c == '+' || c == '.' || is_digit(c)
}

/// The token type of a single-character punctuation mark.
pub open spec fn punctuation(c: char) -> Option<TokenType> {
    if c == '{' {
        Some(TokenType::LeftBrace)
    } else if c == '}' {
        Some(TokenType::RightBrace)
    } else if c == '[' {
        Some(TokenType::LeftBracket)
    } else if c == ']' {
        Some(TokenType::RightBracket)
    } else if c == ':' {
        Some(TokenType::Colon)
    } else if c == ',' {
        Some(TokenType::Comma)
    } else {
        None
    }
}

/// The end of the run of digits that starts at `j`.
pub open spec fn digits_end(src: Seq<char>, j: int) -> int
    decreases src.len() - j,
{
    if 0 <= j < src.len() && is_digit(src[j]) {
        digits_end(src, j + 1)
    } else {
        j
    }
}

/// The end of the run of letters that starts at `j`.
pub open spec fn letters_end(src: Seq<char>, j: int) -> int
    decreases src.len() - j,
{
    if 0 <= j < src.len() && is_letter(src[j]) {
        letters_end(src, j + 1)
    } else {
        j
    }
}

/// The index of the quote that closes a string whose contents start at
/// `j`, or the length of `src` when no quote closes it. A backslash escapes
/// the character after it, so an escaped quote does not close the string;
/// nothing is decoded.
pub open spec fn closing_quote(src: Seq<char>, j: int) -> int
    decreases src.len() - j,
{
    if 0 <= j < src.len() && src[j] != '"' {
        if src[j] == '\\' && j + 1 < src.len() {
            closing_quote(src, j + 2)
        } else {
            closing_quote(src, j + 1)
        }
    } else {
        j
    }
}

/// Whether the number that starts at `i` has a point after the run of
/// digits that follows its first character.
pub open spec fn has_point(src: Seq<char>, i: int) -> bool {
    let a = digits_end(src, i + 1);
    a < src.len() && src[a] == '.'
}

/// The end of the number that starts at `i`: its first character (a sign,
/// a point or a digit), a run of digits, then optionally a point and another
/// run of digits.
pub open spec fn number_end(src: Seq<char>, i: int) -> int {
    let a = digits_end(src, i + 1);
    if has_point(src, i) {
        digits_end(src, a + 1)
    } else {
        a
    }
}

/// Whether the number that starts at `i` is a decimal: it holds at least one
/// digit and at most one point.
pub open spec fn number_is_valid(src: Seq<char>, i: int) -> bool {
    let a = digits_end(src, i + 1);
    let has_digit = is_digit(src[i]) || a > i + 1 || (has_point(src, i) && digits_end(src, a + 1)
        > a + 1);
    has_digit && !(src[i] == '.' && has_point(src, i))
}

/// The end of the lexeme that starts at `i`.
pub open spec fn lexeme_end(src: Seq<char>, i: int) -> int {
    let c = src[i];
    if c == '"' {
        let q = closing_quote(src, i + 1);
        if q < src.len() {
            q + 1
        } else {
            q
        }
    } else if is_number_start(c) {
        number_end(src, i)
    } else if is_letter(c) {
        letters_end(src, i)
    } else {
        i + 1
    }
}

/// The line and column reached from `line` and `col` after the characters
/// `src[i..e)`: a newline starts the next line at column 1, any other
/// character moves one column on.
pub open spec fn walk(src: Seq<char>, i: int, e: int, line: int, col: int) -> (int, int)
    decreases e - i,
{
    if e <= i {
        (line, col)
    } else {
        let w = walk(src, i, e - 1, line, col);
        if src[e - 1] == '\n' {
            (w.0 + 1, 1)
        } else {
            (w.0, w.1 + 1)
        }
    }
}

/// What the lexeme that starts at `i` does.
pub enum LexStep {
    /// Blank space or a newline: no token.
    Skip,
    /// A token.
    Emit(TokenModel),
    /// A lexical error.
    Fail(ScanErrorModel),
}

/// The outcome of the lexeme that starts at `i`, on the given line and at
/// the given column.
pub open spec fn step(src: Seq<char>, i: int, line: int, col: int) -> LexStep {
    let c = src[i];
    let e = lexeme_end(src, i);
    let pos = TokenPosition::at(line, col, col + (e - i));
    if c == '\n' || is_blank(c) {
        LexStep::Skip
    } else if punctuation(c) is Some {
        LexStep::Emit(
            TokenModel {
                kind: punctuation(c)->Some_0,
                literal: LiteralModel::Text(seq![c]),
                position: pos,
            },
        )
    } else if c == '"' {
        if e <= src.len() && closing_quote(src, i + 1) < src.len() {
            LexStep::Emit(
                TokenModel {
                    kind: TokenType::String,
                    literal: LiteralModel::Text(src.subrange(i + 1, e - 1)),
                    position: pos,
                },
            )
        } else {
            LexStep::Fail(ScanErrorModel::UnterminatedString(pos))
        }
    } else if is_number_start(c) {
        if number_is_valid(src, i) {
            LexStep::Emit(
                TokenModel {
                    kind: TokenType::Number,
                    literal: LiteralModel::Number(src.subrange(i, e)),
                    position: pos,
                },
            )
        } else {
            LexStep::Fail(
                ScanErrorModel::UnknownCharacter(TokenPosition::at(line, col, col + 1), c),
            )
        }
    } else if is_letter(c) {
        let word = src.subrange(i, e);
        if word == "true"@ {
            LexStep::Emit(
                TokenModel {
                    kind: TokenType::True,
                    literal: LiteralModel::Bool(true),
                    position: pos,
                },
            )
        } else if word == "false"@ {
            LexStep::Emit(
                TokenModel {
                    kind: TokenType::False,
                    literal: LiteralModel::Bool(false),
                    position: pos,
                },
            )
        } else if word == "null"@ {
            LexStep::Emit(
                TokenModel { kind: TokenType::Null, literal: LiteralModel::Null, position: pos },
            )
        } else {
            LexStep::Fail(ScanErrorModel::UnknownLiteral(pos, word))
        }
    } else {
        LexStep::Fail(ScanErrorModel::UnknownCharacter(pos, c))
    }
}

/// Puts `ts` in front of the tokens of a scan, keeping an error as it is.
pub open spec fn prepend(
    ts: Seq<TokenModel>,
    r: Result<Seq<TokenModel>, ScanErrorModel>,
) -> Result<Seq<TokenModel>, ScanErrorModel> {
    match r {
        Ok(rest) => Ok(ts + rest),
        Err(e) => Err(e),
    }
}

/// The tokens of `src` from index `i` on, starting on `line` at `col`, or the
/// first lexical error.
pub open spec fn lex(src: Seq<char>, i: int, line: int, col: int) -> Result<
    Seq<TokenModel>,
    ScanErrorModel,
>
    decreases src.len() - i,
    via lex_decreases
{
    if i < 0 || i >= src.len() {
        Ok(Seq::empty())
    } else {
        let e = lexeme_end(src, i);
        let w = walk(src, i, e, line, col);
        match step(src, i, line, col) {
            LexStep::Skip => lex(src, e, w.0, w.1),
            LexStep::Emit(t) => prepend(seq![t], lex(src, e, w.0, w.1)),
            LexStep::Fail(x) => Err(x),
        }
    }
}

/// The tokens of a whole source text, or the first lexical error.
pub open spec fn scanned(src: Seq<char>) -> Result<Seq<TokenModel>, ScanErrorModel> {
    lex(src, 0, 1, 1)
}

proof fn lemma_digits_end(src: Seq<char>, j: int)
    requires
        0 <= j <= src.len(),
    ensures
        j <= digits_end(src, j) <= src.len(),
        forall|k: int| j <= k < digits_end(src, j) ==> is_digit(src[k]),
    decreases src.len() - j,
{
    if j < src.len() && is_digit(src[j]) {
        lemma_digits_end(src, j + 1);
    }
}

proof fn lemma_letters_end(src: Seq<char>, j: int)
    requires
        0 <= j <= src.len(),
    ensures
        j <= letters_end(src, j) <= src.len(),
        forall|k: int| j <= k < letters_end(src, j) ==> is_letter(src[k]),
    decreases src.len() - j,
{
    if j < src.len() && is_letter(src[j]) {
        lemma_letters_end(src, j + 1);
    }
}

proof fn lemma_quote(src: Seq<char>, j: int)
    requires
        0 <= j <= src.len(),
    ensures
        j <= closing_quote(src, j) <= src.len(),
        closing_quote(src, j) < src.len() ==> src[closing_quote(src, j)] == '"',
    decreases src.len() - j,
{
    if j < src.len() && src[j] != '"' {
        if src[j] == '\\' && j + 1 < src.len() {
            lemma_quote(src, j + 2);
        } else {
            lemma_quote(src, j + 1);
        }
    }
}

proof fn lemma_walk_bounds(src: Seq<char>, i: int, e: int, line: int, col: int)
    requires
        i <= e,
        1 <= col,
    ensures
        line <= walk(src, i, e, line, col).0 <= line + (e - i),
        1 <= walk(src, i, e, line, col).1 <= col + (e - i),
    decreases e - i,
{
    if e > i {
        lemma_walk_bounds(src, i, e - 1, line, col);
    }
}

proof fn lemma_walk_plain(src: Seq<char>, i: int, e: int, line: int, col: int)
    requires
        i <= e,
        forall|k: int| i <= k < e ==> src[k] != '\n',
    ensures
        walk(src, i, e, line, col) == (line, col + (e - i)),
    decreases e - i,
{
    if e > i {
        lemma_walk_plain(src, i, e - 1, line, col);
    }
}

/// Only strings and newlines carry a newline within their lexeme.
proof fn lemma_lexeme_plain(src: Seq<char>, i: int)
    requires
        0 <= i < src.len(),
        src[i] != '"',
        src[i] != '\n',
    ensures
        forall|k: int| i <= k < lexeme_end(src, i) ==> src[k] != '\n',
{
    let c = src[i];
    if is_number_start(c) {
        lemma_digits_end(src, i + 1);
        let a = digits_end(src, i + 1);
        if has_point(src, i) {
            lemma_digits_end(src, a + 1);
            assert forall|k: int| i <= k < lexeme_end(src, i) implies src[k] != '\n' by {
                if k > i && k < a {
                    assert(is_digit(src[k]));
                } else if k > a {
                    assert(is_digit(src[k]));
                }
            }
        } else {
            assert forall|k: int| i <= k < lexeme_end(src, i) implies src[k] != '\n' by {
                if k > i {
                    assert(is_digit(src[k]));
                }
            }
        }
    } else if is_letter(c) {
        lemma_letters_end(src, i);
        assert forall|k: int| i <= k < lexeme_end(src, i) implies src[k] != '\n' by {
            assert(is_letter(src[k]));
        }
    }
}

/// A lexeme is never empty and never runs past the end of the text.
pub proof fn lemma_lexeme_end(src: Seq<char>, i: int)
    requires
        0 <= i < src.len(),
    ensures
        i < lexeme_end(src, i) <= src.len(),
{
    let c = src[i];
    if c == '"' {
        lemma_quote(src, i + 1);
    } else if is_number_start(c) {
        lemma_digits_end(src, i + 1);
        let a = digits_end(src, i + 1);
        if has_point(src, i) {
            lemma_digits_end(src, a + 1);
        }
    } else if is_letter(c) {
        lemma_letters_end(src, i + 1);
    }
}

#[via_fn]
proof fn lex_decreases(src: Seq<char>, i: int, line: int, col: int) {
    if 0 <= i < src.len() {
        lemma_lexeme_end(src, i);
    }
}


/// The models of a sequence of tokens.
pub open spec fn tokens_model(v: Seq<Token>) -> Seq<TokenModel> {
    v.map_values(|t: Token| t@)
}

/// The character at index `j`, if there is one.
pub open spec fn char_at(src: Seq<char>, j: int) -> Option<char> {
    if 0 <= j < src.len() {
        Some(src[j])
    } else {
        None
    }
}

/// Groups the characters of a source text into tokens.
///
/// `current` and `start` are character offsets: the cursor and the start of
/// the lexeme under construction. `[column_start, column_end)` is the column
/// window of that lexeme on `line`.
#[derive(Debug)]
pub struct Scanner {
    pub source: String,
    pub start: usize,
    pub current: usize,
    pub line: i32,
    pub column_start: i32,
    pub column_end: i32,
}

impl Scanner {
    /// Between two lexemes, with room for the rest of the text in the line
    /// and column counters.
    pub open spec fn ready(&self) -> bool {
        let rest = self.source@.len() - self.current;
        &&& self.source@.len() < i32::MAX
        &&& self.current <= self.source@.len()
        &&& self.column_start == self.column_end
        &&& 1 <= self.line
        &&& 1 <= self.column_start
        &&& self.line + rest < i32::MAX
        &&& self.column_start + rest < i32::MAX
    }

    /// Inside a lexeme: its first character has been consumed, and the
    /// column window covers exactly what was consumed.
    pub open spec fn in_lexeme(&self) -> bool {
        let rest = self.source@.len() - self.start;
        &&& self.source@.len() < i32::MAX
        &&& self.start < self.current <= self.source@.len()
        &&& self.column_end - self.column_start == self.current - self.start
        &&& 1 <= self.line < i32::MAX
        &&& 1 <= self.column_start
        &&& self.column_start + rest < i32::MAX
    }

    /// The position of the lexeme under construction.
    pub open spec fn window(&self) -> TokenPosition {
        TokenPosition::at(self.line as int, self.column_start as int, self.column_end as int)
    }

    /// After one call of `eval` from `s0`, `s1` and `r` are what `step` says.
    pub open spec fn eval_agrees(
        s0: Scanner,
        s1: Scanner,
        r: Result<Option<Token>, ScannerError>,
    ) -> bool {
        let src = s0.source@;
        let i = s0.current as int;
        let e = lexeme_end(src, i);
        let col = s0.column_start as int;
        let w = walk(src, i, e, s0.line as int, col);
        let moved = {
            &&& s1.source == s0.source
            &&& s1.start == s0.current
            &&& s1.current == e
            &&& s1.line == w.0
            &&& s1.column_start == w.1
            &&& s1.column_end == w.1
        };
        match step(src, i, s0.line as int, col) {
            LexStep::Skip => r matches Ok(None) && moved,
            LexStep::Emit(t) => r matches Ok(Some(tok)) && tok@ == t && moved,
            LexStep::Fail(x) => r matches Err(err) && err@ == x && moved,
        }
    }

    pub fn new(source: &str) -> (r: Self)
        ensures
            r.source@ == source@,
            r.start == 0,
            r.current == 0,
            r.line == 1,
            r.column_start == 1,
            r.column_end == 1,
            source@.len() < i32::MAX - 1 ==> r.ready(),
    {
        Scanner {
            source: String::from_str(source),
            start: 0,
            current: 0,
            line: 1,
            column_start: 1,
            column_end: 1,
        }
    }

    /// Scans the rest of the source into tokens, or fails at the first
    /// lexical error. On a new scanner this is `scanned` of the source.
    pub fn scan(&mut self) -> (r: Result<Vec<Token>, ScannerError>)
        requires
            old(self).ready(),
        ensures
            final(self).source == old(self).source,
            match lex(
                old(self).source@,
                old(self).current as int,
                old(self).line as int,
                old(self).column_start as int,
            ) {
                Ok(ts) => r matches Ok(v) && tokens_model(v@) == ts,
                Err(x) => r matches Err(err) && err@ == x,
            },
            r matches Ok(v) ==> forall|k: int|
                0 <= k < v@.len() ==> sound_position(#[trigger] v@[k].token_position),
    {
        let ghost src = self.source@;
        let ghost goal = lex(src, self.current as int, self.line as int, self.column_start as int);
        let mut tokens: Vec<Token> = Vec::new();
        assert(tokens_model(tokens@) =~= Seq::<TokenModel>::empty());
        assert(prepend(Seq::empty(), goal) =~= goal) by {
            match goal {
                Ok(rest) => assert(Seq::<TokenModel>::empty() + rest =~= rest),
                Err(_) => {},
            }
        }
        while self.peek().is_some()
            invariant
                self.ready(),
                self.source == old(self).source,
                self.source@ == src,
                src == old(self).source@,
                goal == lex(
                    src,
                    old(self).current as int,
                    old(self).line as int,
                    old(self).column_start as int,
                ),
                goal == prepend(
                    tokens_model(tokens@),
                    lex(src, self.current as int, self.line as int, self.column_start as int),
                ),
            decreases src.len() - self.current,
        {
            let ghost s0 = *self;
            let ghost ts0 = tokens_model(tokens@);
            proof {
                lemma_lexeme_end(src, s0.current as int);
                lemma_walk_bounds(
                    src,
                    s0.current as int,
                    lexeme_end(src, s0.current as int),
                    s0.line as int,
                    s0.column_start as int,
                );
            }
            match self.eval() {
                Ok(Some(token)) => {
                    tokens.push(token);
                    proof {
                        let t = seq![token@];
                        assert(tokens_model(tokens@) =~= ts0 + t);
                        if let Ok(more) = lex(
                            src,
                            self.current as int,
                            self.line as int,
                            self.column_start as int,
                        ) {
                            assert(ts0 + (t + more) =~= (ts0 + t) + more);
                        }
                    }
                },
                Ok(None) => {},
                Err(err) => {
                    assert(step(src, s0.current as int, s0.line as int, s0.column_start as int)
                        matches LexStep::Fail(x) && x == err@);
                    return Err(err);
                },
            }
        }
        proof {
            assert(tokens_model(tokens@) + Seq::<TokenModel>::empty() =~= tokens_model(tokens@));
            lemma_lex_positions(
                src,
                old(self).current as int,
                old(self).line as int,
                old(self).column_start as int,
            );
            let ts = tokens_model(tokens@);
            assert(goal == Ok::<Seq<TokenModel>, ScanErrorModel>(ts));
            assert forall|k: int| 0 <= k < tokens@.len() implies sound_position(
                #[trigger] tokens@[k].token_position,
            ) by {
                assert(ts.len() == tokens@.len());
                assert(ts[k] == tokens@[k]@);
                assert(sound_position(ts[k].position));
            }
        }
        Ok(tokens)
    }

    /// Consumes one lexeme: blank space and newlines give no token, any
    /// other lexeme gives one token or an error.
    pub fn eval(&mut self) -> (r: Result<Option<Token>, ScannerError>)
        requires
            old(self).ready(),
            old(self).current < old(self).source@.len(),
        ensures
            final(self).source == old(self).source,
            Scanner::eval_agrees(*old(self), *final(self), r),
    {
        let ghost s0 = *self;
        let ghost src = self.source@;
        let ghost i = self.current as int;
        proof {
            lemma_lexeme_end(src, i);
            let e = lexeme_end(src, i);
            if src[i] == '\n' {
                reveal_with_fuel(walk, 2);
            } else if src[i] != '"' {
                lemma_lexeme_plain(src, i);
                lemma_walk_plain(src, i, e, s0.line as int, s0.column_start as int);
            }
        }
        self.start = self.current;
        let c = self.next().unwrap();
        let res = if c == '\n' {
            self.line = self.line + 1;
            self.column_start = 1;
            self.column_end = 1;
            Ok(None)
        } else if c == ' ' || c == '\t' || c == '\r' {
            Ok(None)
        } else if let Some(kind) = punctuation_of(c) {
            Ok(Some(self.create_token(kind, TokenLiteral::String(char_string(c)))))
        } else if c == '"' {
            self.eval_string()
        } else if c == '-' || c == '+' || c == '.' || self.is_numeric(c) {
            self.eval_numeric()
        } else if self.is_alpha(c) {
            self.eval_keyword()
        } else {
            Err(
                ScannerError::UnknownCharacter(
                    TokenPosition::new(self.line, self.column_start, self.column_end),
                    c,
                ),
            )
        };
        self.column_start = self.column_end;
        res
    }

    /// The rest of a string, after its opening quote, up to the first quote
    /// that no backslash escapes. The token holds what stands between the
    /// quotes, escapes left as they are, and its window starts at the opening
    /// quote and spans every character of the lexeme. A newline inside the
    /// string starts a new line for what follows.
    fn eval_string(&mut self) -> (r: Result<Option<Token>, ScannerError>)
        requires
            old(self).in_lexeme(),
            old(self).current == old(self).start + 1,
            old(self).source@[old(self).start as int] == '"',
            old(self).line + (old(self).source@.len() - old(self).start) < i32::MAX,
        ensures
            final(self).source == old(self).source,
            final(self).start == old(self).start,
            final(self).column_start == old(self).column_start,
            final(self).current == lexeme_end(old(self).source@, old(self).start as int),
            (final(self).line as int, final(self).column_end as int) == walk(
                old(self).source@,
                old(self).start as int,
                final(self).current as int,
                old(self).line as int,
                old(self).column_start as int,
            ),
            match step(
                old(self).source@,
                old(self).start as int,
                old(self).line as int,
                old(self).column_start as int,
            ) {
                LexStep::Emit(t) => r matches Ok(Some(tok)) && tok@ == t,
                LexStep::Fail(x) => r matches Err(err) && err@ == x,
                _ => false,
            },
    {
        let ghost src = self.source@;
        let ghost i = self.start as int;
        let line0 = self.line;
        let col0 = self.column_start;
        let n = self.source.as_str().unicode_len();
        proof {
            lemma_quote(src, i + 1);
            reveal_with_fuel(walk, 2);
        }
        while self.current < n && self.source.as_str().get_char(self.current) != '"'
            invariant
                i + 1 <= self.current <= n,
                self.source == old(self).source,
                self.source@ == src,
                n == src.len(),
                self.start == i,
                self.column_start == col0,
                1 <= col0,
                line0 + (n - i) < i32::MAX,
                col0 + (n - i) < i32::MAX,
                (self.line as int, self.column_end as int) == walk(
                    src,
                    i,
                    self.current as int,
                    line0 as int,
                    col0 as int,
                ),
                closing_quote(src, self.current as int) == closing_quote(src, i + 1),
            decreases n - self.current,
        {
            proof {
                lemma_walk_bounds(src, i, self.current as int, line0 as int, col0 as int);
            }
            if self.source.as_str().get_char(self.current) == '\\' && self.current + 1 < n {
                self.next_in_string();
                proof {
                    lemma_walk_bounds(src, i, self.current as int, line0 as int, col0 as int);
                }
            }
            self.next_in_string();
        }
        if self.current >= n {
            return Err(
                ScannerError::UnterminatedString(
                    TokenPosition::new(line0, col0, col0 + (self.current - self.start) as i32),
                ),
            );
        }
        proof {
            lemma_walk_bounds(src, i, self.current as int, line0 as int, col0 as int);
        }
        self.next_in_string();
        let sub = self.source.as_str().substring_char(self.start + 1, self.current - 1);
        Ok(
            Some(
                Token::new(
                    TokenType::String,
                    TokenLiteral::String(String::from_str(sub)),
                    TokenPosition::new(line0, col0, col0 + (self.current - self.start) as i32),
                ),
            ),
        )
    }

    /// Consumes the character at the cursor inside a string: a newline there
    /// starts a new line at column 1.
    fn next_in_string(&mut self)
        requires
            old(self).current < old(self).source@.len(),
            old(self).current < usize::MAX,
            old(self).column_end < i32::MAX,
            old(self).line < i32::MAX,
        ensures
            final(self).source == old(self).source,
            final(self).start == old(self).start,
            final(self).column_start == old(self).column_start,
            final(self).current == old(self).current + 1,
            old(self).source@[old(self).current as int] == '\n' ==> final(self).line == old(
                self,
            ).line + 1 && final(self).column_end == 1,
            old(self).source@[old(self).current as int] != '\n' ==> final(self).line == old(
                self,
            ).line && final(self).column_end == old(self).column_end + 1,
    {
        match self.next() {
            Some('\n') => {
                self.line = self.line + 1;
                self.column_end = 1;
            },
            _ => {},
        }
    }

    /// The rest of a number, after its first character: digits, then
    /// optionally a point and more digits. A number that holds no digit, or
    /// two points, is an unknown character at its first character; the
    /// cursor still ends after what was consumed.
    fn eval_numeric(&mut self) -> (r: Result<Option<Token>, ScannerError>)
        requires
            old(self).in_lexeme(),
            old(self).current == old(self).start + 1,
            is_number_start(old(self).source@[old(self).start as int]),
        ensures
            final(self).source == old(self).source,
            final(self).start == old(self).start,
            final(self).line == old(self).line,
            final(self).column_start == old(self).column_start,
            final(self).in_lexeme(),
            final(self).current == lexeme_end(old(self).source@, old(self).start as int),
            match step(
                old(self).source@,
                old(self).start as int,
                old(self).line as int,
                old(self).column_start as int,
            ) {
                LexStep::Emit(t) => r matches Ok(Some(tok)) && tok@ == t,
                LexStep::Fail(x) => r matches Err(err) && err@ == x,
                _ => false,
            },
    {
        let ghost src = self.source@;
        let ghost i = self.start as int;
        let n = self.source.as_str().unicode_len();
        let first = self.source.as_str().get_char(self.start);
        proof {
            lemma_digits_end(src, i + 1);
        }
        while self.current < n && self.is_numeric(self.source.as_str().get_char(self.current))
            invariant
                self.in_lexeme(),
                self.source == old(self).source,
                self.source@ == src,
                n == src.len(),
                self.start == i,
                self.line == old(self).line,
                self.column_start == old(self).column_start,
                i + 1 <= self.current,
                digits_end(src, self.current as int) == digits_end(src, i + 1),
            decreases n - self.current,
        {
            self.next();
        }
        let ghost a = digits_end(src, i + 1);
        let run_digits = self.current > self.start + 1;
        let mut fraction_digits = false;
        let point = self.current < n && self.source.as_str().get_char(self.current) == '.';
        if point {
            self.next();
            proof {
                lemma_digits_end(src, a + 1);
            }
            while self.current < n && self.is_numeric(self.source.as_str().get_char(self.current))
                invariant
                    self.in_lexeme(),
                    self.source == old(self).source,
                    self.source@ == src,
                    n == src.len(),
                    self.start == i,
                    self.line == old(self).line,
                    self.column_start == old(self).column_start,
                    a + 1 <= self.current,
                    has_point(src, i),
                    digits_end(src, self.current as int) == digits_end(src, a + 1),
                    fraction_digits == (self.current > a + 1),
                decreases n - self.current,
            {
                self.next();
                fraction_digits = true;
            }
        }
        let has_digit = self.is_numeric(first) || run_digits || fraction_digits;
        if !has_digit || (first == '.' && point) {
            return Err(
                ScannerError::UnknownCharacter(
                    TokenPosition::new(self.line, self.column_start, self.column_start + 1),
                    first,
                ),
            );
        }
        let text = self.source.as_str().substring_char(self.start, self.current);
        Ok(Some(self.create_token(TokenType::Number, TokenLiteral::Number(String::from_str(text)))))
    }

    /// The rest of a keyword, after its first letter: a maximal run of
    /// letters that must spell `true`, `false` or `null`.
    fn eval_keyword(&mut self) -> (r: Result<Option<Token>, ScannerError>)
        requires
            old(self).in_lexeme(),
            old(self).current == old(self).start + 1,
            is_letter(old(self).source@[old(self).start as int]),
        ensures
            final(self).source == old(self).source,
            final(self).start == old(self).start,
            final(self).line == old(self).line,
            final(self).column_start == old(self).column_start,
            final(self).in_lexeme(),
            final(self).current == lexeme_end(old(self).source@, old(self).start as int),
            match step(
                old(self).source@,
                old(self).start as int,
                old(self).line as int,
                old(self).column_start as int,
            ) {
                LexStep::Emit(t) => r matches Ok(Some(tok)) && tok@ == t,
                LexStep::Fail(x) => r matches Err(err) && err@ == x,
                _ => false,
            },
    {
        let ghost src = self.source@;
        let n = self.source.as_str().unicode_len();
        proof {
            lemma_letters_end(src, self.current as int);
        }
        while self.current < n && self.is_alpha(self.source.as_str().get_char(self.current))
            invariant
                self.in_lexeme(),
                self.source == old(self).source,
                self.source@ == src,
                n == src.len(),
                self.start == old(self).start,
                self.line == old(self).line,
                self.column_start == old(self).column_start,
                letters_end(src, self.current as int) == letters_end(src, self.start as int),
            decreases n - self.current,
        {
            self.next();
        }
        let word = self.source.as_str().substring_char(self.start, self.current);
        if text_equals(word, "true") {
            Ok(Some(self.create_token(TokenType::True, TokenLiteral::Bool(true))))
        } else if text_equals(word, "false") {
            Ok(Some(self.create_token(TokenType::False, TokenLiteral::Bool(false))))
        } else if text_equals(word, "null") {
            Ok(Some(self.create_token(TokenType::Null, TokenLiteral::Null)))
        } else {
            Err(
                ScannerError::UnknownLiteral(
                    TokenPosition::new(self.line, self.column_start, self.column_end),
                    String::from_str(word),
                ),
            )
        }
    }

    /// A token of the lexeme under construction.
    fn create_token(&self, token_type: TokenType, token_literal: TokenLiteral) -> (r: Token)
        requires
            i32::MIN <= self.column_end - self.column_start <= i32::MAX,
        ensures
            r@ == (TokenModel {
                kind: token_type,
                literal: token_literal@,
                position: self.window(),
            }),
    {
        Token::new(
            token_type,
            token_literal,
            TokenPosition::new(self.line, self.column_start, self.column_end),
        )
    }

    pub fn is_alpha(&self, current_char: char) -> (r: bool)
        ensures
            r == is_letter(current_char),
    {
        (current_char >= 'a' && current_char <= 'z') || (current_char >= 'A' && current_char
            <= 'Z')
    }

    pub fn is_numeric(&self, current_char: char) -> (r: bool)
        ensures
            r == is_digit(current_char),
    {
        current_char >= '0' && current_char <= '9'
    }

    /// The character after the cursor's, if there is one.
    pub fn peek_next(&self) -> (r: Option<char>)
        ensures
            r == char_at(self.source@, self.current + 1),
    {
        let n = self.source.as_str().unicode_len();
        if self.current < n && self.current + 1 < n {
            Some(self.source.as_str().get_char(self.current + 1))
        } else {
            None
        }
    }

    /// Consumes the character at the cursor, if there is one; the cursor
    /// and the column window's end advance either way.
    pub fn next(&mut self) -> (r: Option<char>)
        requires
            old(self).current < usize::MAX,
            old(self).column_end < i32::MAX,
        ensures
            r == char_at(old(self).source@, old(self).current as int),
            final(self).current == old(self).current + 1,
            final(self).column_end == old(self).column_end + 1,
            final(self).source == old(self).source,
            final(self).start == old(self).start,
            final(self).line == old(self).line,
            final(self).column_start == old(self).column_start,
    {
        let c = self.peek();
        self.column_end = self.column_end + 1;
        self.current = self.current + 1;
        c
    }

    /// The character at the cursor, if there is one.
    pub fn peek(&self) -> (r: Option<char>)
        ensures
            r == char_at(self.source@, self.current as int),
    {
        if self.current < self.source.as_str().unicode_len() {
            Some(self.source.as_str().get_char(self.current))
        } else {
            None
        }
    }
}

/// The token type of a punctuation mark.
fn punctuation_of(c: char) -> (r: Option<TokenType>)
    ensures
        r == punctuation(c),
{
    if c == '{' {
        Some(TokenType::LeftBrace)
    } else if c == '}' {
        Some(TokenType::RightBrace)
    } else if c == '[' {
        Some(TokenType::LeftBracket)
    } else if c == ']' {
        Some(TokenType::RightBracket)
    } else if c == ':' {
        Some(TokenType::Colon)
    } else if c == ',' {
        Some(TokenType::Comma)
    } else {
        None
    }
}


/// Blank space or a newline.
pub open spec fn is_whitespace(c: char) -> bool {
    c == '\n' || is_blank(c)
}

proof fn lemma_lex_whitespace(src: Seq<char>, i: int, line: int, col: int)
    requires
        0 <= i,
        forall|k: int| i <= k < src.len() ==> is_whitespace(#[trigger] src[k]),
    ensures
        lex(src, i, line, col) == Ok::<Seq<TokenModel>, ScanErrorModel>(Seq::empty()),
    decreases src.len() - i,
{
    if i < src.len() {
        assert(is_whitespace(src[i]));
        let w = walk(src, i, i + 1, line, col);
        lemma_lex_whitespace(src, i + 1, w.0, w.1);
    }
}

/// A position on a line at or after the first, whose window is well formed
/// and not empty.
pub open spec fn sound_position(p: TokenPosition) -> bool {
    &&& p.wf()
    &&& 1 <= p.line
    &&& 1 <= p.column_start < p.column_end
}

/// Every token of a scan has a sound position, when the line and column
/// counters have room for the rest of the text.
pub proof fn lemma_lex_positions(src: Seq<char>, i: int, line: int, col: int)
    requires
        0 <= i <= src.len(),
        1 <= line,
        1 <= col,
        line + (src.len() - i) < i32::MAX,
        col + (src.len() - i) < i32::MAX,
    ensures
        lex(src, i, line, col) matches Ok(ts) ==> forall|k: int|
            0 <= k < ts.len() ==> sound_position(#[trigger] ts[k].position),
    decreases src.len() - i,
{
    if i < src.len() {
        lemma_lexeme_end(src, i);
        let e = lexeme_end(src, i);
        lemma_walk_bounds(src, i, e, line, col);
        let w = walk(src, i, e, line, col);
        match step(src, i, line, col) {
            LexStep::Skip => lemma_lex_positions(src, e, w.0, w.1),
            LexStep::Emit(t) => {
                lemma_lex_positions(src, e, w.0, w.1);
                if let Ok(rest) = lex(src, e, w.0, w.1) {
                    let ts = seq![t] + rest;
                    assert(sound_position(t.position));
                    assert forall|k: int| 0 <= k < ts.len() implies sound_position(
                        #[trigger] ts[k].position,
                    ) by {
                        if k > 0 {
                            assert(ts[k] == rest[k - 1]);
                        }
                    }
                }
            },
            LexStep::Fail(_) => {},
        }
    }
}

/// A text of whitespace alone scans to no token at all.
pub proof fn lemma_whitespace_scans_empty(src: Seq<char>)
    requires
        forall|k: int| 0 <= k < src.len() ==> is_whitespace(#[trigger] src[k]),
    ensures
        scanned(src) == Ok::<Seq<TokenModel>, ScanErrorModel>(Seq::empty()),
{
    lemma_lex_whitespace(src, 0, 1, 1);
}

} // verus!
