//! Tokens: a classified lexeme with its type, literal value and position.
use vstd::prelude::*;

use crate::text::push_char;

verus! {

/// The kind of a token.
#[derive(Debug, Clone, Copy, PartialEq, Eq, Structural)]
pub enum TokenType {
    LeftBrace,
    RightBrace,
    LeftBracket,
    RightBracket,
    Colon,
    Comma,
    True,
    False,
    Null,
    String,
    Number,
    Identifier,
    Eof,
}

/// Where a token stands: its line and the half-open column window
/// `[column_start, column_end)`, with `span` its width.
#[derive(Debug, Clone, Copy, PartialEq, Eq, Structural)]
pub struct TokenPosition {
    pub line: i32,
    pub column_start: i32,
    pub column_end: i32,
    pub span: i32,
}

impl TokenPosition {
    /// The cached span agrees with the column window.
    pub open spec fn wf(&self) -> bool {
        self.span == self.column_end - self.column_start
    }

    /// The position with the given line and columns, its span derived.
    pub open spec fn at(line: int, column_start: int, column_end: int) -> TokenPosition {
        TokenPosition {
            line: line as i32,
            column_start: column_start as i32,
            column_end: column_end as i32,
            span: (column_end - column_start) as i32,
        }
    }

    pub fn new(line: i32, column_start: i32, column_end: i32) -> (r: Self)
        requires
            i32::MIN <= column_end - column_start <= i32::MAX,
        ensures
            r.line == line,
            r.column_start == column_start,
            r.column_end == column_end,
            r.span == column_end - column_start,
            r.wf(),
            r == TokenPosition::at(line as int, column_start as int, column_end as int),
    {
        TokenPosition { line, column_start, column_end, span: column_end - column_start }
    }
}

/// The value a token carries. A number is kept as the decimal text that was
/// scanned (an optional sign, digits and at most one point), so that no
/// precision is lost before a caller converts it.
#[derive(Debug, PartialEq)]
pub enum TokenLiteral {
    String(String),
    Number(String),
    Bool(bool),
    Null,
}

/// The mathematical value of a `TokenLiteral`.
pub enum LiteralModel {
    Text(Seq<char>),
    Number(Seq<char>),
    Bool(bool),
    Null,
}

impl View for TokenLiteral {
    type V = LiteralModel;

    open spec fn view(&self) -> LiteralModel {
        match self {
            TokenLiteral::String(s) => LiteralModel::Text(s@),
            TokenLiteral::Number(s) => LiteralModel::Number(s@),
            TokenLiteral::Bool(b) => LiteralModel::Bool(*b),
            TokenLiteral::Null => LiteralModel::Null,
        }
    }
}

impl Clone for TokenLiteral {
    fn clone(&self) -> (r: Self)
        ensures
            r == *self,
    {
        match self {
            TokenLiteral::String(s) => TokenLiteral::String(s.clone()),
            TokenLiteral::Number(s) => TokenLiteral::Number(s.clone()),
            TokenLiteral::Bool(b) => TokenLiteral::Bool(*b),
            TokenLiteral::Null => TokenLiteral::Null,
        }
    }
}

/// The index of the first point at or after `j`, or the length of `s`.
pub open spec fn point_at(s: Seq<char>, j: int) -> int
    decreases s.len() - j,
{
    if 0 <= j < s.len() && s[j] != '.' {
        point_at(s, j + 1)
    } else {
        j
    }
}

/// The index of the first character in `[j, end)` that is not a zero, or
/// `end`.
pub open spec fn skip_zeros(s: Seq<char>, j: int, end: int) -> int
    decreases end - j,
{
    if 0 <= j < end && j < s.len() && s[j] == '0' {
        skip_zeros(s, j + 1, end)
    } else {
        j
    }
}

/// The end of `s[j..end)` once its trailing zeros are cut off.
pub open spec fn trim_zeros(s: Seq<char>, j: int, end: int) -> int
    decreases end - j,
{
    if j < end && 0 < end <= s.len() && s[end - 1] == '0' {
        trim_zeros(s, j, end - 1)
    } else {
        end
    }
}

/// The natural decimal text of a scanned number: a minus sign if it had one,
/// the integer digits without leading zeros (`0` when none is left), and the
/// fraction digits without trailing zeros after a point, when any is left.
pub open spec fn number_text(n: Seq<char>) -> Seq<char> {
    let b: int = if n.len() > 0 && (n[0] == '-' || n[0] == '+') {
        1
    } else {
        0
    };
    let p = point_at(n, b);
    let a = skip_zeros(n, b, p);
    let e = if p < n.len() {
        trim_zeros(n, p + 1, n.len() as int)
    } else {
        p + 1
    };
    (if n.len() > 0 && n[0] == '-' {
        seq!['-']
    } else {
        Seq::empty()
    }) + (if a == p {
        seq!['0']
    } else {
        n.subrange(a, p)
    }) + (if e > p + 1 {
        seq!['.'] + n.subrange(p + 1, e)
    } else {
        Seq::empty()
    })
}

/// The text of a literal: a string as it is, a number in its natural decimal
/// form, `true`, `false` or `null`.
pub open spec fn literal_text(l: LiteralModel) -> Seq<char> {
    match l {
        LiteralModel::Text(s) => s,
        LiteralModel::Number(n) => number_text(n),
        LiteralModel::Bool(b) => if b {
            "true"@
        } else {
            "false"@
        },
        LiteralModel::Null => "null"@,
    }
}

fn number_to_text(n: &str) -> (r: String)
    ensures
        r@ == number_text(n@),
{
    let len = n.unicode_len();
    let b: usize = if len > 0 && (n.get_char(0) == '-' || n.get_char(0) == '+') {
        1
    } else {
        0
    };
    let mut p: usize = b;
    while p < len && n.get_char(p) != '.'
        invariant
            len == n@.len(),
            b <= p <= len,
            point_at(n@, p as int) == point_at(n@, b as int),
        decreases len - p,
    {
        p = p + 1;
    }
    let mut a: usize = b;
    while a < p && n.get_char(a) == '0'
        invariant
            len == n@.len(),
            b <= a <= p <= len,
            p == point_at(n@, b as int),
            skip_zeros(n@, a as int, p as int) == skip_zeros(n@, b as int, p as int),
        decreases p - a,
    {
        a = a + 1;
    }
    let mut s = String::new();
    if len > 0 && n.get_char(0) == '-' {
        push_char(&mut s, '-');
    }
    if a == p {
        push_char(&mut s, '0');
    } else {
        s.append(n.substring_char(a, p));
    }
    if p < len {
        let mut e: usize = len;
        while e > p + 1 && n.get_char(e - 1) == '0'
            invariant
                len == n@.len(),
                p < len,
                p + 1 <= e <= len,
                trim_zeros(n@, p + 1, e as int) == trim_zeros(n@, p + 1, len as int),
            decreases e,
        {
            e = e - 1;
        }
        if e > p + 1 {
            push_char(&mut s, '.');
            s.append(n.substring_char(p + 1, e));
        }
    }
    assert(s@ =~= number_text(n@));
    s
}

impl TokenLiteral {
    /// The text of the literal.
    pub fn to_text(&self) -> (r: String)
        ensures
            r@ == literal_text(self@),
    {
        match self {
            TokenLiteral::String(s) => s.clone(),
            TokenLiteral::Number(n) => number_to_text(n.as_str()),
            TokenLiteral::Bool(b) => if *b {
                String::from_str("true")
            } else {
                String::from_str("false")
            },
            TokenLiteral::Null => String::from_str("null"),
        }
    }
}

impl From<TokenLiteral> for String {
    /// The text of the literal, as `to_text` gives it.
    fn from(token_literal: TokenLiteral) -> (r: String)
        ensures
            r@ == literal_text(token_literal@),
    {
        token_literal.to_text()
    }
}

/// `from_spec` would have to name a `String` value, which a spec function
/// cannot build from text; the result of `from` is stated by its own
/// `ensures` over the view instead.
impl vstd::std_specs::convert::FromSpecImpl<TokenLiteral> for String {
    open spec fn obeys_from_spec() -> bool {
        false
    }

    open spec fn from_spec(v: TokenLiteral) -> String {
        arbitrary()
    }
}

/// A classified lexeme.
#[derive(Debug, PartialEq)]
pub struct Token {
    pub token_type: TokenType,
    pub token_literal: TokenLiteral,
    pub token_position: TokenPosition,
}

/// The mathematical value of a `Token`.
pub struct TokenModel {
    pub kind: TokenType,
    pub literal: LiteralModel,
    pub position: TokenPosition,
}

impl View for Token {
    type V = TokenModel;

    open spec fn view(&self) -> TokenModel {
        TokenModel {
            kind: self.token_type,
            literal: self.token_literal@,
            position: self.token_position,
        }
    }
}

impl Clone for Token {
    fn clone(&self) -> (r: Self)
        ensures
            r == *self,
    {
        Token {
            token_type: self.token_type,
            token_literal: self.token_literal.clone(),
            token_position: self.token_position,
        }
    }
}

impl Token {
    pub fn new(
        token_type: TokenType,
        token_literal: TokenLiteral,
        token_position: TokenPosition,
    ) -> (r: Self)
        ensures
            r.token_type == token_type,
            r.token_literal == token_literal,
            r.token_position == token_position,
    {
        Token { token_type, token_literal, token_position }
    }
}

} // verus!
