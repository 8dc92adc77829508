//! The parser: a recursive descent over a token sequence that builds one
//! syntax tree, or stops at the first token that does not fit the grammar.
//!
//! ```text
//! value  := String | Number | True | False | Null | object | array
//! object := '{' (member (',' member)*)? '}'
//! member := String ':' value
//! array  := '[' (value (',' value)*)? ']'
//! ```
use vstd::prelude::*;

use crate::ast_nodes::{trees_of, AstNode, Tree};
use crate::parser_error::{ParseErrorModel, ParserError};
use crate::text::{position_text, push_position};
use crate::token::{Token, TokenModel, TokenType};

verus! {

/// How deeply objects and arrays may nest.
pub const MAX_DEPTH: usize = 128;

/// Whether a token of this type is a value on its own.
pub open spec fn is_scalar(k: TokenType) -> bool {
    k == TokenType::String || k == TokenType::Number || k == TokenType::True || k
        == TokenType::False || k == TokenType::Null
}

/// The error for a token at `i` that is not what the grammar expects there:
/// the message locates it (or says that the input ended) and says what was
/// expected.
pub open spec fn unexpected(ts: Seq<TokenModel>, i: int, expected: Seq<char>) -> ParseErrorModel {
    ParseErrorModel::UnexpectedToken(
        if 0 <= i < ts.len() {
            position_text(ts[i].position) + expected
        } else {
            "Error at end of input: "@ + expected
        },
    )
}

/// Puts `prefix` in front of the trees of a list parse, keeping an error as
/// it is.
pub open spec fn extend(
    prefix: Seq<Tree>,
    r: Result<(Seq<Tree>, int), ParseErrorModel>,
) -> Result<(Seq<Tree>, int), ParseErrorModel> {
    match r {
        Ok((items, e)) => Ok((prefix + items, e)),
        Err(x) => Err(x),
    }
}

/// The value that starts at `i`, and the index just after it; objects and
/// arrays may open `budget` more levels.
pub open spec fn value_at(ts: Seq<TokenModel>, i: int, budget: nat) -> Result<
    (Tree, int),
    ParseErrorModel,
>
    decreases budget, ts.len() - i, 0nat,
{
    if i < 0 || i >= ts.len() {
        Err(unexpected(ts, i, "Expected value"@))
    } else {
        let t = ts[i];
        if t.kind == TokenType::LeftBrace {
            if budget == 0 {
                Err(ParseErrorModel::NestingTooDeep(t.position))
            } else {
                object_at(ts, i, (budget - 1) as nat)
            }
        } else if t.kind == TokenType::LeftBracket {
            if budget == 0 {
                Err(ParseErrorModel::NestingTooDeep(t.position))
            } else {
                array_at(ts, i, (budget - 1) as nat)
            }
        } else if is_scalar(t.kind) {
            Ok((Tree::Value(t.literal), i + 1))
        } else {
            Err(unexpected(ts, i, "Expected value"@))
        }
    }
}

/// The object whose `{` stands at `i`.
pub open spec fn object_at(ts: Seq<TokenModel>, i: int, budget: nat) -> Result<
    (Tree, int),
    ParseErrorModel,
>
    decreases budget, ts.len() - i, 3nat,
{
    if !(0 <= i < ts.len() && ts[i].kind == TokenType::LeftBrace) {
        Err(unexpected(ts, i, "Expected {"@))
    } else if i + 1 < ts.len() && ts[i + 1].kind == TokenType::RightBrace {
        Ok((Tree::Object(ts[i], Seq::empty(), ts[i + 1]), i + 2))
    } else {
        match members_from(ts, i + 1, budget) {
            Ok((ms, k)) => Ok((Tree::Object(ts[i], ms, ts[k]), k + 1)),
            Err(x) => Err(x),
        }
    }
}

/// The members of an object from `j` on, and the index of its `}`.
pub open spec fn members_from(ts: Seq<TokenModel>, j: int, budget: nat) -> Result<
    (Seq<Tree>, int),
    ParseErrorModel,
>
    decreases budget, ts.len() - j, 2nat,
{
    match member_at(ts, j, budget) {
        Ok((m, k)) => {
            if k <= j || k >= ts.len() {
                Err(unexpected(ts, k, "Expected , or }"@))
            } else if ts[k].kind == TokenType::Comma {
                extend(seq![m], members_from(ts, k + 1, budget))
            } else if ts[k].kind == TokenType::RightBrace {
                Ok((seq![m], k))
            } else {
                Err(unexpected(ts, k, "Expected , or }"@))
            }
        },
        Err(x) => Err(x),
    }
}

/// The member that starts at `j`: a string key, a colon, a value.
pub open spec fn member_at(ts: Seq<TokenModel>, j: int, budget: nat) -> Result<
    (Tree, int),
    ParseErrorModel,
>
    decreases budget, ts.len() - j, 1nat,
{
    if !(0 <= j < ts.len() && ts[j].kind == TokenType::String) {
        Err(unexpected(ts, j, "Expected string"@))
    } else if !(j + 1 < ts.len() && ts[j + 1].kind == TokenType::Colon) {
        Err(unexpected(ts, j + 1, "Expected :"@))
    } else {
        match value_at(ts, j + 2, budget) {
            Ok((v, k)) => Ok((Tree::Member(ts[j], ts[j + 1], Box::new(v)), k)),
            Err(x) => Err(x),
        }
    }
}

/// The array whose `[` stands at `i`.
pub open spec fn array_at(ts: Seq<TokenModel>, i: int, budget: nat) -> Result<
    (Tree, int),
    ParseErrorModel,
>
    decreases budget, ts.len() - i, 3nat,
{
    if !(0 <= i < ts.len() && ts[i].kind == TokenType::LeftBracket) {
        Err(unexpected(ts, i, "Expected ["@))
    } else if i + 1 < ts.len() && ts[i + 1].kind == TokenType::RightBracket {
        Ok((Tree::Array(ts[i], Seq::empty(), ts[i + 1]), i + 2))
    } else {
        match elements_from(ts, i + 1, budget) {
            Ok((vs, k)) => Ok((Tree::Array(ts[i], vs, ts[k]), k + 1)),
            Err(x) => Err(x),
        }
    }
}

/// The values of an array from `j` on, and the index of its `]`.
pub open spec fn elements_from(ts: Seq<TokenModel>, j: int, budget: nat) -> Result<
    (Seq<Tree>, int),
    ParseErrorModel,
>
    decreases budget, ts.len() - j, 2nat,
{
    match value_at(ts, j, budget) {
        Ok((v, k)) => {
            if k <= j || k >= ts.len() {
                Err(unexpected(ts, k, "Expected , or ]"@))
            } else if ts[k].kind == TokenType::Comma {
                extend(seq![v], elements_from(ts, k + 1, budget))
            } else if ts[k].kind == TokenType::RightBracket {
                Ok((seq![v], k))
            } else {
                Err(unexpected(ts, k, "Expected , or ]"@))
            }
        },
        Err(x) => Err(x),
    }
}

/// The document that starts at `i`: one value and nothing after it.
pub open spec fn document_at(ts: Seq<TokenModel>, i: int) -> Result<Tree, ParseErrorModel> {
    match value_at(ts, i, MAX_DEPTH as nat) {
        Ok((t, k)) => if k == ts.len() {
            Ok(t)
        } else {
            Err(unexpected(ts, k, "Expected end of input"@))
        },
        Err(x) => Err(x),
    }
}

/// The tree of a whole token sequence, or the first syntax error.
pub open spec fn parsed(ts: Seq<TokenModel>) -> Result<Tree, ParseErrorModel> {
    document_at(ts, 0)
}


/// The models of the tokens a parser works on.
pub open spec fn model_of(tokens: Seq<Token>) -> Seq<TokenModel> {
    tokens.map_values(|t: Token| t@)
}

/// A parse of one node agrees with its specification: the same tree and
/// the cursor just after it, or the same error.
pub open spec fn agrees(
    r: Result<AstNode, ParserError>,
    cur: int,
    s: Result<(Tree, int), ParseErrorModel>,
) -> bool {
    match s {
        Ok((t, k)) => r matches Ok(n) && n@ == t && cur == k,
        Err(x) => r matches Err(e) && e@ == x,
    }
}

/// A parse of a list agrees with its specification: the same trees and the
/// cursor on the closing token, or the same error.
pub open spec fn agrees_list(
    r: Result<Vec<AstNode>, ParserError>,
    cur: int,
    s: Result<(Seq<Tree>, int), ParseErrorModel>,
) -> bool {
    match s {
        Ok((ts, k)) => r matches Ok(v) && trees_of(v@) == ts && cur == k,
        Err(x) => r matches Err(e) && e@ == x,
    }
}

/// Builds a syntax tree from a token sequence. `current` is the cursor.
#[derive(Debug)]
pub struct Parser {
    pub current: usize,
    pub tokens: Vec<Token>,
}

impl Parser {
    /// The models of the parser's tokens.
    pub open spec fn model(&self) -> Seq<TokenModel> {
        model_of(self.tokens@)
    }

    pub fn new(tokens: Vec<Token>) -> (r: Self)
        ensures
            r.tokens == tokens,
            r.current == 0,
    {
        Parser { current: 0, tokens }
    }

    /// Parses one value from the cursor and requires that no token follows
    /// it. On a new parser this is `parsed` of the tokens.
    pub fn parse(&mut self) -> (r: Result<AstNode, ParserError>)
        ensures
            final(self).tokens == old(self).tokens,
            match document_at(old(self).model(), old(self).current as int) {
                Ok(t) => r matches Ok(n) && n@ == t,
                Err(x) => r matches Err(e) && e@ == x,
            },
    {
        let node = match self.parse_value() {
            Ok(n) => n,
            Err(e) => {
                return Err(e);
            },
        };
        if self.current < self.tokens.len() {
            return Err(self.unexpected(self.current, "Expected end of input"));
        }
        Ok(node)
    }

    /// Parses one value from the cursor, with objects and arrays nested at
    /// most `MAX_DEPTH` deep, and leaves the cursor just after it.
    pub fn parse_value(&mut self) -> (r: Result<AstNode, ParserError>)
        ensures
            final(self).tokens == old(self).tokens,
            agrees(
                r,
                final(self).current as int,
                value_at(old(self).model(), old(self).current as int, MAX_DEPTH as nat),
            ),
            r is Ok ==> old(self).current < final(self).current <= old(self).tokens.len(),
    {
        self.value_within(MAX_DEPTH)
    }

    /// A value whose objects and arrays open at most `budget` levels.
    fn value_within(&mut self, budget: usize) -> (r: Result<AstNode, ParserError>)
        ensures
            final(self).tokens == old(self).tokens,
            agrees(
                r,
                final(self).current as int,
                value_at(old(self).model(), old(self).current as int, budget as nat),
            ),
            r is Ok ==> old(self).current < final(self).current <= old(self).tokens.len(),
        decreases budget, old(self).tokens@.len() - old(self).current, 0nat,
    {
        let i = self.current;
        if i >= self.tokens.len() {
            return Err(self.unexpected(i, "Expected value"));
        }
        let kind = self.tokens[i].token_type;
        if kind == TokenType::LeftBrace || kind == TokenType::LeftBracket {
            if budget == 0 {
                return Err(ParserError::NestingTooDeep(self.tokens[i].token_position));
            }
            if kind == TokenType::LeftBrace {
                self.parse_object(budget - 1)
            } else {
                self.parse_list(budget - 1)
            }
        } else if kind == TokenType::String || kind == TokenType::Number || kind == TokenType::True
            || kind == TokenType::False || kind == TokenType::Null {
            self.current = i + 1;
            Ok(AstNode::Value(self.tokens[i].token_literal.clone()))
        } else {
            Err(self.unexpected(i, "Expected value"))
        }
    }

    /// The object whose `{` stands at the cursor.
    fn parse_object(&mut self, budget: usize) -> (r: Result<AstNode, ParserError>)
        ensures
            final(self).tokens == old(self).tokens,
            agrees(
                r,
                final(self).current as int,
                object_at(old(self).model(), old(self).current as int, budget as nat),
            ),
            r is Ok ==> old(self).current < final(self).current <= old(self).tokens.len(),
        decreases budget, old(self).tokens@.len() - old(self).current, 3nat,
    {
        let open = match self.next_or_error(TokenType::LeftBrace, "Expected {") {
            Ok(t) => t,
            Err(e) => {
                return Err(e);
            },
        };
        let j = self.current;
        if j < self.tokens.len() && self.tokens[j].token_type == TokenType::RightBrace {
            self.current = j + 1;
            let node = AstNode::Object(open, Vec::new(), self.tokens[j].clone());
            assert(node@->Object_1 =~= Seq::<Tree>::empty());
            return Ok(node);
        }
        match self.parse_members(budget) {
            Ok(members) => {
                let k = self.current;
                self.current = k + 1;
                let node = AstNode::Object(open, members, self.tokens[k].clone());
                assert(node@->Object_1 =~= trees_of(members@));
                Ok(node)
            },
            Err(e) => Err(e),
        }
    }

    /// The members of an object from the cursor on; the cursor stops on its
    /// `}`.
    fn parse_members(&mut self, budget: usize) -> (r: Result<Vec<AstNode>, ParserError>)
        requires
            old(self).current <= old(self).tokens.len(),
        ensures
            final(self).tokens == old(self).tokens,
            agrees_list(
                r,
                final(self).current as int,
                members_from(old(self).model(), old(self).current as int, budget as nat),
            ),
            r is Ok ==> old(self).current < final(self).current < old(self).tokens.len(),
        decreases budget, old(self).tokens@.len() - old(self).current, 2nat,
    {
        let ghost ts = self.model();
        let ghost goal = members_from(ts, self.current as int, budget as nat);
        let mut items: Vec<AstNode> = Vec::new();
        assert(extend(trees_of(items@), goal) =~= goal) by {
            assert(trees_of(items@) =~= Seq::<Tree>::empty());
            match goal {
                Ok((ms, e)) => assert(Seq::<Tree>::empty() + ms =~= ms),
                Err(_) => {},
            }
        }
        loop
            invariant
                self.tokens == old(self).tokens,
                ts == self.model(),
                ts.len() == self.tokens@.len(),
                goal == members_from(ts, old(self).current as int, budget as nat),
                old(self).current <= self.current <= self.tokens.len(),
                goal == extend(
                    trees_of(items@),
                    members_from(ts, self.current as int, budget as nat),
                ),
            decreases self.tokens@.len() - self.current,
        {
            let j = self.current;
            let member = match self.parse_member(budget) {
                Ok(m) => m,
                Err(e) => {
                    return Err(e);
                },
            };
            let k = self.current;
            let ghost before = trees_of(items@);
            items.push(member);
            assert(trees_of(items@) =~= before + seq![member@]);
            if k < self.tokens.len() && self.tokens[k].token_type == TokenType::Comma {
                self.current = k + 1;
                proof {
                    match members_from(ts, self.current as int, budget as nat) {
                        Ok((ms, e)) => assert(before + (seq![member@] + ms) =~= (before
                            + seq![member@]) + ms),
                        Err(_) => {},
                    }
                }
            } else if k < self.tokens.len() && self.tokens[k].token_type == TokenType::RightBrace {
                return Ok(items);
            } else {
                return Err(self.unexpected(k, "Expected , or }"));
            }
        }
    }

    /// The member at the cursor: a string key, a colon, a value.
    fn parse_member(&mut self, budget: usize) -> (r: Result<AstNode, ParserError>)
        ensures
            final(self).tokens == old(self).tokens,
            agrees(
                r,
                final(self).current as int,
                member_at(old(self).model(), old(self).current as int, budget as nat),
            ),
            r is Ok ==> old(self).current < final(self).current <= old(self).tokens.len(),
        decreases budget, old(self).tokens@.len() - old(self).current, 1nat,
    {
        let key = match self.next_or_error(TokenType::String, "Expected string") {
            Ok(t) => t,
            Err(e) => {
                return Err(e);
            },
        };
        let colon = match self.next_or_error(TokenType::Colon, "Expected :") {
            Ok(t) => t,
            Err(e) => {
                return Err(e);
            },
        };
        match self.value_within(budget) {
            Ok(v) => Ok(AstNode::Member(key, colon, Box::new(v))),
            Err(e) => Err(e),
        }
    }

    /// The array whose `[` stands at the cursor.
    fn parse_list(&mut self, budget: usize) -> (r: Result<AstNode, ParserError>)
        ensures
            final(self).tokens == old(self).tokens,
            agrees(
                r,
                final(self).current as int,
                array_at(old(self).model(), old(self).current as int, budget as nat),
            ),
            r is Ok ==> old(self).current < final(self).current <= old(self).tokens.len(),
        decreases budget, old(self).tokens@.len() - old(self).current, 3nat,
    {
        let open = match self.next_or_error(TokenType::LeftBracket, "Expected [") {
            Ok(t) => t,
            Err(e) => {
                return Err(e);
            },
        };
        let j = self.current;
        if j < self.tokens.len() && self.tokens[j].token_type == TokenType::RightBracket {
            self.current = j + 1;
            let node = AstNode::Array(open, Vec::new(), self.tokens[j].clone());
            assert(node@->Array_1 =~= Seq::<Tree>::empty());
            return Ok(node);
        }
        match self.parse_elements(budget) {
            Ok(values) => {
                let k = self.current;
                self.current = k + 1;
                let node = AstNode::Array(open, values, self.tokens[k].clone());
                assert(node@->Array_1 =~= trees_of(values@));
                Ok(node)
            },
            Err(e) => Err(e),
        }
    }

    /// The values of an array from the cursor on; the cursor stops on its
    /// `]`.
    fn parse_elements(&mut self, budget: usize) -> (r: Result<Vec<AstNode>, ParserError>)
        requires
            old(self).current <= old(self).tokens.len(),
        ensures
            final(self).tokens == old(self).tokens,
            agrees_list(
                r,
                final(self).current as int,
                elements_from(old(self).model(), old(self).current as int, budget as nat),
            ),
            r is Ok ==> old(self).current < final(self).current < old(self).tokens.len(),
        decreases budget, old(self).tokens@.len() - old(self).current, 2nat,
    {
        let ghost ts = self.model();
        let ghost goal = elements_from(ts, self.current as int, budget as nat);
        let mut items: Vec<AstNode> = Vec::new();
        assert(extend(trees_of(items@), goal) =~= goal) by {
            assert(trees_of(items@) =~= Seq::<Tree>::empty());
            match goal {
                Ok((vs, e)) => assert(Seq::<Tree>::empty() + vs =~= vs),
                Err(_) => {},
            }
        }
        loop
            invariant
                self.tokens == old(self).tokens,
                ts == self.model(),
                ts.len() == self.tokens@.len(),
                goal == elements_from(ts, old(self).current as int, budget as nat),
                old(self).current <= self.current <= self.tokens.len(),
                goal == extend(
                    trees_of(items@),
                    elements_from(ts, self.current as int, budget as nat),
                ),
            decreases self.tokens@.len() - self.current,
        {
            let value = match self.value_within(budget) {
                Ok(v) => v,
                Err(e) => {
                    return Err(e);
                },
            };
            let k = self.current;
            let ghost before = trees_of(items@);
            items.push(value);
            assert(trees_of(items@) =~= before + seq![value@]);
            if k < self.tokens.len() && self.tokens[k].token_type == TokenType::Comma {
                self.current = k + 1;
                proof {
                    match elements_from(ts, self.current as int, budget as nat) {
                        Ok((vs, e)) => assert(before + (seq![value@] + vs) =~= (before
                            + seq![value@]) + vs),
                        Err(_) => {},
                    }
                }
            } else if k < self.tokens.len() && self.tokens[k].token_type
                == TokenType::RightBracket {
                return Ok(items);
            } else {
                return Err(self.unexpected(k, "Expected , or ]"));
            }
        }
    }

    /// Consumes the token at the cursor if it has the given type; otherwise
    /// fails, saying what was expected.
    fn next_or_error(&mut self, token_type: TokenType, expected: &str) -> (r: Result<
        Token,
        ParserError,
    >)
        ensures
            final(self).tokens == old(self).tokens,
            ({
                let i = old(self).current as int;
                if i < old(self).tokens.len() && old(self).tokens[i].token_type == token_type {
                    r == Ok::<Token, ParserError>(old(self).tokens[i]) && final(self).current == i
                        + 1
                } else {
                    &&& r matches Err(e) && e@ == unexpected(old(self).model(), i, expected@)
                    &&& final(self).current == i
                }
            }),
    {
        let i = self.current;
        if i < self.tokens.len() && self.tokens[i].token_type == token_type {
            self.current = i + 1;
            return Ok(self.tokens[i].clone());
        }
        Err(self.unexpected(i, expected))
    }

    /// The token at the cursor, if there is one; the cursor advances either
    /// way.
    pub fn next(&mut self) -> (r: Option<Token>)
        requires
            old(self).current < usize::MAX,
        ensures
            final(self).tokens == old(self).tokens,
            final(self).current == old(self).current + 1,
            r == if old(self).current < old(self).tokens.len() {
                Some(old(self).tokens[old(self).current as int])
            } else {
                None::<Token>
            },
    {
        let i = self.current;
        self.current = i + 1;
        if i < self.tokens.len() {
            Some(self.tokens[i].clone())
        } else {
            None
        }
    }

    /// The token at the cursor, if there is one.
    pub fn peek(&self) -> (r: Option<&Token>)
        ensures
            r == if self.current < self.tokens.len() {
                Some(&self.tokens[self.current as int])
            } else {
                None::<&Token>
            },
    {
        if self.current < self.tokens.len() {
            Some(&self.tokens[self.current])
        } else {
            None
        }
    }

    /// The error for the token at `i`, which is not the `expected` one.
    fn unexpected(&self, i: usize, expected: &str) -> (r: ParserError)
        ensures
            r@ == unexpected(self.model(), i as int, expected@),
    {
        let mut s = String::new();
        if i < self.tokens.len() {
            push_position(&mut s, self.tokens[i].token_position);
        } else {
            s.append("Error at end of input: ");
        }
        s.append(expected);
        proof {
            let ts = self.model();
            if i < self.tokens.len() {
                assert(ts[i as int].position == self.tokens@[i as int].token_position);
            }
        }
        assert(ParserError::UnexpectedToken(s)@ =~= unexpected(self.model(), i as int, expected@));
        ParserError::UnexpectedToken(s)
    }
}


proof fn lemma_value_extends(s: Seq<TokenModel>, t: Seq<TokenModel>, i: int, b: nat)
    requires
        value_at(s, i, b) is Ok,
    ensures
        value_at(s + t, i, b) == value_at(s, i, b),
        i < value_at(s, i, b)->Ok_0.1 <= s.len(),
    decreases b, s.len() - i, 0nat,
{
    let u = s + t;
    assert(u[i] == s[i]);
    let k = s[i].kind;
    if k == TokenType::LeftBrace && b > 0 {
        lemma_object_extends(s, t, i, (b - 1) as nat);
    } else if k == TokenType::LeftBracket && b > 0 {
        lemma_array_extends(s, t, i, (b - 1) as nat);
    }
}

proof fn lemma_object_extends(s: Seq<TokenModel>, t: Seq<TokenModel>, i: int, b: nat)
    requires
        object_at(s, i, b) is Ok,
    ensures
        object_at(s + t, i, b) == object_at(s, i, b),
        i < object_at(s, i, b)->Ok_0.1 <= s.len(),
    decreases b, s.len() - i, 3nat,
{
    let u = s + t;
    if 0 <= i && i + 1 < s.len() && s[i + 1].kind == TokenType::RightBrace {
        assert(u[i] == s[i]);
        assert(u[i + 1] == s[i + 1]);
    } else {
        lemma_members_extends(s, t, i + 1, b);
        let k = members_from(s, i + 1, b)->Ok_0.1;
        assert(u[i] == s[i]);
        assert(u[i + 1] == s[i + 1]);
        assert(u[k] == s[k]);
    }
}

proof fn lemma_members_extends(s: Seq<TokenModel>, t: Seq<TokenModel>, j: int, b: nat)
    requires
        members_from(s, j, b) is Ok,
    ensures
        members_from(s + t, j, b) == members_from(s, j, b),
        j < members_from(s, j, b)->Ok_0.1 < s.len(),
    decreases b, s.len() - j, 2nat,
{
    let u = s + t;
    lemma_member_extends(s, t, j, b);
    let k = member_at(s, j, b)->Ok_0.1;
    assert(u[k] == s[k]);
    if s[k].kind == TokenType::Comma {
        lemma_members_extends(s, t, k + 1, b);
    }
}

proof fn lemma_member_extends(s: Seq<TokenModel>, t: Seq<TokenModel>, j: int, b: nat)
    requires
        member_at(s, j, b) is Ok,
    ensures
        member_at(s + t, j, b) == member_at(s, j, b),
        j < member_at(s, j, b)->Ok_0.1 <= s.len(),
    decreases b, s.len() - j, 1nat,
{
    let u = s + t;
    assert(u[j] == s[j]);
    assert(u[j + 1] == s[j + 1]);
    lemma_value_extends(s, t, j + 2, b);
}

proof fn lemma_array_extends(s: Seq<TokenModel>, t: Seq<TokenModel>, i: int, b: nat)
    requires
        array_at(s, i, b) is Ok,
    ensures
        array_at(s + t, i, b) == array_at(s, i, b),
        i < array_at(s, i, b)->Ok_0.1 <= s.len(),
    decreases b, s.len() - i, 3nat,
{
    let u = s + t;
    if 0 <= i && i + 1 < s.len() && s[i + 1].kind == TokenType::RightBracket {
        assert(u[i] == s[i]);
        assert(u[i + 1] == s[i + 1]);
    } else {
        lemma_elements_extends(s, t, i + 1, b);
        let k = elements_from(s, i + 1, b)->Ok_0.1;
        assert(u[i] == s[i]);
        assert(u[i + 1] == s[i + 1]);
        assert(u[k] == s[k]);
    }
}

proof fn lemma_elements_extends(s: Seq<TokenModel>, t: Seq<TokenModel>, j: int, b: nat)
    requires
        elements_from(s, j, b) is Ok,
    ensures
        elements_from(s + t, j, b) == elements_from(s, j, b),
        j < elements_from(s, j, b)->Ok_0.1 < s.len(),
    decreases b, s.len() - j, 2nat,
{
    let u = s + t;
    lemma_value_extends(s, t, j, b);
    let k = value_at(s, j, b)->Ok_0.1;
    assert(u[k] == s[k]);
    if s[k].kind == TokenType::Comma {
        lemma_elements_extends(s, t, k + 1, b);
    }
}

/// Trailing tokens are rejected: when `v` parses as a document, `v`
/// followed by any non-empty `t` fails with an unexpected token, whatever
/// `t` holds.
pub proof fn lemma_trailing_tokens_rejected(v: Seq<TokenModel>, t: Seq<TokenModel>)
    requires
        parsed(v) is Ok,
        t.len() > 0,
    ensures
        parsed(v + t) matches Err(ParseErrorModel::UnexpectedToken(_)),
{
    lemma_value_extends(v, t, 0, MAX_DEPTH as nat);
}

} // verus!
