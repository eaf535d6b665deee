use vstd::prelude::*;

use crate::error::ParseError;

verus! {

/// A classified lexical unit: the text it was read from and its kind.
#[derive(Clone, Debug, PartialEq, Eq)]
pub struct Token {
    text: String,
    kind: TokenKind,
}

impl View for Token {
    type V = (Seq<char>, TokenKind);

    closed spec fn view(&self) -> (Seq<char>, TokenKind) {
        (self.text@, self.kind)
    }
}

impl Token {
    pub fn new(text: String, kind: TokenKind) -> (r: Token)
        ensures
            r@ == (text@, kind),
    {
        Token { text, kind }
    }

    pub fn get_kind(&self) -> (r: TokenKind)
        ensures
            r == self@.1,
    {
        self.kind
    }

    pub fn get_text(self) -> (r: String)
        ensures
            r@ == self@.0,
    {
        self.text
    }

    /// The text the token was read from, borrowed.
    pub fn text(&self) -> (r: &String)
        ensures
            r@ == self@.0,
    {
        &self.text
    }

    /// A token equal to this one, text and kind.
    pub fn duplicate(&self) -> (r: Token)
        ensures
            r@ == self@,
    {
        Token { text: self.text.clone(), kind: self.kind }
    }
}

/// The outcome of comparing the pending operator on top of the stack with the
/// incoming token.
#[derive(Clone, Copy, Debug, PartialEq, Eq, Structural)]
pub enum TokenDir {
    /// An opening bracket meets its closer: both are discarded.
    Pair,
    /// The pending operator resolves before the incoming token is looked at again.
    Down,
    /// The incoming token is pushed above the pending one.
    Stay,
    /// The incoming token is atomic and goes straight to the output.
    Forward,
}

/// The closed set of token kinds.
#[derive(Clone, Copy, Debug, PartialEq, Eq, Structural)]
pub enum TokenKind {
    Include,
    Load,
    Let,
    LetEnd,
    Type,
    Eq,
    Prod,
    Tuple,
    Sum,
    Cases,
    Function,
    Lambda,
    Universe,
    Top,
    Bottom,
    OpenBracket,
    CloseBracket,
    OpenSquear,
    CloseSquear,
    OpenCurly,
    CloseCurly,
    Int,
    StringLiteral,
    Name,
    Application,
}

impl TokenKind {
    /// How eagerly an incoming token of this kind forces a pending operator
    /// to resolve; -1 where the kind has no such role.
    pub open spec fn prior(self) -> int {
        match self {
            TokenKind::Prod => 8,
            TokenKind::Tuple => 16,
            TokenKind::Sum => 10,
            TokenKind::Cases => 14,
            TokenKind::Function => 12,
            TokenKind::Lambda => 4,
            TokenKind::Universe => 0,
            TokenKind::Top => 0,
            TokenKind::Bottom => 0,
            TokenKind::OpenBracket => 2,
            TokenKind::CloseBracket => 18,
            TokenKind::Int => 0,
            TokenKind::StringLiteral => 0,
            TokenKind::Name => 0,
            TokenKind::Application => 6,
            _ => -1,
        }
    }

    /// How eagerly a pending operator of this kind yields to what follows;
    /// -1 where the kind is never pending.
    pub open spec fn weight(self) -> int {
        match self {
            TokenKind::Prod => 7,
            TokenKind::Tuple => 16,
            TokenKind::Sum => 9,
            TokenKind::Cases => 14,
            TokenKind::Function => 12,
            TokenKind::Lambda => 4,
            TokenKind::OpenBracket => 18,
            TokenKind::Application => 5,
            _ => -1,
        }
    }

    /// The number of children of a tree node of this kind; -1 where the kind
    /// never becomes a node.
    pub open spec fn arity(self) -> int {
        match self {
            TokenKind::Prod => 2,
            TokenKind::Tuple => 2,
            TokenKind::Sum => 2,
            TokenKind::Cases => 2,
            TokenKind::Function => 2,
            TokenKind::Lambda => 2,
            TokenKind::Universe => 0,
            TokenKind::Top => 0,
            TokenKind::Bottom => 0,
            TokenKind::Int => 0,
            TokenKind::StringLiteral => 0,
            TokenKind::Name => 0,
            TokenKind::Application => 2,
            _ => -1,
        }
    }

    /// The closer that pairs off with an opening bracket of this kind.
    pub open spec fn closer(self) -> Option<TokenKind> {
        match self {
            TokenKind::OpenBracket => Some(TokenKind::CloseBracket),
            _ => None,
        }
    }

    /// The relation between a pending operator `self` and an incoming token;
    /// `None` where the two cannot be compared.
    pub open spec fn relation(self, another: TokenKind) -> Option<TokenDir> {
        if self.weight() == -1 || another.prior() == -1 {
            None
        } else if self.closer() == Some(another) {
            Some(TokenDir::Pair)
        } else if another.prior() == 0 {
            Some(TokenDir::Forward)
        } else if another.prior() > self.weight() {
            Some(TokenDir::Down)
        } else {
            Some(TokenDir::Stay)
        }
    }

    /// Leaf-like kinds, which take part in juxtaposition on either side.
    pub open spec fn leaf_like(self) -> bool {
        self == TokenKind::Name || self == TokenKind::Universe || self == TokenKind::Bottom
            || self == TokenKind::Top
    }

    /// Whether an implicit application goes between a token of kind `first`
    /// and a following token of kind `second`.
    pub open spec fn applicable(first: TokenKind, second: TokenKind) -> bool {
        (second.leaf_like() || second == TokenKind::CloseBracket) && (first.leaf_like() || first
            == TokenKind::OpenBracket)
    }

    /// Membership in the grammar of type expressions.
    pub open spec fn in_type(self) -> bool {
        match self {
            TokenKind::Application => true,
            TokenKind::Bottom => true,
            TokenKind::OpenBracket => true,
            TokenKind::CloseBracket => true,
            TokenKind::Prod => true,
            TokenKind::Sum => true,
            TokenKind::Top => true,
            TokenKind::Universe => true,
            TokenKind::Name => true,
            TokenKind::Function => true,
            _ => false,
        }
    }

    /// Membership in the grammar of value expressions: the type grammar and
    /// the value-only kinds.
    pub open spec fn in_value(self) -> bool {
        self.in_type() || self == TokenKind::Lambda || self == TokenKind::Tuple || self
            == TokenKind::Cases || self == TokenKind::StringLiteral || self == TokenKind::Int
    }

    pub fn get_prior(self) -> (r: i32)
        ensures
            r as int == self.prior(),
    {
        match self {
            TokenKind::Prod => 8,
            TokenKind::Tuple => 16,
            TokenKind::Sum => 10,
            TokenKind::Cases => 14,
            TokenKind::Function => 12,
            TokenKind::Lambda => 4,
            TokenKind::Universe => 0,
            TokenKind::Top => 0,
            TokenKind::Bottom => 0,
            TokenKind::OpenBracket => 2,
            TokenKind::CloseBracket => 18,
            TokenKind::Int => 0,
            TokenKind::StringLiteral => 0,
            TokenKind::Name => 0,
            TokenKind::Application => 6,
            _ => -1,
        }
    }

    pub fn get_weight(self) -> (r: i32)
        ensures
            r as int == self.weight(),
    {
        match self {
            TokenKind::Prod => 7,
            TokenKind::Tuple => 16,
            TokenKind::Sum => 9,
            TokenKind::Cases => 14,
            TokenKind::Function => 12,
            TokenKind::Lambda => 4,
            TokenKind::OpenBracket => 18,
            TokenKind::Application => 5,
            _ => -1,
        }
    }

    pub fn nary_operation(self) -> (r: i32)
        ensures
            r as int == self.arity(),
    {
        match self {
            TokenKind::Prod => 2,
            TokenKind::Tuple => 2,
            TokenKind::Sum => 2,
            TokenKind::Cases => 2,
            TokenKind::Function => 2,
            TokenKind::Lambda => 2,
            TokenKind::Universe => 0,
            TokenKind::Top => 0,
            TokenKind::Bottom => 0,
            TokenKind::Int => 0,
            TokenKind::StringLiteral => 0,
            TokenKind::Name => 0,
            TokenKind::Application => 2,
            _ => -1,
        }
    }

    pub fn next_step(self) -> (r: Option<TokenKind>)
        ensures
            r == self.closer(),
    {
        match self {
            TokenKind::OpenBracket => Some(TokenKind::CloseBracket),
            _ => None,
        }
    }

    pub fn compare(self, another: TokenKind) -> (r: Result<TokenDir, ParseError>)
        ensures
            match self.relation(another) {
                Some(d) => r == Ok::<TokenDir, ParseError>(d),
                None => r == Err::<TokenDir, ParseError>(ParseError::Precedence),
            },
    {
        if self.get_weight() == -1 || another.get_prior() == -1 {
            return Err(ParseError::Precedence);
        }
        if let Some(pair) = self.next_step() {
            if pair == another {
                return Ok(TokenDir::Pair);
            }
        }
        if another.get_prior() == 0 {
            return Ok(TokenDir::Forward);
        }
        if another.get_prior() > self.get_weight() {
            Ok(TokenDir::Down)
        } else {
            Ok(TokenDir::Stay)
        }
    }

    fn is_both_applicate(self) -> (r: bool)
        ensures
            r == self.leaf_like(),
    {
        match self {
            TokenKind::Name => true,
            TokenKind::Universe => true,
            TokenKind::Bottom => true,
            TokenKind::Top => true,
            _ => false,
        }
    }

    fn is_left_applicate(self) -> (r: bool)
        ensures
            r == (self.leaf_like() || self == TokenKind::CloseBracket),
    {
        self.is_both_applicate() || self == TokenKind::CloseBracket
    }

    fn is_right_applicate(self) -> (r: bool)
        ensures
            r == (self.leaf_like() || self == TokenKind::OpenBracket),
    {
        self.is_both_applicate() || self == TokenKind::OpenBracket
    }

    pub fn is_applicate(first_kind: TokenKind, second_kind: TokenKind) -> (r: bool)
        ensures
            r == TokenKind::applicable(first_kind, second_kind),
    {
        second_kind.is_left_applicate() && first_kind.is_right_applicate()
    }

    pub fn allow_in_type(self) -> (r: bool)
        ensures
            r == self.in_type(),
    {
        match self {
            TokenKind::Application => true,
            TokenKind::Bottom => true,
            TokenKind::OpenBracket => true,
            TokenKind::CloseBracket => true,
            TokenKind::Prod => true,
            TokenKind::Sum => true,
            TokenKind::Top => true,
            TokenKind::Universe => true,
            TokenKind::Name => true,
            TokenKind::Function => true,
            _ => false,
        }
    }

    pub fn allow_in_value(self) -> (r: bool)
        ensures
            r == self.in_value(),
    {
        let pure_value = match self {
            TokenKind::Lambda => true,
            TokenKind::Tuple => true,
            TokenKind::Cases => true,
            TokenKind::StringLiteral => true,
            TokenKind::Int => true,
            _ => false,
        };
        self.allow_in_type() || pure_value
    }
}

/// A stretch of source text before it is classified: the contents of a
/// string literal, or plain text still to be split into tokens.
pub struct RawToken {
    pub text: String,
    pub kind: RawTokenKind,
}

impl RawToken {
    pub fn new(text: String, kind: RawTokenKind) -> (r: RawToken)
        ensures
            r.text@ == text@,
            r.kind == kind,
    {
        RawToken { text, kind }
    }
}

pub enum RawTokenKind {
    StringLiteral,
    DontKnow,
}

} // verus!
