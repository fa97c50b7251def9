use vstd::prelude::*;

verus! {

/// A location in the source text. Column and offset count characters, not bytes.
#[derive(Clone, Copy, PartialEq, Eq, Debug, Hash)]
pub struct Position {
    pub lineno: usize,
    pub column: usize,
    pub offset: usize,
}

/// The position after reading the character `c` at position `p`.
pub open spec fn advanced(p: Position, c: char) -> Position {
    if c == '\n' {
        Position { lineno: (p.lineno + 1) as usize, column: 0, offset: (p.offset + 1) as usize }
    } else {
        Position { lineno: p.lineno, column: (p.column + 1) as usize, offset: (p.offset + 1) as usize }
    }
}

/// The position reached after reading the first `n` characters of `text`.
pub open spec fn position_at(text: Seq<char>, n: nat) -> Position
    decreases n,
{
    if n == 0 {
        Position { lineno: 0, column: 0, offset: 0 }
    } else {
        advanced(position_at(text, (n - 1) as nat), text[n - 1])
    }
}

pub proof fn lemma_position_at_bounds(text: Seq<char>, n: nat)
    requires
        n <= usize::MAX,
    ensures
        position_at(text, n).offset == n,
        position_at(text, n).column <= n,
        position_at(text, n).lineno <= n,
    decreases n,
{
    if n > 0 {
        lemma_position_at_bounds(text, (n - 1) as nat);
    }
}

impl Position {
    pub fn start() -> (r: Position)
        ensures
            r == (Position { lineno: 0, column: 0, offset: 0 }),
    {
        Position { lineno: 0, column: 0, offset: 0 }
    }

    pub fn new(lineno: usize, column: usize, offset: usize) -> (r: Position)
        ensures
            r == (Position { lineno, column, offset }),
    {
        Position { lineno, column, offset }
    }

    /// Moves past the character `c`: a newline starts the next line.
    pub fn advance(&mut self, c: char)
        requires
            old(self).offset < usize::MAX,
            old(self).lineno < usize::MAX,
            old(self).column < usize::MAX,
        ensures
            *final(self) == advanced(*old(self), c),
    {
        self.offset = self.offset + 1;
        if c == '\n' {
            self.lineno = self.lineno + 1;
            self.column = 0;
        } else {
            self.column = self.column + 1;
        }
    }

    /// The position `col_offset` characters further along the same line.
    pub fn add_horizontal(&self, col_offset: usize) -> (r: Position)
        requires
            self.column + col_offset <= usize::MAX,
            self.offset + col_offset <= usize::MAX,
        ensures
            r.lineno == self.lineno,
            r.column == self.column + col_offset,
            r.offset == self.offset + col_offset,
    {
        Position {
            lineno: self.lineno,
            column: self.column + col_offset,
            offset: self.offset + col_offset,
        }
    }
}

/// A stretch of source text, from `start` up to `end`.
#[derive(Clone, Copy, PartialEq, Eq, Debug, Hash)]
pub struct Span {
    pub start: Position,
    pub end: Position,
}

/// The smallest span that covers both `a` and `b`: positions are ordered by
/// their offset alone.
pub open spec fn span_union(a: Span, b: Span) -> Span {
    Span {
        start: if a.start.offset <= b.start.offset { a.start } else { b.start },
        end: if a.end.offset >= b.end.offset { a.end } else { b.end },
    }
}

impl Span {
    pub fn union(&self, other: &Span) -> (r: Span)
        ensures
            r == span_union(*self, *other),
    {
        Span {
            start: if self.start.offset <= other.start.offset { self.start } else { other.start },
            end: if self.end.offset >= other.end.offset { self.end } else { other.end },
        }
    }
}

/// An integer literal: its base and its digits as written, without a base prefix.
#[derive(Clone, PartialEq, Eq, Debug, Hash)]
pub struct IntLiteral {
    pub base: u32,
    pub digits: String,
    pub raw_value: usize,
}

/// A decimal floating point literal, kept as the digits that were written.
#[derive(Clone, PartialEq, Eq, Debug, Hash)]
pub struct FloatLiteral {
    pub integral_digits: String,
    pub fractional_digits: String,
    pub power: String,
}

#[derive(Clone, PartialEq, Eq, Debug, Hash)]
pub enum TokenKind {
    LParen,
    RParen,
    LBrace,
    RBrace,
    LSquare,
    RSquare,
    Plus,
    Minus,
    Multiply,
    Divide,
    Percent,
    Equals,
    NotEquals,
    LessThanEquals,
    GreaterThanEquals,
    LessThan,
    GreaterThan,
    ShiftLeft,
    ShiftRight,
    Bang,
    Tilde,
    Caret,
    Pipe,
    Ampersand,
    Dot,
    Assign,
    Colon,
    Arrow,
    Comma,
    StringLiteral(String),
    IntLiteral(IntLiteral),
    FloatLiteral(FloatLiteral),
    BoolLiteral(bool),
    Atom(String),
    InstanceOf,
    Or,
    And,
    If,
    Elif,
    Else,
    For,
    From,
    To,
    Foreach,
    In,
    While,
    Return,
    Panic,
    Fn,
    Constructor,
    Interface,
    Class,
    Sentinal,
    Const,
    Implements,
    Comment(String),
    Indent,
    Unindent,
    Newline,
    EndOfFile,
}

/// The number of characters that the text of an integer literal takes.
pub open spec fn int_literal_width(lit: IntLiteral) -> nat {
    lit.digits@.len() + if lit.base == 10 { 0nat } else { 2nat }
}

/// The number of characters that the text of a float literal takes.
pub open spec fn float_literal_width(lit: FloatLiteral) -> nat {
    lit.integral_digits@.len() + 1 + lit.fractional_digits@.len() + if lit.power@.len() == 0 {
        0nat
    } else {
        1 + lit.power@.len()
    }
}

/// How many characters a token of this kind is taken to cover.
pub open spec fn kind_width(k: TokenKind) -> nat {
    match k {
        TokenKind::Equals | TokenKind::NotEquals | TokenKind::LessThanEquals
        | TokenKind::GreaterThanEquals | TokenKind::Arrow | TokenKind::ShiftLeft
        | TokenKind::ShiftRight => 2,
        TokenKind::StringLiteral(s) => s@.len(),
        TokenKind::IntLiteral(lit) => int_literal_width(lit),
        TokenKind::FloatLiteral(lit) => float_literal_width(lit),
        TokenKind::BoolLiteral(b) => if b { 4 } else { 5 },
        TokenKind::Atom(s) => s@.len(),
        TokenKind::Comment(s) => 2 + s@.len(),
        TokenKind::Indent | TokenKind::Unindent | TokenKind::Newline | TokenKind::EndOfFile => 0,
        TokenKind::InstanceOf => 10,
        TokenKind::Or | TokenKind::If | TokenKind::To | TokenKind::In | TokenKind::Fn => 2,
        TokenKind::And | TokenKind::For => 3,
        TokenKind::Elif | TokenKind::Else | TokenKind::From => 4,
        TokenKind::While | TokenKind::Panic | TokenKind::Class | TokenKind::Const => 5,
        TokenKind::Return => 6,
        TokenKind::Foreach => 7,
        TokenKind::Sentinal => 8,
        TokenKind::Interface => 9,
        TokenKind::Implements => 10,
        TokenKind::Constructor => 11,
        _ => 1,
    }
}

#[derive(Clone, PartialEq, Eq, Debug, Hash)]
pub struct Token {
    pub kind: TokenKind,
    pub position: Position,
}

/// The base prefix written before the digits of a literal in `base`.
pub open spec fn base_prefix(base: u32) -> Seq<char> {
    if base == 10 {
        Seq::empty()
    } else if base == 2 {
        "0b"@
    } else if base == 8 {
        "0o"@
    } else if base == 16 {
        "0x"@
    } else {
        "0?"@
    }
}

impl IntLiteral {
    /// The literal for `digits` in `base`, with its value; `None` when there
    /// are no digits or the value does not fit in a `usize`.
    pub fn new(base: u32, digits: String) -> (r: Option<IntLiteral>)
        requires
            base == 2 || base == 8 || base == 10 || base == 16,
        ensures
            match r {
                Some(lit) => lit.base == base && lit.digits@ == digits@ && digits@.len() > 0
                    && lit.raw_value == crate::lex_numbers::digits_value(digits@, base as nat),
                None => digits@.len() == 0
                    || crate::lex_numbers::digits_value(digits@, base as nat) > usize::MAX,
            },
    {
        match crate::lex_numbers::parse_digits(&digits, base) {
            Some(raw_value) => Some(IntLiteral { base, digits, raw_value }),
            None => None,
        }
    }

    /// The literal as written: base prefix, then digits.
    pub fn to_string(&self) -> (r: String)
        ensures
            r@ == base_prefix(self.base) + self.digits@,
    {
        let prefix = if self.base == 10 {
            ""
        } else if self.base == 2 {
            "0b"
        } else if self.base == 8 {
            "0o"
        } else if self.base == 16 {
            "0x"
        } else {
            "0?"
        };
        let mut out = crate::text_util::string_of(prefix);
        crate::text_util::push_str(&mut out, self.digits.as_str());
        proof {
            reveal_strlit("");
        }
        assert(out@ =~= base_prefix(self.base) + self.digits@);
        out
    }

    pub fn char_len(&self) -> (r: usize)
        requires
            int_literal_width(*self) <= usize::MAX,
        ensures
            r == int_literal_width(*self),
    {
        let n = self.digits.as_str().unicode_len();
        if self.base == 10 {
            n
        } else {
            n + 2
        }
    }
}

impl FloatLiteral {
    /// The literal as written: `integral.fractional`, then `e` and the
    /// exponent when there is one.
    pub fn to_string(&self) -> (r: String)
        ensures
            r@ == self.integral_digits@ + seq!['.'] + self.fractional_digits@ + if self.power@.len() == 0 {
                Seq::<char>::empty()
            } else {
                seq!['e'] + self.power@
            },
    {
        let mut out = crate::text_util::string_of(self.integral_digits.as_str());
        crate::text_util::push_char(&mut out, '.');
        crate::text_util::push_str(&mut out, self.fractional_digits.as_str());
        let ghost base = out@;
        if self.power.as_str().unicode_len() != 0 {
            crate::text_util::push_char(&mut out, 'e');
            crate::text_util::push_str(&mut out, self.power.as_str());
            assert(out@ =~= base + (seq!['e'] + self.power@));
        } else {
            assert(out@ =~= base + Seq::<char>::empty());
        }
        out
    }

    pub fn char_len(&self) -> (r: usize)
        requires
            float_literal_width(*self) <= usize::MAX,
        ensures
            r == float_literal_width(*self),
    {
        let mut count = self.integral_digits.as_str().unicode_len() + 1
            + self.fractional_digits.as_str().unicode_len();
        let p = self.power.as_str().unicode_len();
        if p != 0 {
            count = count + 1 + p;
        }
        count
    }
}

impl Token {
    /// The position just past the token's text.
    pub fn end_position(&self) -> (r: Position)
        requires
            self.position.column + kind_width(self.kind) <= usize::MAX,
            self.position.offset + kind_width(self.kind) <= usize::MAX,
        ensures
            r.lineno == self.position.lineno,
            r.column == self.position.column + kind_width(self.kind),
            r.offset == self.position.offset + kind_width(self.kind),
    {
        let width: usize = match &self.kind {
            TokenKind::Equals | TokenKind::NotEquals | TokenKind::LessThanEquals
            | TokenKind::GreaterThanEquals | TokenKind::Arrow | TokenKind::ShiftLeft
            | TokenKind::ShiftRight => 2,
            TokenKind::StringLiteral(s) => s.as_str().unicode_len(),
            TokenKind::IntLiteral(lit) => lit.char_len(),
            TokenKind::FloatLiteral(lit) => lit.char_len(),
            TokenKind::BoolLiteral(b) => if *b { 4 } else { 5 },
            TokenKind::Atom(s) => s.as_str().unicode_len(),
            TokenKind::Comment(s) => 2 + s.as_str().unicode_len(),
            TokenKind::Indent | TokenKind::Unindent | TokenKind::Newline
            | TokenKind::EndOfFile => 0,
            TokenKind::InstanceOf => 10,
            TokenKind::Or | TokenKind::If | TokenKind::To | TokenKind::In | TokenKind::Fn => 2,
            TokenKind::And | TokenKind::For => 3,
            TokenKind::Elif | TokenKind::Else | TokenKind::From => 4,
            TokenKind::While | TokenKind::Panic | TokenKind::Class | TokenKind::Const => 5,
            TokenKind::Return => 6,
            TokenKind::Foreach => 7,
            TokenKind::Sentinal => 8,
            TokenKind::Interface => 9,
            TokenKind::Implements => 10,
            TokenKind::Constructor => 11,
            _ => 1,
        };
        self.position.add_horizontal(width)
    }

    /// The start and end positions of the token's text.
    pub fn span(&self) -> (r: Span)
        requires
            self.position.column + kind_width(self.kind) <= usize::MAX,
            self.position.offset + kind_width(self.kind) <= usize::MAX,
        ensures
            r.start == self.position,
            r.end.lineno == self.position.lineno,
            r.end.column == self.position.column + kind_width(self.kind),
            r.end.offset == self.position.offset + kind_width(self.kind),
    {
        Span { start: self.position, end: self.end_position() }
    }
}

} // verus!
