use vstd::prelude::*;
use crate::char_stream::CharStream;
use crate::text_util::{alphabetic, numeric, char_is_alphabetic, char_is_numeric, push_char, push_str};
use crate::tokens::TokenKind;

verus! {

pub open spec fn spec_is_newline(c: char) -> bool {
    c == '\n' || c == '\r'
}

pub fn is_newline(c: char) -> (r: bool)
    ensures
        r == spec_is_newline(c),
{
    c == '\n' || c == '\r'
}

pub fn is_not_newline(c: char) -> (r: bool)
    ensures
        r == !spec_is_newline(c),
{
    !is_newline(c)
}

pub open spec fn spec_is_identifier_start(c: char) -> bool {
    c == '_' || alphabetic(c)
}

pub open spec fn spec_is_identifier(c: char) -> bool {
    spec_is_identifier_start(c) || numeric(c)
}

pub fn is_identifier_start(c: char) -> (r: bool)
    ensures
        r == spec_is_identifier_start(c),
{
    c == '_' || char_is_alphabetic(c)
}

pub fn is_identifier(c: char) -> (r: bool)
    ensures
        r == spec_is_identifier(c),
{
    is_identifier_start(c) || char_is_numeric(c)
}

/// The operator that starts with `c`, given the character after it, and
/// whether that next character belongs to the operator too.
pub open spec fn simple_operator(c: char, next: Option<char>) -> Option<(TokenKind, bool)> {
    let two = |k1: TokenKind, second: char, k2: TokenKind|
        if next == Some(second) { Some((k1, true)) } else { Some((k2, false)) };
    if c == '+' { Some((TokenKind::Plus, false)) }
    else if c == '-' { two(TokenKind::Arrow, '>', TokenKind::Minus) }
    else if c == '*' { Some((TokenKind::Multiply, false)) }
    else if c == '/' { Some((TokenKind::Divide, false)) }
    else if c == '%' { Some((TokenKind::Percent, false)) }
    else if c == '>' {
        if next == Some('=') { Some((TokenKind::GreaterThanEquals, true)) }
        else { two(TokenKind::ShiftRight, '>', TokenKind::GreaterThan) }
    }
    else if c == '<' {
        if next == Some('=') { Some((TokenKind::LessThanEquals, true)) }
        else { two(TokenKind::ShiftLeft, '<', TokenKind::LessThan) }
    }
    else if c == '=' { two(TokenKind::Equals, '=', TokenKind::Assign) }
    else if c == '!' { two(TokenKind::NotEquals, '=', TokenKind::Bang) }
    else if c == '~' { Some((TokenKind::Tilde, false)) }
    else if c == '^' { Some((TokenKind::Caret, false)) }
    else if c == '|' { Some((TokenKind::Pipe, false)) }
    else if c == '&' { Some((TokenKind::Ampersand, false)) }
    else if c == '.' { Some((TokenKind::Dot, false)) }
    else if c == ':' { Some((TokenKind::Colon, false)) }
    else if c == ',' { Some((TokenKind::Comma, false)) }
    else { None }
}

/// Reads an operator of one or two characters whose first character `c`
/// was already consumed.
pub fn match_simple_operator(stream: &mut CharStream, c: char) -> (r: Option<TokenKind>)
    requires
        old(stream).wf(),
    ensures
        final(stream).wf(),
        final(stream).text() == old(stream).text(),
        match simple_operator(c, old(stream).ahead(0)) {
            Some((k, two)) => r == Some(k)
                && final(stream).consumed() == old(stream).consumed() + if two { 1nat } else { 0nat },
            None => r is None && final(stream).consumed() == old(stream).consumed(),
        },
{
    let k = if c == '+' {
        TokenKind::Plus
    } else if c == '-' {
        if stream.read_if_char('>') { TokenKind::Arrow } else { TokenKind::Minus }
    } else if c == '*' {
        TokenKind::Multiply
    } else if c == '/' {
        TokenKind::Divide
    } else if c == '%' {
        TokenKind::Percent
    } else if c == '>' {
        if stream.read_if_char('=') {
            TokenKind::GreaterThanEquals
        } else if stream.read_if_char('>') {
            TokenKind::ShiftRight
        } else {
            TokenKind::GreaterThan
        }
    } else if c == '<' {
        if stream.read_if_char('=') {
            TokenKind::LessThanEquals
        } else if stream.read_if_char('<') {
            TokenKind::ShiftLeft
        } else {
            TokenKind::LessThan
        }
    } else if c == '=' {
        if stream.read_if_char('=') { TokenKind::Equals } else { TokenKind::Assign }
    } else if c == '!' {
        if stream.read_if_char('=') { TokenKind::NotEquals } else { TokenKind::Bang }
    } else if c == '~' {
        TokenKind::Tilde
    } else if c == '^' {
        TokenKind::Caret
    } else if c == '|' {
        TokenKind::Pipe
    } else if c == '&' {
        TokenKind::Ampersand
    } else if c == '.' {
        TokenKind::Dot
    } else if c == ':' {
        TokenKind::Colon
    } else if c == ',' {
        TokenKind::Comma
    } else {
        return None;
    };
    Some(k)
}

/// Reads a line comment whose `#` was already consumed: one space after the
/// `#` is dropped, and the comment runs to the end of the line.
pub fn match_comment(stream: &mut CharStream, c: char) -> (r: Option<TokenKind>)
    requires
        old(stream).wf(),
    ensures
        final(stream).wf(),
        final(stream).text() == old(stream).text(),
        c != '#' ==> r is None && final(stream).consumed() == old(stream).consumed(),
        c == '#' ==> {
            let from = old(stream).consumed() + if old(stream).ahead(0) == Some(' ') { 1nat } else { 0nat };
            &&& r matches Some(TokenKind::Comment(t))
            &&& from <= final(stream).consumed()
            &&& t@ == old(stream).text().subrange(from as int, final(stream).consumed() as int)
            &&& forall|i: int| 0 <= i < t@.len() ==> !spec_is_newline(#[trigger] t@[i])
            &&& final(stream).ahead(0) matches Some(n) ==> spec_is_newline(n)
        },
{
    if c != '#' {
        return None;
    }
    let _ = stream.read_if_char(' ');
    let body = stream.read_while(&is_not_newline);
    Some(TokenKind::Comment(body))
}

/// The reserved word spelled by `s`, if it is one.
pub open spec fn keyword(s: Seq<char>) -> Option<TokenKind> {
    if s == "instanceof"@ { Some(TokenKind::InstanceOf) }
    else if s == "or"@ { Some(TokenKind::Or) }
    else if s == "and"@ { Some(TokenKind::And) }
    else if s == "if"@ { Some(TokenKind::If) }
    else if s == "elif"@ { Some(TokenKind::Elif) }
    else if s == "else"@ { Some(TokenKind::Else) }
    else if s == "for"@ { Some(TokenKind::For) }
    else if s == "from"@ { Some(TokenKind::From) }
    else if s == "to"@ { Some(TokenKind::To) }
    else if s == "foreach"@ { Some(TokenKind::Foreach) }
    else if s == "in"@ { Some(TokenKind::In) }
    else if s == "while"@ { Some(TokenKind::While) }
    else if s == "return"@ { Some(TokenKind::Return) }
    else if s == "panic"@ { Some(TokenKind::Panic) }
    else if s == "fn"@ { Some(TokenKind::Fn) }
    else if s == "constructor"@ { Some(TokenKind::Constructor) }
    else if s == "interface"@ { Some(TokenKind::Interface) }
    else if s == "class"@ { Some(TokenKind::Class) }
    else if s == "sentinal"@ { Some(TokenKind::Sentinal) }
    else if s == "const"@ { Some(TokenKind::Const) }
    else if s == "implements"@ { Some(TokenKind::Implements) }
    else if s == "true"@ { Some(TokenKind::BoolLiteral(true)) }
    else if s == "false"@ { Some(TokenKind::BoolLiteral(false)) }
    else { None }
}

/// The token for the word `s`: a reserved word, or else an identifier.
pub open spec fn word_token(s: Seq<char>, k: TokenKind) -> bool {
    match keyword(s) {
        Some(kw) => k == kw,
        None => k matches TokenKind::Atom(name) && name@ == s,
    }
}

/// Whether `a` holds exactly the text of `b`.
pub fn same_text(a: &String, b: &str) -> (r: bool)
    ensures
        r == (a@ == b@),
{
    let x = a.as_str();
    let n = x.unicode_len();
    let m = b.unicode_len();
    if n != m {
        return false;
    }
    let mut i: usize = 0;
    while i < n
        invariant
            n == a@.len(),
            m == b@.len(),
            n == m,
            x@ == a@,
            i <= n,
            forall|j: int| 0 <= j < i ==> a@[j] == b@[j],
        decreases n - i,
    {
        if x.get_char(i) != b.get_char(i) {
            return false;
        }
        i = i + 1;
    }
    assert(a@ =~= b@);
    true
}

fn word_kind(word: String) -> (r: TokenKind)
    ensures
        word_token(word@, r),
{
    if same_text(&word, "instanceof") { TokenKind::InstanceOf }
    else if same_text(&word, "or") { TokenKind::Or }
    else if same_text(&word, "and") { TokenKind::And }
    else if same_text(&word, "if") { TokenKind::If }
    else if same_text(&word, "elif") { TokenKind::Elif }
    else if same_text(&word, "else") { TokenKind::Else }
    else if same_text(&word, "for") { TokenKind::For }
    else if same_text(&word, "from") { TokenKind::From }
    else if same_text(&word, "to") { TokenKind::To }
    else if same_text(&word, "foreach") { TokenKind::Foreach }
    else if same_text(&word, "in") { TokenKind::In }
    else if same_text(&word, "while") { TokenKind::While }
    else if same_text(&word, "return") { TokenKind::Return }
    else if same_text(&word, "panic") { TokenKind::Panic }
    else if same_text(&word, "fn") { TokenKind::Fn }
    else if same_text(&word, "constructor") { TokenKind::Constructor }
    else if same_text(&word, "interface") { TokenKind::Interface }
    else if same_text(&word, "class") { TokenKind::Class }
    else if same_text(&word, "sentinal") { TokenKind::Sentinal }
    else if same_text(&word, "const") { TokenKind::Const }
    else if same_text(&word, "implements") { TokenKind::Implements }
    else if same_text(&word, "true") { TokenKind::BoolLiteral(true) }
    else if same_text(&word, "false") { TokenKind::BoolLiteral(false) }
    else { TokenKind::Atom(word) }
}

/// Reads the rest of a word whose first character `c` was already consumed,
/// and maps it to a reserved word or an identifier.
pub fn match_identifier_or_keyword(stream: &mut CharStream, c: char) -> (r: Option<TokenKind>)
    requires
        old(stream).wf(),
    ensures
        final(stream).wf(),
        final(stream).text() == old(stream).text(),
        !spec_is_identifier_start(c) ==> r is None && final(stream).consumed() == old(stream).consumed(),
        spec_is_identifier_start(c) ==> {
            let word = seq![c] + old(stream).text().subrange(old(stream).consumed() as int, final(stream).consumed() as int);
            &&& r matches Some(k)
            &&& word_token(word, k)
            &&& old(stream).consumed() <= final(stream).consumed()
            &&& forall|i: int| old(stream).consumed() <= i < final(stream).consumed()
                ==> spec_is_identifier(#[trigger] old(stream).text()[i])
            &&& final(stream).ahead(0) matches Some(n) ==> !spec_is_identifier(n)
        },
{
    if !is_identifier_start(c) {
        return None;
    }
    let mut identifier = String::new();
    push_char(&mut identifier, c);
    let rest = stream.read_while(&is_identifier);
    push_str(&mut identifier, rest.as_str());
    let ghost old_text = old(stream).text();
    proof {
        stream.lemma_wf();
        old(stream).lemma_wf();
    }
    assert(identifier@ =~= seq![c] + old_text.subrange(old(stream).consumed() as int, stream.consumed() as int));
    assert forall|i: int| old(stream).consumed() <= i < stream.consumed()
        implies spec_is_identifier(#[trigger] old_text[i]) by {
        let j = i - old(stream).consumed();
        assert(rest@[j] == old_text[i]);
        assert(is_identifier.ensures((rest@[j],), true));
    }
    Some(word_kind(identifier))
}

} // verus!
