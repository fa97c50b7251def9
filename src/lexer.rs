use vstd::prelude::*;
use std::collections::VecDeque;
use crate::char_stream::CharStream;
use crate::errors::LexerError;
use crate::lex_numbers::{char_at, match_number, number_scan, spec_is_digit, NumScan};
use crate::lex_simple::{
    keyword, simple_operator, spec_is_identifier_start, word_token,
    is_newline, match_comment, match_identifier_or_keyword, match_simple_operator, spec_is_newline,
};
use crate::lex_strings::{match_string, scan_string};
use crate::text_util::{char_is_whitespace, push_char, push_decimal, push_str, string_of, whitespace};
use crate::tokens::{Position, Token, TokenKind, lemma_position_at_bounds};

verus! {

/// How many tokens of `s` have kind `k`.
pub open spec fn count_kind(s: Seq<Token>, k: TokenKind) -> nat
    decreases s.len(),
{
    if s.len() == 0 {
        0
    } else {
        count_kind(s.drop_last(), k) + if s.last().kind == k { 1nat } else { 0nat }
    }
}

/// The indentation depth that the tokens of `s` add up to: one per `Indent`,
/// minus one per `Unindent`.
pub open spec fn depth(s: Seq<Token>) -> int {
    count_kind(s, TokenKind::Indent) - count_kind(s, TokenKind::Unindent)
}

pub proof fn lemma_count_append(a: Seq<Token>, b: Seq<Token>, k: TokenKind)
    ensures
        count_kind(a + b, k) == count_kind(a, k) + count_kind(b, k),
    decreases b.len(),
{
    if b.len() == 0 {
        assert(a + b =~= a);
    } else {
        lemma_count_append(a, b.drop_last(), k);
        assert((a + b).drop_last() =~= a + b.drop_last());
    }
}

proof fn lemma_depth_append(a: Seq<Token>, b: Seq<Token>)
    ensures
        depth(a + b) == depth(a) + depth(b),
{
    lemma_count_append(a, b, TokenKind::Indent);
    lemma_count_append(a, b, TokenKind::Unindent);
}

proof fn lemma_depth_single(t: Token)
    ensures
        depth(seq![t]) == step(t.kind),
{
    assert(seq![t].drop_last() =~= Seq::<Token>::empty());
    assert(count_kind(Seq::<Token>::empty(), TokenKind::Indent) == 0);
    assert(count_kind(Seq::<Token>::empty(), TokenKind::Unindent) == 0);
    assert(count_kind(seq![t], TokenKind::Indent) == if t.kind == TokenKind::Indent { 1nat } else { 0nat });
    assert(count_kind(seq![t], TokenKind::Unindent) == if t.kind == TokenKind::Unindent { 1nat } else { 0nat });
}

/// Every prefix of `s`, started from depth `base`, stays at depth zero or
/// more: no prefix closes more blocks than are open.
pub open spec fn prefixes_at_least(s: Seq<Token>, base: int) -> bool {
    forall|j: int| 0 <= j <= s.len() ==> base + depth(#[trigger] s.subrange(0, j)) >= 0
}

proof fn lemma_depth_empty()
    ensures
        depth(Seq::<Token>::empty()) == 0,
{
}

proof fn lemma_prefixes_push(s: Seq<Token>, t: Token, base: int)
    requires
        prefixes_at_least(s, base),
        base + depth(s) + step(t.kind) >= 0,
    ensures
        prefixes_at_least(s.push(t), base),
{
    assert forall|j: int| 0 <= j <= s.push(t).len() implies base + depth(#[trigger] s.push(t).subrange(0, j)) >= 0 by {
        if j <= s.len() {
            assert(s.push(t).subrange(0, j) =~= s.subrange(0, j));
        } else {
            assert(s.push(t).subrange(0, j) =~= s + seq![t]);
            lemma_depth_append(s, seq![t]);
            lemma_depth_single(t);
        }
    }
}

proof fn lemma_prefixes_cons(t: Token, s: Seq<Token>, base: int)
    requires
        prefixes_at_least(s, base + step(t.kind)),
        base >= 0,
    ensures
        prefixes_at_least(seq![t] + s, base),
{
    assert forall|j: int| 0 <= j <= (seq![t] + s).len() implies base + depth(#[trigger] (seq![t] + s).subrange(0, j)) >= 0 by {
        if j == 0 {
            assert((seq![t] + s).subrange(0, j) =~= Seq::<Token>::empty());
            lemma_depth_empty();
        } else {
            assert((seq![t] + s).subrange(0, j) =~= seq![t] + s.subrange(0, j - 1));
            lemma_depth_append(seq![t], s.subrange(0, j - 1));
            lemma_depth_single(t);
            assert(base + step(t.kind) + depth(s.subrange(0, j - 1)) >= 0);
        }
    }
}

proof fn lemma_prefixes_raise(s: Seq<Token>, base: int, higher: int)
    requires
        prefixes_at_least(s, base),
        base <= higher,
    ensures
        prefixes_at_least(s, higher),
{
}

proof fn lemma_prefixes_empty(base: int)
    requires
        base >= 0,
    ensures
        prefixes_at_least(Seq::<Token>::empty(), base),
{
    assert forall|j: int| 0 <= j <= 0 implies base + depth(#[trigger] Seq::<Token>::empty().subrange(0, j)) >= 0 by {
        assert(Seq::<Token>::empty().subrange(0, j) =~= Seq::<Token>::empty());
        lemma_depth_empty();
    }
}

proof fn lemma_prefixes_drop_first(s: Seq<Token>, base: int)
    requires
        prefixes_at_least(s, base),
        s.len() >= 1,
    ensures
        prefixes_at_least(s.subrange(1, s.len() as int), base + step(s[0].kind)),
{
    let rest = s.subrange(1, s.len() as int);
    assert forall|j: int| 0 <= j <= rest.len() implies base + step(s[0].kind) + depth(#[trigger] rest.subrange(0, j)) >= 0 by {
        assert(s.subrange(0, j + 1) =~= seq![s[0]] + rest.subrange(0, j));
        lemma_depth_append(seq![s[0]], rest.subrange(0, j));
        lemma_depth_single(s[0]);
        assert(base + depth(s.subrange(0, j + 1)) >= 0);
    }
}

/// The kinds that carry the layout of lines and blocks.
pub open spec fn layout_kind(k: TokenKind) -> bool {
    k == TokenKind::Newline || k == TokenKind::Indent || k == TokenKind::Unindent
}

proof fn lemma_keyword_plain(s: Seq<char>)
    ensures
        keyword(s) matches Some(kw) ==> kw != TokenKind::EndOfFile && step(kw) == 0,
{
}

proof fn lemma_operator_plain(c: char, n: Option<char>)
    ensures
        simple_operator(c, n) matches Some((k, _)) ==> k != TokenKind::EndOfFile && step(k) == 0,
{
}

/// How the line breaks after a token end: `Lines(k, n, end)` for `k` line
/// breaks, then a line indented to level `n` (or the end of the text) at
/// index `end`; `Tab(j)` for a tab at index `j` in the leading spaces;
/// `BadIndent(s)` for `s` leading spaces, not a multiple of four.
pub enum Layout {
    Lines(nat, nat, nat),
    Tab(nat),
    BadIndent(nat),
}

/// The number of spaces from index `i` on.
pub open spec fn space_run(text: Seq<char>, i: nat) -> nat
    decreases text.len() - i,
{
    if i < text.len() && text[i as int] == ' ' {
        1 + space_run(text, i + 1)
    } else {
        0
    }
}

proof fn lemma_space_run(text: Seq<char>, i: nat, j: nat)
    requires
        i <= j <= text.len(),
        forall|k: int| i <= k < j ==> #[trigger] text[k] == ' ',
        j < text.len() ==> text[j as int] != ' ',
    ensures
        space_run(text, i) == j - i,
    decreases j - i,
{
    if i < j {
        lemma_space_run(text, i + 1, j);
    }
}

/// Scans the line breaks that start at index `i`, just after the line break
/// character `end_char`, with `k` lines counted so far.
pub open spec fn layout_scan(text: Seq<char>, i: nat, end_char: char, k: nat) -> Layout
    decreases text.len() - i,
{
    let a = if end_char == '\r' && char_at(text, i) == Some('\n') { i + 1 } else { i };
    let j = a + space_run(text, a);
    if j < text.len() {
        let nc = text[j as int];
        if nc == '\t' {
            Layout::Tab(j)
        } else if spec_is_newline(nc) {
            layout_scan(text, j + 1, nc, k + 1)
        } else if (j - a) % 4 != 0 {
            Layout::BadIndent((j - a) as nat)
        } else {
            Layout::Lines(k, ((j - a) / 4) as nat, j)
        }
    } else {
        Layout::Lines(k, 0, j)
    }
}

pub open spec fn kinds(s: Seq<Token>) -> Seq<TokenKind> {
    s.map_values(|t: Token| t.kind)
}

proof fn lemma_kinds_push(s: Seq<Token>, t: Token)
    ensures
        kinds(s.push(t)) == kinds(s).push(t.kind),
{
    assert(kinds(s.push(t)) =~= kinds(s).push(t.kind));
}

proof fn lemma_kinds_cons(t: Token, s: Seq<Token>)
    ensures
        kinds(seq![t] + s) == seq![t.kind] + kinds(s),
{
    assert(kinds(seq![t] + s) =~= seq![t.kind] + kinds(s));
}

pub open spec fn newlines(k: nat) -> Seq<TokenKind> {
    Seq::new(k, |i: int| TokenKind::Newline)
}

pub open spec fn indents(k: nat) -> Seq<TokenKind> {
    Seq::new(k, |i: int| TokenKind::Indent)
}

pub open spec fn unindents(k: nat) -> Seq<TokenKind> {
    Seq::new(k, |i: int| TokenKind::Unindent)
}

/// The layout tokens for `k` line breaks that lead from indentation level
/// `old` to level `n`.
pub open spec fn layout_kinds(k: nat, old: nat, n: nat) -> Seq<TokenKind> {
    if n > old {
        newlines(k) + indents((n - old) as nat)
    } else if n < old {
        seq![TokenKind::Newline] + unindents((old - n) as nat) + newlines((k - 1) as nat)
    } else {
        newlines(k)
    }
}

pub open spec fn unknown_char_message(c: char) -> Seq<char> {
    "Could not parse character '"@ + seq![c] + "'"@
}

pub open spec fn tab_message() -> Seq<char> {
    "Tabs cannot be used as an indentation char"@
}

pub open spec fn indent_message(spaces: nat) -> Seq<char> {
    "Indent contains "@ + crate::text_util::decimal(spaces) + " spaces: must be a multiple of four"@
}

/// The bracket token that `c` stands for.
pub open spec fn bracket_kind(c: char) -> Option<TokenKind> {
    if c == '(' {
        Some(TokenKind::LParen)
    } else if c == ')' {
        Some(TokenKind::RParen)
    } else if c == '{' {
        Some(TokenKind::LBrace)
    } else if c == '}' {
        Some(TokenKind::RBrace)
    } else if c == '[' {
        Some(TokenKind::LSquare)
    } else if c == ']' {
        Some(TokenKind::RSquare)
    } else {
        None
    }
}

/// Whether a token of kind `k` is what the text at index `s` scans to, the
/// scan ending at index `end`. The first character decides which scanner
/// applies, tried in this order: brackets, operators, comments, words,
/// numbers, strings.
pub open spec fn lexed_from(text: Seq<char>, s: nat, k: TokenKind, end: nat) -> bool {
    &&& s < text.len()
    &&& {
        let c = text[s as int];
        if bracket_kind(c) is Some {
            k == bracket_kind(c)->0 && end == s + 1
        } else if simple_operator(c, char_at(text, s + 1)) is Some {
            let (op, two) = simple_operator(c, char_at(text, s + 1))->0;
            k == op && end == s + 1 + if two { 1nat } else { 0nat }
        } else if c == '#' {
            k is Comment
        } else if spec_is_identifier_start(c) {
            s + 1 <= end && word_token(seq![c] + text.subrange((s + 1) as int, end as int), k)
        } else if spec_is_digit(c) {
            match number_scan(text, s + 1, c) {
                NumScan::Int(base, digits, e) => end == e
                    && (k matches TokenKind::IntLiteral(lit) && lit.base == base && lit.digits@ == digits),
                NumScan::Float(i, f, p, e) => end == e
                    && (k matches TokenKind::FloatLiteral(lit) && lit.integral_digits@ == i
                        && lit.fractional_digits@ == f && lit.power@ == p),
                _ => false,
            }
        } else if c == '"' {
            match scan_string(text, s + 1, false, Seq::empty()) {
                Some((body, e)) => end == e && (k matches TokenKind::StringLiteral(b) && b@ == body),
                None => false,
            }
        } else {
            false
        }
    }
}

/// The first index from `i` on whose character is not skipped before a
/// token: any whitespace inside brackets, whitespace other than line breaks
/// outside them.
pub open spec fn token_start(text: Seq<char>, i: nat, in_brackets: bool) -> nat
    decreases text.len() - i,
{
    if i < text.len() && whitespace(text[i as int]) && (in_brackets || !spec_is_newline(text[i as int])) {
        token_start(text, i + 1, in_brackets)
    } else {
        i
    }
}

proof fn lemma_token_start(text: Seq<char>, a: nat, b: nat, in_brackets: bool)
    requires
        a <= b <= text.len(),
        forall|i: int| a <= i < b ==> whitespace(#[trigger] text[i]) && (in_brackets || !spec_is_newline(text[i])),
        b < text.len() ==> !(whitespace(text[b as int]) && (in_brackets || !spec_is_newline(text[b as int]))),
    ensures
        token_start(text, a, in_brackets) == b,
    decreases b - a,
{
    if a < b {
        lemma_token_start(text, a + 1, b, in_brackets);
    }
}

/// Token `t` is what the text scans to at the token's own position, and
/// that position is where the scan puts it.
pub open spec fn token_read(text: Seq<char>, t: Token) -> bool {
    &&& exists|end: nat| lexed_from(text, t.position.offset as nat, t.kind, end)
    &&& t.position == crate::tokens::position_at(text, t.position.offset as nat)
}

/// Whether the scan of a token that starts with `c` cannot fail.
pub open spec fn always_scans(c: char) -> bool {
    bracket_kind(c) is Some || c == '+' || c == '-' || c == '*' || c == '/' || c == '%'
        || c == '>' || c == '<' || c == '=' || c == '!' || c == '~' || c == '^' || c == '|'
        || c == '&' || c == '.' || c == ':' || c == ',' || c == '#' || spec_is_identifier_start(c)
}

/// What one token adds to the indentation depth.
pub open spec fn step(k: TokenKind) -> int {
    if k == TokenKind::Indent {
        1
    } else if k == TokenKind::Unindent {
        -1
    } else {
        0
    }
}

fn is_inline_space(c: char) -> (r: bool)
    ensures
        r == (whitespace(c) && !spec_is_newline(c)),
{
    char_is_whitespace(c) && !is_newline(c)
}

fn is_space(c: char) -> (r: bool)
    ensures
        r == whitespace(c),
{
    char_is_whitespace(c)
}

/// The scanner's state for one pass over a text: the characters, the
/// indentation depth reached, the bracket nesting, and the tokens decided but
/// not yet handed out.
pub struct Lexer {
    stream: CharStream,
    indent_level: usize,
    brace_level: usize,
    queued: VecDeque<Token>,
    emitted_depth: Ghost<int>,
}

impl Lexer {
    pub closed spec fn wf(&self) -> bool {
        &&& self.stream.wf()
        &&& self.emitted_depth@ + depth(self.queued@) == self.indent_level
        &&& forall|i: int| 0 <= i < self.queued@.len() ==> layout_kind((#[trigger] self.queued@[i]).kind)
        &&& prefixes_at_least(self.queued@, self.emitted_depth@)
    }

    /// Every prefix of the tokens handed out so far has depth zero or more.
    pub proof fn lemma_handed_out_nonnegative(&self)
        requires
            self.wf(),
        ensures
            self.handed_out_depth() >= 0,
    {
        assert(self.queued@.subrange(0, 0) =~= Seq::<Token>::empty());
        lemma_depth_empty();
    }

    /// The indentation depth that the tokens handed out so far add up to.
    pub closed spec fn handed_out_depth(&self) -> int {
        self.emitted_depth@
    }

    pub closed spec fn text(&self) -> Seq<char> {
        self.stream.text()
    }

    pub closed spec fn spec_position(&self) -> Position {
        self.stream.spec_position()
    }

    /// Characters not yet read.
    pub closed spec fn remaining(&self) -> nat {
        (self.stream.text().len() - self.stream.consumed()) as nat
    }

    /// Characters read so far.
    pub closed spec fn consumed(&self) -> nat {
        self.stream.consumed()
    }

    /// Whether the scan is inside an open bracket.
    pub closed spec fn in_brackets(&self) -> bool {
        self.brace_level != 0
    }

    /// The kinds of the tokens decided but not yet handed out.
    pub closed spec fn pending_kinds(&self) -> Seq<TokenKind> {
        kinds(self.queued@)
    }

    /// Tokens decided but not yet handed out.
    pub closed spec fn pending(&self) -> nat {
        self.queued@.len()
    }

    pub closed spec fn indent(&self) -> nat {
        self.indent_level as nat
    }

    /// Nothing is left to hand out but the end of the input.
    pub open spec fn exhausted(&self) -> bool {
        &&& self.remaining() == 0
        &&& self.pending() == 0
        &&& self.indent() == 0
    }

    /// `after` is strictly closer to the end of the scan than `self`.
    pub open spec fn advanced_to(&self, after: &Lexer) -> bool {
        ||| after.remaining() < self.remaining()
        ||| (after.remaining() == self.remaining() && after.pending() < self.pending())
        ||| (after.remaining() == self.remaining() && after.pending() == self.pending()
            && after.indent() < self.indent())
    }

    pub fn new(input: &str) -> (r: Lexer)
        ensures
            r.wf(),
            r.text() == input@,
            r.handed_out_depth() == 0,
            r.spec_position() == (Position { lineno: 0, column: 0, offset: 0 }),
            r.consumed() == 0,
            r.pending() == 0,
            r.indent() == 0,
            !r.in_brackets(),
    {
        let q: VecDeque<Token> = VecDeque::new();
        Lexer {
            stream: CharStream::new(input),
            indent_level: 0,
            brace_level: 0,
            queued: q,
            emitted_depth: Ghost(0),
        }
    }

    fn match_parentheses(&mut self, c: char) -> (r: Option<TokenKind>)
        requires
            old(self).wf(),
        ensures
            final(self).wf(),
            final(self).stream == old(self).stream,
            final(self).queued == old(self).queued,
            final(self).indent_level == old(self).indent_level,
            final(self).emitted_depth == old(self).emitted_depth,
            r == bracket_kind(c),
            r is None ==> final(self).brace_level == old(self).brace_level,
            r matches Some(k) ==> step(k) == 0 && k != TokenKind::EndOfFile,
    {
        let kind = if c == '(' {
            TokenKind::LParen
        } else if c == ')' {
            TokenKind::RParen
        } else if c == '{' {
            TokenKind::LBrace
        } else if c == '}' {
            TokenKind::RBrace
        } else if c == '[' {
            TokenKind::LSquare
        } else if c == ']' {
            TokenKind::RSquare
        } else {
            return None;
        };
        if c == '(' || c == '{' || c == '[' {
            self.brace_level = self.brace_level.saturating_add(1);
        } else {
            self.brace_level = self.brace_level.saturating_sub(1);
        }
        Some(kind)
    }

    /// Handles a line break outside brackets: one `Newline` per line, blank
    /// lines included, then the change of indentation of the next non-blank
    /// line. `Indent`s go after all the `Newline`s; `Unindent`s go right after
    /// the first one, so that blank lines belong to the shallower block.
    fn match_newline(&mut self, c: char, break_start: Position) -> (r: Result<Option<VecDeque<Token>>, LexerError>)
        requires
            old(self).stream.wf(),
        ensures
            final(self).stream.wf(),
            final(self).stream.text() == old(self).stream.text(),
            final(self).stream.consumed() >= old(self).stream.consumed(),
            final(self).queued == old(self).queued,
            final(self).emitted_depth == old(self).emitted_depth,
            final(self).brace_level == old(self).brace_level,
            r matches Ok(Some(acc)) ==> acc@.len() >= 1 && acc@[0].kind == TokenKind::Newline
                && prefixes_at_least(acc@, old(self).indent_level as int)
                && depth(acc@) == final(self).indent_level - old(self).indent_level
                && forall|i: int| 0 <= i < acc@.len() ==> layout_kind((#[trigger] acc@[i]).kind),
            !(r matches Ok(Some(_))) ==> final(self).indent_level == old(self).indent_level,
            r matches Ok(None) <==> (old(self).brace_level != 0 || !spec_is_newline(c)),
            old(self).brace_level == 0 && spec_is_newline(c) ==> match layout_scan(old(self).stream.text(), old(self).stream.consumed(), c, 1) {
                Layout::Lines(k, n, end) => {
                    &&& r matches Ok(Some(acc))
                    &&& kinds(acc@) == layout_kinds(k, old(self).indent_level as nat, n)
                    &&& final(self).indent_level == n
                    &&& final(self).stream.consumed() == end
                },
                Layout::Tab(j) => {
                    &&& r matches Err(e)
                    &&& e.message@ == tab_message()
                    &&& e.position == crate::tokens::position_at(old(self).stream.text(), j)
                },
                Layout::BadIndent(spaces) => {
                    &&& r matches Err(e)
                    &&& e.message@ == indent_message(spaces)
                },
            },
    {
        if self.brace_level != 0 || !is_newline(c) {
            return Ok(None);
        }
        let mut acc: VecDeque<Token> = VecDeque::new();
        let mut line_end_char = c;
        let mut curr_line_start = break_start;
        let mut new_indent_level: usize = 0;
        let ghost text = self.stream.text();
        let ghost start_consumed = self.stream.consumed();
        proof {
            assert(count_kind(acc@, TokenKind::Indent) == 0);
            assert(count_kind(acc@, TokenKind::Unindent) == 0);
            assert(kinds(acc@) =~= newlines(0));
            lemma_prefixes_empty(0);
            assert(acc@ =~= Seq::<Token>::empty());
        }
        loop
            invariant_except_break
                layout_scan(text, start_consumed, c, 1) == layout_scan(text, self.stream.consumed(), line_end_char, acc@.len() + 1),
            invariant
                self.stream.wf(),
                self.stream.text() == text,
                text == old(self).stream.text(),
                start_consumed == old(self).stream.consumed(),
                self.stream.consumed() >= start_consumed,
                self.queued == old(self).queued,
                self.emitted_depth == old(self).emitted_depth,
                self.brace_level == old(self).brace_level,
                self.indent_level == old(self).indent_level,
                depth(acc@) == 0,
                old(self).brace_level == 0 && spec_is_newline(c),
                acc@.len() >= 1 ==> acc@[0].kind == TokenKind::Newline,
                forall|i: int| 0 <= i < acc@.len() ==> layout_kind((#[trigger] acc@[i]).kind),
                kinds(acc@) == newlines(acc@.len()),
                prefixes_at_least(acc@, 0),
            ensures
                prefixes_at_least(acc@, 0),
                forall|i: int| 0 <= i < acc@.len() ==> layout_kind((#[trigger] acc@[i]).kind),
                acc@.len() >= 1,
                acc@[0].kind == TokenKind::Newline,
                depth(acc@) == 0,
                kinds(acc@) == newlines(acc@.len()),
                layout_scan(text, start_consumed, c, 1) == Layout::Lines(acc@.len(), new_indent_level as nat, self.stream.consumed()),
            decreases text.len() - self.stream.consumed(),
        {
            let newline = Token { kind: TokenKind::Newline, position: curr_line_start };
            proof {
                lemma_depth_append(acc@, seq![newline]);
                lemma_depth_single(newline);
            }
            let ghost prev = acc@;
            let ghost line_from = self.stream.consumed();
            let ghost old_end = line_end_char;
            proof {
                lemma_depth_single(newline);
                lemma_prefixes_push(prev, newline, 0);
            }
            acc.push_back(newline);
            assert(acc@ =~= prev + seq![newline]);
            proof {
                lemma_kinds_push(prev, newline);
                assert(prev.push(newline) == acc@);
                assert(kinds(acc@) =~= newlines(acc@.len()));
            }
            if line_end_char == '\r' {
                let _ = self.stream.read_if_char('\n');
            }
            let mut num_spaces: usize = 0;
            let ghost before = self.stream.consumed();
            proof { self.stream.lemma_wf(); }
            assert(before == (if line_end_char == '\r' && char_at(text, line_from) == Some('\n') { line_from + 1 } else { line_from }));
            loop
                invariant
                    self.stream.wf(),
                    self.stream.text() == text,
                    before <= self.stream.consumed(),
                    self.stream.consumed() >= start_consumed,
                    text == old(self).stream.text(),
                    start_consumed == old(self).stream.consumed(),
                    self.queued == old(self).queued,
                    self.emitted_depth == old(self).emitted_depth,
                    self.brace_level == old(self).brace_level,
                    self.indent_level == old(self).indent_level,
                    num_spaces == self.stream.consumed() - before,
                    old(self).brace_level == 0 && spec_is_newline(c),
                    forall|i: int| before <= i < self.stream.consumed() ==> #[trigger] text[i] == ' ',
                    before == (if old_end == '\r' && char_at(text, line_from) == Some('\n') { line_from + 1 } else { line_from }),
                    acc@.len() >= 1,
                    layout_scan(text, start_consumed, c, 1) == layout_scan(text, line_from, old_end, acc@.len()),
                ensures
                    num_spaces == self.stream.consumed() - before,
                    before <= self.stream.consumed(),
                    forall|i: int| before <= i < self.stream.consumed() ==> #[trigger] text[i] == ' ',
                    self.stream.ahead(0) != Some(' '),
                    self.stream.ahead(0) != Some('\t'),
                decreases text.len() - self.stream.consumed(),
            {
                proof { self.stream.lemma_wf(); }
                match self.stream.peek_char() {
                    Some(sc) => {
                        if sc == ' ' {
                            let _ = self.stream.read_char();
                            num_spaces = num_spaces + 1;
                        } else if sc == '\t' {
                            proof {
                                lemma_space_run(text, before, self.stream.consumed());
                                lemma_position_at_bounds(text, self.stream.consumed());
                                assert(layout_scan(text, line_from, old_end, acc@.len()) == Layout::Tab(self.stream.consumed()));
                            }
                            return Err(LexerError {
                                position: self.stream.position(),
                                message: string_of("Tabs cannot be used as an indentation char"),
                            });
                        } else {
                            break;
                        }
                    },
                    None => {
                        break;
                    },
                }
            }
            proof {
                self.stream.lemma_wf();
                lemma_space_run(text, before, self.stream.consumed());
            }
            match self.stream.peek_char() {
                Some(nc) => {
                    if is_newline(nc) {
                        curr_line_start = self.stream.position();
                        let _ = self.stream.read_char();
                        line_end_char = nc;
                        assert(layout_scan(text, line_from, old_end, acc@.len()) == layout_scan(text, self.stream.consumed(), nc, acc@.len() + 1));
                    } else {
                        if num_spaces % 4 != 0 {
                            let mut message = string_of("Indent contains ");
                            push_decimal(&mut message, num_spaces as u128);
                            push_str(&mut message, " spaces: must be a multiple of four");
                            assert(message@ =~= indent_message(num_spaces as nat));
                            assert(layout_scan(text, line_from, old_end, acc@.len()) == Layout::BadIndent(num_spaces as nat));
                            return Err(LexerError { position: curr_line_start, message });
                        }
                        new_indent_level = num_spaces / 4;
                        assert(layout_scan(text, line_from, old_end, acc@.len()) == Layout::Lines(acc@.len(), new_indent_level as nat, self.stream.consumed()));
                        break;
                    }
                },
                None => {
                    new_indent_level = 0;
                    assert(layout_scan(text, line_from, old_end, acc@.len()) == Layout::Lines(acc@.len(), 0, self.stream.consumed()));
                    break;
                },
            }
        }
        let ghost k = acc@.len();
        if new_indent_level > self.indent_level {
            let delta = new_indent_level - self.indent_level;
            let mut i: usize = 0;
            while i < delta
                invariant
                    i <= delta,
                    depth(acc@) == i,
                    acc@.len() >= 1,
                    acc@[0].kind == TokenKind::Newline,
                    forall|j: int| 0 <= j < acc@.len() ==> layout_kind((#[trigger] acc@[j]).kind),
                    kinds(acc@) == newlines(k) + indents(i as nat),
                    prefixes_at_least(acc@, 0),
                decreases delta - i,
            {
                let indent = Token { kind: TokenKind::Indent, position: curr_line_start };
                proof {
                    lemma_depth_append(acc@, seq![indent]);
                    lemma_depth_single(indent);
                }
                let ghost prev = acc@;
                proof {
                    lemma_prefixes_push(prev, indent, 0);
                }
                acc.push_back(indent);
                assert(acc@ =~= prev + seq![indent]);
                proof {
                    lemma_kinds_push(prev, indent);
                    assert(prev.push(indent) == acc@);
                    assert(kinds(acc@) =~= newlines(k) + indents(i as nat + 1));
                }
                i = i + 1;
            }
        } else if new_indent_level < self.indent_level {
            let ghost whole = acc@;
            let first = match acc.pop_front() {
                Some(t) => t,
                None => {
                    return Err(LexerError {
                        position: break_start,
                        message: string_of("Newline scanner found no newline"),
                    });
                },
            };
            proof {
                lemma_depth_append(seq![first], acc@);
                lemma_depth_single(first);
                assert(seq![first] + acc@ =~= whole);
                lemma_kinds_cons(first, acc@);
                lemma_prefixes_drop_first(whole, 0);
                assert(whole.subrange(1, whole.len() as int) =~= acc@);
                assert(whole[0] == first);
                lemma_prefixes_raise(acc@, 0, new_indent_level as int);
                assert(kinds(whole) == newlines(k));
                assert(k == acc@.len() + 1);
                assert forall|i: int| 0 <= i < acc@.len() implies kinds(acc@)[i] == TokenKind::Newline by {
                    assert(kinds(acc@)[i] == (seq![first.kind] + kinds(acc@))[i + 1]);
                    assert(newlines(k)[i + 1] == TokenKind::Newline);
                }
                assert(kinds(acc@) =~= newlines((k - 1) as nat));
            }
            let delta = self.indent_level - new_indent_level;
            let mut i: usize = 0;
            while i < delta
                invariant
                    i <= delta,
                    depth(acc@) == step(first.kind) * -1 - i,
                    forall|j: int| 0 <= j < acc@.len() ==> layout_kind((#[trigger] acc@[j]).kind),
                    kinds(acc@) == unindents(i as nat) + newlines((k - 1) as nat),
                    prefixes_at_least(acc@, new_indent_level + i),
                    new_indent_level + delta == self.indent_level,
                    first.kind == TokenKind::Newline,
                decreases delta - i,
            {
                let unindent = Token { kind: TokenKind::Unindent, position: break_start };
                proof {
                    lemma_depth_append(seq![unindent], acc@);
                    lemma_depth_single(unindent);
                }
                let ghost prev = acc@;
                proof {
                    lemma_prefixes_cons(unindent, prev, new_indent_level + i + 1);
                }
                acc.push_front(unindent);
                assert(acc@ =~= seq![unindent] + prev);
                proof {
                    lemma_kinds_cons(unindent, prev);
                    assert(kinds(acc@) =~= unindents(i as nat + 1) + newlines((k - 1) as nat));
                }
                i = i + 1;
            }
            proof {
                lemma_depth_append(seq![first], acc@);
                lemma_depth_single(first);
            }
            let ghost prev = acc@;
            proof {
                lemma_prefixes_cons(first, prev, self.indent_level as int);
            }
            acc.push_front(first);
            assert(acc@ =~= seq![first] + prev);
            proof {
                lemma_kinds_cons(first, prev);
                assert(kinds(acc@) =~= seq![TokenKind::Newline] + unindents(delta as nat) + newlines((k - 1) as nat));
            }
        }
        proof {
            if new_indent_level >= self.indent_level {
                lemma_prefixes_raise(acc@, 0, self.indent_level as int);
            }
        }
        self.indent_level = new_indent_level;
        Ok(Some(acc))
    }

    /// Hands out the next token. Past the end of the input, open blocks are
    /// closed with one `Unindent` per call, and then `EndOfFile` is returned
    /// on every call.
    #[verifier::rlimit(50)]
    pub fn next_token(&mut self) -> (r: Result<Token, LexerError>)
        requires
            old(self).wf(),
        ensures
            final(self).wf(),
            final(self).text() == old(self).text(),
            r matches Ok(tok) ==> final(self).handed_out_depth() == old(self).handed_out_depth() + step(tok.kind),
            match r {
                Ok(tok) => if tok.kind == TokenKind::EndOfFile {
                    &&& final(self).exhausted()
                    &&& final(self).handed_out_depth() == 0
                    &&& tok.position == final(self).spec_position()
                } else {
                    old(self).advanced_to(&*final(self))
                },
                Err(_) => true,
            },
            match r {
                Ok(tok) => !layout_kind(tok.kind) && tok.kind != TokenKind::EndOfFile ==> {
                    &&& old(self).pending() == 0
                    &&& tok.position.offset == token_start(old(self).text(), old(self).consumed(), old(self).in_brackets())
                    &&& tok.position == crate::tokens::position_at(old(self).text(), tok.position.offset as nat)
                    &&& old(self).consumed() <= tok.position.offset
                    &&& forall|i: int| old(self).consumed() <= i < tok.position.offset
                        ==> whitespace(#[trigger] old(self).text()[i])
                    &&& lexed_from(old(self).text(), tok.position.offset as nat, tok.kind, final(self).consumed())
                },
                Err(_) => true,
            },
            old(self).pending() > 0 ==> r is Ok,
            r matches Ok(tok) && !layout_kind(tok.kind) ==> final(self).pending() == 0,
            match r {
                Ok(tok) => !layout_kind(tok.kind) && tok.kind != TokenKind::EndOfFile
                    ==> tok.position.offset < final(self).consumed(),
                Err(_) => true,
            },
            final(self).consumed() >= old(self).consumed(),
            ({
                let s = token_start(old(self).text(), old(self).consumed(), old(self).in_brackets());
                old(self).pending() == 0 && s < old(self).text().len() && !old(self).in_brackets()
                    && spec_is_newline(old(self).text()[s as int])
            }) ==> {
                let s = token_start(old(self).text(), old(self).consumed(), old(self).in_brackets());
                match layout_scan(old(self).text(), s + 1, old(self).text()[s as int], 1) {
                    Layout::Lines(k, n, end) => {
                        &&& r matches Ok(tok)
                        &&& tok.kind == TokenKind::Newline
                        &&& final(self).indent() == n
                        &&& final(self).consumed() == end
                        &&& seq![tok.kind] + final(self).pending_kinds() == layout_kinds(k, old(self).indent(), n)
                    },
                    Layout::Tab(j) => {
                        &&& r matches Err(e)
                        &&& e.message@ == tab_message()
                        &&& e.position == crate::tokens::position_at(old(self).text(), j)
                    },
                    Layout::BadIndent(spaces) => {
                        &&& r matches Err(e)
                        &&& e.message@ == indent_message(spaces)
                    },
                }
            },
            ({
                let s = token_start(old(self).text(), old(self).consumed(), old(self).in_brackets());
                let c = old(self).text()[s as int];
                old(self).pending() == 0 && s < old(self).text().len() && !always_scans(c) && !spec_is_digit(c)
                    && c != '"' && !(!old(self).in_brackets() && spec_is_newline(c))
            }) ==> {
                let s = token_start(old(self).text(), old(self).consumed(), old(self).in_brackets());
                &&& r matches Err(e)
                &&& e.message@ == unknown_char_message(old(self).text()[s as int])
                &&& e.position == crate::tokens::position_at(old(self).text(), s)
            },
            ({
                let s = token_start(old(self).text(), old(self).consumed(), old(self).in_brackets());
                s < old(self).text().len() && always_scans(old(self).text()[s as int])
                    && !(!old(self).in_brackets() && spec_is_newline(old(self).text()[s as int]))
            }) ==> r is Ok,
            old(self).remaining() == 0 && old(self).pending() == 0 && old(self).indent() > 0 ==> {
                &&& r == Ok::<Token, LexerError>(Token { kind: TokenKind::Unindent, position: old(self).spec_position() })
                &&& final(self).indent() == old(self).indent() - 1
                &&& final(self).remaining() == 0
                &&& final(self).pending() == 0
                &&& final(self).spec_position() == old(self).spec_position()
            },
            old(self).exhausted() ==> {
                &&& r == Ok::<Token, LexerError>(Token { kind: TokenKind::EndOfFile, position: old(self).spec_position() })
                &&& final(self).exhausted()
                &&& final(self).spec_position() == old(self).spec_position()
            },
    {
        match self.queued.pop_front() {
            Some(tok) => {
                proof {
                    lemma_prefixes_drop_first(old(self).queued@, old(self).emitted_depth@);
                    assert(old(self).queued@.subrange(1, old(self).queued@.len() as int) =~= self.queued@);
                    assert(seq![tok] + self.queued@ =~= old(self).queued@);
                    lemma_depth_append(seq![tok], self.queued@);
                    lemma_depth_single(tok);
                }
                self.emitted_depth = Ghost(self.emitted_depth@ + step(tok.kind));
                return Ok(tok);
            },
            None => {},
        }
        proof { self.stream.lemma_wf(); }
        if self.brace_level == 0 {
            let _ = self.stream.skip_while(&is_inline_space);
        } else {
            let _ = self.stream.skip_while(&is_space);
        }
        proof {
            self.stream.lemma_wf();
            lemma_position_at_bounds(self.stream.text(), self.stream.consumed());
            let ib = old(self).in_brackets();
            assert forall|i: int| old(self).consumed() <= i < self.stream.consumed()
                implies whitespace(#[trigger] old(self).text()[i]) && (ib || !spec_is_newline(old(self).text()[i])) by {
                let ch = old(self).text()[i];
                if self.brace_level == 0 {
                    assert(is_inline_space.ensures((ch,), true));
                } else {
                    assert(is_space.ensures((ch,), true));
                }
            }
            let b = self.stream.consumed();
            if b < self.stream.text().len() {
                let ch = self.stream.text()[b as int];
                if self.brace_level == 0 {
                    assert(is_inline_space.ensures((ch,), false));
                } else {
                    assert(is_space.ensures((ch,), false));
                }
            }
            lemma_token_start(old(self).text(), old(self).consumed(), b, ib);
        }
        let start = self.stream.position();
        let c = match self.stream.read_char() {
            Some(c) => c,
            None => {
                if self.indent_level > 0 {
                    proof {
                        lemma_depth_empty();
                        assert(self.queued@ =~= Seq::<Token>::empty());
                        lemma_prefixes_empty(self.emitted_depth@ - 1);
                    }
                    self.indent_level = self.indent_level - 1;
                    self.emitted_depth = Ghost(self.emitted_depth@ - 1);
                    return Ok(Token { kind: TokenKind::Unindent, position: start });
                } else {
                    return Ok(Token { kind: TokenKind::EndOfFile, position: start });
                }
            },
        };
        let ghost after_c = self.stream.consumed();
        let ghost old_stream = self.stream;
        assert(after_c == old(self).stream.consumed() + 1 || old(self).remaining() > self.remaining());
        let kind = if let Some(k) = self.match_parentheses(c) {
            assert(k != TokenKind::EndOfFile && step(k) == 0);
            k
        } else if self.brace_level == 0 && is_newline(c) {
            // A line break outside brackets starts no other kind of token.
            match self.match_newline(c, start) {
                Err(e) => {
                    return Err(e);
                },
                Ok(Some(acc)) => {
                    proof { self.stream.lemma_wf(); old(self).stream.lemma_wf(); }
                    assert(self.remaining() < old(self).remaining());
                    proof {
                        lemma_depth_empty();
                        assert(old(self).queued@ =~= Seq::<Token>::empty());
                    }
                    self.queued = acc;
                    return self.next_queued();
                },
                Ok(None) => {
                    return Err(LexerError { position: start, message: string_of("Line break outside the layout scanner") });
                },
            }
        } else if let Some(k) = match_simple_operator(&mut self.stream, c) {
            proof { lemma_operator_plain(c, old_stream.ahead(0)); }
            assert(k != TokenKind::EndOfFile && step(k) == 0);
            k
        } else if let Some(k) = match_comment(&mut self.stream, c) {
            assert(k != TokenKind::EndOfFile && step(k) == 0);
            k
        } else if let Some(k) = match_identifier_or_keyword(&mut self.stream, c) {
            proof {
                lemma_keyword_plain(seq![c] + self.stream.text().subrange(after_c as int, self.stream.consumed() as int));
            }
            assert(k != TokenKind::EndOfFile && step(k) == 0);
            k
        } else {
            match match_number(&mut self.stream, c) {
                Err(e) => {
                    return Err(e);
                },
                Ok(Some(k)) => {
                    assert(k != TokenKind::EndOfFile && step(k) == 0);
                    k
                },
                Ok(None) => {
                    match match_string(&mut self.stream, c) {
                        Err(e) => {
                            return Err(e);
                        },
                        Ok(Some(k)) => {
                            assert(k != TokenKind::EndOfFile && step(k) == 0);
                            k
                        },
                        Ok(None) => {
                            let mut message = string_of("Could not parse character '");
                            push_char(&mut message, c);
                            push_str(&mut message, "'");
                            assert(message@ =~= unknown_char_message(c));
                            return Err(LexerError { position: start, message });
                        },
                    }
                },
            }
        };
        proof { self.stream.lemma_wf(); }
        assert(self.stream.consumed() >= after_c);
        assert(self.remaining() < old(self).remaining());
        Ok(Token { kind, position: start })
    }

    fn next_queued(&mut self) -> (r: Result<Token, LexerError>)
        requires
            old(self).stream.wf(),
            old(self).queued@.len() >= 1,
            old(self).queued@[0].kind == TokenKind::Newline,
            forall|i: int| 0 <= i < old(self).queued@.len() ==> layout_kind((#[trigger] old(self).queued@[i]).kind),
            old(self).emitted_depth@ + depth(old(self).queued@) == old(self).indent_level,
            prefixes_at_least(old(self).queued@, old(self).emitted_depth@),
        ensures
            final(self).wf(),
            final(self).stream == old(self).stream,
            final(self).indent_level == old(self).indent_level,
            final(self).queued@.len() == old(self).queued@.len() - 1,
            final(self).emitted_depth == old(self).emitted_depth,
            r matches Ok(tok) && tok.kind == TokenKind::Newline && old(self).queued@ == seq![tok] + final(self).queued@,
    {
        let ghost whole = self.queued@;
        let tok = self.queued.pop_front();
        proof {
            lemma_prefixes_drop_first(whole, self.emitted_depth@);
            assert(whole.subrange(1, whole.len() as int) =~= self.queued@);
            assert(step(whole[0].kind) == 0);
            let t = whole[0];
            assert(seq![t] + self.queued@ =~= whole);
            assert forall|i: int| 0 <= i < self.queued@.len() implies layout_kind((#[trigger] self.queued@[i]).kind) by {
                assert(self.queued@[i] == whole[i + 1]);
            }
            lemma_depth_append(seq![t], self.queued@);
            lemma_depth_single(t);
        }
        match tok {
            Some(tok) => Ok(tok),
            None => Err(LexerError { position: Position::start(), message: String::new() }),
        }
    }
}

/// Splits `text` into tokens, ending with a `Newline` when any token is
/// produced. Every block opened by an `Indent` is closed by an `Unindent`.
pub fn lex(text: &str) -> (r: Result<Vec<Token>, LexerError>)
    ensures
        r matches Ok(tokens) ==> {
            &&& count_kind(tokens@, TokenKind::Indent) == count_kind(tokens@, TokenKind::Unindent)
            &&& prefixes_at_least(tokens@, 0)
            &&& tokens@.len() > 0 ==> tokens@.last().kind == TokenKind::Newline
            &&& forall|i: int| 0 <= i < tokens@.len() ==> (#[trigger] tokens@[i]).kind != TokenKind::EndOfFile
            &&& forall|i: int| 0 <= i < tokens@.len() && !layout_kind(tokens@[i].kind)
                ==> token_read(text@, #[trigger] tokens@[i])
            &&& forall|i: int, j: int| 0 <= i < j < tokens@.len() && !layout_kind(tokens@[i].kind)
                && !layout_kind(tokens@[j].kind)
                ==> (#[trigger] tokens@[i]).position.offset < (#[trigger] tokens@[j]).position.offset
        },
        text@.len() == 0 ==> (r matches Ok(tokens) && tokens@.len() == 0),
{
    let mut lexer = Lexer::new(text);
    let mut tokens: Vec<Token> = Vec::new();
    proof {
        lemma_prefixes_empty(0);
        assert(tokens@ =~= Seq::<Token>::empty());
    }
    let end;
    loop
        invariant
            lexer.wf(),
            lexer.text() == text@,
            lexer.handed_out_depth() == depth(tokens@),
            prefixes_at_least(tokens@, 0),
            forall|i: int| 0 <= i < tokens@.len() ==> (#[trigger] tokens@[i]).kind != TokenKind::EndOfFile,
            forall|i: int| 0 <= i < tokens@.len() && !layout_kind(tokens@[i].kind)
                ==> token_read(text@, #[trigger] tokens@[i]) && tokens@[i].position.offset < lexer.consumed(),
            forall|i: int, j: int| 0 <= i < j < tokens@.len() && !layout_kind(tokens@[i].kind)
                && !layout_kind(tokens@[j].kind)
                ==> (#[trigger] tokens@[i]).position.offset < (#[trigger] tokens@[j]).position.offset,
            text@.len() == 0 ==> tokens@.len() == 0 && lexer.exhausted(),
        ensures
            depth(tokens@) == 0,
            prefixes_at_least(tokens@, 0),
            forall|i: int| 0 <= i < tokens@.len() ==> (#[trigger] tokens@[i]).kind != TokenKind::EndOfFile,
            forall|i: int| 0 <= i < tokens@.len() && !layout_kind(tokens@[i].kind)
                ==> token_read(text@, #[trigger] tokens@[i]),
            forall|i: int, j: int| 0 <= i < j < tokens@.len() && !layout_kind(tokens@[i].kind)
                && !layout_kind(tokens@[j].kind)
                ==> (#[trigger] tokens@[i]).position.offset < (#[trigger] tokens@[j]).position.offset,
            text@.len() == 0 ==> tokens@.len() == 0,
        decreases lexer.remaining(), lexer.pending(), lexer.indent(),
    {
        let tok = match lexer.next_token() {
            Ok(t) => t,
            Err(e) => {
                return Err(e);
            },
        };
        match tok.kind {
            TokenKind::EndOfFile => {
                end = tok.position;
                break;
            },
            _ => {
                proof {
                    lemma_depth_append(tokens@, seq![tok]);
                    lemma_depth_single(tok);
                    lexer.lemma_handed_out_nonnegative();
                    lemma_prefixes_push(tokens@, tok, 0);
                }
                let ghost prev = tokens@;
                tokens.push(tok);
                assert(tokens@ =~= prev + seq![tok]);
                assert forall|i: int| 0 <= i < tokens@.len() && !layout_kind(tokens@[i].kind)
                    implies token_read(text@, #[trigger] tokens@[i]) && tokens@[i].position.offset < lexer.consumed() by {
                    if i < prev.len() {
                        assert(tokens@[i] == prev[i]);
                    }
                }
                assert forall|i: int, j: int| 0 <= i < j < tokens@.len() && !layout_kind(tokens@[i].kind)
                    && !layout_kind(tokens@[j].kind)
                    implies (#[trigger] tokens@[i]).position.offset < (#[trigger] tokens@[j]).position.offset by {
                    assert(tokens@[i] == prev[i]);
                    if j < prev.len() {
                        assert(tokens@[j] == prev[j]);
                    }
                }
            },
        }
    }
    let n = tokens.len();
    if n > 0 {
        let ends_in_newline = match tokens[n - 1].kind {
            TokenKind::Newline => true,
            _ => false,
        };
        if !ends_in_newline {
            let newline = Token { kind: TokenKind::Newline, position: end };
            proof {
                lemma_depth_append(tokens@, seq![newline]);
                lemma_depth_single(newline);
                lemma_prefixes_push(tokens@, newline, 0);
            }
            let ghost prev = tokens@;
            tokens.push(newline);
            assert(tokens@ =~= prev + seq![newline]);
        }
    }
    Ok(tokens)
}

} // verus!
