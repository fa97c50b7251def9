use vstd::prelude::*;
use crate::char_stream::CharStream;
use crate::errors::LexerError;
use crate::text_util::{push_char, string_of};
use crate::tokens::{TokenKind, Position};

verus! {

/// The character that the escape `\symbol` stands for.
pub open spec fn spec_escape(symbol: char) -> char {
    if symbol == 'n' {
        '\n'
    } else if symbol == 'r' {
        '\r'
    } else if symbol == 't' {
        '\t'
    } else {
        symbol
    }
}

pub fn escape_symbol_to_char(symbol: char) -> (r: char)
    ensures
        r == spec_escape(symbol),
{
    if symbol == 'n' {
        '\n'
    } else if symbol == 'r' {
        '\r'
    } else if symbol == 't' {
        '\t'
    } else {
        symbol
    }
}

/// Scans the body of a string literal in `text` from index `i`, with `acc`
/// holding the characters decoded so far and `escaped` telling whether the
/// previous character was a backslash. Gives the decoded text and the index
/// just past the closing quote, or `None` when the text ends first.
pub open spec fn scan_string(text: Seq<char>, i: nat, escaped: bool, acc: Seq<char>) -> Option<(Seq<char>, nat)>
    decreases text.len() - i,
{
    if i >= text.len() {
        None
    } else if escaped {
        scan_string(text, i + 1, false, acc.push(spec_escape(text[i as int])))
    } else if text[i as int] == '\\' {
        scan_string(text, i + 1, true, acc)
    } else if text[i as int] == '"' {
        Some((acc, i + 1))
    } else {
        scan_string(text, i + 1, false, acc.push(text[i as int]))
    }
}

/// Reads a string literal whose opening quote `c` was already consumed.
pub fn match_string(stream: &mut CharStream, c: char) -> (r: Result<Option<TokenKind>, LexerError>)
    requires
        old(stream).wf(),
    ensures
        final(stream).wf(),
        final(stream).text() == old(stream).text(),
        final(stream).consumed() >= old(stream).consumed(),
        c != '"' ==> r == Ok::<Option<TokenKind>, LexerError>(None) && final(stream).consumed() == old(stream).consumed(),
        c == '"' ==> match scan_string(old(stream).text(), old(stream).consumed(), false, Seq::empty()) {
            Some((body, next)) => r matches Ok(Some(TokenKind::StringLiteral(s)))
                && s@ == body && final(stream).consumed() == next,
            None => r matches Err(e) && final(stream).at_end()
                && e.position == final(stream).spec_position()
                && e.message@ == "Unexpected end of string"@,
        },
{
    if c != '"' {
        return Ok(None);
    }
    let mut output = String::new();
    let mut escaped = false;
    let ghost text = old(stream).text();
    loop
        invariant
            stream.wf(),
            stream.text() == text,
            text == old(stream).text(),
            c == '"',
            old(stream).consumed() <= stream.consumed(),
            scan_string(text, old(stream).consumed(), false, Seq::empty())
                == scan_string(text, stream.consumed(), escaped, output@),
        decreases text.len() - stream.consumed(),
    {
        proof { stream.lemma_wf(); }
        let pos = stream.position();
        let ghost k = stream.consumed();
        let curr = match stream.read_char() {
            Some(ch) => ch,
            None => {
                return Err(LexerError { position: pos, message: string_of("Unexpected end of string") });
            },
        };
        assert(text[k as int] == curr);
        if escaped {
            push_char(&mut output, escape_symbol_to_char(curr));
            escaped = false;
        } else if curr == '\\' {
            escaped = true;
        } else if curr == '"' {
            return Ok(Some(TokenKind::StringLiteral(output)));
        } else {
            push_char(&mut output, curr);
        }
    }
}

} // verus!
