use vstd::prelude::*;
use crate::text_util::{decimal, push_decimal, push_str, string_of};
use crate::tokens::{Position, Span};

verus! {

/// `line L, col C`, counting lines and columns from one.
pub open spec fn position_text(p: Position) -> Seq<char> {
    "line "@ + decimal(p.lineno as nat + 1) + ", col "@ + decimal(p.column as nat + 1)
}

/// Appends `line L, col C` for `p` to `s`.
pub fn push_position(s: &mut String, p: Position)
    ensures
        final(s)@ == old(s)@ + position_text(p),
{
    push_str(s, "line ");
    push_decimal(s, p.lineno as u128 + 1);
    push_str(s, ", col ");
    push_decimal(s, p.column as u128 + 1);
    assert(final(s)@ =~= old(s)@ + position_text(p));
}

/// A fault found while scanning the text: where it is and what it is.
/// Scanning stops at the first one.
#[derive(Clone, PartialEq, Eq, Debug)]
pub struct LexerError {
    pub position: Position,
    pub message: String,
}

impl LexerError {
    /// `line L, col C: message`.
    pub fn render(&self) -> (r: String)
        ensures
            r@ == position_text(self.position) + ": "@ + self.message@,
    {
        let mut out = String::new();
        push_position(&mut out, self.position);
        push_str(&mut out, ": ");
        push_str(&mut out, self.message.as_str());
        assert(out@ =~= position_text(self.position) + ": "@ + self.message@);
        out
    }
}

/// A failure to parse: where, if known, what, and the failure of the
/// sub-rule that caused it.
#[derive(PartialEq, Eq, Debug)]
pub struct ParserError {
    pub span: Option<Span>,
    pub message: String,
    pub source: Option<Box<ParserError>>,
}

/// The line that describes one level of a parse failure.
pub open spec fn error_line(e: &ParserError) -> Seq<char> {
    match e.span {
        Some(span) => position_text(span.start) + ": "@ + e.message@,
        None => "unknown position: "@ + e.message@,
    }
}

/// The lines describing a parse failure and each of its causes, outermost first.
pub open spec fn error_chain(e: &ParserError) -> Seq<Seq<char>>
    decreases e,
{
    match e.source {
        Some(inner) => seq![error_line(e)] + error_chain(&*inner),
        None => seq![error_line(e)],
    }
}

impl ParserError {
    fn line(&self) -> (r: String)
        ensures
            r@ == error_line(self),
    {
        let mut out = String::new();
        match self.span {
            Some(span) => {
                push_position(&mut out, span.start);
                push_str(&mut out, ": ");
            },
            None => {
                push_str(&mut out, "unknown position: ");
            },
        }
        push_str(&mut out, self.message.as_str());
        assert(out@ =~= error_line(self));
        out
    }

    /// One line per level of the failure, outermost first.
    pub fn error_lines(&self) -> (r: Vec<String>)
        ensures
            r@.len() == error_chain(self).len(),
            forall|i: int| 0 <= i < r@.len() ==> #[trigger] r@[i]@ == error_chain(self)[i],
        decreases self,
    {
        let mut out: Vec<String> = Vec::new();
        out.push(self.line());
        match &self.source {
            Some(inner) => {
                let rest = inner.error_lines();
                let mut i: usize = 0;
                while i < rest.len()
                    invariant
                        i <= rest@.len(),
                        rest@.len() == error_chain(&**inner).len(),
                        forall|j: int| 0 <= j < rest@.len() ==> #[trigger] rest@[j]@ == error_chain(&**inner)[j],
                        out@.len() == i + 1,
                        out@[0]@ == error_line(self),
                        forall|j: int| 0 <= j < i ==> #[trigger] out@[j + 1]@ == rest@[j]@,
                    decreases rest@.len() - i,
                {
                    let line = rest[i].as_str();
                    out.push(string_of(line));
                    i = i + 1;
                }
                proof {
                    assert forall|j: int| 0 <= j < out@.len() implies #[trigger] out@[j]@ == error_chain(self)[j] by {
                        if j > 0 {
                            assert(out@[(j - 1) + 1]@ == rest@[j - 1]@);
                        }
                    }
                }
            },
            None => {},
        }
        out
    }

    /// The same failure with the rule name `ctx` put before its message.
    pub fn add_context(self, ctx: &str) -> (r: ParserError)
        ensures
            r.span == self.span,
            r.source == self.source,
            r.message@ == ctx@ + ": "@ + self.message@,
    {
        let mut message = string_of(ctx);
        push_str(&mut message, ": ");
        push_str(&mut message, self.message.as_str());
        ParserError { span: self.span, message, source: self.source }
    }

    /// Every level of the failure as text, one line each, each cause
    /// indented four spaces further than the failure it caused.
    pub fn render(&self) -> (r: String)
        ensures
            r@ == rendered(error_chain(self)),
    {
        let lines = self.error_lines();
        let ghost chain = error_chain(self);
        let mut out = String::new();
        let mut i: usize = 0;
        while i < lines.len()
            invariant
                i <= lines@.len(),
                lines@.len() == chain.len(),
                forall|j: int| 0 <= j < lines@.len() ==> #[trigger] lines@[j]@ == chain[j],
                out@ == rendered(chain.subrange(0, i as int)),
            decreases lines@.len() - i,
        {
            let ghost before = out@;
            let ghost prefix = chain.subrange(0, i as int + 1);
            if i > 0 {
                push_str(&mut out, "\n");
                proof {
                    reveal_strlit("\n");
                    assert(out@ =~= before + seq!['\n'] + indentation(0));
                }
                let mut k: usize = 0;
                while k < i
                    invariant
                        k <= i,
                        out@ == before + seq!['\n'] + indentation(k as nat),
                    decreases i - k,
                {
                    push_str(&mut out, "    ");
                    proof {
                        assert(out@ =~= before + seq!['\n'] + indentation(k as nat + 1));
                    }
                    k = k + 1;
                }
            }
            push_str(&mut out, lines[i].as_str());
            proof {
                assert(prefix.drop_last() =~= chain.subrange(0, i as int));
                assert(prefix.last() == chain[i as int]);
                reveal_strlit("\n");
                assert(out@ =~= rendered(prefix));
            }
            i = i + 1;
        }
        assert(chain.subrange(0, lines@.len() as int) =~= chain);
        out
    }
}

/// `k` levels of indentation, four spaces each.
pub open spec fn indentation(k: nat) -> Seq<char>
    decreases k,
{
    if k == 0 {
        Seq::empty()
    } else {
        indentation((k - 1) as nat) + "    "@
    }
}

/// The lines joined by line breaks, the line at index `i` indented `i` levels.
pub open spec fn rendered(lines: Seq<Seq<char>>) -> Seq<char>
    decreases lines.len(),
{
    if lines.len() == 0 {
        Seq::empty()
    } else if lines.len() == 1 {
        lines[0]
    } else {
        rendered(lines.drop_last()) + seq!['\n'] + indentation((lines.len() - 1) as nat) + lines.last()
    }
}

} // verus!
