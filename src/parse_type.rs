use vstd::prelude::*;
use crate::ast::{FuncType, Identifier, Name, ReferenceType, TupleType, TypeNode, UnionType};
use crate::errors::ParserError;
use crate::parse_expr::{ends_at, match_name};
use crate::parser_core::{err_append, expect, next_is, token_is};
use crate::tokens::{Token, TokenKind};

verus! {

/// An identifier token stands at index `p`.
pub open spec fn is_name(t: Seq<Token>, p: int) -> bool {
    0 <= p < t.len() && t[p].kind is Atom
}

/// Where a run of `name .` pairs from `p` ends.
pub open spec fn name_dot_end(t: Seq<Token>, p: nat) -> nat
    decreases t.len() - p,
{
    if is_name(t, p as int) && token_is(t, (p + 1) as int, TokenKind::Dot) {
        name_dot_end(t, p + 2)
    } else {
        p
    }
}

/// Where a run of `, name` pairs from `q` ends.
pub open spec fn names_more(t: Seq<Token>, q: nat) -> nat
    decreases t.len() - q,
{
    if token_is(t, q as int, TokenKind::Comma) && is_name(t, (q + 1) as int) {
        names_more(t, q + 2)
    } else {
        q
    }
}

/// Where an optional `[ name, ... ]` from `p` ends; `p` itself when absent
/// or malformed.
pub open spec fn name_list_end(t: Seq<Token>, p: nat) -> nat {
    if token_is(t, p as int, TokenKind::LSquare) && is_name(t, (p + 1) as int) {
        let e = names_more(t, p + 2);
        if token_is(t, e as int, TokenKind::RSquare) { e + 1 } else { p }
    } else {
        p
    }
}

/// The grammar of types as a recognizer: where a type that starts at `p`
/// ends, or `None` when none reads there.
pub open spec fn s_type(t: Seq<Token>, p: nat) -> Option<nat>
    decreases t.len() - p, 5nat,
{
    match s_primary(t, p) {
        Some(q) => if p < q <= t.len() { Some(s_union_more(t, q)) } else { None },
        None => None,
    }
}

/// `| primary` repeated from `q`, as many as read.
pub open spec fn s_union_more(t: Seq<Token>, q: nat) -> nat
    decreases t.len() - q, 5nat,
{
    if token_is(t, q as int, TokenKind::Pipe) {
        match s_primary(t, q + 1) {
            Some(q2) => if q < q2 <= t.len() { s_union_more(t, q2) } else { q },
            None => q,
        }
    } else {
        q
    }
}

/// A reference, function, tuple or empty type, tried in that order.
pub open spec fn s_primary(t: Seq<Token>, p: nat) -> Option<nat>
    decreases t.len() - p, 4nat,
{
    if s_ref(t, p) is Some {
        s_ref(t, p)
    } else if s_functype(t, p) is Some {
        s_functype(t, p)
    } else if s_type_list(t, p) is Some {
        s_type_list(t, p)
    } else if token_is(t, p as int, TokenKind::Bang) {
        Some(p + 1)
    } else {
        None
    }
}

/// `A.B.C` and optional type parameters.
pub open spec fn s_ref(t: Seq<Token>, p: nat) -> Option<nat>
    decreases t.len() - p, 3nat,
{
    let r = name_dot_end(t, p);
    if p <= r && is_name(t, r as int) {
        Some(s_opt_type_list(t, r + 1))
    } else {
        None
    }
}

/// `fn`, optional type variables, parameter types and an optional return type.
pub open spec fn s_functype(t: Seq<Token>, p: nat) -> Option<nat>
    decreases t.len() - p, 3nat,
{
    if token_is(t, p as int, TokenKind::Fn) {
        let a = name_list_end(t, p + 1);
        if p < a <= t.len() {
            match s_type_list(t, a) {
                Some(b) => if p < b <= t.len() { Some(s_return(t, b)) } else { None },
                None => None,
            }
        } else {
            None
        }
    } else {
        None
    }
}

/// Where an optional `[ type, ... ]` from `p` ends; `p` itself when absent
/// or malformed.
pub open spec fn s_opt_type_list(t: Seq<Token>, p: nat) -> nat
    decreases t.len() - p, 2nat,
{
    if token_is(t, p as int, TokenKind::LSquare) {
        match s_type(t, p + 1) {
            Some(q) => if p < q <= t.len() {
                let e = s_tlist_more(t, q);
                if token_is(t, e as int, TokenKind::RSquare) { e + 1 } else { p }
            } else {
                p
            },
            None => p,
        }
    } else {
        p
    }
}

/// `, type` repeated from `q`, as many as read.
pub open spec fn s_tlist_more(t: Seq<Token>, q: nat) -> nat
    decreases t.len() - q, 2nat,
{
    if token_is(t, q as int, TokenKind::Comma) {
        match s_type(t, q + 1) {
            Some(q2) => if q < q2 <= t.len() { s_tlist_more(t, q2) } else { q },
            None => q,
        }
    } else {
        q
    }
}

/// `( type, ... )`, possibly empty.
pub open spec fn s_type_list(t: Seq<Token>, p: nat) -> Option<nat>
    decreases t.len() - p, 2nat,
{
    if token_is(t, p as int, TokenKind::LParen) {
        let e = match s_type(t, p + 1) {
            Some(q) => if p < q <= t.len() { s_tlist_more(t, q) } else { p + 1 },
            None => p + 1,
        };
        if token_is(t, e as int, TokenKind::RParen) { Some(e + 1) } else { None }
    } else {
        None
    }
}

/// Where an optional `-> type` from `p` ends.
pub open spec fn s_return(t: Seq<Token>, p: nat) -> nat
    decreases t.len() - p, 2nat,
{
    if token_is(t, p as int, TokenKind::Arrow) {
        match s_type(t, p + 1) {
            Some(q) => q,
            None => p,
        }
    } else {
        p
    }
}

/// What a parse of a type from `pos` promises on success: it took at least
/// one token, and a union has at least two variants.
pub open spec fn type_step(tokens: &[Token], pos: usize, r: Result<(usize, TypeNode), ParserError>) -> bool {
    r matches Ok((next, t)) ==> pos < next <= tokens.len()
        && (t matches TypeNode::Union(u) ==> u.variants@.len() >= 2)
}

/// One or more types separated by `|`; two or more make a union.
pub fn match_type(tokens: &[Token], pos: usize) -> (r: Result<(usize, TypeNode), ParserError>)
    requires
        pos <= tokens.len(),
    ensures
        ends_at(s_type(tokens@, pos as nat), r),
        type_step(tokens, pos, r),
    decreases tokens.len() - pos, 5nat,
{
    let (first_end, first) = match match_primary_type(tokens, pos) {
        Ok(found) => found,
        Err(e) => {
            return Err(e);
        },
    };
    let mut variants: Vec<TypeNode> = Vec::new();
    variants.push(first);
    let mut rest = first_end;
    let ghost start = first_end as nat;
    loop
        invariant
            pos < rest <= tokens.len(),
            variants@.len() >= 1,
            forall|i: int| 0 <= i < variants@.len() ==> !(#[trigger] variants@[i] is Union),
            s_union_more(tokens@, start) == s_union_more(tokens@, rest as nat),
        ensures
            pos < rest <= tokens.len(),
            variants@.len() >= 1,
            forall|i: int| 0 <= i < variants@.len() ==> !(#[trigger] variants@[i] is Union),
            s_union_more(tokens@, start) == rest as nat,
        decreases tokens.len() - rest,
    {
        if !next_is(tokens, rest, TokenKind::Pipe) {
            break;
        }
        match match_primary_type(tokens, rest + 1) {
            Ok((p, t)) => {
                variants.push(t);
                rest = p;
            },
            Err(_) => {
                break;
            },
        }
    }
    assert(forall|i: int| 0 <= i < variants@.len() ==> !(#[trigger] variants@[i] is Union));
    if variants.len() > 1 {
        Ok((rest, TypeNode::Union(Box::new(UnionType { variants }))))
    } else {
        match variants.pop() {
            Some(t) => Ok((rest, t)),
            None => Ok((rest, TypeNode::Unit)),
        }
    }
}

fn match_primary_type(tokens: &[Token], pos: usize) -> (r: Result<(usize, TypeNode), ParserError>)
    requires
        pos <= tokens.len(),
    ensures
        ends_at(s_primary(tokens@, pos as nat), r),
        r matches Ok((next, t)) ==> pos < next <= tokens.len() && !(t is Union),
    decreases tokens.len() - pos, 4nat,
{
    if let Ok(found) = match_reference_type(tokens, pos) {
        return Ok(found);
    }
    if let Ok(found) = match_func_type(tokens, pos) {
        return Ok(found);
    }
    if let Ok(found) = match_tuple_type(tokens, pos) {
        return Ok(found);
    }
    match match_empty_type(tokens, pos) {
        Ok(found) => Ok(found),
        Err(e) => Err(err_append(tokens, pos, "alternative", e)),
    }
}

/// `[ item, ... ]` with at least one item when the bracket is there; no
/// tokens and an empty list when it is not, or when the list is malformed.
fn optional_type_list(tokens: &[Token], pos: usize) -> (r: (usize, Vec<TypeNode>))
    requires
        pos <= tokens.len(),
    ensures
        r.0 == s_opt_type_list(tokens@, pos as nat),
        pos <= r.0 <= tokens.len(),
        r.0 == pos <==> r.1@.len() == 0,
    decreases tokens.len() - pos, 2nat,
{
    if !next_is(tokens, pos, TokenKind::LSquare) {
        return (pos, Vec::new());
    }
    let (first_end, first) = match match_type(tokens, pos + 1) {
        Ok(found) => found,
        Err(_) => {
            return (pos, Vec::new());
        },
    };
    let mut items: Vec<TypeNode> = Vec::new();
    items.push(first);
    let mut rest = first_end;
    let ghost start = first_end as nat;
    loop
        invariant
            pos < rest <= tokens.len(),
            items@.len() >= 1,
            s_tlist_more(tokens@, start) == s_tlist_more(tokens@, rest as nat),
        ensures
            pos < rest <= tokens.len(),
            s_tlist_more(tokens@, start) == rest as nat,
        decreases tokens.len() - rest,
    {
        if !next_is(tokens, rest, TokenKind::Comma) {
            break;
        }
        match match_type(tokens, rest + 1) {
            Ok((p, t)) => {
                items.push(t);
                rest = p;
            },
            Err(_) => {
                break;
            },
        }
    }
    match expect(tokens, rest, TokenKind::RSquare, "RSquare") {
        Ok(p) => (p, items),
        Err(_) => (pos, Vec::new()),
    }
}

/// `[ name, ... ]` with at least one name, or nothing.
fn optional_name_list(tokens: &[Token], pos: usize) -> (r: (usize, Vec<Name>))
    requires
        pos <= tokens.len(),
    ensures
        r.0 == name_list_end(tokens@, pos as nat),
        pos <= r.0 <= tokens.len(),
        r.0 == pos <==> r.1@.len() == 0,
{
    if !next_is(tokens, pos, TokenKind::LSquare) {
        return (pos, Vec::new());
    }
    let (first_end, first) = match match_name(tokens, pos + 1) {
        Ok(found) => found,
        Err(_) => {
            return (pos, Vec::new());
        },
    };
    let mut items: Vec<Name> = Vec::new();
    items.push(first);
    let mut rest = first_end;
    let ghost start = first_end as nat;
    loop
        invariant
            pos < rest <= tokens.len(),
            items@.len() >= 1,
            names_more(tokens@, start) == names_more(tokens@, rest as nat),
        ensures
            pos < rest <= tokens.len(),
            names_more(tokens@, start) == rest as nat,
        decreases tokens.len() - rest,
    {
        if !next_is(tokens, rest, TokenKind::Comma) {
            break;
        }
        match match_name(tokens, rest + 1) {
            Ok((p, t)) => {
                items.push(t);
                rest = p;
            },
            Err(_) => {
                break;
            },
        }
    }
    match expect(tokens, rest, TokenKind::RSquare, "RSquare") {
        Ok(p) => (p, items),
        Err(_) => (pos, Vec::new()),
    }
}

/// `( type, ... )`, possibly empty.
fn type_list(tokens: &[Token], pos: usize) -> (r: Result<(usize, Vec<TypeNode>), ParserError>)
    requires
        pos <= tokens.len(),
    ensures
        ends_at(s_type_list(tokens@, pos as nat), r),
        r matches Ok((next, _)) ==> pos < next <= tokens.len(),
    decreases tokens.len() - pos, 2nat,
{
    let mut rest = match expect(tokens, pos, TokenKind::LParen, "LParen") {
        Ok(p) => p,
        Err(e) => {
            return Err(e);
        },
    };
    let mut items: Vec<TypeNode> = Vec::new();
    if let Ok((p, t)) = match_type(tokens, rest) {
        items.push(t);
        rest = p;
        let ghost start = p as nat;
        loop
            invariant
                pos < rest <= tokens.len(),
                s_tlist_more(tokens@, start) == s_tlist_more(tokens@, rest as nat),
            ensures
                pos < rest <= tokens.len(),
                s_tlist_more(tokens@, start) == rest as nat,
            decreases tokens.len() - rest,
        {
            if !next_is(tokens, rest, TokenKind::Comma) {
                break;
            }
            match match_type(tokens, rest + 1) {
                Ok((p, t)) => {
                    items.push(t);
                    rest = p;
                },
                Err(_) => {
                    break;
                },
            }
        }
    }
    match expect(tokens, rest, TokenKind::RParen, "RParen") {
        Ok(p) => Ok((p, items)),
        Err(e) => Err(e),
    }
}

/// `A.B.C`, optionally followed by type parameters `[T, ...]`.
pub fn match_reference_type(tokens: &[Token], pos: usize) -> (r: Result<(usize, TypeNode), ParserError>)
    requires
        pos <= tokens.len(),
    ensures
        ends_at(s_ref(tokens@, pos as nat), r),
        r matches Ok((next, t)) ==> pos < next <= tokens.len() && t is Reference,
    decreases tokens.len() - pos, 3nat,
{
    let mut parent: Vec<Name> = Vec::new();
    let mut rest = pos;
    loop
        invariant
            pos <= rest <= tokens.len(),
            name_dot_end(tokens@, pos as nat) == name_dot_end(tokens@, rest as nat),
        ensures
            pos <= rest <= tokens.len(),
            name_dot_end(tokens@, pos as nat) == rest as nat,
        decreases tokens.len() - rest,
    {
        match match_name(tokens, rest) {
            Ok((p, n)) => {
                if next_is(tokens, p, TokenKind::Dot) {
                    parent.push(n);
                    rest = p + 1;
                } else {
                    break;
                }
            },
            Err(_) => {
                break;
            },
        }
    }
    let (name_end, name) = match match_name(tokens, rest) {
        Ok(found) => found,
        Err(e) => {
            return Err(e);
        },
    };
    let (params_end, type_params) = optional_type_list(tokens, name_end);
    let identifier = Identifier { parent, name };
    Ok((params_end, TypeNode::Reference(Box::new(ReferenceType { identifier, type_params }))))
}

/// `fn [T, ...] (A, B) -> R`, where a missing return type means the unit type.
pub fn match_func_type(tokens: &[Token], pos: usize) -> (r: Result<(usize, TypeNode), ParserError>)
    requires
        pos <= tokens.len(),
    ensures
        ends_at(s_functype(tokens@, pos as nat), r),
        r matches Ok((next, t)) ==> pos < next <= tokens.len() && t is Func,
    decreases tokens.len() - pos, 3nat,
{
    let at1 = match expect(tokens, pos, TokenKind::Fn, "Fn") {
        Ok(p) => p,
        Err(e) => {
            return Err(e);
        },
    };
    let (at2, typevars) = optional_name_list(tokens, at1);
    let (at3, param_types) = match type_list(tokens, at2) {
        Ok(found) => found,
        Err(e) => {
            return Err(e);
        },
    };
    let (at4, return_type) = match_return_type(tokens, at3);
    Ok((at4, TypeNode::Func(Box::new(FuncType { typevars, param_types, return_type }))))
}

/// `-> type`, or the unit type when there is no arrow or no type after it.
fn match_return_type(tokens: &[Token], pos: usize) -> (r: (usize, TypeNode))
    requires
        pos <= tokens.len(),
    ensures
        r.0 == s_return(tokens@, pos as nat),
        pos <= r.0 <= tokens.len(),
    decreases tokens.len() - pos, 2nat,
{
    if next_is(tokens, pos, TokenKind::Arrow) {
        match match_type(tokens, pos + 1) {
            Ok(found) => found,
            Err(_) => (pos, TypeNode::Unit),
        }
    } else {
        (pos, TypeNode::Unit)
    }
}

/// `( A, B, ... )`; the empty tuple is the unit type.
pub fn match_tuple_type(tokens: &[Token], pos: usize) -> (r: Result<(usize, TypeNode), ParserError>)
    requires
        pos <= tokens.len(),
    ensures
        ends_at(s_type_list(tokens@, pos as nat), r),
        r matches Ok((next, t)) ==> pos < next <= tokens.len() && (t is Tuple || t is Unit),
    decreases tokens.len() - pos, 3nat,
{
    match type_list(tokens, pos) {
        Ok((p, items)) => {
            if items.len() == 0 {
                Ok((p, TypeNode::Unit))
            } else {
                Ok((p, TypeNode::Tuple(Box::new(TupleType { items }))))
            }
        },
        Err(e) => Err(e),
    }
}

/// `!`, the type with no values.
pub fn match_empty_type(tokens: &[Token], pos: usize) -> (r: Result<(usize, TypeNode), ParserError>)
    ensures
        token_is(tokens@, pos as int, TokenKind::Bang) ==> r == Ok::<(usize, TypeNode), ParserError>(((pos + 1) as usize, TypeNode::Empty)),
        !token_is(tokens@, pos as int, TokenKind::Bang) ==> r is Err,
{
    match expect(tokens, pos, TokenKind::Bang, "Bang") {
        Ok(p) => Ok((p, TypeNode::Empty)),
        Err(e) => Err(e),
    }
}

} // verus!
