//! A Pratt (top-down operator-precedence) parser for JMESPath expressions.
//!
//! The parser works on the token kinds alone: offsets feed only the final
//! error report, so two sources with the same token stream parse alike.

use vstd::prelude::*;
use crate::ast::{Ast, AstV, Comparator, KeyValuePair, KeyValuePairV};
use crate::lexer::{Token, TokenV, spec_lbp, spec_token_name, spec_tokens, tokenize};
use crate::value::{ast_v, asts_v, kvps_v};

verus! {

/// A parse error: a message and the byte offset of the offending token.
#[derive(Debug, PartialEq)]
pub struct ParseError {
    pub msg: String,
    pub offset: usize,
}

/// An internal parse error: a message and the index of the offending token.
pub type PErrV = (int, Seq<char>);

/// What parsing from token `pos` with the given right binding power yields:
/// the tree and the next position, or an error. The budget falls by one on
/// every descent, so parsing always ends; the stream's own length plus one
/// always suffices.
pub open spec fn p_expr(toks: Seq<TokenV>, pos: int, rbp: int, fuel: nat) -> Result<(AstV, int), PErrV>
    decreases fuel, 2int,
{
    if fuel == 0 {
        Err((pos, "recursion limit reached"@))
    } else {
        match p_nud(toks, pos, (fuel - 1) as nat) {
            Ok((lhs, p2)) => p_led_loop(toks, p2, lhs, rbp, (fuel - 1) as nat),
            Err(e) => Err(e),
        }
    }
}

/// The token at a position; past the end it reads as `Eof`.
pub open spec fn tok_at(toks: Seq<TokenV>, pos: int) -> TokenV {
    if 0 <= pos < toks.len() {
        toks[pos]
    } else {
        TokenV::Eof
    }
}

/// Extends a tree leftwards while the next token binds above `rbp`.
pub open spec fn p_led_loop(toks: Seq<TokenV>, pos: int, lhs: AstV, rbp: int, fuel: nat) -> Result<(AstV, int), PErrV>
    decreases fuel, 1int,
{
    if fuel == 0 {
        Err((pos, "recursion limit reached"@))
    } else if spec_lbp(tok_at(toks, pos)) > rbp {
        match p_led(toks, pos, lhs, (fuel - 1) as nat) {
            Ok((lhs2, p2)) => p_led_loop(toks, p2, lhs2, rbp, (fuel - 1) as nat),
            Err(e) => Err(e),
        }
    } else {
        Ok((lhs, pos))
    }
}

/// The null denotation: what a token yields in prefix position.
pub open spec fn p_nud(toks: Seq<TokenV>, pos: int, fuel: nat) -> Result<(AstV, int), PErrV>
    decreases fuel, 2int,
{
    if fuel == 0 {
        Err((pos, "recursion limit reached"@))
    } else {
        match tok_at(toks, pos) {
            TokenV::Identifier(s) => Ok((AstV::Identifier(s), pos + 1)),
            TokenV::QuotedIdentifier(s) => Ok((AstV::Identifier(s), pos + 1)),
            TokenV::At => Ok((AstV::CurrentNode, pos + 1)),
            TokenV::Literal(v) => Ok((AstV::Literal(v), pos + 1)),
            TokenV::Flatten => match p_led_loop(toks, pos + 1, AstV::CurrentNode, 6, (fuel - 1) as nat) {
                Ok((rhs, p2)) => Ok((
                    AstV::Projection(
                        Box::new(AstV::Flatten(Box::new(AstV::CurrentNode))),
                        Box::new(rhs),
                    ),
                    p2,
                )),
                Err(e) => Err(e),
            },
            TokenV::Not => match p_expr(toks, pos + 1, 0, (fuel - 1) as nat) {
                Ok((e, p2)) => Ok((AstV::Not(Box::new(e)), p2)),
                Err(er) => Err(er),
            },
            TokenV::Ampersand => match p_expr(toks, pos + 1, 0, (fuel - 1) as nat) {
                Ok((e, p2)) => Ok((AstV::ExpRef(Box::new(e)), p2)),
                Err(er) => Err(er),
            },
            TokenV::Filter => p_filter(toks, pos + 1, AstV::CurrentNode, (fuel - 1) as nat),
            TokenV::Lbracket => p_bracket_prefix(toks, pos + 1, (fuel - 1) as nat),
            TokenV::Lbrace => p_multihash(toks, pos + 1, Seq::empty(), (fuel - 1) as nat),
            TokenV::Lparen => match p_expr(toks, pos + 1, 0, (fuel - 1) as nat) {
                Ok((e, p2)) => if (tok_at(toks, p2) matches TokenV::Rparen) {
                    Ok((e, p2 + 1))
                } else {
                    Err((p2, "Expected Rparen"@))
                },
                Err(er) => Err(er),
            },
            TokenV::Error { value: _, msg } => Err((pos, msg)),
            _ => Err((pos, "Unexpected token in prefix position: "@.add(spec_token_name(tok_at(toks, pos))))),
        }
    }
}

/// The left denotation: how an operator token extends a left-hand tree.
pub open spec fn p_led(toks: Seq<TokenV>, pos: int, lhs: AstV, fuel: nat) -> Result<(AstV, int), PErrV>
    decreases fuel, 2int,
{
    if fuel == 0 {
        Err((pos, "recursion limit reached"@))
    } else {
        match tok_at(toks, pos) {
            TokenV::Dot => if (tok_at(toks, pos + 1) matches TokenV::Star) {
                match p_led_loop(toks, pos + 2, AstV::CurrentNode, 20, (fuel - 1) as nat) {
                    Ok((rhs, p2)) => Ok((
                        AstV::Projection(Box::new(AstV::ObjectValues(Box::new(lhs))), Box::new(rhs)),
                        p2,
                    )),
                    Err(e) => Err(e),
                }
            } else {
                match p_dot_rhs(toks, pos + 1, (fuel - 1) as nat) {
                    Ok((rhs, p2)) => Ok((AstV::Subexpr(Box::new(lhs), Box::new(rhs)), p2)),
                    Err(e) => Err(e),
                }
            },
            TokenV::Pipe => match p_expr(toks, pos + 1, 1, (fuel - 1) as nat) {
                Ok((rhs, p2)) => Ok((AstV::Subexpr(Box::new(lhs), Box::new(rhs)), p2)),
                Err(e) => Err(e),
            },
            TokenV::Or => match p_expr(toks, pos + 1, 5, (fuel - 1) as nat) {
                Ok((rhs, p2)) => Ok((AstV::Or(Box::new(lhs), Box::new(rhs)), p2)),
                Err(e) => Err(e),
            },
            TokenV::Eq => p_cmp(toks, pos + 1, lhs, Comparator::Eq, (fuel - 1) as nat),
            TokenV::Ne => p_cmp(toks, pos + 1, lhs, Comparator::Ne, (fuel - 1) as nat),
            TokenV::Lt => p_cmp(toks, pos + 1, lhs, Comparator::Lt, (fuel - 1) as nat),
            TokenV::Lte => p_cmp(toks, pos + 1, lhs, Comparator::Lte, (fuel - 1) as nat),
            TokenV::Gt => p_cmp(toks, pos + 1, lhs, Comparator::Gt, (fuel - 1) as nat),
            TokenV::Gte => p_cmp(toks, pos + 1, lhs, Comparator::Gte, (fuel - 1) as nat),
            TokenV::Flatten => match p_led_loop(toks, pos + 1, AstV::CurrentNode, 6, (fuel - 1) as nat) {
                Ok((rhs, p2)) => Ok((
                    AstV::Projection(Box::new(AstV::Flatten(Box::new(lhs))), Box::new(rhs)),
                    p2,
                )),
                Err(e) => Err(e),
            },
            TokenV::Filter => p_filter(toks, pos + 1, lhs, (fuel - 1) as nat),
            TokenV::Lbracket => p_bracket_infix(toks, pos + 1, lhs, (fuel - 1) as nat),
            TokenV::Lparen => match lhs {
                AstV::Identifier(name) => match p_args(toks, pos + 1, Seq::empty(), (fuel - 1) as nat) {
                    Ok((args, p2)) => Ok((AstV::Function(name, args), p2)),
                    Err(e) => Err(e),
                },
                _ => Err((pos, "Function call target must be an identifier"@)),
            },
            TokenV::Error { value: _, msg } => Err((pos, msg)),
            _ => Err((pos, "Unexpected token in infix position: "@.add(spec_token_name(tok_at(toks, pos))))),
        }
    }
}

/// A comparison's right side.
pub open spec fn p_cmp(toks: Seq<TokenV>, pos: int, lhs: AstV, c: Comparator, fuel: nat) -> Result<(AstV, int), PErrV>
    decreases fuel, 3int,
{
    match p_expr(toks, pos, 2, fuel) {
        Ok((rhs, p2)) => Ok((AstV::Comparison(c, Box::new(lhs), Box::new(rhs)), p2)),
        Err(e) => Err(e),
    }
}

/// A filter projection: the predicate, the closing bracket, then the
/// projected right side.
pub open spec fn p_filter(toks: Seq<TokenV>, pos: int, lhs: AstV, fuel: nat) -> Result<(AstV, int), PErrV>
    decreases fuel, 0int,
{
    if fuel == 0 {
        Err((pos, "recursion limit reached"@))
    } else {
        match p_expr(toks, pos, 0, (fuel - 1) as nat) {
            Ok((pred, p2)) => if (tok_at(toks, p2) matches TokenV::Rbracket) {
                match p_led_loop(toks, p2 + 1, AstV::CurrentNode, 20, (fuel - 1) as nat) {
                    Ok((rhs, p3)) => Ok((
                        AstV::Projection(
                            Box::new(lhs),
                            Box::new(AstV::Condition(Box::new(pred), Box::new(rhs))),
                        ),
                        p3,
                    )),
                    Err(e) => Err(e),
                }
            } else {
                Err((p2, "Expected Rbracket"@))
            },
            Err(e) => Err(e),
        }
    }
}

/// A bracket in prefix position: an index, a slice, a wildcard projection,
/// or a multi-select list.
pub open spec fn p_bracket_prefix(toks: Seq<TokenV>, pos: int, fuel: nat) -> Result<(AstV, int), PErrV>
    decreases fuel, 0int,
{
    if fuel == 0 {
        Err((pos, "recursion limit reached"@))
    } else {
        match tok_at(toks, pos) {
            TokenV::Number(n) => if (tok_at(toks, pos + 1) matches TokenV::Rbracket) {
                Ok((AstV::Index(n), pos + 2))
            } else if (tok_at(toks, pos + 1) matches TokenV::Colon) {
                p_slice(toks, pos + 1, Some(n), (fuel - 1) as nat)
            } else {
                Err((pos + 1, "Expected Rbracket or Colon"@))
            },
            TokenV::Colon => p_slice(toks, pos, None, (fuel - 1) as nat),
            TokenV::Star => if (tok_at(toks, pos + 1) matches TokenV::Rbracket) {
                match p_led_loop(toks, pos + 2, AstV::CurrentNode, 20, (fuel - 1) as nat) {
                    Ok((rhs, p2)) => Ok((
                        AstV::Projection(Box::new(AstV::CurrentNode), Box::new(rhs)),
                        p2,
                    )),
                    Err(e) => Err(e),
                }
            } else {
                Err((pos + 1, "Expected Rbracket"@))
            },
            _ => p_multilist(toks, pos, Seq::empty(), (fuel - 1) as nat),
        }
    }
}

/// A bracket after a left side: an index, a slice, or a wildcard projection.
pub open spec fn p_bracket_infix(toks: Seq<TokenV>, pos: int, lhs: AstV, fuel: nat) -> Result<(AstV, int), PErrV>
    decreases fuel, 0int,
{
    if fuel == 0 {
        Err((pos, "recursion limit reached"@))
    } else {
        match tok_at(toks, pos) {
            TokenV::Number(n) => if (tok_at(toks, pos + 1) matches TokenV::Rbracket) {
                Ok((AstV::Subexpr(Box::new(lhs), Box::new(AstV::Index(n))), pos + 2))
            } else if (tok_at(toks, pos + 1) matches TokenV::Colon) {
                match p_slice(toks, pos + 1, Some(n), (fuel - 1) as nat) {
                    Ok((sl, p2)) => Ok((AstV::Subexpr(Box::new(lhs), Box::new(sl)), p2)),
                    Err(e) => Err(e),
                }
            } else {
                Err((pos + 1, "Expected Rbracket or Colon"@))
            },
            TokenV::Colon => match p_slice(toks, pos, None, (fuel - 1) as nat) {
                Ok((sl, p2)) => Ok((AstV::Subexpr(Box::new(lhs), Box::new(sl)), p2)),
                Err(e) => Err(e),
            },
            TokenV::Star => if (tok_at(toks, pos + 1) matches TokenV::Rbracket) {
                match p_led_loop(toks, pos + 2, AstV::CurrentNode, 20, (fuel - 1) as nat) {
                    Ok((rhs, p2)) => Ok((AstV::Projection(Box::new(lhs), Box::new(rhs)), p2)),
                    Err(e) => Err(e),
                }
            } else {
                Err((pos + 1, "Expected Rbracket"@))
            },
            _ => Err((pos, "Expected Number, Colon or Star"@)),
        }
    }
}

/// The rest of a slice, the cursor on the first colon: the optional stop
/// and step, then the closing bracket. A step of zero is a syntax error.
pub open spec fn p_slice(toks: Seq<TokenV>, pos: int, start: Option<i32>, fuel: nat) -> Result<(AstV, int), PErrV> {
    let stop_at = pos + 1;
    let stop = (match tok_at(toks, stop_at) {
        TokenV::Number(n) => Some(n),
        _ => None,
    });
    let after_stop = if stop is Some {
        stop_at + 1
    } else {
        stop_at
    };
    if (tok_at(toks, after_stop) matches TokenV::Colon) {
        let step = (match tok_at(toks, after_stop + 1) {
            TokenV::Number(n) => Some(n),
            _ => None,
        });
        let after_step = if step is Some {
            after_stop + 2
        } else {
            after_stop + 1
        };
        if step == Some(0i32) {
            Err((after_stop + 1, "Slice step cannot be zero"@))
        } else if (tok_at(toks, after_step) matches TokenV::Rbracket) {
            Ok((
                AstV::Slice(start, stop, (match step {
                    Some(s) => s,
                    None => 1,
                })),
                after_step + 1,
            ))
        } else {
            Err((after_step, "Expected Rbracket"@))
        }
    } else if (tok_at(toks, after_stop) matches TokenV::Rbracket) {
        Ok((AstV::Slice(start, stop, 1), after_stop + 1))
    } else {
        Err((after_stop, "Expected Rbracket or Colon"@))
    }
}

/// The right side of a dot: an identifier, a multi-select, or nothing else.
pub open spec fn p_dot_rhs(toks: Seq<TokenV>, pos: int, fuel: nat) -> Result<(AstV, int), PErrV>
    decreases fuel, 0int,
{
    if fuel == 0 {
        Err((pos, "recursion limit reached"@))
    } else {
        match tok_at(toks, pos) {
            TokenV::Identifier(_) => p_expr(toks, pos, 40, (fuel - 1) as nat),
            TokenV::QuotedIdentifier(_) => p_expr(toks, pos, 40, (fuel - 1) as nat),
            TokenV::Lbracket => p_expr(toks, pos, 40, (fuel - 1) as nat),
            TokenV::Lbrace => p_expr(toks, pos, 40, (fuel - 1) as nat),
            _ => Err((pos, "Expected identifier, multi-select or star after dot"@)),
        }
    }
}

/// The elements of a multi-select list, up to the closing bracket.
pub open spec fn p_multilist(toks: Seq<TokenV>, pos: int, acc: Seq<AstV>, fuel: nat) -> Result<(AstV, int), PErrV>
    decreases fuel, 0int,
{
    if fuel == 0 {
        Err((pos, "recursion limit reached"@))
    } else {
        match p_expr(toks, pos, 0, (fuel - 1) as nat) {
            Ok((e, p2)) => {
                let acc2 = acc.push(e);
                if (tok_at(toks, p2) matches TokenV::Comma) {
                    p_multilist(toks, p2 + 1, acc2, (fuel - 1) as nat)
                } else if (tok_at(toks, p2) matches TokenV::Rbracket) {
                    Ok((AstV::MultiList(acc2), p2 + 1))
                } else {
                    Err((p2, "Expected Comma or Rbracket"@))
                }
            },
            Err(e) => Err(e),
        }
    }
}

/// The pairs of a multi-hash, up to the closing brace.
pub open spec fn p_multihash(toks: Seq<TokenV>, pos: int, acc: Seq<KeyValuePairV>, fuel: nat) -> Result<(AstV, int), PErrV>
    decreases fuel, 0int,
{
    if fuel == 0 {
        Err((pos, "recursion limit reached"@))
    } else {
        let key = (match tok_at(toks, pos) {
            TokenV::Identifier(s) => Some(s),
            TokenV::QuotedIdentifier(s) => Some(s),
            _ => None,
        });
        match key {
            Some(k) => if (tok_at(toks, pos + 1) matches TokenV::Colon) {
                match p_expr(toks, pos + 2, 0, (fuel - 1) as nat) {
                    Ok((e, p2)) => {
                        let acc2 = acc.push(KeyValuePairV { key: k, value: e });
                        if (tok_at(toks, p2) matches TokenV::Comma) {
                            p_multihash(toks, p2 + 1, acc2, (fuel - 1) as nat)
                        } else if (tok_at(toks, p2) matches TokenV::Rbrace) {
                            Ok((AstV::MultiHash(acc2), p2 + 1))
                        } else {
                            Err((p2, "Expected Comma or Rbrace"@))
                        }
                    },
                    Err(e) => Err(e),
                }
            } else {
                Err((pos + 1, "Expected Colon"@))
            },
            None => Err((pos, "Expected identifier key"@)),
        }
    }
}

/// The arguments of a function call, up to the closing parenthesis.
pub open spec fn p_args(toks: Seq<TokenV>, pos: int, acc: Seq<AstV>, fuel: nat) -> Result<(Seq<AstV>, int), PErrV>
    decreases fuel, 0int,
{
    if fuel == 0 {
        Err((pos, "recursion limit reached"@))
    } else if (tok_at(toks, pos) matches TokenV::Rparen) {
        Ok((acc, pos + 1))
    } else {
        match p_expr(toks, pos, 0, (fuel - 1) as nat) {
            Ok((e, p2)) => {
                let acc2 = acc.push(e);
                if (tok_at(toks, p2) matches TokenV::Comma) {
                    p_args(toks, p2 + 1, acc2, (fuel - 1) as nat)
                } else if (tok_at(toks, p2) matches TokenV::Rparen) {
                    Ok((acc2, p2 + 1))
                } else {
                    Err((p2, "Expected Comma or Rparen"@))
                }
            },
            Err(e) => Err(e),
        }
    }
}

/// What parsing a whole token stream yields: the expression of the stream,
/// with no tokens but `Eof` left over.
pub open spec fn p_top(toks: Seq<TokenV>, fuel: nat) -> Result<AstV, PErrV> {
    match p_expr(toks, 0, 0, fuel) {
        Ok((a, p2)) => if (tok_at(toks, p2) matches TokenV::Eof) {
            Ok(a)
        } else {
            Err((p2, "Unexpected trailing token: "@.add(spec_token_name(tok_at(toks, p2)))))
        },
        Err(e) => Err(e),
    }
}

/// Law: the tree a source parses to depends on its token stream alone.
/// Two sources whose lexers yield the same tokens, at whatever byte
/// offsets their whitespace leaves them, parse to the same tree, and fail
/// alike at the same token index: the parser never reads an offset.
pub proof fn lemma_whitespace_insensitive(s1: Seq<char>, s2: Seq<char>, fuel: nat)
    requires
        kinds_of(spec_tokens(s1, 0)) == kinds_of(spec_tokens(s2, 0)),
    ensures
        p_top(kinds_of(spec_tokens(s1, 0)), fuel) == p_top(kinds_of(spec_tokens(s2, 0)), fuel),
{
}

} // verus!

verus! {

/// The token kinds of a token/offset stream.
pub open spec fn kinds_of(ts: Seq<(int, TokenV)>) -> Seq<TokenV> {
    Seq::new(ts.len(), |i: int| ts[i].1)
}

/// How an executable parse step relates to the model's.
pub open spec fn pres_ok(r: Result<(Ast, usize), (usize, String)>, m: Result<(AstV, int), PErrV>) -> bool {
    match (r, m) {
        (Ok((a, p)), Ok(mm)) => ast_v(a) == mm.0 && p as int == mm.1,
        (Err((i, s)), Err(me)) => i as int == me.0 && s@ == me.1,
        _ => false,
    }
}

/// The model of a token run.
pub open spec fn toks_v(s: Seq<Token>) -> Seq<TokenV> {
    Seq::new(s.len(), |i: int| if 0 <= i < s.len() { s[i]@ } else { TokenV::Eof })
}

/// The token under the cursor, `Eof` past the end.
fn peek(toks: &Vec<Token>, pos: usize) -> (t: Token)
    ensures
        t@ == tok_at(toks_v(toks@), pos as int),
{
    if pos < toks.len() {
        toks[pos].clone()
    } else {
        Token::Eof
    }
}

/// The left binding power of the token under the cursor.
fn peek_lbp(toks: &Vec<Token>, pos: usize) -> (r: usize)
    ensures
        r == spec_lbp(tok_at(toks_v(toks@), pos as int)),
{
    if pos < toks.len() {
        toks[pos].lbp()
    } else {
        0
    }
}

/// Parses an expression with the given right binding power.
fn e_expr(toks: &Vec<Token>, pos: usize, rbp: usize, fuel: u64) -> (r: Result<(Ast, usize), (usize, String)>)
    requires
        toks@.len() + 4 <= usize::MAX,
        pos <= toks@.len() + 2,
    ensures
        pres_ok(r, p_expr(toks_v(toks@), pos as int, rbp as int, fuel as nat)),
        (r matches Ok(p) && p.1 <= toks@.len() + 2) || r is Err,
    decreases fuel, 2int,
{
    if fuel == 0 {
        return Err((pos, "recursion limit reached".to_owned()));
    }
    let (lhs, p2) = e_nud(toks, pos, fuel - 1)?;
    e_led_loop(toks, p2, lhs, rbp, fuel - 1)
}

/// Extends a tree while the next token binds above `rbp`.
fn e_led_loop(toks: &Vec<Token>, pos: usize, lhs: Ast, rbp: usize, fuel: u64) -> (r: Result<(Ast, usize), (usize, String)>)
    requires
        toks@.len() + 4 <= usize::MAX,
        pos <= toks@.len() + 2,
    ensures
        pres_ok(r, p_led_loop(toks_v(toks@), pos as int, ast_v(lhs), rbp as int, fuel as nat)),
        (r matches Ok(p) && p.1 <= toks@.len() + 2) || r is Err,
    decreases fuel, 1int,
{
    if fuel == 0 {
        return Err((pos, "recursion limit reached".to_owned()));
    }
    if peek_lbp(toks, pos) > rbp {
        let (lhs2, p2) = e_led(toks, pos, lhs, fuel - 1)?;
        e_led_loop(toks, p2, lhs2, rbp, fuel - 1)
    } else {
        Ok((lhs, pos))
    }
}

/// The null denotation of the token under the cursor.
#[verifier::rlimit(60)]
fn e_nud(toks: &Vec<Token>, pos: usize, fuel: u64) -> (r: Result<(Ast, usize), (usize, String)>)
    requires
        toks@.len() + 4 <= usize::MAX,
        pos <= toks@.len() + 2,
    ensures
        pres_ok(r, p_nud(toks_v(toks@), pos as int, fuel as nat)),
        (r matches Ok(p) && p.1 <= toks@.len() + 2) || r is Err,
    decreases fuel, 2int,
{
    if fuel == 0 {
        return Err((pos, "recursion limit reached".to_owned()));
    }
    let t = peek(toks, pos);
    match t {
        Token::Identifier(s) => Ok((Ast::Identifier(s), pos + 1)),
        Token::QuotedIdentifier(s) => Ok((Ast::Identifier(s), pos + 1)),
        Token::At => Ok((Ast::CurrentNode, pos + 1)),
        Token::Literal(v) => Ok((Ast::Literal(v), pos + 1)),
        Token::Flatten => {
            let (rhs, p2) = e_led_loop(toks, pos + 1, Ast::CurrentNode, 6, fuel - 1)?;
            let flat = Ast::Flatten(Box::new(Ast::CurrentNode));
            proof {
                assert(ast_v(flat) == AstV::Flatten(Box::new(AstV::CurrentNode)));
            }
            Ok((Ast::Projection(Box::new(flat), Box::new(rhs)), p2))
        },
        Token::Not => {
            let (e, p2) = e_expr(toks, pos + 1, 0, fuel - 1)?;
            Ok((Ast::Not(Box::new(e)), p2))
        },
        Token::Ampersand => {
            let (e, p2) = e_expr(toks, pos + 1, 0, fuel - 1)?;
            Ok((Ast::ExpRef(Box::new(e)), p2))
        },
        Token::Filter => e_filter(toks, pos + 1, Ast::CurrentNode, fuel - 1),
        Token::Lbracket => e_bracket_prefix(toks, pos + 1, fuel - 1),
        Token::Lbrace => {
            let acc: Vec<KeyValuePair> = Vec::new();
            proof {
                assert(kvps_v(acc@) =~= Seq::<KeyValuePairV>::empty());
            }
            e_multihash(toks, pos + 1, acc, fuel - 1)
        },
        Token::Lparen => {
            let (e, p2) = e_expr(toks, pos + 1, 0, fuel - 1)?;
            let close = peek(toks, p2);
            if matches!(close, Token::Rparen) {
                Ok((e, p2 + 1))
            } else {
                Err((p2, "Expected Rparen".to_owned()))
            }
        },
        Token::Error { value: _, msg } => Err((pos, msg)),
        _ => {
            let mut m = "Unexpected token in prefix position: ".to_owned();
            let t2 = peek(toks, pos);
            m.append(t2.token_name().as_str());
            Err((pos, m))
        },
    }
}

/// The left denotation of the operator under the cursor.
#[verifier::rlimit(60)]
fn e_led(toks: &Vec<Token>, pos: usize, lhs: Ast, fuel: u64) -> (r: Result<(Ast, usize), (usize, String)>)
    requires
        toks@.len() + 4 <= usize::MAX,
        pos <= toks@.len() + 2,
    ensures
        pres_ok(r, p_led(toks_v(toks@), pos as int, ast_v(lhs), fuel as nat)),
        (r matches Ok(p) && p.1 <= toks@.len() + 2) || r is Err,
    decreases fuel, 2int,
{
    if fuel == 0 {
        return Err((pos, "recursion limit reached".to_owned()));
    }
    let t = peek(toks, pos);
    match t {
        Token::Dot => {
            let nxt = peek(toks, pos + 1);
            if matches!(nxt, Token::Star) {
                let ghost lv = ast_v(lhs);
                let (rhs, p2) = e_led_loop(toks, pos + 2, Ast::CurrentNode, 20, fuel - 1)?;
                let ov = Ast::ObjectValues(Box::new(lhs));
                proof {
                    assert(ast_v(ov) == AstV::ObjectValues(Box::new(lv)));
                }
                Ok((Ast::Projection(Box::new(ov), Box::new(rhs)), p2))
            } else {
                let (rhs, p2) = e_dot_rhs(toks, pos + 1, fuel - 1)?;
                Ok((Ast::Subexpr(Box::new(lhs), Box::new(rhs)), p2))
            }
        },
        Token::Pipe => {
            let (rhs, p2) = e_expr(toks, pos + 1, 1, fuel - 1)?;
            Ok((Ast::Subexpr(Box::new(lhs), Box::new(rhs)), p2))
        },
        Token::Or => {
            let (rhs, p2) = e_expr(toks, pos + 1, 5, fuel - 1)?;
            Ok((Ast::Or(Box::new(lhs), Box::new(rhs)), p2))
        },
        Token::Eq => e_cmp(toks, pos + 1, lhs, Comparator::Eq, fuel - 1),
        Token::Ne => e_cmp(toks, pos + 1, lhs, Comparator::Ne, fuel - 1),
        Token::Lt => e_cmp(toks, pos + 1, lhs, Comparator::Lt, fuel - 1),
        Token::Lte => e_cmp(toks, pos + 1, lhs, Comparator::Lte, fuel - 1),
        Token::Gt => e_cmp(toks, pos + 1, lhs, Comparator::Gt, fuel - 1),
        Token::Gte => e_cmp(toks, pos + 1, lhs, Comparator::Gte, fuel - 1),
        Token::Flatten => {
            let ghost lv = ast_v(lhs);
            let (rhs, p2) = e_led_loop(toks, pos + 1, Ast::CurrentNode, 6, fuel - 1)?;
            let fl = Ast::Flatten(Box::new(lhs));
            proof {
                assert(ast_v(fl) == AstV::Flatten(Box::new(lv)));
            }
            Ok((Ast::Projection(Box::new(fl), Box::new(rhs)), p2))
        },
        Token::Filter => e_filter(toks, pos + 1, lhs, fuel - 1),
        Token::Lbracket => e_bracket_infix(toks, pos + 1, lhs, fuel - 1),
        Token::Lparen => match lhs {
            Ast::Identifier(name) => {
                let acc: Vec<Ast> = Vec::new();
                proof {
                    assert(asts_v(acc@) =~= Seq::<AstV>::empty());
                }
                let (args, p2) = e_args(toks, pos + 1, acc, fuel - 1)?;
                Ok((Ast::Function(name, args), p2))
            },
            _ => Err((pos, "Function call target must be an identifier".to_owned())),
        },
        Token::Error { value: _, msg } => Err((pos, msg)),
        _ => {
            let mut m = "Unexpected token in infix position: ".to_owned();
            let t2 = peek(toks, pos);
            m.append(t2.token_name().as_str());
            Err((pos, m))
        },
    }
}

/// A comparison's right side.
fn e_cmp(toks: &Vec<Token>, pos: usize, lhs: Ast, c: Comparator, fuel: u64) -> (r: Result<(Ast, usize), (usize, String)>)
    requires
        toks@.len() + 4 <= usize::MAX,
        pos <= toks@.len() + 2,
    ensures
        pres_ok(r, p_cmp(toks_v(toks@), pos as int, ast_v(lhs), c, fuel as nat)),
        (r matches Ok(p) && p.1 <= toks@.len() + 2) || r is Err,
    decreases fuel, 3int,
{
    let (rhs, p2) = e_expr(toks, pos, 2, fuel)?;
    Ok((Ast::Comparison(c, Box::new(lhs), Box::new(rhs)), p2))
}

/// A filter projection's predicate and right side.
#[verifier::rlimit(60)]
fn e_filter(toks: &Vec<Token>, pos: usize, lhs: Ast, fuel: u64) -> (r: Result<(Ast, usize), (usize, String)>)
    requires
        toks@.len() + 4 <= usize::MAX,
        pos <= toks@.len() + 2,
    ensures
        pres_ok(r, p_filter(toks_v(toks@), pos as int, ast_v(lhs), fuel as nat)),
        (r matches Ok(p) && p.1 <= toks@.len() + 2) || r is Err,
    decreases fuel, 0int,
{
    if fuel == 0 {
        return Err((pos, "recursion limit reached".to_owned()));
    }
    let (pred, p2) = e_expr(toks, pos, 0, fuel - 1)?;
    let close = peek(toks, p2);
    if matches!(close, Token::Rbracket) {
        let ghost pv = ast_v(pred);
        let (rhs, p3) = e_led_loop(toks, p2 + 1, Ast::CurrentNode, 20, fuel - 1)?;
        let ghost rv = ast_v(rhs);
        let cond = Ast::Condition(Box::new(pred), Box::new(rhs));
        proof {
            assert(ast_v(cond) == AstV::Condition(Box::new(pv), Box::new(rv)));
        }
        Ok((Ast::Projection(Box::new(lhs), Box::new(cond)), p3))
    } else {
        Err((p2, "Expected Rbracket".to_owned()))
    }
}

/// A bracket in prefix position.
fn e_bracket_prefix(toks: &Vec<Token>, pos: usize, fuel: u64) -> (r: Result<(Ast, usize), (usize, String)>)
    requires
        toks@.len() + 4 <= usize::MAX,
        pos <= toks@.len() + 2,
    ensures
        pres_ok(r, p_bracket_prefix(toks_v(toks@), pos as int, fuel as nat)),
        (r matches Ok(p) && p.1 <= toks@.len() + 2) || r is Err,
    decreases fuel, 0int,
{
    if fuel == 0 {
        return Err((pos, "recursion limit reached".to_owned()));
    }
    let t = peek(toks, pos);
    match t {
        Token::Number(n) => {
            let nxt = peek(toks, pos + 1);
            if matches!(nxt, Token::Rbracket) {
                Ok((Ast::Index(n), pos + 2))
            } else if matches!(nxt, Token::Colon) {
                e_slice(toks, pos + 1, Some(n), fuel - 1)
            } else {
                Err((pos + 1, "Expected Rbracket or Colon".to_owned()))
            }
        },
        Token::Colon => e_slice(toks, pos, None, fuel - 1),
        Token::Star => {
            let nxt = peek(toks, pos + 1);
            if matches!(nxt, Token::Rbracket) {
                let (rhs, p2) = e_led_loop(toks, pos + 2, Ast::CurrentNode, 20, fuel - 1)?;
                Ok((Ast::Projection(Box::new(Ast::CurrentNode), Box::new(rhs)), p2))
            } else {
                Err((pos + 1, "Expected Rbracket".to_owned()))
            }
        },
        _ => {
            let acc: Vec<Ast> = Vec::new();
            proof {
                assert(asts_v(acc@) =~= Seq::<AstV>::empty());
            }
            e_multilist(toks, pos, acc, fuel - 1)
        },
    }
}

/// A bracket after a left side.
#[verifier::rlimit(60)]
fn e_bracket_infix(toks: &Vec<Token>, pos: usize, lhs: Ast, fuel: u64) -> (r: Result<(Ast, usize), (usize, String)>)
    requires
        toks@.len() + 4 <= usize::MAX,
        pos <= toks@.len() + 2,
    ensures
        pres_ok(r, p_bracket_infix(toks_v(toks@), pos as int, ast_v(lhs), fuel as nat)),
        (r matches Ok(p) && p.1 <= toks@.len() + 2) || r is Err,
    decreases fuel, 0int,
{
    if fuel == 0 {
        return Err((pos, "recursion limit reached".to_owned()));
    }
    let t = peek(toks, pos);
    match t {
        Token::Number(n) => {
            let nxt = peek(toks, pos + 1);
            if matches!(nxt, Token::Rbracket) {
                let ix = Ast::Index(n);
                proof {
                    assert(ast_v(ix) == AstV::Index(n));
                }
                Ok((Ast::Subexpr(Box::new(lhs), Box::new(ix)), pos + 2))
            } else if matches!(nxt, Token::Colon) {
                let (sl, p2) = e_slice(toks, pos + 1, Some(n), fuel - 1)?;
                Ok((Ast::Subexpr(Box::new(lhs), Box::new(sl)), p2))
            } else {
                Err((pos + 1, "Expected Rbracket or Colon".to_owned()))
            }
        },
        Token::Colon => {
            let (sl, p2) = e_slice(toks, pos, None, fuel - 1)?;
            Ok((Ast::Subexpr(Box::new(lhs), Box::new(sl)), p2))
        },
        Token::Star => {
            let nxt = peek(toks, pos + 1);
            if matches!(nxt, Token::Rbracket) {
                let (rhs, p2) = e_led_loop(toks, pos + 2, Ast::CurrentNode, 20, fuel - 1)?;
                Ok((Ast::Projection(Box::new(lhs), Box::new(rhs)), p2))
            } else {
                Err((pos + 1, "Expected Rbracket".to_owned()))
            }
        },
        _ => Err((pos, "Expected Number, Colon or Star".to_owned())),
    }
}

/// The rest of a slice, the cursor on the first colon.
fn e_slice(toks: &Vec<Token>, pos: usize, start: Option<i32>, fuel: u64) -> (r: Result<(Ast, usize), (usize, String)>)
    requires
        toks@.len() + 4 <= usize::MAX,
        pos <= toks@.len() + 1,
    ensures
        pres_ok(r, p_slice(toks_v(toks@), pos as int, start, fuel as nat)),
        (r matches Ok(p) && p.1 <= toks@.len() + 2) || r is Err,
{
    let stop_t = peek(toks, pos + 1);
    let (stop, after_stop) = match stop_t {
        Token::Number(n) => (Some(n), pos + 2),
        _ => (None, pos + 1),
    };
    let after_t = peek(toks, after_stop);
    if matches!(after_t, Token::Colon) {
        let step_t = peek(toks, after_stop + 1);
        let (step, after_step) = match step_t {
            Token::Number(n) => (Some(n), after_stop + 2),
            _ => (None, after_stop + 1),
        };
        if step == Some(0i32) {
            Err((after_stop + 1, "Slice step cannot be zero".to_owned()))
        } else {
            let close = peek(toks, after_step);
            if matches!(close, Token::Rbracket) {
                let st: i32 = match step {
                    Some(s) => s,
                    None => 1,
                };
                Ok((Ast::Slice(start, stop, st), after_step + 1))
            } else {
                Err((after_step, "Expected Rbracket".to_owned()))
            }
        }
    } else if matches!(after_t, Token::Rbracket) {
        Ok((Ast::Slice(start, stop, 1), after_stop + 1))
    } else {
        Err((after_stop, "Expected Rbracket or Colon".to_owned()))
    }
}

/// The right side of a dot.
fn e_dot_rhs(toks: &Vec<Token>, pos: usize, fuel: u64) -> (r: Result<(Ast, usize), (usize, String)>)
    requires
        toks@.len() + 4 <= usize::MAX,
        pos <= toks@.len() + 2,
    ensures
        pres_ok(r, p_dot_rhs(toks_v(toks@), pos as int, fuel as nat)),
        (r matches Ok(p) && p.1 <= toks@.len() + 2) || r is Err,
    decreases fuel, 0int,
{
    if fuel == 0 {
        return Err((pos, "recursion limit reached".to_owned()));
    }
    let t = peek(toks, pos);
    match t {
        Token::Identifier(_) => e_expr(toks, pos, 40, fuel - 1),
        Token::QuotedIdentifier(_) => e_expr(toks, pos, 40, fuel - 1),
        Token::Lbracket => e_expr(toks, pos, 40, fuel - 1),
        Token::Lbrace => e_expr(toks, pos, 40, fuel - 1),
        _ => Err((pos, "Expected identifier, multi-select or star after dot".to_owned())),
    }
}

/// The elements of a multi-select list.
fn e_multilist(toks: &Vec<Token>, pos: usize, acc: Vec<Ast>, fuel: u64) -> (r: Result<(Ast, usize), (usize, String)>)
    requires
        toks@.len() + 4 <= usize::MAX,
        pos <= toks@.len() + 2,
    ensures
        pres_ok(r, p_multilist(toks_v(toks@), pos as int, asts_v(acc@), fuel as nat)),
        (r matches Ok(p) && p.1 <= toks@.len() + 2) || r is Err,
    decreases fuel, 0int,
{
    if fuel == 0 {
        return Err((pos, "recursion limit reached".to_owned()));
    }
    let (e, p2) = e_expr(toks, pos, 0, fuel - 1)?;
    let mut acc2 = acc;
    acc2.push(e);
    proof {
        assert(asts_v(acc2@) =~= asts_v(acc@).push(ast_v(acc2@[acc2@.len() - 1])));
    }
    let nxt = peek(toks, p2);
    if matches!(nxt, Token::Comma) {
        e_multilist(toks, p2 + 1, acc2, fuel - 1)
    } else if matches!(nxt, Token::Rbracket) {
        Ok((Ast::MultiList(acc2), p2 + 1))
    } else {
        Err((p2, "Expected Comma or Rbracket".to_owned()))
    }
}

/// The pairs of a multi-hash.
fn e_multihash(toks: &Vec<Token>, pos: usize, acc: Vec<KeyValuePair>, fuel: u64) -> (r: Result<(Ast, usize), (usize, String)>)
    requires
        toks@.len() + 4 <= usize::MAX,
        pos <= toks@.len() + 2,
    ensures
        pres_ok(r, p_multihash(toks_v(toks@), pos as int, kvps_v(acc@), fuel as nat)),
        (r matches Ok(p) && p.1 <= toks@.len() + 2) || r is Err,
    decreases fuel, 0int,
{
    if fuel == 0 {
        return Err((pos, "recursion limit reached".to_owned()));
    }
    let t = peek(toks, pos);
    let key = match t {
        Token::Identifier(s) => Some(s),
        Token::QuotedIdentifier(s) => Some(s),
        _ => None,
    };
    match key {
        Some(k) => {
            let nxt = peek(toks, pos + 1);
            if matches!(nxt, Token::Colon) {
                let (e, p2) = e_expr(toks, pos + 2, 0, fuel - 1)?;
                let mut acc2 = acc;
                acc2.push(KeyValuePair { key: k, value: e });
                proof {
                    let last = acc2@[acc2@.len() - 1];
                    assert(kvps_v(acc2@) =~= kvps_v(acc@).push(
                        KeyValuePairV { key: last.key@, value: ast_v(last.value) },
                    ));
                }
                let nxt2 = peek(toks, p2);
                if matches!(nxt2, Token::Comma) {
                    e_multihash(toks, p2 + 1, acc2, fuel - 1)
                } else if matches!(nxt2, Token::Rbrace) {
                    Ok((Ast::MultiHash(acc2), p2 + 1))
                } else {
                    Err((p2, "Expected Comma or Rbrace".to_owned()))
                }
            } else {
                Err((pos + 1, "Expected Colon".to_owned()))
            }
        },
        None => Err((pos, "Expected identifier key".to_owned())),
    }
}

/// The arguments of a function call.
fn e_args(toks: &Vec<Token>, pos: usize, acc: Vec<Ast>, fuel: u64) -> (r: Result<(Vec<Ast>, usize), (usize, String)>)
    requires
        toks@.len() + 4 <= usize::MAX,
        pos <= toks@.len() + 2,
    ensures
        (match (r, p_args(toks_v(toks@), pos as int, asts_v(acc@), fuel as nat)) {
            (Ok((a, p)), Ok(mm)) => asts_v(a@) == mm.0 && p as int == mm.1,
            (Err((i, s)), Err(me)) => i as int == me.0 && s@ == me.1,
            _ => false,
        }),
        (r matches Ok(p) && p.1 <= toks@.len() + 2) || r is Err,
    decreases fuel, 0int,
{
    if fuel == 0 {
        return Err((pos, "recursion limit reached".to_owned()));
    }
    let t = peek(toks, pos);
    if matches!(t, Token::Rparen) {
        Ok((acc, pos + 1))
    } else {
        let (e, p2) = e_expr(toks, pos, 0, fuel - 1)?;
        let mut acc2 = acc;
        acc2.push(e);
        proof {
            assert(asts_v(acc2@) =~= asts_v(acc@).push(ast_v(acc2@[acc2@.len() - 1])));
        }
        let nxt = peek(toks, p2);
        if matches!(nxt, Token::Comma) {
            e_args(toks, p2 + 1, acc2, fuel - 1)
        } else if matches!(nxt, Token::Rparen) {
            Ok((acc2, p2 + 1))
        } else {
            Err((p2, "Expected Comma or Rparen".to_owned()))
        }
    }
}

/// Parses a JMESPath expression into its tree; a parse error names the
/// byte offset of the offending token. The tree depends on the source's
/// token stream alone, so whitespace between tokens cannot change it.
pub fn parse(expr: &str) -> (r: Result<Ast, ParseError>)
    ensures
        ({
            let ts = spec_tokens(expr@, 0);
            let kinds = kinds_of(ts);
            ts.len() <= 1000000000 ==> (match (r, p_top(kinds, (10 * ts.len() + 10) as nat)) {
                (Ok(a), Ok(m)) => ast_v(a) == m,
                (Err(e), Err(me)) => e.msg@ == me.1 && e.offset as int == (if 0 <= me.0 < ts.len() {
                    ts[me.0].0
                } else {
                    ts[ts.len() - 1].0
                }),
                _ => false,
            })
        }),
{
    let mut lexer = tokenize(expr);
    let pairs = lexer.collect_tokens();
    let ghost ts = spec_tokens(expr@, 0);
    if pairs.len() > 1000000000 {
        proof {
            assert(ts.len() > 1000000000);
        }
        return Err(ParseError { msg: "expression too long".to_owned(), offset: 0 });
    }
    let mut toks: Vec<Token> = Vec::new();
    let mut offs: Vec<usize> = Vec::new();
    let mut i: usize = 0;
    while i < pairs.len()
        invariant
            0 <= i <= pairs@.len(),
            toks@.len() == i,
            offs@.len() == i,
            forall|j: int| 0 <= j < i ==> (#[trigger] toks@[j])@ == pairs@[j].1@,
            forall|j: int| 0 <= j < i ==> (#[trigger] offs@[j]) == pairs@[j].0,
        decreases pairs@.len() - i,
    {
        let t = pairs[i].1.clone();
        let o = pairs[i].0;
        toks.push(t);
        offs.push(o);
        i += 1;
    }
    proof {
        crate::lexer::lemma_token_stream_shape(expr@, 0);
        lemma_token_stream_kinds(pairs@, ts, toks@);
        assert(forall|j: int| 0 <= j < offs@.len() ==> (#[trigger] offs@[j]) as int == ts[j].0);
    }
    let fuel = (toks.len() as u64) * 10 + 10;
    match e_expr(&toks, 0, 0, fuel) {
        Ok((a, p2)) => {
            let close = peek(&toks, p2);
            if matches!(close, Token::Eof) {
                Ok(a)
            } else {
                let mut m = "Unexpected trailing token: ".to_owned();
                m.append(close.token_name().as_str());
                Err(ParseError { msg: m, offset: off_at(&offs, p2) })
            }
        },
        Err((idx, msg)) => Err(ParseError { msg, offset: off_at(&offs, idx) }),
    }
}

/// The byte offset of a token index, the last token's for an index past
/// the end.
fn off_at(offs: &Vec<usize>, idx: usize) -> (r: usize)
    requires
        offs@.len() > 0,
    ensures
        r as int == (if 0 <= idx < offs@.len() {
            offs@[idx as int] as int
        } else {
            offs@[offs@.len() - 1] as int
        }),
{
    if idx < offs.len() {
        offs[idx]
    } else {
        offs[offs.len() - 1]
    }
}

/// The kinds of the collected tokens are the kinds of the token stream.
proof fn lemma_token_stream_kinds(pairs: Seq<(usize, Token)>, ts: Seq<(int, TokenV)>, toks: Seq<Token>)
    requires
        pairs.len() == ts.len(),
        toks.len() == pairs.len(),
        forall|k: int| 0 <= k < ts.len() ==> (#[trigger] pairs[k]).0 as int == ts[k].0 && pairs[k].1@ == ts[k].1,
        forall|j: int| 0 <= j < toks.len() ==> (#[trigger] toks[j])@ == pairs[j].1@,
    ensures
        toks_v(toks) =~= kinds_of(ts),
{
}

} // verus!

verus! {

use crate::lexer::{is_ws, is_ident_char, is_ident_start, is_digit_char, skip_ws, ident_end, digits_end, scan_inside, lex_delimited, lex_number, lex_at, byte_off, lemma_skip_ws_bounds, lemma_lex_at_bounds};

/// The token kinds of a source from position `i` on.
pub open spec fn token_kinds(s: Seq<char>, i: int) -> Seq<TokenV> {
    kinds_of(spec_tokens(s, i))
}

/// A suffix's length.
proof fn lemma_skip_len(s: Seq<char>, i: int)
    requires
        0 <= i <= s.len(),
    ensures
        s.skip(i).len() == s.len() - i,
{
}

/// A suffix's characters, position by position.
proof fn lemma_skip_index(s: Seq<char>, i: int, d: int)
    requires
        0 <= i <= s.len(),
        0 <= d < s.len() - i,
    ensures
        s.skip(i)[d] == s[i + d],
{
}

/// Two equal scan suffixes skip the same amount of whitespace.
proof fn lemma_skip_ws_shift(s1: Seq<char>, i1: int, s2: Seq<char>, i2: int)
    requires
        0 <= i1 <= s1.len(),
        0 <= i2 <= s2.len(),
        s1.skip(i1) == s2.skip(i2),
    ensures
        skip_ws(s1, i1) - i1 == skip_ws(s2, i2) - i2,
    decreases s1.len() - i1,
{
    lemma_skip_len(s1, i1);
    lemma_skip_len(s2, i2);
    if i1 < s1.len() {
        lemma_suffix_index(s1, i1, s2, i2, 0);
        if is_ws(s1[i1]) {
            lemma_suffix_step(s1, i1, s2, i2, 1);
            lemma_skip_ws_shift(s1, i1 + 1, s2, i2 + 1);
        }
    }
}

/// Equal suffixes shifted in lockstep stay equal.
proof fn lemma_suffix_step(s1: Seq<char>, i1: int, s2: Seq<char>, i2: int, d: int)
    requires
        0 <= i1 <= s1.len(),
        0 <= i2 <= s2.len(),
        s1.skip(i1) == s2.skip(i2),
        0 <= d <= s1.len() - i1,
    ensures
        s1.skip(i1 + d) == s2.skip(i2 + d),
{
    lemma_skip_len(s1, i1);
    lemma_skip_len(s2, i2);
    assert(s1.skip(i1 + d) =~= s2.skip(i2 + d)) by {
        lemma_skip_len(s1, i1 + d);
        lemma_skip_len(s2, i2 + d);
        assert forall|q: int| 0 <= q < s1.len() - i1 - d implies #[trigger] s1.skip(i1 + d)[q] == s2.skip(
            i2 + d,
        )[q] by {
            lemma_skip_index(s1, i1 + d, q);
            lemma_skip_index(s2, i2 + d, q);
            lemma_skip_index(s1, i1, d + q);
            lemma_skip_index(s2, i2, d + q);
        }
    }
}

/// Characters of equal suffixes agree position by position.
proof fn lemma_suffix_index(s1: Seq<char>, i1: int, s2: Seq<char>, i2: int, d: int)
    requires
        0 <= i1 <= s1.len(),
        0 <= i2 <= s2.len(),
        s1.skip(i1) == s2.skip(i2),
        0 <= d < s1.len() - i1,
    ensures
        i2 + d < s2.len(),
        s1[i1 + d] == s2[i2 + d],
{
    lemma_skip_len(s1, i1);
    lemma_skip_len(s2, i2);
    lemma_skip_index(s1, i1, d);
    lemma_skip_index(s2, i2, d);
}

/// Two equal scan suffixes hold identifier runs of the same length.
proof fn lemma_ident_end_shift(s1: Seq<char>, i1: int, s2: Seq<char>, i2: int)
    requires
        0 <= i1 <= s1.len(),
        0 <= i2 <= s2.len(),
        s1.skip(i1) == s2.skip(i2),
    ensures
        ident_end(s1, i1) - i1 == ident_end(s2, i2) - i2,
    decreases s1.len() - i1,
{
    lemma_skip_len(s1, i1);
    lemma_skip_len(s2, i2);
    if i1 < s1.len() {
        lemma_suffix_index(s1, i1, s2, i2, 0);
        if is_ident_char(s1[i1]) {
            lemma_suffix_step(s1, i1, s2, i2, 1);
            lemma_ident_end_shift(s1, i1 + 1, s2, i2 + 1);
        }
    }
}

/// Two equal scan suffixes hold digit runs of the same length.
proof fn lemma_digits_end_shift(s1: Seq<char>, i1: int, s2: Seq<char>, i2: int)
    requires
        0 <= i1 <= s1.len(),
        0 <= i2 <= s2.len(),
        s1.skip(i1) == s2.skip(i2),
    ensures
        digits_end(s1, i1) - i1 == digits_end(s2, i2) - i2,
    decreases s1.len() - i1,
{
    lemma_skip_len(s1, i1);
    lemma_skip_len(s2, i2);
    if i1 < s1.len() {
        lemma_suffix_index(s1, i1, s2, i2, 0);
        if is_digit_char(s1[i1]) {
            lemma_suffix_step(s1, i1, s2, i2, 1);
            lemma_digits_end_shift(s1, i1 + 1, s2, i2 + 1);
        }
    }
}

/// Matching spans of equal suffixes are the same text.
proof fn lemma_subrange_shift(s1: Seq<char>, i1: int, s2: Seq<char>, i2: int, a: int, b: int)
    requires
        0 <= i1 <= s1.len(),
        0 <= i2 <= s2.len(),
        s1.skip(i1) == s2.skip(i2),
        0 <= a <= b <= s1.len() - i1,
    ensures
        s1.subrange(i1 + a, i1 + b) == s2.subrange(i2 + a, i2 + b),
    decreases 0int,
{
    lemma_skip_len(s1, i1);
    lemma_skip_len(s2, i2);
    assert(s1.subrange(i1 + a, i1 + b) =~= s2.subrange(i2 + a, i2 + b)) by {
        assert forall|q: int| 0 <= q < b - a implies #[trigger] s1.subrange(i1 + a, i1 + b)[q] == s2.subrange(
            i2 + a,
            i2 + b,
        )[q] by {
            lemma_skip_index(s1, i1, a + q);
            lemma_skip_index(s2, i2, a + q);
        }
    }
}

/// Two equal scan suffixes walk a delimited span to the same closing
/// state, the same raw buffer, and ends the same distance away.
proof fn lemma_scan_inside_shift(s1: Seq<char>, i1: int, s2: Seq<char>, i2: int, w: char)
    requires
        0 <= i1 <= s1.len(),
        0 <= i2 <= s2.len(),
        s1.skip(i1) == s2.skip(i2),
    ensures
        scan_inside(s1, i1, w).0 == scan_inside(s2, i2, w).0,
        scan_inside(s1, i1, w).1 == scan_inside(s2, i2, w).1,
        scan_inside(s1, i1, w).2 - i1 == scan_inside(s2, i2, w).2 - i2,
    decreases s1.len() - i1,
{
    lemma_skip_len(s1, i1);
    lemma_skip_len(s2, i2);
    if i1 < s1.len() {
        lemma_suffix_index(s1, i1, s2, i2, 0);
        if s1[i1] == w {
        } else if s1[i1] == '\\' {
            if i1 + 1 < s1.len() {
                lemma_suffix_index(s1, i1, s2, i2, 1);
                lemma_suffix_step(s1, i1, s2, i2, 2);
                lemma_scan_inside_shift(s1, i1 + 2, s2, i2 + 2, w);
            }
        } else {
            lemma_suffix_step(s1, i1, s2, i2, 1);
            lemma_scan_inside_shift(s1, i1 + 1, s2, i2 + 1, w);
        }
    }
}

/// Two equal scan suffixes yield the same token, the same distance along.
proof fn lemma_lex_at_shift(s1: Seq<char>, i1: int, s2: Seq<char>, i2: int)
    requires
        0 <= i1 < s1.len(),
        0 <= i2 < s2.len(),
        s1.skip(i1) == s2.skip(i2),
    ensures
        lex_at(s1, i1).0 == lex_at(s2, i2).0,
        lex_at(s1, i1).1 - i1 == lex_at(s2, i2).1 - i2,
{
    lemma_skip_len(s1, i1);
    lemma_skip_len(s2, i2);
    lemma_suffix_index(s1, i1, s2, i2, 0);
    let c = s1[i1];
    if i1 + 1 < s1.len() {
        lemma_suffix_index(s1, i1, s2, i2, 1);
    }
    if is_ident_start(c) {
        crate::lexer::lemma_ident_end_bounds(s1, i1);
        lemma_ident_end_shift(s1, i1, s2, i2);
        lemma_subrange_shift(s1, i1, s2, i2, 0, ident_end(s1, i1) - i1);
    } else if c == '"' || c == '\'' || c == '`' {
        lemma_suffix_step(s1, i1, s2, i2, 1);
        lemma_scan_inside_shift(s1, i1 + 1, s2, i2 + 1, c);
    } else if c == '-' {
        if i1 + 1 < s1.len() && 49 <= s1[i1 + 1] as u32 && s1[i1 + 1] as u32 <= 57 {
            lemma_suffix_step(s1, i1, s2, i2, 1);
            crate::lexer::lemma_digits_end_bounds(s1, i1 + 1);
            lemma_digits_end_shift(s1, i1 + 1, s2, i2 + 1);
            lemma_subrange_shift(s1, i1 + 1, s2, i2 + 1, 0, digits_end(s1, i1 + 1) - (i1 + 1));
        }
    } else if is_digit_char(c) {
        crate::lexer::lemma_digits_end_bounds(s1, i1);
        lemma_digits_end_shift(s1, i1, s2, i2);
        lemma_subrange_shift(s1, i1, s2, i2, 0, digits_end(s1, i1) - i1);
    }
}

/// Law, the lexer's half of whitespace insensitivity: the kinds and
/// payloads of the tokens scanned from a position depend on the unread
/// suffix alone — everything before it, where skipped whitespace lives,
/// only moves the byte offsets.
pub proof fn lemma_token_kinds_suffix(s1: Seq<char>, i1: int, s2: Seq<char>, i2: int)
    requires
        0 <= i1 <= s1.len(),
        0 <= i2 <= s2.len(),
        s1.skip(i1) == s2.skip(i2),
    ensures
        token_kinds(s1, i1) == token_kinds(s2, i2),
    decreases s1.len() - i1,
{
    lemma_skip_len(s1, i1);
    lemma_skip_len(s2, i2);
    lemma_skip_ws_bounds(s1, i1);
    lemma_skip_ws_bounds(s2, i2);
    lemma_skip_ws_shift(s1, i1, s2, i2);
    let j1 = skip_ws(s1, i1);
    let j2 = skip_ws(s2, i2);
    if j1 >= s1.len() {
        assert(token_kinds(s1, i1) =~= seq![TokenV::Eof]);
        assert(token_kinds(s2, i2) =~= seq![TokenV::Eof]);
    } else {
        lemma_suffix_step(s1, i1, s2, i2, j1 - i1);
        lemma_lex_at_shift(s1, j1, s2, j2);
        lemma_lex_at_bounds(s1, j1);
        lemma_lex_at_bounds(s2, j2);
        let k1 = lex_at(s1, j1).1;
        let k2 = lex_at(s2, j2).1;
        lemma_suffix_step(s1, j1, s2, j2, k1 - j1);
        lemma_token_kinds_suffix(s1, k1, s2, k2);
        assert(token_kinds(s1, i1) =~= seq![lex_at(s1, j1).0].add(token_kinds(s1, k1)));
        assert(token_kinds(s2, i2) =~= seq![lex_at(s2, j2).0].add(token_kinds(s2, k2)));
    }
}

/// Whitespace under the cursor is skipped before any token is read.
proof fn lemma_skip_ws_absorb(s: Seq<char>, i: int, p: int)
    requires
        0 <= i <= p <= s.len(),
        forall|q: int| i <= q < p ==> is_ws(#[trigger] s[q]),
    ensures
        skip_ws(s, i) == skip_ws(s, p),
    decreases p - i,
{
    if i < p {
        lemma_skip_ws_absorb(s, i + 1, p);
    }
}

/// Law, whitespace insensitivity end to end: a source that carries extra
/// leading whitespace before another source's text yields the same token
/// kinds and payloads, and hence parses to the very same result.
pub proof fn lemma_leading_whitespace(s1: Seq<char>, s2: Seq<char>, p: int, fuel: nat)
    requires
        0 <= p <= s2.len(),
        forall|q: int| 0 <= q < p ==> is_ws(#[trigger] s2[q]),
        s2.skip(p) == s1,
    ensures
        token_kinds(s2, 0) == token_kinds(s1, 0),
        p_top(token_kinds(s2, 0), fuel) == p_top(token_kinds(s1, 0), fuel),
{
    lemma_skip_ws_absorb(s2, 0, p);
    assert(spec_tokens(s2, 0) == spec_tokens(s2, p));
    assert(s1.skip(0) =~= s2.skip(p));
    lemma_token_kinds_suffix(s2, p, s1, 0);
    assert(token_kinds(s2, 0) == token_kinds(s2, p));
}

} // verus!

verus! {

/// The characters a whitespace skip crosses are whitespace.
proof fn lemma_skip_ws_chars(s: Seq<char>, i: int)
    requires
        0 <= i <= s.len(),
    ensures
        forall|q: int| i <= q < skip_ws(s, i) ==> is_ws(#[trigger] s[q]),
    decreases s.len() - i,
{
    if i < s.len() && is_ws(s[i]) {
        lemma_skip_ws_chars(s, i + 1);
    }
}

/// A whitespace run that stops at `j` is skipped exactly to `j`.
proof fn lemma_skip_ws_exact(s: Seq<char>, i: int, j: int)
    requires
        0 <= i <= j <= s.len(),
        forall|q: int| i <= q < j ==> is_ws(#[trigger] s[q]),
        j == s.len() || !is_ws(s[j]),
    ensures
        skip_ws(s, i) == j,
    decreases j - i,
{
    if i < j {
        lemma_skip_ws_exact(s, i + 1, j);
    }
}

/// The characters of an identifier run are identifier characters, and the
/// run stops exactly where they do.
proof fn lemma_ident_end_chars(s: Seq<char>, i: int)
    requires
        0 <= i <= s.len(),
    ensures
        forall|q: int| i <= q < ident_end(s, i) ==> is_ident_char(#[trigger] s[q]),
        ident_end(s, i) == s.len() || !is_ident_char(s[ident_end(s, i)]),
    decreases s.len() - i,
{
    if i < s.len() && is_ident_char(s[i]) {
        lemma_ident_end_chars(s, i + 1);
    }
}

/// The characters of a digit run are digits, and the run stops exactly
/// where they do.
proof fn lemma_digits_end_chars_exact(s: Seq<char>, i: int)
    requires
        0 <= i <= s.len(),
    ensures
        forall|q: int| i <= q < digits_end(s, i) ==> is_digit_char(#[trigger] s[q]),
        digits_end(s, i) == s.len() || !is_digit_char(s[digits_end(s, i)]),
    decreases s.len() - i,
{
    if i < s.len() && is_digit_char(s[i]) {
        lemma_digits_end_chars_exact(s, i + 1);
    }
}

/// An identifier run over given characters ends exactly at their end.
proof fn lemma_ident_end_exact(s: Seq<char>, i: int, j: int)
    requires
        0 <= i <= j <= s.len(),
        forall|q: int| i <= q < j ==> is_ident_char(#[trigger] s[q]),
        j == s.len() || !is_ident_char(s[j]),
    ensures
        ident_end(s, i) == j,
    decreases j - i,
{
    if i < j {
        lemma_ident_end_exact(s, i + 1, j);
    }
}

/// A digit run over given characters ends exactly at their end.
proof fn lemma_digits_end_exact(s: Seq<char>, i: int, j: int)
    requires
        0 <= i <= j <= s.len(),
        forall|q: int| i <= q < j ==> is_digit_char(#[trigger] s[q]),
        j == s.len() || !is_digit_char(s[j]),
    ensures
        digits_end(s, i) == j,
    decreases j - i,
{
    if i < j {
        lemma_digits_end_exact(s, i + 1, j);
    }
}

/// How a text with one character inserted reads, position by position.
proof fn lemma_insert_index(s: Seq<char>, p: int, w: char)
    requires
        0 <= p <= s.len(),
    ensures
        s.insert(p, w).len() == s.len() + 1,
        forall|q: int| 0 <= q < p ==> #[trigger] s.insert(p, w)[q] == s[q],
        s.insert(p, w)[p] == w,
        forall|q: int| p < q <= s.len() ==> #[trigger] s.insert(p, w)[q] == s[q - 1],
{
}

/// Whitespace is never an identifier character, a digit, or one of the
/// lexer's marked characters.
proof fn lemma_ws_is_plain(w: char)
    requires
        is_ws(w),
    ensures
        !is_ident_char(w),
        !is_digit_char(w),
        w != '=' && w != '|' && w != ']' && w != '?' && !(49 <= w as u32 && w as u32 <= 57),
{
}

} // verus!

verus! {

/// An identifier run that ends at or before the insertion point is
/// untouched by the insertion of a whitespace character there or later.
proof fn lemma_ident_end_insert(s: Seq<char>, p: int, w: char, a: int)
    requires
        0 <= a <= s.len(),
        ident_end(s, a) <= p <= s.len(),
        is_ws(w),
    ensures
        ident_end(s.insert(p, w), a) == ident_end(s, a),
{
    let e = ident_end(s, a);
    let ins = s.insert(p, w);
    crate::lexer::lemma_ident_end_bounds(s, a);
    lemma_insert_index(s, p, w);
    lemma_ws_is_plain(w);
    lemma_ident_end_chars(s, a);
    assert forall|q: int| a <= q < e implies is_ident_char(#[trigger] ins[q]) by {
        assert(ins[q] == s[q]);
    }
    if e == p {
        lemma_ident_end_exact(ins, a, e);
    } else {
        assert(ins[e] == s[e]);
        lemma_ident_end_exact(ins, a, e);
    }
}

/// A digit run that ends at or before the insertion point is untouched.
proof fn lemma_digits_end_insert(s: Seq<char>, p: int, w: char, a: int)
    requires
        0 <= a <= s.len(),
        digits_end(s, a) <= p <= s.len(),
        is_ws(w),
    ensures
        digits_end(s.insert(p, w), a) == digits_end(s, a),
{
    let e = digits_end(s, a);
    let ins = s.insert(p, w);
    crate::lexer::lemma_digits_end_bounds(s, a);
    lemma_insert_index(s, p, w);
    lemma_ws_is_plain(w);
    lemma_digits_end_chars_exact(s, a);
    assert forall|q: int| a <= q < e implies is_digit_char(#[trigger] ins[q]) by {
        assert(ins[q] == s[q]);
    }
    if e == p {
        lemma_digits_end_exact(ins, a, e);
    } else {
        assert(ins[e] == s[e]);
        lemma_digits_end_exact(ins, a, e);
    }
}

/// A delimited span that closes at or before the insertion point is walked
/// the same way after the insertion.
proof fn lemma_scan_inside_insert(s: Seq<char>, p: int, w: char, a: int, wr: char)
    requires
        0 <= a <= s.len(),
        scan_inside(s, a, wr).0,
        scan_inside(s, a, wr).2 <= p <= s.len(),
    ensures
        scan_inside(s.insert(p, w), a, wr) == scan_inside(s, a, wr),
    decreases s.len() - a,
{
    let ins = s.insert(p, w);
    crate::lexer::lemma_scan_inside_bounds(s, a, wr);
    lemma_insert_index(s, p, w);
    if a < s.len() {
        assert(ins[a] == s[a]);
        if s[a] == wr {
        } else if s[a] == '\\' {
            if a + 1 < s.len() {
                crate::lexer::lemma_scan_inside_bounds(s, a + 2, wr);
                assert(ins[a + 1] == s[a + 1]);
                lemma_scan_inside_insert(s, p, w, a + 2, wr);
            }
        } else {
            lemma_scan_inside_insert(s, p, w, a + 1, wr);
        }
    }
}

/// A token that ends at or before the insertion point, and is not an error
/// token, reads the same after a whitespace character is inserted there or
/// later: its one-character lookahead can only land on the inserted
/// whitespace where the lookahead had already failed.
#[verifier::rlimit(100)]
#[verifier::spinoff_prover]
proof fn lemma_lex_at_insert(s: Seq<char>, p: int, w: char, j: int)
    requires
        0 <= j < s.len(),
        lex_at(s, j).1 <= p <= s.len(),
        !(lex_at(s, j).0 matches TokenV::Error { .. }),
        is_ws(w),
    ensures
        lex_at(s.insert(p, w), j) == lex_at(s, j),
{
    let ins = s.insert(p, w);
    lemma_lex_at_bounds(s, j);
    lemma_insert_index(s, p, w);
    lemma_ws_is_plain(w);
    assert(ins[j] == s[j]);
    let c = s[j];
    if j + 1 < s.len() && j + 1 < p {
        assert(ins[j + 1] == s[j + 1]);
    }
    if j + 1 == p {
        assert(ins[j + 1] == w);
    }
    if is_ident_start(c) {
        crate::lexer::lemma_ident_end_bounds(s, j);
        lemma_ident_end_insert(s, p, w, j);
        assert(s.subrange(j, ident_end(s, j)) =~= ins.subrange(j, ident_end(s, j)));
        assert(lex_at(ins, j) == lex_at(s, j));
    } else if c == '"' || c == '\'' || c == '`' {
        let sc = scan_inside(s, j + 1, c);
        assert(sc.0) by {
            if !sc.0 {
                assert(lex_at(s, j).0 matches TokenV::Error { .. });
            }
        }
        lemma_scan_inside_insert(s, p, w, j + 1, c);
        assert(scan_inside(ins, j + 1, c) == scan_inside(s, j + 1, c));
        assert(lex_delimited(ins, j + 1, c) == lex_delimited(s, j + 1, c));
        if c == '"' {
            assert(lex_at(s, j) == lex_delimited(s, j + 1, '"'));
            assert(lex_at(ins, j) == lex_delimited(ins, j + 1, '"'));
        } else if c == '\'' {
            assert(lex_at(s, j) == lex_delimited(s, j + 1, '\''));
            assert(lex_at(ins, j) == lex_delimited(ins, j + 1, '\''));
        } else {
            assert(lex_at(s, j) == lex_delimited(s, j + 1, '`'));
            assert(lex_at(ins, j) == lex_delimited(ins, j + 1, '`'));
        }
        assert(lex_at(ins, j) == lex_at(s, j));
    } else if c == '-' {
        if j + 1 < s.len() && 49 <= s[j + 1] as u32 && s[j + 1] as u32 <= 57 {
            crate::lexer::lemma_digits_end_bounds(s, j + 1);
            crate::lexer::lemma_digits_end_bounds(s, j + 2);
            assert(digits_end(s, j + 1) >= j + 2);
            lemma_digits_end_insert(s, p, w, j + 1);
            assert(s.subrange(j + 1, digits_end(s, j + 1)) =~= ins.subrange(j + 1, digits_end(s, j + 1)));
            assert(lex_number(ins, j + 1, true) == lex_number(s, j + 1, true));
            assert(lex_at(s, j) == lex_number(s, j + 1, true));
            assert(lex_at(ins, j) == lex_number(ins, j + 1, true));
            assert(lex_at(ins, j) == lex_at(s, j));
        } else {
            assert(lex_at(s, j).0 matches TokenV::Error { .. });
        }
    } else if is_digit_char(c) {
        crate::lexer::lemma_digits_end_bounds(s, j);
        lemma_digits_end_insert(s, p, w, j);
        assert(s.subrange(j, digits_end(s, j)) =~= ins.subrange(j, digits_end(s, j)));
        assert(lex_number(ins, j, false) == lex_number(s, j, false));
        assert(lex_at(s, j) == lex_number(s, j, false));
        assert(lex_at(ins, j) == lex_number(ins, j, false));
        assert(lex_at(ins, j) == lex_at(s, j));
    } else if c == '[' {
        assert(lex_at(ins, j) == lex_at(s, j));
    } else if c == '|' || c == '>' || c == '<' || c == '!' || c == '=' {
        assert(lex_at(ins, j) == lex_at(s, j));
    } else {
        assert(lex_at(ins, j) == lex_at(s, j));
    }
}

} // verus!

verus! {

/// Position `p` lies in one of the whitespace gaps of the scan from `i`:
/// between two tokens, before the first, or after the last — never inside
/// a token.
pub open spec fn in_gap(s: Seq<char>, i: int, p: int) -> bool
    decreases s.len() - i via in_gap_dec
{
    if !(0 <= i <= s.len()) {
        false
    } else if i <= p <= skip_ws(s, i) {
        true
    } else {
        let j = skip_ws(s, i);
        j < s.len() && lex_at(s, j).1 <= p && in_gap(s, lex_at(s, j).1, p)
    }
}

#[via_fn]
proof fn in_gap_dec(s: Seq<char>, i: int, p: int) {
    if 0 <= i <= s.len() {
        lemma_skip_ws_bounds(s, i);
        let j = skip_ws(s, i);
        if j < s.len() {
            lemma_lex_at_bounds(s, j);
        }
    }
}

/// No token of the scan from `i` is an error token; a source that parses
/// has no error tokens.
pub open spec fn error_free(s: Seq<char>, i: int) -> bool {
    forall|k: int|
        0 <= k < spec_tokens(s, i).len() ==> !((#[trigger] spec_tokens(s, i)[k]).1 matches TokenV::Error { .. })
}

/// A gap position lies within the text.
proof fn lemma_in_gap_bounds(s: Seq<char>, i: int, p: int)
    requires
        in_gap(s, i, p),
    ensures
        0 <= i <= p <= s.len(),
    decreases s.len() - i,
{
    lemma_skip_ws_bounds(s, i);
    let j = skip_ws(s, i);
    if i <= p <= j {
    } else {
        lemma_lex_at_bounds(s, j);
        lemma_in_gap_bounds(s, lex_at(s, j).1, p);
    }
}

/// Law, the lexer's other half of whitespace insensitivity: inserting one
/// whitespace character into any token gap of a source whose scan yields
/// no error tokens leaves the token kinds and payloads unchanged.
pub proof fn lemma_ws_insertion(s: Seq<char>, i: int, p: int, w: char)
    requires
        0 <= i <= s.len(),
        in_gap(s, i, p),
        error_free(s, i),
        is_ws(w),
    ensures
        token_kinds(s.insert(p, w), i) == token_kinds(s, i),
    decreases s.len() - i,
{
    lemma_in_gap_bounds(s, i, p);
    let ins = s.insert(p, w);
    lemma_insert_index(s, p, w);
    lemma_skip_ws_bounds(s, i);
    lemma_skip_ws_chars(s, i);
    let j = skip_ws(s, i);
    if i <= p <= j {
        lemma_skip_ws_absorb(s, i, p);
        assert(spec_tokens(s, i) == spec_tokens(s, p));
        assert(forall|q: int| i <= q < p ==> is_ws(#[trigger] ins[q]));
        assert(ins[p] == w);
        lemma_skip_ws_absorb(ins, i, p + 1);
        assert(spec_tokens(ins, i) == spec_tokens(ins, p + 1));
        assert(ins.skip(p + 1) =~= s.skip(p)) by {
            lemma_skip_len(ins, p + 1);
            lemma_skip_len(s, p);
            assert forall|q: int| 0 <= q < s.len() - p implies #[trigger] ins.skip(p + 1)[q] == s.skip(p)[q] by {
                lemma_skip_index(ins, p + 1, q);
                lemma_skip_index(s, p, q);
            }
        }
        lemma_token_kinds_suffix(ins, p + 1, s, p);
    } else {
        let k = lex_at(s, j).1;
        lemma_lex_at_bounds(s, j);
        assert(spec_tokens(s, i) == seq![(byte_off(s, j), lex_at(s, j).0)].add(spec_tokens(s, k)));
        assert(spec_tokens(s, i)[0].1 == lex_at(s, j).0);
        assert(!(lex_at(s, j).0 matches TokenV::Error { .. }));
        lemma_lex_at_insert(s, p, w, j);
        assert(forall|q: int| i <= q < j ==> is_ws(#[trigger] ins[q]));
        assert(ins[j] == s[j]);
        assert(!is_ws(s[j]));
        lemma_skip_ws_exact(ins, i, j);
        assert(error_free(s, k)) by {
            assert forall|q: int|
                0 <= q < spec_tokens(s, k).len() implies !((#[trigger] spec_tokens(s, k)[q]).1
                matches TokenV::Error { .. }) by {
                assert(spec_tokens(s, i)[q + 1] == spec_tokens(s, k)[q]);
            }
        }
        lemma_ws_insertion(s, k, p, w);
        assert(spec_tokens(ins, i) == seq![(byte_off(ins, j), lex_at(ins, j).0)].add(spec_tokens(ins, k)));
        assert(token_kinds(s, i) =~= seq![lex_at(s, j).0].add(token_kinds(s, k)));
        assert(token_kinds(ins, i) =~= seq![lex_at(s, j).0].add(token_kinds(ins, k)));
    }
}

/// Law, whitespace insensitivity end to end: inserting a whitespace
/// character into any token gap of a source that lexes cleanly leaves the
/// token kinds unchanged, and with them the parse result itself.
pub proof fn lemma_ws_insertion_parse(s: Seq<char>, p: int, w: char, fuel: nat)
    requires
        in_gap(s, 0, p),
        error_free(s, 0),
        is_ws(w),
    ensures
        token_kinds(s.insert(p, w), 0) == token_kinds(s, 0),
        p_top(token_kinds(s.insert(p, w), 0), fuel) == p_top(token_kinds(s, 0), fuel),
{
    assert(0 <= s.len());
    lemma_ws_insertion(s, 0, p, w);
}

} // verus!
