//! The recursive-descent parser: consumes the token sequence of one
//! source line with an explicit cursor and produces exactly one
//! statement tree, or fails fast with a descriptive error and no
//! partial result. One-token lookahead suffices for this grammar.

use vstd::prelude::*;

use crate::ast::{Expr, ExprView, Stmt, StmtView};
use crate::lexer::{lex, spec_lex, Token, TokenView};
use crate::numerals::digits_to_i64;

verus! {

/// A parse failure. Each variant matches one of the parser's fixed
/// messages; the whole line is rejected and no partial statement is
/// returned.
#[derive(Debug, Clone, Copy, PartialEq, Eq, Structural)]
pub enum ParseError {
    /// The line held no token at all.
    EmptyLine,
    /// The tokens ended where the grammar needed one more.
    UnexpectedEnd,
    /// `to` was needed here.
    ExpectedTo,
    /// `from` was needed here.
    ExpectedFrom,
    /// `by` was needed here.
    ExpectedBy,
    /// `than` was needed here.
    ExpectedThan,
    /// `screen` was needed here.
    ExpectedScreen,
    /// `then` was needed here.
    ExpectedThen,
    /// An identifier was needed here.
    ExpectedIdent,
    /// After `is`, one of `greater`, `less` or `equal` was needed.
    ExpectedComparison,
    /// The leading token starts no statement.
    UnknownStatement,
    /// The token at an expression position starts no atom.
    UnknownAtom,
    /// `then` at the end of the line, with no statement after it.
    ExpectedStmtAfterThen,
    /// Tokens were left after the one statement of the line.
    ExtraTokens,
    /// An integer literal beyond the 64-bit signed range.
    IntOutOfRange,
}

/// The quoted text of a string literal token with the surrounding
/// quotes stripped.
pub open spec fn strip_quotes(s: Seq<char>) -> Seq<char> {
    if s.len() >= 2 {
        s.subrange(1, s.len() - 1)
    } else {
        Seq::empty()
    }
}

/// Parses one atom: an optional leading article, then an integer
/// literal, a string literal, an identifier, or the pronoun `it`.
/// Returns the expression and the cursor after it.
pub open spec fn spec_parse_atom(toks: Seq<TokenView>, pos: nat) -> Result<
    (ExprView, nat),
    ParseError,
> {
    if pos >= toks.len() {
        Err(ParseError::UnexpectedEnd)
    } else {
        let p = if toks[pos as int] is KwThe {
            pos + 1
        } else {
            pos
        };
        if p >= toks.len() {
            Err(ParseError::UnexpectedEnd)
        } else {
            match toks[p as int] {
                TokenView::IntLit(s) => if crate::numerals::digits_val(s) <= i64::MAX {
                    Ok((ExprView::Int(crate::numerals::digits_val(s) as int), p + 1))
                } else {
                    Err(ParseError::IntOutOfRange)
                },
                TokenView::StrLit(s) => Ok((ExprView::Str(strip_quotes(s)), p + 1)),
                TokenView::Ident(s) => if s == "it"@ {
                    Ok((ExprView::LastValue, p + 1))
                } else {
                    Ok((ExprView::Var(s), p + 1))
                },
                _ => Err(ParseError::UnknownAtom),
            }
        }
    }
}

/// An atom never consumes nothing, and never runs past the end.
pub proof fn lemma_parse_atom_progress(toks: Seq<TokenView>, pos: nat)
    ensures
        match spec_parse_atom(toks, pos) {
            Ok((_, p)) => pos < p <= toks.len(),
            Err(_) => true,
        },
{
}

/// Parses one expression: an atom, optionally followed by `is` and
/// exactly one comparison whose right-hand side is again an expression
/// (comparisons chain to the right).
pub open spec fn spec_parse_expr(toks: Seq<TokenView>, pos: nat) -> Result<
    (ExprView, nat),
    ParseError,
>
    decreases toks.len() - pos, 1nat when pos <= toks.len()
{
    if pos >= toks.len() {
        Err(ParseError::UnexpectedEnd)
    } else {
        match spec_parse_atom(toks, pos) {
            Err(e) => Err(e),
            Ok((left, p1)) => if p1 < toks.len() && toks[p1 as int] is KwIs {
                let p2 = p1 + 1;
                if p2 >= toks.len() {
                    Err(ParseError::UnexpectedEnd)
                } else if toks[p2 as int] is KwGreater {
                    spec_parse_comparison_rhs(toks, pos, p2 + 1, left, CompareForm::Greater)
                } else if toks[p2 as int] is KwLess {
                    spec_parse_comparison_rhs(toks, pos, p2 + 1, left, CompareForm::Less)
                } else if toks[p2 as int] is KwEqual {
                    spec_parse_comparison_rhs(toks, pos, p2 + 1, left, CompareForm::Equal)
                } else {
                    Err(ParseError::ExpectedComparison)
                }
            } else {
                Ok((left, p1))
            },
        }
    }
}

/// The three comparison forms of the surface grammar.
pub enum CompareForm {
    Greater,
    Less,
    Equal,
}

/// After `is greater`, `is less` or `is equal`: the connective word
/// (`than` or `to`), then the right-hand expression.
pub open spec fn spec_parse_comparison_rhs(
    toks: Seq<TokenView>,
    pos: nat,
    p: nat,
    left: ExprView,
    form: CompareForm,
) -> Result<(ExprView, nat), ParseError>
    decreases toks.len() - pos, 0nat when pos <= toks.len()
{
    if p >= toks.len() {
        Err(ParseError::UnexpectedEnd)
    } else {
        let word_ok = match form {
            CompareForm::Greater => toks[p as int] is KwThan,
            CompareForm::Less => toks[p as int] is KwThan,
            CompareForm::Equal => toks[p as int] is KwTo,
        };
        if !word_ok {
            match form {
                CompareForm::Greater => Err(ParseError::ExpectedThan),
                CompareForm::Less => Err(ParseError::ExpectedThan),
                CompareForm::Equal => Err(ParseError::ExpectedTo),
            }
        } else if pos < p + 1 <= toks.len() {
            match spec_parse_expr(toks, p + 1) {
                Err(e) => Err(e),
                Ok((right, p3)) => {
                    let node = match form {
                        CompareForm::Greater => ExprView::Greater(
                            Box::new(left),
                            Box::new(right),
                        ),
                        CompareForm::Less => ExprView::Less(Box::new(left), Box::new(right)),
                        CompareForm::Equal => ExprView::Equal(Box::new(left), Box::new(right)),
                    };
                    Ok((node, p3))
                },
            }
        } else {
            Err(ParseError::UnexpectedEnd)
        }
    }
}

/// Expressions never consume nothing, and never run past the end.
pub proof fn lemma_parse_expr_progress(toks: Seq<TokenView>, pos: nat)
    requires
        pos <= toks.len(),
    ensures
        match spec_parse_expr(toks, pos) {
            Ok((_, p)) => pos < p <= toks.len(),
            Err(_) => true,
        },
    decreases toks.len() - pos,
{
    lemma_parse_atom_progress(toks, pos);
    if pos < toks.len() {
        match spec_parse_atom(toks, pos) {
            Err(_) => {},
            Ok((left, p1)) => {
                if p1 < toks.len() && toks[p1 as int] is KwIs {
                    let p = p1 + 2;
                    if p < toks.len() && pos < p + 1 <= toks.len() {
                        lemma_parse_expr_progress(toks, p + 1);
                    }
                }
            },
        }
    }
}

/// The loop-body scan: skips tokens until a `display` or `show` keyword
/// (or the end of the line), with no validation of the skipped filler.
pub open spec fn skip_to_show(toks: Seq<TokenView>, pos: nat) -> nat
    decreases toks.len() - pos when pos <= toks.len()
{
    if pos >= toks.len() {
        pos
    } else if toks[pos as int] is KwDisplay || toks[pos as int] is KwShow {
        pos
    } else {
        skip_to_show(toks, pos + 1)
    }
}

/// The scan never moves backwards and never runs past the end.
pub proof fn lemma_skip_to_show(toks: Seq<TokenView>, pos: nat)
    requires
        pos <= toks.len(),
    ensures
        pos <= skip_to_show(toks, pos) <= toks.len(),
    decreases toks.len() - pos,
{
    if pos < toks.len() && !(toks[pos as int] is KwDisplay || toks[pos as int] is KwShow) {
        lemma_skip_to_show(toks, pos + 1);
    }
}

/// Parses the primary statement that starts at `pos`, dispatching on its
/// leading keyword; articles are skipped where the grammar permits them.
pub open spec fn spec_parse_primary(toks: Seq<TokenView>, pos: nat) -> Result<
    (StmtView, nat),
    ParseError,
>
    decreases toks.len() - pos, 2nat when pos <= toks.len()
{
    if pos >= toks.len() {
        Err(ParseError::UnexpectedEnd)
    } else {
        match toks[pos as int] {
            TokenView::KwSet => {
                let p = pos + 1;
                if p >= toks.len() {
                    Err(ParseError::UnexpectedEnd)
                } else {
                    let p = if toks[p as int] is KwThe {
                        p + 1
                    } else {
                        p
                    };
                    if p >= toks.len() {
                        Err(ParseError::UnexpectedEnd)
                    } else {
                        match toks[p as int] {
                            TokenView::Ident(name) => {
                                let p = p + 1;
                                if p >= toks.len() {
                                    Err(ParseError::UnexpectedEnd)
                                } else if toks[p as int] is KwTo {
                                    match spec_parse_expr(toks, p + 1) {
                                        Err(e) => Err(e),
                                        Ok((e, p2)) => Ok((StmtView::Assign(name, e), p2)),
                                    }
                                } else {
                                    Err(ParseError::ExpectedTo)
                                }
                            },
                            _ => Err(ParseError::ExpectedIdent),
                        }
                    }
                }
            },
            TokenView::KwAdd => spec_parse_arith_tail(
                toks,
                pos,
                ArithForm::AddTo,
            ),
            TokenView::KwSubtract => spec_parse_arith_tail(toks, pos, ArithForm::SubFrom),
            TokenView::KwMultiply => {
                let p = pos + 1;
                if p >= toks.len() {
                    Err(ParseError::UnexpectedEnd)
                } else {
                    let p = if toks[p as int] is KwThe {
                        p + 1
                    } else {
                        p
                    };
                    if p >= toks.len() {
                        Err(ParseError::UnexpectedEnd)
                    } else {
                        match toks[p as int] {
                            TokenView::Ident(name) => {
                                let p = p + 1;
                                if p >= toks.len() {
                                    Err(ParseError::UnexpectedEnd)
                                } else if toks[p as int] is KwBy {
                                    match spec_parse_expr(toks, p + 1) {
                                        Err(e) => Err(e),
                                        Ok((e, p2)) => Ok((StmtView::MulBy(name, e), p2)),
                                    }
                                } else {
                                    Err(ParseError::ExpectedBy)
                                }
                            },
                            _ => Err(ParseError::ExpectedIdent),
                        }
                    }
                }
            },
            TokenView::KwShow => {
                let p = pos + 1;
                if p >= toks.len() {
                    Err(ParseError::UnexpectedEnd)
                } else if toks[p as int] is KwOn {
                    let p = p + 1;
                    if p >= toks.len() {
                        Err(ParseError::UnexpectedEnd)
                    } else {
                        let p = if toks[p as int] is KwThe {
                            p + 1
                        } else {
                            p
                        };
                        if p >= toks.len() {
                            Err(ParseError::UnexpectedEnd)
                        } else if toks[p as int] is KwScreen {
                            spec_parse_show_tail(toks, pos, p + 1)
                        } else {
                            Err(ParseError::ExpectedScreen)
                        }
                    }
                } else {
                    spec_parse_show_tail(toks, pos, p)
                }
            },
            TokenView::KwPrint => spec_parse_show_tail(toks, pos, pos + 1),
            TokenView::KwIf => {
                let p = pos + 1;
                if p >= toks.len() {
                    Err(ParseError::UnexpectedEnd)
                } else {
                    let p = if toks[p as int] is KwThe {
                        p + 1
                    } else {
                        p
                    };
                    match spec_parse_expr(toks, p) {
                        Err(e) => Err(e),
                        Ok((c, p1)) => if p1 >= toks.len() {
                            Err(ParseError::UnexpectedEnd)
                        } else if toks[p1 as int] is KwThen {
                            if pos < p1 + 1 <= toks.len() {
                                match spec_parse_stmt(toks, p1 + 1) {
                                    Err(e) => Err(e),
                                    Ok((b, p2)) => Ok((StmtView::If(c, Box::new(b)), p2)),
                                }
                            } else {
                                Err(ParseError::UnexpectedEnd)
                            }
                        } else {
                            Err(ParseError::ExpectedThen)
                        },
                    }
                }
            },
            TokenView::KwCount => {
                let p = pos + 1;
                if p >= toks.len() {
                    Err(ParseError::UnexpectedEnd)
                } else if toks[p as int] is KwTo {
                    match spec_parse_expr(toks, p + 1) {
                        Err(e) => Err(e),
                        Ok((c, p1)) => {
                            let q = skip_to_show(toks, p1);
                            if pos < q <= toks.len() {
                                match spec_parse_stmt(toks, q) {
                                    Err(e) => Err(e),
                                    Ok((b, p2)) => Ok((StmtView::Loop(c, Box::new(b)), p2)),
                                }
                            } else {
                                Err(ParseError::UnexpectedEnd)
                            }
                        },
                    }
                } else {
                    Err(ParseError::ExpectedTo)
                }
            },
            TokenView::KwDisplay => {
                let p = pos + 1;
                if p >= toks.len() {
                    Err(ParseError::UnexpectedEnd)
                } else {
                    let p = if toks[p as int] is KwThe {
                        p + 1
                    } else {
                        p
                    };
                    match spec_parse_expr(toks, p) {
                        Err(e) => Err(e),
                        Ok((e, p1)) => {
                            let p2 = if p1 < toks.len() && toks[p1 as int] is KwResult {
                                p1 + 1
                            } else {
                                p1
                            };
                            Ok((StmtView::Show(e), p2))
                        },
                    }
                }
            },
            _ => Err(ParseError::UnknownStatement),
        }
    }
}

/// The two arithmetic statement shapes that put the expression first:
/// `add EXPR to NAME` and `subtract EXPR from NAME`.
pub enum ArithForm {
    AddTo,
    SubFrom,
}

/// After `add` or `subtract`: the source expression, the connective
/// (`to` or `from`), an optional article, and the target identifier.
pub open spec fn spec_parse_arith_tail(toks: Seq<TokenView>, pos: nat, form: ArithForm) -> Result<
    (StmtView, nat),
    ParseError,
>
    decreases toks.len() - pos, 1nat when pos < toks.len()
{
    match spec_parse_expr(toks, pos + 1) {
        Err(e) => Err(e),
        Ok((e, p1)) => if p1 >= toks.len() {
            Err(ParseError::UnexpectedEnd)
        } else {
            let word_ok = match form {
                ArithForm::AddTo => toks[p1 as int] is KwTo,
                ArithForm::SubFrom => toks[p1 as int] is KwFrom,
            };
            if !word_ok {
                match form {
                    ArithForm::AddTo => Err(ParseError::ExpectedTo),
                    ArithForm::SubFrom => Err(ParseError::ExpectedFrom),
                }
            } else {
                let p = p1 + 1;
                if p >= toks.len() {
                    Err(ParseError::UnexpectedEnd)
                } else {
                    let p = if toks[p as int] is KwThe {
                        p + 1
                    } else {
                        p
                    };
                    if p >= toks.len() {
                        Err(ParseError::UnexpectedEnd)
                    } else {
                        match toks[p as int] {
                            TokenView::Ident(name) => {
                                let node = match form {
                                    ArithForm::AddTo => StmtView::AddTo(e, name),
                                    ArithForm::SubFrom => StmtView::SubFrom(e, name),
                                };
                                Ok((node, p + 1))
                            },
                            _ => Err(ParseError::ExpectedIdent),
                        }
                    }
                }
            }
        },
    }
}

/// After `show [on [the] screen]`, `print` or `display`: an optional
/// article and the expression to print.
pub open spec fn spec_parse_show_tail(toks: Seq<TokenView>, pos: nat, p: nat) -> Result<
    (StmtView, nat),
    ParseError,
>
    decreases toks.len() - pos, 1nat when pos <= toks.len()
{
    if p >= toks.len() {
        Err(ParseError::UnexpectedEnd)
    } else {
        let p2 = if toks[p as int] is KwThe {
            p + 1
        } else {
            p
        };
        if pos < p2 <= toks.len() {
            match spec_parse_expr(toks, p2) {
                Err(e) => Err(e),
                Ok((e, p3)) => Ok((StmtView::Show(e), p3)),
            }
        } else {
            Err(ParseError::UnexpectedEnd)
        }
    }
}

/// Parses one full statement: a primary statement and any `then STMT`
/// continuations, which nest to the right.
pub open spec fn spec_parse_stmt(toks: Seq<TokenView>, pos: nat) -> Result<
    (StmtView, nat),
    ParseError,
>
    decreases toks.len() - pos, 3nat when pos <= toks.len()
{
    match spec_parse_primary(toks, pos) {
        Err(e) => Err(e),
        Ok((s, p1)) => if p1 < toks.len() && toks[p1 as int] is KwThen {
            if p1 + 1 >= toks.len() {
                Err(ParseError::ExpectedStmtAfterThen)
            } else if pos < p1 + 1 {
                match spec_parse_stmt(toks, p1 + 1) {
                    Err(e) => Err(e),
                    Ok((rest, p2)) => Ok((StmtView::Chain(Box::new(s), Box::new(rest)), p2)),
                }
            } else {
                Err(ParseError::UnexpectedEnd)
            }
        } else {
            Ok((s, p1))
        },
    }
}

/// The one statement of a whole line: the tokens of the line must hold
/// exactly one statement, optionally closed by a period.
pub open spec fn spec_parse(s: Seq<char>) -> Result<StmtView, ParseError> {
    let toks = spec_lex(s);
    if toks.len() == 0 {
        Err(ParseError::EmptyLine)
    } else {
        match spec_parse_stmt(toks, 0) {
            Err(e) => Err(e),
            Ok((st, p)) => {
                let p2 = if p < toks.len() && toks[p as int] is Period {
                    p + 1
                } else {
                    p
                };
                if p2 < toks.len() {
                    Err(ParseError::ExtraTokens)
                } else {
                    Ok(st)
                }
            },
        }
    }
}

/// The arithmetic tail never consumes nothing, and never runs past the
/// end.
pub proof fn lemma_parse_arith_tail_progress(toks: Seq<TokenView>, pos: nat, form: ArithForm)
    requires
        pos < toks.len(),
    ensures
        match spec_parse_arith_tail(toks, pos, form) {
            Ok((_, p)) => pos < p <= toks.len(),
            Err(_) => true,
        },
{
    lemma_parse_expr_progress(toks, pos + 1);
}

/// The show tail never consumes nothing, and never runs past the end.
pub proof fn lemma_parse_show_tail_progress(toks: Seq<TokenView>, pos: nat, p: nat)
    requires
        pos <= toks.len(),
    ensures
        match spec_parse_show_tail(toks, pos, p) {
            Ok((_, q)) => pos < q <= toks.len(),
            Err(_) => true,
        },
{
    if p < toks.len() {
        let p2 = if toks[p as int] is KwThe {
            p + 1
        } else {
            p
        };
        if pos < p2 <= toks.len() {
            lemma_parse_expr_progress(toks, p2);
        }
    }
}

/// A primary statement never consumes nothing, and never runs past the
/// end.
pub proof fn lemma_parse_primary_progress(toks: Seq<TokenView>, pos: nat)
    requires
        pos <= toks.len(),
    ensures
        match spec_parse_primary(toks, pos) {
            Ok((_, p)) => pos < p <= toks.len(),
            Err(_) => true,
        },
    decreases toks.len() - pos, 2nat,
{
    if pos < toks.len() {
        match toks[pos as int] {
            TokenView::KwSet => {
                let p = pos + 1;
                if p < toks.len() {
                    let p = if toks[p as int] is KwThe {
                        p + 1
                    } else {
                        p
                    };
                    if p + 1 < toks.len() {
                        lemma_parse_expr_progress(toks, p + 2);
                    }
                }
            },
            TokenView::KwAdd => {
                lemma_parse_arith_tail_progress(toks, pos, ArithForm::AddTo);
            },
            TokenView::KwSubtract => {
                lemma_parse_arith_tail_progress(toks, pos, ArithForm::SubFrom);
            },
            TokenView::KwMultiply => {
                let p = pos + 1;
                if p < toks.len() {
                    let p = if toks[p as int] is KwThe {
                        p + 1
                    } else {
                        p
                    };
                    if p + 1 < toks.len() {
                        lemma_parse_expr_progress(toks, p + 2);
                    }
                }
            },
            TokenView::KwShow => {
                let p = pos + 1;
                if p < toks.len() {
                    if toks[p as int] is KwOn {
                        let p = p + 1;
                        if p < toks.len() {
                            let p = if toks[p as int] is KwThe {
                                p + 1
                            } else {
                                p
                            };
                            lemma_parse_show_tail_progress(toks, pos, p + 1);
                        }
                    } else {
                        lemma_parse_show_tail_progress(toks, pos, p);
                    }
                }
            },
            TokenView::KwPrint => {
                lemma_parse_show_tail_progress(toks, pos, pos + 1);
            },
            TokenView::KwIf => {
                let p = pos + 1;
                if p < toks.len() {
                    let p = if toks[p as int] is KwThe {
                        p + 1
                    } else {
                        p
                    };
                    lemma_parse_expr_progress(toks, p);
                    match spec_parse_expr(toks, p) {
                        Err(_) => {},
                        Ok((_, p1)) => {
                            if p1 < toks.len() && toks[p1 as int] is KwThen {
                                if pos < p1 + 1 <= toks.len() {
                                    lemma_parse_stmt_progress(toks, p1 + 1);
                                }
                            }
                        },
                    }
                }
            },
            TokenView::KwCount => {
                let p = pos + 1;
                if p < toks.len() && toks[p as int] is KwTo {
                    lemma_parse_expr_progress(toks, p + 1);
                    match spec_parse_expr(toks, p + 1) {
                        Err(_) => {},
                        Ok((_, p1)) => {
                            let q = skip_to_show(toks, p1);
                            if pos < q <= toks.len() {
                                lemma_parse_stmt_progress(toks, q);
                            }
                        },
                    }
                }
            },
            TokenView::KwDisplay => {
                let p = pos + 1;
                if p < toks.len() {
                    let p = if toks[p as int] is KwThe {
                        p + 1
                    } else {
                        p
                    };
                    lemma_parse_expr_progress(toks, p);
                }
            },
            _ => {},
        }
    }
}

/// A statement never consumes nothing, and never runs past the end.
pub proof fn lemma_parse_stmt_progress(toks: Seq<TokenView>, pos: nat)
    requires
        pos <= toks.len(),
    ensures
        match spec_parse_stmt(toks, pos) {
            Ok((_, p)) => pos < p <= toks.len(),
            Err(_) => true,
        },
    decreases toks.len() - pos, 3nat,
{
    lemma_parse_primary_progress(toks, pos);
    match spec_parse_primary(toks, pos) {
        Err(_) => {},
        Ok((_, p1)) => {
            if p1 < toks.len() && toks[p1 as int] is KwThen {
                if p1 + 1 < toks.len() && pos < p1 + 1 {
                    lemma_parse_stmt_progress(toks, p1 + 1);
                }
            }
        },
    }
}

/// The view of an expression parsing step.
pub open spec fn expr_step_view(r: Result<(Expr, usize), ParseError>) -> Result<
    (ExprView, nat),
    ParseError,
> {
    match r {
        Ok((e, p)) => Ok((e.deep_view(), p as nat)),
        Err(pe) => Err(pe),
    }
}

/// The view of a statement parsing step.
pub open spec fn stmt_step_view(r: Result<(Stmt, usize), ParseError>) -> Result<
    (StmtView, nat),
    ParseError,
> {
    match r {
        Ok((s, p)) => Ok((s.deep_view(), p as nat)),
        Err(pe) => Err(pe),
    }
}

/// Indexing the view of a token vector is viewing the indexed token.
proof fn lemma_toks_view(toks: &Vec<Token>)
    ensures
        toks.deep_view().len() == toks@.len(),
        forall|i: int|
            0 <= i < toks@.len() ==> toks.deep_view()[i] == #[trigger] toks@[i].deep_view(),
{
}

/// Parses one atom.
fn parse_atom(toks: &Vec<Token>, pos: usize) -> (r: Result<(Expr, usize), ParseError>)
    requires
        crate::lexer::wf_tokens(toks.deep_view()),
        pos <= toks@.len(),
    ensures
        expr_step_view(r) == spec_parse_atom(toks.deep_view(), pos as nat),
{
    proof {
        lemma_toks_view(toks);
    }
    let n = toks.len();
    if pos >= n {
        return Err(ParseError::UnexpectedEnd);
    }
    let p = if matches!(&toks[pos], Token::KwThe) {
        pos + 1
    } else {
        pos
    };
    if p >= n {
        return Err(ParseError::UnexpectedEnd);
    }
    match &toks[p] {
        Token::IntLit(s) => {
            proof {
                assert(crate::lexer::wf_token(toks.deep_view()[p as int]));
            }
            match digits_to_i64(s.as_str()) {
                Some(v) => Ok((Expr::Int(v), p + 1)),
                None => Err(ParseError::IntOutOfRange),
            }
        },
        Token::StrLit(s) => {
            proof {
                assert(crate::lexer::wf_token(toks.deep_view()[p as int]));
            }
            let raw = s.as_str();
            let len = raw.unicode_len();
            let inner = String::from_str(raw.substring_char(1, len - 1));
            Ok((Expr::Str(inner), p + 1))
        },
        Token::Ident(s) => {
            if crate::lexer::word_is(s, "it") {
                Ok((Expr::LastValue, p + 1))
            } else {
                Ok((Expr::Var(s.clone()), p + 1))
            }
        },
        _ => Err(ParseError::UnknownAtom),
    }
}

/// Parses one expression.
fn parse_expr(toks: &Vec<Token>, pos: usize) -> (r: Result<(Expr, usize), ParseError>)
    requires
        crate::lexer::wf_tokens(toks.deep_view()),
        pos <= toks@.len(),
    ensures
        expr_step_view(r) == spec_parse_expr(toks.deep_view(), pos as nat),
    decreases toks@.len() - pos, 1nat,
{
    proof {
        lemma_toks_view(toks);
    }
    let n = toks.len();
    if pos >= n {
        return Err(ParseError::UnexpectedEnd);
    }
    let (left, p1) = match parse_atom(toks, pos) {
        Err(e) => {
            return Err(e);
        },
        Ok(x) => x,
    };
    proof {
        lemma_parse_atom_progress(toks.deep_view(), pos as nat);
    }
    if p1 < n && matches!(&toks[p1], Token::KwIs) {
        let p2 = p1 + 1;
        if p2 >= n {
            return Err(ParseError::UnexpectedEnd);
        }
        if matches!(&toks[p2], Token::KwGreater) {
            parse_comparison_rhs(toks, pos, p2 + 1, left, CompareForm::Greater)
        } else if matches!(&toks[p2], Token::KwLess) {
            parse_comparison_rhs(toks, pos, p2 + 1, left, CompareForm::Less)
        } else if matches!(&toks[p2], Token::KwEqual) {
            parse_comparison_rhs(toks, pos, p2 + 1, left, CompareForm::Equal)
        } else {
            Err(ParseError::ExpectedComparison)
        }
    } else {
        Ok((left, p1))
    }
}

/// Parses the connective and right-hand side of a comparison.
fn parse_comparison_rhs(
    toks: &Vec<Token>,
    pos: usize,
    p: usize,
    left: Expr,
    form: CompareForm,
) -> (r: Result<(Expr, usize), ParseError>)
    requires
        crate::lexer::wf_tokens(toks.deep_view()),
        pos < p,
        p <= toks@.len() + 1,
        pos <= toks@.len(),
    ensures
        expr_step_view(r) == spec_parse_comparison_rhs(
            toks.deep_view(),
            pos as nat,
            p as nat,
            left.deep_view(),
            form,
        ),
    decreases toks@.len() - pos, 0nat,
{
    proof {
        lemma_toks_view(toks);
    }
    let n = toks.len();
    if p >= n {
        return Err(ParseError::UnexpectedEnd);
    }
    let word_ok = match form {
        CompareForm::Greater => matches!(&toks[p], Token::KwThan),
        CompareForm::Less => matches!(&toks[p], Token::KwThan),
        CompareForm::Equal => matches!(&toks[p], Token::KwTo),
    };
    if !word_ok {
        return match form {
            CompareForm::Greater => Err(ParseError::ExpectedThan),
            CompareForm::Less => Err(ParseError::ExpectedThan),
            CompareForm::Equal => Err(ParseError::ExpectedTo),
        };
    }
    match parse_expr(toks, p + 1) {
        Err(e) => Err(e),
        Ok((right, p3)) => {
            let node = match form {
                CompareForm::Greater => Expr::Greater(Box::new(left), Box::new(right)),
                CompareForm::Less => Expr::Less(Box::new(left), Box::new(right)),
                CompareForm::Equal => Expr::Equal(Box::new(left), Box::new(right)),
            };
            Ok((node, p3))
        },
    }
}

/// Scans ahead to the next `display` or `show` keyword.
fn skip_to_show_exec(toks: &Vec<Token>, pos: usize) -> (q: usize)
    requires
        pos <= toks@.len(),
    ensures
        q as nat == skip_to_show(toks.deep_view(), pos as nat),
        pos <= q <= toks@.len(),
{
    proof {
        lemma_toks_view(toks);
    }
    let n = toks.len();
    let mut i = pos;
    loop
        invariant
            pos <= i <= n,
            n == toks@.len(),
            toks.deep_view().len() == toks@.len(),
            forall|k: int|
                0 <= k < toks@.len() ==> toks.deep_view()[k] == #[trigger] toks@[k].deep_view(),
            skip_to_show(toks.deep_view(), pos as nat) == skip_to_show(
                toks.deep_view(),
                i as nat,
            ),
        ensures
            pos <= i <= n,
            skip_to_show(toks.deep_view(), pos as nat) == i as nat,
        decreases n - i,
    {
        if i >= n {
            proof {
                assert(skip_to_show(toks.deep_view(), i as nat) == i as nat);
            }
            break ;
        }
        if matches!(&toks[i], Token::KwDisplay) || matches!(&toks[i], Token::KwShow) {
            proof {
                assert(skip_to_show(toks.deep_view(), i as nat) == i as nat);
            }
            break ;
        }
        i = i + 1;
    }
    i
}

/// Parses the tail of an `add` or `subtract` statement.
fn parse_arith_tail(toks: &Vec<Token>, pos: usize, form: ArithForm) -> (r: Result<
    (Stmt, usize),
    ParseError,
>)
    requires
        crate::lexer::wf_tokens(toks.deep_view()),
        pos < toks@.len(),
    ensures
        stmt_step_view(r) == spec_parse_arith_tail(toks.deep_view(), pos as nat, form),
    decreases toks@.len() - pos, 1nat,
{
    proof {
        lemma_toks_view(toks);
    }
    let n = toks.len();
    let (e, p1) = match parse_expr(toks, pos + 1) {
        Err(er) => {
            return Err(er);
        },
        Ok(x) => x,
    };
    proof {
        lemma_parse_expr_progress(toks.deep_view(), (pos + 1) as nat);
    }
    if p1 >= n {
        return Err(ParseError::UnexpectedEnd);
    }
    let word_ok = match form {
        ArithForm::AddTo => matches!(&toks[p1], Token::KwTo),
        ArithForm::SubFrom => matches!(&toks[p1], Token::KwFrom),
    };
    if !word_ok {
        return match form {
            ArithForm::AddTo => Err(ParseError::ExpectedTo),
            ArithForm::SubFrom => Err(ParseError::ExpectedFrom),
        };
    }
    let p = p1 + 1;
    if p >= n {
        return Err(ParseError::UnexpectedEnd);
    }
    let p = if matches!(&toks[p], Token::KwThe) {
        p + 1
    } else {
        p
    };
    if p >= n {
        return Err(ParseError::UnexpectedEnd);
    }
    match &toks[p] {
        Token::Ident(name) => {
            let node = match form {
                ArithForm::AddTo => Stmt::AddTo(e, name.clone()),
                ArithForm::SubFrom => Stmt::SubFrom(e, name.clone()),
            };
            Ok((node, p + 1))
        },
        _ => Err(ParseError::ExpectedIdent),
    }
}

/// Parses the tail of a `show`, `print` or `display` statement.
fn parse_show_tail(toks: &Vec<Token>, pos: usize, p: usize) -> (r: Result<
    (Stmt, usize),
    ParseError,
>)
    requires
        crate::lexer::wf_tokens(toks.deep_view()),
        pos < p,
        p <= toks@.len() + 1,
        pos <= toks@.len(),
    ensures
        stmt_step_view(r) == spec_parse_show_tail(toks.deep_view(), pos as nat, p as nat),
    decreases toks@.len() - pos, 1nat,
{
    proof {
        lemma_toks_view(toks);
    }
    let n = toks.len();
    if p >= n {
        return Err(ParseError::UnexpectedEnd);
    }
    let p2 = if matches!(&toks[p], Token::KwThe) {
        p + 1
    } else {
        p
    };
    match parse_expr(toks, p2) {
        Err(e) => Err(e),
        Ok((e, p3)) => Ok((Stmt::Show(e), p3)),
    }
}

/// Parses the primary statement that starts at `pos`.
#[verifier::rlimit(60)]
fn parse_primary(toks: &Vec<Token>, pos: usize) -> (r: Result<(Stmt, usize), ParseError>)
    requires
        crate::lexer::wf_tokens(toks.deep_view()),
        pos <= toks@.len(),
    ensures
        stmt_step_view(r) == spec_parse_primary(toks.deep_view(), pos as nat),
    decreases toks@.len() - pos, 2nat,
{
    proof {
        lemma_toks_view(toks);
    }
    let n = toks.len();
    if pos >= n {
        return Err(ParseError::UnexpectedEnd);
    }
    match &toks[pos] {
        Token::KwSet => {
            let p = pos + 1;
            if p >= n {
                return Err(ParseError::UnexpectedEnd);
            }
            let p = if matches!(&toks[p], Token::KwThe) {
                p + 1
            } else {
                p
            };
            if p >= n {
                return Err(ParseError::UnexpectedEnd);
            }
            match &toks[p] {
                Token::Ident(name) => {
                    let p = p + 1;
                    if p >= n {
                        return Err(ParseError::UnexpectedEnd);
                    }
                    if matches!(&toks[p], Token::KwTo) {
                        match parse_expr(toks, p + 1) {
                            Err(e) => Err(e),
                            Ok((e, p2)) => Ok((Stmt::Assign(name.clone(), e), p2)),
                        }
                    } else {
                        Err(ParseError::ExpectedTo)
                    }
                },
                _ => Err(ParseError::ExpectedIdent),
            }
        },
        Token::KwAdd => parse_arith_tail(toks, pos, ArithForm::AddTo),
        Token::KwSubtract => parse_arith_tail(toks, pos, ArithForm::SubFrom),
        Token::KwMultiply => {
            let p = pos + 1;
            if p >= n {
                return Err(ParseError::UnexpectedEnd);
            }
            let p = if matches!(&toks[p], Token::KwThe) {
                p + 1
            } else {
                p
            };
            if p >= n {
                return Err(ParseError::UnexpectedEnd);
            }
            match &toks[p] {
                Token::Ident(name) => {
                    let p = p + 1;
                    if p >= n {
                        return Err(ParseError::UnexpectedEnd);
                    }
                    if matches!(&toks[p], Token::KwBy) {
                        match parse_expr(toks, p + 1) {
                            Err(e) => Err(e),
                            Ok((e, p2)) => Ok((Stmt::MulBy(name.clone(), e), p2)),
                        }
                    } else {
                        Err(ParseError::ExpectedBy)
                    }
                },
                _ => Err(ParseError::ExpectedIdent),
            }
        },
        Token::KwShow => {
            let p = pos + 1;
            if p >= n {
                return Err(ParseError::UnexpectedEnd);
            }
            if matches!(&toks[p], Token::KwOn) {
                let p = p + 1;
                if p >= n {
                    return Err(ParseError::UnexpectedEnd);
                }
                let p = if matches!(&toks[p], Token::KwThe) {
                    p + 1
                } else {
                    p
                };
                if p >= n {
                    return Err(ParseError::UnexpectedEnd);
                }
                if matches!(&toks[p], Token::KwScreen) {
                    parse_show_tail(toks, pos, p + 1)
                } else {
                    Err(ParseError::ExpectedScreen)
                }
            } else {
                parse_show_tail(toks, pos, p)
            }
        },
        Token::KwPrint => parse_show_tail(toks, pos, pos + 1),
        Token::KwIf => {
            let p = pos + 1;
            if p >= n {
                return Err(ParseError::UnexpectedEnd);
            }
            let p = if matches!(&toks[p], Token::KwThe) {
                p + 1
            } else {
                p
            };
            let (c, p1) = match parse_expr(toks, p) {
                Err(e) => {
                    return Err(e);
                },
                Ok(x) => x,
            };
            proof {
                lemma_parse_expr_progress(toks.deep_view(), p as nat);
            }
            if p1 >= n {
                return Err(ParseError::UnexpectedEnd);
            }
            if matches!(&toks[p1], Token::KwThen) {
                match parse_stmt(toks, p1 + 1) {
                    Err(e) => Err(e),
                    Ok((b, p2)) => Ok((Stmt::If(c, Box::new(b)), p2)),
                }
            } else {
                Err(ParseError::ExpectedThen)
            }
        },
        Token::KwCount => {
            let p = pos + 1;
            if p >= n {
                return Err(ParseError::UnexpectedEnd);
            }
            if matches!(&toks[p], Token::KwTo) {
                let (c, p1) = match parse_expr(toks, p + 1) {
                    Err(e) => {
                        return Err(e);
                    },
                    Ok(x) => x,
                };
                proof {
                    lemma_parse_expr_progress(toks.deep_view(), (p + 1) as nat);
                }
                let q = skip_to_show_exec(toks, p1);
                match parse_stmt(toks, q) {
                    Err(e) => Err(e),
                    Ok((b, p2)) => Ok((Stmt::Loop(c, Box::new(b)), p2)),
                }
            } else {
                Err(ParseError::ExpectedTo)
            }
        },
        Token::KwDisplay => {
            let p = pos + 1;
            if p >= n {
                return Err(ParseError::UnexpectedEnd);
            }
            let p = if matches!(&toks[p], Token::KwThe) {
                p + 1
            } else {
                p
            };
            let (e, p1) = match parse_expr(toks, p) {
                Err(er) => {
                    return Err(er);
                },
                Ok(x) => x,
            };
            proof {
                lemma_parse_expr_progress(toks.deep_view(), p as nat);
            }
            let p2 = if p1 < n && matches!(&toks[p1], Token::KwResult) {
                p1 + 1
            } else {
                p1
            };
            Ok((Stmt::Show(e), p2))
        },
        _ => Err(ParseError::UnknownStatement),
    }
}

/// Parses one full statement, `then` continuations included.
fn parse_stmt(toks: &Vec<Token>, pos: usize) -> (r: Result<(Stmt, usize), ParseError>)
    requires
        crate::lexer::wf_tokens(toks.deep_view()),
        pos <= toks@.len(),
    ensures
        stmt_step_view(r) == spec_parse_stmt(toks.deep_view(), pos as nat),
    decreases toks@.len() - pos, 3nat,
{
    proof {
        lemma_toks_view(toks);
    }
    let n = toks.len();
    let (s, p1) = match parse_primary(toks, pos) {
        Err(e) => {
            return Err(e);
        },
        Ok(x) => x,
    };
    proof {
        lemma_parse_primary_progress(toks.deep_view(), pos as nat);
    }
    if p1 < n && matches!(&toks[p1], Token::KwThen) {
        if p1 + 1 >= n {
            return Err(ParseError::ExpectedStmtAfterThen);
        }
        match parse_stmt(toks, p1 + 1) {
            Err(e) => Err(e),
            Ok((rest, p2)) => Ok((Stmt::Chain(Box::new(s), Box::new(rest)), p2)),
        }
    } else {
        Ok((s, p1))
    }
}

/// Parses one source line into exactly one statement: lexes it, parses
/// one statement, accepts an optional closing period, and rejects a
/// line that is empty or holds anything more.
pub fn parse(input: &str) -> (r: Result<Stmt, ParseError>)
    ensures
        match r {
            Ok(s) => spec_parse(input@) == Ok::<StmtView, ParseError>(s.deep_view()),
            Err(e) => spec_parse(input@) == Err::<StmtView, ParseError>(e),
        },
{
    let toks = lex(input);
    proof {
        lemma_toks_view(&toks);
        crate::lexer::lemma_spec_lex_wf(input@, 0);
    }
    let n = toks.len();
    if n == 0 {
        return Err(ParseError::EmptyLine);
    }
    let (st, p) = match parse_stmt(&toks, 0) {
        Err(e) => {
            return Err(e);
        },
        Ok(x) => x,
    };
    proof {
        lemma_parse_stmt_progress(toks.deep_view(), 0);
    }
    let p2 = if p < n && matches!(&toks[p], Token::Period) {
        p + 1
    } else {
        p
    };
    if p2 < n {
        Err(ParseError::ExtraTokens)
    } else {
        Ok(st)
    }
}

} // verus!
