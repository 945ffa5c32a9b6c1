//! Laws of the language that hold for all inputs, proved over the
//! specification-level semantics that the lexer, parser and evaluator
//! are verified against.

use vstd::prelude::*;

use crate::ast::{ExprView, StmtView};
use crate::lexer::{self, spec_lex, spec_lex_at, TokenView};
use crate::numerals::{
    dec_digits, digits_val, is_digit, lemma_dec_digits_are_digits, lemma_digits_val_of_dec_digits,
};
use crate::parser::{
    spec_parse_atom, spec_parse_expr, spec_parse_primary, spec_parse_show_tail, spec_parse_stmt,
};
use crate::runtime::{init_state, spec_eval, spec_exec, value_text, EvalState};

verus! {

/// Printing is pure: a `show` statement never changes the environment or
/// the last value, and running the same `show` statement twice in a row
/// from any state gives the same result twice and prints the same line
/// twice.
pub proof fn lemma_show_idempotent(st: EvalState, e: ExprView)
    ensures
        ({
            let (st1, r1) = spec_exec(st, StmtView::Show(e));
            let (st2, r2) = spec_exec(st1, StmtView::Show(e));
            &&& st1.env == st.env
            &&& st1.last == st.last
            &&& r2 == r1
            &&& match spec_eval(st.env, st.last, e) {
                Ok(v) => st1.out == st.out + seq![value_text(v)] && st2.out == st1.out + seq![
                    value_text(v),
                ],
                Err(_) => st1.out == st.out && st2.out == st1.out,
            }
        }),
{
}

/// The decimal text of a value is itself a valid integer literal, and
/// reading it back yields the value: what `show` prints for a
/// non-negative integer can be fed to `set` and denotes the same
/// number.
pub proof fn lemma_numeral_round_trip(n: nat)
    ensures
        dec_digits(n).len() >= 1,
        forall|i: int| 0 <= i < dec_digits(n).len() ==> is_digit(#[trigger] dec_digits(n)[i]),
        digits_val(dec_digits(n)) == n,
{
    lemma_dec_digits_are_digits(n);
    lemma_digits_val_of_dec_digits(n);
}

/// For every valid integer literal `d` (a digit string whose value fits
/// in a signed 64-bit integer): parsing `set x to d then show x` and
/// running it on a fresh evaluator succeeds and prints exactly the
/// decimal text of the literal's value.
pub proof fn lemma_literal_round_trip(d: Seq<char>)
    requires
        d.len() >= 1,
        forall|i: int| 0 <= i < d.len() ==> is_digit(#[trigger] d[i]),
        digits_val(d) <= i64::MAX,
    ensures
        ({
            let n = digits_val(d);
            let toks = seq![
                TokenView::KwSet,
                TokenView::Ident("x"@),
                TokenView::KwTo,
                TokenView::IntLit(d),
                TokenView::KwThen,
                TokenView::KwShow,
                TokenView::Ident("x"@),
            ];
            match spec_parse_stmt(toks, 0) {
                Ok((s, p)) => p == toks.len() && ({
                    let (st, res) = spec_exec(init_state(), s);
                    res is Ok && st.out =~= seq![dec_digits(n)]
                }),
                Err(_) => false,
            }
        }),
{
    reveal_strlit("x");
    reveal_strlit("it");
    let n = digits_val(d);
    let toks = seq![
        TokenView::KwSet,
        TokenView::Ident("x"@),
        TokenView::KwTo,
        TokenView::IntLit(d),
        TokenView::KwThen,
        TokenView::KwShow,
        TokenView::Ident("x"@),
    ];
    assert("x"@.len() == 1);
    assert("it"@.len() == 2);
    assert("x"@ != "it"@);
    assert(spec_parse_atom(toks, 3) == Ok::<_, crate::parser::ParseError>(
        (ExprView::Int(n as int), 4nat),
    ));
    assert(spec_parse_expr(toks, 3) == Ok::<_, crate::parser::ParseError>(
        (ExprView::Int(n as int), 4nat),
    ));
    assert(spec_parse_primary(toks, 0) == Ok::<_, crate::parser::ParseError>(
        (StmtView::Assign("x"@, ExprView::Int(n as int)), 4nat),
    ));
    assert(spec_parse_atom(toks, 6) == Ok::<_, crate::parser::ParseError>(
        (ExprView::Var("x"@), 7nat),
    ));
    assert(spec_parse_expr(toks, 6) == Ok::<_, crate::parser::ParseError>(
        (ExprView::Var("x"@), 7nat),
    ));
    assert(spec_parse_show_tail(toks, 5, 6) == Ok::<_, crate::parser::ParseError>(
        (StmtView::Show(ExprView::Var("x"@)), 7nat),
    ));
    assert(spec_parse_primary(toks, 5) == Ok::<_, crate::parser::ParseError>(
        (StmtView::Show(ExprView::Var("x"@)), 7nat),
    ));
    assert(spec_parse_stmt(toks, 5) == Ok::<_, crate::parser::ParseError>(
        (StmtView::Show(ExprView::Var("x"@)), 7nat),
    ));
    let chained = StmtView::Chain(
        Box::new(StmtView::Assign("x"@, ExprView::Int(n as int))),
        Box::new(StmtView::Show(ExprView::Var("x"@))),
    );
    assert(spec_parse_stmt(toks, 0) == Ok::<_, crate::parser::ParseError>((chained, 7nat)));
    let (st1, r1) = spec_exec(init_state(), StmtView::Assign("x"@, ExprView::Int(n as int)));
    assert(r1 is Ok);
    assert(st1.env == Map::<Seq<char>, crate::ast::ValueView>::empty().insert(
        "x"@,
        crate::ast::ValueView::Int(n as int),
    ));
    assert(st1.env.contains_key("x"@));
    let (st2, r2) = spec_exec(st1, StmtView::Show(ExprView::Var("x"@)));
    assert(r2 is Ok);
    assert(value_text(crate::ast::ValueView::Int(n as int)) == dec_digits(n));
    assert(st2.out =~= seq![dec_digits(n)]);
    assert(spec_exec(init_state(), chained) == (st2, r2));
}

/// Lexing the source text `set x to d then show x`, for any digit
/// string `d`, yields exactly the seven tokens of that statement.
#[verifier::rlimit(50)]
proof fn lemma_lex_set_show_program(d: Seq<char>)
    requires
        d.len() >= 1,
        forall|i: int| 0 <= i < d.len() ==> is_digit(#[trigger] d[i]),
    ensures
        ({
            let src = "set x to "@ + d + " then show x"@;
            spec_lex(src) =~= seq![
                TokenView::KwSet,
                TokenView::Ident("x"@),
                TokenView::KwTo,
                TokenView::IntLit(d),
                TokenView::KwThen,
                TokenView::KwShow,
                TokenView::Ident("x"@),
            ]
        }),
{
    reveal_strlit("set x to ");
    reveal_strlit(" then show x");
    reveal_strlit("set");
    reveal_strlit("add");
    reveal_strlit("subtract");
    reveal_strlit("multiply");
    reveal_strlit("show");
    reveal_strlit("print");
    reveal_strlit("if");
    reveal_strlit("then");
    reveal_strlit("is");
    reveal_strlit("greater");
    reveal_strlit("less");
    reveal_strlit("equal");
    reveal_strlit("to");
    reveal_strlit("by");
    reveal_strlit("on");
    reveal_strlit("screen");
    reveal_strlit("from");
    reveal_strlit("than");
    reveal_strlit("the");
    reveal_strlit("count");
    reveal_strlit("display");
    reveal_strlit("result");
    reveal_strlit("and");
    reveal_strlit("when");
    reveal_strlit("you");
    reveal_strlit("are");
    reveal_strlit("done");
    reveal_strlit("x");
    reveal_strlit("it");
    let src = "set x to "@ + d + " then show x"@;
    assert("set"@.len() == 3 && "add"@.len() == 3 && "subtract"@.len() == 8 && "multiply"@.len()
        == 8 && "show"@.len() == 4 && "print"@.len() == 5 && "if"@.len() == 2 && "then"@.len()
        == 4 && "is"@.len() == 2 && "greater"@.len() == 7 && "less"@.len() == 4 && "equal"@.len()
        == 5 && "to"@.len() == 2 && "by"@.len() == 2 && "on"@.len() == 2 && "screen"@.len() == 6
        && "from"@.len() == 4 && "than"@.len() == 4 && "the"@.len() == 3 && "count"@.len() == 5
        && "display"@.len() == 7 && "result"@.len() == 6 && "and"@.len() == 3 && "when"@.len()
        == 4 && "you"@.len() == 3 && "are"@.len() == 3 && "done"@.len() == 4 && "x"@.len() == 1);
    assert("then"@[0] == 't' && "show"@[0] == 's');
    assert("then"@ != "show"@);
    assert("to"@[0] == 't' && "if"@[0] == 'i' && "is"@[0] == 'i');
    assert("to"@ != "if"@);
    assert("to"@ != "is"@);
    let dl = d.len();
    let b: int = 9 + dl as int;
    assert(src.len() == 21 + dl);
    assert(src[0] == 's' && src[1] == 'e' && src[2] == 't' && src[3] == ' ');
    assert(src[4] == 'x' && src[5] == ' ' && src[6] == 't' && src[7] == 'o' && src[8] == ' ');
    assert(forall|k: int| 0 <= k < dl ==> src[9 + k] == #[trigger] d[k]);
    assert(forall|k: int| 9 <= k < b ==> is_digit(#[trigger] src[k]));
    assert(src[b] == ' ');
    assert(src[b + 1] == 't' && src[b + 2] == 'h' && src[b + 3] == 'e' && src[b + 4] == 'n');
    assert(src[b + 5] == ' ');
    assert(src[b + 6] == 's' && src[b + 7] == 'h' && src[b + 8] == 'o' && src[b + 9] == 'w');
    assert(src[b + 10] == ' ');
    assert(src[b + 11] == 'x');
    // The trailing `x`, then backwards through the line.
    lexer::lemma_word_end_run(src, (b + 11) as nat, (b + 12) as nat);
    assert(src.subrange(b + 11, b + 12) =~= "x"@);
    assert(spec_lex_at(src, (b + 12) as nat) =~= Seq::<TokenView>::empty());
    assert(spec_lex_at(src, (b + 11) as nat) =~= seq![TokenView::Ident("x"@)]);
    assert(spec_lex_at(src, (b + 10) as nat) =~= seq![TokenView::Ident("x"@)]);
    // `show`
    lexer::lemma_word_end_run(src, (b + 6) as nat, (b + 10) as nat);
    assert(src.subrange(b + 6, b + 10) =~= "show"@);
    assert(spec_lex_at(src, (b + 6) as nat) =~= seq![TokenView::KwShow, TokenView::Ident("x"@)]);
    assert(spec_lex_at(src, (b + 5) as nat) =~= seq![TokenView::KwShow, TokenView::Ident("x"@)]);
    // `then`
    lexer::lemma_word_end_run(src, (b + 1) as nat, (b + 5) as nat);
    assert(src.subrange(b + 1, b + 5) =~= "then"@);
    assert(spec_lex_at(src, (b + 1) as nat) =~= seq![
        TokenView::KwThen,
        TokenView::KwShow,
        TokenView::Ident("x"@),
    ]);
    assert(spec_lex_at(src, b as nat) =~= seq![
        TokenView::KwThen,
        TokenView::KwShow,
        TokenView::Ident("x"@),
    ]);
    // the digit run
    lexer::lemma_digit_end_run(src, 9, b as nat);
    assert(src.subrange(9, b) =~= d);
    assert(!lexer::is_word_start(src[9]));
    assert(spec_lex_at(src, 9) =~= seq![
        TokenView::IntLit(d),
        TokenView::KwThen,
        TokenView::KwShow,
        TokenView::Ident("x"@),
    ]);
    assert(spec_lex_at(src, 8) == spec_lex_at(src, 9));
    // `to`
    lexer::lemma_word_end_run(src, 6, 8);
    assert(src.subrange(6, 8) =~= "to"@);
    assert(spec_lex_at(src, 6) =~= seq![
        TokenView::KwTo,
        TokenView::IntLit(d),
        TokenView::KwThen,
        TokenView::KwShow,
        TokenView::Ident("x"@),
    ]);
    assert(spec_lex_at(src, 5) == spec_lex_at(src, 6));
    // `x`
    lexer::lemma_word_end_run(src, 4, 5);
    assert(src.subrange(4, 5) =~= "x"@);
    assert(spec_lex_at(src, 4) =~= seq![
        TokenView::Ident("x"@),
        TokenView::KwTo,
        TokenView::IntLit(d),
        TokenView::KwThen,
        TokenView::KwShow,
        TokenView::Ident("x"@),
    ]);
    assert(spec_lex_at(src, 3) == spec_lex_at(src, 4));
    // `set`
    lexer::lemma_word_end_run(src, 0, 3);
    assert(src.subrange(0, 3) =~= "set"@);
    assert(spec_lex_at(src, 0) =~= seq![
        TokenView::KwSet,
        TokenView::Ident("x"@),
        TokenView::KwTo,
        TokenView::IntLit(d),
        TokenView::KwThen,
        TokenView::KwShow,
        TokenView::Ident("x"@),
    ]);
}

/// For every valid integer literal `d`: lexing and parsing the source
/// text `set x to d then show x` succeeds, and running the parsed
/// statement on a fresh evaluator prints exactly the decimal text of
/// the literal's value.
pub proof fn lemma_source_round_trip(d: Seq<char>)
    requires
        d.len() >= 1,
        forall|i: int| 0 <= i < d.len() ==> is_digit(#[trigger] d[i]),
        digits_val(d) <= i64::MAX,
    ensures
        ({
            let src = "set x to "@ + d + " then show x"@;
            match crate::parser::spec_parse(src) {
                Ok(s) => {
                    let (st, res) = spec_exec(init_state(), s);
                    res is Ok && st.out =~= seq![dec_digits(digits_val(d))]
                },
                Err(_) => false,
            }
        }),
{
    let src = "set x to "@ + d + " then show x"@;
    lemma_lex_set_show_program(d);
    lemma_literal_round_trip(d);
    let toks = spec_lex(src);
    assert(toks =~= seq![
        TokenView::KwSet,
        TokenView::Ident("x"@),
        TokenView::KwTo,
        TokenView::IntLit(d),
        TokenView::KwThen,
        TokenView::KwShow,
        TokenView::Ident("x"@),
    ]);
}

} // verus!
