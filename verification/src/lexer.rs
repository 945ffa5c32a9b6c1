//! The tokenizer: turns one source line into a sequence of tokens,
//! left-to-right with longest match, skipping whitespace and silently
//! dropping anything that matches no rule (an accepted lossy behaviour
//! of the line-oriented design).

use vstd::prelude::*;

use crate::numerals::is_digit;

verus! {

/// A lexical token. Keyword spellings are reserved words and never match
/// as identifiers. `IntLit` and `StrLit` keep the raw matched text; a
/// string literal keeps its surrounding quotes (the parser strips them).
#[derive(Debug, PartialEq, Eq)]
pub enum Token {
    KwSet,
    KwAdd,
    KwSubtract,
    KwMultiply,
    KwShow,
    KwPrint,
    KwIf,
    KwThen,
    KwIs,
    KwGreater,
    KwLess,
    KwEqual,
    KwTo,
    KwBy,
    KwOn,
    KwScreen,
    KwFrom,
    KwThan,
    KwThe,
    KwCount,
    KwDisplay,
    KwResult,
    KwAnd,
    KwWhen,
    KwYou,
    KwAre,
    KwDone,
    Ident(String),
    IntLit(String),
    StrLit(String),
    Period,
}

/// Mathematical model of a [`Token`].
pub enum TokenView {
    KwSet,
    KwAdd,
    KwSubtract,
    KwMultiply,
    KwShow,
    KwPrint,
    KwIf,
    KwThen,
    KwIs,
    KwGreater,
    KwLess,
    KwEqual,
    KwTo,
    KwBy,
    KwOn,
    KwScreen,
    KwFrom,
    KwThan,
    KwThe,
    KwCount,
    KwDisplay,
    KwResult,
    KwAnd,
    KwWhen,
    KwYou,
    KwAre,
    KwDone,
    Ident(Seq<char>),
    IntLit(Seq<char>),
    StrLit(Seq<char>),
    Period,
}

impl DeepView for Token {
    type V = TokenView;

    open spec fn deep_view(&self) -> TokenView {
        match self {
            Token::KwSet => TokenView::KwSet,
            Token::KwAdd => TokenView::KwAdd,
            Token::KwSubtract => TokenView::KwSubtract,
            Token::KwMultiply => TokenView::KwMultiply,
            Token::KwShow => TokenView::KwShow,
            Token::KwPrint => TokenView::KwPrint,
            Token::KwIf => TokenView::KwIf,
            Token::KwThen => TokenView::KwThen,
            Token::KwIs => TokenView::KwIs,
            Token::KwGreater => TokenView::KwGreater,
            Token::KwLess => TokenView::KwLess,
            Token::KwEqual => TokenView::KwEqual,
            Token::KwTo => TokenView::KwTo,
            Token::KwBy => TokenView::KwBy,
            Token::KwOn => TokenView::KwOn,
            Token::KwScreen => TokenView::KwScreen,
            Token::KwFrom => TokenView::KwFrom,
            Token::KwThan => TokenView::KwThan,
            Token::KwThe => TokenView::KwThe,
            Token::KwCount => TokenView::KwCount,
            Token::KwDisplay => TokenView::KwDisplay,
            Token::KwResult => TokenView::KwResult,
            Token::KwAnd => TokenView::KwAnd,
            Token::KwWhen => TokenView::KwWhen,
            Token::KwYou => TokenView::KwYou,
            Token::KwAre => TokenView::KwAre,
            Token::KwDone => TokenView::KwDone,
            Token::Ident(s) => TokenView::Ident(s@),
            Token::IntLit(s) => TokenView::IntLit(s@),
            Token::StrLit(s) => TokenView::StrLit(s@),
            Token::Period => TokenView::Period,
        }
    }
}

/// Whitespace skipped between tokens: space, tab, newline, form feed.
pub open spec fn is_space(c: char) -> bool {
    c == ' ' || c == '\t' || c == '\n' || c == '\u{000C}'
}

/// Whether `c` can start an identifier or keyword.
pub open spec fn is_word_start(c: char) -> bool {
    ('a' <= c && c <= 'z') || ('A' <= c && c <= 'Z') || c == '_'
}

/// Whether `c` can continue an identifier or keyword.
pub open spec fn is_word_char(c: char) -> bool {
    is_word_start(c) || is_digit(c)
}

/// The first position at or after `pos` where the word run ends.
pub open spec fn word_end(s: Seq<char>, pos: nat) -> nat
    decreases s.len() - pos when pos <= s.len()
{
    if pos < s.len() && is_word_char(s[pos as int]) {
        word_end(s, pos + 1)
    } else {
        pos
    }
}

/// The first position at or after `pos` where the digit run ends.
pub open spec fn digit_end(s: Seq<char>, pos: nat) -> nat
    decreases s.len() - pos when pos <= s.len()
{
    if pos < s.len() && is_digit(s[pos as int]) {
        digit_end(s, pos + 1)
    } else {
        pos
    }
}

/// The position of the first `'"'` at or after `pos`, if any.
pub open spec fn quote_pos(s: Seq<char>, pos: nat) -> Option<nat>
    decreases s.len() - pos when pos <= s.len()
{
    if pos >= s.len() {
        None
    } else if s[pos as int] == '"' {
        Some(pos)
    } else {
        quote_pos(s, pos + 1)
    }
}

/// The token of a word: a keyword where the spelling is reserved, an
/// identifier otherwise.
pub open spec fn word_token(w: Seq<char>) -> TokenView {
    if w == "set"@ {
        TokenView::KwSet
    } else if w == "add"@ {
        TokenView::KwAdd
    } else if w == "subtract"@ {
        TokenView::KwSubtract
    } else if w == "multiply"@ {
        TokenView::KwMultiply
    } else if w == "show"@ {
        TokenView::KwShow
    } else if w == "print"@ {
        TokenView::KwPrint
    } else if w == "if"@ {
        TokenView::KwIf
    } else if w == "then"@ {
        TokenView::KwThen
    } else if w == "is"@ {
        TokenView::KwIs
    } else if w == "greater"@ {
        TokenView::KwGreater
    } else if w == "less"@ {
        TokenView::KwLess
    } else if w == "equal"@ {
        TokenView::KwEqual
    } else if w == "to"@ {
        TokenView::KwTo
    } else if w == "by"@ {
        TokenView::KwBy
    } else if w == "on"@ {
        TokenView::KwOn
    } else if w == "screen"@ {
        TokenView::KwScreen
    } else if w == "from"@ {
        TokenView::KwFrom
    } else if w == "than"@ {
        TokenView::KwThan
    } else if w == "the"@ {
        TokenView::KwThe
    } else if w == "count"@ {
        TokenView::KwCount
    } else if w == "display"@ {
        TokenView::KwDisplay
    } else if w == "result"@ {
        TokenView::KwResult
    } else if w == "and"@ {
        TokenView::KwAnd
    } else if w == "when"@ {
        TokenView::KwWhen
    } else if w == "you"@ {
        TokenView::KwYou
    } else if w == "are"@ {
        TokenView::KwAre
    } else if w == "done"@ {
        TokenView::KwDone
    } else {
        TokenView::Ident(w)
    }
}

/// `e` if it lies beyond `pos` and within the string, else `pos + 1`:
/// the next scan position, kept strictly increasing and in bounds so
/// that the lexing recursion terminates.
pub open spec fn ahead(e: nat, pos: nat, n: nat) -> nat {
    if pos < e <= n {
        e
    } else {
        pos + 1
    }
}

/// The tokens of `s` from position `pos` on: skip whitespace, take the
/// longest word, digit or quoted run as one token, and drop any
/// character that starts no rule.
pub open spec fn spec_lex_at(s: Seq<char>, pos: nat) -> Seq<TokenView>
    decreases s.len() - pos when pos <= s.len()
{
    if pos >= s.len() {
        Seq::empty()
    } else {
        let c = s[pos as int];
        if is_space(c) {
            spec_lex_at(s, pos + 1)
        } else if is_word_start(c) {
            let end = ahead(word_end(s, pos), pos, s.len());
            seq![word_token(s.subrange(pos as int, end as int))] + spec_lex_at(s, end)
        } else if is_digit(c) {
            let end = ahead(digit_end(s, pos), pos, s.len());
            seq![TokenView::IntLit(s.subrange(pos as int, end as int))] + spec_lex_at(s, end)
        } else if c == '"' {
            match quote_pos(s, pos + 1) {
                Some(q) => {
                    let end = ahead(q + 1, pos, s.len());
                    seq![TokenView::StrLit(s.subrange(pos as int, end as int))] + spec_lex_at(
                        s,
                        end,
                    )
                },
                None => spec_lex_at(s, pos + 1),
            }
        } else if c == '.' {
            seq![TokenView::Period] + spec_lex_at(s, pos + 1)
        } else {
            spec_lex_at(s, pos + 1)
        }
    }
}

/// The token sequence of a whole line.
pub open spec fn spec_lex(s: Seq<char>) -> Seq<TokenView> {
    spec_lex_at(s, 0)
}

/// `word_end` stays within the string, never moves backwards, and moves
/// strictly forward over a word character.
pub proof fn lemma_word_end(s: Seq<char>, pos: nat)
    requires
        pos <= s.len(),
    ensures
        pos <= word_end(s, pos) <= s.len(),
        pos < s.len() && is_word_char(s[pos as int]) ==> word_end(s, pos) > pos,
    decreases s.len() - pos,
{
    if pos < s.len() && is_word_char(s[pos as int]) {
        lemma_word_end(s, pos + 1);
    }
}

/// `digit_end` stays within the string, never moves backwards, and moves
/// strictly forward over a digit.
pub proof fn lemma_digit_end(s: Seq<char>, pos: nat)
    requires
        pos <= s.len(),
    ensures
        pos <= digit_end(s, pos) <= s.len(),
        pos < s.len() && is_digit(s[pos as int]) ==> digit_end(s, pos) > pos,
        forall|k: int| pos <= k < digit_end(s, pos) ==> is_digit(s[k]),
    decreases s.len() - pos,
{
    if pos < s.len() && is_digit(s[pos as int]) {
        lemma_digit_end(s, pos + 1);
    }
}

/// A run of word characters bounded by a non-word character (or the end
/// of the string) is exactly what `word_end` scans.
pub proof fn lemma_word_end_run(s: Seq<char>, pos: nat, end: nat)
    requires
        pos <= end <= s.len(),
        forall|k: int| pos <= k < end ==> is_word_char(#[trigger] s[k]),
        end == s.len() || !is_word_char(s[end as int]),
    ensures
        word_end(s, pos) == end,
    decreases end - pos,
{
    if pos < end {
        lemma_word_end_run(s, pos + 1, end);
    }
}

/// A run of digits bounded by a non-digit (or the end of the string) is
/// exactly what `digit_end` scans.
pub proof fn lemma_digit_end_run(s: Seq<char>, pos: nat, end: nat)
    requires
        pos <= end <= s.len(),
        forall|k: int| pos <= k < end ==> is_digit(#[trigger] s[k]),
        end == s.len() || !is_digit(s[end as int]),
    ensures
        digit_end(s, pos) == end,
    decreases end - pos,
{
    if pos < end {
        lemma_digit_end_run(s, pos + 1, end);
    }
}

/// A found quote lies within the string, at or after the start of the
/// search.
pub proof fn lemma_quote_pos(s: Seq<char>, pos: nat)
    requires
        pos <= s.len(),
    ensures
        match quote_pos(s, pos) {
            Some(q) => pos <= q < s.len() && s[q as int] == '"',
            None => true,
        },
    decreases s.len() - pos,
{
    if pos < s.len() && s[pos as int] != '"' {
        lemma_quote_pos(s, pos + 1);
    }
}

/// Whether `c` is whitespace.
fn space_char(c: char) -> (b: bool)
    ensures
        b == is_space(c),
{
    c == ' ' || c == '\t' || c == '\n' || c == '\u{000C}'
}

/// Whether `c` can start a word.
fn word_start_char(c: char) -> (b: bool)
    ensures
        b == is_word_start(c),
{
    ('a' <= c && c <= 'z') || ('A' <= c && c <= 'Z') || c == '_'
}

/// Whether `c` is a decimal digit.
fn decimal_char(c: char) -> (b: bool)
    ensures
        b == is_digit(c),
{
    '0' <= c && c <= '9'
}

/// Whether `c` can continue a word.
fn word_char(c: char) -> (b: bool)
    ensures
        b == is_word_char(c),
{
    word_start_char(c) || decimal_char(c)
}

/// Scans to the end of the word run that starts at `from`.
fn scan_word_end(s: &str, from: usize) -> (end: usize)
    requires
        from as nat <= s@.len(),
    ensures
        end as nat == word_end(s@, from as nat),
        from <= end,
        end as nat <= s@.len(),
{
    let n = s.unicode_len();
    let mut i = from;
    loop
        invariant
            from <= i <= n,
            n == s@.len(),
            word_end(s@, from as nat) == word_end(s@, i as nat),
        ensures
            from <= i <= n,
            word_end(s@, from as nat) == i as nat,
        decreases n - i,
    {
        if i >= n {
            proof {
                assert(word_end(s@, i as nat) == i as nat);
            }
            break ;
        }
        let c = s.get_char(i);
        if !word_char(c) {
            proof {
                assert(word_end(s@, i as nat) == i as nat);
            }
            break ;
        }
        i = i + 1;
    }
    i
}

/// Scans to the end of the digit run that starts at `from`.
fn scan_digit_end(s: &str, from: usize) -> (end: usize)
    requires
        from as nat <= s@.len(),
    ensures
        end as nat == digit_end(s@, from as nat),
        from <= end,
        end as nat <= s@.len(),
{
    let n = s.unicode_len();
    let mut i = from;
    loop
        invariant
            from <= i <= n,
            n == s@.len(),
            digit_end(s@, from as nat) == digit_end(s@, i as nat),
        ensures
            from <= i <= n,
            digit_end(s@, from as nat) == i as nat,
        decreases n - i,
    {
        if i >= n {
            proof {
                assert(digit_end(s@, i as nat) == i as nat);
            }
            break ;
        }
        let c = s.get_char(i);
        if !decimal_char(c) {
            proof {
                assert(digit_end(s@, i as nat) == i as nat);
            }
            break ;
        }
        i = i + 1;
    }
    i
}

/// Finds the first `'"'` at or after `from`.
fn scan_quote(s: &str, from: usize) -> (r: Option<usize>)
    requires
        from as nat <= s@.len(),
    ensures
        match r {
            Some(q) => quote_pos(s@, from as nat) == Some(q as nat) && from <= q && (q as nat)
                < s@.len(),
            None => quote_pos(s@, from as nat) is None,
        },
{
    let n = s.unicode_len();
    let mut i = from;
    loop
        invariant
            from <= i <= n,
            n == s@.len(),
            quote_pos(s@, from as nat) == quote_pos(s@, i as nat),
        decreases n - i,
    {
        if i >= n {
            return None;
        }
        let c = s.get_char(i);
        if c == '"' {
            return Some(i);
        }
        i = i + 1;
    }
}

/// What the lexer guarantees of a single token it produced: an integer
/// literal is a nonempty run of digits, and a string literal keeps its
/// two surrounding quotes.
pub open spec fn wf_token(t: TokenView) -> bool {
    match t {
        TokenView::IntLit(s) => s.len() >= 1 && forall|i: int|
            0 <= i < s.len() ==> is_digit(#[trigger] s[i]),
        TokenView::StrLit(s) => s.len() >= 2,
        _ => true,
    }
}

/// Every token of the sequence is well formed.
pub open spec fn wf_tokens(toks: Seq<TokenView>) -> bool {
    forall|i: int| 0 <= i < toks.len() ==> wf_token(#[trigger] toks[i])
}

/// A well-formed token in front of a well-formed sequence.
proof fn lemma_wf_cons(t: TokenView, rest: Seq<TokenView>)
    requires
        wf_token(t),
        wf_tokens(rest),
    ensures
        wf_tokens(seq![t] + rest),
{
    assert forall|i: int| 0 <= i < (seq![t] + rest).len() implies wf_token(
        #[trigger] (seq![t] + rest)[i],
    ) by {
        if i > 0 {
            assert((seq![t] + rest)[i] == rest[i - 1]);
        }
    }
}

/// Everything the lexer produces is well formed.
pub proof fn lemma_spec_lex_wf(s: Seq<char>, pos: nat)
    requires
        pos <= s.len(),
    ensures
        wf_tokens(spec_lex_at(s, pos)),
    decreases s.len() - pos,
{
    if pos < s.len() {
        let c = s[pos as int];
        if is_space(c) {
            lemma_spec_lex_wf(s, pos + 1);
        } else if is_word_start(c) {
            lemma_word_end(s, pos);
            let end = ahead(word_end(s, pos), pos, s.len());
            lemma_spec_lex_wf(s, end);
            lemma_wf_cons(
                word_token(s.subrange(pos as int, end as int)),
                spec_lex_at(s, end),
            );
        } else if is_digit(c) {
            lemma_digit_end(s, pos);
            let end = ahead(digit_end(s, pos), pos, s.len());
            let text = s.subrange(pos as int, end as int);
            assert(end == digit_end(s, pos));
            assert(forall|i: int| 0 <= i < text.len() ==> is_digit(#[trigger] text[i]));
            lemma_spec_lex_wf(s, end);
            lemma_wf_cons(TokenView::IntLit(text), spec_lex_at(s, end));
        } else if c == '"' {
            match quote_pos(s, pos + 1) {
                Some(q) => {
                    lemma_quote_pos(s, pos + 1);
                    let end = ahead(q + 1, pos, s.len());
                    lemma_spec_lex_wf(s, end);
                    lemma_wf_cons(
                        TokenView::StrLit(s.subrange(pos as int, end as int)),
                        spec_lex_at(s, end),
                    );
                },
                None => {
                    lemma_spec_lex_wf(s, pos + 1);
                },
            }
        } else if c == '.' {
            lemma_spec_lex_wf(s, pos + 1);
            lemma_wf_cons(TokenView::Period, spec_lex_at(s, pos + 1));
        } else {
            lemma_spec_lex_wf(s, pos + 1);
        }
    }
}

/// Compares a word against one keyword spelling.
pub(crate) fn word_is(w: &String, lit: &str) -> (b: bool)
    ensures
        b == (w@ == lit@),
{
    *w == String::from_str(lit)
}

/// The token of a word: a keyword where the spelling is reserved, an
/// identifier otherwise.
fn word_to_token(w: String) -> (t: Token)
    ensures
        t.deep_view() == word_token(w@),
{
    if word_is(&w, "set") {
        Token::KwSet
    } else if word_is(&w, "add") {
        Token::KwAdd
    } else if word_is(&w, "subtract") {
        Token::KwSubtract
    } else if word_is(&w, "multiply") {
        Token::KwMultiply
    } else if word_is(&w, "show") {
        Token::KwShow
    } else if word_is(&w, "print") {
        Token::KwPrint
    } else if word_is(&w, "if") {
        Token::KwIf
    } else if word_is(&w, "then") {
        Token::KwThen
    } else if word_is(&w, "is") {
        Token::KwIs
    } else if word_is(&w, "greater") {
        Token::KwGreater
    } else if word_is(&w, "less") {
        Token::KwLess
    } else if word_is(&w, "equal") {
        Token::KwEqual
    } else if word_is(&w, "to") {
        Token::KwTo
    } else if word_is(&w, "by") {
        Token::KwBy
    } else if word_is(&w, "on") {
        Token::KwOn
    } else if word_is(&w, "screen") {
        Token::KwScreen
    } else if word_is(&w, "from") {
        Token::KwFrom
    } else if word_is(&w, "than") {
        Token::KwThan
    } else if word_is(&w, "the") {
        Token::KwThe
    } else if word_is(&w, "count") {
        Token::KwCount
    } else if word_is(&w, "display") {
        Token::KwDisplay
    } else if word_is(&w, "result") {
        Token::KwResult
    } else if word_is(&w, "and") {
        Token::KwAnd
    } else if word_is(&w, "when") {
        Token::KwWhen
    } else if word_is(&w, "you") {
        Token::KwYou
    } else if word_is(&w, "are") {
        Token::KwAre
    } else if word_is(&w, "done") {
        Token::KwDone
    } else {
        Token::Ident(w)
    }
}

/// Tokenizes one source line.
pub fn lex(input: &str) -> (r: Vec<Token>)
    ensures
        r.deep_view() == spec_lex(input@),
{
    let n = input.unicode_len();
    let mut tokens: Vec<Token> = Vec::new();
    let mut pos: usize = 0;
    while pos < n
        invariant
            0 <= pos <= n,
            n == input@.len(),
            spec_lex(input@) == tokens.deep_view() + spec_lex_at(input@, pos as nat),
        decreases n - pos,
    {
        let ghost prev = tokens.deep_view();
        let c = input.get_char(pos);
        if space_char(c) {
            pos = pos + 1;
        } else if word_start_char(c) {
            proof {
                lemma_word_end(input@, pos as nat);
            }
            let end = scan_word_end(input, pos);
            let word = String::from_str(input.substring_char(pos, end));
            let tok = word_to_token(word);
            tokens.push(tok);
            proof {
                assert(tokens.deep_view() =~= prev + seq![tok.deep_view()]);
                assert(ahead(word_end(input@, pos as nat), pos as nat, input@.len()) == end as nat);
            }
            pos = end;
        } else if decimal_char(c) {
            proof {
                lemma_digit_end(input@, pos as nat);
            }
            let end = scan_digit_end(input, pos);
            let text = String::from_str(input.substring_char(pos, end));
            let tok = Token::IntLit(text);
            tokens.push(tok);
            proof {
                assert(tokens.deep_view() =~= prev + seq![tok.deep_view()]);
                assert(ahead(digit_end(input@, pos as nat), pos as nat, input@.len()) == end as nat);
            }
            pos = end;
        } else if c == '"' {
            match scan_quote(input, pos + 1) {
                Some(q) => {
                    let text = String::from_str(input.substring_char(pos, q + 1));
                    let tok = Token::StrLit(text);
                    tokens.push(tok);
                    proof {
                        assert(tokens.deep_view() =~= prev + seq![tok.deep_view()]);
                        assert(ahead((q + 1) as nat, pos as nat, input@.len()) == (q + 1) as nat);
                    }
                    pos = q + 1;
                },
                None => {
                    pos = pos + 1;
                },
            }
        } else if c == '.' {
            let tok = Token::Period;
            tokens.push(tok);
            proof {
                assert(tokens.deep_view() =~= prev + seq![tok.deep_view()]);
            }
            pos = pos + 1;
        } else {
            pos = pos + 1;
        }
        proof {
            assert(spec_lex(input@) == tokens.deep_view() + spec_lex_at(input@, pos as nat));
        }
    }
    proof {
        assert(tokens.deep_view() + spec_lex_at(input@, pos as nat) =~= tokens.deep_view());
    }
    tokens
}

} // verus!
