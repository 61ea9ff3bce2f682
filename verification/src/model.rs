use vstd::prelude::*;
use crate::chars::{spec_is_blank, spec_is_digit_or_dot, spec_is_ident_continue,
    spec_is_ident_start, spec_is_quote};
use crate::tables::{lemma_tables_wf, spec_core_vals, spec_keywords, spec_lbrs, spec_ops,
    spec_rbrs};
use crate::token::{LexError, Token};

verus! {

// The mathematical model of the scanner: what one scanning step consumes and
// produces, and what the whole tokenization of an input is. The executable
// scanner is verified against `spec_tokenize`.

/// How a table entry that matched a prefix of the input is guarded against
/// running into the middle of an identifier.
#[derive(Clone, Copy, PartialEq, Eq, Structural, Debug)]
pub enum Guard {
    /// No guard: the entry is pure punctuation.
    Bare,
    /// The match is rejected when the next character continues an identifier.
    Word,
    /// The guard of `Word`, applied only when the entry itself ends in an
    /// identifier character (so `add` is guarded but `+` is not).
    Op,
}

pub open spec fn is_prefix_of(e: Seq<char>, s: Seq<char>) -> bool {
    e.len() <= s.len() && s.subrange(0, e.len() as int) == e
}

/// Position `n` of `s` does not continue an identifier: either the input
/// ends there or the character there is no identifier character.
pub open spec fn at_boundary(s: Seq<char>, n: int) -> bool {
    n == s.len() || !spec_is_ident_continue(s[n])
}

/// Whether table entry `e` matches at the head of `s` under guard `g`.
pub open spec fn accepts(s: Seq<char>, e: Seq<char>, g: Guard) -> bool {
    is_prefix_of(e, s) && match g {
        Guard::Bare => true,
        Guard::Word => at_boundary(s, e.len() as int),
        Guard::Op => spec_is_ident_continue(e.last()) ==> at_boundary(s, e.len() as int),
    }
}

/// The first entry of `t`, in table order, that matches at the head of `s`.
pub open spec fn find_match(t: Seq<Seq<char>>, s: Seq<char>, g: Guard) -> Option<Seq<char>>
    decreases t.len(),
{
    if t.len() == 0 {
        None
    } else if accepts(s, t[0], g) {
        Some(t[0])
    } else {
        find_match(t.drop_first(), s, g)
    }
}

/// The first position at or after `i` where the maximal run of characters
/// satisfying `p` ends.
pub open spec fn run_end(s: Seq<char>, p: spec_fn(char) -> bool, i: int) -> int
    decreases s.len() - i,
{
    if i < 0 || i >= s.len() || !p(s[i]) {
        i
    } else {
        run_end(s, p, i + 1)
    }
}

/// The first position at or after `i` holding character `c`, if any.
pub open spec fn find_from(s: Seq<char>, c: char, i: int) -> Option<int>
    decreases s.len() - i,
{
    if i < 0 || i >= s.len() {
        None
    } else if s[i] == c {
        Some(i)
    } else {
        find_from(s, c, i + 1)
    }
}

/// The outcome of one scanning step on a nonempty remaining input.
pub enum Step {
    /// A blank character is consumed and nothing is emitted.
    Skip,
    /// A token is emitted and the given number of characters is consumed.
    Emit(Token<Seq<char>>, int),
    /// Scanning aborts with a fatal error.
    Fail(LexError),
}

/// Where the maximal run of numeric-literal characters reaching position
/// `i` ends.
pub open spec fn digit_run_end(s: Seq<char>, i: int) -> int {
    run_end(s, |c: char| spec_is_digit_or_dot(c), i)
}

/// Where the maximal run of identifier characters reaching position `i`
/// ends.
pub open spec fn ident_run_end(s: Seq<char>, i: int) -> int {
    run_end(s, |c: char| spec_is_ident_continue(c), i)
}

/// One step of the fallback scanner: numeric literals, quoted strings and
/// generic identifiers, by maximal-run scanning from position 1 on.
pub open spec fn fallback_step(s: Seq<char>) -> Step
    recommends
        s.len() > 0,
{
    if spec_is_digit_or_dot(s[0]) {
        Step::Emit(Token::Num(s.take(digit_run_end(s, 1))), digit_run_end(s, 1))
    } else if spec_is_quote(s[0]) {
        match find_from(s, s[0], 1) {
            Some(i) => Step::Emit(Token::Str(s.take(i + 1)), i + 1),
            None => Step::Fail(LexError::UnterminatedString),
        }
    } else if spec_is_ident_start(s[0]) {
        Step::Emit(Token::Var(s.take(ident_run_end(s, 1))), ident_run_end(s, 1))
    } else {
        Step::Fail(LexError::UnexpectedCharacter)
    }
}

/// One step of the scanner on a nonempty remaining input, in the fixed
/// priority order: blanks, newline, the five literal tables, fallback.
pub open spec fn spec_step(s: Seq<char>) -> Step
    recommends
        s.len() > 0,
{
    if spec_is_blank(s[0]) {
        Step::Skip
    } else if s[0] == '\n' {
        Step::Emit(Token::InstrEnd, 1)
    } else {
        match find_match(spec_core_vals(), s, Guard::Word) {
            Some(e) => Step::Emit(Token::Var(e), e.len() as int),
            None => match find_match(spec_ops(), s, Guard::Op) {
                Some(e) => Step::Emit(Token::Op(e), e.len() as int),
                None => match find_match(spec_lbrs(), s, Guard::Bare) {
                    Some(e) => Step::Emit(Token::LBr(e), e.len() as int),
                    None => match find_match(spec_rbrs(), s, Guard::Bare) {
                        Some(e) => Step::Emit(Token::RBr(e), e.len() as int),
                        None => match find_match(spec_keywords(), s, Guard::Word) {
                            Some(e) => Step::Emit(Token::Keyword(e), e.len() as int),
                            None => fallback_step(s),
                        },
                    },
                },
            },
        }
    }
}

/// The tokenization of a whole input: the ordered token sequence, or the
/// first fatal error. No partial sequence accompanies an error.
pub open spec fn spec_tokenize(s: Seq<char>) -> Result<Seq<Token<Seq<char>>>, LexError>
    decreases s.len(),
    via spec_tokenize_decreases
{
    if s.len() == 0 {
        Ok(Seq::empty())
    } else {
        match spec_step(s) {
            Step::Skip => spec_tokenize(s.skip(1)),
            Step::Emit(t, n) => match spec_tokenize(s.skip(n)) {
                Ok(ts) => Ok(seq![t] + ts),
                Err(e) => Err(e),
            },
            Step::Fail(e) => Err(e),
        }
    }
}

#[via_fn]
proof fn spec_tokenize_decreases(s: Seq<char>) {
    if s.len() > 0 {
        lemma_step_bounds(s);
    }
}

// ---------------------------------------------------------------------------
// Facts about the model.

pub proof fn lemma_run_end_bounds(s: Seq<char>, p: spec_fn(char) -> bool, i: int)
    requires
        0 <= i <= s.len(),
    ensures
        i <= run_end(s, p, i) <= s.len(),
        forall|k: int| i <= k < run_end(s, p, i) ==> p(s[k]),
        run_end(s, p, i) < s.len() ==> !p(s[run_end(s, p, i)]),
    decreases s.len() - i,
{
    if i < s.len() && p(s[i]) {
        lemma_run_end_bounds(s, p, i + 1);
    }
}

pub proof fn lemma_find_from_bounds(s: Seq<char>, c: char, i: int)
    requires
        0 <= i,
    ensures
        match find_from(s, c, i) {
            Some(j) => i <= j < s.len() && s[j] == c && forall|k: int| i <= k < j ==> s[k] != c,
            None => forall|k: int| i <= k < s.len() ==> s[k] != c,
        },
    decreases s.len() - i,
{
    if i < s.len() && s[i] != c {
        lemma_find_from_bounds(s, c, i + 1);
    }
}

/// A successful table lookup hands back an entry of the table, and that
/// entry matches under the table's guard.
pub proof fn lemma_find_match_entry(t: Seq<Seq<char>>, s: Seq<char>, g: Guard)
    ensures
        match find_match(t, s, g) {
            Some(e) => (exists|j: int| 0 <= j < t.len() && t[j] == e) && accepts(s, e, g),
            None => true,
        },
    decreases t.len(),
{
    if t.len() > 0 && !accepts(s, t[0], g) {
        lemma_find_match_entry(t.drop_first(), s, g);
        if find_match(t.drop_first(), s, g) is Some {
            let e = find_match(t.drop_first(), s, g)->Some_0;
            let j = choose|j: int| 0 <= j < t.drop_first().len() && t.drop_first()[j] == e;
            assert(t[j + 1] == e);
        }
    }
}

/// Entries already rejected do not change the lookup's outcome.
pub proof fn lemma_find_match_skip(t: Seq<Seq<char>>, s: Seq<char>, g: Guard, j: int)
    requires
        0 <= j <= t.len(),
        forall|k: int| 0 <= k < j ==> !accepts(s, #[trigger] t[k], g),
    ensures
        find_match(t, s, g) == find_match(t.skip(j), s, g),
    decreases j,
{
    if j > 0 {
        assert(!accepts(s, t[0], g));
        assert(forall|k: int| 0 <= k < j - 1 ==> t.drop_first()[k] == t[k + 1]);
        lemma_find_match_skip(t.drop_first(), s, g, j - 1);
        assert(t.drop_first().skip(j - 1) =~= t.skip(j));
    } else {
        assert(t.skip(0) =~= t);
    }
}

/// The lookup finds exactly the first matching entry.
pub proof fn lemma_find_match_at(t: Seq<Seq<char>>, s: Seq<char>, g: Guard, j: int)
    requires
        0 <= j < t.len(),
        forall|k: int| 0 <= k < j ==> !accepts(s, #[trigger] t[k], g),
        accepts(s, t[j], g),
    ensures
        find_match(t, s, g) == Some(t[j]),
{
    lemma_find_match_skip(t, s, g, j);
    assert(t.skip(j)[0] == t[j]);
}

/// When no entry matches, the lookup fails.
pub proof fn lemma_find_match_none(t: Seq<Seq<char>>, s: Seq<char>, g: Guard)
    requires
        forall|k: int| 0 <= k < t.len() ==> !accepts(s, #[trigger] t[k], g),
    ensures
        find_match(t, s, g) == None::<Seq<char>>,
{
    lemma_find_match_skip(t, s, g, t.len() as int);
    assert(t.skip(t.len() as int) =~= Seq::<Seq<char>>::empty());
}

/// Every emitting step consumes between one character and the whole
/// remaining input, so scanning advances and never overruns.
pub proof fn lemma_step_bounds(s: Seq<char>)
    requires
        s.len() > 0,
    ensures
        match spec_step(s) {
            Step::Emit(t, n) => 1 <= n <= s.len(),
            _ => true,
        },
{
    lemma_tables_wf();
    lemma_find_match_entry(spec_core_vals(), s, Guard::Word);
    lemma_find_match_entry(spec_ops(), s, Guard::Op);
    lemma_find_match_entry(spec_lbrs(), s, Guard::Bare);
    lemma_find_match_entry(spec_rbrs(), s, Guard::Bare);
    lemma_find_match_entry(spec_keywords(), s, Guard::Word);
    lemma_run_end_bounds(s, |c: char| spec_is_digit_or_dot(c), 1);
    lemma_run_end_bounds(s, |c: char| spec_is_ident_continue(c), 1);
    lemma_find_from_bounds(s, s[0], 1);
}

} // verus!
