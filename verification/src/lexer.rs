use vstd::prelude::*;
use vstd::slice::{slice_index_get, slice_subrange, slice_to_vec};
use crate::chars::{is_blank, is_digit_or_dot, is_ident_continue, is_ident_start, is_quote,
    spec_is_digit_or_dot, spec_is_ident_continue};
use crate::model::{accepts, digit_run_end, fallback_step, find_from, find_match, ident_run_end,
    is_prefix_of, lemma_find_match_at, lemma_find_match_entry, lemma_find_match_none,
    lemma_step_bounds, spec_step, spec_tokenize, Guard, Step};
use crate::tables::{core_vals_table, keywords_table, lbrs_table, lemma_tables_wf, ops_table,
    rbrs_table, spec_core_vals, spec_keywords, spec_lbrs, spec_ops, spec_rbrs, table_wf};
use crate::token::{tokens_view, LexError, Token};

verus! {

/// Whether `e` is an exact prefix of `s`.
fn is_prefix(s: &[char], e: &Vec<char>) -> (r: bool)
    ensures
        r == is_prefix_of(e@, s@),
{
    if e.len() > s.len() {
        return false;
    }
    let mut i: usize = 0;
    while i < e.len()
        invariant
            i <= e@.len() <= s@.len(),
            forall|k: int| 0 <= k < i ==> s@[k] == e@[k],
        decreases e@.len() - i,
    {
        if *slice_index_get(s, i) != e[i] {
            proof {
                assert(s@.subrange(0, e@.len() as int)[i as int] != e@[i as int]);
            }
            return false;
        }
        i = i + 1;
    }
    proof {
        assert(s@.subrange(0, e@.len() as int) =~= e@);
    }
    true
}

/// Whether table entry `e` matches at the head of `s` under guard `g`.
fn entry_accepts(s: &[char], e: &Vec<char>, g: Guard) -> (r: bool)
    requires
        e@.len() >= 1,
    ensures
        r == accepts(s@, e@, g),
{
    if !is_prefix(s, e) {
        return false;
    }
    match g {
        Guard::Bare => true,
        Guard::Word => {
            if e.len() == s.len() {
                true
            } else {
                !is_ident_continue(*slice_index_get(s, e.len()))
            }
        },
        Guard::Op => {
            if !is_ident_continue(e[e.len() - 1]) {
                true
            } else if e.len() == s.len() {
                true
            } else {
                !is_ident_continue(*slice_index_get(s, e.len()))
            }
        },
    }
}

/// Looks for the first entry of `t`, in table order, matching at the head
/// of `s` under guard `g`.
fn scan_table(s: &[char], t: &Vec<Vec<char>>, g: Guard) -> (r: Option<usize>)
    requires
        table_wf(t.deep_view()),
    ensures
        match r {
            Some(j) => j < t@.len() && find_match(t.deep_view(), s@, g) == Some(
                t.deep_view()[j as int],
            ),
            None => find_match(t.deep_view(), s@, g) == None::<Seq<char>>,
        },
{
    let ghost tv = t.deep_view();
    let mut j: usize = 0;
    while j < t.len()
        invariant
            j <= t@.len(),
            tv == t.deep_view(),
            table_wf(tv),
            forall|k: int| 0 <= k < j ==> !accepts(s@, #[trigger] tv[k], g),
        decreases t@.len() - j,
    {
        proof {
            assert(tv[j as int] =~= t@[j as int]@);
        }
        if entry_accepts(s, &t[j], g) {
            proof {
                lemma_find_match_at(tv, s@, g, j as int);
            }
            return Some(j);
        }
        j = j + 1;
    }
    proof {
        lemma_find_match_none(tv, s@, g);
    }
    None
}

/// Copies the first `n` characters of `s` into an owned text payload.
fn text_of(s: &[char], n: usize) -> (v: Vec<char>)
    requires
        n <= s@.len(),
    ensures
        v@ == s@.take(n as int),
{
    slice_to_vec(slice_subrange(s, 0, n))
}

/// `pre` already emitted, `r` still owed: the tokenization they add up to.
spec fn prepend_tokens(
    pre: Seq<Token<Seq<char>>>,
    r: Result<Seq<Token<Seq<char>>>, LexError>,
) -> Result<Seq<Token<Seq<char>>>, LexError> {
    match r {
        Ok(ts) => Ok(pre + ts),
        Err(e) => Err(e),
    }
}

proof fn lemma_tokens_view_push(ts: Seq<Token<Vec<char>>>, t: Token<Vec<char>>)
    ensures
        tokens_view(ts.push(t)) == tokens_view(ts).push(t@),
{
    assert(tokens_view(ts.push(t)) =~= tokens_view(ts).push(t@));
}

/// Emitting the token of the current step keeps the accumulated sequence on
/// course for the whole input's tokenization.
proof fn lemma_advance(
    pre: Seq<Token<Seq<char>>>,
    t: Token<Seq<char>>,
    scur: Seq<char>,
    n: int,
    s0: Seq<char>,
)
    requires
        prepend_tokens(pre, spec_tokenize(scur)) == spec_tokenize(s0),
        scur.len() > 0,
        spec_step(scur) == Step::Emit(t, n),
    ensures
        prepend_tokens(pre.push(t), spec_tokenize(scur.skip(n))) == spec_tokenize(s0),
{
    match spec_tokenize(scur.skip(n)) {
        Ok(ts) => {
            assert(pre + (seq![t] + ts) =~= pre.push(t) + ts);
        },
        Err(e) => {},
    }
}

impl Token<Vec<char>> {
    /// The fallback scanner. Dispatching on the class of the first character
    /// of `input_ref`, it recognizes a numeric literal, a quoted string
    /// literal (delimiting quotes included) or a generic identifier by
    /// maximal-run scanning, and hands back the unconsumed remainder beside
    /// the outcome. On an unexpected character nothing is consumed; on an
    /// unterminated string the whole input is consumed.
    pub fn starts_with<'a>(input_ref: &'a [char]) -> (r: (
        &'a [char],
        Result<Token<Vec<char>>, LexError>,
    ))
        requires
            input_ref@.len() > 0,
        ensures
            (match fallback_step(input_ref@) {
                Step::Emit(t, n) => {
                    &&& r.0@ == input_ref@.skip(n)
                    &&& r.1 matches Ok(tok) && tok@ == t
                },
                Step::Fail(e) => {
                    &&& r.1 == Err::<Token<Vec<char>>, LexError>(e)
                    &&& e is UnterminatedString ==> r.0@.len() == 0
                    &&& e is UnexpectedCharacter ==> r.0@ == input_ref@
                },
                Step::Skip => false,
            }),
    {
        let ghost s = input_ref@;
        let n = input_ref.len();
        let c0 = *slice_index_get(input_ref, 0);
        if is_digit_or_dot(c0) {
            let mut i: usize = 1;
            while i < n && is_digit_or_dot(*slice_index_get(input_ref, i))
                invariant
                    1 <= i <= s.len(),
                    n == s.len(),
                    input_ref@ == s,
                    digit_run_end(s, 1) == digit_run_end(s, i as int),
                decreases s.len() - i,
            {
                proof {
                    assert(digit_run_end(s, i as int) == digit_run_end(s, i as int + 1));
                }
                i = i + 1;
            }
            proof {
                assert(digit_run_end(s, i as int) == i as int);
            }
            let text = text_of(input_ref, i);
            let rest = slice_subrange(input_ref, i, n);
            (rest, Ok(Token::Num(text)))
        } else if is_quote(c0) {
            let mut i: usize = 1;
            while i < n && *slice_index_get(input_ref, i) != c0
                invariant
                    1 <= i <= s.len(),
                    n == s.len(),
                    input_ref@ == s,
                    c0 == s[0],
                    find_from(s, s[0], 1) == find_from(s, s[0], i as int),
                decreases s.len() - i,
            {
                i = i + 1;
            }
            if i < n {
                proof {
                    assert(find_from(s, s[0], i as int) == Some(i as int));
                }
                let text = text_of(input_ref, i + 1);
                let rest = slice_subrange(input_ref, i + 1, n);
                (rest, Ok(Token::Str(text)))
            } else {
                proof {
                    assert(find_from(s, s[0], i as int) == None::<int>);
                }
                (slice_subrange(input_ref, n, n), Err(LexError::UnterminatedString))
            }
        } else if is_ident_start(c0) {
            let mut i: usize = 1;
            while i < n && is_ident_continue(*slice_index_get(input_ref, i))
                invariant
                    1 <= i <= s.len(),
                    n == s.len(),
                    input_ref@ == s,
                    ident_run_end(s, 1) == ident_run_end(s, i as int),
                decreases s.len() - i,
            {
                proof {
                    assert(ident_run_end(s, i as int) == ident_run_end(s, i as int + 1));
                }
                i = i + 1;
            }
            proof {
                assert(ident_run_end(s, i as int) == i as int);
            }
            let text = text_of(input_ref, i);
            let rest = slice_subrange(input_ref, i, n);
            (rest, Ok(Token::Var(text)))
        } else {
            (input_ref, Err(LexError::UnexpectedCharacter))
        }
    }

    /// The scanner's driving loop. Consumes the whole input, trying at each
    /// position, in strict priority order, blank skipping, the newline, the
    /// five literal tables and the fallback scanner, and accumulates the
    /// recognized tokens. Returns the ordered token sequence of the whole
    /// input, or the first fatal error with no partial result.
    pub fn get_vec(input_ref: &[char]) -> (r: Result<Vec<Token<Vec<char>>>, LexError>)
        ensures
            (match r {
                Ok(v) => spec_tokenize(input_ref@) == Ok::<Seq<Token<Seq<char>>>, LexError>(
                    tokens_view(v@),
                ),
                Err(e) => spec_tokenize(input_ref@) == Err::<Seq<Token<Seq<char>>>, LexError>(e),
            }),
    {
        let core_vals = core_vals_table();
        let ops = ops_table();
        let lbrs = lbrs_table();
        let rbrs = rbrs_table();
        let keywords = keywords_table();
        proof {
            lemma_tables_wf();
        }
        let mut tokens_vec: Vec<Token<Vec<char>>> = Vec::new();
        let mut rest: &[char] = input_ref;
        let ghost s0 = input_ref@;
        while rest.len() > 0
            invariant
                core_vals.deep_view() == spec_core_vals(),
                ops.deep_view() == spec_ops(),
                lbrs.deep_view() == spec_lbrs(),
                rbrs.deep_view() == spec_rbrs(),
                keywords.deep_view() == spec_keywords(),
                table_wf(spec_core_vals()),
                table_wf(spec_ops()),
                table_wf(spec_lbrs()),
                table_wf(spec_rbrs()),
                table_wf(spec_keywords()),
                s0 == input_ref@,
                prepend_tokens(tokens_view(tokens_vec@), spec_tokenize(rest@)) == spec_tokenize(
                    s0,
                ),
            decreases rest@.len(),
        {
            let ghost scur = rest@;
            let ghost pre = tokens_view(tokens_vec@);
            let ghost ts_before = tokens_vec@;
            proof {
                lemma_step_bounds(scur);
            }
            let c = *slice_index_get(rest, 0);
            if is_blank(c) {
                rest = slice_subrange(rest, 1, rest.len());
                proof {
                    assert(spec_step(scur) == Step::Skip);
                }
            } else if c == '\n' {
                tokens_vec.push(Token::InstrEnd);
                rest = slice_subrange(rest, 1, rest.len());
                proof {
                    assert(spec_step(scur) == Step::Emit(Token::InstrEnd, 1));
                    lemma_tokens_view_push(ts_before, Token::InstrEnd);
                    lemma_advance(pre, Token::InstrEnd, scur, 1, s0);
                }
            } else if let Some(j) = scan_table(rest, &core_vals, Guard::Word) {
                proof {
                    assert(core_vals.deep_view()[j as int] =~= core_vals@[j as int]@);
                    lemma_find_match_entry(core_vals.deep_view(), scur, Guard::Word);
                }
                let e_len = core_vals[j].len();
                let text = text_of(rest, e_len);
                tokens_vec.push(Token::Var(text));
                rest = slice_subrange(rest, e_len, rest.len());
                proof {
                    let e = core_vals.deep_view()[j as int];
                    assert(spec_step(scur) == Step::Emit(Token::Var(e), e.len() as int));
                    assert(text@ == e);
                    lemma_tokens_view_push(ts_before, Token::Var(text));
                    lemma_advance(pre, Token::Var(e), scur, e.len() as int, s0);
                }
            } else if let Some(j) = scan_table(rest, &ops, Guard::Op) {
                proof {
                    assert(ops.deep_view()[j as int] =~= ops@[j as int]@);
                    lemma_find_match_entry(ops.deep_view(), scur, Guard::Op);
                }
                let e_len = ops[j].len();
                let text = text_of(rest, e_len);
                tokens_vec.push(Token::Op(text));
                rest = slice_subrange(rest, e_len, rest.len());
                proof {
                    let e = ops.deep_view()[j as int];
                    assert(spec_step(scur) == Step::Emit(Token::Op(e), e.len() as int));
                    assert(text@ == e);
                    lemma_tokens_view_push(ts_before, Token::Op(text));
                    lemma_advance(pre, Token::Op(e), scur, e.len() as int, s0);
                }
            } else if let Some(j) = scan_table(rest, &lbrs, Guard::Bare) {
                proof {
                    assert(lbrs.deep_view()[j as int] =~= lbrs@[j as int]@);
                    lemma_find_match_entry(lbrs.deep_view(), scur, Guard::Bare);
                }
                let e_len = lbrs[j].len();
                let text = text_of(rest, e_len);
                tokens_vec.push(Token::LBr(text));
                rest = slice_subrange(rest, e_len, rest.len());
                proof {
                    let e = lbrs.deep_view()[j as int];
                    assert(spec_step(scur) == Step::Emit(Token::LBr(e), e.len() as int));
                    assert(text@ == e);
                    lemma_tokens_view_push(ts_before, Token::LBr(text));
                    lemma_advance(pre, Token::LBr(e), scur, e.len() as int, s0);
                }
            } else if let Some(j) = scan_table(rest, &rbrs, Guard::Bare) {
                proof {
                    assert(rbrs.deep_view()[j as int] =~= rbrs@[j as int]@);
                    lemma_find_match_entry(rbrs.deep_view(), scur, Guard::Bare);
                }
                let e_len = rbrs[j].len();
                let text = text_of(rest, e_len);
                tokens_vec.push(Token::RBr(text));
                rest = slice_subrange(rest, e_len, rest.len());
                proof {
                    let e = rbrs.deep_view()[j as int];
                    assert(spec_step(scur) == Step::Emit(Token::RBr(e), e.len() as int));
                    assert(text@ == e);
                    lemma_tokens_view_push(ts_before, Token::RBr(text));
                    lemma_advance(pre, Token::RBr(e), scur, e.len() as int, s0);
                }
            } else if let Some(j) = scan_table(rest, &keywords, Guard::Word) {
                proof {
                    assert(keywords.deep_view()[j as int] =~= keywords@[j as int]@);
                    lemma_find_match_entry(keywords.deep_view(), scur, Guard::Word);
                }
                let e_len = keywords[j].len();
                let text = text_of(rest, e_len);
                tokens_vec.push(Token::Keyword(text));
                rest = slice_subrange(rest, e_len, rest.len());
                proof {
                    let e = keywords.deep_view()[j as int];
                    assert(spec_step(scur) == Step::Emit(Token::Keyword(e), e.len() as int));
                    assert(text@ == e);
                    lemma_tokens_view_push(ts_before, Token::Keyword(text));
                    lemma_advance(pre, Token::Keyword(e), scur, e.len() as int, s0);
                }
            } else {
                proof {
                    assert(spec_step(scur) == fallback_step(scur));
                }
                let (rest2, token_result) = Self::starts_with(rest);
                match token_result {
                    Ok(token) => {
                        proof {
                            assert(fallback_step(scur) matches Step::Emit(t, n) && token@ == t
                                && rest2@ == scur.skip(n));
                        }
                        let ghost t = spec_step(scur)->Emit_0;
                        let ghost nn = spec_step(scur)->Emit_1;
                        tokens_vec.push(token);
                        rest = rest2;
                        proof {
                            lemma_tokens_view_push(ts_before, token);
                            lemma_advance(pre, t, scur, nn, s0);
                        }
                    },
                    Err(why) => {
                        proof {
                            assert(spec_step(scur) == Step::Fail(why));
                            assert(spec_tokenize(scur) == Err::<Seq<Token<Seq<char>>>, LexError>(
                                why,
                            ));
                        }
                        return Err(why);
                    },
                }
            }
        }
        proof {
            assert(spec_tokenize(rest@) == Ok::<Seq<Token<Seq<char>>>, LexError>(Seq::empty()));
            assert(tokens_view(tokens_vec@) + Seq::<Token<Seq<char>>>::empty() =~= tokens_view(
                tokens_vec@,
            ));
        }
        Ok(tokens_vec)
    }
}

} // verus!
