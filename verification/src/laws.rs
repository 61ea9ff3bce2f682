use vstd::prelude::*;
use crate::chars::{spec_is_blank, spec_is_digit_or_dot, spec_is_ident_continue,
    spec_is_ident_start, spec_is_quote};
use crate::model::{accepts, at_boundary, fallback_step, find_from, find_match,
    lemma_find_match_at, lemma_find_match_entry, lemma_find_match_none, lemma_run_end_bounds,
    lemma_step_bounds, spec_step, spec_tokenize, Guard, Step};
use crate::tables::{entry_wf, lemma_tables_wf, spec_core_vals, spec_keywords, spec_lbrs,
    spec_ops, spec_rbrs, table_wf};
use crate::token::{LexError, Token};

verus! {

// The general properties of the tokenizer, stated and proved over the model
// that the executable scanner is verified against.

/// How many occurrences of `c` the input holds.
pub open spec fn count_char(s: Seq<char>, c: char) -> nat
    decreases s.len(),
{
    if s.len() == 0 {
        0
    } else {
        (if s[0] == c {
            1nat
        } else {
            0nat
        }) + count_char(s.drop_first(), c)
    }
}

/// How many statement terminators the token sequence holds.
pub open spec fn count_instr_end(ts: Seq<Token<Seq<char>>>) -> nat
    decreases ts.len(),
{
    if ts.len() == 0 {
        0
    } else {
        (if ts[0] is InstrEnd {
            1nat
        } else {
            0nat
        }) + count_instr_end(ts.drop_first())
    }
}

proof fn lemma_count_char_zero(s: Seq<char>, c: char)
    requires
        forall|k: int| 0 <= k < s.len() ==> s[k] != c,
    ensures
        count_char(s, c) == 0,
    decreases s.len(),
{
    if s.len() > 0 {
        assert(forall|k: int| 0 <= k < s.drop_first().len() ==> s.drop_first()[k] == s[k + 1]);
        lemma_count_char_zero(s.drop_first(), c);
    }
}

proof fn lemma_count_char_split(s: Seq<char>, c: char, n: int)
    requires
        0 <= n <= s.len(),
    ensures
        count_char(s, c) == count_char(s.take(n), c) + count_char(s.skip(n), c),
    decreases n,
{
    if n == 0 {
        assert(s.take(0) =~= Seq::<char>::empty());
        assert(s.skip(0) =~= s);
    } else {
        assert(s.take(n).drop_first() =~= s.drop_first().take(n - 1));
        assert(s.skip(n) =~= s.drop_first().skip(n - 1));
        lemma_count_char_split(s.drop_first(), c, n - 1);
        assert(s.take(n)[0] == s[0]);
        assert(count_char(s.take(n), c) == (if s[0] == c { 1nat } else { 0nat }) + count_char(
            s.drop_first().take(n - 1), c));
    }
}

/// Every entry of every literal table holds no newline.
proof fn lemma_entry_no_newline(t: Seq<Seq<char>>, e: Seq<char>)
    requires
        table_wf(t),
        exists|j: int| 0 <= j < t.len() && t[j] == e,
    ensures
        forall|k: int| 0 <= k < e.len() ==> e[k] != '\n',
{
    let j = choose|j: int| 0 <= j < t.len() && t[j] == e;
    assert(entry_wf(t[j]));
}

/// One `InstrEnd` per newline: a successful tokenization holds exactly as
/// many statement terminators as the input holds newline characters,
/// provided no string literal spans a newline.
pub proof fn lemma_instr_end_count(s: Seq<char>, ts: Seq<Token<Seq<char>>>)
    requires
        spec_tokenize(s) == Ok::<Seq<Token<Seq<char>>>, LexError>(ts),
        forall|i: int| 0 <= i < ts.len() ==> ((#[trigger] ts[i]) matches Token::Str(txt)
            ==> !txt.contains('\n')),
    ensures
        count_instr_end(ts) == count_char(s, '\n'),
    decreases s.len(),
{
    lemma_tables_wf();
    if s.len() == 0 {
        assert(ts =~= Seq::<Token<Seq<char>>>::empty());
    } else {
        lemma_step_bounds(s);
        match spec_step(s) {
            Step::Skip => {
                assert(s.skip(1) =~= s.drop_first());
                lemma_instr_end_count(s.skip(1), ts);
                assert(count_char(s, '\n') == count_char(s.drop_first(), '\n'));
            },
            Step::Emit(t, n) => {
                let ts2 = spec_tokenize(s.skip(n))->Ok_0;
                assert(ts == seq![t] + ts2);
                assert(ts[0] == t);
                assert(ts.drop_first() =~= ts2);
                assert(forall|i: int| 0 <= i < ts2.len() ==> ts2[i] == ts[i + 1]);
                lemma_instr_end_count(s.skip(n), ts2);
                lemma_count_char_split(s, '\n', n);
                let head = s.take(n);
                if t is InstrEnd {
                    assert(s[0] == '\n');
                    assert(n == 1);
                    assert(head.drop_first() =~= Seq::<char>::empty());
                    assert(count_char(head, '\n') == 1);
                } else {
                    assert(forall|k: int| 0 <= k < head.len() ==> head[k] != '\n') by {
                        lemma_emitted_text_no_newline(s, t, n);
                    }
                    lemma_count_char_zero(head, '\n');
                }
                assert(count_instr_end(ts) == (if t is InstrEnd { 1nat } else { 0nat })
                    + count_instr_end(ts2));
            },
            Step::Fail(e) => {
                assert(false);
            },
        }
    }
}

/// The characters consumed by an emitting step other than the newline step
/// contain no newline, unless the token is a string literal.
proof fn lemma_emitted_text_no_newline(s: Seq<char>, t: Token<Seq<char>>, n: int)
    requires
        s.len() > 0,
        spec_step(s) == Step::Emit(t, n),
        !(t is InstrEnd),
        t matches Token::Str(txt) ==> !txt.contains('\n'),
    ensures
        forall|k: int| 0 <= k < n ==> k < s.len() && s[k] != '\n',
{
    lemma_tables_wf();
    lemma_step_bounds(s);
    lemma_find_match_entry(spec_core_vals(), s, Guard::Word);
    lemma_find_match_entry(spec_ops(), s, Guard::Op);
    lemma_find_match_entry(spec_lbrs(), s, Guard::Bare);
    lemma_find_match_entry(spec_rbrs(), s, Guard::Bare);
    lemma_find_match_entry(spec_keywords(), s, Guard::Word);
    if find_match(spec_core_vals(), s, Guard::Word) is Some {
        lemma_table_prefix_no_newline(spec_core_vals(), s, Guard::Word);
    } else if find_match(spec_ops(), s, Guard::Op) is Some {
        lemma_table_prefix_no_newline(spec_ops(), s, Guard::Op);
    } else if find_match(spec_lbrs(), s, Guard::Bare) is Some {
        lemma_table_prefix_no_newline(spec_lbrs(), s, Guard::Bare);
    } else if find_match(spec_rbrs(), s, Guard::Bare) is Some {
        lemma_table_prefix_no_newline(spec_rbrs(), s, Guard::Bare);
    } else if find_match(spec_keywords(), s, Guard::Word) is Some {
        lemma_table_prefix_no_newline(spec_keywords(), s, Guard::Word);
    } else {
        // the fallback: a numeric run, a string literal or an identifier run
        if spec_is_digit_or_dot(s[0]) {
            lemma_run_end_bounds(s, |c: char| spec_is_digit_or_dot(c), 1);
        } else if spec_is_quote(s[0]) {
            let i = find_from(s, s[0], 1)->Some_0;
            let txt = s.take(i + 1);
            assert(forall|k: int| 0 <= k < n ==> txt[k] == s[k]);
            assert(forall|k: int| 0 <= k < n ==> s[k] != '\n') by {
                assert(forall|k: int| 0 <= k < txt.len() ==> txt[k] != '\n');
            }
        } else {
            lemma_run_end_bounds(s, |c: char| spec_is_ident_continue(c), 1);
        }
    }
}

/// The prefix consumed on a table match is the matched entry, so it holds
/// no newline.
proof fn lemma_table_prefix_no_newline(t: Seq<Seq<char>>, s: Seq<char>, g: Guard)
    requires
        table_wf(t),
        find_match(t, s, g) is Some,
    ensures
        forall|k: int| 0 <= k < find_match(t, s, g)->Some_0.len() ==> k < s.len() && s[k] != '\n',
{
    lemma_find_match_entry(t, s, g);
    let e = find_match(t, s, g)->Some_0;
    lemma_entry_no_newline(t, e);
    assert(forall|k: int| 0 <= k < e.len() ==> s.subrange(0, e.len() as int)[k] == s[k]);
}

proof fn lemma_reject_short(s: Seq<char>, e: Seq<char>, g: Guard)
    requires
        e.len() > s.len(),
    ensures
        !accepts(s, e, g),
{
}

proof fn lemma_reject_first(s: Seq<char>, e: Seq<char>, g: Guard)
    requires
        e.len() >= 1,
        s.len() == 0 || e[0] != s[0],
    ensures
        !accepts(s, e, g),
{
    if e.len() <= s.len() {
        assert(s.subrange(0, e.len() as int)[0] == s[0]);
    }
}

/// The boundary guard holds for every emitted word: an identifier, a
/// keyword or a word-operator is never cut off in front of a further
/// identifier character, so `ifx` can never scan as `if` followed by `x`.
pub proof fn lemma_word_boundary(s: Seq<char>)
    requires
        s.len() > 0,
    ensures
        match spec_step(s) {
            Step::Emit(t, n) => match t {
                Token::Var(e) => at_boundary(s, n),
                Token::Keyword(e) => at_boundary(s, n),
                Token::Op(e) => spec_is_ident_continue(e.last()) ==> at_boundary(s, n),
                _ => true,
            },
            _ => true,
        },
{
    lemma_find_match_entry(spec_core_vals(), s, Guard::Word);
    lemma_find_match_entry(spec_ops(), s, Guard::Op);
    lemma_find_match_entry(spec_keywords(), s, Guard::Word);
    lemma_run_end_bounds(s, |c: char| spec_is_ident_continue(c), 1);
}

/// A compound comparison operator scans as one token: wherever the input
/// goes on with `>=`, `<=`, `==` or `!=`, the step emits that two-character
/// operator, never its one-character prefix.
pub proof fn lemma_compound_op_atomic(s: Seq<char>)
    requires
        s.len() >= 2,
        s[0] == '>' || s[0] == '<' || s[0] == '=' || s[0] == '!',
        s[1] == '=',
    ensures
        spec_step(s) == Step::Emit(Token::Op(seq![s[0], '=']), 2),
{
    lemma_tables_wf();
    assert forall|k: int| 0 <= k < spec_core_vals().len() implies !accepts(
        s, #[trigger] spec_core_vals()[k], Guard::Word,
    ) by {
        lemma_reject_first(s, spec_core_vals()[k], Guard::Word);
    }
    lemma_find_match_none(spec_core_vals(), s, Guard::Word);
    let j: int = if s[0] == '>' {
        4
    } else if s[0] == '<' {
        5
    } else if s[0] == '=' {
        8
    } else {
        9
    };
    assert forall|k: int| 0 <= k < j implies !accepts(s, #[trigger] spec_ops()[k], Guard::Op) by {
        lemma_reject_first(s, spec_ops()[k], Guard::Op);
    }
    assert(spec_ops()[j] == seq![s[0], '=']) by {
        assert(seq![s[0], '='] =~= spec_ops()[j]);
    }
    assert(accepts(s, spec_ops()[j], Guard::Op)) by {
        assert(s.subrange(0, 2) =~= seq![s[0], '=']);
        assert(!spec_is_ident_continue('='));
    }
    lemma_find_match_at(spec_ops(), s, Guard::Op, j);
}

/// An input of one single character of no recognized class fails with
/// `UnexpectedCharacter` and produces no tokens.
pub proof fn lemma_unexpected_char(c: char)
    requires
        !spec_is_blank(c),
        c != '\n',
        !spec_is_digit_or_dot(c),
        !spec_is_quote(c),
        !spec_is_ident_start(c),
        c != '+',
        c != '-',
        c != '*',
        c != '/',
        c != '>',
        c != '<',
        c != '=',
        c != ',',
        c != '(',
        c != ')',
    ensures
        spec_tokenize(seq![c]) == Err::<Seq<Token<Seq<char>>>, LexError>(
            LexError::UnexpectedCharacter,
        ),
{
    let s = seq![c];
    lemma_tables_wf();
    assert(s[0] == c);
    assert forall|k: int| 0 <= k < spec_core_vals().len() implies !accepts(
        s, #[trigger] spec_core_vals()[k], Guard::Word,
    ) by {
        lemma_reject_short(s, spec_core_vals()[k], Guard::Word);
    }
    lemma_find_match_none(spec_core_vals(), s, Guard::Word);
    assert forall|k: int| 0 <= k < spec_ops().len() implies !accepts(
        s, #[trigger] spec_ops()[k], Guard::Op,
    ) by {
        let e = spec_ops()[k];
        if e.len() > 1 {
            lemma_reject_short(s, e, Guard::Op);
        } else {
            lemma_reject_first(s, e, Guard::Op);
        }
    }
    lemma_find_match_none(spec_ops(), s, Guard::Op);
    assert forall|k: int| 0 <= k < spec_lbrs().len() implies !accepts(
        s, #[trigger] spec_lbrs()[k], Guard::Bare,
    ) by {
        lemma_reject_first(s, spec_lbrs()[k], Guard::Bare);
    }
    lemma_find_match_none(spec_lbrs(), s, Guard::Bare);
    assert forall|k: int| 0 <= k < spec_rbrs().len() implies !accepts(
        s, #[trigger] spec_rbrs()[k], Guard::Bare,
    ) by {
        lemma_reject_first(s, spec_rbrs()[k], Guard::Bare);
    }
    lemma_find_match_none(spec_rbrs(), s, Guard::Bare);
    assert forall|k: int| 0 <= k < spec_keywords().len() implies !accepts(
        s, #[trigger] spec_keywords()[k], Guard::Word,
    ) by {
        lemma_reject_short(s, spec_keywords()[k], Guard::Word);
    }
    lemma_find_match_none(spec_keywords(), s, Guard::Word);
    assert(fallback_step(s) == Step::Fail(LexError::UnexpectedCharacter));
}

} // verus!
