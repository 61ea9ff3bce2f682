use vstd::prelude::*;

verus! {

// The five literal tables of the language. Order within a table and the
// fixed order in which the scanner consults the tables encode match
// priority: multi-character symbols stand before their single-character
// prefixes, and that order is the tie-break authority.

pub open spec fn spec_core_vals() -> Seq<Seq<char>> {
    seq![
        seq!['i', 'n', 'p', 'u', 't'],
        seq!['p', 'r', 'i', 'n', 't'],
        seq!['h', 'e', 'l', 'p'],
    ]
}

pub open spec fn spec_ops() -> Seq<Seq<char>> {
    seq![
        seq!['+'],
        seq!['-'],
        seq!['*'],
        seq!['/'],
        seq!['>', '='],
        seq!['<', '='],
        seq!['>'],
        seq!['<'],
        seq!['=', '='],
        seq!['!', '='],
        seq!['='],
        seq!['a', 'd', 'd'],
        seq!['s', 'u', 'b'],
        seq!['m', 'u', 'l'],
        seq!['d', 'i', 'v'],
        seq![','],
    ]
}

pub open spec fn spec_lbrs() -> Seq<Seq<char>> {
    seq![seq!['(']]
}

pub open spec fn spec_rbrs() -> Seq<Seq<char>> {
    seq![seq![')']]
}

pub open spec fn spec_keywords() -> Seq<Seq<char>> {
    seq![
        seq!['c', 'a', 'n', 'd', 'l', 'e'],
        seq!['e', 'n', 'd'],
        seq!['i', 'f'],
        seq!['e', 'l', 's', 'e'],
        seq!['w', 'h', 'i', 'l', 'e'],
    ]
}

/// Every table entry is nonempty and contains no newline, so each table
/// match consumes at least one character and never swallows a statement
/// terminator.
pub open spec fn entry_wf(e: Seq<char>) -> bool {
    &&& 1 <= e.len()
    &&& forall|k: int| 0 <= k < e.len() ==> e[k] != '\n'
}

pub open spec fn table_wf(t: Seq<Seq<char>>) -> bool {
    forall|j: int| 0 <= j < t.len() ==> entry_wf(#[trigger] t[j])
}

pub proof fn lemma_tables_wf()
    ensures
        table_wf(spec_core_vals()),
        table_wf(spec_ops()),
        table_wf(spec_lbrs()),
        table_wf(spec_rbrs()),
        table_wf(spec_keywords()),
{
}


// Executable builders for the text payloads, one per entry length.

fn entry1(a: char) -> (v: Vec<char>)
    ensures
        v@ == seq![a],
{
    let mut v: Vec<char> = Vec::new();
    v.push(a);
    proof {
        assert(v@ =~= seq![a]);
    }
    v
}

fn entry2(a: char, b: char) -> (v: Vec<char>)
    ensures
        v@ == seq![a, b],
{
    let mut v = entry1(a);
    v.push(b);
    proof {
        assert(v@ =~= seq![a, b]);
    }
    v
}

fn entry3(a: char, b: char, c: char) -> (v: Vec<char>)
    ensures
        v@ == seq![a, b, c],
{
    let mut v = entry2(a, b);
    v.push(c);
    proof {
        assert(v@ =~= seq![a, b, c]);
    }
    v
}

fn entry4(a: char, b: char, c: char, d: char) -> (v: Vec<char>)
    ensures
        v@ == seq![a, b, c, d],
{
    let mut v = entry3(a, b, c);
    v.push(d);
    proof {
        assert(v@ =~= seq![a, b, c, d]);
    }
    v
}

fn entry5(a: char, b: char, c: char, d: char, e: char) -> (v: Vec<char>)
    ensures
        v@ == seq![a, b, c, d, e],
{
    let mut v = entry4(a, b, c, d);
    v.push(e);
    proof {
        assert(v@ =~= seq![a, b, c, d, e]);
    }
    v
}

fn entry6(a: char, b: char, c: char, d: char, e: char, f: char) -> (v: Vec<char>)
    ensures
        v@ == seq![a, b, c, d, e, f],
{
    let mut v = entry5(a, b, c, d, e);
    v.push(f);
    proof {
        assert(v@ =~= seq![a, b, c, d, e, f]);
    }
    v
}

/// The built-in core identifiers, scanned into `Var` tokens.
pub fn core_vals_table() -> (t: Vec<Vec<char>>)
    ensures
        t.deep_view() == spec_core_vals(),
{
    let mut t: Vec<Vec<char>> = Vec::new();
    t.push(entry5('i', 'n', 'p', 'u', 't'));
    t.push(entry5('p', 'r', 'i', 'n', 't'));
    t.push(entry4('h', 'e', 'l', 'p'));
    proof {
        assert(t.deep_view() =~~= spec_core_vals());
    }
    t
}

/// The operator table; compound comparison operators stand before the
/// single-character operators they begin with.
pub fn ops_table() -> (t: Vec<Vec<char>>)
    ensures
        t.deep_view() == spec_ops(),
{
    let mut t: Vec<Vec<char>> = Vec::new();
    t.push(entry1('+'));
    t.push(entry1('-'));
    t.push(entry1('*'));
    t.push(entry1('/'));
    t.push(entry2('>', '='));
    t.push(entry2('<', '='));
    t.push(entry1('>'));
    t.push(entry1('<'));
    t.push(entry2('=', '='));
    t.push(entry2('!', '='));
    t.push(entry1('='));
    t.push(entry3('a', 'd', 'd'));
    t.push(entry3('s', 'u', 'b'));
    t.push(entry3('m', 'u', 'l'));
    t.push(entry3('d', 'i', 'v'));
    t.push(entry1(','));
    proof {
        assert(t.deep_view() =~~= spec_ops());
    }
    t
}

/// The left-bracket table.
pub fn lbrs_table() -> (t: Vec<Vec<char>>)
    ensures
        t.deep_view() == spec_lbrs(),
{
    let mut t: Vec<Vec<char>> = Vec::new();
    t.push(entry1('('));
    proof {
        assert(t.deep_view() =~~= spec_lbrs());
    }
    t
}

/// The right-bracket table.
pub fn rbrs_table() -> (t: Vec<Vec<char>>)
    ensures
        t.deep_view() == spec_rbrs(),
{
    let mut t: Vec<Vec<char>> = Vec::new();
    t.push(entry1(')'));
    proof {
        assert(t.deep_view() =~~= spec_rbrs());
    }
    t
}

/// The reserved words of the language.
pub fn keywords_table() -> (t: Vec<Vec<char>>)
    ensures
        t.deep_view() == spec_keywords(),
{
    let mut t: Vec<Vec<char>> = Vec::new();
    t.push(entry6('c', 'a', 'n', 'd', 'l', 'e'));
    t.push(entry3('e', 'n', 'd'));
    t.push(entry2('i', 'f'));
    t.push(entry4('e', 'l', 's', 'e'));
    t.push(entry5('w', 'h', 'i', 'l', 'e'));
    proof {
        assert(t.deep_view() =~~= spec_keywords());
    }
    t
}

} // verus!
