use vstd::prelude::*;
use vstd::string::StringExecFns;

verus! {

/// One lexical unit. The payload is the exact matched source text, never
/// normalized; the executable scanner produces `Token<Vec<char>>`, while
/// contracts speak of its view `Token<Seq<char>>`.
#[derive(Debug)]
pub enum Token<T> {
    Num(T),
    Str(T),
    Var(T),
    /// An operator such as `+`, `>=` or the word-operator `add`.
    Op(T),
    /// A left bracket.
    LBr(T),
    /// A right bracket.
    RBr(T),
    /// A reserved word.
    Keyword(T),
    /// The statement terminator, one per newline character.
    InstrEnd,
}

/// The two fatal scanning failures. Neither leaves a partial token sequence
/// behind: the whole tokenization is rejected.
#[derive(Clone, Copy, PartialEq, Eq, Structural, Debug)]
pub enum LexError {
    /// An opening quote with no matching closing quote before input end.
    UnterminatedString,
    /// A character that starts no recognized token class.
    UnexpectedCharacter,
}

impl View for Token<Vec<char>> {
    type V = Token<Seq<char>>;

    open spec fn view(&self) -> Token<Seq<char>> {
        match self {
            Token::Num(t) => Token::Num(t@),
            Token::Str(t) => Token::Str(t@),
            Token::Var(t) => Token::Var(t@),
            Token::Op(t) => Token::Op(t@),
            Token::LBr(t) => Token::LBr(t@),
            Token::RBr(t) => Token::RBr(t@),
            Token::Keyword(t) => Token::Keyword(t@),
            Token::InstrEnd => Token::InstrEnd,
        }
    }
}

/// The view of a produced token vector: each token replaced by its view.
pub open spec fn tokens_view(ts: Seq<Token<Vec<char>>>) -> Seq<Token<Seq<char>>> {
    ts.map_values(|t: Token<Vec<char>>| t@)
}

/// Character-by-character equality of two text payloads.
pub fn eq_chars(a: &Vec<char>, b: &Vec<char>) -> (r: bool)
    ensures
        r == (a@ == b@),
{
    if a.len() != b.len() {
        return false;
    }
    let mut i: usize = 0;
    while i < a.len()
        invariant
            i <= a.len(),
            a@.len() == b@.len(),
            forall|k: int| 0 <= k < i ==> a@[k] == b@[k],
        decreases a@.len() - i,
    {
        if a[i] != b[i] {
            return false;
        }
        i = i + 1;
    }
    proof {
        assert(a@ =~= b@);
    }
    true
}

impl PartialEq for Token<Vec<char>> {
    fn eq(&self, other: &Self) -> (r: bool) {
        match (self, other) {
            (Token::Num(a), Token::Num(b)) => eq_chars(a, b),
            (Token::Str(a), Token::Str(b)) => eq_chars(a, b),
            (Token::Var(a), Token::Var(b)) => eq_chars(a, b),
            (Token::Op(a), Token::Op(b)) => eq_chars(a, b),
            (Token::LBr(a), Token::LBr(b)) => eq_chars(a, b),
            (Token::RBr(a), Token::RBr(b)) => eq_chars(a, b),
            (Token::Keyword(a), Token::Keyword(b)) => eq_chars(a, b),
            (Token::InstrEnd, Token::InstrEnd) => true,
            _ => false,
        }
    }
}

impl vstd::std_specs::cmp::PartialEqSpecImpl for Token<Vec<char>> {
    open spec fn obeys_eq_spec() -> bool {
        true
    }

    open spec fn eq_spec(&self, other: &Self) -> bool {
        self@ == other@
    }
}

/// Relies on String::push from std, which vstd leaves unspecified: it
/// appends the given character to the end of the string.
pub assume_specification[ String::push ](s: &mut String, c: char)
    ensures
        final(s)@ == old(s)@.push(c),
;

/// The rendering of a token for diagnostics: the variant's name, with the
/// text payload quoted.
pub open spec fn spec_fmt(t: Token<Seq<char>>) -> Seq<char> {
    match t {
        Token::Num(x) => "Token::Num(\""@ + x + "\")"@,
        Token::Str(x) => "Token::Str(\""@ + x + "\")"@,
        Token::Var(x) => "Token::Var(\""@ + x + "\")"@,
        Token::Op(x) => "Token::Op(\""@ + x + "\")"@,
        Token::LBr(x) => "Token::LBr(\""@ + x + "\")"@,
        Token::RBr(x) => "Token::RBr(\""@ + x + "\")"@,
        Token::Keyword(x) => "Token::Keyword(\""@ + x + "\")"@,
        Token::InstrEnd => "Token::InstrEnd"@,
    }
}

impl Token<Vec<char>> {
    /// One formatting routine for every variant, driven by the tag: the
    /// variant's name, with the text payload between quotes.
    pub fn fmt_text(&self) -> (out: String)
        ensures
            out@ == spec_fmt(self@),
    {
        let (label, payload): (&str, Option<&Vec<char>>) = match self {
            Token::Num(x) => ("Token::Num(\"", Some(x)),
            Token::Str(x) => ("Token::Str(\"", Some(x)),
            Token::Var(x) => ("Token::Var(\"", Some(x)),
            Token::Op(x) => ("Token::Op(\"", Some(x)),
            Token::LBr(x) => ("Token::LBr(\"", Some(x)),
            Token::RBr(x) => ("Token::RBr(\"", Some(x)),
            Token::Keyword(x) => ("Token::Keyword(\"", Some(x)),
            Token::InstrEnd => ("Token::InstrEnd", None),
        };
        let mut out = label.to_owned();
        let ghost base = label@;
        match payload {
            Some(x) => {
                let mut i: usize = 0;
                while i < x.len()
                    invariant
                        i <= x@.len(),
                        out@ == base + x@.take(i as int),
                    decreases x@.len() - i,
                {
                    out.push(x[i]);
                    proof {
                        assert(base + x@.take(i as int) + seq![x@[i as int]] =~= base + x@.take(
                            i as int + 1));
                    }
                    i = i + 1;
                }
                proof {
                    assert(x@.take(x@.len() as int) =~= x@);
                }
                out.append("\")");
            },
            None => {},
        }
        out
    }
}

} // verus!
