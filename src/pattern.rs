use crate::parse::{first_index, is_digit, parse_accepts, parse_fails_with, parsed_key, ParseError};
use crate::version::{compatible_key, featureless_key, lex_lt};
use vstd::prelude::*;

verus! {

/// The relation that a range pattern asks for.
#[derive(Clone, Copy, Debug, PartialEq, Eq, Structural)]
pub enum Operator {
    /// `=`: the same version.
    Exact,
    /// `<`: an older version.
    Less,
    /// `>`: a newer version.
    Greater,
    /// `<=`: the same or an older version.
    LessOrEqual,
    /// `>=`: the same or a newer version.
    GreaterOrEqual,
    /// `^`: no breaking change since the pattern's version.
    Compatible,
    /// `~`: no new feature since the pattern's version.
    Featureless,
}

/// Why a range pattern could not be evaluated.
#[derive(Clone, Debug, PartialEq, Eq)]
pub enum PatternError {
    /// The pattern holds no decimal digit, so no version.
    NoVersionFound,
    /// The text before the version is not one of the operators.
    UnknownOperator(String),
    /// The text from the first digit on is not a version.
    Parse(ParseError),
}

/// The operator that the token `t` names, matched as a whole.
pub open spec fn operator_of(t: Seq<char>) -> Option<Operator> {
    if t =~= seq!['='] {
        Some(Operator::Exact)
    } else if t =~= seq!['<'] {
        Some(Operator::Less)
    } else if t =~= seq!['>'] {
        Some(Operator::Greater)
    } else if t =~= seq!['<', '='] {
        Some(Operator::LessOrEqual)
    } else if t =~= seq!['>', '='] {
        Some(Operator::GreaterOrEqual)
    } else if t =~= seq!['^'] {
        Some(Operator::Compatible)
    } else if t =~= seq!['~'] {
        Some(Operator::Featureless)
    } else {
        None
    }
}

/// Version `a` stands in relation `op` to version `b`.
pub open spec fn satisfies_key(op: Operator, a: (int, int, int), b: (int, int, int)) -> bool {
    match op {
        Operator::Exact => a == b,
        Operator::Less => lex_lt(a, b),
        Operator::Greater => lex_lt(b, a),
        Operator::LessOrEqual => !lex_lt(b, a),
        Operator::GreaterOrEqual => !lex_lt(a, b),
        Operator::Compatible => compatible_key(a, b),
        Operator::Featureless => featureless_key(a, b),
    }
}

/// Where the version in a pattern starts: at its first decimal digit.
pub open spec fn version_start(p: Seq<char>) -> Option<int> {
    first_index(p, |c: char| is_digit(c))
}

/// `r` is the outcome of checking the version `a` against the operator token
/// `op` and the version text `rest`: an error of `rest` comes first, then an
/// unknown operator.
pub open spec fn check_outcome(
    a: (int, int, int),
    op: Seq<char>,
    rest: Seq<char>,
    r: Result<bool, PatternError>,
) -> bool {
    if !parse_accepts(rest) {
        r matches Err(PatternError::Parse(e)) && parse_fails_with(rest, e)
    } else {
        match operator_of(op) {
            Some(o) => r == Ok::<bool, PatternError>(satisfies_key(o, a, parsed_key(rest))),
            None => r matches Err(PatternError::UnknownOperator(t)) && t@ == op,
        }
    }
}

/// The operator that `cs[..end]` names.
pub(crate) fn operator_in(cs: &Vec<char>, end: usize) -> (r: Option<Operator>)
    requires
        end <= cs.len(),
    ensures
        r == operator_of(cs@.subrange(0, end as int)),
{
    let ghost t = cs@.subrange(0, end as int);
    assert(seq!['='][0] == '=' && seq!['<'][0] == '<' && seq!['>'][0] == '>');
    assert(seq!['^'][0] == '^' && seq!['~'][0] == '~');
    assert(seq!['<', '='][0] == '<' && seq!['>', '='][0] == '>');
    if end == 1 {
        let c = cs[0];
        assert(t == seq![c]);
        if c == '=' {
            Some(Operator::Exact)
        } else if c == '<' {
            Some(Operator::Less)
        } else if c == '>' {
            Some(Operator::Greater)
        } else if c == '^' {
            Some(Operator::Compatible)
        } else if c == '~' {
            Some(Operator::Featureless)
        } else {
            None
        }
    } else if end == 2 && cs[1] == '=' {
        let c = cs[0];
        assert(t == seq![c, '=']);
        if c == '<' {
            Some(Operator::LessOrEqual)
        } else if c == '>' {
            Some(Operator::GreaterOrEqual)
        } else {
            None
        }
    } else {
        assert(t.len() != 1);
        if end == 2 {
            assert(t[1] != '=');
        }
        None
    }
}

} // verus!
