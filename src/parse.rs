use crate::version::Version;
use vstd::prelude::*;

verus! {

/// Why a text is not a version.
#[derive(Clone, Debug, PartialEq, Eq)]
pub enum ParseError {
    /// A dot-separated segment is not a decimal number that fits in `u32`.
    InvalidSegment(String),
    /// More than three dot-separated segments.
    TooManyParts,
}

/// An ASCII decimal digit.
pub open spec fn is_digit(c: char) -> bool {
    '0' <= c && c <= '9'
}

/// The value of a digit character.
pub open spec fn digit_value(c: char) -> nat {
    (c as u32 - '0' as u32) as nat
}

/// Every character of `t` is a decimal digit.
pub open spec fn all_digits(t: Seq<char>) -> bool {
    forall|i: int| 0 <= i < t.len() ==> is_digit(#[trigger] t[i])
}

/// The number that a run of digits writes in base ten (0 for no digits).
pub open spec fn decimal_value(t: Seq<char>) -> nat
    decreases t.len(),
{
    if t.len() == 0 {
        0
    } else {
        decimal_value(t.drop_last()) * 10 + digit_value(t.last())
    }
}

/// A segment that reads as a number in the range of `u32`.
pub open spec fn is_valid_segment(t: Seq<char>) -> bool {
    &&& t.len() > 0
    &&& all_digits(t)
    &&& decimal_value(t) <= u32::MAX
}

/// `s` split at every `.`: one more segment than there are dots.
pub open spec fn segments(s: Seq<char>) -> Seq<Seq<char>>
    decreases s.len(),
{
    if s.len() == 0 {
        seq![Seq::empty()]
    } else {
        let prev = segments(s.drop_last());
        if s.last() == '.' {
            prev.push(Seq::empty())
        } else {
            prev.update(prev.len() - 1, prev.last().push(s.last()))
        }
    }
}

/// The index of the first element of `s` that satisfies `pred`, if any.
pub open spec fn first_index<A>(s: Seq<A>, pred: spec_fn(A) -> bool) -> Option<int>
    decreases s.len(),
{
    if s.len() == 0 {
        None
    } else {
        match first_index(s.drop_last(), pred) {
            Some(k) => Some(k),
            None => if pred(s.last()) {
                Some(s.len() - 1)
            } else {
                None
            },
        }
    }
}

/// The index of the first segment that is not valid, if any.
pub open spec fn first_invalid(segs: Seq<Seq<char>>) -> Option<int> {
    first_index(segs, |t: Seq<char>| !is_valid_segment(t))
}

/// The digit character for `d < 10`.
pub open spec fn digit_char(d: nat) -> char {
    seq!['0', '1', '2', '3', '4', '5', '6', '7', '8', '9'][d as int]
}

/// `n` written in base ten, without leading zeros.
pub open spec fn decimal_text(n: nat) -> Seq<char>
    decreases n,
{
    if n < 10 {
        seq![digit_char(n)]
    } else {
        decimal_text(n / 10).push(digit_char(n % 10))
    }
}

/// The text `major.minor.patch`.
pub open spec fn version_text(major: nat, minor: nat, patch: nat) -> Seq<char> {
    decimal_text(major) + seq!['.'] + decimal_text(minor) + seq!['.'] + decimal_text(patch)
}

/// `s` is the text of a version: one to three valid segments.
pub open spec fn parse_accepts(s: Seq<char>) -> bool {
    first_invalid(segments(s)) is None && segments(s).len() <= 3
}

/// The number in segment `i` of `s`, or 0 where `s` has no such segment.
pub open spec fn field_value(s: Seq<char>, i: int) -> nat {
    if i < segments(s).len() {
        decimal_value(segments(s)[i])
    } else {
        0
    }
}

/// The numbers that the text `s` gives, missing ones as 0.
pub open spec fn parsed_key(s: Seq<char>) -> (int, int, int) {
    (field_value(s, 0) as int, field_value(s, 1) as int, field_value(s, 2) as int)
}

/// `e` is the error that parsing `s` reports: the first invalid segment, or
/// failing that, too many segments.
pub open spec fn parse_fails_with(s: Seq<char>, e: ParseError) -> bool {
    match first_invalid(segments(s)) {
        Some(k) => e matches ParseError::InvalidSegment(t) && t@ == segments(s)[k],
        None => segments(s).len() > 3 && e is TooManyParts,
    }
}

/// `first_index` finds an element that satisfies the predicate, after none
/// that does; it finds nothing only where no element does.
pub proof fn lemma_first_index<A>(s: Seq<A>, pred: spec_fn(A) -> bool)
    ensures
        first_index(s, pred) matches Some(k) ==> {
            &&& 0 <= k < s.len()
            &&& pred(s[k])
            &&& forall|j: int| 0 <= j < k ==> !pred(#[trigger] s[j])
        },
        first_index(s, pred) is None ==> forall|j: int| 0 <= j < s.len() ==> !pred(#[trigger] s[j]),
    decreases s.len(),
{
    if s.len() > 0 {
        let prev = s.drop_last();
        lemma_first_index(prev, pred);
        let bound = match first_index(s, pred) {
            Some(k) => k,
            None => s.len() as int,
        };
        assert forall|j: int| 0 <= j < bound implies !pred(#[trigger] s[j]) by {
            if j < prev.len() {
                assert(s[j] == prev[j]);
            }
        }
    }
}

/// The first invalid segment is a segment, and every one before it is valid.
pub proof fn lemma_first_invalid(segs: Seq<Seq<char>>)
    ensures
        first_invalid(segs) matches Some(k) ==> {
            &&& 0 <= k < segs.len()
            &&& !is_valid_segment(segs[k])
            &&& forall|j: int| 0 <= j < k ==> is_valid_segment(#[trigger] segs[j])
        },
        first_invalid(segs) is None ==> forall|j: int|
            0 <= j < segs.len() ==> is_valid_segment(#[trigger] segs[j]),
{
    lemma_first_index(segs, |t: Seq<char>| !is_valid_segment(t));
}

/// A run of digits has at least the value of any of its prefixes.
proof fn lemma_decimal_prefix(t: Seq<char>, k: int)
    requires
        0 <= k <= t.len(),
    ensures
        decimal_value(t.subrange(0, k)) <= decimal_value(t),
    decreases t.len(),
{
    if k < t.len() {
        lemma_decimal_prefix(t.drop_last(), k);
        assert(t.drop_last().subrange(0, k) =~= t.subrange(0, k));
    } else {
        assert(t.subrange(0, k) =~= t);
    }
}

/// Reads `cs[start..end]` as a segment; `s` is the same text, for the error.
fn read_segment(s: &str, cs: &Vec<char>, start: usize, end: usize) -> (r: Result<u32, ParseError>)
    requires
        cs@ == s@,
        start <= end <= cs.len(),
    ensures
        match r {
            Ok(v) => is_valid_segment(cs@.subrange(start as int, end as int))
                && v == decimal_value(cs@.subrange(start as int, end as int)),
            Err(e) => {
                &&& !is_valid_segment(cs@.subrange(start as int, end as int))
                &&& e matches ParseError::InvalidSegment(t) && t@ == cs@.subrange(
                    start as int,
                    end as int,
                )
            },
        },
{
    let ghost seg = cs@.subrange(start as int, end as int);
    let mut v: u32 = 0;
    let mut j: usize = start;
    let mut ok: bool = start < end;
    while ok && j < end
        invariant
            start <= j <= end <= cs.len(),
            ok ==> start < end,
            ok ==> all_digits(cs@.subrange(start as int, j as int)),
            ok ==> v == decimal_value(cs@.subrange(start as int, j as int)),
            !ok ==> !is_valid_segment(seg),
            seg == cs@.subrange(start as int, end as int),
        decreases end - j,
    {
        let c = cs[j];
        let ghost prefix = cs@.subrange(start as int, j as int + 1);
        assert(prefix.drop_last() =~= cs@.subrange(start as int, j as int));
        if !('0' <= c && c <= '9') {
            assert(seg[j - start] == c);
            ok = false;
        } else {
            let d: u32 = c as u32 - '0' as u32;
            if v > (u32::MAX - d) / 10 {
                proof {
                    assert(prefix =~= seg.subrange(0, j - start + 1));
                    lemma_decimal_prefix(seg, j - start + 1);
                }
                ok = false;
            } else {
                v = v * 10 + d;
            }
        }
        j = j + 1;
    }
    if ok {
        assert(cs@.subrange(start as int, j as int) =~= seg);
        Ok(v)
    } else {
        Err(ParseError::InvalidSegment(s.substring_char(start, end).to_owned()))
    }
}

/// Parses `cs[lo..hi]` as a version; `s` is the same text, for the errors.
pub(crate) fn parse_range(s: &str, cs: &Vec<char>, lo: usize, hi: usize) -> (r: Result<
    Version,
    ParseError,
>)
    requires
        cs@ == s@,
        lo <= hi <= cs.len(),
    ensures
        r is Ok <==> parse_accepts(cs@.subrange(lo as int, hi as int)),
        r matches Ok(v) ==> v.key() == parsed_key(cs@.subrange(lo as int, hi as int)),
        r matches Err(e) ==> parse_fails_with(cs@.subrange(lo as int, hi as int), e),
{
    let ghost text = cs@.subrange(lo as int, hi as int);
    let ghost mut done: Seq<Seq<char>> = Seq::empty();
    let mut fields: Vec<u32> = Vec::new();
    let mut failed: Option<ParseError> = None;
    let mut start: usize = lo;
    let mut i: usize = lo;
    assert(cs@.subrange(lo as int, lo as int) =~= Seq::<char>::empty());
    while i < hi
        invariant
            cs@ == s@,
            lo <= start <= i <= hi <= cs.len(),
            segments(cs@.subrange(lo as int, i as int)) == done.push(
                cs@.subrange(start as int, i as int),
            ),
            failed is None <==> first_invalid(done) is None,
            failed is None ==> fields@.len() == done.len(),
            failed is None ==> forall|j: int|
                0 <= j < done.len() ==> fields@[j] == decimal_value(#[trigger] done[j]),
            failed matches Some(e) ==> (first_invalid(done) matches Some(k) && (
            e matches ParseError::InvalidSegment(t) && t@ == done[k])),
        decreases hi - i,
    {
        let ghost cur = cs@.subrange(start as int, i as int);
        assert(cs@.subrange(lo as int, i + 1).drop_last() =~= cs@.subrange(lo as int, i as int));
        if cs[i] == '.' {
            if failed.is_none() {
                match read_segment(s, cs, start, i) {
                    Ok(v) => fields.push(v),
                    Err(e) => failed = Some(e),
                }
            }
            proof {
                lemma_first_invalid(done);
                assert(done.push(cur).drop_last() =~= done);
                done = done.push(cur);
            }
            start = i + 1;
            assert(cs@.subrange(start as int, start as int) =~= Seq::<char>::empty());
        } else {
            assert(cs@.subrange(start as int, i + 1) =~= cur.push(cs@[i as int]));
            assert(done.push(cur).update(done.len() as int, cur.push(cs@[i as int])) =~= done.push(
                cur.push(cs@[i as int]),
            ));
        }
        i = i + 1;
    }
    let ghost cur = cs@.subrange(start as int, hi as int);
    if failed.is_none() {
        match read_segment(s, cs, start, hi) {
            Ok(v) => fields.push(v),
            Err(e) => failed = Some(e),
        }
    }
    proof {
        lemma_first_invalid(done);
        assert(done.push(cur).drop_last() =~= done);
        done = done.push(cur);
        assert(cs@.subrange(lo as int, i as int) =~= text);
    }
    match failed {
        Some(e) => Err(e),
        None => {
            if fields.len() > 3 {
                Err(ParseError::TooManyParts)
            } else {
                let major = fields[0];
                let minor = if fields.len() > 1 { fields[1] } else { 0 };
                let patch = if fields.len() > 2 { fields[2] } else { 0 };
                Ok(Version::new(major, minor, patch))
            }
        },
    }
}

/// The characters of `s`.
pub(crate) fn chars_of(s: &str) -> (r: Vec<char>)
    ensures
        r@ == s@,
{
    let mut r: Vec<char> = Vec::new();
    for c in it: s.chars()
        invariant
            r@ == it.seq().subrange(0, it.index() as int),
            it.seq() == s@,
    {
        r.push(c);
    }
    r
}

} // verus!
