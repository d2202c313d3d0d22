use crate::parse::{
    all_digits, decimal_text, decimal_value, digit_char, digit_value, first_invalid, is_digit,
    is_valid_segment, lemma_first_invalid, parse_accepts, parsed_key, segments, version_text,
};
use crate::version::{lex_cmp, lex_lt, Version};
use std::cmp::Ordering;
use vstd::prelude::*;

verus! {

/// A digit character has the value it was made from.
proof fn lemma_digit_char(d: nat)
    requires
        d < 10,
    ensures
        is_digit(digit_char(d)),
        digit_value(digit_char(d)) == d,
{
    let t = seq!['0', '1', '2', '3', '4', '5', '6', '7', '8', '9'];
    assert(t[0] == '0' && t[1] == '1' && t[2] == '2' && t[3] == '3' && t[4] == '4');
    assert(t[5] == '5' && t[6] == '6' && t[7] == '7' && t[8] == '8' && t[9] == '9');
}

/// The decimal text of `n` is a nonempty run of digits worth `n`.
proof fn lemma_decimal_text(n: nat)
    ensures
        decimal_text(n).len() > 0,
        all_digits(decimal_text(n)),
        decimal_value(decimal_text(n)) == n,
    decreases n,
{
    let t = decimal_text(n);
    if n < 10 {
        lemma_digit_char(n);
        assert(t.drop_last() =~= Seq::<char>::empty());
        assert(decimal_value(t) == decimal_value(t.drop_last()) * 10 + digit_value(t.last()));
    } else {
        lemma_decimal_text(n / 10);
        lemma_digit_char(n % 10);
        assert(t.drop_last() =~= decimal_text(n / 10));
        assert((n / 10) * 10 + n % 10 == n) by (nonlinear_arith);
        assert(decimal_value(t) == decimal_value(t.drop_last()) * 10 + digit_value(t.last()));
        assert forall|i: int| 0 <= i < t.len() implies is_digit(#[trigger] t[i]) by {
            if i < t.len() - 1 {
                assert(t[i] == decimal_text(n / 10)[i]);
            }
        }
    }
}

/// Text without a dot is a single segment.
proof fn lemma_segments_no_dot(a: Seq<char>)
    requires
        forall|i: int| 0 <= i < a.len() ==> a[i] != '.',
    ensures
        segments(a) == seq![a],
    decreases a.len(),
{
    if a.len() > 0 {
        let p = a.drop_last();
        assert forall|i: int| 0 <= i < p.len() implies p[i] != '.' by {
            assert(p[i] == a[i]);
        }
        lemma_segments_no_dot(p);
        assert(p.push(a.last()) =~= a);
        assert(seq![p].update(0, a) =~= seq![a]);
    } else {
        assert(a =~= Seq::<char>::empty());
    }
}

/// Joining two texts with a dot joins their segments.
proof fn lemma_segments_join(a: Seq<char>, b: Seq<char>)
    ensures
        segments(a + seq!['.'] + b) == segments(a) + segments(b),
    decreases b.len(),
{
    let ab = a + seq!['.'] + b;
    if b.len() == 0 {
        assert(ab.drop_last() =~= a);
        assert(segments(a).push(Seq::empty()) =~= segments(a) + segments(b));
    } else {
        let b0 = b.drop_last();
        lemma_segments_join(a, b0);
        assert(ab.drop_last() =~= a + seq!['.'] + b0);
        lemma_segments_nonempty(b0);
        let x = segments(a);
        let y = segments(b0);
        if b.last() == '.' {
            assert((x + y).push(Seq::empty()) =~= x + y.push(Seq::empty()));
        } else {
            let seg = y.last().push(b.last());
            assert((x + y).last() == y.last());
            assert((x + y).update((x + y).len() - 1, seg) =~= x + y.update(y.len() - 1, seg));
        }
    }
}

/// Every text has at least one segment.
proof fn lemma_segments_nonempty(s: Seq<char>)
    ensures
        segments(s).len() >= 1,
    decreases s.len(),
{
    if s.len() > 0 {
        lemma_segments_nonempty(s.drop_last());
    }
}

/// Segments that are all valid have no first invalid one.
proof fn lemma_all_valid(segs: Seq<Seq<char>>)
    requires
        forall|j: int| 0 <= j < segs.len() ==> is_valid_segment(#[trigger] segs[j]),
    ensures
        first_invalid(segs) is None,
{
    lemma_first_invalid(segs);
}

/// Round trip: writing three numbers as `major.minor.patch` and parsing the
/// text gives back the same three numbers.
pub proof fn lemma_parse_version_text(major: u32, minor: u32, patch: u32)
    ensures
        parse_accepts(version_text(major as nat, minor as nat, patch as nat)),
        parsed_key(version_text(major as nat, minor as nat, patch as nat)) == (
            major as int,
            minor as int,
            patch as int,
        ),
{
    let a = decimal_text(major as nat);
    let b = decimal_text(minor as nat);
    let c = decimal_text(patch as nat);
    lemma_decimal_text(major as nat);
    lemma_decimal_text(minor as nat);
    lemma_decimal_text(patch as nat);
    assert forall|t: Seq<char>, i: int| all_digits(t) && 0 <= i < t.len() implies #[trigger] t[i]
        != '.' by {
        assert(is_digit(t[i]));
    }
    lemma_segments_no_dot(a);
    lemma_segments_no_dot(b);
    lemma_segments_no_dot(c);
    lemma_segments_join(a, b);
    lemma_segments_join(a + seq!['.'] + b, c);
    let segs = segments(version_text(major as nat, minor as nat, patch as nat));
    assert(segs =~= seq![a, b, c]);
    lemma_all_valid(segs);
}

/// Ordering is total: of `a < b`, `a == b` and `a > b` exactly one holds, and
/// `a > b` exactly when `b < a`.
pub proof fn lemma_order_total(a: Version, b: Version)
    ensures
        lex_lt(a.key(), b.key()) || a == b || lex_lt(b.key(), a.key()),
        !(lex_lt(a.key(), b.key()) && a == b),
        !(lex_lt(a.key(), b.key()) && lex_lt(b.key(), a.key())),
        !(a == b && lex_lt(b.key(), a.key())),
        lex_cmp(a.key(), b.key()) == Ordering::Equal <==> a == b,
        lex_cmp(a.key(), b.key()) == Ordering::Greater <==> lex_lt(b.key(), a.key()),
{
}

/// Ordering is transitive.
pub proof fn lemma_order_transitive(a: Version, b: Version, c: Version)
    requires
        lex_lt(a.key(), b.key()),
        lex_lt(b.key(), c.key()),
    ensures
        lex_lt(a.key(), c.key()),
{
}

} // verus!
