//! The tokenizer: a query string becomes a validated sequence of navigation
//! steps.
//!
//! The query is split on a configurable separator character. A segment of
//! the shape `[digits]` becomes an index step, any other non-empty segment
//! becomes an identifier step verbatim, and an empty segment is rejected.
//! The first malformed segment aborts tokenization; no partial sequence is
//! ever returned.

use vstd::prelude::*;

use crate::error::Error;
use crate::model::{ErrorV, TokenV};

verus! {

broadcast use vstd::std_specs::vec::group_vec_axioms, vstd::seq::group_seq_axioms;

/// One parsed navigation step. An index step keeps the text of the original
/// `[digits]` segment, so that diagnostics can show the step as written.
#[derive(Debug, Clone, PartialEq)]
pub enum Token {
    Identifier { ident: String },
    Index { idx: usize, text: String },
}

impl View for Token {
    type V = TokenV;

    open spec fn view(&self) -> TokenV {
        match self {
            Token::Identifier { ident } => TokenV::Identifier { ident: ident@ },
            Token::Index { idx, text } => TokenV::Index { idx: *idx as int, text: text@ },
        }
    }
}

/// View of a token sequence, pointwise.
pub open spec fn toks_v(toks: Seq<Token>) -> Seq<TokenV> {
    Seq::new(toks.len(), |i: int| toks[i]@)
}

/// Splitting a string on the separator: always at least one segment, one
/// more segment for every separator occurrence, in order.
pub open spec fn split_v(q: Seq<char>, sep: char) -> Seq<Seq<char>>
    decreases q.len(),
{
    if q.len() == 0 {
        seq![Seq::<char>::empty()]
    } else if q[0] == sep {
        seq![Seq::<char>::empty()] + split_v(q.skip(1), sep)
    } else {
        let r = split_v(q.skip(1), sep);
        r.update(0, seq![q[0]] + r[0])
    }
}

/// A decimal digit.
pub open spec fn is_digit(c: char) -> bool {
    c == '0' || c == '1' || c == '2' || c == '3' || c == '4' || c == '5' || c == '6' || c == '7'
        || c == '8' || c == '9'
}

/// Numeric value of a decimal digit character.
pub open spec fn digit_val(c: char) -> int {
    if c == '0' {
        0
    } else if c == '1' {
        1
    } else if c == '2' {
        2
    } else if c == '3' {
        3
    } else if c == '4' {
        4
    } else if c == '5' {
        5
    } else if c == '6' {
        6
    } else if c == '7' {
        7
    } else if c == '8' {
        8
    } else {
        9
    }
}

pub open spec fn all_digits(s: Seq<char>) -> bool {
    forall|i: int| 0 <= i < s.len() ==> is_digit(#[trigger] s[i])
}

/// Value of a digit string, most significant digit first.
pub open spec fn digits_val(s: Seq<char>) -> int
    decreases s.len(),
{
    if s.len() == 0 {
        0
    } else {
        digits_val(s.drop_last()) * 10 + digit_val(s.last())
    }
}

/// Does the segment have the bracketed-index shape `[` ... `]`?
pub open spec fn bracketed(s: Seq<char>) -> bool {
    s.len() >= 2 && s[0] == '[' && s[s.len() - 1] == ']'
}

/// Classification of one segment.
///
/// An empty segment is rejected; a bracketed segment must hold only digits,
/// and they must fit an index; everything else is an identifier verbatim.
pub open spec fn classify_v(s: Seq<char>) -> Result<TokenV, ErrorV> {
    if s.len() == 0 {
        Err(ErrorV::EmptyIdentifier)
    } else if bracketed(s) {
        let inner = s.subrange(1, s.len() - 1);
        if inner.len() == 0 {
            Err(ErrorV::ArrayAccessWithoutIndex)
        } else if !all_digits(inner) {
            Err(ErrorV::ArrayAccessWithInvalidIndex)
        } else if digits_val(inner) > usize::MAX {
            Err(ErrorV::ArrayAccessWithInvalidIndex)
        } else {
            Ok(TokenV::Index { idx: digits_val(inner), text: s })
        }
    } else {
        Ok(TokenV::Identifier { ident: s })
    }
}

/// Classification of the segments from position `i` on: the first malformed
/// segment aborts with its error.
pub open spec fn toks_from(segs: Seq<Seq<char>>, i: int) -> Result<Seq<TokenV>, ErrorV>
    decreases segs.len() - i,
{
    if i < 0 || i >= segs.len() {
        Ok(Seq::empty())
    } else {
        match classify_v(segs[i]) {
            Err(e) => Err(e),
            Ok(t) => match toks_from(segs, i + 1) {
                Err(e) => Err(e),
                Ok(ts) => Ok(seq![t] + ts),
            },
        }
    }
}

/// What tokenizing a query returns: the empty query is its own failure,
/// otherwise every segment is classified in order.
pub open spec fn tokenize_v(q: Seq<char>, sep: char) -> Result<Seq<TokenV>, ErrorV> {
    if q.len() == 0 {
        Err(ErrorV::EmptyQueryError)
    } else {
        toks_from(split_v(q, sep), 0)
    }
}

/// How one appended character extends a split: a separator opens a new empty
/// segment, any other character extends the last segment.
pub proof fn lemma_split_push(q: Seq<char>, sep: char, c: char)
    ensures
        split_v(q, sep).len() >= 1,
        c == sep ==> split_v(q.push(c), sep) == split_v(q, sep).push(Seq::<char>::empty()),
        c != sep ==> split_v(q.push(c), sep) == split_v(q, sep).update(
            split_v(q, sep).len() - 1,
            split_v(q, sep).last().push(c),
        ),
    decreases q.len(),
{
    reveal_with_fuel(split_v, 3);
    if q.len() == 0 {
        assert(q.push(c).skip(1) =~= Seq::<char>::empty());
        if c == sep {
            assert(split_v(q.push(c), sep) =~~= split_v(q, sep).push(Seq::<char>::empty()));
        } else {
            assert(split_v(q.push(c), sep) =~~= split_v(q, sep).update(
                split_v(q, sep).len() - 1,
                split_v(q, sep).last().push(c),
            ));
        }
    } else {
        lemma_split_push(q.skip(1), sep, c);
        assert(q.push(c)[0] == q[0]);
        assert(q.push(c).skip(1) =~= q.skip(1).push(c));
        if c == sep {
            assert(split_v(q.push(c), sep) =~~= split_v(q, sep).push(Seq::<char>::empty()));
        } else {
            assert(split_v(q.push(c), sep) =~~= split_v(q, sep).update(
                split_v(q, sep).len() - 1,
                split_v(q, sep).last().push(c),
            ));
        }
    }
}

/// A longer digit string never has a smaller value.
pub proof fn lemma_digits_grow(s: Seq<char>, i: int)
    requires
        0 <= i <= s.len(),
        all_digits(s),
    ensures
        0 <= digits_val(s.take(i)),
        digits_val(s.take(i)) <= digits_val(s),
    decreases s.len() - i,
{
    if i == s.len() {
        assert(s.take(i) =~= s);
        lemma_digits_nonneg(s);
    } else {
        lemma_digits_grow(s, i + 1);
        assert(s.take(i + 1).drop_last() =~= s.take(i));
        assert(s.take(i + 1).last() == s[i]);
        lemma_digits_nonneg(s.take(i));
    }
}

/// A digit string's value is never negative.
pub proof fn lemma_digits_nonneg(s: Seq<char>)
    requires
        all_digits(s),
    ensures
        0 <= digits_val(s),
    decreases s.len(),
{
    if s.len() > 0 {
        assert(all_digits(s.drop_last())) by {
            assert(forall|i: int|
                0 <= i < s.len() - 1 ==> #[trigger] s.drop_last()[i] == s[i]);
        }
        lemma_digits_nonneg(s.drop_last());
    }
}

/// Relies on String::push: appends the given character to the end of the
/// string.
pub assume_specification[ String::push ](s: &mut String, c: char)
    ensures
        final(s)@ == old(s)@.push(c),
;

/// View of the raw segments gathered by the splitting pass.
pub open spec fn seg_views(ss: Seq<(String, Vec<char>)>) -> Seq<Seq<char>> {
    Seq::new(ss.len(), |i: int| ss[i].1@)
}

/// Turns one raw segment into a token, or rejects it.
fn classify(seg_s: String, seg_c: &Vec<char>) -> (r: Result<Token, Error>)
    requires
        seg_s@ == seg_c@,
    ensures
        match r {
            Ok(t) => classify_v(seg_s@) == Ok::<TokenV, ErrorV>(t@),
            Err(e) => classify_v(seg_s@) == Err::<TokenV, ErrorV>(e@),
        },
{
    let n = seg_c.len();
    if n == 0 {
        return Err(Error::EmptyIdentifier);
    }
    if n >= 2 && seg_c[0] == '[' && seg_c[n - 1] == ']' {
        if n == 2 {
            return Err(Error::ArrayAccessWithoutIndex);
        }
        let ghost inner = seg_s@.subrange(1, seg_s@.len() - 1);
        let mut val: usize = 0;
        let mut k: usize = 1;
        while k < n - 1
            invariant
                seg_s@ == seg_c@,
                n == seg_c.len(),
                n >= 3,
                bracketed(seg_s@),
                1 <= k <= n - 1,
                inner == seg_s@.subrange(1, seg_s@.len() - 1),
                all_digits(inner.take(k - 1)),
                val == digits_val(inner.take(k - 1)),
            decreases n - k,
        {
            let c = seg_c[k];
            proof {
                assert(inner[k - 1] == seg_c@[k as int]);
                assert(inner.take(k as int).drop_last() =~= inner.take(k - 1));
            }
            let d_opt: Option<usize> = match c {
                '0' => Some(0),
                '1' => Some(1),
                '2' => Some(2),
                '3' => Some(3),
                '4' => Some(4),
                '5' => Some(5),
                '6' => Some(6),
                '7' => Some(7),
                '8' => Some(8),
                '9' => Some(9),
                _ => None,
            };
            let d = match d_opt {
                Some(d) => d,
                None => {
                    assert(!all_digits(inner)) by {
                        assert(!is_digit(inner[k - 1]));
                    }
                    return Err(Error::ArrayAccessWithInvalidIndex);
                },
            };
            let step = match val.checked_mul(10) {
                Some(m) => m.checked_add(d),
                None => None,
            };
            match step {
                Some(nv) => {
                    proof {
                        assert(is_digit(inner[k - 1]) && digit_val(inner[k - 1]) == d);
                        assert forall|j: int| 0 <= j < k implies is_digit(
                            #[trigger] inner.take(k as int)[j],
                        ) by {
                            assert(inner.take(k as int)[j] == inner[j]);
                            if j < k - 1 {
                                assert(inner.take(k - 1)[j] == inner[j]);
                            }
                        }
                        assert(digits_val(inner.take(k as int)) == val * 10 + d);
                    }
                    val = nv;
                },
                None => {
                    proof {
                        assert(is_digit(inner[k - 1]) && digit_val(inner[k - 1]) == d);
                        assert forall|j: int| 0 <= j < k implies is_digit(
                            #[trigger] inner.take(k as int)[j],
                        ) by {
                            assert(inner.take(k as int)[j] == inner[j]);
                            if j < k - 1 {
                                assert(inner.take(k - 1)[j] == inner[j]);
                            }
                        }
                        assert(all_digits(inner.take(k as int)));
                        assert(digits_val(inner.take(k as int)) == val * 10 + d);
                        assert(digits_val(inner.take(k as int)) > usize::MAX);
                        if all_digits(inner) {
                            lemma_digits_grow(inner, k as int);
                        }
                    }
                    return Err(Error::ArrayAccessWithInvalidIndex);
                },
            }
            k = k + 1;
        }
        proof {
            assert(inner.take(k - 1) =~= inner);
        }
        Ok(Token::Index { idx: val, text: seg_s })
    } else {
        proof {
            assert(!bracketed(seg_s@));
        }
        Ok(Token::Identifier { ident: seg_s })
    }
}

/// Turns a query string into its sequence of navigation steps, splitting on
/// the given separator character.
///
/// Returns the tokens exactly as [`tokenize_v`] describes; a successful
/// result always holds at least one token.
pub fn tokenize_with_seperator(query: &str, seperator: char) -> (r: Result<Vec<Token>, Error>)
    ensures
        match r {
            Ok(toks) => tokenize_v(query@, seperator) == Ok::<Seq<TokenV>, ErrorV>(toks_v(toks@))
                && toks@.len() >= 1,
            Err(e) => tokenize_v(query@, seperator) == Err::<Seq<TokenV>, ErrorV>(e@),
        },
{
    let mut qchars: Vec<char> = Vec::new();
    for c in it: query.chars()
        invariant
            it.seq() == query@,
            qchars@ == query@.take(it.index() as int),
    {
        proof {
            assert(c == it.seq()[it.index() as int]);
            assert(query@.take(it.index() + 1) =~= query@.take(it.index() as int).push(
                query@[it.index() as int],
            ));
        }
        qchars.push(c);
    }
    proof {
        assert(qchars@ =~= query@);
    }
    if qchars.len() == 0 {
        return Err(Error::EmptyQueryError);
    }

    let mut segs: Vec<(String, Vec<char>)> = Vec::new();
    let mut cur_s: String = String::new();
    let mut cur_c: Vec<char> = Vec::new();
    let mut k: usize = 0;
    while k < qchars.len()
        invariant
            k <= qchars.len(),
            qchars@ == query@,
            cur_s@ == cur_c@,
            forall|j: int| 0 <= j < segs@.len() ==> (#[trigger] segs@[j]).0@ == segs@[j].1@,
            split_v(query@.take(k as int), seperator) == seg_views(segs@).push(cur_c@),
        decreases qchars.len() - k,
    {
        let c = qchars[k];
        proof {
            lemma_split_push(query@.take(k as int), seperator, query@[k as int]);
            assert(query@.take(k + 1 as int) =~= query@.take(k as int).push(query@[k as int]));
        }
        if c == seperator {
            let ghost old_segs = segs@;
            let ghost old_cur = cur_c@;
            segs.push((cur_s, cur_c));
            cur_s = String::new();
            cur_c = Vec::new();
            proof {
                assert(seg_views(segs@) =~= seg_views(old_segs).push(old_cur));
                assert(split_v(query@.take(k + 1 as int), seperator) =~= seg_views(
                    segs@,
                ).push(cur_c@));
            }
        } else {
            cur_s.push(c);
            cur_c.push(c);
            proof {
                assert(split_v(query@.take(k + 1 as int), seperator) =~= seg_views(
                    segs@,
                ).push(cur_c@));
            }
        }
        k = k + 1;
    }
    proof {
        assert(query@.take(qchars.len() as int) =~= query@);
    }
    let ghost old_segs = segs@;
    let ghost old_cur = cur_c@;
    segs.push((cur_s, cur_c));
    proof {
        assert(seg_views(segs@) =~= seg_views(old_segs).push(old_cur));
    }
    let ghost spl = split_v(query@, seperator);
    assert(spl == seg_views(segs@));

    let mut out: Vec<Token> = Vec::new();
    let mut i: usize = 0;
    while i < segs.len()
        invariant
            query@.len() >= 1,
            i <= segs.len(),
            out@.len() == i,
            spl == split_v(query@, seperator),
            spl == seg_views(segs@),
            forall|j: int| 0 <= j < segs@.len() ==> (#[trigger] segs@[j]).0@ == segs@[j].1@,
            match toks_from(spl, i as int) {
                Ok(ts) => toks_from(spl, 0) == Ok::<Seq<TokenV>, ErrorV>(toks_v(out@) + ts),
                Err(e) => toks_from(spl, 0) == Err::<Seq<TokenV>, ErrorV>(e),
            },
        decreases segs.len() - i,
    {
        let seg = &segs[i];
        let r = classify(seg.0.clone(), &seg.1);
        proof {
            assert(spl[i as int] == segs@[i as int].1@);
        }
        match r {
            Ok(t) => {
                let ghost old_out = out@;
                out.push(t);
                proof {
                    assert(toks_v(out@) =~= toks_v(old_out).push(t@));
                    match toks_from(spl, i + 1 as int) {
                        Ok(ts) => {
                            assert(toks_v(old_out) + (seq![t@] + ts) =~= toks_v(out@) + ts);
                        },
                        Err(e) => {},
                    }
                }
            },
            Err(e) => {
                proof {
                    assert(classify_v(spl[i as int]) == Err::<TokenV, ErrorV>(e@));
                    assert(toks_from(spl, i as int) == Err::<Seq<TokenV>, ErrorV>(e@));
                }
                return Err(e);
            },
        }
        i = i + 1;
    }
    proof {
        assert(toks_from(spl, segs@.len() as int) == Ok::<Seq<TokenV>, ErrorV>(Seq::empty()));
        assert(toks_v(out@) + Seq::<TokenV>::empty() =~= toks_v(out@));
    }
    Ok(out)
}

} // verus!
