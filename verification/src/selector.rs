//! Label selectors: `key=value` pairs joined by commas, all of which must
//! hold.
//!
//! A pair that does not have exactly one `=` asks nothing. Keys and values
//! are compared with the white space around them removed.
use crate::labels::Labels;
use crate::text::{
    chars_of,
    lemma_split_prefix,
    lemma_split_step,
    lemma_split_without_separator,
    split,
    trim,
    trim_bounds,
};
use vstd::prelude::*;
use vstd::string::*;

verus! {

/// What one pair of a selector asks of `labels`: if it reads `key=value`,
/// that `key` is mapped to `value`; otherwise nothing.
pub open spec fn pair_holds(labels: Map<Seq<char>, Seq<char>>, pair: Seq<char>) -> bool {
    let parts = split(pair, '=');
    parts.len() == 2 ==> labels.contains_pair(trim(parts[0]), trim(parts[1]))
}

/// Whether `labels` satisfy `selector`: every pair of the selector holds.
pub open spec fn selector_matches(labels: Map<Seq<char>, Seq<char>>, selector: Seq<char>) -> bool {
    forall|i: int|
        0 <= i < split(selector, ',').len() ==> pair_holds(labels, #[trigger] split(selector, ',')[i])
}

/// The empty selector is satisfied by every labelling.
pub proof fn lemma_empty_selector_matches_all(labels: Map<Seq<char>, Seq<char>>)
    ensures
        selector_matches(labels, Seq::empty()),
{
    let pieces = split(Seq::<char>::empty(), ',');
    assert(pieces.len() == 1);
    assert(pieces[0] =~= Seq::<char>::empty());
    assert(split(pieces[0], '=').len() == 1);
}

/// A selector that holds neither `,` nor `=` is satisfied by every
/// labelling: its one pair is malformed and asks nothing.
pub proof fn lemma_selector_without_pair_matches_all(
    labels: Map<Seq<char>, Seq<char>>,
    selector: Seq<char>,
)
    requires
        !selector.contains(','),
        !selector.contains('='),
    ensures
        selector_matches(labels, selector),
{
    lemma_split_without_separator(selector, ',');
    lemma_split_without_separator(selector, '=');
}

/// Decides [`pair_holds`] for the pair that stands in `lo..hi` of the
/// selector, whose characters are `chars`.
fn pair_matches(labels: &Labels, selector: &str, chars: &Vec<char>, lo: usize, hi: usize) -> (b:
    bool)
    requires
        chars@ == selector@,
        lo <= hi <= chars.len(),
    ensures
        b == pair_holds(labels@, chars@.subrange(lo as int, hi as int)),
{
    let ghost pair = chars@.subrange(lo as int, hi as int);
    let mut signs: usize = 0;
    let mut sign_at: usize = lo;
    let mut k: usize = lo;
    assert(pair.take(0) =~= Seq::<char>::empty());
    while k < hi
        invariant
            lo <= k <= hi <= chars.len(),
            pair == chars@.subrange(lo as int, hi as int),
            signs <= k - lo,
            split(pair.take(k - lo), '=').len() == signs + 1,
            signs == 0 ==> split(pair.take(k - lo), '=') == seq![pair.take(k - lo)],
            signs == 1 ==> lo <= sign_at < k && split(pair.take(k - lo), '=') == seq![
                pair.take(sign_at - lo),
                pair.subrange(sign_at - lo + 1, k - lo),
            ],
        decreases hi - k,
    {
        proof {
            lemma_split_step(pair, k - lo, '=');
        }
        let ghost before = split(pair.take(k - lo), '=');
        if chars[k] == '=' {
            if signs == 0 {
                sign_at = k;
                assert(before.push(Seq::empty()) =~~= seq![
                    pair.take(k - lo),
                    pair.subrange(k - lo + 1, k + 1 - lo),
                ]);
            }
            signs += 1;
        } else {
            if signs == 0 {
                assert(before.update(0, before.last().push(pair[k - lo])) =~~= seq![
                    pair.take(k + 1 - lo),
                ]);
            } else if signs == 1 {
                assert(before.update(1, before.last().push(pair[k - lo])) =~~= seq![
                    pair.take(sign_at - lo),
                    pair.subrange(sign_at - lo + 1, k + 1 - lo),
                ]);
            }
        }
        k += 1;
    }
    assert(pair.take(hi - lo) =~= pair);
    if signs != 1 {
        return true;
    }
    let (key_lo, key_hi) = trim_bounds(chars, lo, sign_at);
    let (value_lo, value_hi) = trim_bounds(chars, sign_at + 1, hi);
    let key = selector.substring_char(key_lo, key_hi);
    let value = selector.substring_char(value_lo, value_hi);
    proof {
        assert(pair.take(sign_at - lo) =~= chars@.subrange(lo as int, sign_at as int));
        assert(pair.subrange(sign_at - lo + 1, hi - lo) =~= chars@.subrange(
            sign_at + 1,
            hi as int,
        ));
    }
    match labels.get(key) {
        Some(found) => {
            let wanted = value.to_owned();
            *found == wanted
        },
        None => false,
    }
}

/// Whether `labels` satisfy `selector`.
pub fn matches_selector(labels: &Labels, selector: &str) -> (b: bool)
    ensures
        b == selector_matches(labels@, selector@),
{
    let chars = chars_of(selector);
    let n = chars.len();
    let mut start: usize = 0;
    let mut i: usize = 0;
    assert(chars@.take(0) =~= Seq::<char>::empty());
    assert(chars@.subrange(0, 0) =~= Seq::<char>::empty());
    while i < n
        invariant
            chars@ == selector@,
            n == chars.len(),
            start <= i <= n,
            split(chars@.take(i as int), ',').len() >= 1,
            split(chars@.take(i as int), ',').last() == chars@.subrange(start as int, i as int),
            forall|p: int|
                0 <= p < split(chars@.take(i as int), ',').len() - 1 ==> pair_holds(
                    labels@,
                    #[trigger] split(chars@.take(i as int), ',')[p],
                ),
        decreases n - i,
    {
        proof {
            lemma_split_step(chars@, i as int, ',');
        }
        let ghost before = split(chars@.take(i as int), ',');
        let ghost after = split(chars@.take(i + 1), ',');
        if chars[i] == ',' {
            if !pair_matches(labels, selector, &chars, start, i) {
                proof {
                    lemma_split_prefix(chars@, i + 1, ',');
                    let p = before.len() - 1;
                    assert(after[p] == before[p]);
                    assert(split(chars@, ',')[p] == after[p]);
                }
                return false;
            }
            start = i + 1;
            assert(chars@.subrange(i + 1, i + 1) =~= Seq::<char>::empty());
            assert forall|p: int| 0 <= p < after.len() - 1 implies pair_holds(
                labels@,
                #[trigger] after[p],
            ) by {
                assert(after[p] == before[p]);
            }
        } else {
            assert(before.last().push(chars@[i as int]) =~= chars@.subrange(
                start as int,
                i + 1,
            ));
            assert forall|p: int| 0 <= p < after.len() - 1 implies pair_holds(
                labels@,
                #[trigger] after[p],
            ) by {
                assert(after[p] == before[p]);
            }
        }
        i += 1;
    }
    assert(chars@.take(n as int) =~= chars@);
    let last = pair_matches(labels, selector, &chars, start, n);
    proof {
        let pieces = split(chars@, ',');
        if last {
            assert forall|p: int| 0 <= p < pieces.len() implies pair_holds(
                labels@,
                #[trigger] pieces[p],
            ) by {
                if p == pieces.len() - 1 {
                    assert(pieces[p] == pieces.last());
                }
            }
        } else {
            assert(pieces[pieces.len() - 1] == pieces.last());
        }
    }
    last
}

} // verus!
