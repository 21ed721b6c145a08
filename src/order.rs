use vstd::multiset::Multiset;
use vstd::prelude::*;

use crate::series::DailyRecord;

verus! {

broadcast use vstd::seq_lib::group_to_multiset_ensures, vstd::seq_lib::to_multiset_insert,
    vstd::multiset::group_multiset_axioms;

/// Lexicographic order on texts by character code. For dates written as
/// year-month-day with fixed-width fields it is chronological order.
pub open spec fn text_le(a: Seq<char>, b: Seq<char>) -> bool
    decreases a.len(),
{
    if a.len() == 0 {
        true
    } else if b.len() == 0 {
        false
    } else if (a[0] as u32) != (b[0] as u32) {
        (a[0] as u32) < (b[0] as u32)
    } else {
        text_le(a.drop_first(), b.drop_first())
    }
}

proof fn lemma_text_le_total(a: Seq<char>, b: Seq<char>)
    ensures
        text_le(a, b) || text_le(b, a),
    decreases a.len(),
{
    if a.len() > 0 && b.len() > 0 && (a[0] as u32) == (b[0] as u32) {
        lemma_text_le_total(a.drop_first(), b.drop_first());
    }
}

proof fn lemma_text_le_transitive(a: Seq<char>, b: Seq<char>, c: Seq<char>)
    requires
        text_le(a, b),
        text_le(b, c),
    ensures
        text_le(a, c),
    decreases a.len(),
{
    if a.len() > 0 && (a[0] as u32) == (b[0] as u32) && (b[0] as u32) == (c[0] as u32) {
        lemma_text_le_transitive(a.drop_first(), b.drop_first(), c.drop_first());
    }
}

/// Compares two date texts in the order of `text_le`.
pub fn date_le(a: &str, b: &str) -> (r: bool)
    ensures
        r == text_le(a@, b@),
{
    let na = a.unicode_len();
    let nb = b.unicode_len();
    let mut i: usize = 0;
    assert(a@.subrange(0, na as int) =~= a@);
    assert(b@.subrange(0, nb as int) =~= b@);
    while i < na && i < nb && (a.get_char(i) as u32) == (b.get_char(i) as u32)
        invariant
            na == a@.len(),
            nb == b@.len(),
            i <= na,
            i <= nb,
            text_le(a@, b@) == text_le(
                a@.subrange(i as int, na as int),
                b@.subrange(i as int, nb as int),
            ),
        decreases na - i,
    {
        assert(a@.subrange(i as int, na as int).drop_first() =~= a@.subrange(
            i + 1,
            na as int,
        ));
        assert(b@.subrange(i as int, nb as int).drop_first() =~= b@.subrange(
            i + 1,
            nb as int,
        ));
        i = i + 1;
    }
    if i == na {
        true
    } else if i == nb {
        false
    } else {
        (a.get_char(i) as u32) < (b.get_char(i) as u32)
    }
}

/// The entries in `text_le` order of their dates; the same entries, each as
/// often as before.
pub fn sort_by_date(entries: Vec<(String, DailyRecord)>) -> (r: Vec<(String, DailyRecord)>)
    ensures
        r@.to_multiset() == entries@.to_multiset(),
        forall|i: int, j: int|
            0 <= i < j < r@.len() ==> text_le((#[trigger] r@[i]).0@, (#[trigger] r@[j]).0@),
{
    let mut rest = entries;
    let mut sorted: Vec<(String, DailyRecord)> = Vec::new();
    loop
        invariant
            sorted@.to_multiset().add(rest@.to_multiset()) == entries@.to_multiset(),
            forall|i: int, j: int|
                0 <= i < j < sorted@.len() ==> text_le(
                    (#[trigger] sorted@[i]).0@,
                    (#[trigger] sorted@[j]).0@,
                ),
        ensures
            sorted@.to_multiset() == entries@.to_multiset(),
        decreases rest@.len(),
    {
        let ghost before = rest@;
        match rest.pop() {
            None => {
                assert(rest@.to_multiset() =~= Multiset::empty());
                assert(sorted@.to_multiset().add(Multiset::empty()) =~= sorted@.to_multiset());
                break;
            },
            Some(x) => {
                assert(before == rest@.push(x));
                let mut p: usize = 0;
                while p < sorted.len() && !date_le(x.0.as_str(), sorted[p].0.as_str())
                    invariant
                        p <= sorted@.len(),
                        forall|k: int| 0 <= k < p ==> text_le((#[trigger] sorted@[k]).0@, x.0@),
                    decreases sorted@.len() - p,
                {
                    proof {
                        lemma_text_le_total(x.0@, sorted@[p as int].0@);
                    }
                    p = p + 1;
                }
                let ghost old_sorted = sorted@;
                proof {
                    if p < sorted@.len() {
                        assert forall|j: int| p <= j < old_sorted.len() implies text_le(
                            x.0@,
                            (#[trigger] old_sorted[j]).0@,
                        ) by {
                            if j > p {
                                lemma_text_le_transitive(
                                    x.0@,
                                    old_sorted[p as int].0@,
                                    old_sorted[j].0@,
                                );
                            }
                        }
                    }
                }
                sorted.insert(p, x);
                proof {
                    old_sorted.insert_ensures(p as int, x);
                }
                assert forall|i: int, j: int| 0 <= i < j < sorted@.len() implies text_le(
                    (#[trigger] sorted@[i]).0@,
                    (#[trigger] sorted@[j]).0@,
                ) by {
                    if j < p {
                        assert(sorted@[i] == old_sorted[i]);
                        assert(sorted@[j] == old_sorted[j]);
                    } else if i < p && j == p {
                    } else if i < p && j > p {
                        assert(sorted@[i] == old_sorted[i]);
                        assert(sorted@[j] == old_sorted[j - 1]);
                    } else if i == p {
                        assert(sorted@[j] == old_sorted[j - 1]);
                    } else {
                        assert(sorted@[i] == old_sorted[i - 1]);
                        assert(sorted@[j] == old_sorted[j - 1]);
                    }
                }
                assert(sorted@.to_multiset().add(rest@.to_multiset()) =~= entries@.to_multiset());
            },
        }
    }
    sorted
}

} // verus!
