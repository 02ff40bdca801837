use vstd::prelude::*;
use crate::text::{chars_of, compare_chars,
    lemma_seq_lt_total, lemma_seq_lt_transitive, seq_lt};

verus! {

/// Strictly increasing: sorted, nothing twice.
pub open spec fn increasing_days(s: Seq<i64>) -> bool {
    forall|i: int, j: int| 0 <= i < j < s.len() ==> s[i] < s[j]
}

/// Adds `d` to a strictly increasing list unless it is already there.
pub fn insert_day(days: &mut Vec<i64>, d: i64)
    requires
        increasing_days(old(days)@),
    ensures
        increasing_days(final(days)@),
        forall|x: i64| final(days)@.contains(x) <==> (old(days)@.contains(x) || x == d),
{
    let ghost before = days@;
    let mut p: usize = 0;
    while p < days.len() && days[p] < d
        invariant
            p <= days@.len(),
            days@ == before,
            increasing_days(before),
            forall|k: int| 0 <= k < p ==> #[trigger] before[k] < d,
        decreases days@.len() - p,
    {
        p += 1;
    }
    if p < days.len() && days[p] == d {
        assert(before.contains(d));
        return;
    }
    days.insert(p, d);
    proof {
        let after = days@;
        assert(after == before.insert(p as int, d));
        assert forall|i: int, j: int| 0 <= i < j < after.len() implies after[i] < after[j] by {
            if j < p {
            } else if i < p && j == p {
            } else if i < p {
                assert(after[j] == before[j - 1]);
            } else if i == p {
                assert(after[j] == before[j - 1]);
                assert(before[p as int] > d);
                if j - 1 > p {
                    assert(before[p as int] < before[j - 1]);
                }
            } else {
                assert(after[i] == before[i - 1]);
                assert(after[j] == before[j - 1]);
            }
        }
        assert forall|x: i64| after.contains(x) <==> (before.contains(x) || x == d) by {
            if after.contains(x) {
                let k = choose|k: int| 0 <= k < after.len() && after[k] == x;
                if k < p {
                    assert(before[k] == x);
                } else if k > p {
                    assert(before[k - 1] == x);
                }
            }
            if before.contains(x) {
                let k = choose|k: int| 0 <= k < before.len() && before[k] == x;
                if k < p {
                    assert(after[k] == x);
                } else {
                    assert(after[k + 1] == x);
                }
            }
            if x == d {
                assert(after[p as int] == d);
            }
        }
    }
}

/// Strictly increasing by the string order: sorted, nothing twice.
pub open spec fn increasing_texts(s: Seq<String>) -> bool {
    forall|i: int, j: int| 0 <= i < j < s.len() ==> seq_lt(#[trigger] s[i]@, #[trigger] s[j]@)
}

/// Some item has exactly the text `t`.
pub open spec fn has_text(s: Seq<String>, t: Seq<char>) -> bool {
    exists|i: int| 0 <= i < s.len() && #[trigger] s[i]@ == t
}

/// Adds `t` to a strictly increasing list of texts unless it is already
/// there.
pub fn insert_text(items: &mut Vec<String>, t: String)
    requires
        increasing_texts(old(items)@),
    ensures
        increasing_texts(final(items)@),
        forall|x: Seq<char>| has_text(final(items)@, x) <==> (has_text(old(items)@, x) || x == t@),
{
    let ghost before = items@;
    let tc = chars_of(t.as_str());
    let mut p: usize = 0;
    let mut c: i8 = 1;
    while p < items.len()
        invariant
            p <= items@.len(),
            items@ == before,
            tc@ == t@,
            increasing_texts(before),
            forall|k: int| 0 <= k < p ==> seq_lt(#[trigger] before[k]@, t@),
        ensures
            p <= items@.len(),
            items@ == before,
            forall|k: int| 0 <= k < p ==> seq_lt(#[trigger] before[k]@, t@),
            p < before.len() ==> !seq_lt(before[p as int]@, t@),
        decreases items@.len() - p,
    {
        let ic = chars_of(items[p].as_str());
        c = compare_chars(&ic, &tc);
        if c >= 0 {
            break;
        }
        p += 1;
    }
    if p < items.len() {
        let ic = chars_of(items[p].as_str());
        if compare_chars(&ic, &tc) == 0 {
            assert(before[p as int]@ == t@);
            return;
        }
    }
    let ghost tv = t@;
    items.insert(p, t);
    proof {
        let after = items@;
        assert(after == before.insert(p as int, after[p as int]));
        assert(after[p as int]@ == tv);
        if p < before.len() {
            assert(!seq_lt(before[p as int]@, tv));
            assert(before[p as int]@ != tv);
            lemma_seq_lt_total(before[p as int]@, tv);
            assert(seq_lt(tv, before[p as int]@));
        }
        assert forall|i: int, j: int| 0 <= i < j < after.len() implies seq_lt(#[trigger] after[i]@, #[trigger] after[j]@) by {
            if j < p {
                assert(after[i] == before[i]);
                assert(after[j] == before[j]);
            } else if i < p && j == p {
                assert(after[i] == before[i]);
            } else if i < p {
                assert(after[i] == before[i]);
                assert(after[j] == before[j - 1]);
            } else if i == p {
                assert(after[j] == before[j - 1]);
                if j - 1 > p {
                    assert(seq_lt(before[p as int]@, before[j - 1]@));
                    lemma_seq_lt_transitive(tv, before[p as int]@, before[j - 1]@);
                }
            } else {
                assert(after[i] == before[i - 1]);
                assert(after[j] == before[j - 1]);
            }
        }
        assert forall|x: Seq<char>| has_text(after, x) <==> (has_text(before, x) || x == tv) by {
            if has_text(after, x) {
                let k = choose|k: int| 0 <= k < after.len() && #[trigger] after[k]@ == x;
                if k < p {
                    assert(before[k]@ == x);
                } else if k > p {
                    assert(before[k - 1]@ == x);
                }
            }
            if has_text(before, x) {
                let k = choose|k: int| 0 <= k < before.len() && #[trigger] before[k]@ == x;
                if k < p {
                    assert(after[k]@ == x);
                } else {
                    assert(after[k + 1]@ == x);
                }
            }
            if x == tv {
                assert(after[p as int]@ == x);
            }
        }
    }
}

} // verus!
