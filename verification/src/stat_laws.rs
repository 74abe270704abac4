//! What holds of the statistics of a column after any run of records.

use vstd::prelude::*;
use vstd::multiset::Multiset;
use crate::csvstat::{
    frequency_text,
    frequency_texts,
    is_top_frequent,
    observe_all,
    StatView,
};
use crate::text::{lemma_text_less_total, lemma_text_less_transitive, text_less};

verus! {

/// Consistent statistics stay consistent when a record is taken in.
pub proof fn lemma_observe_consistent(stat: StatView, value: Option<Seq<char>>, is_number: bool)
    requires
        stat.consistent(),
    ensures
        stat.observe(value, is_number).consistent(),
{
}

/// The statistics of a column are consistent after any run of records: no
/// more values are missing than records were seen, no more are numbers than
/// were present, and the multiset holds as many values as were present.
pub proof fn lemma_observe_all_consistent(
    idx: nat,
    name: Seq<char>,
    values: Seq<(Option<Seq<char>>, bool)>,
)
    ensures
        observe_all(StatView::empty(idx, name), values).consistent(),
        observe_all(StatView::empty(idx, name), values).n == values.len(),
        observe_all(StatView::empty(idx, name), values).idx == idx,
        observe_all(StatView::empty(idx, name), values).name == name,
    decreases values.len(),
{
    if values.len() > 0 {
        lemma_observe_all_consistent(idx, name, values.drop_last());
    }
}

/// The number of records in `values` that hold a value.
pub open spec fn present(values: Seq<(Option<Seq<char>>, bool)>) -> nat
    decreases values.len(),
{
    if values.len() == 0 {
        0
    } else {
        present(values.drop_last()) + if values.last().0 is Some {
            1nat
        } else {
            0nat
        }
    }
}

/// The statistics count the values that are present, and among them those
/// that are numbers.
proof fn lemma_observe_all_counts(idx: nat, name: Seq<char>, values: Seq<(Option<Seq<char>>, bool)>)
    ensures
        ({
            let stat = observe_all(StatView::empty(idx, name), values);
            &&& stat.n - stat.n_missing == present(values)
            &&& stat.n_numeric <= present(values)
            &&& stat.n_numeric == present(values) <==> forall|i: int|
                0 <= i < values.len() && (#[trigger] values[i]).0 is Some ==> values[i].1
        }),
    decreases values.len(),
{
    if values.len() > 0 {
        let before = values.drop_last();
        lemma_observe_all_counts(idx, name, before);
        let stat = observe_all(StatView::empty(idx, name), values);
        let all_numbers = forall|i: int|
            0 <= i < values.len() && (#[trigger] values[i]).0 is Some ==> values[i].1;
        let all_numbers_before = forall|i: int|
            0 <= i < before.len() && (#[trigger] before[i]).0 is Some ==> before[i].1;
        assert(forall|i: int| 0 <= i < before.len() ==> before[i] == values[i]);
        if all_numbers {
            assert(all_numbers_before) by {
                assert forall|i: int| 0 <= i < before.len() && (#[trigger] before[i]).0 is Some
                    implies before[i].1 by {
                    assert(values[i].0 is Some);
                }
            }
            assert(values[values.len() - 1].0 is Some ==> values.last().1);
        }
        if stat.n_numeric == present(values) {
            assert(all_numbers) by {
                assert forall|i: int| 0 <= i < values.len() && (#[trigger] values[i]).0 is Some
                    implies values[i].1 by {
                    if i < before.len() {
                        assert(before[i].0 is Some);
                    }
                }
            }
        }
    }
}

/// A column holds numbers exactly when at least one record holds a value for
/// it and every value that is present reads as a number.
pub proof fn lemma_classification(idx: nat, name: Seq<char>, values: Seq<(Option<Seq<char>>, bool)>)
    ensures
        observe_all(StatView::empty(idx, name), values).is_numeric() <==> (exists|i: int|
            0 <= i < values.len() && (#[trigger] values[i]).0 is Some) && (forall|i: int|
            0 <= i < values.len() && (#[trigger] values[i]).0 is Some ==> values[i].1),
{
    lemma_observe_all_counts(idx, name, values);
    lemma_present_positive(values);
}

/// Some record holds a value exactly when the number of such records is not 0.
proof fn lemma_present_positive(values: Seq<(Option<Seq<char>>, bool)>)
    ensures
        present(values) > 0 <==> exists|i: int|
            0 <= i < values.len() && (#[trigger] values[i]).0 is Some,
    decreases values.len(),
{
    if values.len() > 0 {
        let before = values.drop_last();
        lemma_present_positive(before);
        assert(forall|i: int| 0 <= i < before.len() ==> before[i] == values[i]);
        if present(values) > 0 {
            if values.last().0 is Some {
                assert(values[values.len() - 1].0 is Some);
            } else {
                let i = choose|i: int| 0 <= i < before.len() && (#[trigger] before[i]).0 is Some;
                assert(values[i].0 is Some);
            }
        }
        if exists|i: int| 0 <= i < values.len() && (#[trigger] values[i]).0 is Some {
            let i = choose|i: int| 0 <= i < values.len() && (#[trigger] values[i]).0 is Some;
            if i < before.len() {
                assert(before[i].0 is Some);
            }
        }
    }
}

/// One value that does not read as a number makes the column a column of
/// text, whose least and greatest value are that value.
pub proof fn lemma_single_text_value(idx: nat, name: Seq<char>, value: Seq<char>)
    ensures
        !StatView::empty(idx, name).observe(Some(value), false).is_numeric(),
        StatView::empty(idx, name).observe(Some(value), false).min_str == value,
        StatView::empty(idx, name).observe(Some(value), false).max_str == value,
{
}

/// After any run of records, no value that was present comes before the
/// least text or after the greatest, and both are values that were present.
pub proof fn lemma_extremes(idx: nat, name: Seq<char>, values: Seq<(Option<Seq<char>>, bool)>)
    ensures
        ({
            let stat = observe_all(StatView::empty(idx, name), values);
            &&& forall|i: int|
                0 <= i < values.len() && (#[trigger] values[i]).0 is Some ==> !text_less(
                    values[i].0->0,
                    stat.min_str,
                ) && !text_less(stat.max_str, values[i].0->0)
            &&& stat.n > stat.n_missing ==> exists|i: int|
                0 <= i < values.len() && (#[trigger] values[i]).0 == Some(stat.min_str)
            &&& stat.n > stat.n_missing ==> exists|i: int|
                0 <= i < values.len() && (#[trigger] values[i]).0 == Some(stat.max_str)
        }),
    decreases values.len(),
{
    if values.len() > 0 {
        let before = values.drop_last();
        let last = values.len() - 1;
        lemma_extremes(idx, name, before);
        let old = observe_all(StatView::empty(idx, name), before);
        let stat = observe_all(StatView::empty(idx, name), values);
        assert(forall|i: int| 0 <= i < before.len() ==> before[i] == values[i]);
        match values.last().0 {
            None => {
                assert(stat.min_str == old.min_str && stat.max_str == old.max_str);
                if stat.n > stat.n_missing {
                    let i = choose|i: int|
                        0 <= i < before.len() && (#[trigger] before[i]).0 == Some(old.min_str);
                    assert(values[i].0 == Some(stat.min_str));
                    let j = choose|j: int|
                        0 <= j < before.len() && (#[trigger] before[j]).0 == Some(old.max_str);
                    assert(values[j].0 == Some(stat.max_str));
                }
                assert forall|i: int| 0 <= i < values.len() && (#[trigger] values[i]).0 is Some
                    implies !text_less(values[i].0->0, stat.min_str) && !text_less(
                    stat.max_str,
                    values[i].0->0,
                ) by {
                    assert(before[i].0 is Some);
                }
            },
            Some(v) => {
                lemma_observe_all_consistent(idx, name, before);
                lemma_text_less_total(v, old.min_str);
                lemma_text_less_total(v, old.max_str);
                lemma_text_less_total(v, v);
                assert forall|i: int| 0 <= i < values.len() && (#[trigger] values[i]).0 is Some
                    implies !text_less(values[i].0->0, stat.min_str) && !text_less(
                    stat.max_str,
                    values[i].0->0,
                ) by {
                    if i < last {
                        let w = values[i].0->0;
                        assert(before[i].0 is Some);
                        assert(old.n > old.n_missing) by {
                            lemma_observe_all_counts(idx, name, before);
                            lemma_present_positive(before);
                        }
                        if text_less(w, stat.min_str) {
                            lemma_text_less_transitive(w, v, old.min_str);
                        }
                        if text_less(stat.max_str, w) {
                            lemma_text_less_transitive(old.max_str, v, w);
                        }
                    }
                }
                if stat.min_str == v {
                    assert(values[last].0 == Some(stat.min_str));
                } else {
                    let i = choose|i: int|
                        0 <= i < before.len() && (#[trigger] before[i]).0 == Some(old.min_str);
                    assert(values[i].0 == Some(stat.min_str));
                }
                if stat.max_str == v {
                    assert(values[last].0 == Some(stat.max_str));
                } else {
                    let j = choose|j: int|
                        0 <= j < before.len() && (#[trigger] before[j]).0 == Some(old.max_str);
                    assert(values[j].0 == Some(stat.max_str));
                }
            },
        }
    }
}

/// `count` records that all hold `value`.
pub open spec fn repeated(value: Seq<char>, is_number: bool, count: nat) -> Seq<
    (Option<Seq<char>>, bool),
> {
    Seq::new(count, |i: int| (Some(value), is_number))
}

/// After the same value was seen `count` times and nothing else, the
/// multiset holds that value `count` times and no other.
pub proof fn lemma_repeated_value(
    idx: nat,
    name: Seq<char>,
    value: Seq<char>,
    is_number: bool,
    count: nat,
)
    ensures
        observe_all(StatView::empty(idx, name), repeated(value, is_number, count)).distinct.count(
            value,
        ) == count,
        forall|other: Seq<char>|
            other != value ==> observe_all(
                StatView::empty(idx, name),
                repeated(value, is_number, count),
            ).distinct.count(other) == 0,
        count > 0 ==> observe_all(
            StatView::empty(idx, name),
            repeated(value, is_number, count),
        ).distinct.dom().len() == 1,
    decreases count,
{
    let values = repeated(value, is_number, count);
    let stat = observe_all(StatView::empty(idx, name), values);
    if count > 0 {
        lemma_repeated_value(idx, name, value, is_number, (count - 1) as nat);
        assert(values.drop_last() == repeated(value, is_number, (count - 1) as nat));
        assert(stat.distinct.dom() =~= set![value]);
    }
}

/// Of a multiset that holds one value `count` times and no other, the list
/// of the most frequent values has one entry: that value with `count`.
pub proof fn lemma_top_of_one_value(
    counts: Multiset<Seq<char>>,
    value: Seq<char>,
    count: nat,
    k: nat,
    top: Seq<(Seq<char>, nat)>,
)
    requires
        count > 0,
        k > 0,
        counts.count(value) == count,
        forall|other: Seq<char>| other != value ==> counts.count(other) == 0,
        is_top_frequent(counts, k, top),
    ensures
        top == seq![(value, count)],
        frequency_texts(top) == seq![frequency_text(value, count)],
{
    assert(counts.dom() =~= set![value]);
    assert(top.len() == 1);
    assert(top[0].1 == counts.count(top[0].0));
    assert(top[0].0 == value);
    assert(top =~= seq![(value, count)]);
    assert(frequency_texts(top) =~= seq![frequency_text(value, count)]);
}

} // verus!
