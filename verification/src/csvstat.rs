//! Statistics of one column, gathered in a single pass over its values.
//!
//! Whether a value reads as a finite number is decided by the caller, and so
//! are the sums and means of the numbers: this module counts, compares texts
//! and keeps the multiset of the values seen.

use vstd::prelude::*;
use vstd::multiset::Multiset;
use vstd::string::{StrSliceExecFns, StringExecFns};
use multiset::HashMultiSet;
use crate::counts::{
    counts_distinct,
    counts_insert,
    counts_new,
    counts_of,
    multiset_counts,
    multiset_keys,
    multiset_size,
    ref_texts,
};
use crate::queue::{queue_entries, queue_len, queue_new, queue_pop_min, queue_push};
use crate::csvutil::{
    csv_reader,
    enumerate_output_headers,
    ints,
    output_headers,
    resolve,
    select_column_indices,
    selector_texts,
};
use crate::error::{ColumnError, ColumnErrorView};
use crate::number::{decimal, push_decimal};
use crate::options::CsvOptions;
use crate::stat_laws::lemma_observe_all_consistent;
use crate::table::{first_record, header_of, input_has_headers, table, table_header};
use crate::text::{str_less, text_less, texts};

verus! {

/// What the options of the statistics tool ask for.
#[derive(Debug, Clone, PartialEq, Eq)]
pub struct CsvStatOptions {
    /// The selectors of the columns to describe; every column when absent.
    pub input_columns: Option<Vec<String>>,
    /// Whether the report is written as a table.
    pub csv: bool,
}

/// The statistics of one column as plain mathematical values.
pub struct StatView {
    /// The index of the column in the input, counted from 0.
    pub idx: nat,
    /// The name under which the column is reported.
    pub name: Seq<char>,
    /// The number of records seen.
    pub n: nat,
    /// The number of values that read as a finite number.
    pub n_numeric: nat,
    /// The number of records that had no value for the column.
    pub n_missing: nat,
    /// The number of values that were the empty text.
    pub n_empty: nat,
    /// The least value seen, as text; empty before the first value.
    pub min_str: Seq<char>,
    /// The greatest value seen, as text; empty before the first value.
    pub max_str: Seq<char>,
    /// The length in characters of the longest value seen.
    pub max_len: nat,
    /// The values seen, each as often as it was seen.
    pub distinct: Multiset<Seq<char>>,
}

impl StatView {
    /// The statistics of a column of which nothing has been seen.
    pub open spec fn empty(idx: nat, name: Seq<char>) -> StatView {
        StatView {
            idx,
            name,
            n: 0,
            n_numeric: 0,
            n_missing: 0,
            n_empty: 0,
            min_str: Seq::empty(),
            max_str: Seq::empty(),
            max_len: 0,
            distinct: Multiset::empty(),
        }
    }

    /// The statistics after one more record, which holds `value` for the
    /// column or nothing. `is_number` tells whether the value reads as a
    /// finite number; it means nothing for a missing value.
    pub open spec fn observe(self, value: Option<Seq<char>>, is_number: bool) -> StatView {
        match value {
            None => StatView { n: self.n + 1, n_missing: self.n_missing + 1, ..self },
            Some(v) => {
                let first = self.n == self.n_missing;
                StatView {
                    n: self.n + 1,
                    n_numeric: if is_number {
                        self.n_numeric + 1
                    } else {
                        self.n_numeric
                    },
                    n_empty: if v.len() == 0 {
                        self.n_empty + 1
                    } else {
                        self.n_empty
                    },
                    min_str: if first || text_less(v, self.min_str) {
                        v
                    } else {
                        self.min_str
                    },
                    max_str: if first || text_less(self.max_str, v) {
                        v
                    } else {
                        self.max_str
                    },
                    max_len: if v.len() > self.max_len {
                        v.len()
                    } else {
                        self.max_len
                    },
                    distinct: self.distinct.insert(v),
                    ..self
                }
            },
        }
    }

    /// The counts agree with each other: no more values are missing than
    /// records were seen, no more are numbers or empty than were present,
    /// and the multiset holds each value that was present.
    pub open spec fn consistent(self) -> bool {
        &&& self.n_missing <= self.n
        &&& self.n_numeric <= self.n - self.n_missing
        &&& self.n_empty <= self.n - self.n_missing
        &&& self.distinct.len() == self.n - self.n_missing
    }

    /// The column holds numbers: every value that was present read as a
    /// number, and there was at least one.
    pub open spec fn is_numeric(self) -> bool {
        self.n_numeric == self.n - self.n_missing && self.n_numeric > 0
    }
}

/// The statistics after the records `values`, taken in order: each is the
/// value that the record holds for the column, if any, and whether that
/// value reads as a finite number.
pub open spec fn observe_all(start: StatView, values: Seq<(Option<Seq<char>>, bool)>) -> StatView
    decreases values.len(),
{
    if values.len() == 0 {
        start
    } else {
        observe_all(start, values.drop_last()).observe(values.last().0, values.last().1)
    }
}

/// The values and counts in `top` as plain mathematical values.
pub open spec fn frequencies(top: Seq<(String, usize)>) -> Seq<(Seq<char>, nat)> {
    Seq::new(top.len(), |t: int| (top[t].0@, top[t].1 as nat))
}

/// `top` has an entry for the value `v`.
pub open spec fn is_listed(top: Seq<(Seq<char>, nat)>, v: Seq<char>) -> bool {
    exists|s: int| 0 <= s < top.len() && (#[trigger] top[s]).0 == v
}

/// `top` lists the `k` most frequent values of `counts`, or all of them if
/// there are fewer: each value once, with the number of times it occurs,
/// the rarest first. Where several values occur equally often, any of them
/// may be the one that is left out, and they may come in any order.
pub open spec fn is_top_frequent(
    counts: Multiset<Seq<char>>,
    k: nat,
    top: Seq<(Seq<char>, nat)>,
) -> bool {
    &&& top.len() == if counts.dom().len() <= k {
        counts.dom().len()
    } else {
        k
    }
    &&& forall|t: int|
        0 <= t < top.len() ==> (#[trigger] top[t]).1 == counts.count(top[t].0) && top[t].1 >= 1
    &&& forall|s: int, t: int| 0 <= s < t < top.len() ==> (#[trigger] top[s]).0 != (#[trigger] top[t]).0
    &&& forall|s: int, t: int| 0 <= s <= t < top.len() ==> (#[trigger] top[s]).1 <= (#[trigger] top[t]).1
    &&& forall|v: Seq<char>, t: int|
        #[trigger] counts.count(v) > 0 && !is_listed(top, v) && 0 <= t < top.len() ==> counts.count(
            v,
        ) <= (#[trigger] top[t]).1
}

/// A value and its count as the report shows them.
pub open spec fn frequency_text(value: Seq<char>, count: nat) -> Seq<char> {
    value + " ("@ + decimal(count) + "X)"@
}

/// Each value and its count as the report shows them.
pub open spec fn frequency_texts(top: Seq<(Seq<char>, nat)>) -> Seq<Seq<char>> {
    Seq::new(top.len(), |t: int| frequency_text(top[t].0, top[t].1))
}

/// Writes each value with its count.
pub fn render_frequencies(top: &Vec<(String, usize)>) -> (v: Vec<String>)
    ensures
        texts(v@) == frequency_texts(frequencies(top@)),
{
    let mut v: Vec<String> = Vec::new();
    let mut t: usize = 0;
    while t < top.len()
        invariant
            t <= top.len(),
            v.len() == t,
            forall|s: int| 0 <= s < t ==> v[s]@ == frequency_texts(frequencies(top@))[s],
        decreases top.len() - t,
    {
        let mut text = top[t].0.clone();
        text.append(" (");
        push_decimal(&mut text, top[t].1 as u64);
        text.append("X)");
        v.push(text);
        t = t + 1;
    }
    assert(texts(v@) == frequency_texts(frequencies(top@)));
    v
}

/// The text of an optional string.
pub open spec fn text_of(value: Option<&str>) -> Option<Seq<char>> {
    match value {
        Some(s) => Some(s@),
        None => None,
    }
}

/// The running statistics of one column.
pub struct CsvColumnStat {
    idx: usize,
    name: String,
    n: u64,
    n_numeric: u64,
    n_missing: u64,
    n_empty: u64,
    min_str: String,
    max_str: String,
    max_len: usize,
    distinct: HashMultiSet<String>,
}

impl View for CsvColumnStat {
    type V = StatView;

    closed spec fn view(&self) -> StatView {
        StatView {
            idx: self.idx as nat,
            name: self.name@,
            n: self.n as nat,
            n_numeric: self.n_numeric as nat,
            n_missing: self.n_missing as nat,
            n_empty: self.n_empty as nat,
            min_str: self.min_str@,
            max_str: self.max_str@,
            max_len: self.max_len as nat,
            distinct: multiset_counts(self.distinct),
        }
    }
}

impl CsvColumnStat {
    /// The statistics are consistent and kept as the library keeps them.
    pub closed spec fn wf(&self) -> bool {
        &&& self@.consistent()
        &&& self.n <= usize::MAX
        &&& multiset_size(self.distinct) == self.n - self.n_missing
        &&& multiset_keys(self.distinct) == multiset_counts(self.distinct).dom()
    }

    /// The statistics of column `idx`, reported as `name`, before any record.
    pub fn new(idx: usize, name: String) -> (stat: Self)
        ensures
            stat.wf(),
            stat@ == StatView::empty(idx as nat, name@),
    {
        let stat = CsvColumnStat {
            idx,
            name,
            n: 0,
            n_numeric: 0,
            n_missing: 0,
            n_empty: 0,
            min_str: String::new(),
            max_str: String::new(),
            max_len: 0,
            distinct: counts_new(),
        };
        assert(multiset_counts(stat.distinct).dom() =~= Set::<Seq<char>>::empty());
        stat
    }

    /// The `k` most frequent values with their counts, the rarest first.
    ///
    /// Every value is put into a queue ordered by count; whenever the queue
    /// holds more than `k` values, one of the lowest count leaves it. What
    /// stays is then taken out from the lowest count up.
    pub fn top_frequent(&self, k: usize) -> (top: Vec<(String, usize)>)
        requires
            self.wf(),
        ensures
            is_top_frequent(self@.distinct, k as nat, frequencies(top@)),
    {
        let values = counts_distinct(&self.distinct);
        let n = values.len();
        let ghost counts = multiset_counts(self.distinct);
        let ghost names = ref_texts(values@);
        proof {
            names.unique_seq_to_set();
        }
        let mut queue = queue_new();
        let ghost mut evicted: Set<usize> = Set::empty();
        let mut i: usize = 0;
        while i < n
            invariant
                i <= n,
                n == values.len(),
                names == ref_texts(values@),
                counts == multiset_counts(self.distinct),
                queue_entries(queue).dom().finite(),
                evicted.finite(),
                forall|j: usize| #[trigger]
                    queue_entries(queue).contains_key(j) ==> j < i && queue_entries(queue)[j]
                        == counts.count(names[j as int]),
                forall|j: usize| #[trigger]
                    evicted.contains(j) ==> j < i && !queue_entries(queue).contains_key(j),
                forall|j: usize|
                    j < i ==> #[trigger] queue_entries(queue).contains_key(j) || evicted.contains(j),
                queue_entries(queue).dom().len() + evicted.len() == i,
                queue_entries(queue).dom().len() <= k,
                evicted.len() > 0 ==> queue_entries(queue).dom().len() == k,
                forall|j: usize, m: usize|
                    #[trigger] evicted.contains(j) && #[trigger] queue_entries(queue).contains_key(m)
                        ==> counts.count(names[j as int]) <= queue_entries(queue)[m],
            decreases n - i,
        {
            let count = counts_of(&self.distinct, values[i]);
            let ghost before = queue_entries(queue);
            queue_push(&mut queue, i, count);
            assert(!before.contains_key(i));
            assert(queue_entries(queue).dom() == before.dom().insert(i));
            if queue_len(&queue) > k {
                let ghost full = queue_entries(queue);
                match queue_pop_min(&mut queue) {
                    Some((least, _)) => {
                        proof {
                            assert(queue_entries(queue).dom() == full.dom().remove(least));
                            evicted = evicted.insert(least);
                        }
                    },
                    None => {
                        assert(full.dom().contains(i));
                    },
                }
            }
            i = i + 1;
        }
        let ghost kept = queue_entries(queue);
        let mut top: Vec<(String, usize)> = Vec::new();
        let ghost mut taken: Seq<usize> = Seq::empty();
        while queue_len(&queue) > 0
            invariant
                n == values.len(),
                names == ref_texts(values@),
                taken.len() == top.len(),
                taken.no_duplicates(),
                kept.dom().finite(),
                queue_entries(queue).dom().finite(),
                forall|j: usize| #[trigger] kept.contains_key(j) ==> j < n,
                forall|t: int|
                    0 <= t < taken.len() ==> kept.contains_key(#[trigger] taken[t])
                        && !queue_entries(queue).contains_key(taken[t]) && top[t].0@
                        == names[taken[t] as int] && top[t].1 == kept[taken[t]],
                forall|j: usize| #[trigger]
                    queue_entries(queue).contains_key(j) ==> kept.contains_key(j) && kept[j]
                        == queue_entries(queue)[j],
                forall|j: usize|
                    kept.contains_key(j) ==> #[trigger] queue_entries(queue).contains_key(j)
                        || taken.contains(j),
                queue_entries(queue).dom().len() + taken.len() == kept.dom().len(),
                forall|t: int, j: usize|
                    0 <= t < taken.len() && #[trigger] queue_entries(queue).contains_key(j)
                        ==> (#[trigger] top[t]).1 <= queue_entries(queue)[j],
                forall|s: int, t: int|
                    0 <= s <= t < top.len() ==> (#[trigger] top[s]).1 <= (#[trigger] top[t]).1,
            decreases queue_entries(queue).dom().len(),
        {
            let ghost before = queue_entries(queue);
            match queue_pop_min(&mut queue) {
                Some((least, count)) => {
                    assert(queue_entries(queue).dom() == before.dom().remove(least));
                    let ghost old_taken = taken;
                    top.push((values[least].clone(), count));
                    proof {
                        taken = taken.push(least);
                        assert forall|j: usize| kept.contains_key(j) implies #[trigger] queue_entries(
                            queue,
                        ).contains_key(j) || taken.contains(j) by {
                            if j == least {
                                assert(taken[taken.len() - 1] == least);
                            } else if !before.contains_key(j) {
                                let t = choose|t: int| 0 <= t < old_taken.len() && old_taken[t] == j;
                                assert(taken[t] == j);
                            }
                        }
                    }
                },
                None => {
                    assert(before.dom().len() == 0);
                },
            }
        }
        proof {
            let result = frequencies(top@);
            assert(queue_entries(queue).dom().len() == 0);
            assert(queue_entries(queue).dom() =~= Set::<usize>::empty());
            assert(names.len() == counts.dom().len());
            assert forall|v: Seq<char>, t: int| #[trigger]
                counts.count(v) > 0 && !is_listed(result, v) && 0 <= t < result.len()
                    implies counts.count(v) <= (#[trigger] result[t]).1 by {
                assert(names.to_set().contains(v));
                let j = choose|j: int| 0 <= j < names.len() && names[j] == v;
                let ju = j as usize;
                if kept.contains_key(ju) {
                    assert(queue_entries(queue).contains_key(ju) || taken.contains(ju));
                    let s = choose|s: int| 0 <= s < taken.len() && taken[s] == ju;
                    assert(result[s].0 == v);
                } else {
                    assert(evicted.contains(ju));
                    assert(kept.contains_key(taken[t]));
                }
            }
            assert forall|t: int| 0 <= t < result.len() implies (#[trigger] result[t]).1
                == counts.count(result[t].0) && result[t].1 >= 1 by {
                assert(kept.contains_key(taken[t]));
                assert(names.to_set().contains(names[taken[t] as int]));
            }
            assert forall|s: int, t: int| 0 <= s < t < result.len() implies (#[trigger] result[s]).0
                != (#[trigger] result[t]).0 by {
                assert(taken[s] != taken[t]);
            }
        }
        top
    }

    /// The index of the column in the input, counted from 0.
    pub fn idx(&self) -> (idx: usize)
        ensures
            idx == self@.idx,
    {
        self.idx
    }

    /// The name under which the column is reported.
    pub fn name(&self) -> (name: &String)
        ensures
            name@ == self@.name,
    {
        &self.name
    }

    /// The number of records seen.
    pub fn n(&self) -> (n: u64)
        ensures
            n == self@.n,
    {
        self.n
    }

    /// The number of values that read as a finite number.
    pub fn n_numeric(&self) -> (n: u64)
        ensures
            n == self@.n_numeric,
    {
        self.n_numeric
    }

    /// The number of records that had no value for the column.
    pub fn n_missing(&self) -> (n: u64)
        ensures
            n == self@.n_missing,
    {
        self.n_missing
    }

    /// The number of values that were the empty text.
    pub fn n_empty(&self) -> (n: u64)
        ensures
            n == self@.n_empty,
    {
        self.n_empty
    }

    /// The least value seen, as text.
    pub fn min_str(&self) -> (text: &String)
        ensures
            text@ == self@.min_str,
    {
        &self.min_str
    }

    /// The greatest value seen, as text.
    pub fn max_str(&self) -> (text: &String)
        ensures
            text@ == self@.max_str,
    {
        &self.max_str
    }

    /// The length in characters of the longest value seen.
    pub fn max_len(&self) -> (len: usize)
        ensures
            len == self@.max_len,
    {
        self.max_len
    }

    /// Whether any record had no value for the column.
    pub fn nulls(&self) -> (b: bool)
        ensures
            b == (self@.n_missing > 0),
    {
        self.n_missing > 0
    }

    /// The number of different values seen.
    pub fn unique(&self) -> (count: usize)
        requires
            self.wf(),
        ensures
            count == self@.distinct.dom().len(),
    {
        let values = counts_distinct(&self.distinct);
        proof {
            ref_texts(values@).unique_seq_to_set();
        }
        values.len()
    }

    /// The number of times `value` was seen.
    pub fn count_of(&self, value: &str) -> (count: usize)
        ensures
            count == self@.distinct.count(value@),
    {
        let key = value.to_owned();
        counts_of(&self.distinct, &key)
    }

    /// Whether the column holds numbers: every value that was present read
    /// as a number, and there was at least one.
    pub fn is_numeric(&self) -> (b: bool)
        requires
            self.wf(),
        ensures
            b == self@.is_numeric(),
    {
        self.n_numeric == self.n - self.n_missing && self.n_numeric > 0
    }

    /// The kind of the column: `numeric` or `string`.
    pub fn infer_type(&self) -> (kind: String)
        requires
            self.wf(),
        ensures
            kind@ == if self@.is_numeric() {
                "numeric"@
            } else {
                "string"@
            },
    {
        if self.is_numeric() {
            "numeric".to_owned()
        } else {
            "string".to_owned()
        }
    }

    /// The greatest value of the column: `numeric_max`, the greatest number
    /// as the caller renders it, if the column holds numbers, else the
    /// greatest text.
    pub fn max(&self, numeric_max: &str) -> (text: String)
        requires
            self.wf(),
        ensures
            text@ == if self@.is_numeric() {
                numeric_max@
            } else {
                self@.max_str
            },
    {
        if self.is_numeric() {
            numeric_max.to_owned()
        } else {
            self.max_str.clone()
        }
    }

    /// The least value of the column: `numeric_min`, the least number as the
    /// caller renders it, if the column holds numbers, else the least text.
    pub fn min(&self, numeric_min: &str) -> (text: String)
        requires
            self.wf(),
        ensures
            text@ == if self@.is_numeric() {
                numeric_min@
            } else {
                self@.min_str
            },
    {
        if self.is_numeric() {
            numeric_min.to_owned()
        } else {
            self.min_str.clone()
        }
    }

    /// The 100 most frequent values, each written with its count, the rarest
    /// first.
    pub fn freq(&self) -> (v: Vec<String>)
        requires
            self.wf(),
        ensures
            exists|top: Seq<(Seq<char>, nat)>|
                is_top_frequent(self@.distinct, 100, top) && texts(v@) == #[trigger] frequency_texts(
                    top,
                ),
    {
        let top = self.top_frequent(100);
        render_frequencies(&top)
    }

    /// Well-formed statistics are consistent.
    pub proof fn lemma_wf_consistent(&self)
        requires
            self.wf(),
        ensures
            self@.consistent(),
            self@.n <= usize::MAX,
    {
    }
}

/// Takes one more record into the statistics of a column: `value` is what
/// the record holds for the column, or `None` if it holds nothing.
/// `is_number` tells whether the value reads as a finite number.
pub fn add_statistic(value: Option<&str>, is_number: bool, stat: &mut CsvColumnStat)
    requires
        old(stat).wf(),
        old(stat)@.n < usize::MAX,
    ensures
        final(stat).wf(),
        final(stat)@ == old(stat)@.observe(text_of(value), is_number),
{
    stat.n = stat.n + 1;
    match value {
        None => {
            stat.n_missing = stat.n_missing + 1;
        },
        Some(s) => {
            let first = stat.n - stat.n_missing == 1;
            if first || str_less(stat.max_str.as_str(), s) {
                stat.max_str = s.to_owned();
            }
            if first || str_less(s, stat.min_str.as_str()) {
                stat.min_str = s.to_owned();
            }
            if s.is_empty() {
                stat.n_empty = stat.n_empty + 1;
            }
            let len = s.unicode_len();
            if len > stat.max_len {
                stat.max_len = len;
            }
            if is_number {
                stat.n_numeric = stat.n_numeric + 1;
            }
            counts_insert(&mut stat.distinct, s.to_owned());
            assert(multiset_counts(stat.distinct).dom() =~= multiset_counts(old(stat).distinct).dom().insert(
                s@,
            ));
        },
    }
}

/// The texts of a record's fields.
pub open spec fn field_text(record: Seq<Seq<char>>, i: int) -> Option<Seq<char>> {
    if 0 <= i < record.len() {
        Some(record[i])
    } else {
        None
    }
}

/// Whether field `i` is marked as a number.
pub open spec fn field_is_number(is_number: Seq<bool>, i: int) -> bool {
    0 <= i < is_number.len() && is_number[i]
}

/// One statistics object for each selected column, in the order selected:
/// the one at position `j` is for column `selected_indices[j]` and is
/// reported as `names[j]`.
pub fn new_statistics(selected_indices: &Vec<usize>, names: &Vec<String>) -> (statistics: Vec<
    CsvColumnStat,
>)
    requires
        names.len() == selected_indices.len(),
    ensures
        statistics.len() == selected_indices.len(),
        forall|j: int|
            0 <= j < statistics.len() ==> (#[trigger] statistics[j]).wf() && statistics[j]@
                == StatView::empty(selected_indices[j] as nat, names[j]@),
{
    let mut statistics: Vec<CsvColumnStat> = Vec::new();
    let mut j: usize = 0;
    while j < selected_indices.len()
        invariant
            j <= selected_indices.len(),
            names.len() == selected_indices.len(),
            statistics.len() == j,
            forall|k: int|
                0 <= k < j ==> (#[trigger] statistics[k]).wf() && statistics[k]@ == StatView::empty(
                    selected_indices[k] as nat,
                    names[k]@,
                ),
        decreases selected_indices.len() - j,
    {
        statistics.push(CsvColumnStat::new(selected_indices[j], names[j].clone()));
        j = j + 1;
    }
    statistics
}

/// `after` is `before` with one more record taken in.
pub open spec fn is_updated(
    before: CsvColumnStat,
    after: CsvColumnStat,
    record: Seq<Seq<char>>,
    is_number: Seq<bool>,
) -> bool {
    &&& after.wf()
    &&& after@ == before@.observe(
        field_text(record, before@.idx as int),
        field_is_number(is_number, before@.idx as int),
    )
}

/// Every statistics object can take one more record.
pub open spec fn all_ready(statistics: Seq<CsvColumnStat>) -> bool {
    forall|j: int|
        0 <= j < statistics.len() ==> (#[trigger] statistics[j]).wf() && statistics[j]@.n
            < usize::MAX
}

/// Takes one record into the statistics of every selected column. Field `i`
/// of the record is the value of column `i`; a record too short for a column
/// has no value for it. `is_number[i]` tells whether field `i` reads as a
/// finite number.
pub fn add_record(statistics: &mut Vec<CsvColumnStat>, record: &Vec<String>, is_number: &Vec<bool>)
    requires
        all_ready(old(statistics)@),
    ensures
        final(statistics).len() == old(statistics).len(),
        forall|j: int|
            0 <= j < old(statistics).len() ==> is_updated(
                old(statistics)[j],
                #[trigger] final(statistics)[j],
                texts(record@),
                is_number@,
            ),
{
    let mut j: usize = 0;
    while j < statistics.len()
        invariant
            j <= statistics.len(),
            statistics.len() == old(statistics).len(),
            all_ready(old(statistics)@),
            forall|k: int| j <= k < statistics.len() ==> statistics[k] == old(statistics)[k],
            forall|k: int|
                0 <= k < j ==> is_updated(
                    old(statistics)[k],
                    #[trigger] statistics[k],
                    texts(record@),
                    is_number@,
                ),
        decreases statistics.len() - j,
    {
        let i = statistics[j].idx;
        let flag = i < is_number.len() && is_number[i];
        if i < record.len() {
            add_statistic(Some(record[i].as_str()), flag, &mut statistics[j]);
        } else {
            add_statistic(None, flag, &mut statistics[j]);
        }
        j = j + 1;
    }
}

/// The flags of row `r`; a row without flags has none set.
pub open spec fn row_flags(is_number: Seq<Vec<bool>>, r: int) -> Seq<bool> {
    if 0 <= r < is_number.len() {
        is_number[r]@
    } else {
        Seq::empty()
    }
}

/// What the rows from `first` on hold for column `i`, with the flag of each
/// value: one entry for each row.
pub open spec fn column_values(
    rows: Seq<Seq<Seq<char>>>,
    is_number: Seq<Vec<bool>>,
    first: int,
    i: int,
) -> Seq<(Option<Seq<char>>, bool)> {
    Seq::new(
        (rows.len() - first) as nat,
        |r: int| (field_text(rows[first + r], i), field_is_number(row_flags(is_number, first + r), i)),
    )
}

/// `stat` holds the statistics of column `i`, reported as `name`, after the
/// rows from `first` on.
pub open spec fn is_scanned(
    stat: CsvColumnStat,
    i: int,
    name: Seq<char>,
    rows: Seq<Seq<Seq<char>>>,
    is_number: Seq<Vec<bool>>,
    first: int,
) -> bool {
    &&& stat.wf()
    &&& stat@ == observe_all(
        StatView::empty(i as nat, name),
        column_values(rows, is_number, first, i),
    )
}

/// The statistics of the selected columns of a table held in memory.
///
/// `rows` holds every row of the input, the header row included if there is
/// one, and `is_number[r][i]` tells whether field `i` of row `r` reads as a
/// finite number. There is one statistics object for each selected column,
/// in the order selected, named as the output names the column; each has
/// taken in every record in order. A selector that cannot be resolved fails
/// the whole scan.
pub fn scan_table(
    options: &CsvOptions,
    stat_options: &CsvStatOptions,
    rows: &Vec<Vec<String>>,
    is_number: &Vec<Vec<bool>>,
) -> (r: Result<Vec<CsvColumnStat>, ColumnError>)
    ensures
        match r {
            Ok(statistics) => {
                let has_headers = input_has_headers(*options);
                let header = header_of(has_headers, table(rows@));
                let first = if has_headers && rows.len() > 0 {
                    1int
                } else {
                    0int
                };
                &&& resolve(header, selector_texts(stat_options.input_columns)) matches Ok(selected)
                    && statistics.len() == selected.len() && forall|j: int|
                    0 <= j < statistics.len() ==> is_scanned(
                        #[trigger] statistics[j],
                        selected[j],
                        output_headers(has_headers, header, selected)[j],
                        table(rows@),
                        is_number@,
                        first,
                    )
            },
            Err(e) => resolve(
                header_of(input_has_headers(*options), table(rows@)),
                selector_texts(stat_options.input_columns),
            ) == Err::<Seq<int>, ColumnErrorView>(e@),
        },
{
    let settings = csv_reader(options);
    let has_headers = settings.has_headers;
    let header = table_header(options, rows);
    let selected = match select_column_indices(&header, &stat_options.input_columns) {
        Ok(selected) => selected,
        Err(e) => { return Err(e); },
    };
    let ghost all = table(rows@);
    let ghost out_names = output_headers(has_headers, header@, ints(selected@));
    let names = enumerate_output_headers(has_headers, header, &selected);
    assert(texts(names@).len() == out_names.len());
    assert(forall|j: int| 0 <= j < names.len() ==> names[j]@ == texts(names@)[j]);
    let mut statistics = new_statistics(&selected, &names);
    let first = first_record(options, rows);
    let no_flags: Vec<bool> = Vec::new();
    assert forall|j: int| 0 <= j < statistics.len() implies is_scanned(
        #[trigger] statistics[j],
        ints(selected@)[j],
        out_names[j],
        all.take(first as int),
        is_number@,
        first as int,
    ) by {
        assert(column_values(all.take(first as int), is_number@, first as int, ints(selected@)[j])
            == Seq::<(Option<Seq<char>>, bool)>::empty());
    }
    let mut r: usize = first;
    while r < rows.len()
        invariant
            first <= r <= rows.len(),
            all == table(rows@),
            statistics.len() == selected.len(),
            out_names.len() == selected.len(),
            no_flags@ == Seq::<bool>::empty(),
            forall|j: int|
                0 <= j < statistics.len() ==> is_scanned(
                    #[trigger] statistics[j],
                    ints(selected@)[j],
                    out_names[j],
                    all.take(r as int),
                    is_number@,
                    first as int,
                ),
        decreases rows.len() - r,
    {
        let ghost before = statistics@;
        let flags = if r < is_number.len() {
            &is_number[r]
        } else {
            &no_flags
        };
        assert(flags@ == row_flags(is_number@, r as int));
        assert forall|j: int| 0 <= j < before.len() implies (#[trigger] before[j]).wf()
            && before[j]@.n < usize::MAX by {
            lemma_observe_all_consistent(
                ints(selected@)[j] as nat,
                out_names[j],
                column_values(all.take(r as int), is_number@, first as int, ints(selected@)[j]),
            );
        }
        add_record(&mut statistics, &rows[r], flags);
        assert forall|j: int| 0 <= j < statistics.len() implies is_scanned(
            #[trigger] statistics[j],
            ints(selected@)[j],
            out_names[j],
            all.take(r + 1),
            is_number@,
            first as int,
        ) by {
            let i = ints(selected@)[j];
            let done = column_values(all.take(r as int), is_number@, first as int, i);
            let next = column_values(all.take(r + 1), is_number@, first as int, i);
            lemma_observe_all_consistent(i as nat, out_names[j], done);
            assert(is_updated(before[j], statistics[j], texts(rows[r as int]@), flags@));
            assert(next.drop_last() == done);
            assert(next.last() == (
                field_text(all[r as int], i),
                field_is_number(row_flags(is_number@, r as int), i),
            ));
        }
        r = r + 1;
    }
    assert(all.take(r as int) == all);
    Ok(statistics)
}

} // verus!
