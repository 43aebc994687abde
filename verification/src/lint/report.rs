//! The results of one file, grouped by item kind and by item name, each in
//! the order in which it first came up.

use indexmap::IndexMap;
use vstd::prelude::*;

use crate::lint::{LintItem, LintLevel, LintResult};

verus! {

/// A result as the contracts see it: item kind, item name, level, message.
pub type ResultView = (LintItem, Seq<char>, LintLevel, Seq<char>);

/// What is said about one item, in order: levels and messages.
pub type MessagesView = Seq<(LintLevel, Seq<char>)>;

/// The items of one kind, in first-seen order, each with what is said
/// about it.
pub type GroupView = Seq<(Seq<char>, MessagesView)>;

/// The item kinds, in first-seen order, each with its items.
pub type ReportView = Seq<(LintItem, GroupView)>;

/// `indexmap::IndexMap`, a hash map that keeps its entries in the order in
/// which their keys were first inserted. Nothing of its inside is known
/// here; what a map holds is told by `group_entries` and `report_entries`.
#[verifier::external_type_specification]
#[verifier::external_body]
#[verifier::reject_recursive_types(K)]
#[verifier::reject_recursive_types(V)]
#[verifier::reject_recursive_types(S)]
pub struct ExIndexMap<K, V, S>(IndexMap<K, V, S>);

/// The entries of a map from item names to messages, in the map's order.
pub uninterp spec fn group_entries(group: IndexMap<String, Vec<(LintLevel, LintResult)>>) -> Seq<(Seq<char>, Seq<(LintLevel, Seq<char>)>)>;

/// The entries of a map from item kinds to groups, in the map's order.
pub uninterp spec fn report_entries(report: IndexMap<LintItem, IndexMap<String, Vec<(LintLevel, LintResult)>>>) -> Seq<(LintItem, Seq<(Seq<char>, Seq<(LintLevel, Seq<char>)>)>)>;

/// Levels and messages as the contracts see them.
pub open spec fn messages_view(messages: Seq<(LintLevel, LintResult)>) -> MessagesView {
    messages.map_values(|m: (LintLevel, LintResult)| (m.0, m.1.message@))
}

/// The first position at which a key stands among the entries, or the
/// number of entries where it stands nowhere.
pub open spec fn index_of<K, V>(entries: Seq<(K, V)>, key: K) -> int
    decreases entries.len(),
{
    if entries.len() == 0 {
        0
    } else {
        let before = index_of(entries.drop_last(), key);
        if before < entries.len() - 1 {
            before
        } else if entries.last().0 == key {
            entries.len() - 1
        } else {
            entries.len() as int
        }
    }
}

/// The value that stands with a key, if the key stands anywhere.
pub open spec fn lookup<K, V>(entries: Seq<(K, V)>, key: K) -> Option<V> {
    if index_of(entries, key) < entries.len() {
        Some(entries[index_of(entries, key)].1)
    } else {
        None
    }
}

/// The value that stands with a key, or `absent` where the key stands
/// nowhere.
pub open spec fn value_at<K, V>(entries: Seq<(K, V)>, key: K, absent: V) -> V {
    match lookup(entries, key) {
        Some(value) => value,
        None => absent,
    }
}

/// The entries after a key is given a value: a key that is there keeps its
/// place, a new one goes last.
pub open spec fn put<K, V>(entries: Seq<(K, V)>, key: K, value: V) -> Seq<(K, V)> {
    if index_of(entries, key) < entries.len() {
        entries.update(index_of(entries, key), (key, value))
    } else {
        entries.push((key, value))
    }
}

/// No key stands twice among the entries.
pub open spec fn distinct_keys<K, V>(entries: Seq<(K, V)>) -> bool {
    forall|i: int, j: int|
        0 <= i < j < entries.len() ==> (#[trigger] entries[i]).0 != (#[trigger] entries[j]).0
}

/// `index_of` gives the first position of the key, and the number of
/// entries exactly where no entry has the key.
pub proof fn lemma_index_of<K, V>(entries: Seq<(K, V)>, key: K)
    ensures
        0 <= index_of(entries, key) <= entries.len(),
        index_of(entries, key) < entries.len() ==> entries[index_of(entries, key)].0 == key,
        forall|j: int| 0 <= j < index_of(entries, key) ==> (#[trigger] entries[j]).0 != key,
    decreases entries.len(),
{
    if entries.len() > 0 {
        lemma_index_of(entries.drop_last(), key);
        let before = index_of(entries.drop_last(), key);
        assert forall|j: int| 0 <= j < index_of(entries, key) implies (#[trigger] entries[j]).0
            != key by {
            if j < entries.len() - 1 {
                assert(entries.drop_last()[j] == entries[j]);
            }
        }
        if before < entries.len() - 1 {
            assert(entries.drop_last()[before] == entries[before]);
        }
    }
}

/// The position of a key is the one place that has the key and nothing with
/// the key before it.
pub proof fn lemma_index_of_first<K, V>(entries: Seq<(K, V)>, key: K, i: int)
    requires
        0 <= i < entries.len(),
        entries[i].0 == key,
        forall|j: int| 0 <= j < i ==> (#[trigger] entries[j]).0 != key,
    ensures
        index_of(entries, key) == i,
{
    lemma_index_of(entries, key);
    let found = index_of(entries, key);
    if found < i {
        assert(entries[found].0 == key);
    } else if found > i {
        assert(entries[i].0 == key);
    }
}

/// Giving a key a value twice leaves what the second value alone would.
pub proof fn lemma_put_twice<K, V>(entries: Seq<(K, V)>, key: K, first: V, second: V)
    ensures
        put(put(entries, key, first), key, second) == put(entries, key, second),
{
    lemma_index_of(entries, key);
    let i = index_of(entries, key);
    let once = put(entries, key, first);
    if i < entries.len() {
        lemma_index_of_first(once, key, i);
        assert(once.update(i, (key, second)) =~= entries.update(i, (key, second)));
    } else {
        assert(once.drop_last() =~= entries);
        assert(index_of(once, key) == entries.len());
        assert(once.update(i, (key, second)) =~= entries.push((key, second)));
    }
}

/// Giving a key a value keeps the keys distinct, keeps every entry that was
/// there in its place, and leaves the value with the key.
pub proof fn lemma_put_keeps_order<K, V>(entries: Seq<(K, V)>, key: K, value: V)
    requires
        distinct_keys(entries),
    ensures
        distinct_keys(put(entries, key, value)),
        put(entries, key, value).len() >= entries.len(),
        forall|i: int|
            0 <= i < entries.len() ==> (#[trigger] put(entries, key, value)[i]).0 == entries[i].0,
        forall|i: int|
            0 <= i < entries.len() && entries[i].0 != key ==> #[trigger] put(entries, key, value)[i]
                == entries[i],
        value_at(put(entries, key, value), key, value) == value,
{
    lemma_index_of(entries, key);
    let i = index_of(entries, key);
    let after = put(entries, key, value);
    if i < entries.len() {
        lemma_index_of_first(after, key, i);
    } else {
        assert(after.drop_last() =~= entries);
        assert forall|a: int, b: int| 0 <= a < b < after.len() implies (#[trigger] after[a]).0 != (
        #[trigger] after[b]).0 by {
            if b == entries.len() {
                assert(entries[a].0 != key);
            }
        }
    }
}

/// `IndexMap::new` for a group. Trusted: the new map has no entries.
#[verifier::external_body]
fn group_new() -> (group: IndexMap<String, Vec<(LintLevel, LintResult)>>)
    ensures
        group_entries(group) == Seq::<(Seq<char>, MessagesView)>::empty(),
{
    IndexMap::new()
}

/// `IndexMap::insert` on a group. Trusted: a name that the map holds keeps
/// its place, takes the new messages and hands the old ones back; a name
/// that it does not hold goes last, and nothing is handed back. Names are
/// the same where they are the same string.
#[verifier::external_body]
fn group_insert(
    group: &mut IndexMap<String, Vec<(LintLevel, LintResult)>>,
    name: String,
    messages: Vec<(LintLevel, LintResult)>,
) -> (prior: Option<Vec<(LintLevel, LintResult)>>)
    ensures
        group_entries(*final(group)) == put(
            group_entries(*old(group)),
            name@,
            messages_view(messages@),
        ),
        lookup(group_entries(*old(group)), name@) == match prior {
            Some(before) => Some(messages_view(before@)),
            None => None,
        },
{
    group.insert(name, messages)
}

/// `IndexMap::new` for a report. Trusted: the new map has no entries.
#[verifier::external_body]
fn report_new() -> (report: IndexMap<LintItem, IndexMap<String, Vec<(LintLevel, LintResult)>>>)
    ensures
        report_entries(report) == Seq::<(LintItem, GroupView)>::empty(),
{
    IndexMap::new()
}

/// `IndexMap::insert` on a report. Trusted: an item kind that the map holds
/// keeps its place, takes the new group and hands the old one back; a kind
/// that it does not hold goes last, and nothing is handed back. The map
/// tells kinds apart by the `Eq` and `Hash` that `LintItem` derives.
#[verifier::external_body]
fn report_insert(
    report: &mut IndexMap<LintItem, IndexMap<String, Vec<(LintLevel, LintResult)>>>,
    ty: LintItem,
    group: IndexMap<String, Vec<(LintLevel, LintResult)>>,
) -> (prior: Option<IndexMap<String, Vec<(LintLevel, LintResult)>>>)
    ensures
        report_entries(*final(report)) == put(
            report_entries(*old(report)),
            ty,
            group_entries(group),
        ),
        lookup(report_entries(*old(report)), ty) == match prior {
            Some(before) => Some(group_entries(before)),
            None => None,
        },
{
    report.insert(ty, group)
}

/// The report after one more result: the result's message goes last among
/// those of its item, the item last in its kind if it is new there, the
/// kind last in the report if it is new.
pub open spec fn recorded(report: ReportView, result: ResultView) -> ReportView {
    let group = value_at(report, result.0, Seq::<(Seq<char>, MessagesView)>::empty());
    let messages = value_at(group, result.1, Seq::<(LintLevel, Seq<char>)>::empty());
    put(report, result.0, put(group, result.1, messages.push((result.2, result.3))))
}

/// The report of a list of results, taken in order.
pub open spec fn aggregated(results: Seq<ResultView>) -> ReportView
    decreases results.len(),
{
    if results.len() == 0 {
        Seq::empty()
    } else {
        recorded(aggregated(results.drop_last()), results.last())
    }
}

/// What a report says about one item of one kind; nothing where it does
/// not know the item.
pub open spec fn said_about(report: ReportView, ty: LintItem, name: Seq<char>) -> MessagesView {
    value_at(
        value_at(report, ty, Seq::<(Seq<char>, MessagesView)>::empty()),
        name,
        Seq::<(LintLevel, Seq<char>)>::empty(),
    )
}

/// The levels and messages of the results about one item, in order.
pub open spec fn about(results: Seq<ResultView>, ty: LintItem, name: Seq<char>) -> MessagesView
    decreases results.len(),
{
    if results.len() == 0 {
        Seq::empty()
    } else if results.last().0 == ty && results.last().1 == name {
        about(results.drop_last(), ty, name).push((results.last().2, results.last().3))
    } else {
        about(results.drop_last(), ty, name)
    }
}

/// No kind stands twice in the report, and no item twice in its kind.
pub open spec fn ordered(report: ReportView) -> bool {
    &&& distinct_keys(report)
    &&& forall|i: int| 0 <= i < report.len() ==> distinct_keys((#[trigger] report[i]).1)
}

/// Whether a report carries another one on: every kind and every item of
/// the first stands at its place in the second, with at least the messages
/// that it had, in their order.
pub open spec fn carries_on(before: ReportView, after: ReportView) -> bool {
    &&& before.len() <= after.len()
    &&& forall|i: int|
        0 <= i < before.len() ==> {
            &&& (#[trigger] after[i]).0 == before[i].0
            &&& before[i].1.len() <= after[i].1.len()
            &&& forall|k: int|
                0 <= k < before[i].1.len() ==> {
                    &&& (#[trigger] after[i].1[k]).0 == before[i].1[k].0
                    &&& before[i].1[k].1.is_prefix_of(after[i].1[k].1)
                }
        }
}

/// After a key is given a value, the key has that value and every other
/// key has what it had.
pub proof fn lemma_value_at_put<K, V>(entries: Seq<(K, V)>, key: K, value: V, other: K, absent: V)
    ensures
        value_at(put(entries, key, value), other, absent) == if other == key {
            value
        } else {
            value_at(entries, other, absent)
        },
{
    lemma_index_of(entries, key);
    lemma_index_of(entries, other);
    let i = index_of(entries, key);
    let o = index_of(entries, other);
    let after = put(entries, key, value);
    if i < entries.len() {
        if other == key {
            lemma_index_of_first(after, key, i);
        } else if o < entries.len() {
            lemma_index_of_first(after, other, o);
        } else {
            lemma_index_of(after, other);
            let found = index_of(after, other);
            if found < after.len() {
                assert(entries[found].0 == other);
            }
        }
    } else {
        assert(after.drop_last() =~= entries);
    }
}

/// Recording a result keeps a report in order and carries it on.
pub proof fn lemma_recorded_carries_on(report: ReportView, result: ResultView)
    requires
        ordered(report),
    ensures
        ordered(recorded(report, result)),
        carries_on(report, recorded(report, result)),
{
    let group = value_at(report, result.0, Seq::<(Seq<char>, MessagesView)>::empty());
    let messages = value_at(group, result.1, Seq::<(LintLevel, Seq<char>)>::empty());
    let more = messages.push((result.2, result.3));
    let grown = put(group, result.1, more);
    let after = put(report, result.0, grown);
    lemma_index_of(report, result.0);
    lemma_index_of(group, result.1);
    let i = index_of(report, result.0);
    let k = index_of(group, result.1);
    if i < report.len() {
        assert(distinct_keys(report[i].1));
    }
    lemma_put_keeps_order(group, result.1, more);
    lemma_put_keeps_order(report, result.0, grown);
    assert forall|a: int| 0 <= a < after.len() implies distinct_keys((#[trigger] after[a]).1) by {
        if a != i {
            assert(after[a] == report[a]);
        }
    }
    assert forall|a: int| 0 <= a < report.len() implies {
        &&& (#[trigger] after[a]).0 == report[a].0
        &&& report[a].1.len() <= after[a].1.len()
        &&& forall|b: int|
            0 <= b < report[a].1.len() ==> {
                &&& (#[trigger] after[a].1[b]).0 == report[a].1[b].0
                &&& report[a].1[b].1.is_prefix_of(after[a].1[b].1)
            }
    } by {
        if a == i {
            assert(after[a].1 == grown);
            assert forall|b: int| 0 <= b < group.len() implies {
                &&& (#[trigger] grown[b]).0 == group[b].0
                &&& group[b].1.is_prefix_of(grown[b].1)
            } by {
                if b == k {
                    assert(grown[b].1 == more);
                } else {
                    assert(grown[b] == group[b]);
                }
            }
        } else {
            assert(after[a] == report[a]);
        }
    }
}

/// The report of any list of results is in order.
pub proof fn lemma_aggregated_ordered(results: Seq<ResultView>)
    ensures
        ordered(aggregated(results)),
    decreases results.len(),
{
    if results.len() > 0 {
        lemma_aggregated_ordered(results.drop_last());
        lemma_recorded_carries_on(aggregated(results.drop_last()), results.last());
    }
}

/// More results carry the report on: what came first stays first.
pub proof fn lemma_aggregated_carries_on(results: Seq<ResultView>, n: int)
    requires
        0 <= n <= results.len(),
    ensures
        carries_on(aggregated(results.take(n)), aggregated(results)),
    decreases results.len() - n,
{
    if n == results.len() {
        assert(results.take(n) =~= results);
    } else {
        assert(results.take(n + 1).drop_last() =~= results.take(n));
        lemma_aggregated_ordered(results.take(n));
        lemma_recorded_carries_on(aggregated(results.take(n)), results[n]);
        lemma_aggregated_carries_on(results, n + 1);
        let first = aggregated(results.take(n));
        let next = aggregated(results.take(n + 1));
        let last = aggregated(results);
        assert forall|i: int| 0 <= i < first.len() implies {
            &&& (#[trigger] last[i]).0 == first[i].0
            &&& first[i].1.len() <= last[i].1.len()
            &&& forall|k: int|
                0 <= k < first[i].1.len() ==> {
                    &&& (#[trigger] last[i].1[k]).0 == first[i].1[k].0
                    &&& first[i].1[k].1.is_prefix_of(last[i].1[k].1)
                }
        } by {
            assert(next[i].0 == first[i].0);
            assert forall|k: int| 0 <= k < first[i].1.len() implies {
                &&& (#[trigger] last[i].1[k]).0 == first[i].1[k].0
                &&& first[i].1[k].1.is_prefix_of(last[i].1[k].1)
            } by {
                assert(next[i].1[k].0 == first[i].1[k].0);
                assert(last[i].1[k].0 == next[i].1[k].0);
                let a = first[i].1[k].1;
                let b = next[i].1[k].1;
                let c = last[i].1[k].1;
                assert(a.is_prefix_of(b));
                assert(b.is_prefix_of(c));
                assert(a =~= c.subrange(0, a.len() as int)) by {
                    assert(a =~= b.subrange(0, a.len() as int));
                    assert(b =~= c.subrange(0, b.len() as int));
                }
            }
        }
    }
}

/// A report says about an item exactly what the results say about it, in
/// their order: nothing is lost, added or moved.
pub proof fn lemma_aggregated_says(results: Seq<ResultView>, ty: LintItem, name: Seq<char>)
    ensures
        said_about(aggregated(results), ty, name) == about(results, ty, name),
    decreases results.len(),
{
    let no_group = Seq::<(Seq<char>, MessagesView)>::empty();
    let no_messages = Seq::<(LintLevel, Seq<char>)>::empty();
    if results.len() == 0 {
        assert(index_of(no_group, name) == 0);
    } else {
        let report = aggregated(results.drop_last());
        let result = results.last();
        lemma_aggregated_says(results.drop_last(), ty, name);
        lemma_aggregated_says(results.drop_last(), result.0, result.1);
        let group = value_at(report, result.0, no_group);
        let messages = value_at(group, result.1, no_messages);
        let grown = put(group, result.1, messages.push((result.2, result.3)));
        lemma_value_at_put(report, result.0, grown, ty, no_group);
        if ty == result.0 {
            lemma_value_at_put(
                group,
                result.1,
                messages.push((result.2, result.3)),
                name,
                no_messages,
            );
        }
    }
}

/// A report without results.
pub fn empty_report() -> (report: IndexMap<
    LintItem,
    IndexMap<String, Vec<(LintLevel, LintResult)>>,
>)
    ensures
        report_entries(report) == aggregated(Seq::empty()),
{
    report_new()
}

/// Files one result in a report.
pub fn record(
    report: &mut IndexMap<LintItem, IndexMap<String, Vec<(LintLevel, LintResult)>>>,
    ty: LintItem,
    name: String,
    level: LintLevel,
    result: LintResult,
)
    ensures
        report_entries(*final(report)) == recorded(
            report_entries(*old(report)),
            (ty, name@, level, result.message@),
        ),
{
    let ghost before = report_entries(*report);
    let mut group = match report_insert(report, ty, group_new()) {
        Some(group) => group,
        None => group_new(),
    };
    let ghost names = group_entries(group);
    let mut messages = match group_insert(&mut group, name.clone(), Vec::new()) {
        Some(messages) => messages,
        None => Vec::new(),
    };
    let ghost said = messages_view(messages@);
    messages.push((level, result));
    assert(messages_view(messages@) =~= said.push((level, result.message@)));
    group_insert(&mut group, name, messages);
    report_insert(report, ty, group);
    proof {
        let empty_messages = Seq::<(LintLevel, Seq<char>)>::empty();
        let empty_group = Seq::<(Seq<char>, MessagesView)>::empty();
        assert(messages_view(Seq::<(LintLevel, LintResult)>::empty()) =~= empty_messages);
        lemma_put_twice(names, name@, empty_messages, said.push((level, result.message@)));
        lemma_put_twice(
            before,
            ty,
            empty_group,
            put(names, name@, said.push((level, result.message@))),
        );
    }
}

/// A list of results as the contracts see it.
pub open spec fn results_view(results: Seq<(LintItem, String, LintLevel, LintResult)>) -> Seq<
    ResultView,
> {
    results.map_values(|r: (LintItem, String, LintLevel, LintResult)| (r.0, r.1@, r.2, r.3.message@))
}

/// Groups a list of results by item kind, then by item name.
pub fn aggregate(results: Vec<(LintItem, String, LintLevel, LintResult)>) -> (report: IndexMap<
    LintItem,
    IndexMap<String, Vec<(LintLevel, LintResult)>>,
>)
    ensures
        report_entries(report) == aggregated(results_view(results@)),
{
    let mut report = empty_report();
    let ghost all = results_view(results@);
    for result in it: results
        invariant
            all == results_view(it.seq()),
            report_entries(report) == aggregated(all.take(it.index() as int)),
    {
        proof {
            assert(all.take(it.index() + 1).drop_last() =~= all.take(it.index() as int));
        }
        record(&mut report, result.0, result.1, result.2, result.3);
    }
    assert(all.take(all.len() as int) =~= all);
    report
}

} // verus!
