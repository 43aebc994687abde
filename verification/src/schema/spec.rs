//! One loaded plan file.

use vstd::prelude::*;

use crate::lint::rules::RulesConfig;

verus! {

/// A place that data comes from.
#[derive(Debug, Clone)]
pub struct Source {
    pub description: Option<String>,
}

/// A tracked metric.
#[derive(Debug)]
pub struct Event {
    pub description: Option<String>,
    pub sources: Option<Vec<String>>,
}

/// A tracked pageview.
#[derive(Debug)]
pub struct Pageview {
    pub description: Option<String>,
    pub sources: Option<Vec<String>>,
}

/// One loaded plan file: what it declares, each kind in the order of the
/// file, and the lint configuration that it carries for itself.
#[derive(Debug)]
pub struct Spec {
    pub lint: Option<RulesConfig>,
    pub metrics: Option<Vec<(String, Event)>>,
    pub pageviews: Option<Vec<(String, Pageview)>>,
    pub sources: Option<Vec<(String, Source)>>,
}

/// The entries of a table of named items; a table that is absent has none.
pub open spec fn entries_of<T>(table: Option<Vec<(String, T)>>) -> Seq<(String, T)> {
    match table {
        Some(entries) => entries@,
        None => Seq::empty(),
    }
}

/// The names of a table's entries, in order.
pub open spec fn names_of<T>(table: Option<Vec<(String, T)>>) -> Seq<Seq<char>> {
    entries_of(table).map_values(|entry: (String, T)| entry.0@)
}

/// Tells whether no name stands twice in a table.
pub fn distinct_names<T>(table: &Option<Vec<(String, T)>>) -> (out: bool)
    ensures
        out == names_of(*table).no_duplicates(),
{
    match table {
        None => true,
        Some(entries) => {
            let ghost names = names_of(*table);
            let mut i: usize = 0;
            while i < entries.len()
                invariant
                    i <= entries.len(),
                    *table == Some(*entries),
                    names == names_of(*table),
                    forall|a: int, b: int| 0 <= a < b < i ==> names[a] != names[b],
                decreases entries.len() - i,
            {
                let mut j: usize = 0;
                while j < i
                    invariant
                        j <= i < entries.len(),
                        *table == Some(*entries),
                        names == names_of(*table),
                        forall|a: int| 0 <= a < j ==> names[a] != names[i as int],
                    decreases i - j,
                {
                    if entries[j].0 == entries[i].0 {
                        assert(names[j as int] == names[i as int]);
                        return false;
                    }
                    j = j + 1;
                }
                i = i + 1;
            }
            true
        },
    }
}

/// Adds an entry to a table under a name that the table does not hold yet.
/// A name that is taken keeps its entry, and the table stays as it is.
pub fn declare<T>(table: &mut Option<Vec<(String, T)>>, name: String, item: T) -> (added: bool)
    ensures
        added == !names_of(*old(table)).contains(name@),
        added ==> entries_of(*final(table)) == entries_of(*old(table)).push((name, item)),
        !added ==> *final(table) == *old(table),
        names_of(*old(table)).no_duplicates() ==> names_of(*final(table)).no_duplicates(),
{
    let ghost before = names_of(*table);
    let mut entries = match table.take() {
        Some(entries) => entries,
        None => Vec::new(),
    };
    assert(names_of(Some(entries)) =~= before);
    let mut i: usize = 0;
    while i < entries.len()
        invariant
            i <= entries.len(),
            before == names_of(Some(entries)),
            before == names_of(*old(table)),
            *old(table) is Some ==> *old(table) == Some(entries),
            forall|k: int| 0 <= k < i ==> before[k] != name@,
        decreases entries.len() - i,
    {
        if entries[i].0 == name {
            assert(before[i as int] == name@);
            assert(before.contains(name@));
            *table = Some(entries);
            return false;
        }
        i = i + 1;
    }
    let ghost held = entries@;
    entries.push((name, item));
    *table = Some(entries);
    proof {
        assert(names_of(*table) =~= before.push(name@));
        if before.no_duplicates() {
            assert forall|a: int, b: int|
                0 <= a < names_of(*table).len() && 0 <= b < names_of(*table).len() && a
                    != b implies names_of(*table)[a] != names_of(*table)[b] by {
                if a < before.len() && b < before.len() {
                    assert(before[a] != before[b]);
                }
            }
        }
    }
    true
}

impl Spec {
    /// A file that declares nothing and configures nothing.
    pub fn new() -> (out: Spec)
        ensures
            out.wf(),
            out.lint is None,
            out.metrics is None,
            out.pageviews is None,
            out.sources is None,
    {
        let out = Spec { lint: None, metrics: None, pageviews: None, sources: None };
        assert(out.metric_names() =~= Seq::<Seq<char>>::empty());
        assert(out.pageview_names() =~= Seq::<Seq<char>>::empty());
        assert(out.source_names() =~= Seq::<Seq<char>>::empty());
        out
    }

    /// Declares a metric under a name that no metric of the file has yet.
    pub fn declare_metric(&mut self, name: String, event: Event) -> (added: bool)
        ensures
            added == !old(self).metric_names().contains(name@),
            added ==> entries_of(final(self).metrics) == entries_of(old(self).metrics).push(
                (name, event),
            ),
            !added ==> *final(self) == *old(self),
            final(self).lint == old(self).lint,
            final(self).pageviews == old(self).pageviews,
            final(self).sources == old(self).sources,
            old(self).wf() ==> final(self).wf(),
    {
        declare(&mut self.metrics, name, event)
    }

    /// Declares a pageview under a name that no pageview of the file has
    /// yet.
    pub fn declare_pageview(&mut self, name: String, pageview: Pageview) -> (added: bool)
        ensures
            added == !old(self).pageview_names().contains(name@),
            added ==> entries_of(final(self).pageviews) == entries_of(old(self).pageviews).push(
                (name, pageview),
            ),
            !added ==> *final(self) == *old(self),
            final(self).lint == old(self).lint,
            final(self).metrics == old(self).metrics,
            final(self).sources == old(self).sources,
            old(self).wf() ==> final(self).wf(),
    {
        declare(&mut self.pageviews, name, pageview)
    }

    /// Declares a source under a name that no source of the file has yet.
    pub fn declare_source(&mut self, name: String, source: Source) -> (added: bool)
        ensures
            added == !old(self).source_names().contains(name@),
            added ==> entries_of(final(self).sources) == entries_of(old(self).sources).push(
                (name, source),
            ),
            !added ==> *final(self) == *old(self),
            final(self).lint == old(self).lint,
            final(self).metrics == old(self).metrics,
            final(self).pageviews == old(self).pageviews,
            old(self).wf() ==> final(self).wf(),
    {
        declare(&mut self.sources, name, source)
    }

    /// Tells whether the file is well formed.
    pub fn is_wf(&self) -> (out: bool)
        ensures
            out == self.wf(),
    {
        distinct_names(&self.metrics) && distinct_names(&self.pageviews) && distinct_names(
            &self.sources,
        )
    }

    /// The names of the metrics that the file declares.
    pub open spec fn metric_names(&self) -> Seq<Seq<char>> {
        names_of(self.metrics)
    }

    /// The names of the pageviews that the file declares.
    pub open spec fn pageview_names(&self) -> Seq<Seq<char>> {
        names_of(self.pageviews)
    }

    /// The names of the sources that the file declares.
    pub open spec fn source_names(&self) -> Seq<Seq<char>> {
        names_of(self.sources)
    }

    /// Within one file a name is the key of its table: no table holds a name
    /// twice.
    pub open spec fn wf(&self) -> bool {
        &&& self.metric_names().no_duplicates()
        &&& self.pageview_names().no_duplicates()
        &&& self.source_names().no_duplicates()
    }
}

} // verus!
