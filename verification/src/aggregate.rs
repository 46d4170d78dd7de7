//! The aggregator: how many metrics there are of each type, and which
//! distinct names they carry.

use crate::extract::object_models;
use crate::json::{json_text, object_get, object_has_key, object_model, value_text, Json, SerdeObject};
use crate::text::views;
use vstd::prelude::*;

verus! {

/// The four metric types, in the order in which a metric is held against
/// them.
#[derive(Clone, Copy, Debug, PartialEq, Eq, Structural)]
pub enum MetricType {
    Gauge,
    Counter,
    Histogram,
    Distribution,
}

impl MetricType {
    /// The key by which a metric shows that it is of this type.
    pub open spec fn key_text(self) -> Seq<char> {
        match self {
            MetricType::Gauge => "gauge"@,
            MetricType::Counter => "counter"@,
            MetricType::Histogram => "histogram"@,
            MetricType::Distribution => "distribution"@,
        }
    }

    pub fn key(self) -> (res: &'static str)
        ensures
            res@ == self.key_text(),
    {
        match self {
            MetricType::Gauge => "gauge",
            MetricType::Counter => "counter",
            MetricType::Histogram => "histogram",
            MetricType::Distribution => "distribution",
        }
    }
}

/// The key under which a metric carries its name.
pub open spec fn name_key() -> Seq<char> {
    "name"@
}

/// The type of a metric: the first of the four whose key it has, if any.
pub open spec fn metric_type(metric: Map<Seq<char>, Json>) -> Option<MetricType> {
    if metric.contains_key(MetricType::Gauge.key_text()) {
        Some(MetricType::Gauge)
    } else if metric.contains_key(MetricType::Counter.key_text()) {
        Some(MetricType::Counter)
    } else if metric.contains_key(MetricType::Histogram.key_text()) {
        Some(MetricType::Histogram)
    } else if metric.contains_key(MetricType::Distribution.key_text()) {
        Some(MetricType::Distribution)
    } else {
        None
    }
}

/// Finds the type of a metric.
pub fn classify_metric(metric: &SerdeObject) -> (res: Option<MetricType>)
    ensures
        res == metric_type(object_model(*metric)),
{
    if object_has_key(metric, MetricType::Gauge.key()) {
        Some(MetricType::Gauge)
    } else if object_has_key(metric, MetricType::Counter.key()) {
        Some(MetricType::Counter)
    } else if object_has_key(metric, MetricType::Histogram.key()) {
        Some(MetricType::Histogram)
    } else if object_has_key(metric, MetricType::Distribution.key()) {
        Some(MetricType::Distribution)
    } else {
        None
    }
}

/// How many metrics there are of each type.
#[derive(Clone, Copy, Debug, PartialEq, Eq, Structural)]
pub struct MetricTypeCounts {
    pub gauge: usize,
    pub counter: usize,
    pub histogram: usize,
    pub distribution: usize,
}

impl MetricTypeCounts {
    pub open spec fn count(self, kind: MetricType) -> nat {
        match kind {
            MetricType::Gauge => self.gauge as nat,
            MetricType::Counter => self.counter as nat,
            MetricType::Histogram => self.histogram as nat,
            MetricType::Distribution => self.distribution as nat,
        }
    }

    /// All four counts at zero.
    pub fn new() -> (res: Self)
        ensures
            forall|kind: MetricType| res.count(kind) == 0,
    {
        MetricTypeCounts { gauge: 0, counter: 0, histogram: 0, distribution: 0 }
    }

    pub fn get(&self, kind: MetricType) -> (res: usize)
        ensures
            res == self.count(kind),
    {
        match kind {
            MetricType::Gauge => self.gauge,
            MetricType::Counter => self.counter,
            MetricType::Histogram => self.histogram,
            MetricType::Distribution => self.distribution,
        }
    }

    /// One more of `kind`; the other counts stay.
    pub fn record(&mut self, kind: MetricType)
        requires
            old(self).count(kind) < usize::MAX,
        ensures
            final(self).count(kind) == old(self).count(kind) + 1,
            forall|other: MetricType| other != kind ==> final(self).count(other) == old(self).count(other),
    {
        match kind {
            MetricType::Gauge => {
                self.gauge = self.gauge + 1;
            },
            MetricType::Counter => {
                self.counter = self.counter + 1;
            },
            MetricType::Histogram => {
                self.histogram = self.histogram + 1;
            },
            MetricType::Distribution => {
                self.distribution = self.distribution + 1;
            },
        }
    }
}

/// How many of the metrics are of type `kind`.
pub open spec fn type_count(metrics: Seq<Map<Seq<char>, Json>>, kind: MetricType) -> nat
    decreases metrics.len(),
{
    if metrics.len() == 0 {
        0
    } else {
        let before = type_count(metrics.drop_last(), kind);
        if metric_type(metrics.last()) == Some(kind) {
            before + 1
        } else {
            before
        }
    }
}

/// The metric is of none of the four types.
pub open spec fn is_unknown(metric: Map<Seq<char>, Json>) -> bool {
    metric_type(metric) is None
}

/// The metric is of none of the four types and has no name to report it by.
pub open spec fn is_unreportable(metric: Map<Seq<char>, Json>) -> bool {
    is_unknown(metric) && !metric.contains_key(name_key())
}

/// The names, as JSON text, of the metrics of unknown type that have one, in
/// metric order.
pub open spec fn unknown_names(metrics: Seq<Map<Seq<char>, Json>>) -> Seq<Seq<char>>
    decreases metrics.len(),
{
    if metrics.len() == 0 {
        Seq::empty()
    } else {
        let before = unknown_names(metrics.drop_last());
        let metric = metrics.last();
        if is_unknown(metric) && metric.contains_key(name_key()) {
            before.push(json_text(metric[name_key()]))
        } else {
            before
        }
    }
}

/// How many of the metrics are of none of the four types.
pub open spec fn unknown_count(metrics: Seq<Map<Seq<char>, Json>>) -> nat
    decreases metrics.len(),
{
    if metrics.len() == 0 {
        0
    } else {
        unknown_count(metrics.drop_last()) + if is_unknown(metrics.last()) {
            1nat
        } else {
            0nat
        }
    }
}

/// A count is at most the number of metrics.
pub proof fn lemma_type_count_bound(metrics: Seq<Map<Seq<char>, Json>>, kind: MetricType)
    ensures
        type_count(metrics, kind) <= metrics.len(),
    decreases metrics.len(),
{
    if metrics.len() > 0 {
        lemma_type_count_bound(metrics.drop_last(), kind);
    }
}

/// A metric of one of the four types adds one to the count of that type and
/// nothing to the others, and is not reported.
pub proof fn lemma_known_metric_counts_once(
    metrics: Seq<Map<Seq<char>, Json>>,
    metric: Map<Seq<char>, Json>,
    kind: MetricType,
)
    requires
        metric_type(metric) == Some(kind),
    ensures
        type_count(metrics.push(metric), kind) == type_count(metrics, kind) + 1,
        forall|other: MetricType|
            other != kind ==> type_count(metrics.push(metric), other) == type_count(metrics, other),
        unknown_names(metrics.push(metric)) == unknown_names(metrics),
{
    assert(metrics.push(metric).drop_last() =~= metrics);
    assert(metrics.push(metric).last() == metric);
}

/// A metric of none of the four types adds to no count; where it has a
/// name, it is reported by the JSON text of that name.
pub proof fn lemma_unknown_metric_is_not_counted(
    metrics: Seq<Map<Seq<char>, Json>>,
    metric: Map<Seq<char>, Json>,
)
    requires
        is_unknown(metric),
    ensures
        forall|kind: MetricType|
            type_count(metrics.push(metric), kind) == type_count(metrics, kind),
        metric.contains_key(name_key()) ==> unknown_names(metrics.push(metric)) == unknown_names(
            metrics,
        ).push(json_text(metric[name_key()])),
{
    assert(metrics.push(metric).drop_last() =~= metrics);
    assert(metrics.push(metric).last() == metric);
}

/// Every metric is counted under exactly one type or is of unknown type.
pub proof fn lemma_counts_add_up(metrics: Seq<Map<Seq<char>, Json>>)
    ensures
        type_count(metrics, MetricType::Gauge) + type_count(metrics, MetricType::Counter)
            + type_count(metrics, MetricType::Histogram) + type_count(
            metrics,
            MetricType::Distribution,
        ) + unknown_count(metrics) == metrics.len(),
    decreases metrics.len(),
{
    if metrics.len() > 0 {
        lemma_counts_add_up(metrics.drop_last());
    }
}

/// The counts by type, and the names of the metrics of unknown type, which
/// are counted nowhere.
pub struct TypeCensus {
    pub counts: MetricTypeCounts,
    pub unknown: Vec<String>,
}

/// The metric of unknown type, by its index, that has no name, and the names
/// of the metrics of unknown type before it.
pub struct UnreportableMetric {
    pub metric: usize,
    pub unknown: Vec<String>,
}

/// Counts the metrics by type.
///
/// Succeeds exactly when every metric of unknown type has a name. Otherwise
/// the error names the first that has none.
pub fn count_metric_types(metrics: &Vec<SerdeObject>) -> (res: Result<TypeCensus, UnreportableMetric>)
    ensures
        match res {
            Ok(census) => {
                &&& forall|i: int|
                    0 <= i < metrics@.len() ==> !is_unreportable(
                        #[trigger] object_models(metrics@)[i],
                    )
                &&& forall|kind: MetricType|
                    census.counts.count(kind) == type_count(object_models(metrics@), kind)
                &&& views(census.unknown@) == unknown_names(object_models(metrics@))
            },
            Err(error) => {
                &&& 0 <= error.metric < metrics@.len()
                &&& is_unreportable(object_models(metrics@)[error.metric as int])
                &&& forall|i: int|
                    0 <= i < error.metric ==> !is_unreportable(
                        #[trigger] object_models(metrics@)[i],
                    )
                &&& views(error.unknown@) == unknown_names(
                    object_models(metrics@).take(error.metric as int),
                )
            },
        },
{
    let mut counts = MetricTypeCounts::new();
    let mut unknown: Vec<String> = Vec::new();
    let ghost models = object_models(metrics@);
    let mut i: usize = 0;
    proof {
        assert(models.take(0) =~= Seq::<Map<Seq<char>, Json>>::empty());
        assert(views(unknown@) =~= Seq::<Seq<char>>::empty());
    }
    while i < metrics.len()
        invariant
            i <= metrics.len(),
            models == object_models(metrics@),
            forall|j: int| 0 <= j < i ==> !is_unreportable(#[trigger] models[j]),
            forall|kind: MetricType|
                counts.count(kind) == type_count(models.take(i as int), kind),
            views(unknown@) == unknown_names(models.take(i as int)),
        decreases metrics.len() - i,
    {
        let metric = &metrics[i];
        let ghost done = unknown@;
        let ghost counted = counts;
        proof {
            assert(models[i as int] == object_model(metrics@[i as int]));
            assert(models.take(i + 1).drop_last() =~= models.take(i as int));
            assert(models.take(i + 1).last() == models[i as int]);
        }
        match classify_metric(metric) {
            Some(kind) => {
                proof {
                    lemma_type_count_bound(models.take(i as int), kind);
                }
                counts.record(kind);
            },
            None => {
                match object_get(metric, "name") {
                    None => {
                        return Err(UnreportableMetric { metric: i, unknown });
                    },
                    Some(name) => {
                        let text = value_text(name);
                        unknown.push(text);
                        proof {
                            assert(views(unknown@) =~= views(done).push(text@));
                        }
                    },
                }
            },
        }
        proof {
            assert forall|kind: MetricType|
                counts.count(kind) == type_count(models.take(i + 1), kind) by {
                assert(counted.count(kind) == type_count(models.take(i as int), kind));
            }
        }
        i = i + 1;
    }
    proof {
        assert(models.take(i as int) =~= models);
    }
    Ok(TypeCensus { counts, unknown })
}

} // verus!
