//! The metric filter: of each event that has a `"metric"` field, the object
//! under it.

use crate::extract::object_models;
use crate::json::{as_object, clone_object, object_get, object_model, Json, SerdeObject};
use vstd::prelude::*;

verus! {

/// The key under which an event carries its metric.
pub open spec fn metric_key() -> Seq<char> {
    "metric"@
}

/// The event has no metric, or its metric is an object.
pub open spec fn well_shaped(event: Map<Seq<char>, Json>) -> bool {
    event.contains_key(metric_key()) ==> event[metric_key()] is Object
}

/// What one event contributes: the object under its metric key, if it has
/// one.
pub open spec fn metric_of(event: Map<Seq<char>, Json>) -> Option<Map<Seq<char>, Json>> {
    if event.contains_key(metric_key()) {
        match event[metric_key()] {
            Json::Object(metric) => Some(metric),
            _ => None,
        }
    } else {
        None
    }
}

/// The metrics of the events, in event order.
pub open spec fn metrics_of(events: Seq<Map<Seq<char>, Json>>) -> Seq<Map<Seq<char>, Json>>
    decreases events.len(),
{
    if events.len() == 0 {
        Seq::empty()
    } else {
        let before = metrics_of(events.drop_last());
        match metric_of(events.last()) {
            Some(metric) => before.push(metric),
            None => before,
        }
    }
}

/// The event, by its index, whose metric is no object.
pub struct MisshapenMetric {
    pub event: usize,
}

/// Collects a copy of the metric of every event that has one.
///
/// Succeeds exactly when every metric is an object. Otherwise the error
/// names the first event whose metric is something else.
pub fn filter_metric_events(events: &Vec<SerdeObject>) -> (res: Result<
    Vec<SerdeObject>,
    MisshapenMetric,
>)
    ensures
        match res {
            Ok(metrics) => {
                &&& forall|i: int|
                    0 <= i < events@.len() ==> well_shaped(#[trigger] object_models(events@)[i])
                &&& object_models(metrics@) == metrics_of(object_models(events@))
            },
            Err(error) => {
                &&& 0 <= error.event < events@.len()
                &&& !well_shaped(object_models(events@)[error.event as int])
                &&& forall|i: int|
                    0 <= i < error.event ==> well_shaped(#[trigger] object_models(events@)[i])
            },
        },
{
    let mut metrics: Vec<SerdeObject> = Vec::new();
    let ghost models = object_models(events@);
    let mut i: usize = 0;
    proof {
        assert(models.take(0) =~= Seq::<Map<Seq<char>, Json>>::empty());
        assert(object_models(metrics@) =~= Seq::<Map<Seq<char>, Json>>::empty());
    }
    while i < events.len()
        invariant
            i <= events.len(),
            models == object_models(events@),
            forall|j: int| 0 <= j < i ==> well_shaped(#[trigger] models[j]),
            object_models(metrics@) == metrics_of(models.take(i as int)),
        decreases events.len() - i,
    {
        let ghost done = metrics@;
        proof {
            assert(models[i as int] == object_model(events@[i as int]));
            assert(models.take(i + 1).drop_last() =~= models.take(i as int));
            assert(models.take(i + 1).last() == models[i as int]);
        }
        match object_get(&events[i], "metric") {
            None => {},
            Some(value) => {
                match as_object(value) {
                    None => {
                        return Err(MisshapenMetric { event: i });
                    },
                    Some(object) => {
                        let metric = clone_object(object);
                        metrics.push(metric);
                        proof {
                            assert(object_models(metrics@) =~= object_models(done).push(
                                object_model(metric),
                            ));
                        }
                    },
                }
            },
        }
        i = i + 1;
    }
    proof {
        assert(models.take(i as int) =~= models);
    }
    Ok(metrics)
}

/// The metrics of two runs of events, one after the other, are the metrics
/// of the first followed by those of the second.
pub proof fn lemma_metrics_concat(a: Seq<Map<Seq<char>, Json>>, b: Seq<Map<Seq<char>, Json>>)
    ensures
        metrics_of(a + b) == metrics_of(a) + metrics_of(b),
    decreases b.len(),
{
    if b.len() == 0 {
        assert(a + b =~= a);
        assert(metrics_of(a) + metrics_of(b) =~= metrics_of(a));
    } else {
        lemma_metrics_concat(a, b.drop_last());
        assert((a + b).drop_last() =~= a + b.drop_last());
        assert((a + b).last() == b.last());
        assert(metrics_of(a + b) =~= metrics_of(a) + metrics_of(b));
    }
}

/// An event without a metric, wherever it stands among the events, adds
/// nothing to the metrics.
pub proof fn lemma_event_without_metric_adds_nothing(
    before: Seq<Map<Seq<char>, Json>>,
    event: Map<Seq<char>, Json>,
    after: Seq<Map<Seq<char>, Json>>,
)
    requires
        !event.contains_key(metric_key()),
    ensures
        metrics_of(before + seq![event] + after) == metrics_of(before) + metrics_of(after),
{
    lemma_metrics_concat(before + seq![event], after);
    lemma_metrics_concat(before, seq![event]);
    assert(seq![event].drop_last() =~= Seq::<Map<Seq<char>, Json>>::empty());
    assert(metrics_of(seq![event].drop_last()) =~= Seq::<Map<Seq<char>, Json>>::empty());
    assert(seq![event].last() == event);
    assert(metrics_of(seq![event]) =~= Seq::<Map<Seq<char>, Json>>::empty());
    assert(metrics_of(before) + metrics_of(seq![event]) =~= metrics_of(before));
}

/// An event whose metric is an object, wherever it stands among the events,
/// adds exactly that object, at its place.
pub proof fn lemma_event_with_metric_adds_one(
    before: Seq<Map<Seq<char>, Json>>,
    event: Map<Seq<char>, Json>,
    after: Seq<Map<Seq<char>, Json>>,
    metric: Map<Seq<char>, Json>,
)
    requires
        event.contains_key(metric_key()),
        event[metric_key()] == Json::Object(metric),
    ensures
        metrics_of(before + seq![event] + after) == metrics_of(before) + seq![metric]
            + metrics_of(after),
{
    lemma_metrics_concat(before + seq![event], after);
    lemma_metrics_concat(before, seq![event]);
    assert(seq![event].drop_last() =~= Seq::<Map<Seq<char>, Json>>::empty());
    assert(metrics_of(seq![event].drop_last()) =~= Seq::<Map<Seq<char>, Json>>::empty());
    assert(seq![event].last() == event);
    assert(metrics_of(seq![event]) =~= seq![metric]);
}

} // verus!
