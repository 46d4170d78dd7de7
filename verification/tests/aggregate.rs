use metric_census::aggregate::{classify_metric, count_metric_types, MetricType};
use metric_census::filter::filter_metric_events;
use metric_census::json::SerdeObject;
use metric_census::names::{get_unique_metrics, UniqueNames};
use metric_census::text::join_lines;
use serde_json::Value;

fn object(text: &str) -> SerdeObject {
    match serde_json::from_str::<Value>(text) {
        Ok(Value::Object(entries)) => entries,
        _ => panic!("not an object: {}", text),
    }
}

fn objects(texts: &[&str]) -> Vec<SerdeObject> {
    texts.iter().map(|text| object(text)).collect()
}

#[test]
fn filter_of_no_events_is_empty() {
    assert!(filter_metric_events(&Vec::new()).ok().unwrap().is_empty());
}

#[test]
fn filter_skips_events_without_metric() {
    let events = objects(&["{\"message\":\"hello\"}", "{}", "{\"metrics\":{\"name\":\"a\"}}"]);
    assert!(filter_metric_events(&events).ok().unwrap().is_empty());
}

#[test]
fn filter_takes_one_metric_from_each_event_that_has_one() {
    let events = objects(&[
        "{\"metric\":{\"name\":\"a\",\"gauge\":{\"value\":1}},\"host\":\"h\"}",
        "{\"message\":\"hello\"}",
        "{\"metric\":{}}",
        "{\"metric\":{\"name\":\"b\",\"counter\":{\"value\":2}}}",
    ]);
    let metrics = filter_metric_events(&events).ok().unwrap();
    assert_eq!(
        metrics,
        objects(&[
            "{\"name\":\"a\",\"gauge\":{\"value\":1}}",
            "{}",
            "{\"name\":\"b\",\"counter\":{\"value\":2}}",
        ])
    );
}

#[test]
fn filter_copies_the_metric_not_the_event() {
    let events = objects(&["{\"metric\":{\"name\":\"inner\"},\"name\":\"outer\"}"]);
    let metrics = filter_metric_events(&events).ok().unwrap();
    assert_eq!(metrics.len(), 1);
    assert_eq!(metrics[0].get("name"), Some(&Value::String("inner".to_string())));
    assert!(!metrics[0].contains_key("metric"));
    assert!(events[0].contains_key("metric"));
}

#[test]
fn filter_refuses_a_metric_that_is_no_object() {
    for bad in ["\"text\"", "5", "[1]", "true", "null"] {
        let events = objects(&[
            "{\"metric\":{\"name\":\"a\"}}",
            "{\"other\":1}",
            &format!("{{\"metric\":{}}}", bad),
            "{\"metric\":7}",
        ]);
        let error = filter_metric_events(&events).err().unwrap();
        assert_eq!(error.event, 2, "metric {}", bad);
    }
}

#[test]
fn classify_takes_the_first_matching_type() {
    assert_eq!(classify_metric(&object("{\"gauge\":1}")), Some(MetricType::Gauge));
    assert_eq!(classify_metric(&object("{\"counter\":1}")), Some(MetricType::Counter));
    assert_eq!(classify_metric(&object("{\"histogram\":1}")), Some(MetricType::Histogram));
    assert_eq!(classify_metric(&object("{\"distribution\":1}")), Some(MetricType::Distribution));
    assert_eq!(classify_metric(&object("{\"name\":\"x\",\"unknown_type\":5}")), None);
    assert_eq!(classify_metric(&object("{}")), None);
    assert_eq!(
        classify_metric(&object("{\"distribution\":1,\"counter\":1}")),
        Some(MetricType::Counter)
    );
    assert_eq!(
        classify_metric(&object("{\"histogram\":1,\"gauge\":null,\"counter\":1}")),
        Some(MetricType::Gauge)
    );
    assert_eq!(classify_metric(&object("{\"Gauge\":1}")), None);
}

#[test]
fn count_of_one_metric_of_each_type() {
    let metrics = objects(&[
        "{\"gauge\":1,\"name\":\"a\"}",
        "{\"counter\":1,\"name\":\"b\"}",
        "{\"histogram\":1,\"name\":\"c\"}",
        "{\"distribution\":1,\"name\":\"d\"}",
    ]);
    let census = count_metric_types(&metrics).ok().unwrap();
    assert_eq!(census.counts.gauge, 1);
    assert_eq!(census.counts.counter, 1);
    assert_eq!(census.counts.histogram, 1);
    assert_eq!(census.counts.distribution, 1);
    assert!(census.unknown.is_empty());
}

#[test]
fn count_of_no_metrics_is_zero() {
    let census = count_metric_types(&Vec::new()).ok().unwrap();
    assert_eq!(census.counts.get(MetricType::Gauge), 0);
    assert_eq!(census.counts.get(MetricType::Counter), 0);
    assert_eq!(census.counts.get(MetricType::Histogram), 0);
    assert_eq!(census.counts.get(MetricType::Distribution), 0);
    assert!(census.unknown.is_empty());
}

#[test]
fn count_adds_up_by_type() {
    let metrics = objects(&[
        "{\"gauge\":1}",
        "{\"counter\":1}",
        "{\"gauge\":2}",
        "{\"gauge\":3,\"counter\":0}",
        "{\"distribution\":{}}",
        "{\"counter\":5,\"histogram\":6}",
    ]);
    let census = count_metric_types(&metrics).ok().unwrap();
    assert_eq!(census.counts.gauge, 3);
    assert_eq!(census.counts.counter, 2);
    assert_eq!(census.counts.histogram, 0);
    assert_eq!(census.counts.distribution, 1);
}

#[test]
fn count_leaves_out_unknown_metrics_and_reports_them_by_name() {
    let metrics = objects(&[
        "{\"gauge\":1,\"name\":\"g\"}",
        "{\"name\":\"x\",\"unknown_type\":5}",
        "{\"name\":17}",
    ]);
    let census = count_metric_types(&metrics).ok().unwrap();
    assert_eq!(census.counts.gauge, 1);
    assert_eq!(census.counts.counter, 0);
    assert_eq!(census.counts.histogram, 0);
    assert_eq!(census.counts.distribution, 0);
    assert_eq!(census.unknown, vec!["\"x\"".to_string(), "17".to_string()]);
}

#[test]
fn count_refuses_an_unknown_metric_without_name() {
    let metrics = objects(&[
        "{\"counter\":1}",
        "{\"name\":\"first\",\"summary\":1}",
        "{\"summary\":2}",
        "{\"summary\":3}",
    ]);
    let error = count_metric_types(&metrics).err().unwrap();
    assert_eq!(error.metric, 2);
    assert_eq!(error.unknown, vec!["\"first\"".to_string()]);
}

#[test]
fn count_needs_no_name_of_a_known_metric() {
    let census = count_metric_types(&objects(&["{\"histogram\":[1,2]}"])).ok().unwrap();
    assert_eq!(census.counts.histogram, 1);
}

#[test]
fn unique_names_of_a_a_b_are_two() {
    let metrics = objects(&["{\"name\":\"a\"}", "{\"name\":\"a\"}", "{\"name\":\"b\"}"]);
    let unique = get_unique_metrics(&metrics).ok().unwrap();
    assert_eq!(unique.len(), 2);
}

#[test]
fn unique_names_are_kept_as_json_text() {
    let metrics = objects(&["{\"name\":\"a\"}", "{\"name\":\"b\"}", "{\"name\":\"a\"}"]);
    let unique = get_unique_metrics(&metrics).ok().unwrap();
    assert_eq!(unique.names(), &vec!["\"a\"".to_string(), "\"b\"".to_string()]);
    assert!(unique.contains("\"a\""));
    assert!(unique.contains("\"b\""));
    assert!(!unique.contains("a"));
}

#[test]
fn unique_names_tell_documents_apart_by_their_text() {
    let metrics = objects(&[
        "{\"name\":1}",
        "{\"name\":\"1\"}",
        "{\"name\":1.0}",
        "{\"name\":{\"b\":1,\"a\":[]}}",
        "{\"name\":  1 }",
        "{\"name\":\"q\\\"uote\"}",
    ]);
    let unique = get_unique_metrics(&metrics).ok().unwrap();
    assert_eq!(
        unique.names(),
        &vec![
            "1".to_string(),
            "\"1\"".to_string(),
            "1.0".to_string(),
            "{\"a\":[],\"b\":1}".to_string(),
            "\"q\\\"uote\"".to_string(),
        ]
    );
    assert_eq!(unique.len(), 5);
}

#[test]
fn unique_names_of_no_metrics_are_none() {
    let unique = get_unique_metrics(&Vec::new()).ok().unwrap();
    assert_eq!(unique.len(), 0);
    assert!(unique.names().is_empty());
}

#[test]
fn unique_names_refuse_a_metric_without_name() {
    let metrics = objects(&["{\"name\":\"a\"}", "{\"gauge\":1}", "{\"counter\":1}"]);
    let error = get_unique_metrics(&metrics).err().unwrap();
    assert_eq!(error.metric, 1);
}

#[test]
fn unique_names_insert_tells_whether_new() {
    let mut unique = UniqueNames::new();
    assert!(unique.insert("a".to_string()));
    assert!(unique.insert("b".to_string()));
    assert!(!unique.insert("a".to_string()));
    assert_eq!(unique.len(), 2);
    assert_eq!(unique.names(), &vec!["a".to_string(), "b".to_string()]);
}

#[test]
fn written_names_are_newline_joined() {
    let mut unique = UniqueNames::new();
    unique.insert("a".to_string());
    unique.insert("b".to_string());
    let text = join_lines(unique.names());
    assert!(text == "a\nb" || text == "b\na");
}

#[test]
fn pipeline_from_events_to_counts() {
    let events = objects(&[
        "{\"metric\":{\"name\":\"cpu\",\"gauge\":{\"value\":0.5}}}",
        "{\"log\":\"started\"}",
        "{\"metric\":{\"name\":\"requests\",\"counter\":{\"value\":3}}}",
        "{\"metric\":{\"name\":\"cpu\",\"gauge\":{\"value\":0.7}}}",
        "{\"metric\":{\"name\":\"latency\",\"summary\":{}}}",
    ]);
    let metrics = filter_metric_events(&events).ok().unwrap();
    assert_eq!(metrics.len(), 4);
    let census = count_metric_types(&metrics).ok().unwrap();
    assert_eq!(census.counts.gauge, 2);
    assert_eq!(census.counts.counter, 1);
    assert_eq!(census.counts.histogram, 0);
    assert_eq!(census.counts.distribution, 0);
    assert_eq!(census.unknown, vec!["\"latency\"".to_string()]);
    let unique = get_unique_metrics(&metrics).ok().unwrap();
    assert_eq!(
        unique.names(),
        &vec!["\"cpu\"".to_string(), "\"requests\"".to_string(), "\"latency\"".to_string()]
    );
}
