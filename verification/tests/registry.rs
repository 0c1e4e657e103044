//! Starting the sink, handing out deployment sinks, and submitting changes.

use questdb_sink::{
    dropped_rows, BlockPtr, BlockTime, DeploymentHash, DeploymentSink, EntityChange,
    EntityChangeOperation, EntityFilter, EntitySinkRegistry, EntityType, ExportRule, Offer,
    QuestDbConfig, QuestDbSink, Tally, WriteJob, WriterTask,
};
use std::sync::atomic::Ordering;

fn rule(subgraph: &str, entities: &[&str]) -> ExportRule {
    ExportRule {
        subgraph: subgraph.to_string(),
        entities: entities.iter().map(|name| name.to_string()).collect(),
    }
}

fn config(queue_capacity: usize, export: Vec<ExportRule>) -> QuestDbConfig {
    QuestDbConfig {
        url: "tcp::addr=localhost:9009;".to_string(),
        table_prefix: Some("graph_".to_string()),
        queue_capacity,
        export,
    }
}

fn started(config: &QuestDbConfig) -> (QuestDbSink, WriterTask) {
    assert!(config.queue_fits());
    QuestDbSink::start(Some(config)).unwrap()
}

fn deployment(id: &str) -> DeploymentHash {
    DeploymentHash { id: id.to_string() }
}

fn entity_type(name: &str) -> EntityType {
    EntityType { name: name.to_string() }
}

fn removals(ids: &[&str]) -> Vec<EntityChange> {
    ids.iter()
        .map(|id| EntityChange {
            entity_type: entity_type("Transfer"),
            id: id.to_string(),
            operation: EntityChangeOperation::Remove,
            data: None,
            block_number: 7,
            block_time: BlockTime { seconds: 1 },
        })
        .collect()
}

#[test]
fn no_config_starts_nothing() {
    assert!(QuestDbSink::start(None).is_none());
}

#[test]
fn config_without_rules_starts_nothing() {
    assert!(QuestDbSink::start(Some(&config(10, vec![]))).is_none());
}

#[test]
fn writer_gets_the_connection_string_and_the_prefix() {
    let (_sink, task) = started(&config(10, vec![rule("*", &["*"])]));
    assert_eq!(task.conf, "tcp::addr=localhost:9009;");
    assert_eq!(task.table_prefix, "graph_");
}

#[test]
fn missing_prefix_is_empty() {
    let mut given = config(10, vec![rule("*", &["*"])]);
    given.table_prefix = None;
    let (_sink, task) = started(&given);
    assert_eq!(task.table_prefix, "");
}

#[test]
fn absurd_queue_capacity_does_not_fit() {
    assert!(config(0, vec![]).queue_fits());
    assert!(config(10_000, vec![]).queue_fits());
    assert!(!config(usize::MAX, vec![]).queue_fits());
}

#[test]
fn deployment_is_exported_if_any_rule_matches() {
    let (sink, _task) = started(&config(
        10,
        vec![rule("QmA", &["Transfer"]), rule("QmB", &["Swap"])],
    ));
    assert!(sink.for_deployment(&deployment("QmA"), "sgd1").is_some());
    assert!(sink.for_deployment(&deployment("QmB"), "sgd2").is_some());
    assert!(sink.for_deployment(&deployment("QmC"), "sgd3").is_none());
    assert!(sink.for_deployment(&deployment("qma"), "sgd1").is_none());
}

#[test]
fn wildcard_rule_exports_all_deployments() {
    let (sink, _task) = started(&config(10, vec![rule("QmA", &["Transfer"]), rule("*", &["*"])]));
    assert!(sink.for_deployment(&deployment("QmZ"), "sgd9").is_some());
    assert!(sink.for_deployment(&deployment(""), "sgd9").is_some());
}

#[test]
fn first_matching_rule_decides_on_types() {
    let (sink, _task) = started(&config(
        10,
        vec![rule("QmA", &["Transfer", "Swap"]), rule("*", &["*"])],
    ));
    let narrow = sink.for_deployment(&deployment("QmA"), "sgd1").unwrap();
    assert!(narrow.wants(&entity_type("Transfer")));
    assert!(narrow.wants(&entity_type("Swap")));
    assert!(!narrow.wants(&entity_type("Mint")));
    let wide = sink.for_deployment(&deployment("QmB"), "sgd2").unwrap();
    assert!(wide.wants(&entity_type("Mint")));
}

#[test]
fn filter_of_the_first_matching_rule() {
    let (sink, _task) = started(&config(
        10,
        vec![rule("QmA", &["Transfer", "Transfer"]), rule("*", &["Swap", "*"])],
    ));
    match sink.filter_for(&deployment("QmA")) {
        Some(EntityFilter::Only(names)) => assert_eq!(names, vec!["Transfer"]),
        _ => panic!("expected a list of names"),
    }
    assert!(matches!(sink.filter_for(&deployment("QmB")), Some(EntityFilter::All)));
    let (other, _task) = started(&config(10, vec![rule("QmA", &[])]));
    assert!(other.filter_for(&deployment("QmB")).is_none());
    assert!(!other.filter_for(&deployment("QmA")).unwrap().matches("Transfer"));
}

#[test]
fn submitted_changes_reach_the_writer() {
    let (sink, task) = started(&config(10, vec![rule("*", &["*"])]));
    let target = sink.for_deployment(&deployment("QmA"), "sgd42").unwrap();
    target.submit(&BlockPtr { number: 7 }, removals(&["a", "b"]));
    let job = task.receiver.try_recv().unwrap();
    assert_eq!(job.namespace, "sgd42");
    assert_eq!(job.block_number, 7);
    assert_eq!(job.changes.len(), 2);
    assert_eq!(job.changes[0].id, "a");
    assert_eq!(job.changes[1].id, "b");
    assert_eq!(task.counters.rows_dropped.load(Ordering::Relaxed), 0);
    assert!(task.receiver.try_recv().is_err());
}

#[test]
fn empty_submission_is_skipped() {
    let (sink, task) = started(&config(10, vec![rule("*", &["*"])]));
    let target = sink.for_deployment(&deployment("QmA"), "sgd42").unwrap();
    target.submit(&BlockPtr { number: 7 }, vec![]);
    assert!(task.receiver.try_recv().is_err());
    assert!(target.make_job(&BlockPtr { number: 7 }, vec![]).is_none());
    assert_eq!(target.offer(&BlockPtr { number: 7 }, vec![]), Tally::none());
}

#[test]
fn full_queue_drops_whole_jobs_and_counts_their_rows() {
    let (sink, task) = started(&config(2, vec![rule("*", &["*"])]));
    let target = sink.for_deployment(&deployment("QmA"), "sgd42").unwrap();
    target.submit(&BlockPtr { number: 1 }, removals(&["a"]));
    target.submit(&BlockPtr { number: 2 }, removals(&["b"]));
    target.submit(&BlockPtr { number: 3 }, removals(&["c", "d", "e"]));
    assert_eq!(task.counters.rows_dropped.load(Ordering::Relaxed), 3);
    assert_eq!(task.counters.rows_sent.load(Ordering::Relaxed), 0);
    assert_eq!(task.counters.flush_errors.load(Ordering::Relaxed), 0);
    assert_eq!(task.receiver.try_recv().unwrap().block_number, 1);
    assert_eq!(task.receiver.try_recv().unwrap().block_number, 2);
    assert!(task.receiver.try_recv().is_err());
}

#[test]
fn zero_capacity_still_holds_one_job() {
    let (sink, task) = started(&config(0, vec![rule("*", &["*"])]));
    let target = sink.for_deployment(&deployment("QmA"), "sgd42").unwrap();
    assert_eq!(target.offer(&BlockPtr { number: 1 }, removals(&["a"])), Tally::none());
    assert_eq!(
        target.offer(&BlockPtr { number: 2 }, removals(&["b", "c"])),
        Tally::dropped(2)
    );
    assert_eq!(task.receiver.try_recv().unwrap().block_number, 1);
}

#[test]
fn sinks_share_the_queue() {
    let (sink, task) = started(&config(1, vec![rule("*", &["*"])]));
    let first = sink.for_deployment(&deployment("QmA"), "sgd1").unwrap();
    let second = sink.for_deployment(&deployment("QmB"), "sgd2").unwrap();
    first.submit(&BlockPtr { number: 1 }, removals(&["a"]));
    second.submit(&BlockPtr { number: 1 }, removals(&["b"]));
    assert_eq!(task.counters.rows_dropped.load(Ordering::Relaxed), 1);
    assert_eq!(task.receiver.try_recv().unwrap().namespace, "sgd1");
}

#[test]
fn submission_without_a_writer_is_dropped() {
    let (sink, task) = started(&config(10, vec![rule("*", &["*"])]));
    let target = sink.for_deployment(&deployment("QmA"), "sgd42").unwrap();
    let counters = task.counters.clone();
    drop(task);
    target.submit(&BlockPtr { number: 1 }, removals(&["a", "b"]));
    assert_eq!(counters.rows_dropped.load(Ordering::Relaxed), 2);
}

#[test]
fn lost_rows_of_an_offer() {
    let job = WriteJob {
        namespace: "sgd1".to_string(),
        block_number: 1,
        changes: removals(&["a", "b", "c"]),
    };
    assert_eq!(dropped_rows(&Offer::Queued), 0);
    assert_eq!(dropped_rows(&Offer::Full(job.clone())), 3);
    assert_eq!(dropped_rows(&Offer::Disconnected(job)), 3);
}

#[test]
fn counters_add_tallies_up() {
    let (_sink, task) = started(&config(10, vec![rule("*", &["*"])]));
    task.counters.record(&Tally::sent(5));
    task.counters.record(&Tally::dropped(2));
    task.counters.record(&Tally::failed(4));
    assert_eq!(task.counters.rows_sent.load(Ordering::Relaxed), 5);
    assert_eq!(task.counters.rows_dropped.load(Ordering::Relaxed), 6);
    assert_eq!(task.counters.flush_errors.load(Ordering::Relaxed), 1);
}

#[test]
fn counters_start_at_zero() {
    let (_sink, task) = started(&config(10, vec![rule("*", &["*"])]));
    assert_eq!(task.counters.rows_sent.load(Ordering::Relaxed), 0);
    assert_eq!(task.counters.rows_dropped.load(Ordering::Relaxed), 0);
    assert_eq!(task.counters.flush_errors.load(Ordering::Relaxed), 0);
}

#[test]
fn counted_submission_returns_what_it_adds() {
    let (sink, task) = started(&config(1, vec![rule("*", &["*"])]));
    let target = sink.for_deployment(&deployment("QmA"), "sgd42").unwrap();
    let block = BlockPtr { number: 1 };
    assert_eq!(target.submit_counted(&block, vec![]), Tally::none());
    assert_eq!(target.submit_counted(&block, removals(&["a"])), Tally::none());
    assert_eq!(task.counters.rows_dropped.load(Ordering::Relaxed), 0);
    assert_eq!(target.submit_counted(&block, removals(&["b", "c"])), Tally::dropped(2));
    assert_eq!(target.submit_counted(&block, vec![]), Tally::none());
    assert_eq!(task.counters.rows_dropped.load(Ordering::Relaxed), 2);
    assert_eq!(task.counters.rows_sent.load(Ordering::Relaxed), 0);
    assert_eq!(task.counters.flush_errors.load(Ordering::Relaxed), 0);
}

#[test]
fn offering_alone_counts_nothing() {
    let (sink, task) = started(&config(1, vec![rule("*", &["*"])]));
    let target = sink.for_deployment(&deployment("QmA"), "sgd42").unwrap();
    assert_eq!(target.offer(&BlockPtr { number: 1 }, removals(&["a"])), Tally::none());
    assert_eq!(target.offer(&BlockPtr { number: 2 }, removals(&["b"])), Tally::dropped(1));
    assert_eq!(task.counters.rows_dropped.load(Ordering::Relaxed), 0);
}

#[test]
fn every_change_is_queued_or_dropped() {
    let (sink, task) = started(&config(3, vec![rule("*", &["*"])]));
    let first = sink.for_deployment(&deployment("QmA"), "sgd1").unwrap();
    let second = sink.for_deployment(&deployment("QmB"), "sgd2").unwrap();
    first.submit(&BlockPtr { number: 1 }, removals(&["a", "b"]));
    second.submit(&BlockPtr { number: 2 }, removals(&["c"]));
    first.submit(&BlockPtr { number: 3 }, vec![]);
    second.submit(&BlockPtr { number: 4 }, removals(&["d", "e", "f"]));
    first.submit(&BlockPtr { number: 5 }, removals(&["g", "h"]));
    second.submit(&BlockPtr { number: 6 }, removals(&["i"]));
    let jobs: Vec<WriteJob> = task.receiver.try_iter().collect();
    let blocks: Vec<i32> = jobs.iter().map(|job| job.block_number).collect();
    assert_eq!(blocks, vec![1, 2, 4]);
    let queued: usize = jobs.iter().map(|job| job.changes.len()).sum();
    assert_eq!(queued, 6);
    assert_eq!(task.counters.rows_dropped.load(Ordering::Relaxed), 3);
}

#[test]
fn handing_sinks_out_leaves_queue_and_counters_alone() {
    let (sink, task) = started(&config(1, vec![rule("QmA", &["*"])]));
    let target = sink.for_deployment(&deployment("QmA"), "sgd1").unwrap();
    target.submit(&BlockPtr { number: 1 }, removals(&["a"]));
    target.submit(&BlockPtr { number: 2 }, removals(&["b"]));
    assert!(sink.for_deployment(&deployment("QmA"), "sgd1").is_some());
    assert!(sink.for_deployment(&deployment("QmB"), "sgd2").is_none());
    assert_eq!(task.counters.rows_dropped.load(Ordering::Relaxed), 1);
    assert_eq!(task.counters.rows_sent.load(Ordering::Relaxed), 0);
    assert_eq!(task.counters.flush_errors.load(Ordering::Relaxed), 0);
    assert_eq!(task.receiver.try_recv().unwrap().block_number, 1);
    assert!(task.receiver.try_recv().is_err());
}
