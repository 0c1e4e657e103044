//! The sink registry and the per-deployment sinks.

use crate::config::{ExportRule, QuestDbConfig};
use crate::counters::{Counters, Tally};
use crate::entity::{BlockPtr, DeploymentHash, EntityType};
use crate::filter::{lists, EntityFilter};
use crate::job::WriteJob;
use crate::queue::{
    answers, bound_fits, bounded_queue, dropped_rows, offer_job, offer_tally, queue_bound,
    receiver_channel, sender_channel, share_sender, Offer, SLOT_BYTES,
};
use crate::sink::{DeploymentSink, EntityChange, EntitySinkRegistry};
use std::sync::atomic::AtomicU64;
use std::sync::mpsc::{Receiver, SyncSender};
use std::sync::Arc;
use vstd::prelude::*;

verus! {

/// Whether a rule's pattern stands for a deployment.
pub open spec fn pattern_matches(pattern: Seq<char>, deployment: Seq<char>) -> bool {
    pattern == "*"@ || pattern == deployment
}

/// The position of the first pattern that stands for the deployment; the number of patterns if
/// none does.
pub open spec fn first_match(patterns: Seq<Seq<char>>, deployment: Seq<char>) -> nat
    decreases patterns.len(),
{
    if patterns.len() == 0 || pattern_matches(patterns[0], deployment) {
        0
    } else {
        1 + first_match(patterns.skip(1), deployment)
    }
}

/// `first_match` finds a pattern that stands for the deployment, and none before it does.
pub proof fn first_match_is_first(patterns: Seq<Seq<char>>, deployment: Seq<char>)
    ensures
        first_match(patterns, deployment) <= patterns.len(),
        first_match(patterns, deployment) < patterns.len() ==> pattern_matches(
            patterns[first_match(patterns, deployment) as int],
            deployment,
        ),
        forall|i: int|
            0 <= i < first_match(patterns, deployment) ==> !pattern_matches(
                #[trigger] patterns[i],
                deployment,
            ),
    decreases patterns.len(),
{
    if patterns.len() > 0 && !pattern_matches(patterns[0], deployment) {
        first_match_is_first(patterns.skip(1), deployment);
        assert forall|i: int| 0 <= i < first_match(patterns, deployment) implies !pattern_matches(
            #[trigger] patterns[i],
            deployment,
        ) by {
            if i > 0 {
                assert(patterns.skip(1)[i - 1] == patterns[i]);
            }
        }
    }
}

/// The patterns of export rules.
pub open spec fn rule_patterns(rules: Seq<ExportRule>) -> Seq<Seq<char>> {
    rules.map_values(|rule: ExportRule| rule.subgraph@)
}

/// Whether a rule exports a type.
pub open spec fn rule_accepts(rule: ExportRule, entity_type: Seq<char>) -> bool {
    lists(rule.entities@, "*"@) || lists(rule.entities@, entity_type)
}

/// Whether export rules have a deployment exported.
pub open spec fn rules_export(rules: Seq<ExportRule>, deployment: Seq<char>) -> bool {
    first_match(rule_patterns(rules), deployment) < rules.len()
}

/// Whether export rules have entities of a type exported for a deployment: the first rule that
/// matches the deployment decides.
pub open spec fn rules_export_type(
    rules: Seq<ExportRule>,
    deployment: Seq<char>,
    entity_type: Seq<char>,
) -> bool {
    let first = first_match(rule_patterns(rules), deployment);
    first < rules.len() && rule_accepts(rules[first as int], entity_type)
}

/// A deployment is exported if any rule matches it, and only then.
pub proof fn exported_iff_any_rule_matches(rules: Seq<ExportRule>, deployment: Seq<char>)
    ensures
        rules_export(rules, deployment) <==> exists|i: int|
            0 <= i < rules.len() && pattern_matches(#[trigger] rules[i].subgraph@, deployment),
{
    let patterns = rule_patterns(rules);
    let first = first_match(patterns, deployment);
    first_match_is_first(patterns, deployment);
    if first < rules.len() {
        assert(patterns[first as int] == rules[first as int].subgraph@);
    }
    assert forall|i: int| 0 <= i < first implies !pattern_matches(
        #[trigger] rules[i].subgraph@,
        deployment,
    ) by {
        assert(patterns[i] == rules[i].subgraph@);
    }
}

/// A rule for all deployments has every deployment exported.
pub proof fn wildcard_rule_exports_every_deployment(
    rules: Seq<ExportRule>,
    i: int,
    deployment: Seq<char>,
)
    requires
        0 <= i < rules.len(),
        rules[i].subgraph@ == "*"@,
    ensures
        rules_export(rules, deployment),
{
    exported_iff_any_rule_matches(rules, deployment);
    assert(pattern_matches(rules[i].subgraph@, deployment));
}

/// A deployment that is not exported has no type exported.
pub proof fn unmatched_deployment_exports_no_type(
    rules: Seq<ExportRule>,
    deployment: Seq<char>,
    entity_type: Seq<char>,
)
    requires
        forall|i: int|
            0 <= i < rules.len() ==> !pattern_matches(#[trigger] rules[i].subgraph@, deployment),
    ensures
        !rules_export(rules, deployment),
        !rules_export_type(rules, deployment, entity_type),
{
    exported_iff_any_rule_matches(rules, deployment);
}

/// The table prefix that a configuration asks for: none means the empty one.
pub open spec fn configured_prefix(config: QuestDbConfig) -> Seq<char> {
    match config.table_prefix {
        Some(prefix) => prefix@,
        None => Seq::empty(),
    }
}

/// The queue capacity that a configuration asks for, and at least one.
pub open spec fn configured_capacity(config: QuestDbConfig) -> nat {
    if config.queue_capacity == 0 {
        1
    } else {
        config.queue_capacity as nat
    }
}

impl QuestDbConfig {
    /// Tells whether the queue that the configuration asks for can be made.
    pub fn queue_fits(&self) -> (fits: bool)
        ensures
            fits == bound_fits(configured_capacity(*self)),
    {
        let capacity: usize = if self.queue_capacity == 0 {
            1
        } else {
            self.queue_capacity
        };
        capacity as u128 * SLOT_BYTES as u128 <= isize::MAX as u128
    }
}

/// The QuestDB sink registry. Construct one with [`QuestDbSink::start`] and register it with the
/// subgraph store.
pub struct QuestDbSink {
    sender: SyncSender<WriteJob>,
    table_prefix: String,
    rules: Vec<(String, EntityFilter)>,
    counters: Arc<Counters>,
}

/// What the background writer works with.
pub struct WriterTask {
    /// The connection string.
    pub conf: String,
    /// The prefix of every table name.
    pub table_prefix: String,
    /// Where the jobs come from.
    pub receiver: Receiver<WriteJob>,
    /// The counters that the writer shares with the sinks.
    pub counters: Arc<Counters>,
}

impl QuestDbSink {
    /// The patterns of the export rules.
    pub closed spec fn patterns(&self) -> Seq<Seq<char>> {
        self.rules@.map_values(|rule: (String, EntityFilter)| rule.0@)
    }

    /// The names that the filter of a rule lists; `None` if it takes every type.
    pub closed spec fn rule_names(&self, i: int) -> Option<Seq<String>> {
        self.rules@[i].1.names()
    }

    /// Whether the filter of a rule takes a type.
    pub open spec fn rule_takes(&self, i: int, entity_type: Seq<char>) -> bool {
        match self.rule_names(i) {
            None => true,
            Some(names) => lists(names, entity_type),
        }
    }

    /// The number of jobs that can wait for the writer.
    pub closed spec fn capacity(&self) -> nat {
        queue_bound(self.sender)
    }

    /// The channel that leads to the writer.
    pub closed spec fn channel(&self) -> int {
        sender_channel(self.sender)
    }

    /// The counters that the writer shares with the sinks.
    pub closed spec fn counters(&self) -> Counters {
        *self.counters
    }

    /// The prefix of every table name.
    pub closed spec fn prefix(&self) -> Seq<char> {
        self.table_prefix@
    }

    /// Whether a deployment is exported.
    pub open spec fn exports(&self, deployment: Seq<char>) -> bool {
        first_match(self.patterns(), deployment) < self.patterns().len()
    }

    /// Whether entities of a type are exported for a deployment.
    pub open spec fn exports_type(&self, deployment: Seq<char>, entity_type: Seq<char>) -> bool {
        let first = first_match(self.patterns(), deployment);
        first < self.patterns().len() && self.rule_takes(first as int, entity_type)
    }

    /// Prepare the queue to the background writer and return a registry ready to be handed to the
    /// subgraph store, with what the writer needs. Returns `None` if no config is provided or if it
    /// has no export rules.
    pub fn start(config: Option<&QuestDbConfig>) -> (started: Option<(QuestDbSink, WriterTask)>)
        requires
            config matches Some(given) ==> given.export@.len() > 0 ==> bound_fits(
                configured_capacity(*given),
            ),
        ensures
            started is Some <==> (config matches Some(given) && given.export@.len() > 0),
            started matches Some((sink, task)) ==> {
                let given = *config.unwrap();
                &&& sink.capacity() == configured_capacity(given)
                &&& sink.prefix() == configured_prefix(given)
                &&& forall|deployment: Seq<char>| #[trigger]
                    sink.exports(deployment) == rules_export(given.export@, deployment)
                &&& forall|deployment: Seq<char>, entity_type: Seq<char>| #[trigger]
                    sink.exports_type(deployment, entity_type) == rules_export_type(
                        given.export@,
                        deployment,
                        entity_type,
                    )
                &&& sink.patterns() == rule_patterns(given.export@)
                &&& forall|i: int, entity_type: Seq<char>|
                    0 <= i < given.export@.len() ==> #[trigger] sink.rule_takes(i, entity_type)
                        == rule_accepts(given.export@[i], entity_type)
                &&& forall|i: int|
                    0 <= i < given.export@.len() ==> (#[trigger] sink.rule_names(i) is None <==> lists(
                        given.export@[i].entities@,
                        "*"@,
                    ))
                &&& receiver_channel(task.receiver) == sink.channel()
                &&& *task.counters == sink.counters()
                &&& sink.counters().start_at_zero()
                &&& task.conf@ == given.url@
                &&& task.table_prefix@ == configured_prefix(given)
            },
    {
        let config = match config {
            Some(config) => config,
            None => {
                return None;
            },
        };
        if config.export.len() == 0 {
            return None;
        }
        let capacity: usize = if config.queue_capacity == 0 {
            1
        } else {
            config.queue_capacity
        };
        let (sender, receiver) = bounded_queue(capacity);
        let counters = Arc::new(Counters::new());
        let table_prefix = match &config.table_prefix {
            Some(prefix) => prefix.clone(),
            None => String::new(),
        };
        let mut rules: Vec<(String, EntityFilter)> = Vec::new();
        for i in 0..config.export.len()
            invariant
                rules@.len() == i,
                forall|j: int|
                    0 <= j < i ==> (#[trigger] rules@[j]).0@ == config.export@[j].subgraph@,
                forall|j: int, entity_type: Seq<char>|
                    0 <= j < i ==> #[trigger] rules@[j].1.accepts(entity_type) == rule_accepts(
                        config.export@[j],
                        entity_type,
                    ),
                forall|j: int|
                    0 <= j < i ==> (#[trigger] rules@[j].1.names() is None <==> lists(
                        config.export@[j].entities@,
                        "*"@,
                    )),
        {
            let rule = &config.export[i];
            rules.push((rule.subgraph.clone(), EntityFilter::from_rule(rule.entities.as_slice())));
        }
        let task = WriterTask {
            conf: config.url.clone(),
            table_prefix: table_prefix.clone(),
            receiver,
            counters: counters.clone(),
        };
        let sink = QuestDbSink { sender, table_prefix, rules, counters };
        proof {
            assert(sink.patterns() =~= rule_patterns(config.export@));
            assert forall|i: int, entity_type: Seq<char>| 0 <= i < config.export@.len() implies
                #[trigger] sink.rule_takes(i, entity_type) == rule_accepts(
                    config.export@[i],
                    entity_type,
                ) by {
                assert(rules@[i].1.accepts(entity_type) == sink.rule_takes(i, entity_type));
            }
            assert forall|deployment: Seq<char>, entity_type: Seq<char>| #[trigger]
                sink.exports_type(deployment, entity_type) == rules_export_type(
                    config.export@,
                    deployment,
                    entity_type,
                ) by {
                let first = first_match(sink.patterns(), deployment) as int;
                assert(first < config.export@.len() ==> sink.rule_takes(first, entity_type)
                    == rule_accepts(config.export@[first], entity_type));
            }
        }
        Some((sink, task))
    }

    /// The filter of the first rule that matches the deployment.
    pub fn filter_for(&self, deployment: &DeploymentHash) -> (filter: Option<EntityFilter>)
        ensures
            ({
                let first = first_match(self.patterns(), deployment@);
                match filter {
                    Some(found) => first < self.patterns().len() && found.names() == self.rule_names(
                        first as int,
                    ),
                    None => first == self.patterns().len(),
                }
            }),
    {
        let id = deployment.as_str();
        let ghost patterns = self.patterns();
        let mut i: usize = 0;
        assert(patterns.skip(0) =~= patterns);
        while i < self.rules.len()
            invariant
                i <= self.rules@.len(),
                id@ == deployment@,
                patterns == self.patterns(),
                patterns.len() == self.rules@.len(),
                first_match(patterns, deployment@) == i + first_match(
                    patterns.skip(i as int),
                    deployment@,
                ),
            decreases self.rules@.len() - i,
        {
            let rule = &self.rules[i];
            assert(patterns.skip(i as int)[0] == rule.0@);
            if *rule.0.as_str() == *"*" || *rule.0.as_str() == *id {
                return Some(rule.1.clone());
            }
            assert(patterns.skip(i as int).skip(1) =~= patterns.skip(i + 1));
            i = i + 1;
        }
        None
    }
}

impl EntitySinkRegistry for QuestDbSink {
    type Sink = QuestDbDeploymentSink;

    fn for_deployment(&self, deployment: &DeploymentHash, namespace: &str) -> (sink: Option<
        Arc<QuestDbDeploymentSink>,
    >)
        ensures
            sink is Some <==> self.exports(deployment@),
            sink matches Some(made) ==> {
                &&& made.namespace() == namespace@
                &&& made.capacity() == self.capacity()
                &&& made.channel() == self.channel()
                &&& made.counters() == self.counters()
                &&& forall|entity_type: Seq<char>| #[trigger]
                    made.exports_type(entity_type) == self.exports_type(deployment@, entity_type)
            },
    {
        match self.filter_for(deployment) {
            None => None,
            Some(filter) => {
                let sink = QuestDbDeploymentSink {
                    namespace: namespace.to_owned(),
                    filter,
                    sender: share_sender(&self.sender),
                    counters: self.counters.clone(),
                    _table_prefix: self.table_prefix.clone(),
                };
                Some(Arc::new(sink))
            },
        }
    }
}

/// A per-deployment sink that forwards committed changes to the writer thread.
pub struct QuestDbDeploymentSink {
    namespace: String,
    filter: EntityFilter,
    sender: SyncSender<WriteJob>,
    counters: Arc<Counters>,
    // Kept for potential future per-deployment table naming overrides.
    _table_prefix: String,
}

impl QuestDbDeploymentSink {
    /// The namespace of the tables that the sink's changes go to.
    pub closed spec fn namespace(&self) -> Seq<char> {
        self.namespace@
    }

    /// The number of jobs that can wait for the writer.
    pub closed spec fn capacity(&self) -> nat {
        queue_bound(self.sender)
    }

    /// The channel that leads to the writer.
    pub closed spec fn channel(&self) -> int {
        sender_channel(self.sender)
    }

    /// The counters that the writer shares with the sinks.
    pub closed spec fn counters(&self) -> Counters {
        *self.counters
    }

    /// Whether entities of a type are exported.
    pub closed spec fn exports_type(&self, entity_type: Seq<char>) -> bool {
        self.filter.accepts(entity_type)
    }

    /// Whether the job carries the changes of the block batch to the sink's tables.
    pub open spec fn carried_by(
        &self,
        job: WriteJob,
        block_ptr: BlockPtr,
        changes: Vec<EntityChange>,
    ) -> bool {
        &&& job.namespace@ == self.namespace()
        &&& job.block_number == block_ptr.number
        &&& job.changes == changes
    }

    /// The job that carries the changes of a block batch; `None` if there are no changes.
    pub fn make_job(&self, block_ptr: &BlockPtr, changes: Vec<EntityChange>) -> (job: Option<WriteJob>)
        ensures
            job is None <==> changes@.len() == 0,
            job matches Some(made) ==> self.carried_by(made, *block_ptr, changes),
    {
        if changes.len() == 0 {
            return None;
        }
        Some(
            WriteJob {
                namespace: self.namespace.clone(),
                block_number: block_ptr.number,
                changes,
            },
        )
    }

    /// Whether `outcome` is a result that offering the job to the sink's queue can have. Only a call
    /// with that job on that queue shows it.
    pub closed spec fn offered(&self, job: WriteJob, outcome: Offer) -> bool {
        call_ensures(offer_job, (&self.sender, job), outcome)
    }

    /// Whether handing a batch of changes over came to `outcome`: the job that carries them was
    /// offered to the sink's queue, and the queue took it or handed that very job back. All rows
    /// count as dropped if it was handed back, and none if it was taken.
    pub open spec fn handed_over(
        &self,
        block_ptr: BlockPtr,
        changes: Vec<EntityChange>,
        job: WriteJob,
        outcome: Offer,
    ) -> bool {
        &&& self.offered(job, outcome)
        &&& self.carried_by(job, block_ptr, changes)
        &&& answers(outcome, job)
        &&& offer_tally(outcome).rows_dropped == if outcome is Queued {
            0
        } else {
            changes@.len()
        }
    }

    /// Hands the changes of a block batch to the writer without waiting, and returns what that adds
    /// to the counters: the rows of the job that carries the changes, if the queue hands it back.
    pub fn offer(&self, block_ptr: &BlockPtr, changes: Vec<EntityChange>) -> (tally: Tally)
        ensures
            changes@.len() == 0 ==> tally == (Tally {
                rows_sent: 0,
                rows_dropped: 0,
                flush_errors: 0,
            }),
            changes@.len() > 0 ==> exists|job: WriteJob, outcome: Offer|
                {
                    &&& #[trigger] self.handed_over(*block_ptr, changes, job, outcome)
                    &&& tally == offer_tally(outcome)
                },
            tally.rows_dropped == 0 || tally.rows_dropped == changes@.len(),
    {
        match self.make_job(block_ptr, changes) {
            None => Tally::none(),
            Some(job) => {
                let offer = offer_job(&self.sender, job);
                let rows: u64 = dropped_rows(&offer);
                assert(self.handed_over(*block_ptr, changes, job, offer));
                Tally::dropped(rows)
            },
        }
    }

    /// Hands the changes of a block batch to the writer without waiting, adds the rows that are lost
    /// to the counters, and returns what was added.
    pub fn submit_counted(&self, block_ptr: &BlockPtr, changes: Vec<EntityChange>) -> (tally: Tally)
        ensures
            self.counters().adds(tally),
            changes@.len() == 0 ==> tally == (Tally {
                rows_sent: 0,
                rows_dropped: 0,
                flush_errors: 0,
            }),
            changes@.len() > 0 ==> exists|job: WriteJob, outcome: Offer|
                {
                    &&& #[trigger] self.handed_over(*block_ptr, changes, job, outcome)
                    &&& tally == offer_tally(outcome)
                },
            tally.rows_dropped == 0 || tally.rows_dropped == changes@.len(),
    {
        let tally = self.offer(block_ptr, changes);
        self.counters.record(&tally);
        tally
    }
}

impl DeploymentSink for QuestDbDeploymentSink {
    fn wants(&self, entity_type: &EntityType) -> (wanted: bool)
        ensures
            wanted == self.exports_type(entity_type@),
    {
        self.filter.matches(entity_type.as_str())
    }

    fn submit(&self, block_ptr: &BlockPtr, changes: Vec<EntityChange>)
        ensures
            changes@.len() == 0 ==> self.counters().adds(
                Tally { rows_sent: 0, rows_dropped: 0, flush_errors: 0 },
            ),
            changes@.len() > 0 ==> exists|job: WriteJob, outcome: Offer|
                {
                    &&& #[trigger] self.handed_over(*block_ptr, changes, job, outcome)
                    &&& self.counters().adds(offer_tally(outcome))
                },
    {
        self.submit_counted(block_ptr, changes);
    }
}

/// Starting gives nothing exactly when there is no configuration or no export rule in it.
pub proof fn starts_only_with_rules(
    config: Option<&QuestDbConfig>,
    started: Option<(QuestDbSink, WriterTask)>,
)
    requires
        call_ensures(QuestDbSink::start, (config,), started),
    ensures
        started is None <==> config is None || config.unwrap().export@.len() == 0,
{
}

/// The writer gets the connection string as it was configured, the prefix or an empty one, and the
/// other end of a queue with as many places as configured, and at least one; its counters are those
/// of the registry and were made with zero.
pub proof fn writer_gets_what_was_configured(
    config: QuestDbConfig,
    sink: QuestDbSink,
    task: WriterTask,
)
    requires
        call_ensures(QuestDbSink::start, (Some(&config),), Some((sink, task))),
    ensures
        task.conf@ == config.url@,
        config.table_prefix matches Some(prefix) ==> task.table_prefix@ == prefix@,
        config.table_prefix is None ==> task.table_prefix@.len() == 0,
        receiver_channel(task.receiver) == sink.channel(),
        config.queue_capacity > 0 ==> sink.capacity() == config.queue_capacity,
        config.queue_capacity == 0 ==> sink.capacity() == 1,
        *task.counters == sink.counters(),
        call_ensures(AtomicU64::new, (0u64,), task.counters.rows_sent),
        call_ensures(AtomicU64::new, (0u64,), task.counters.rows_dropped),
        call_ensures(AtomicU64::new, (0u64,), task.counters.flush_errors),
{
    let started = Some((sink, task));
    assert(started is Some);
}

/// A queue can be made if its places, at least one, take no more than the largest allocation.
pub proof fn queue_fits_if_its_places_do(config: QuestDbConfig, fits: bool)
    requires
        call_ensures(QuestDbConfig::queue_fits, (&config,), fits),
    ensures
        fits <==> (config.queue_capacity == 0 || config.queue_capacity * 64 <= isize::MAX),
        fits ==> call_requires(QuestDbSink::start, (Some(&config),)),
{
}

/// A deployment gets a sink if the pattern at some position of the rules is its id or `"*"`, and only
/// then.
pub proof fn deployment_is_exported_if_some_rule_names_it(
    config: QuestDbConfig,
    sink: QuestDbSink,
    task: WriterTask,
    deployment: DeploymentHash,
    namespace: &str,
    made: Option<Arc<QuestDbDeploymentSink>>,
)
    requires
        call_ensures(QuestDbSink::start, (Some(&config),), Some((sink, task))),
        call_ensures(QuestDbSink::for_deployment, (&sink, &deployment, namespace), made),
    ensures
        made is Some <==> exists|i: int|
            0 <= i < config.export@.len() && (#[trigger] config.export@[i].subgraph@
                == deployment.id@ || config.export@[i].subgraph@ == "*"@),
{
    let started = Some((sink, task));
    assert(started is Some);
    assert(sink.exports(deployment@) == rules_export(config.export@, deployment@));
    exported_iff_any_rule_matches(config.export@, deployment@);
    if made is Some {
        let i = choose|i: int|
            0 <= i < config.export@.len() && pattern_matches(
                #[trigger] config.export@[i].subgraph@,
                deployment@,
            );
        assert(config.export@[i].subgraph@ == deployment.id@ || config.export@[i].subgraph@ == "*"@);
    }
    assert forall|i: int|
        0 <= i < config.export@.len() && (#[trigger] config.export@[i].subgraph@ == deployment.id@
            || config.export@[i].subgraph@ == "*"@) implies made is Some by {
        assert(pattern_matches(config.export@[i].subgraph@, deployment@));
    }
}

/// The first rule whose pattern is the deployment's id or `"*"` decides which types its sink wants:
/// those at the positions of the rule's list, or all if one of the positions has `"*"`. What later
/// rules list does not matter.
pub proof fn first_rule_for_a_deployment_decides(
    config: QuestDbConfig,
    sink: QuestDbSink,
    task: WriterTask,
    deployment: DeploymentHash,
    namespace: &str,
    made: Arc<QuestDbDeploymentSink>,
    entity_type: EntityType,
    wanted: bool,
    first: int,
)
    requires
        call_ensures(QuestDbSink::start, (Some(&config),), Some((sink, task))),
        call_ensures(QuestDbSink::for_deployment, (&sink, &deployment, namespace), Some(made)),
        call_ensures(QuestDbDeploymentSink::wants, (&*made, &entity_type), wanted),
        0 <= first < config.export@.len(),
        config.export@[first].subgraph@ == deployment.id@ || config.export@[first].subgraph@ == "*"@,
        forall|i: int|
            0 <= i < first ==> #[trigger] config.export@[i].subgraph@ != deployment.id@
                && config.export@[i].subgraph@ != "*"@,
    ensures
        wanted <==> exists|k: int|
            0 <= k < config.export@[first].entities@.len() && (
            #[trigger] config.export@[first].entities@[k]@ == entity_type.name@
                || config.export@[first].entities@[k]@ == "*"@),
{
    let started = Some((sink, task));
    let rules = config.export@;
    assert(started is Some);
    let patterns = rule_patterns(rules);
    let found = first_match(patterns, deployment@) as int;
    lemma_first_rule(rules, deployment@, first);
    let rule = rules[first];
    let answer = Some(made);
    assert(answer is Some);
    assert(made.exports_type(entity_type@) == sink.exports_type(deployment@, entity_type@));
    assert(sink.exports_type(deployment@, entity_type@) == rules_export_type(
        rules,
        deployment@,
        entity_type@,
    ));
    assert(wanted == rule_accepts(rule, entity_type@));
    if lists(rule.entities@, "*"@) {
        let k = choose|k: int| 0 <= k < rule.entities@.len() && #[trigger] rule.entities@[k]@ == "*"@;
        assert(config.export@[first].entities@[k]@ == "*"@);
    }
    if lists(rule.entities@, entity_type@) {
        let k = choose|k: int|
            0 <= k < rule.entities@.len() && #[trigger] rule.entities@[k]@ == entity_type@;
        assert(config.export@[first].entities@[k]@ == entity_type.name@);
    }
}

/// The first rule that matches is where `first_match` points.
proof fn lemma_first_rule(rules: Seq<ExportRule>, deployment: Seq<char>, first: int)
    requires
        0 <= first < rules.len(),
        pattern_matches(rules[first].subgraph@, deployment),
        forall|i: int|
            0 <= i < first ==> !pattern_matches(#[trigger] rules[i].subgraph@, deployment),
    ensures
        first_match(rule_patterns(rules), deployment) == first,
{
    let patterns = rule_patterns(rules);
    let found = first_match(patterns, deployment) as int;
    first_match_is_first(patterns, deployment);
    assert(patterns[first] == rules[first].subgraph@);
    if found < first {
        assert(patterns[found] == rules[found].subgraph@);
    }
}

/// The filter that is found for a deployment takes what the first rule for it lists.
pub proof fn filter_is_that_of_the_first_rule(
    config: QuestDbConfig,
    sink: QuestDbSink,
    task: WriterTask,
    deployment: DeploymentHash,
    filter: EntityFilter,
    entity_type: &str,
    accepted: bool,
    first: int,
)
    requires
        call_ensures(QuestDbSink::start, (Some(&config),), Some((sink, task))),
        call_ensures(QuestDbSink::filter_for, (&sink, &deployment), Some(filter)),
        call_ensures(EntityFilter::matches, (&filter, entity_type), accepted),
        0 <= first < config.export@.len(),
        config.export@[first].subgraph@ == deployment.id@ || config.export@[first].subgraph@ == "*"@,
        forall|i: int|
            0 <= i < first ==> #[trigger] config.export@[i].subgraph@ != deployment.id@
                && config.export@[i].subgraph@ != "*"@,
    ensures
        accepted <==> exists|k: int|
            0 <= k < config.export@[first].entities@.len() && (
            #[trigger] config.export@[first].entities@[k]@ == entity_type@
                || config.export@[first].entities@[k]@ == "*"@),
        filter is All <==> exists|k: int|
            0 <= k < config.export@[first].entities@.len()
                && #[trigger] config.export@[first].entities@[k]@ == "*"@,
{
    let started = Some((sink, task));
    let found = Some(filter);
    let rule = config.export@[first];
    assert(started is Some);
    assert(found is Some);
    lemma_first_rule(config.export@, deployment@, first);
    assert(filter.accepts(entity_type@) == sink.rule_takes(first, entity_type@));
    assert(sink.rule_takes(first, entity_type@) == rule_accepts(rule, entity_type@));
    assert(filter.names() == sink.rule_names(first));
    assert(filter is All <==> lists(rule.entities@, "*"@));
    if lists(rule.entities@, "*"@) {
        let k = choose|k: int| 0 <= k < rule.entities@.len() && #[trigger] rule.entities@[k]@ == "*"@;
        assert(config.export@[first].entities@[k]@ == "*"@);
    }
    if lists(rule.entities@, entity_type@) {
        let k = choose|k: int|
            0 <= k < rule.entities@.len() && #[trigger] rule.entities@[k]@ == entity_type@;
        assert(config.export@[first].entities@[k]@ == entity_type@);
    }
}

/// A filter is found for a deployment if the pattern at some position of the rules is its id or `"*"`,
/// and only then.
pub proof fn filter_is_found_if_some_rule_names_the_deployment(
    config: QuestDbConfig,
    sink: QuestDbSink,
    task: WriterTask,
    deployment: DeploymentHash,
    filter: Option<EntityFilter>,
)
    requires
        call_ensures(QuestDbSink::start, (Some(&config),), Some((sink, task))),
        call_ensures(QuestDbSink::filter_for, (&sink, &deployment), filter),
    ensures
        filter is Some <==> exists|i: int|
            0 <= i < config.export@.len() && (#[trigger] config.export@[i].subgraph@
                == deployment.id@ || config.export@[i].subgraph@ == "*"@),
{
    let started = Some((sink, task));
    assert(started is Some);
    exported_iff_any_rule_matches(config.export@, deployment@);
    assert(sink.patterns() == rule_patterns(config.export@));
    if filter is Some {
        let i = choose|i: int|
            0 <= i < config.export@.len() && pattern_matches(
                #[trigger] config.export@[i].subgraph@,
                deployment@,
            );
        assert(config.export@[i].subgraph@ == deployment.id@ || config.export@[i].subgraph@ == "*"@);
    }
    assert forall|i: int|
        0 <= i < config.export@.len() && (#[trigger] config.export@[i].subgraph@ == deployment.id@
            || config.export@[i].subgraph@ == "*"@) implies filter is Some by {
        assert(pattern_matches(config.export@[i].subgraph@, deployment@));
    }
}

/// The sinks of a registry hold a sender to the registry's own queue and the registry's own counters.
proof fn sinks_hold_the_queue_of_their_registry(
    registry: QuestDbSink,
    deployment: DeploymentHash,
    namespace: &str,
    made: Arc<QuestDbDeploymentSink>,
)
    requires
        call_ensures(QuestDbSink::for_deployment, (&registry, &deployment, namespace), Some(made)),
    ensures
        sender_channel(made.sender) == sender_channel(registry.sender),
        queue_bound(made.sender) == queue_bound(registry.sender),
        *made.counters == *registry.counters,
        made.namespace@ == namespace@,
{
    let answer = Some(made);
    assert(answer is Some);
}

/// The registry holds a sender to the queue that the writer takes from, with the configured bound,
/// and the writer's counters.
proof fn registry_holds_the_queue_of_the_writer(
    config: QuestDbConfig,
    registry: QuestDbSink,
    task: WriterTask,
)
    requires
        call_ensures(QuestDbSink::start, (Some(&config),), Some((registry, task))),
    ensures
        sender_channel(registry.sender) == receiver_channel(task.receiver),
        config.queue_capacity > 0 ==> queue_bound(registry.sender) == config.queue_capacity,
        config.queue_capacity == 0 ==> queue_bound(registry.sender) == 1,
        *registry.counters == *task.counters,
{
    let started = Some((registry, task));
    assert(started is Some);
}

/// A job is offered by a call of the queue with the sink's own sender and that job.
proof fn jobs_are_offered_to_the_sinks_own_queue(
    sink: QuestDbDeploymentSink,
    job: WriteJob,
    outcome: Offer,
)
    requires
        sink.offered(job, outcome),
    ensures
        call_ensures(offer_job, (&sink.sender, job), outcome),
{
}

} // verus!
