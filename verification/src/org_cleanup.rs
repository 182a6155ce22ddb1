//! The plan of an organization's deletion: the fixed cleanup steps, the
//! per-stream sub-steps, and how a stored step name is read back.

use vstd::prelude::*;

use crate::text::{has_prefix, join_text, same_text, split_once_char, starts_with_text, strip_prefix_text};

verus! {

broadcast use vstd::seq_lib::group_seq_properties;

/// A failed step is not retried once it has been attempted this often.
pub const MAX_ATTEMPTS: i32 = 10;

pub const ORDER_DELETE_STREAMS: i32 = 100;
pub const ORDER_DELETE_STREAM_ITEM: i32 = 150;
pub const ORDER_DELETE_FILE_LIST: i32 = 200;
pub const ORDER_DELETE_DB_RESOURCES: i32 = 300;
pub const ORDER_DELETE_SCHEDULER_TRIGGERS: i32 = 400;
pub const ORDER_DELETE_K8S_RESOURCES: i32 = 500;
pub const ORDER_DELETE_USERS: i32 = 600;
pub const ORDER_DELETE_OFGA: i32 = 700;
pub const ORDER_DELETE_CLOUD_BILLING: i32 = 800;
pub const ORDER_DELETE_ORG_RECORD: i32 = 900;

/// Done tasks older than this many microseconds (thirty days) are purged.
pub const RETENTION_MICROS: i64 = 2_592_000_000_000;

/// A cleanup task to be stored.
#[derive(Debug)]
pub struct NewCleanupTask {
    pub org_id: String,
    pub org_name: String,
    pub step: String,
    pub step_order: i32,
}

/// A stored cleanup task.
#[derive(Debug)]
pub struct CleanupTask {
    pub id: String,
    pub org_id: String,
    pub org_name: String,
    pub step: String,
    pub step_order: i32,
    pub status: String,
    pub attempts: i32,
}

/// The names of the fixed cleanup steps, in the order in which they run.
pub open spec fn fixed_step_names() -> Seq<Seq<char>> {
    seq![
        "delete_streams"@,
        "delete_file_list"@,
        "delete_db_resources"@,
        "delete_scheduler_triggers"@,
        "delete_k8s_resources"@,
        "delete_users"@,
        "delete_ofga"@,
        "delete_cloud_billing"@,
        "delete_org_record"@,
    ]
}

/// The order of each fixed cleanup step.
pub open spec fn fixed_step_orders() -> Seq<i32> {
    seq![
        ORDER_DELETE_STREAMS,
        ORDER_DELETE_FILE_LIST,
        ORDER_DELETE_DB_RESOURCES,
        ORDER_DELETE_SCHEDULER_TRIGGERS,
        ORDER_DELETE_K8S_RESOURCES,
        ORDER_DELETE_USERS,
        ORDER_DELETE_OFGA,
        ORDER_DELETE_CLOUD_BILLING,
        ORDER_DELETE_ORG_RECORD,
    ]
}

fn planned_task(org_id: &str, org_name: &str, step: &str, step_order: i32) -> (r: NewCleanupTask)
    ensures
        r.org_id@ == org_id@,
        r.org_name@ == org_name@,
        r.step@ == step@,
        r.step_order == step_order,
{
    NewCleanupTask {
        org_id: org_id.to_owned(),
        org_name: org_name.to_owned(),
        step: step.to_owned(),
        step_order,
    }
}

/// The fixed cleanup tasks of an organization, one per fixed step, in the
/// order in which they run.
pub fn fixed_steps(org_id: &str, org_name: &str) -> (r: Vec<NewCleanupTask>)
    ensures
        r.len() == fixed_step_names().len(),
        forall|i: int|
            #![trigger r@[i]]
            0 <= i < r.len() ==> {
                &&& r@[i].org_id@ == org_id@
                &&& r@[i].org_name@ == org_name@
                &&& r@[i].step@ == fixed_step_names()[i]
                &&& r@[i].step_order == fixed_step_orders()[i]
            },
        forall|i: int, j: int| 0 <= i < j < r.len() ==> r@[i].step_order < r@[j].step_order,
        forall|i: int, j: int| 0 <= i < j < r.len() ==> r@[i].step@ != r@[j].step@,
{
    let mut r: Vec<NewCleanupTask> = Vec::new();
    r.push(planned_task(org_id, org_name, "delete_streams", ORDER_DELETE_STREAMS));
    r.push(planned_task(org_id, org_name, "delete_file_list", ORDER_DELETE_FILE_LIST));
    r.push(planned_task(org_id, org_name, "delete_db_resources", ORDER_DELETE_DB_RESOURCES));
    r.push(
        planned_task(org_id, org_name, "delete_scheduler_triggers", ORDER_DELETE_SCHEDULER_TRIGGERS),
    );
    r.push(planned_task(org_id, org_name, "delete_k8s_resources", ORDER_DELETE_K8S_RESOURCES));
    r.push(planned_task(org_id, org_name, "delete_users", ORDER_DELETE_USERS));
    r.push(planned_task(org_id, org_name, "delete_ofga", ORDER_DELETE_OFGA));
    r.push(planned_task(org_id, org_name, "delete_cloud_billing", ORDER_DELETE_CLOUD_BILLING));
    r.push(planned_task(org_id, org_name, "delete_org_record", ORDER_DELETE_ORG_RECORD));
    proof {
        lemma_fixed_step_names_distinct();
    }
    r
}

/// No two fixed steps share a name.
pub proof fn lemma_fixed_step_names_distinct()
    ensures
        fixed_step_names().no_duplicates(),
{
    reveal_strlit("delete_streams");
    reveal_strlit("delete_file_list");
    reveal_strlit("delete_db_resources");
    reveal_strlit("delete_scheduler_triggers");
    reveal_strlit("delete_k8s_resources");
    reveal_strlit("delete_users");
    reveal_strlit("delete_ofga");
    reveal_strlit("delete_cloud_billing");
    reveal_strlit("delete_org_record");
    let names = fixed_step_names();
    assert(names[0].len() == 14);
    assert(names[1].len() == 16);
    assert(names[2].len() == 19);
    assert(names[3].len() == 25);
    assert(names[4].len() == 20);
    assert(names[5].len() == 12);
    assert(names[6].len() == 11);
    assert(names[7].len() == 20);
    assert(names[8].len() == 17);
    assert(names[4][7] != names[7][7]);
    assert forall|i: int, j: int| 0 <= i < names.len() && 0 <= j < names.len() && i != j implies names[i]
        != names[j] by {
        if i == 4 && j == 7 || i == 7 && j == 4 {
            assert(names[i][7] != names[j][7]);
        }
    }
}

/// The work a stored step name stands for.
#[derive(Debug)]
pub enum CleanupStep {
    DeleteStreams,
    /// Deleting one stream; holds `<stream type>/<stream name>`.
    DeleteStream(String),
    DeleteFileList,
    DeleteDbResources,
    DeleteSchedulerTriggers,
    DeleteK8sResources,
    DeleteUsers,
    DeleteOfga,
    DeleteCloudBilling,
    DeleteOrgRecord,
    Unknown,
}

/// The prefix of the name of a per-stream sub-step.
pub open spec fn stream_step_prefix() -> Seq<char> {
    "delete_stream:"@
}

/// `step` is what the stored step name `s` stands for. A name is matched
/// against the fixed step names in turn, the per-stream prefix right after
/// the first of them.
pub open spec fn parses_as(s: Seq<char>, step: CleanupStep) -> bool {
    if s == "delete_streams"@ {
        step is DeleteStreams
    } else if has_prefix(s, stream_step_prefix()) {
        step matches CleanupStep::DeleteStream(rest) && rest@ == s.subrange(
            stream_step_prefix().len() as int,
            s.len() as int,
        )
    } else if s == "delete_file_list"@ {
        step is DeleteFileList
    } else if s == "delete_db_resources"@ {
        step is DeleteDbResources
    } else if s == "delete_scheduler_triggers"@ {
        step is DeleteSchedulerTriggers
    } else if s == "delete_k8s_resources"@ {
        step is DeleteK8sResources
    } else if s == "delete_users"@ {
        step is DeleteUsers
    } else if s == "delete_ofga"@ {
        step is DeleteOfga
    } else if s == "delete_cloud_billing"@ {
        step is DeleteCloudBilling
    } else if s == "delete_org_record"@ {
        step is DeleteOrgRecord
    } else {
        step is Unknown
    }
}

/// Reads a stored step name.
pub fn parse_step(step: &str) -> (r: CleanupStep)
    ensures
        parses_as(step@, r),
{
    if same_text(step, "delete_streams") {
        CleanupStep::DeleteStreams
    } else if let Some(rest) = strip_prefix_text(step, "delete_stream:") {
        CleanupStep::DeleteStream(rest.to_owned())
    } else if same_text(step, "delete_file_list") {
        CleanupStep::DeleteFileList
    } else if same_text(step, "delete_db_resources") {
        CleanupStep::DeleteDbResources
    } else if same_text(step, "delete_scheduler_triggers") {
        CleanupStep::DeleteSchedulerTriggers
    } else if same_text(step, "delete_k8s_resources") {
        CleanupStep::DeleteK8sResources
    } else if same_text(step, "delete_users") {
        CleanupStep::DeleteUsers
    } else if same_text(step, "delete_ofga") {
        CleanupStep::DeleteOfga
    } else if same_text(step, "delete_cloud_billing") {
        CleanupStep::DeleteCloudBilling
    } else if same_text(step, "delete_org_record") {
        CleanupStep::DeleteOrgRecord
    } else {
        CleanupStep::Unknown
    }
}

/// The name of the sub-step that deletes one stream.
pub open spec fn stream_step_text(stream_type: Seq<char>, stream_name: Seq<char>) -> Seq<char> {
    stream_step_prefix() + stream_type + seq!['/'] + stream_name
}

/// The name of the sub-step that deletes the stream `stream_name` of type
/// `stream_type`.
pub fn stream_step(stream_type: &str, stream_name: &str) -> (r: String)
    ensures
        r@ == stream_step_text(stream_type@, stream_name@),
{
    proof {
        reveal_strlit("/");
    }
    let with_prefix = join_text("delete_stream:", stream_type);
    let with_slash = join_text(with_prefix.as_str(), "/");
    join_text(with_slash.as_str(), stream_name)
}

/// One sub-task per stream, each `(stream type, stream name)`, in the order
/// of `streams`; they all run between the stream listing step and the file
/// list step.
pub fn stream_sub_tasks(org_id: &str, org_name: &str, streams: &Vec<(String, String)>) -> (r: Vec<
    NewCleanupTask,
>)
    ensures
        r.len() == streams.len(),
        forall|i: int|
            #![trigger r@[i]]
            0 <= i < r.len() ==> {
                &&& r@[i].org_id@ == org_id@
                &&& r@[i].org_name@ == org_name@
                &&& r@[i].step@ == stream_step_text(streams@[i].0@, streams@[i].1@)
                &&& r@[i].step_order == ORDER_DELETE_STREAM_ITEM
            },
{
    let mut r: Vec<NewCleanupTask> = Vec::new();
    let n = streams.len();
    let mut i: usize = 0;
    while i < n
        invariant
            n == streams.len(),
            0 <= i <= n,
            r.len() == i,
            forall|k: int|
                #![trigger r@[k]]
                0 <= k < i ==> {
                    &&& r@[k].org_id@ == org_id@
                    &&& r@[k].org_name@ == org_name@
                    &&& r@[k].step@ == stream_step_text(streams@[k].0@, streams@[k].1@)
                    &&& r@[k].step_order == ORDER_DELETE_STREAM_ITEM
                },
        decreases n - i,
    {
        let step = stream_step(streams[i].0.as_str(), streams[i].1.as_str());
        r.push(
            NewCleanupTask {
                org_id: org_id.to_owned(),
                org_name: org_name.to_owned(),
                step,
                step_order: ORDER_DELETE_STREAM_ITEM,
            },
        );
        i = i + 1;
    }
    r
}

/// The stored tasks that are per-stream sub-steps.
pub open spec fn stream_sub_task_count(all: Seq<CleanupTask>) -> nat {
    all.filter(|t: CleanupTask| has_prefix(t.step@, stream_step_prefix())).len()
}

/// No task holds no sub-task, and appending a task to a listing raises the
/// count by one exactly when its step starts with "delete_stream:".
pub proof fn lemma_stream_sub_task_count_push(all: Seq<CleanupTask>, t: CleanupTask)
    ensures
        stream_sub_task_count(Seq::<CleanupTask>::empty()) == 0,
        stream_sub_task_count(all.push(t)) == stream_sub_task_count(all) + if has_prefix(
            t.step@,
            "delete_stream:"@,
        ) {
            1nat
        } else {
            0nat
        },
{
    all.lemma_filter_push(t, |t: CleanupTask| has_prefix(t.step@, stream_step_prefix()));
    assert(Seq::<CleanupTask>::empty().filter(|t: CleanupTask| has_prefix(t.step@, stream_step_prefix()))
        =~= Seq::<CleanupTask>::empty());
}

/// Counts the stored tasks whose step names a per-stream sub-step.
pub fn count_stream_sub_tasks(all: &Vec<CleanupTask>) -> (r: usize)
    ensures
        r == stream_sub_task_count(all@),
{
    let n = all.len();
    let mut count: usize = 0;
    let mut i: usize = 0;
    while i < n
        invariant
            n == all@.len(),
            0 <= i <= n,
            count == stream_sub_task_count(all@.subrange(0, i as int)),
            count <= i,
        decreases n - i,
    {
        proof {
            assert(all@.subrange(0, i + 1) =~= all@.subrange(0, i as int).push(all@[i as int]));
            all@.subrange(0, i as int).lemma_filter_push(
                all@[i as int],
                |t: CleanupTask| has_prefix(t.step@, stream_step_prefix()),
            );
        }
        if starts_with_text(all[i].step.as_str(), "delete_stream:") {
            count = count + 1;
        }
        i = i + 1;
    }
    proof {
        assert(all@.subrange(0, n as int) =~= all@);
    }
    count
}

/// The sub-tasks stored do not match those that were enqueued.
pub struct SubTaskCountMismatch {
    pub expected: usize,
    pub got: usize,
}

/// Checks that exactly `expected` per-stream sub-tasks are stored among
/// `all`.
pub fn check_stream_sub_tasks(expected: usize, all: &Vec<CleanupTask>) -> (r: Result<
    (),
    SubTaskCountMismatch,
>)
    ensures
        r is Ok <==> stream_sub_task_count(all@) == expected,
        r matches Err(e) ==> e.expected == expected && e.got == stream_sub_task_count(all@),
{
    let got = count_stream_sub_tasks(all);
    if got != expected {
        Err(SubTaskCountMismatch { expected, got })
    } else {
        Ok(())
    }
}

/// Splits a per-stream key `<stream type>/<stream name>` at its first `/`.
pub fn split_stream_key(key: &str) -> (r: Option<(String, String)>)
    ensures
        match r {
            Some((stream_type, stream_name)) => stream_type@ + seq!['/'] + stream_name@ == key@
                && !stream_type@.contains('/'),
            None => !key@.contains('/'),
        },
{
    match split_once_char(key, '/') {
        Some((stream_type, stream_name)) => Some((stream_type.to_owned(), stream_name.to_owned())),
        None => None,
    }
}

/// A per-stream sub-step name reads back as the deletion of that stream,
/// and its key splits back into the stream's type and name, when the type
/// holds no `/`. Each such name is counted as a per-stream sub-step.
pub proof fn lemma_stream_step_round_trip(stream_type: Seq<char>, stream_name: Seq<char>)
    requires
        !stream_type.contains('/'),
    ensures
        has_prefix(stream_step_text(stream_type, stream_name), stream_step_prefix()),
        forall|step: CleanupStep|
            parses_as(stream_step_text(stream_type, stream_name), step) ==> (step matches CleanupStep::DeleteStream(
                key,
            ) && key@ == stream_type + seq!['/'] + stream_name),
        forall|head: Seq<char>, tail: Seq<char>|
            head + seq!['/'] + tail == stream_type + seq!['/'] + stream_name && !head.contains('/')
                ==> head == stream_type && tail == stream_name,
{
    reveal_strlit("delete_stream:");
    reveal_strlit("delete_streams");
    let p = stream_step_prefix();
    let s = stream_step_text(stream_type, stream_name);
    assert(s.subrange(0, p.len() as int) =~= p);
    assert(s.subrange(p.len() as int, s.len() as int) =~= stream_type + seq!['/'] + stream_name);
    assert(s[13] != "delete_streams"@[13]);
    assert(s != "delete_streams"@);
    assert forall|head: Seq<char>, tail: Seq<char>|
        head + seq!['/'] + tail == stream_type + seq!['/'] + stream_name && !head.contains(
            '/',
        ) implies head == stream_type && tail == stream_name by {
        crate::text::lemma_split_of_join(stream_type, stream_name, head, tail, '/');
    }
}

/// Every fixed step name reads back as its own step, and none as a
/// per-stream sub-step or an unknown one.
pub proof fn lemma_fixed_steps_are_known(i: int, step: CleanupStep)
    requires
        0 <= i < fixed_step_names().len(),
        parses_as(fixed_step_names()[i], step),
    ensures
        !(step is Unknown),
        !(step is DeleteStream),
        i == 0 ==> step is DeleteStreams,
        i == 1 ==> step is DeleteFileList,
        i == 2 ==> step is DeleteDbResources,
        i == 3 ==> step is DeleteSchedulerTriggers,
        i == 4 ==> step is DeleteK8sResources,
        i == 5 ==> step is DeleteUsers,
        i == 6 ==> step is DeleteOfga,
        i == 7 ==> step is DeleteCloudBilling,
        i == 8 ==> step is DeleteOrgRecord,
{
    reveal_strlit("delete_stream:");
    reveal_strlit("delete_streams");
    reveal_strlit("delete_file_list");
    reveal_strlit("delete_db_resources");
    reveal_strlit("delete_scheduler_triggers");
    reveal_strlit("delete_k8s_resources");
    reveal_strlit("delete_users");
    reveal_strlit("delete_ofga");
    reveal_strlit("delete_cloud_billing");
    reveal_strlit("delete_org_record");
    let names = fixed_step_names();
    let p = stream_step_prefix();
    assert(p.len() == 14);
    if i != 0 {
        let s = names[i];
        if has_prefix(s, p) {
            assert(s[7] == p[7]);
            assert(s[8] == p[8]);
            assert(false);
        }
    }
    lemma_fixed_step_names_distinct();
}

/// The per-stream sub-steps run after the stream listing step and before
/// the file list step, and the fixed steps run in the order of their
/// constants.
pub proof fn lemma_step_orders_chain()
    ensures
        ORDER_DELETE_STREAMS < ORDER_DELETE_STREAM_ITEM < ORDER_DELETE_FILE_LIST,
        forall|i: int, j: int|
            0 <= i < j < fixed_step_orders().len() ==> fixed_step_orders()[i]
                < fixed_step_orders()[j],
        fixed_step_orders()[0] == ORDER_DELETE_STREAMS,
        fixed_step_orders()[1] == ORDER_DELETE_FILE_LIST,
{
}

/// The key prefix under which an organization's saved views are stored.
pub fn saved_views_prefix(org_id: &str) -> (r: String)
    ensures
        r@ == "/organization/savedviews/"@ + org_id@ + "/"@,
{
    let head = join_text("/organization/savedviews/", org_id);
    join_text(head.as_str(), "/")
}

/// Done tasks that finished before the returned instant are purged.
pub fn retention_cutoff(now_micros: i64) -> (r: i64)
    requires
        now_micros >= i64::MIN + RETENTION_MICROS,
    ensures
        r == now_micros - RETENTION_MICROS,
{
    now_micros - RETENTION_MICROS
}

/// A member whose only organization is the one being deleted is removed
/// entirely, not only from the organization.
pub fn removes_whole_user(org_count: usize) -> (r: bool)
    ensures
        r == (org_count <= 1),
{
    org_count <= 1
}

/// A table whose rows of an organization are deleted in one call.
#[derive(Debug, PartialEq, Eq, Structural)]
pub enum OrgTable {
    AlertIncidents,
    IncidentEvents,
    Alerts,
    Folders,
    TimedAnnotations,
    Dashboards,
    Templates,
    Destinations,
    Reports,
    ActionScripts,
    KvStore,
    Cipher,
    EnrichmentTables,
    EnrichmentTableUrls,
    BackfillJobs,
    SearchQueue,
    RePattern,
    RePatternStreamMap,
    OrgStorageProviders,
    TrialQuotaUsage,
    ServiceStreams,
    DistinctValues,
    ShortUrls,
    CompactorManualJobs,
    SearchJobs,
}

/// One deletion of the database cleanup step.
#[derive(Debug, PartialEq, Eq, Structural)]
pub enum DbCleanup {
    /// The organization's rows of a table; a failure is reported and the
    /// step goes on.
    Rows(OrgTable),
    /// The organization's system settings; a failure is reported and the
    /// step goes on.
    OrgSettings,
    /// Each pipeline of the organization, one by one; a failure ends the step.
    Pipelines,
    /// The saved views under `saved_views_prefix`; a failure ends the step.
    SavedViews,
}

/// The deletions of the database cleanup step, in the order in which they
/// run.
pub open spec fn db_cleanup_order() -> Seq<DbCleanup> {
    seq![
        DbCleanup::Rows(OrgTable::AlertIncidents),
        DbCleanup::Rows(OrgTable::IncidentEvents),
        DbCleanup::Rows(OrgTable::Alerts),
        DbCleanup::Rows(OrgTable::TimedAnnotations),
        DbCleanup::Rows(OrgTable::Dashboards),
        DbCleanup::Rows(OrgTable::Folders),
        DbCleanup::Rows(OrgTable::Templates),
        DbCleanup::Rows(OrgTable::Destinations),
        DbCleanup::Rows(OrgTable::Reports),
        DbCleanup::Rows(OrgTable::ActionScripts),
        DbCleanup::Rows(OrgTable::KvStore),
        DbCleanup::Rows(OrgTable::Cipher),
        DbCleanup::Rows(OrgTable::EnrichmentTables),
        DbCleanup::Rows(OrgTable::EnrichmentTableUrls),
        DbCleanup::Rows(OrgTable::BackfillJobs),
        DbCleanup::Rows(OrgTable::SearchQueue),
        DbCleanup::Rows(OrgTable::RePattern),
        DbCleanup::Rows(OrgTable::RePatternStreamMap),
        DbCleanup::Rows(OrgTable::OrgStorageProviders),
        DbCleanup::Rows(OrgTable::TrialQuotaUsage),
        DbCleanup::Rows(OrgTable::ServiceStreams),
        DbCleanup::OrgSettings,
        DbCleanup::Pipelines,
        DbCleanup::SavedViews,
        DbCleanup::Rows(OrgTable::DistinctValues),
        DbCleanup::Rows(OrgTable::ShortUrls),
        DbCleanup::Rows(OrgTable::CompactorManualJobs),
        DbCleanup::Rows(OrgTable::SearchJobs),
    ]
}

/// Whether a failure of this deletion ends the database cleanup step.
pub open spec fn ends_step_on_failure(item: DbCleanup) -> bool {
    item is Pipelines || item is SavedViews
}

/// The deletions of the database cleanup step, in the order in which they
/// run.
pub fn db_cleanup_plan() -> (r: Vec<DbCleanup>)
    ensures
        r@ == db_cleanup_order(),
{
    let mut r: Vec<DbCleanup> = Vec::new();
    r.push(DbCleanup::Rows(OrgTable::AlertIncidents));
    r.push(DbCleanup::Rows(OrgTable::IncidentEvents));
    r.push(DbCleanup::Rows(OrgTable::Alerts));
    r.push(DbCleanup::Rows(OrgTable::TimedAnnotations));
    r.push(DbCleanup::Rows(OrgTable::Dashboards));
    r.push(DbCleanup::Rows(OrgTable::Folders));
    r.push(DbCleanup::Rows(OrgTable::Templates));
    r.push(DbCleanup::Rows(OrgTable::Destinations));
    r.push(DbCleanup::Rows(OrgTable::Reports));
    r.push(DbCleanup::Rows(OrgTable::ActionScripts));
    r.push(DbCleanup::Rows(OrgTable::KvStore));
    r.push(DbCleanup::Rows(OrgTable::Cipher));
    r.push(DbCleanup::Rows(OrgTable::EnrichmentTables));
    r.push(DbCleanup::Rows(OrgTable::EnrichmentTableUrls));
    r.push(DbCleanup::Rows(OrgTable::BackfillJobs));
    r.push(DbCleanup::Rows(OrgTable::SearchQueue));
    r.push(DbCleanup::Rows(OrgTable::RePattern));
    r.push(DbCleanup::Rows(OrgTable::RePatternStreamMap));
    r.push(DbCleanup::Rows(OrgTable::OrgStorageProviders));
    r.push(DbCleanup::Rows(OrgTable::TrialQuotaUsage));
    r.push(DbCleanup::Rows(OrgTable::ServiceStreams));
    r.push(DbCleanup::OrgSettings);
    r.push(DbCleanup::Pipelines);
    r.push(DbCleanup::SavedViews);
    r.push(DbCleanup::Rows(OrgTable::DistinctValues));
    r.push(DbCleanup::Rows(OrgTable::ShortUrls));
    r.push(DbCleanup::Rows(OrgTable::CompactorManualJobs));
    r.push(DbCleanup::Rows(OrgTable::SearchJobs));
    proof {
        assert(r@ =~= db_cleanup_order());
    }
    r
}

/// Whether a failure of `item` ends the database cleanup step.
pub fn ends_on_failure(item: &DbCleanup) -> (r: bool)
    ensures
        r == ends_step_on_failure(*item),
{
    match item {
        DbCleanup::Pipelines | DbCleanup::SavedViews => true,
        _ => false,
    }
}

/// A failed row deletion, or a failed deletion of the organization's
/// settings, is reported and the step goes on; a failure among the
/// pipelines or the saved views ends the step, and only those two come
/// after the settings and before the distinct values.
pub proof fn lemma_db_failure_policy()
    ensures
        forall|t: OrgTable| !ends_step_on_failure(DbCleanup::Rows(t)),
        !ends_step_on_failure(DbCleanup::OrgSettings),
        ends_step_on_failure(DbCleanup::Pipelines),
        ends_step_on_failure(DbCleanup::SavedViews),
        db_cleanup_order()[21] == DbCleanup::OrgSettings,
        db_cleanup_order()[22] == DbCleanup::Pipelines,
        db_cleanup_order()[23] == DbCleanup::SavedViews,
        db_cleanup_order()[24] == DbCleanup::Rows(OrgTable::DistinctValues),
        forall|i: int|
            0 <= i < db_cleanup_order().len() && #[trigger] ends_step_on_failure(db_cleanup_order()[i])
                ==> i == 22 || i == 23,
{
}

/// `a` runs before `b` in the database cleanup step.
pub open spec fn runs_before(a: DbCleanup, b: DbCleanup) -> bool {
    exists|i: int, j: int|
        0 <= i < j < db_cleanup_order().len() && #[trigger] db_cleanup_order()[i] == a
            && #[trigger] db_cleanup_order()[j] == b
}

/// The database cleanup deletes the rows of every table exactly once, and
/// children before their parents: the timed annotations, found through the
/// dashboards of the organization's folders, go before the dashboards, and
/// both before the folders; the incidents and their events go before the
/// alerts, and all of these before the folders that hold the alerts.
pub proof fn lemma_db_cleanup_order()
    ensures
        db_cleanup_order().no_duplicates(),
        forall|t: OrgTable| db_cleanup_order().contains(DbCleanup::Rows(t)),
        runs_before(DbCleanup::Rows(OrgTable::TimedAnnotations), DbCleanup::Rows(OrgTable::Dashboards)),
        runs_before(DbCleanup::Rows(OrgTable::TimedAnnotations), DbCleanup::Rows(OrgTable::Folders)),
        runs_before(DbCleanup::Rows(OrgTable::Dashboards), DbCleanup::Rows(OrgTable::Folders)),
        runs_before(DbCleanup::Rows(OrgTable::AlertIncidents), DbCleanup::Rows(OrgTable::Alerts)),
        runs_before(DbCleanup::Rows(OrgTable::IncidentEvents), DbCleanup::Rows(OrgTable::Alerts)),
        runs_before(DbCleanup::Rows(OrgTable::Alerts), DbCleanup::Rows(OrgTable::Folders)),
        runs_before(DbCleanup::Rows(OrgTable::AlertIncidents), DbCleanup::Rows(OrgTable::Folders)),
        runs_before(DbCleanup::Rows(OrgTable::IncidentEvents), DbCleanup::Rows(OrgTable::Folders)),
{
    let o = db_cleanup_order();
    assert(o[3] == DbCleanup::Rows(OrgTable::TimedAnnotations) && o[4] == DbCleanup::Rows(OrgTable::Dashboards));
    assert(o[5] == DbCleanup::Rows(OrgTable::Folders));
    assert(o[0] == DbCleanup::Rows(OrgTable::AlertIncidents) && o[2] == DbCleanup::Rows(OrgTable::Alerts));
    assert(o[1] == DbCleanup::Rows(OrgTable::IncidentEvents));
    assert forall|t: OrgTable| o.contains(DbCleanup::Rows(t)) by {
        let i: int = match t {
            OrgTable::AlertIncidents => 0,
            OrgTable::IncidentEvents => 1,
            OrgTable::Alerts => 2,
            OrgTable::TimedAnnotations => 3,
            OrgTable::Dashboards => 4,
            OrgTable::Folders => 5,
            OrgTable::Templates => 6,
            OrgTable::Destinations => 7,
            OrgTable::Reports => 8,
            OrgTable::ActionScripts => 9,
            OrgTable::KvStore => 10,
            OrgTable::Cipher => 11,
            OrgTable::EnrichmentTables => 12,
            OrgTable::EnrichmentTableUrls => 13,
            OrgTable::BackfillJobs => 14,
            OrgTable::SearchQueue => 15,
            OrgTable::RePattern => 16,
            OrgTable::RePatternStreamMap => 17,
            OrgTable::OrgStorageProviders => 18,
            OrgTable::TrialQuotaUsage => 19,
            OrgTable::ServiceStreams => 20,
            OrgTable::DistinctValues => 24,
            OrgTable::ShortUrls => 25,
            OrgTable::CompactorManualJobs => 26,
            OrgTable::SearchJobs => 27,
        };
        assert(o[i] == DbCleanup::Rows(t));
    }
}

} // verus!
