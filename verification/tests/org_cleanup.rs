use openobserve::org_cleanup::{db_cleanup_plan, ends_on_failure, DbCleanup, OrgTable};
use openobserve::org_cleanup::{
    check_stream_sub_tasks, count_stream_sub_tasks, fixed_steps, parse_step, removes_whole_user,
    retention_cutoff, saved_views_prefix, split_stream_key, stream_step, stream_sub_tasks,
    CleanupStep, CleanupTask, ORDER_DELETE_CLOUD_BILLING, ORDER_DELETE_DB_RESOURCES,
    ORDER_DELETE_FILE_LIST, ORDER_DELETE_K8S_RESOURCES, ORDER_DELETE_OFGA, ORDER_DELETE_ORG_RECORD,
    ORDER_DELETE_SCHEDULER_TRIGGERS, ORDER_DELETE_STREAMS, ORDER_DELETE_STREAM_ITEM,
    ORDER_DELETE_USERS, RETENTION_MICROS,
};

#[test]
fn test_fixed_steps_count() {
    let steps = fixed_steps("myorg", "My Org");
    assert_eq!(steps.len(), 9);
}

#[test]
fn test_fixed_steps_order_ascending() {
    let steps = fixed_steps("myorg", "My Org");
    let orders: Vec<i32> = steps.iter().map(|s| s.step_order).collect();
    let mut sorted = orders.clone();
    sorted.sort();
    assert_eq!(orders, sorted, "step_orders must be strictly ascending");
}

#[test]
fn test_fixed_steps_no_duplicates() {
    let steps = fixed_steps("myorg", "My Org");
    let mut seen = std::collections::HashSet::new();
    for s in &steps {
        assert!(seen.insert(s.step.clone()), "duplicate step: {}", s.step);
    }
}

#[test]
fn test_fixed_steps_org_fields() {
    let steps = fixed_steps("acme", "Acme Corp");
    for s in &steps {
        assert_eq!(s.org_id, "acme");
        assert_eq!(s.org_name, "Acme Corp");
    }
}

#[test]
fn test_fixed_steps_contains_all_expected() {
    let steps = fixed_steps("org", "Org");
    let names: Vec<&str> = steps.iter().map(|s| s.step.as_str()).collect();
    for expected in &[
        "delete_streams",
        "delete_file_list",
        "delete_db_resources",
        "delete_scheduler_triggers",
        "delete_k8s_resources",
        "delete_users",
        "delete_ofga",
        "delete_cloud_billing",
        "delete_org_record",
    ] {
        assert!(names.contains(expected), "missing step: {expected}");
    }
}

#[test]
fn test_step_order_constants() {
    assert!(ORDER_DELETE_STREAMS < ORDER_DELETE_STREAM_ITEM);
    assert!(ORDER_DELETE_STREAM_ITEM < ORDER_DELETE_FILE_LIST);
    assert!(ORDER_DELETE_FILE_LIST < ORDER_DELETE_DB_RESOURCES);
    assert!(ORDER_DELETE_DB_RESOURCES < ORDER_DELETE_SCHEDULER_TRIGGERS);
    assert!(ORDER_DELETE_SCHEDULER_TRIGGERS < ORDER_DELETE_K8S_RESOURCES);
    assert!(ORDER_DELETE_K8S_RESOURCES < ORDER_DELETE_USERS);
    assert!(ORDER_DELETE_USERS < ORDER_DELETE_OFGA);
    assert!(ORDER_DELETE_OFGA < ORDER_DELETE_CLOUD_BILLING);
    assert!(ORDER_DELETE_CLOUD_BILLING < ORDER_DELETE_ORG_RECORD);
}

#[test]
fn fixed_steps_exact_plan() {
    let steps = fixed_steps("o", "O");
    let plan: Vec<(&str, i32)> = steps.iter().map(|s| (s.step.as_str(), s.step_order)).collect();
    assert_eq!(
        plan,
        vec![
            ("delete_streams", 100),
            ("delete_file_list", 200),
            ("delete_db_resources", 300),
            ("delete_scheduler_triggers", 400),
            ("delete_k8s_resources", 500),
            ("delete_users", 600),
            ("delete_ofga", 700),
            ("delete_cloud_billing", 800),
            ("delete_org_record", 900),
        ]
    );
}

fn kind(step: &str) -> String {
    match parse_step(step) {
        CleanupStep::DeleteStreams => "streams".to_string(),
        CleanupStep::DeleteStream(rest) => format!("stream:{rest}"),
        CleanupStep::DeleteFileList => "file_list".to_string(),
        CleanupStep::DeleteDbResources => "db".to_string(),
        CleanupStep::DeleteSchedulerTriggers => "scheduler".to_string(),
        CleanupStep::DeleteK8sResources => "k8s".to_string(),
        CleanupStep::DeleteUsers => "users".to_string(),
        CleanupStep::DeleteOfga => "ofga".to_string(),
        CleanupStep::DeleteCloudBilling => "billing".to_string(),
        CleanupStep::DeleteOrgRecord => "org_record".to_string(),
        CleanupStep::Unknown => "unknown".to_string(),
    }
}

#[test]
fn parse_step_reads_every_fixed_step() {
    let steps = fixed_steps("o", "O");
    let kinds: Vec<String> = steps.iter().map(|s| kind(&s.step)).collect();
    assert_eq!(
        kinds,
        vec!["streams", "file_list", "db", "scheduler", "k8s", "users", "ofga", "billing", "org_record"]
    );
}

#[test]
fn parse_step_reads_stream_sub_steps_and_unknowns() {
    assert_eq!(kind("delete_stream:logs/default"), "stream:logs/default");
    assert_eq!(kind("delete_stream:"), "stream:");
    assert_eq!(kind("delete_stream"), "unknown");
    assert_eq!(kind("delete_everything"), "unknown");
    assert_eq!(kind(""), "unknown");
    assert_eq!(kind("Delete_users"), "unknown");
}

#[test]
fn stream_step_round_trips() {
    let step = stream_step("metrics", "cpu/usage");
    assert_eq!(step, "delete_stream:metrics/cpu/usage");
    let key = match parse_step(&step) {
        CleanupStep::DeleteStream(key) => key,
        _ => panic!("not a stream step"),
    };
    assert_eq!(
        split_stream_key(&key),
        Some(("metrics".to_string(), "cpu/usage".to_string()))
    );
}

#[test]
fn split_stream_key_without_slash_fails() {
    assert_eq!(split_stream_key("logsdefault"), None);
    assert_eq!(split_stream_key("/x"), Some((String::new(), "x".to_string())));
    assert_eq!(split_stream_key("x/"), Some(("x".to_string(), String::new())));
}

fn stored(org: &str, step: &str, order: i32, status: &str) -> CleanupTask {
    CleanupTask {
        id: format!("{org}-{step}"),
        org_id: org.to_string(),
        org_name: org.to_uppercase(),
        step: step.to_string(),
        step_order: order,
        status: status.to_string(),
        attempts: 0,
    }
}

#[test]
fn stream_sub_tasks_are_counted() {
    let streams = vec![
        ("logs".to_string(), "default".to_string()),
        ("traces".to_string(), "svc".to_string()),
    ];
    let subs = stream_sub_tasks("acme", "Acme", &streams);
    assert_eq!(subs.len(), 2);
    assert_eq!(subs[0].step, "delete_stream:logs/default");
    assert_eq!(subs[1].step, "delete_stream:traces/svc");
    assert!(subs.iter().all(|t| t.step_order == ORDER_DELETE_STREAM_ITEM && t.org_id == "acme"));

    let mut all: Vec<CleanupTask> = subs
        .iter()
        .map(|t| stored(&t.org_id, &t.step, t.step_order, "pending"))
        .collect();
    all.push(stored("acme", "delete_streams", ORDER_DELETE_STREAMS, "running"));
    all.push(stored("acme", "delete_users", ORDER_DELETE_USERS, "pending"));
    assert_eq!(count_stream_sub_tasks(&all), 2);
    assert!(check_stream_sub_tasks(2, &all).is_ok());
    let err = check_stream_sub_tasks(3, &all).unwrap_err();
    assert_eq!((err.expected, err.got), (3, 2));
}

#[test]
fn saved_views_prefix_of_org() {
    assert_eq!(saved_views_prefix("acme"), "/organization/savedviews/acme/");
}

#[test]
fn retention_cutoff_is_thirty_days_back() {
    assert_eq!(RETENTION_MICROS, 30 * 24 * 3600 * 1_000_000);
    assert_eq!(retention_cutoff(5_000_000_000_000), 5_000_000_000_000 - 2_592_000_000_000);
}

#[test]
fn sole_membership_removes_user() {
    assert!(removes_whole_user(0));
    assert!(removes_whole_user(1));
    assert!(!removes_whole_user(2));
}

#[test]
fn db_cleanup_plan_order_and_failure_policy() {
    let plan = db_cleanup_plan();
    assert_eq!(plan.len(), 28);
    let pos = |item: DbCleanup| plan.iter().position(|p| *p == item).unwrap();
    assert!(pos(DbCleanup::Rows(OrgTable::TimedAnnotations)) < pos(DbCleanup::Rows(OrgTable::Dashboards)));
    assert!(pos(DbCleanup::Rows(OrgTable::Dashboards)) < pos(DbCleanup::Rows(OrgTable::Folders)));
    assert!(pos(DbCleanup::Rows(OrgTable::AlertIncidents)) < pos(DbCleanup::Rows(OrgTable::Alerts)));
    assert!(pos(DbCleanup::Pipelines) < pos(DbCleanup::SavedViews));
    let ending: Vec<usize> = (0..plan.len()).filter(|i| ends_on_failure(&plan[*i])).collect();
    assert_eq!(ending, vec![pos(DbCleanup::Pipelines), pos(DbCleanup::SavedViews)]);
    assert_eq!(plan.last(), Some(&DbCleanup::Rows(OrgTable::SearchJobs)));
}
