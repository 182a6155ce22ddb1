use openobserve::org_cleanup::CleanupTask;
use openobserve::org_grouping::batch_by_org;

fn task(id: &str, org: &str, order: i32) -> CleanupTask {
    CleanupTask {
        id: id.to_string(),
        org_id: org.to_string(),
        org_name: org.to_string(),
        step: format!("step{order}"),
        step_order: order,
        status: "pending".to_string(),
        attempts: 0,
    }
}

#[test]
fn batches_split_by_org_in_step_order() {
    let tasks = vec![
        task("a3", "a", 300),
        task("b1", "b", 100),
        task("a1", "a", 100),
        task("c9", "c", 900),
        task("a2", "a", 200),
        task("b2", "b", 150),
    ];
    let batches = batch_by_org(tasks);
    assert_eq!(batches.len(), 3);
    let mut seen: Vec<(String, Vec<String>)> = batches
        .iter()
        .map(|b| (b[0].org_id.clone(), b.iter().map(|t| t.id.clone()).collect()))
        .collect();
    seen.sort();
    assert_eq!(
        seen,
        vec![
            ("a".to_string(), vec!["a1".to_string(), "a2".to_string(), "a3".to_string()]),
            ("b".to_string(), vec!["b1".to_string(), "b2".to_string()]),
            ("c".to_string(), vec!["c9".to_string()]),
        ]
    );
}

#[test]
fn equal_orders_keep_their_order() {
    let tasks = vec![
        task("s1", "a", 150),
        task("s2", "a", 150),
        task("f", "a", 100),
        task("s3", "a", 150),
    ];
    let batches = batch_by_org(tasks);
    assert_eq!(batches.len(), 1);
    let ids: Vec<&str> = batches[0].iter().map(|t| t.id.as_str()).collect();
    assert_eq!(ids, vec!["f", "s1", "s2", "s3"]);
}

#[test]
fn no_tasks_no_batches() {
    assert!(batch_by_org(Vec::new()).is_empty());
}
