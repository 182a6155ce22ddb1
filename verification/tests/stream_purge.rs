use openobserve::stream_purge::{
    chunks_of, PurgeAction, PurgeEvent, StoredFile, StreamPurge, PURGE_CHUNK_SIZE,
};

fn files(n: usize) -> Vec<StoredFile> {
    (0..n)
        .map(|i| StoredFile { account: "acct".to_string(), file: format!("f{i}") })
        .collect()
}

fn describe(a: &PurgeAction) -> String {
    match a {
        PurgeAction::ListFiles => "list".to_string(),
        PurgeAction::DeleteChunk(k) => format!("delete chunk {k}"),
        PurgeAction::ForgetFile(f) => format!("forget {f}"),
        PurgeAction::DropSchema => "drop schema".to_string(),
        PurgeAction::Finish(Ok(())) => "ok".to_string(),
        PurgeAction::Finish(Err(e)) => format!("error {e}"),
    }
}

#[test]
fn chunks_cover_in_order() {
    let chunks = chunks_of((0..7).collect::<Vec<u32>>(), 3);
    assert_eq!(chunks, vec![vec![0, 1, 2], vec![3, 4, 5], vec![6]]);
    assert_eq!(chunks_of((0..6).collect::<Vec<u32>>(), 3), vec![vec![0, 1, 2], vec![3, 4, 5]]);
    assert!(chunks_of(Vec::<u32>::new(), 3).is_empty());
    let big = chunks_of(files(2500), PURGE_CHUNK_SIZE);
    assert_eq!(big.iter().map(|c| c.len()).collect::<Vec<_>>(), vec![1000, 1000, 500]);
}

#[test]
fn purge_deletes_then_forgets_then_relists_then_drops_schema() {
    let (mut purge, first) = StreamPurge::new();
    assert_eq!(describe(&first), "list");
    let mut log = Vec::new();
    let mut action = purge.step(PurgeEvent::Listed(files(2)));
    while !matches!(action, PurgeAction::ListFiles) {
        log.push(describe(&action));
        action = purge.step(PurgeEvent::Done);
    }
    assert_eq!(log, vec!["delete chunk 0", "forget f0", "forget f1"]);
    let a = purge.step(PurgeEvent::Listed(Vec::new()));
    assert_eq!(describe(&a), "drop schema");
    let a = purge.step(PurgeEvent::Done);
    assert_eq!(describe(&a), "ok");
    assert!(!purge.accepts(&PurgeEvent::Done));
}

#[test]
fn purge_walks_every_chunk() {
    let (mut purge, _) = StreamPurge::new();
    let mut action = purge.step(PurgeEvent::Listed(files(1001)));
    let mut deletes = Vec::new();
    let mut forgets = 0;
    loop {
        match &action {
            PurgeAction::DeleteChunk(k) => deletes.push((*k, purge.chunks[*k].len())),
            PurgeAction::ForgetFile(_) => forgets += 1,
            PurgeAction::ListFiles => break,
            other => panic!("unexpected {}", describe(other)),
        }
        action = purge.step(PurgeEvent::Done);
    }
    assert_eq!(deletes, vec![(0, 1000), (1, 1)]);
    assert_eq!(forgets, 1001);
}

#[test]
fn purge_failure_ends_without_schema_drop() {
    let (mut purge, _) = StreamPurge::new();
    let a = purge.step(PurgeEvent::Listed(files(3)));
    assert_eq!(describe(&a), "delete chunk 0");
    let a = purge.step(PurgeEvent::Failed("storage down".to_string()));
    assert_eq!(describe(&a), "error storage down");
    assert!(!purge.accepts(&PurgeEvent::Listed(Vec::new())));

    let (mut purge, _) = StreamPurge::new();
    let a = purge.step(PurgeEvent::Failed("list failed".to_string()));
    assert_eq!(describe(&a), "error list failed");
}
