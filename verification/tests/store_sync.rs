use arxiv_bot::db::Store;
use arxiv_bot::errors::Error;
use arxiv_bot::index::parse;
use arxiv_bot::metadata::MetaData;
use arxiv_bot::pin::Pin;
use arxiv_bot::subject::Subject;
use arxiv_bot::sync::{parse_guid, Cycle, Phase};

fn sample_meta(id: &str, title: &str) -> MetaData {
    MetaData {
        index: parse(id).unwrap(),
        title: title.to_string(),
        auth: vec!["Alice".to_string(), "Bob".to_string()],
        abs: "An abstract.".to_string(),
        sub: vec![Subject::cs_PL, Subject::math_LO],
        prim_sub: Subject::cs_PL,
    }
}

#[test]
fn insert_then_get_round_trip() {
    let mut store = Store::new();
    let md = sample_meta("2301.00001", "A Title");
    store.insert_paper(&Subject::cs_PL, &md, 100).unwrap();
    let back = store.by_id(&md.index).unwrap();
    assert_eq!(back.title, "A Title");
    assert_eq!(back.abs, "An abstract.");
    assert_eq!(back.prim_sub, Subject::cs_PL);
    assert_eq!(back.auth, vec!["Alice".to_string(), "Bob".to_string()]);
    assert_eq!(back.sub, vec![Subject::cs_PL, Subject::math_LO]);
}

#[test]
fn duplicate_insert_is_rejected_and_store_unchanged() {
    let mut store = Store::new();
    let md = sample_meta("2301.00001", "A Title");
    store.insert_paper(&Subject::cs_PL, &md, 100).unwrap();
    let e = store.insert_paper(&Subject::cs_PL, &md, 200).unwrap_err();
    assert_eq!(e, Error::PersistenceFailure);
    assert_eq!(store.papers.len(), 1);
    assert_eq!(store.authors.len(), 2);
    // the failed write did not move the watermark either
    assert_eq!(store.last(&Subject::cs_PL), 100);
}

#[test]
fn missing_paper_is_a_persistence_failure() {
    let store = Store::new();
    let e = store.by_id(&parse("2301.00001").unwrap()).unwrap_err();
    assert_eq!(e, Error::PersistenceFailure);
}

#[test]
fn fresh_watermark_is_the_sentinel_epoch() {
    let store = Store::new();
    assert_eq!(store.last(&Subject::cs_PL), 0);
    assert_eq!(store.last(&Subject::Others("Economics (econ.EM)".to_string())), 0);
}

#[test]
fn watermark_advances_only_on_strictly_newer_batches() {
    let mut store = Store::new();
    store
        .insert_paper(&Subject::cs_PL, &sample_meta("2301.00001", "One"), 100)
        .unwrap();
    assert_eq!(store.last(&Subject::cs_PL), 100);
    // not newer: stays
    store
        .insert_paper(&Subject::cs_PL, &sample_meta("2301.00002", "Two"), 100)
        .unwrap();
    assert_eq!(store.last(&Subject::cs_PL), 100);
    store
        .insert_paper(&Subject::cs_PL, &sample_meta("2301.00003", "Three"), 50)
        .unwrap();
    assert_eq!(store.last(&Subject::cs_PL), 100);
    // strictly newer: advances to exactly that value
    store
        .insert_paper(&Subject::cs_PL, &sample_meta("2301.00004", "Four"), 101)
        .unwrap();
    assert_eq!(store.last(&Subject::cs_PL), 101);
    // another subject is untouched
    assert_eq!(store.last(&Subject::math_LO), 0);
}

#[test]
fn list_queries() {
    let mut store = Store::new();
    let a = sample_meta("2301.00001", "One");
    let mut b = sample_meta("2301.00002", "Two");
    b.sub = vec![Subject::math_CT];
    b.prim_sub = Subject::math_CT;
    b.auth = vec!["Carol".to_string()];
    store.insert_paper(&Subject::cs_PL, &a, 1).unwrap();
    store.insert_paper(&Subject::math_CT, &b, 2).unwrap();

    let pl = store.by_subs(&vec![Subject::cs_PL]).unwrap();
    assert_eq!(pl.len(), 1);
    assert_eq!(pl[0].title, "One");

    let both = store.by_subs(&vec![Subject::cs_PL, Subject::math_CT]).unwrap();
    assert_eq!(both.len(), 2);

    let prim = store.by_prim_sub(&Subject::math_CT).unwrap();
    assert_eq!(prim.len(), 1);
    assert_eq!(prim[0].title, "Two");

    let by_alice = store.by_auths(&vec!["Alice".to_string()]).unwrap();
    assert_eq!(by_alice.len(), 1);
    assert_eq!(by_alice[0].title, "One");

    let none = store.by_auths(&vec!["Nobody".to_string()]).unwrap();
    assert_eq!(none.len(), 0);
}

#[test]
fn pins_round_trip_and_reject_unknowns() {
    let mut store = Store::new();
    let md = sample_meta("2301.00001", "One");
    let ix = parse("2301.00001").unwrap();
    // no paper yet: rejected
    let e = store.insert_pin(&Pin::new("11"), None, &ix, 5).unwrap_err();
    assert_eq!(e, Error::PersistenceFailure);

    store.insert_paper(&Subject::cs_PL, &md, 1).unwrap();
    store.insert_pin(&Pin::new("11"), None, &ix, 5).unwrap();
    assert_eq!(store.by_arxiv_id(&ix).unwrap().id, "11");

    // duplicate pin id: rejected
    let e = store.insert_pin(&Pin::new("11"), None, &ix, 6).unwrap_err();
    assert_eq!(e, Error::PersistenceFailure);

    // chaining to a known pin works; to an unknown one does not
    store
        .insert_pin(&Pin::new("12"), Some(&Pin::new("11")), &ix, 7)
        .unwrap();
    let e = store
        .insert_pin(&Pin::new("13"), Some(&Pin::new("99")), &ix, 8)
        .unwrap_err();
    assert_eq!(e, Error::PersistenceFailure);

    // the first stored pin is the one handed back
    assert_eq!(store.by_arxiv_id(&ix).unwrap().id, "11");

    let no_pin = store.by_arxiv_id(&parse("2301.00002").unwrap()).unwrap_err();
    assert_eq!(no_pin, Error::PersistenceFailure);
}

#[test]
fn guid_tokens() {
    let ix = parse_guid("oai:arXiv.org:2301.00001").unwrap();
    assert_eq!(ix.format(), "2301.00001");
    assert_eq!(parse_guid("oai:arXiv.org").unwrap_err(), Error::InvalidIdentifier);
    assert_eq!(parse_guid("no colons here").unwrap_err(), Error::InvalidIdentifier);
    assert_eq!(parse_guid("oai:arXiv.org:junk").unwrap_err(), Error::InvalidIdentifier);
}

fn run_cycle(store: &mut Store, last_build: &str, guids: &Vec<String>) -> Cycle {
    let mut cycle = Cycle::begin(vec![Subject::cs_PL]);
    assert_eq!(cycle.phase(), Phase::AwaitFeed);
    let processed = cycle.feed_ok(store, last_build, guids).unwrap();
    if !processed {
        return cycle;
    }
    let mut pin_no = store.pins.len();
    while cycle.phase() == Phase::AwaitMeta {
        let item = cycle.current_item();
        let url = cycle.fetch_url().unwrap();
        assert!(url.starts_with("https://arxiv.org/abs/"));
        // stand in for the detail page: metadata for the requested item
        let md = MetaData {
            title: format!("Title {}", item.format()),
            index: item,
            auth: vec!["Alice".to_string()],
            abs: "An abstract.".to_string(),
            sub: vec![Subject::cs_PL],
            prim_sub: Subject::cs_PL,
        };
        assert!(md.is_wf());
        cycle.meta_ok(store, md).unwrap();
        assert_eq!(cycle.phase(), Phase::AwaitPublish);
        pin_no += 1;
        cycle
            .publish_ok(store, &Pin::new(&format!("{}", pin_no)), 1672617600)
            .unwrap();
    }
    cycle
}

#[test]
fn first_cycle_persists_items_and_watermark() {
    let mut store = Store::new();
    let guids = vec![
        "oai:arXiv.org:2301.00001".to_string(),
        "oai:arXiv.org:2301.00002".to_string(),
    ];
    let cycle = run_cycle(&mut store, "2023-01-02T00:00:00Z", &guids);
    assert_eq!(cycle.phase(), Phase::Done);
    assert_eq!(store.last(&Subject::cs_PL), 1672617600);
    let one = store.by_id(&parse("2301.00001").unwrap()).unwrap();
    assert_eq!(one.title, "Title 2301.00001");
    let two = store.by_id(&parse("2301.00002").unwrap()).unwrap();
    assert_eq!(two.title, "Title 2301.00002");
    // each item got its publish handle
    assert_eq!(store.pins.len(), 2);
}

#[test]
fn second_cycle_with_unchanged_timestamp_inserts_nothing() {
    let mut store = Store::new();
    let guids = vec![
        "oai:arXiv.org:2301.00001".to_string(),
        "oai:arXiv.org:2301.00002".to_string(),
    ];
    run_cycle(&mut store, "2023-01-02T00:00:00Z", &guids);
    let papers_before = store.papers.len();
    let pins_before = store.pins.len();

    let mut cycle = Cycle::begin(vec![Subject::cs_PL]);
    let processed = cycle
        .feed_ok(&store, "2023-01-02T00:00:00Z", &guids)
        .unwrap();
    assert!(!processed);
    assert_eq!(cycle.phase(), Phase::Done);
    assert_eq!(store.papers.len(), papers_before);
    assert_eq!(store.pins.len(), pins_before);
}

#[test]
fn unreadable_feed_timestamp_fails_the_cycle() {
    let store = Store::new();
    let mut cycle = Cycle::begin(vec![Subject::cs_PL]);
    let e = cycle.feed_ok(&store, "garbage", &vec![]).unwrap_err();
    assert_eq!(e, Error::NetworkFailure);
    assert_eq!(cycle.phase(), Phase::Failed);
    assert_eq!(cycle.error(), Some(Error::NetworkFailure));
}

#[test]
fn malformed_feed_item_fails_the_cycle() {
    let store = Store::new();
    let mut cycle = Cycle::begin(vec![Subject::cs_PL]);
    let guids = vec!["oai:arXiv.org:???".to_string()];
    let e = cycle
        .feed_ok(&store, "2023-01-02T00:00:00Z", &guids)
        .unwrap_err();
    assert_eq!(e, Error::InvalidIdentifier);
    assert_eq!(cycle.phase(), Phase::Failed);
}

#[test]
fn outside_failures_abort_the_cycle() {
    let mut cycle = Cycle::begin(vec![Subject::cs_PL]);
    cycle.feed_failed(Error::RemoteRejected(503));
    assert_eq!(cycle.phase(), Phase::Failed);
    assert_eq!(cycle.error(), Some(Error::RemoteRejected(503)));

    let mut cycle2 = Cycle::begin(vec![Subject::cs_PL]);
    cycle2.meta_failed(Error::LayoutDrift);
    assert_eq!(cycle2.error(), Some(Error::LayoutDrift));

    let mut cycle3 = Cycle::begin(vec![Subject::cs_PL]);
    cycle3.publish_failed(Error::PublishRejected);
    assert_eq!(cycle3.error(), Some(Error::PublishRejected));
}

#[test]
fn empty_subject_list_finishes_immediately() {
    let cycle = Cycle::begin(vec![]);
    assert_eq!(cycle.phase(), Phase::Done);
}

#[test]
fn legacy_papers_are_keyed_by_their_numeric_form() {
    let mut store = Store::new();
    let md = MetaData {
        index: parse("math.CT/0701001").unwrap(),
        title: "Old Form".to_string(),
        auth: vec!["Alice".to_string()],
        abs: "An abstract.".to_string(),
        sub: vec![Subject::math_CT],
        prim_sub: Subject::math_CT,
    };
    store.insert_paper(&Subject::math_CT, &md, 10).unwrap();
    // keyed lookup rebuilds the record under the identifier given
    let back = store.by_id(&md.index).unwrap();
    assert_eq!(back.title, "Old Form");
    assert_eq!(back.prim_sub, Subject::math_CT);
}

#[test]
fn list_queries_cannot_reparse_a_legacy_key() {
    // a legacy identifier's canonical string drops the subject, so the
    // stored key no longer matches either grammar and listing fails
    let mut store = Store::new();
    let md = MetaData {
        index: parse("math.CT/0701001").unwrap(),
        title: "Old Form".to_string(),
        auth: vec!["Alice".to_string()],
        abs: "An abstract.".to_string(),
        sub: vec![Subject::math_CT],
        prim_sub: Subject::math_CT,
    };
    store.insert_paper(&Subject::math_CT, &md, 10).unwrap();
    let e = store.by_subs(&vec![Subject::math_CT]).unwrap_err();
    assert_eq!(e, Error::InvalidIdentifier);
}
