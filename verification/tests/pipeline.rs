use sciffer_rs::analyzers::simple::SimpleArixvTrendingAnalyzer;
use sciffer_rs::analyzers::TagSelector;
use sciffer_rs::analyzers::TrendingAnalyzer;
use sciffer_rs::extracters::topic::ArxivTopicData;
use sciffer_rs::extracters::ExtracterError;
use sciffer_rs::fetchers::arxiv::Arxiv;
use sciffer_rs::fetchers::arxiv::ArxivFetcher;
use sciffer_rs::fetchers::FetcherError;
use sciffer_rs::sciffer::paper_records;
use sciffer_rs::sciffer::ArxivSciffer;
use sciffer_rs::sciffer::ScifferError;

fn arxiv(id: &str) -> Arxiv {
    Arxiv {
        id: id.to_string(),
        updated: "2025-02-14T00:00:00Z".to_string(),
        published: "2025-02-01T00:00:00Z".to_string(),
        title: format!("paper {}", id),
        summary: format!("summary {}", id),
        authors: vec!["a one".to_string(), "a two".to_string()],
        pdf_url: format!("https://arxiv.org/pdf/{}.pdf", id),
        comment: Some("comment".to_string()),
    }
}

fn techniques(tags: &[&str]) -> ArxivTopicData {
    ArxivTopicData {
        title: "t".to_string(),
        solved_problem: vec![],
        research_field: vec![],
        techniques_used: tags.iter().map(|s| s.to_string()).collect(),
    }
}

#[test]
fn batch_of_five_with_one_failure_yields_four_pairs_and_two_buckets() {
    // five items; four extract, with "transformers" three times and
    // "cnn" once; the extraction of item e fails
    let batch = vec![arxiv("a"), arxiv("b"), arxiv("c"), arxiv("d"), arxiv("e")];
    let outcomes: Vec<(usize, Result<ArxivTopicData, ExtracterError>)> = vec![
        (2, Ok(techniques(&["transformers"]))),
        (0, Ok(techniques(&["transformers"]))),
        (4, Err(ExtracterError::ParseError("bad reply".to_string(), "item e".to_string()))),
        (1, Ok(techniques(&["cnn"]))),
        (3, Ok(techniques(&["transformers"]))),
    ];
    let pairs = ArxivSciffer::sniffer_parallel(Ok(batch), outcomes).unwrap();
    assert_eq!(pairs.len(), 4);

    let analyzer = SimpleArixvTrendingAnalyzer {};
    let res = analyzer.top_k(&pairs, TagSelector::TechniquesUsed);
    let shape: Vec<(String, usize)> = res.iter().map(|b| (b.0.clone(), b.1.len())).collect();
    assert_eq!(
        shape,
        vec![("transformers".to_string(), 3), ("cnn".to_string(), 1)]
    );
}

#[test]
fn source_failure_fails_the_whole_run() {
    let fetch: Result<Vec<Arxiv>, FetcherError> = Err(FetcherError::from("down".to_string()));
    let r = ArxivSciffer::sniffer_parallel(fetch, vec![]);
    match r {
        Err(e) => assert_eq!(e.message(), "down"),
        Ok(_) => panic!("a failed fetch must fail the run"),
    }
}

#[test]
fn start_on_failed_fetch_reports_the_wrapped_cause() {
    let fetch: Result<Vec<Arxiv>, FetcherError> = Err(FetcherError::from("no route".to_string()));
    match ArxivSciffer::start(fetch) {
        Err(ScifferError::FetcherError(e)) => assert_eq!(e.message(), "no route"),
        _ => panic!("expected the wrapped fetcher error"),
    }
}

#[test]
fn item_failures_are_reported_and_absorbed() {
    let batch = vec![arxiv("a"), arxiv("b")];
    let mut run = ArxivSciffer::start(Ok(batch)).unwrap();
    let diag = run.complete(0, Err(ExtracterError::ChainError("timeout".to_string(), "item a".to_string())));
    let (dropped, cause) = diag.expect("a failure must be handed back");
    assert_eq!(dropped.id, "a");
    assert_eq!(cause.message(), "timeout");
    assert!(run.complete(1, Ok(techniques(&["x"]))).is_none());
    let pairs = run.finish();
    assert_eq!(pairs.len(), 1);
    assert_eq!(pairs[0].0.id, "b");
    assert_eq!(pairs[0].1.techniques_used, vec!["x".to_string()]);
}

#[test]
fn collected_pairs_stay_within_the_batch_and_repeat_no_id() {
    let batch = vec![arxiv("a"), arxiv("b"), arxiv("c")];
    let batch_ids: Vec<String> = batch.iter().map(|p| p.id.clone()).collect();
    let outcomes: Vec<(usize, Result<ArxivTopicData, ExtracterError>)> = vec![
        (1, Ok(techniques(&["x"]))),
        (0, Err(ExtracterError::Other("boom".to_string(), "item a".to_string()))),
        (2, Ok(techniques(&["y"]))),
    ];
    let pairs = ArxivSciffer::sniffer_parallel(Ok(batch), outcomes).unwrap();
    assert!(pairs.len() <= batch_ids.len());
    let mut seen: Vec<String> = vec![];
    for (item, _) in &pairs {
        assert!(batch_ids.contains(&item.id), "fabricated item {}", item.id);
        assert!(!seen.contains(&item.id), "duplicated item {}", item.id);
        seen.push(item.id.clone());
    }
}

#[test]
fn collection_keeps_completion_order_not_batch_order() {
    let batch = vec![arxiv("a"), arxiv("b"), arxiv("c")];
    let outcomes: Vec<(usize, Result<ArxivTopicData, ExtracterError>)> = vec![
        (2, Ok(techniques(&["z"]))),
        (0, Ok(techniques(&["y"]))),
        (1, Ok(techniques(&["x"]))),
    ];
    let pairs = ArxivSciffer::sniffer_parallel(Ok(batch), outcomes).unwrap();
    let ids: Vec<String> = pairs.iter().map(|p| p.0.id.clone()).collect();
    assert_eq!(
        ids,
        vec!["c".to_string(), "a".to_string(), "b".to_string()]
    );
}

#[test]
fn empty_batch_yields_an_empty_collection() {
    let pairs = ArxivSciffer::sniffer_parallel(Ok(vec![]), vec![]).unwrap();
    assert!(pairs.is_empty());
}

#[test]
fn a_run_survives_every_item_failing() {
    let batch = vec![arxiv("a"), arxiv("b")];
    let outcomes: Vec<(usize, Result<ArxivTopicData, ExtracterError>)> = vec![
        (0, Err(ExtracterError::ChainError("limit".to_string(), "item a".to_string()))),
        (1, Err(ExtracterError::Other("limit".to_string(), "item b".to_string()))),
    ];
    let pairs = ArxivSciffer::sniffer_parallel(Ok(batch), outcomes).unwrap();
    assert!(pairs.is_empty());
}

#[test]
fn paper_records_carry_metadata_and_techniques() {
    let pairs = vec![(arxiv("a"), techniques(&["gnn", "rl"]))];
    let date = "2025-03-01 10:00:00".to_string();
    let records = paper_records(&pairs, &date);
    assert_eq!(records.len(), 1);
    let (paper, keywords) = &records[0];
    assert_eq!(paper.id, 0);
    assert_eq!(paper.title, "paper a");
    assert_eq!(paper.abstract_text, Some("summary a".to_string()));
    assert_eq!(paper.publish_date, Some("2025-02-01T00:00:00Z".to_string()));
    assert_eq!(paper.insert_date, date);
    assert_eq!(paper.url, "https://arxiv.org/pdf/a.pdf");
    let kw: Vec<(i64, String)> = keywords.iter().map(|k| (k.id, k.keyword.clone())).collect();
    assert_eq!(kw, vec![(0, "gnn".to_string()), (0, "rl".to_string())]);
}

#[test]
fn fetcher_query_is_built_verbatim() {
    let fetcher = ArxivFetcher {
        query: "program+AND+repair".to_string(),
        number: 10,
    };
    let q = fetcher.build_arixv_query();
    assert_eq!(q.search_query, "program+AND+repair");
    assert_eq!(q.start, 0);
    assert_eq!(q.max_results, 10);
    assert_eq!(q.sort_by, "submittedDate");
    assert_eq!(q.sort_order, "descending");
}

#[test]
fn default_fetcher_asks_for_five() {
    let fetcher = ArxivFetcher::default();
    assert_eq!(fetcher.query, "Are you querying me?");
    assert_eq!(fetcher.number, 5);
}
