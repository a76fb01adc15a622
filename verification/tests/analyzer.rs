use sciffer_rs::analyzers::simple::SimpleArixvTrendingAnalyzer;
use sciffer_rs::analyzers::TagSelector;
use sciffer_rs::analyzers::TrendingAnalyzer;
use sciffer_rs::extracters::topic::ArxivTopicData;
use sciffer_rs::fetchers::arxiv::Arxiv;
use rand::seq::SliceRandom;
use rand::Rng;
use std::collections::HashMap;

fn arxiv(id: &str) -> Arxiv {
    Arxiv {
        id: id.to_string(),
        updated: "2025-02-14T00:00:00Z".to_string(),
        published: "2025-02-01T00:00:00Z".to_string(),
        title: format!("paper {}", id),
        summary: format!("summary {}", id),
        authors: vec!["someone".to_string()],
        pdf_url: format!("https://arxiv.org/pdf/{}.pdf", id),
        comment: None,
    }
}

fn topic(fields: &[&str]) -> ArxivTopicData {
    ArxivTopicData {
        title: "t".to_string(),
        solved_problem: vec![],
        research_field: fields.iter().map(|s| s.to_string()).collect(),
        techniques_used: vec![],
    }
}

fn generate_random_string(_: usize) -> String {
    let keywords = vec![
        "machine learning",
        "image recogniton",
        "artificial intelligence",
        "program debugging",
        "large language models",
    ];
    keywords.choose(&mut rand::thread_rng()).unwrap().to_string()
}

fn generate_dummy_arxiv() -> Arxiv {
    Arxiv {
        id: format!("{}{}", generate_random_string(4), generate_random_string(4)),
        updated: format!("2025-02-14T{:02}:00:00Z", rand::thread_rng().gen_range(0..24)),
        published: format!("2025-02-01T{:02}:00:00Z", rand::thread_rng().gen_range(0..24)),
        title: generate_random_string(20),
        summary: generate_random_string(50),
        authors: (0..rand::thread_rng().gen_range(1..4))
            .map(|_| generate_random_string(10))
            .collect(),
        pdf_url: format!("https://arxiv.org/pdf/{}.pdf", generate_random_string(8)),
        comment: if rand::random::<bool>() {
            Some(generate_random_string(30))
        } else {
            None
        },
    }
}

fn generate_dummy_topicdata() -> ArxivTopicData {
    ArxivTopicData {
        title: generate_random_string(15),
        solved_problem: (0..rand::thread_rng().gen_range(1..4))
            .map(|_| generate_random_string(25))
            .collect(),
        research_field: (0..rand::thread_rng().gen_range(1..3))
            .map(|_| generate_random_string(12))
            .collect(),
        techniques_used: (0..rand::thread_rng().gen_range(1..4))
            .map(|_| generate_random_string(15))
            .collect(),
    }
}

fn trending_problems_round(_cnt: i32) {
    let cnt = 5;
    let mut data = vec![];
    (0..cnt).for_each(|_| {
        data.push((generate_dummy_arxiv(), generate_dummy_topicdata()));
    });

    let mut cnt: HashMap<String, i32> = HashMap::new();
    data.iter().for_each(|(_, x)| {
        x.research_field.iter().for_each(|s| {
            let entry = cnt.entry(s.to_string()).or_insert(0);
            *entry += 1
        });
    });

    let mut oracle = vec![];
    for (k, v) in cnt {
        oracle.push((k, v));
    }
    oracle.sort_by(|a, b| b.1.cmp(&a.1).then(b.0.cmp(&a.0)));

    let analyzer = SimpleArixvTrendingAnalyzer {};
    let res = analyzer.top_k(&data, TagSelector::ResearchField);

    for (x, y) in oracle.iter().zip(&res) {
        assert!(x.0 == y.0, "{:?}, {:?}", oracle, res);
    }
}

#[test]
fn test_trending_problems() {
    let epoch = 20;
    (0..epoch).for_each(|_| trending_problems_round(epoch));
}

#[test]
fn ranking_order_is_count_desc_then_tag_desc() {
    // three fields, "robotics" five times, "nlp" and "vision" three each
    let mut data = vec![];
    for k in 0..5 {
        data.push((arxiv(&format!("r{}", k)), topic(&["robotics"])));
    }
    for k in 0..3 {
        data.push((arxiv(&format!("n{}", k)), topic(&["nlp"])));
    }
    for k in 0..3 {
        data.push((arxiv(&format!("v{}", k)), topic(&["vision"])));
    }
    let analyzer = SimpleArixvTrendingAnalyzer {};
    let res = analyzer.top_k(&data, TagSelector::ResearchField);
    let shape: Vec<(String, usize)> = res.iter().map(|b| (b.0.clone(), b.1.len())).collect();
    assert_eq!(
        shape,
        vec![
            ("robotics".to_string(), 5),
            ("vision".to_string(), 3),
            ("nlp".to_string(), 3),
        ]
    );
}

#[test]
fn grouping_keeps_membership_per_tag() {
    // X carries tags A and B, Y carries only B
    let data = vec![
        (arxiv("x"), topic(&["A", "B"])),
        (arxiv("y"), topic(&["B"])),
    ];
    let analyzer = SimpleArixvTrendingAnalyzer {};
    let res = analyzer.top_k(&data, TagSelector::ResearchField);
    assert_eq!(res.len(), 2);
    // B holds both items, A only X; B comes first on count
    assert_eq!(res[0].0, "B");
    let mut b_ids: Vec<String> = res[0].1.iter().map(|a| a.id.clone()).collect();
    b_ids.sort();
    assert_eq!(b_ids, vec!["x".to_string(), "y".to_string()]);
    assert_eq!(res[1].0, "A");
    let a_ids: Vec<String> = res[1].1.iter().map(|a| a.id.clone()).collect();
    assert_eq!(a_ids, vec!["x".to_string()]);
}

#[test]
fn duplicate_tag_in_one_result_counts_twice() {
    let data = vec![(arxiv("x"), topic(&["A", "A"])), (arxiv("y"), topic(&["B"]))];
    let analyzer = SimpleArixvTrendingAnalyzer {};
    let res = analyzer.top_k(&data, TagSelector::ResearchField);
    assert_eq!(res[0].0, "A");
    assert_eq!(res[0].1.len(), 2);
    assert_eq!(res[1].0, "B");
    assert_eq!(res[1].1.len(), 1);
}

#[test]
fn selector_picks_the_named_dimension() {
    let data = vec![(
        arxiv("x"),
        ArxivTopicData {
            title: "t".to_string(),
            solved_problem: vec!["p".to_string()],
            research_field: vec!["f".to_string()],
            techniques_used: vec!["q".to_string()],
        },
    )];
    let analyzer = SimpleArixvTrendingAnalyzer {};
    assert_eq!(
        analyzer.top_k(&data, TagSelector::SolvedProblem)[0].0,
        "p".to_string()
    );
    assert_eq!(
        analyzer.top_k(&data, TagSelector::ResearchField)[0].0,
        "f".to_string()
    );
    assert_eq!(
        analyzer.top_k(&data, TagSelector::TechniquesUsed)[0].0,
        "q".to_string()
    );
}

#[test]
fn empty_input_yields_empty_ranking() {
    let analyzer = SimpleArixvTrendingAnalyzer {};
    let res = analyzer.top_k(&vec![], TagSelector::TechniquesUsed);
    assert!(res.is_empty());
}
