use rt_server::all_markets::AllMarkets;

#[test]
fn test_new_is_empty() {
    let all: AllMarkets<String> = AllMarkets::new();
    assert!(all.list_market_names().is_empty());
    assert!(all.get(&"anything".to_string()).is_none());
}

#[test]
fn test_insert_and_get() {
    let mut all: AllMarkets<String> = AllMarkets::new();

    let m1 = "market m1".to_string();
    all.insert("m1".to_string(), m1.clone());

    let got = all.get(&"m1".to_string());
    assert!(got.is_some());
    assert_eq!(got.unwrap(), "market m1".to_string());

    let names = all.list_market_names();
    assert_eq!(names.len(), 1);
    assert!(names.contains(&"m1".to_string()));
}

#[test]
fn test_multiple_processors_keep_multiple_markets() {
    let mut all: AllMarkets<String> = AllMarkets::new();

    all.insert("m1".to_string(), "market m1".to_string());
    all.insert("m2".to_string(), "market m2".to_string());
    all.insert("m3".to_string(), "market m3".to_string());

    all.insert_processor("p1".to_string(), "m1".to_string());
    all.insert_processor("p2".to_string(), "m2".to_string());
    assert_eq!(all.get_processor(&"p1".to_string()), Some(String::from("m1")));
    assert_eq!(all.get_processor(&"p2".to_string()), Some(String::from("m2")));

    let names = all.list_market_names();
    assert!(names.contains(&"m1".to_string()));
    assert!(names.contains(&"m2".to_string()));
    assert!(names.contains(&"m3".to_string()));

    all.insert("m4".to_string(), "market m4".to_string());
    all.insert_processor("p1".to_string(), "m4".to_string());
    let names = all.list_market_names();
    assert!(!names.contains(&"m1".to_string()));
    assert!(names.contains(&"m4".to_string()));
    assert_eq!(all.get_processor(&"p1".to_string()), Some(String::from("m4")));
}

#[test]
fn future_market_is_never_pruned() {
    let mut all: AllMarkets<String> = AllMarkets::new();
    all.insert("future".to_string(), "latest".to_string());
    all.insert_processor("p1".to_string(), "future".to_string());
    all.insert("m2".to_string(), "market m2".to_string());
    all.insert_processor("p1".to_string(), "m2".to_string());
    let names = all.list_market_names();
    assert!(names.contains(&"future".to_string()));
    assert!(names.contains(&"m2".to_string()));
}

#[test]
fn shared_market_stays_while_referenced() {
    let mut all: AllMarkets<String> = AllMarkets::new();
    all.insert_both("p1".to_string(), "m1".to_string(), "market m1".to_string());
    all.insert_processor("p2".to_string(), "m1".to_string());
    all.insert_both("p1".to_string(), "m2".to_string(), "market m2".to_string());
    assert!(all.list_market_names().contains(&"m1".to_string()));
    all.insert_processor("p2".to_string(), "m2".to_string());
    assert!(!all.list_market_names().contains(&"m1".to_string()));
    assert_eq!(all.list_market_names().len(), 1);
}

#[test]
fn sequential_same_processor_updates() {
    let mut all: AllMarkets<String> = AllMarkets::new();
    let market_names: Vec<String> = (0..16).map(|i| format!("m{i}")).collect();
    for mn in &market_names {
        all.insert(mn.clone(), mn.clone());
    }
    all.insert_processor("p1".to_string(), market_names[0].clone());
    for t in 0..32usize {
        all.insert_processor("p1".to_string(), market_names[t % market_names.len()].clone());
    }
    let final_market = all.get_processor(&"p1".to_string()).expect("p1 mapping missing");
    assert!(market_names.contains(&final_market));
    let remaining = all.list_market_names();
    for mn in &remaining {
        assert!(market_names.contains(mn));
    }
    assert!(remaining.len() <= market_names.len());
}

#[test]
fn sequential_shared_market_pool_stays_referenced() {
    let mut all: AllMarkets<String> = AllMarkets::new();
    let market_pool: Vec<String> = (0..8).map(|i| format!("m{i}")).collect();
    for mn in &market_pool {
        all.insert(mn.clone(), mn.clone());
    }
    let processors: Vec<String> = (0..32).map(|i| format!("p{i}")).collect();
    for (i, p) in processors.iter().enumerate() {
        all.insert_processor(p.clone(), market_pool[i % market_pool.len()].clone());
    }
    for t in 0..64usize {
        for k in 0..200usize {
            let p = &processors[(t + k) % processors.len()];
            let m = &market_pool[(t * 7 + k) % market_pool.len()];
            all.insert_processor(p.clone(), m.clone());
        }
    }
    let mut referenced = std::collections::HashSet::new();
    for p in &processors {
        let mapped = all.get_processor(p).expect("missing mapping");
        assert!(market_pool.contains(&mapped));
        referenced.insert(mapped);
    }
    for m in all.list_market_names() {
        assert!(referenced.contains(&m), "market {m} is held but not referenced");
    }
    let mut names = all.list_processor_names();
    names.sort();
    let mut expected = processors.clone();
    expected.sort();
    assert_eq!(names, expected);
}
