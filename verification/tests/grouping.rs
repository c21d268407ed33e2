use vevtor::indexer_api::grouping::group_pairs;

fn named(collection: &str, value: u32) -> (String, u32) {
    (collection.to_string(), value)
}

#[test]
fn empty_batch_has_no_groups() {
    let groups = group_pairs(Vec::<(String, u32)>::new());
    assert!(groups.is_empty());
}

#[test]
fn groups_come_in_order_of_first_occurrence() {
    let groups = group_pairs(vec![
        named("b", 1),
        named("a", 2),
        named("b", 3),
        named("c", 4),
        named("a", 5),
    ]);
    assert_eq!(
        groups,
        vec![
            ("b".to_string(), vec![1, 3]),
            ("a".to_string(), vec![2, 5]),
            ("c".to_string(), vec![4]),
        ]
    );
}

#[test]
fn one_collection_gives_one_group() {
    let batch: Vec<(String, u32)> = (0..300).map(|i| named("files", i)).collect();
    let groups = group_pairs(batch);
    assert_eq!(groups.len(), 1);
    assert_eq!(groups[0].0, "files");
    assert_eq!(groups[0].1, (0..300).collect::<Vec<u32>>());
}

#[test]
fn names_are_compared_exactly() {
    let groups = group_pairs(vec![named("Files", 1), named("files", 2), named("files ", 3)]);
    assert_eq!(groups.len(), 3);
}

#[test]
fn equal_values_are_kept_as_often_as_given() {
    let groups = group_pairs(vec![named("a", 7), named("a", 7), named("b", 7)]);
    assert_eq!(
        groups,
        vec![("a".to_string(), vec![7, 7]), ("b".to_string(), vec![7])]
    );
}

#[test]
fn grouping_partitions_the_batch() {
    let batch: Vec<(String, u32)> = (0..50u32)
        .map(|i| named(["x", "y", "z", "w"][(i * 7 % 4) as usize], i))
        .collect();
    let groups = group_pairs(batch.clone());
    let mut seen: Vec<u32> = Vec::new();
    for (g, (name, members)) in groups.iter().enumerate() {
        assert!(!members.is_empty());
        for (other, _) in &groups[g + 1..] {
            assert_ne!(name, other);
        }
        let expected: Vec<u32> = batch
            .iter()
            .filter(|(collection, _)| collection == name)
            .map(|(_, value)| *value)
            .collect();
        assert_eq!(members, &expected);
        seen.extend(members);
    }
    seen.sort();
    assert_eq!(seen, (0..50).collect::<Vec<u32>>());
}
