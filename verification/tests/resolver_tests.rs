use capture_replay::resolver::implied_components;
use capture_replay::resolver::insert_ranked;
use capture_replay::resolver::order_components;
use capture_replay::resolver::priority_of;
use capture_replay::resolver::ComponentResolver;

#[test]
fn priority_places() {
    let table = [1u32, 3, 40, 98, 7, 23, 110, 109, 106, 4, 17, 5, 9, 60, 48, 16, 6, 2, 44, 107];
    for (place, component) in table.iter().enumerate() {
        assert_eq!(priority_of(*component), place);
    }
    assert_eq!(priority_of(7), 4);
    assert_eq!(priority_of(23), 5);
    assert_eq!(priority_of(60), 13);
    assert_eq!(priority_of(0), 20);
    assert_eq!(priority_of(8), 20);
    assert_eq!(priority_of(u32::MAX), 20);
}

#[test]
fn implied_types() {
    assert_eq!(implied_components(2), vec![44u32]);
    assert_eq!(implied_components(4), vec![110u32, 109, 106]);
    assert_eq!(implied_components(7), vec![98u32]);
    assert_eq!(implied_components(23), vec![7u32]);
    assert_eq!(implied_components(48), vec![7u32]);
    assert_eq!(implied_components(98), Vec::<u32>::new());
    assert_eq!(implied_components(1), Vec::<u32>::new());
    assert_eq!(implied_components(0), Vec::<u32>::new());
}

#[test]
fn ordering_example() {
    assert_eq!(order_components(&vec![23, 60]), vec![7u32, 23, 60]);
    assert_eq!(order_components(&vec![60, 23]), vec![7u32, 23, 60]);
}

#[test]
fn expansion_is_a_single_pass() {
    assert_eq!(order_components(&vec![23]), vec![7u32, 23]);
    assert_eq!(order_components(&vec![48]), vec![7u32, 48]);
    assert_eq!(order_components(&vec![7]), vec![98u32, 7]);
    assert_eq!(order_components(&vec![23, 7]), vec![98u32, 7, 23]);
}

#[test]
fn expansion_of_each_composite() {
    assert_eq!(order_components(&vec![2]), vec![2u32, 44]);
    assert_eq!(order_components(&vec![4]), vec![110u32, 109, 106, 4]);
    assert_eq!(order_components(&vec![4, 2, 48, 23]), vec![7u32, 23, 110, 109, 106, 4, 48, 2, 44]);
}

#[test]
fn no_rows_resolve_to_nothing() {
    assert_eq!(order_components(&Vec::new()), Vec::<u32>::new());
}

#[test]
fn duplicates_are_dropped() {
    assert_eq!(order_components(&vec![1, 1, 1]), vec![1u32]);
    assert_eq!(order_components(&vec![7, 23, 48, 7]), vec![98u32, 7, 23, 48]);
    assert_eq!(order_components(&vec![44, 2]), vec![2u32, 44]);
}

#[test]
fn types_without_a_place_come_last_in_ascending_order() {
    assert_eq!(order_components(&vec![500, 300, 1]), vec![1u32, 300, 500]);
    assert_eq!(order_components(&vec![1000, 107, 0, 8]), vec![107u32, 0, 8, 1000]);
    assert_eq!(order_components(&vec![u32::MAX, 12, 3]), vec![3u32, 12, u32::MAX]);
}

#[test]
fn whole_priority_table_in_any_order() {
    let table = vec![1u32, 3, 40, 98, 7, 23, 110, 109, 106, 4, 17, 5, 9, 60, 48, 16, 6, 2, 44, 107];
    let mut reversed = table.clone();
    reversed.reverse();
    assert_eq!(order_components(&reversed), table);
    assert_eq!(order_components(&table), table);
}

#[test]
fn insert_ranked_keeps_rank_order() {
    let mut ranked = vec![1u32, 7, 60];
    insert_ranked(&mut ranked, 23);
    assert_eq!(ranked, vec![1u32, 7, 23, 60]);
    insert_ranked(&mut ranked, 23);
    assert_eq!(ranked, vec![1u32, 7, 23, 60]);
    insert_ranked(&mut ranked, 107);
    insert_ranked(&mut ranked, 900);
    insert_ranked(&mut ranked, 11);
    insert_ranked(&mut ranked, 3);
    assert_eq!(ranked, vec![1u32, 3, 7, 23, 60, 107, 11, 900]);
    let mut empty = Vec::new();
    insert_ranked(&mut empty, 5);
    assert_eq!(empty, vec![5u32]);
}

#[test]
fn resolve_asks_the_row_source_once() {
    let mut resolver = ComponentResolver::new();
    let mut queries = 0;
    let first = resolver.resolve(6326, |id| {
        queries += 1;
        assert_eq!(id, 6326);
        vec![23, 60]
    });
    let second = resolver.resolve(6326, |_| {
        queries += 1;
        vec![1, 2, 3]
    });
    assert_eq!(first, vec![7u32, 23, 60]);
    assert_eq!(second, first);
    assert_eq!(queries, 1);
}

#[test]
fn resolve_keeps_templates_apart() {
    let mut resolver = ComponentResolver::new();
    assert_eq!(resolver.lookup(1), None);
    assert_eq!(resolver.resolve(1, |_| vec![4]), vec![110u32, 109, 106, 4]);
    assert_eq!(resolver.resolve(2, |_| vec![2]), vec![2u32, 44]);
    assert_eq!(resolver.lookup(1), Some(vec![110u32, 109, 106, 4]));
    assert_eq!(resolver.lookup(2), Some(vec![2u32, 44]));
    assert_eq!(resolver.lookup(3), None);
    assert_eq!(resolver.resolve(1, |_| vec![9]), vec![110u32, 109, 106, 4]);
}

#[test]
fn template_without_rows_resolves_to_nothing_and_is_remembered() {
    let mut resolver = ComponentResolver::new();
    let mut queries = 0;
    let first = resolver.resolve(42, |_| {
        queries += 1;
        Vec::new()
    });
    let second = resolver.resolve(42, |_| {
        queries += 1;
        vec![1]
    });
    assert_eq!(first, Vec::<u32>::new());
    assert_eq!(second, Vec::<u32>::new());
    assert_eq!(queries, 1);
    assert_eq!(resolver.lookup(42), Some(Vec::new()));
}

#[test]
fn store_does_not_replace_an_entry() {
    let mut resolver = ComponentResolver::new();
    assert_eq!(resolver.store(5, &vec![48, 16]), vec![7u32, 48, 16]);
    assert_eq!(resolver.store(5, &vec![1]), vec![7u32, 48, 16]);
    assert_eq!(resolver.lookup(5), Some(vec![7u32, 48, 16]));
}
