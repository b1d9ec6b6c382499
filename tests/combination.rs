use petscan_core::combination::{combine_results, parse_combination_string, result_of, Combination};
use petscan_core::pagelist::PageList;
use petscan_core::platform::sources_to_run;

fn results() -> Vec<(String, Option<PageList>)> {
    vec![
        ("a".to_string(), Some(PageList::new(vec![1, 2, 3]))),
        ("b".to_string(), Some(PageList::new(vec![3, 4]))),
        ("none".to_string(), None),
    ]
}

fn src(s: &str) -> Box<Combination> {
    Box::new(Combination::Source(s.to_string()))
}

fn pages(r: Option<PageList>) -> Option<Vec<u64>> {
    r.map(|p| {
        let mut v = p.pages();
        v.sort();
        v
    })
}

#[test]
fn union_with_empty_is_identity() {
    let r = results();
    let u = Combination::Union(Box::new(Combination::Empty), src("a"));
    assert_eq!(pages(combine_results(&r, &u)), pages(combine_results(&r, &Combination::Source("a".to_string()))));
    assert_eq!(pages(combine_results(&r, &u)), Some(vec![1, 2, 3]));
}

#[test]
fn intersection_with_empty_is_absent() {
    let r = results();
    let i = Combination::Intersection(Box::new(Combination::Empty), src("a"));
    assert!(combine_results(&r, &i).is_none());
    let i = Combination::Intersection(src("b"), Box::new(Combination::Empty));
    assert!(combine_results(&r, &i).is_none());
}

#[test]
fn union_intersection_difference() {
    let r = results();
    assert_eq!(pages(combine_results(&r, &Combination::Union(src("a"), src("b")))), Some(vec![1, 2, 3, 4]));
    assert_eq!(pages(combine_results(&r, &Combination::Intersection(src("a"), src("b")))), Some(vec![3]));
    assert_eq!(pages(combine_results(&r, &Combination::Not(src("a"), src("b")))), Some(vec![1, 2]));
}

#[test]
fn absent_operands() {
    let r = results();
    assert!(combine_results(&r, &Combination::Union(src("none"), src("a"))).is_none());
    assert_eq!(pages(combine_results(&r, &Combination::Union(src("a"), src("none")))), Some(vec![1, 2, 3]));
    assert!(combine_results(&r, &Combination::Intersection(src("a"), src("none"))).is_none());
    assert_eq!(pages(combine_results(&r, &Combination::Not(src("a"), src("none")))), Some(vec![1, 2, 3]));
    assert!(combine_results(&r, &Combination::Not(Box::new(Combination::Empty), src("a"))).is_none());
    assert_eq!(pages(combine_results(&r, &Combination::Not(src("b"), Box::new(Combination::Empty)))), Some(vec![3, 4]));
    assert!(combine_results(&r, &Combination::Empty).is_none());
    assert!(combine_results(&r, &Combination::Source("missing".to_string())).is_none());
}

#[test]
fn later_result_of_same_name_counts() {
    let mut r = results();
    r.push(("a".to_string(), Some(PageList::new(vec![9]))));
    assert_eq!(pages(result_of(&r, &"a".to_string())), Some(vec![9]));
}

#[test]
fn default_combination_is_union_chain() {
    let names = vec!["a".to_string(), "b".to_string()];
    match Combination::default_for(&names) {
        Combination::Union(l, rest) => {
            assert!(matches!(*l, Combination::Source(ref s) if s == "b"));
            assert!(matches!(*rest, Combination::Source(ref s) if s == "a"));
        }
        _ => panic!("expected a union"),
    }
    assert!(matches!(Combination::default_for(&vec![]), Combination::Empty));
}

#[test]
fn pagelist_operations() {
    let mut p = PageList::new(vec![1, 2, 2, 5]);
    p.union(&PageList::new(vec![5, 6]));
    let mut v = p.pages();
    v.sort();
    assert_eq!(v, vec![1, 2, 5, 6]);
    p.intersection(&PageList::new(vec![2, 6, 7]));
    let mut v = p.pages();
    v.sort();
    assert_eq!(v, vec![2, 6]);
    p.difference(&PageList::new(vec![6]));
    assert_eq!(p.pages(), vec![2]);
}

#[test]
fn nothing_eligible_runs_nothing() {
    let primary = vec![("database".to_string(), false), ("sparql".to_string(), false)];
    assert!(sources_to_run(&primary, &("labels".to_string(), false)).is_none());
}

#[test]
fn fallback_runs_alone() {
    let primary = vec![("database".to_string(), false)];
    assert_eq!(sources_to_run(&primary, &("labels".to_string(), true)), Some(vec!["labels".to_string()]));
}

#[test]
fn eligible_primaries_in_order() {
    let primary = vec![
        ("database".to_string(), true),
        ("sparql".to_string(), false),
        ("manual".to_string(), true),
    ];
    assert_eq!(
        sources_to_run(&primary, &("labels".to_string(), true)),
        Some(vec!["database".to_string(), "manual".to_string()])
    );
}

#[test]
fn parse_expression_left_to_right() {
    let r = results();
    let c = parse_combination_string("a OR b NOT a").unwrap();
    assert_eq!(pages(combine_results(&r, &c)), Some(vec![4]));
    let c = parse_combination_string("  a   AND b ").unwrap();
    assert_eq!(pages(combine_results(&r, &c)), Some(vec![3]));
    let c = parse_combination_string("b").unwrap();
    assert_eq!(pages(combine_results(&r, &c)), Some(vec![3, 4]));
}

#[test]
fn parse_expression_rejects_malformed() {
    assert!(parse_combination_string("").is_none());
    assert!(parse_combination_string("AND a").is_none());
    assert!(parse_combination_string("a OR").is_none());
    assert!(parse_combination_string("a b").is_none());
    assert!(parse_combination_string("a OR AND").is_none());
}
