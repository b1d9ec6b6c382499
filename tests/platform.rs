use petscan_core::form_parameters::FormParameters;
use petscan_core::pagelist::PageList;
use petscan_core::platform::Platform;

use petscan_core::text::{parse_i64, parse_unsigned, split_list, trim};

fn platform(q: &str) -> Platform {
    Platform::new_from_parameters(&FormParameters::outcome_from_query(q).unwrap())
}

#[test]
fn quote_list_drops_blank() {
    let (text, vals) = Platform::prep_quote(&vec!["".to_string(), " a ".to_string(), "b".to_string()]);
    assert_eq!(text, "?,?");
    assert_eq!(vals, vec!["a".to_string(), "b".to_string()]);
}

#[test]
fn quote_list_empty() {
    let (text, vals) = Platform::prep_quote(&vec![]);
    assert_eq!(text, "");
    assert!(vals.is_empty());
}

#[test]
fn append_keeps_order() {
    let mut a = ("x = ?".to_string(), vec!["1".to_string()]);
    let mut b = (" AND y = ?".to_string(), vec!["2".to_string()]);
    Platform::append_sql(&mut a, &mut b);
    assert_eq!(a.0, "x = ? AND y = ?");
    assert_eq!(a.1, vec!["1".to_string(), "2".to_string()]);
    assert!(b.1.is_empty());
    let e = Platform::sql_tuple();
    assert!(e.0.is_empty() && e.1.is_empty());
}

#[test]
fn label_fragment_yes_with_language() {
    let p = platform("labels_yes=Cat&langs_labels_yes=en");
    let (text, vals) = p.get_label_sql();
    assert_eq!(vals, vec!["Cat".to_string(), "en".to_string()]);
    assert_eq!(text.matches("term_text LIKE ?").count(), 1);
    assert_eq!(text.matches("term_language IN (?)").count(), 1);
    assert_eq!(text.matches('?').count(), 2);
    assert_eq!(
        text,
        "SELECT DISTINCT term_full_entity_id FROM wb_terms t1 WHERE term_entity_type='item' AND term_text LIKE ? AND term_language IN (?)"
    );
}

#[test]
fn label_fragment_empty_without_terms() {
    let p = platform("langs_labels_yes=en");
    let (text, vals) = p.get_label_sql();
    assert!(text.is_empty());
    assert!(vals.is_empty());
}

#[test]
fn label_fragment_kinds_any_and_no() {
    let p = platform("labels_yes=A&labels_no=B&langs_labels_any=de,fr&cb_labels_any_l=1&cb_labels_any_d=1&langs_labels_no=en&cb_labels_no_a=1");
    let (text, vals) = p.get_label_sql();
    assert_eq!(
        vals,
        vec!["A", "A", "de", "fr", "label", "description", "B", "en", "alias"]
            .into_iter()
            .map(|s| s.to_string())
            .collect::<Vec<_>>()
    );
    assert_eq!(text.matches('?').count(), vals.len());
    assert!(text.contains(" AND ( ( term_text LIKE ? AND term_language IN (?,?) AND term_type IN (?,?)))"));
    assert!(text.contains(" AND t2.term_text LIKE ? AND t2.term_language IN (?) AND t2.term_type IN (?))"));
}

#[test]
fn param_helpers() {
    let p = platform("a=x&blank=&list=%20one%20,,two,%20");
    assert!(p.has_param("a"));
    assert!(!p.has_param("blank"));
    assert!(!p.has_param("missing"));
    assert_eq!(p.get_param("blank"), None);
    assert_eq!(p.get_param_blank("missing"), "");
    assert_eq!(p.get_param_default("blank", "dflt"), "dflt");
    assert_eq!(p.get_param_default("a", "dflt"), "x");
    assert_eq!(p.get_param_as_vec("list", ","), vec!["one".to_string(), "two".to_string()]);
    assert!(p.get_param_as_vec("missing", ",").is_empty());
}

#[test]
fn main_wiki_only_for_wikipedia() {
    assert_eq!(platform("language=de&project=wikipedia").get_main_wiki(), Some("dewiki".to_string()));
    assert_eq!(platform("language=de&project=wikisource").get_main_wiki(), None);
    assert_eq!(platform("project=wikipedia").get_main_wiki(), None);
}

#[test]
fn db_params_defaults() {
    let d = platform("x=1").db_params();
    assert_eq!(d.combine, "subset");
    assert_eq!(d.last_edit_bot, "both");
    assert_eq!(d.last_edit_anon, "both");
    assert_eq!(d.last_edit_flagged, "both");
    assert_eq!(d.page_image, "any");
    assert_eq!(d.page_wikidata_item, "any");
    assert_eq!(d.ores_prediction, "any");
    assert_eq!(d.depth, 0);
    assert_eq!(d.max_age, None);
    assert_eq!(d.minlinks, None);
    assert!(!d.gather_link_count);
    assert_eq!(d.wiki, None);
    assert!(d.namespace_ids.is_empty());
    assert!(d.ores_prob_from.is_none());
}

#[test]
fn db_params_values() {
    let q = "combination=union&depth=3&max_age=-12&minlinks=5&larger=abc&categories=A%0A%20B%20%0A&edits%5Bbots%5D=no&ns%5B0%5D=1&language=en&project=wikipedia&lang=xx&cats=ignored&ores_prob_from=0.5";
    let d = platform(q).db_params();
    assert_eq!(d.combine, "union");
    assert_eq!(d.depth, 3);
    assert_eq!(d.max_age, Some(-12));
    assert_eq!(d.minlinks, Some(5));
    assert_eq!(d.larger, Some(0));
    assert!(d.gather_link_count);
    assert_eq!(d.cat_pos, vec!["A".to_string(), "B".to_string()]);
    assert_eq!(d.last_edit_bot, "no");
    assert_eq!(d.namespace_ids, vec![0]);
    assert_eq!(d.wiki, Some("enwiki".to_string()));
    assert_eq!(d.ores_prob_from, Some("0.5".to_string()));
}

#[test]
fn depth_out_of_range_is_zero() {
    assert_eq!(platform("depth=70000").db_params().depth, 0);
    assert_eq!(platform("depth=%2B7").db_params().depth, 7);
}

#[test]
fn run_unions_results() {
    let mut p = platform("x=1");
    let results = vec![
        ("database".to_string(), Some(PageList::new(vec![1, 2]))),
        ("manual".to_string(), Some(PageList::new(vec![2, 3]))),
    ];
    p.run(&results);
    let mut v = p.result().as_ref().unwrap().pages();
    v.sort();
    assert_eq!(v, vec![1, 2, 3]);
}

#[test]
fn run_without_results_is_absent() {
    let mut p = platform("x=1");
    p.run(&vec![]);
    assert!(p.result().is_none());
}

#[test]
fn text_helpers() {
    assert_eq!(trim("\t a b \n"), "a b");
    assert_eq!(trim("   "), "");
    assert_eq!(split_list("a||b|| c ||", "||"), vec!["a".to_string(), "b".to_string(), "c".to_string()]);
    assert_eq!(parse_unsigned("42", 100), Some(42));
    assert_eq!(parse_unsigned("420", 100), None);
    assert_eq!(parse_unsigned("-1", 100), None);
    assert_eq!(parse_unsigned("", 100), None);
    assert_eq!(parse_unsigned("99999999999999999999999", u64::MAX), None);
    assert_eq!(parse_i64("-9223372036854775808"), Some(i64::MIN));
    assert_eq!(parse_i64("9223372036854775808"), None);
    assert_eq!(parse_i64("+5"), Some(5));
    assert_eq!(parse_i64("-"), None);
    assert_eq!(parse_i64("1x"), None);
}

#[test]
fn run_follows_source_combination() {
    let mut p = platform("source_combination=database%20AND%20manual");
    let results = vec![
        ("database".to_string(), Some(PageList::new(vec![1, 2]))),
        ("manual".to_string(), Some(PageList::new(vec![2, 3]))),
    ];
    p.run(&results);
    assert_eq!(p.result().as_ref().unwrap().pages(), vec![2]);
    let mut q = platform("source_combination=database%20AND");
    q.run(&results);
    assert!(q.result().is_none());
}

#[test]
fn default_union_ignores_order() {
    let make = || {
        vec![
            ("database".to_string(), Some(PageList::new(vec![1, 2]))),
            ("sparql".to_string(), Some(PageList::new(vec![5]))),
            ("manual".to_string(), Some(PageList::new(vec![2, 3]))),
        ]
    };
    let mut forward = platform("x=1");
    forward.run(&make());
    let mut reversed = platform("x=1");
    let mut r = make();
    r.reverse();
    reversed.run(&r);
    let mut a = forward.result().as_ref().unwrap().pages();
    let mut b = reversed.result().as_ref().unwrap().pages();
    a.sort();
    b.sort();
    assert_eq!(a, vec![1, 2, 3, 5]);
    assert_eq!(a, b);
}

#[test]
fn default_union_empties_when_latest_source_found_nothing() {
    let mut p = platform("x=1");
    let results = vec![
        ("database".to_string(), Some(PageList::new(vec![1]))),
        ("manual".to_string(), None),
    ];
    p.run(&results);
    assert!(p.result().is_none());
}
