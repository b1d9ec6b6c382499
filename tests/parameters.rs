use petscan_core::form_parameters::FormParameters;

fn parse(q: &str) -> FormParameters {
    FormParameters::outcome_from_query(q).unwrap()
}

fn sorted_ns(fp: &FormParameters) -> Vec<usize> {
    let mut v = fp.ns();
    v.sort();
    v
}

#[test]
fn namespaces_from_keys() {
    let fp = parse("ns[3]=1&ns[7]=1");
    assert_eq!(sorted_ns(&fp), vec![3, 7]);
}

#[test]
fn namespace_star_means_main() {
    let fp = parse("ns=*");
    assert_eq!(sorted_ns(&fp), vec![0]);
}

#[test]
fn namespace_needs_value_one() {
    let fp = parse("ns[4]=0&ns[x]=1&ns[5]=1");
    assert_eq!(sorted_ns(&fp), vec![5]);
}

#[test]
fn namespace_star_ignored_when_others_selected() {
    let fp = parse("ns=*&ns[14]=1");
    assert_eq!(sorted_ns(&fp), vec![14]);
}

#[test]
fn lang_falls_back_to_language() {
    let fp = parse("lang=en");
    assert_eq!(fp.get("language"), Some("en".to_string()));
}

#[test]
fn language_not_overwritten_by_lang() {
    let fp = parse("lang=en&language=de");
    assert_eq!(fp.get("language"), Some("de".to_string()));
    let fp = parse("lang=en&language=");
    assert_eq!(fp.get("language"), Some("en".to_string()));
}

#[test]
fn cats_falls_back_to_categories() {
    let fp = parse("cats=Foo");
    assert_eq!(fp.get("categories"), Some("Foo".to_string()));
}

#[test]
fn comb_subset_rewrites_combination() {
    let fp = parse("comb_subset=1");
    assert_eq!(fp.get("combination"), Some("subset".to_string()));
    let fp = parse("comb_union=1");
    assert_eq!(fp.get("combination"), Some("union".to_string()));
}

#[test]
fn wikidata_flags_rewrite_item_mode() {
    let fp = parse("wikidata_no_item=1");
    assert_eq!(fp.get("wikidata_item"), Some("without".to_string()));
    let fp = parse("get_q=1");
    assert_eq!(fp.get("wikidata_item"), Some("any".to_string()));
    let fp = parse("wikidata=1");
    assert_eq!(fp.get("wikidata_item"), Some("any".to_string()));
}

#[test]
fn last_value_wins_and_decoded() {
    let fp = parse("a=1&b=x%20y&a=2");
    assert_eq!(fp.get("a"), Some("2".to_string()));
    assert_eq!(fp.get("b"), Some("x y".to_string()));
    assert_eq!(fp.get("c"), None);
}

#[test]
fn rebase_fills_missing_key() {
    let base = parse("foo=bar");
    let mut fp = parse("x=1");
    fp.rebase(&base);
    assert_eq!(fp.get("foo"), Some("bar".to_string()));
    assert_eq!(fp.get("x"), Some("1".to_string()));
}

#[test]
fn rebase_fills_blank_key() {
    let base = parse("foo=bar");
    let mut fp = parse("foo=");
    fp.rebase(&base);
    assert_eq!(fp.get("foo"), Some("bar".to_string()));
}

#[test]
fn rebase_keeps_present_value() {
    let base = parse("foo=bar");
    let mut fp = parse("foo=baz");
    fp.rebase(&base);
    assert_eq!(fp.get("foo"), Some("baz".to_string()));
}

#[test]
fn rebase_rederives_namespaces() {
    let base = parse("ns[2]=1&lang=fr");
    let mut fp = parse("x=1");
    fp.rebase(&base);
    assert_eq!(sorted_ns(&fp), vec![2]);
    assert_eq!(fp.get("language"), Some("fr".to_string()));
}

#[test]
fn serialize_round_trip() {
    let fp = parse("a=1&b=x%20y&c=%26");
    let text = fp.to_string();
    let again = parse(&text);
    for k in ["a", "b", "c"] {
        assert_eq!(again.get(k), fp.get(k));
    }
    assert_eq!(again.get("b"), Some("x y".to_string()));
    assert_eq!(again.get("c"), Some("&".to_string()));
    assert_eq!(text.split('&').count(), 3);
}

#[test]
fn serialize_encodes_space() {
    let fp = parse("k=a%20b");
    assert_eq!(fp.to_string(), "k=a%20b");
}

#[test]
fn serialize_empty() {
    let fp = parse("");
    assert_eq!(fp.to_string(), "");
}

#[test]
fn no_query_marker() {
    let fp = FormParameters::no_query();
    assert_eq!(fp.get("show_main_page"), Some("1".to_string()));
    assert!(fp.ns().is_empty());
}

#[test]
fn duplicate_keeps_everything() {
    let fp = parse("a=1&ns[1]=1");
    let d = fp.duplicate();
    assert_eq!(d.get("a"), Some("1".to_string()));
    assert_eq!(sorted_ns(&d), vec![1]);
}
