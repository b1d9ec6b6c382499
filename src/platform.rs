use vstd::prelude::*;
use crate::combination::{
    combine_results, evaluate, is_default_for, lookup, opt_view, parse_combination_string,
    parsed_as, well_formed, Combination,
};
use crate::form_parameters::FormParameters;
use crate::pagelist::PageList;
use crate::sql::{
    fragment_text, fragment_vals, kinds_of, label_sql, placeholder_text, placeholders, LabelRules,
    SQLtuple,
};
use crate::text::{
    list_of, nonblank_pieces, numeral_value, parse_i64, parse_unsigned, split_list, str_eq, trim,
    views,
};

verus! {

/// Whether `k` is present with a non-blank value.
pub open spec fn has_value(m: Map<Seq<char>, Seq<char>>, k: Seq<char>) -> bool {
    m.contains_key(k) && m[k].len() > 0
}

/// The value of `k`, or the empty text where it is absent or blank.
pub open spec fn value_or_blank(m: Map<Seq<char>, Seq<char>>, k: Seq<char>) -> Seq<char> {
    if has_value(m, k) {
        m[k]
    } else {
        Seq::empty()
    }
}

/// The value of `k`, or `d` where it is absent or blank.
pub open spec fn value_or(m: Map<Seq<char>, Seq<char>>, k: Seq<char>, d: Seq<char>) -> Seq<char> {
    if has_value(m, k) {
        m[k]
    } else {
        d
    }
}

/// The list that the value of `k` holds, split at `sep`; empty where it is absent or blank.
pub open spec fn value_list(m: Map<Seq<char>, Seq<char>>, k: Seq<char>, sep: Seq<char>) -> Seq<
    Seq<char>,
> {
    if has_value(m, k) {
        list_of(m[k], sep)
    } else {
        Seq::empty()
    }
}

/// The unsigned number that `k` holds, where it is present: 0 where it is no numeral
/// or exceeds `max`.
pub open spec fn unsigned_param(m: Map<Seq<char>, Seq<char>>, k: Seq<char>, max: int) -> Option<int> {
    if has_value(m, k) {
        match numeral_value(m[k], false) {
            Some(v) => if v <= max {
                Some(v)
            } else {
                Some(0)
            },
            None => Some(0),
        }
    } else {
        None
    }
}

/// The signed 64-bit number that `k` holds, where it is present: 0 where it is none.
pub open spec fn i64_param(m: Map<Seq<char>, Seq<char>>, k: Seq<char>) -> Option<int> {
    if has_value(m, k) {
        match numeral_value(m[k], true) {
            Some(v) => if i64::MIN <= v <= i64::MAX {
                Some(v)
            } else {
                Some(0)
            },
            None => Some(0),
        }
    } else {
        None
    }
}

/// The wiki that `language` and `project` name, where the project is Wikipedia.
pub open spec fn main_wiki(m: Map<Seq<char>, Seq<char>>) -> Option<Seq<char>> {
    if has_value(m, "language"@) && has_value(m, "project"@) && m["project"@] == "wikipedia"@ {
        Some(m["language"@] + "wiki"@)
    } else {
        None
    }
}

/// The way the database combines categories: `union` where asked for, else `subset`.
pub open spec fn combine_mode(m: Map<Seq<char>, Seq<char>>) -> Seq<char> {
    if m.contains_key("combination"@) && m["combination"@] == "union"@ {
        "union"@
    } else {
        "subset"@
    }
}

/// The names of the eligible sources, in order.
pub open spec fn eligible(s: Seq<(String, bool)>) -> Seq<Seq<char>>
    decreases s.len(),
{
    if s.len() == 0 {
        Seq::empty()
    } else if s.last().1 {
        eligible(s.drop_last()).push(s.last().0@)
    } else {
        eligible(s.drop_last())
    }
}

/// The names of the sources that produced results, in order.
pub open spec fn result_names(r: Seq<(String, Option<PageList>)>) -> Seq<Seq<char>> {
    r.map_values(|e: (String, Option<PageList>)| e.0@)
}

/// The pages of the default combination of `names`: each name in turn joins the union
/// of the earlier ones, and a source without a result there empties it.
pub open spec fn evaluate_default(r: Seq<(String, Option<PageList>)>, names: Seq<Seq<char>>) -> Option<
    Set<u64>,
>
    decreases names.len(),
{
    let leaf = match lookup(r, names.last()) {
        Some(x) => x,
        None => None,
    };
    if names.len() == 0 {
        None
    } else if names.len() == 1 {
        leaf
    } else {
        match leaf {
            Some(x) => match evaluate_default(r, names.drop_last()) {
                Some(y) => Some(x + y),
                None => Some(x),
            },
            None => None,
        }
    }
}

/// The default combination of a list of names evaluates as `evaluate_default` says.
pub proof fn lemma_default_evaluates(r: Seq<(String, Option<PageList>)>, c: Combination, names: Seq<Seq<char>>)
    requires
        is_default_for(c, names),
    ensures
        evaluate(r, c) == evaluate_default(r, names),
    decreases names.len(),
{
    if names.len() == 1 {
        assert(names.last() == names[0]);
    }
    if names.len() > 1 {
        match c {
            Combination::Union(a, b) => {
                assert(is_default_for(*b, names.drop_last()));
                lemma_default_evaluates(r, *b, names.drop_last());
                if names.drop_last().len() == 1 {
                    assert(*b is Source);
                } else {
                    assert(*b is Union);
                }
                assert(evaluate(r, *a) == match lookup(r, names.last()) {
                    Some(x) => x,
                    None => None,
                });
            },
            _ => {},
        }
    }
}

/// The pages that the source of that name found; none where it found nothing.
pub open spec fn found(r: Seq<(String, Option<PageList>)>, name: Seq<char>) -> Set<u64> {
    match lookup(r, name) {
        Some(Some(x)) => x,
        _ => Set::empty(),
    }
}

/// Every page that one of the named sources found.
pub open spec fn found_by_any(r: Seq<(String, Option<PageList>)>, names: Seq<Seq<char>>) -> Set<u64> {
    Set::new(|p: u64| exists|i: int| 0 <= i < names.len() && found(r, names[i]).contains(p))
}

/// Where every named source produced a result, the default combination finds exactly
/// the pages that any of them found, in whatever order the names come.
pub proof fn lemma_default_is_union(r: Seq<(String, Option<PageList>)>, names: Seq<Seq<char>>)
    requires
        names.len() > 0,
        forall|i: int| 0 <= i < names.len() ==> lookup(r, #[trigger] names[i]) matches Some(Some(_)),
    ensures
        evaluate_default(r, names) == Some(found_by_any(r, names)),
    decreases names.len(),
{
    let last = names[names.len() - 1];
    assert(lookup(r, last) matches Some(Some(_)));
    if names.len() == 1 {
        assert(found_by_any(r, names) =~= found(r, last));
    } else {
        let rest = names.drop_last();
        assert forall|i: int| 0 <= i < rest.len() implies lookup(r, #[trigger] rest[i]) matches Some(Some(_)) by {
            assert(rest[i] == names[i]);
        }
        lemma_default_is_union(r, rest);
        assert forall|p: u64| found_by_any(r, names).contains(p) <==> (found(r, last) + found_by_any(r, rest)).contains(p) by {
            if found_by_any(r, names).contains(p) {
                let i = choose|i: int| 0 <= i < names.len() && found(r, names[i]).contains(p);
                if i < rest.len() {
                    assert(rest[i] == names[i]);
                }
            }
            if found_by_any(r, rest).contains(p) {
                let i = choose|i: int| 0 <= i < rest.len() && found(r, rest[i]).contains(p);
                assert(rest[i] == names[i]);
            }
        }
        assert(found_by_any(r, names) =~= found(r, last) + found_by_any(r, rest));
    }
}

/// The database query's criteria, as the parameters give them.
#[derive(Debug)]
pub struct SourceDatabaseParameters {
    pub combine: String,
    pub only_new_since: bool,
    pub max_age: Option<i64>,
    pub before: String,
    pub after: String,
    pub templates_yes: Vec<String>,
    pub templates_any: Vec<String>,
    pub templates_no: Vec<String>,
    pub templates_yes_talk_page: bool,
    pub templates_any_talk_page: bool,
    pub templates_no_talk_page: bool,
    pub linked_from_all: Vec<String>,
    pub linked_from_any: Vec<String>,
    pub linked_from_none: Vec<String>,
    pub links_to_all: Vec<String>,
    pub links_to_any: Vec<String>,
    pub links_to_none: Vec<String>,
    pub last_edit_bot: String,
    pub last_edit_anon: String,
    pub last_edit_flagged: String,
    pub gather_link_count: bool,
    pub page_image: String,
    pub page_wikidata_item: String,
    pub ores_type: String,
    pub ores_prediction: String,
    pub depth: u16,
    pub cat_pos: Vec<String>,
    pub cat_neg: Vec<String>,
    /// The lower probability bound as given; read as 0.0 where absent or unreadable.
    pub ores_prob_from: Option<String>,
    /// The upper probability bound as given; read as 1.0 where absent or unreadable.
    pub ores_prob_to: Option<String>,
    pub redirects: String,
    pub minlinks: Option<usize>,
    pub maxlinks: Option<usize>,
    pub larger: Option<usize>,
    pub smaller: Option<usize>,
    pub wiki: Option<String>,
    pub namespace_ids: Vec<usize>,
}

/// One query: its parameters and, once it ran, its result.
#[derive(Debug)]
pub struct Platform {
    form_parameters: FormParameters,
    result: Option<PageList>,
}

impl Platform {
    /// The parameters, as a map.
    pub closed spec fn params(&self) -> Map<Seq<char>, Seq<char>> {
        self.form_parameters@
    }

    /// The selected namespaces.
    pub closed spec fn ns_set(&self) -> Set<usize> {
        self.form_parameters.ns_set()
    }

    /// The result, as a set of page ids.
    pub closed spec fn result_view(&self) -> Option<Set<u64>> {
        opt_view(self.result)
    }

    pub closed spec fn wf(&self) -> bool {
        self.form_parameters.wf()
    }

    /// A query over a copy of the parameters, with no result yet.
    pub fn new_from_parameters(form_parameters: &FormParameters) -> (r: Platform)
        requires
            form_parameters.wf(),
        ensures
            r.wf(),
            r.params() == form_parameters@,
            r.ns_set() == form_parameters.ns_set(),
            r.result_view() is None,
    {
        Platform { form_parameters: form_parameters.duplicate(), result: None }
    }

    /// Whether the parameter is set and not blank.
    pub fn has_param(&self, param: &str) -> (r: bool)
        requires
            self.wf(),
        ensures
            r == has_value(self.params(), param@),
    {
        match self.form_parameters.get(param) {
            Some(s) => s.unicode_len() > 0,
            None => false,
        }
    }

    /// The value of the parameter, where it is set and not blank.
    pub fn get_param(&self, param: &str) -> (r: Option<String>)
        requires
            self.wf(),
        ensures
            r is Some <==> has_value(self.params(), param@),
            r is Some ==> r->Some_0@ == self.params()[param@],
    {
        match self.form_parameters.get(param) {
            Some(s) => if s.unicode_len() > 0 {
                Some(s)
            } else {
                None
            },
            None => None,
        }
    }

    /// The value of the parameter, or the empty text.
    pub fn get_param_blank(&self, param: &str) -> (r: String)
        requires
            self.wf(),
        ensures
            r@ == value_or_blank(self.params(), param@),
    {
        match self.get_param(param) {
            Some(s) => s,
            None => String::new(),
        }
    }

    /// The value of the parameter, or `default` where it is absent or blank.
    pub fn get_param_default(&self, param: &str, default: &str) -> (r: String)
        requires
            self.wf(),
        ensures
            r@ == value_or(self.params(), param@, default@),
    {
        match self.get_param(param) {
            Some(s) => s,
            None => default.to_string(),
        }
    }

    /// The value of the parameter split at `separator`, each piece trimmed, the empty
    /// ones left out, in order.
    pub fn get_param_as_vec(&self, param: &str, separator: &str) -> (r: Vec<String>)
        requires
            self.wf(),
            separator@.len() > 0,
        ensures
            views(r@) == value_list(self.params(), param@, separator@),
    {
        match self.get_param(param) {
            Some(s) => split_list(s.as_str(), separator),
            None => {
                let r: Vec<String> = Vec::new();
                assert(views(r@) =~= Seq::<Seq<char>>::empty());
                r
            },
        }
    }

    fn unsigned_param(&self, param: &str, max: u64) -> (r: Option<u64>)
        requires
            self.wf(),
        ensures
            match unsigned_param(self.params(), param@, max as int) {
                Some(v) => r == Some(v as u64),
                None => r is None,
            },
    {
        match self.get_param(param) {
            Some(s) => match parse_unsigned(s.as_str(), max) {
                Some(v) => Some(v),
                None => Some(0),
            },
            None => None,
        }
    }

    /// The wiki that `language` and `project` name, where the project is Wikipedia.
    pub fn get_main_wiki(&self) -> (r: Option<String>)
        requires
            self.wf(),
        ensures
            match main_wiki(self.params()) {
                Some(w) => r is Some && r->Some_0@ == w,
                None => r is None,
            },
    {
        let language = match self.get_param("language") {
            Some(l) => l,
            None => return None,
        };
        let project = match self.get_param("project") {
            Some(p) => p,
            None => return None,
        };
        if str_eq(project.as_str(), "wikipedia") {
            Some(language.concat("wiki"))
        } else {
            None
        }
    }

    /// The criteria of the database query.
    pub fn db_params(&self) -> (r: SourceDatabaseParameters)
        requires
            self.wf(),
        ensures
            r.combine@ == combine_mode(self.params()),
            r.only_new_since == has_value(self.params(), "only_new_since"@),
            match i64_param(self.params(), "max_age"@) {
                Some(v) => r.max_age == Some(v as i64),
                None => r.max_age is None,
            },
            r.before@ == value_or_blank(self.params(), "before"@),
            r.after@ == value_or_blank(self.params(), "after"@),
            views(r.templates_yes@) == value_list(self.params(), "templates_yes"@, "\n"@),
            views(r.templates_any@) == value_list(self.params(), "templates_any"@, "\n"@),
            views(r.templates_no@) == value_list(self.params(), "templates_no"@, "\n"@),
            r.templates_yes_talk_page == has_value(self.params(), "templates_use_talk_yes"@),
            r.templates_any_talk_page == has_value(self.params(), "templates_use_talk_any"@),
            r.templates_no_talk_page == has_value(self.params(), "templates_use_talk_no"@),
            views(r.linked_from_all@) == value_list(self.params(), "outlinks_yes"@, "\n"@),
            views(r.linked_from_any@) == value_list(self.params(), "outlinks_any"@, "\n"@),
            views(r.linked_from_none@) == value_list(self.params(), "outlinks_no"@, "\n"@),
            views(r.links_to_all@) == value_list(self.params(), "links_to_all"@, "\n"@),
            views(r.links_to_any@) == value_list(self.params(), "links_to_any"@, "\n"@),
            views(r.links_to_none@) == value_list(self.params(), "links_to_no"@, "\n"@),
            r.last_edit_bot@ == value_or(self.params(), "edits[bots]"@, "both"@),
            r.last_edit_anon@ == value_or(self.params(), "edits[anons]"@, "both"@),
            r.last_edit_flagged@ == value_or(self.params(), "edits[flagged]"@, "both"@),
            r.gather_link_count == (has_value(self.params(), "minlinks"@) || has_value(self.params(), "maxlinks"@)),
            r.page_image@ == value_or(self.params(), "page_image"@, "any"@),
            r.page_wikidata_item@ == value_or(self.params(), "wikidata_item"@, "any"@),
            r.ores_type@ == value_or_blank(self.params(), "ores_type"@),
            r.ores_prediction@ == value_or(self.params(), "ores_prediction"@, "any"@),
            r.depth == match unsigned_param(self.params(), "depth"@, u16::MAX as int) {
                Some(v) => v as u16,
                None => 0u16,
            },
            views(r.cat_pos@) == value_list(self.params(), "categories"@, "\n"@),
            views(r.cat_neg@) == value_list(self.params(), "negcats"@, "\n"@),
            r.ores_prob_from is Some == has_value(self.params(), "ores_prob_from"@),
            r.ores_prob_from is Some ==> r.ores_prob_from->Some_0@ == self.params()["ores_prob_from"@],
            r.ores_prob_to is Some == has_value(self.params(), "ores_prob_to"@),
            r.ores_prob_to is Some ==> r.ores_prob_to->Some_0@ == self.params()["ores_prob_to"@],
            r.redirects@ == value_or_blank(self.params(), "show_redirects"@),
            match unsigned_param(self.params(), "minlinks"@, usize::MAX as int) {
                Some(v) => r.minlinks == Some(v as usize),
                None => r.minlinks is None,
            },
            match unsigned_param(self.params(), "maxlinks"@, usize::MAX as int) {
                Some(v) => r.maxlinks == Some(v as usize),
                None => r.maxlinks is None,
            },
            match unsigned_param(self.params(), "larger"@, usize::MAX as int) {
                Some(v) => r.larger == Some(v as usize),
                None => r.larger is None,
            },
            match unsigned_param(self.params(), "smaller"@, usize::MAX as int) {
                Some(v) => r.smaller == Some(v as usize),
                None => r.smaller is None,
            },
            match main_wiki(self.params()) {
                Some(w) => r.wiki is Some && r.wiki->Some_0@ == w,
                None => r.wiki is None,
            },
            r.namespace_ids@.to_set() == self.ns_set(),
            r.namespace_ids@.no_duplicates(),
    {
        proof {
            reveal_strlit("\n");
        }
        let depth: u16 = match self.unsigned_param("depth", u16::MAX as u64) {
            Some(v) => v as u16,
            None => 0,
        };
        let combine = match self.form_parameters.get("combination") {
            Some(x) => if str_eq(x.as_str(), "union") {
                x
            } else {
                "subset".to_string()
            },
            None => "subset".to_string(),
        };
        let max_age = match self.get_param("max_age") {
            Some(s) => match parse_i64(s.as_str()) {
                Some(v) => Some(v),
                None => Some(0),
            },
            None => None,
        };
        let minlinks = match self.unsigned_param("minlinks", usize::MAX as u64) {
            Some(v) => Some(v as usize),
            None => None,
        };
        let maxlinks = match self.unsigned_param("maxlinks", usize::MAX as u64) {
            Some(v) => Some(v as usize),
            None => None,
        };
        let larger = match self.unsigned_param("larger", usize::MAX as u64) {
            Some(v) => Some(v as usize),
            None => None,
        };
        let smaller = match self.unsigned_param("smaller", usize::MAX as u64) {
            Some(v) => Some(v as usize),
            None => None,
        };
        SourceDatabaseParameters {
            combine,
            only_new_since: self.has_param("only_new_since"),
            max_age,
            before: self.get_param_blank("before"),
            after: self.get_param_blank("after"),
            templates_yes: self.get_param_as_vec("templates_yes", "\n"),
            templates_any: self.get_param_as_vec("templates_any", "\n"),
            templates_no: self.get_param_as_vec("templates_no", "\n"),
            templates_yes_talk_page: self.has_param("templates_use_talk_yes"),
            templates_any_talk_page: self.has_param("templates_use_talk_any"),
            templates_no_talk_page: self.has_param("templates_use_talk_no"),
            linked_from_all: self.get_param_as_vec("outlinks_yes", "\n"),
            linked_from_any: self.get_param_as_vec("outlinks_any", "\n"),
            linked_from_none: self.get_param_as_vec("outlinks_no", "\n"),
            links_to_all: self.get_param_as_vec("links_to_all", "\n"),
            links_to_any: self.get_param_as_vec("links_to_any", "\n"),
            links_to_none: self.get_param_as_vec("links_to_no", "\n"),
            last_edit_bot: self.get_param_default("edits[bots]", "both"),
            last_edit_anon: self.get_param_default("edits[anons]", "both"),
            last_edit_flagged: self.get_param_default("edits[flagged]", "both"),
            gather_link_count: self.has_param("minlinks") || self.has_param("maxlinks"),
            page_image: self.get_param_default("page_image", "any"),
            page_wikidata_item: self.get_param_default("wikidata_item", "any"),
            ores_type: self.get_param_blank("ores_type"),
            ores_prediction: self.get_param_default("ores_prediction", "any"),
            depth,
            cat_pos: self.get_param_as_vec("categories", "\n"),
            cat_neg: self.get_param_as_vec("negcats", "\n"),
            ores_prob_from: self.get_param("ores_prob_from"),
            ores_prob_to: self.get_param("ores_prob_to"),
            redirects: self.get_param_blank("show_redirects"),
            minlinks,
            maxlinks,
            larger,
            smaller,
            wiki: self.get_main_wiki(),
            namespace_ids: self.form_parameters.ns(),
        }
    }

    /// An empty fragment.
    pub fn sql_tuple() -> (r: SQLtuple)
        ensures
            r.0@.len() == 0,
            r.1@.len() == 0,
    {
        (String::new(), Vec::new())
    }

    /// Appends `sub` to `sql`: its text after the text, its values after the values.
    pub fn append_sql(sql: &mut SQLtuple, sub: &mut SQLtuple)
        ensures
            final(sql).0@ == old(sql).0@ + old(sub).0@,
            final(sql).1@ == old(sql).1@ + old(sub).1@,
            final(sub).0 == old(sub).0,
            final(sub).1@.len() == 0,
    {
        sql.0.append(sub.0.as_str());
        sql.1.append(&mut sub.1);
    }

    /// A comma-separated run of placeholders, one for each value that is not blank, and
    /// those values trimmed, in order.
    pub fn prep_quote(strings: &Vec<String>) -> (r: SQLtuple)
        ensures
            views(r.1@) == nonblank_pieces(views(strings@)),
            r.0@ == placeholders(r.1@.len()),
    {
        let mut kept: Vec<String> = Vec::new();
        let mut i: usize = 0;
        while i < strings.len()
            invariant
                i <= strings@.len(),
                views(kept@) == nonblank_pieces(views(strings@.subrange(0, i as int))),
            decreases strings@.len() - i,
        {
            proof {
                assert(views(strings@.subrange(0, i + 1)) == views(strings@.subrange(0, i as int)).push(
                    strings@[i as int]@,
                ));
                crate::text::lemma_nonblank_append(views(strings@.subrange(0, i as int)), strings@[i as int]@);
            }
            let t = trim(strings[i].as_str());
            if t.unicode_len() > 0 {
                let ghost before = kept@;
                kept.push(t);
                assert(views(kept@) == views(before).push(t@));
            }
            i = i + 1;
        }
        assert(strings@.subrange(0, i as int) == strings@);
        (placeholder_text(kept.len()), kept)
    }

    /// The term kinds that the toggles of a group select.
    fn label_kinds(&self, label: &str, alias: &str, description: &str) -> (r: Vec<String>)
        requires
            self.wf(),
        ensures
            views(r@) == kinds_of(has_value(self.params(), label@), has_value(self.params(), alias@), has_value(self.params(), description@)),
    {
        let mut types: Vec<String> = Vec::new();
        let ghost l = has_value(self.params(), label@);
        let ghost a = has_value(self.params(), alias@);
        let ghost d = has_value(self.params(), description@);
        if self.has_param(label) {
            types.push("label".to_string());
        }
        let ghost t1 = views(types@);
        assert(t1 =~= if l { seq!["label"@] } else { Seq::<Seq<char>>::empty() });
        if self.has_param(alias) {
            types.push("alias".to_string());
        }
        let ghost t2 = views(types@);
        assert(t2 =~= t1 + if a { seq!["alias"@] } else { Seq::<Seq<char>>::empty() });
        if self.has_param(description) {
            types.push("description".to_string());
        }
        assert(views(types@) =~= t2 + if d { seq!["description"@] } else { Seq::<Seq<char>>::empty() });
        types
    }

    /// The label, alias and description filter that the `labels_*`, `langs_labels_*` and
    /// `cb_labels_*` parameters ask for.
    pub fn get_label_sql(&self) -> (r: SQLtuple)
        requires
            self.wf(),
        ensures
            r.0@ == fragment_text(
                value_list(self.params(), "labels_yes"@, "\n"@),
                value_list(self.params(), "labels_any"@, "\n"@).len(),
                value_list(self.params(), "labels_no"@, "\n"@),
                value_list(self.params(), "langs_labels_yes"@, ","@),
                value_list(self.params(), "langs_labels_any"@, ","@),
                value_list(self.params(), "langs_labels_no"@, ","@),
                kinds_of(has_value(self.params(), "cb_labels_yes_l"@), has_value(self.params(), "cb_labels_yes_a"@), has_value(self.params(), "cb_labels_yes_d"@)),
                kinds_of(has_value(self.params(), "cb_labels_any_l"@), has_value(self.params(), "cb_labels_any_a"@), has_value(self.params(), "cb_labels_any_d"@)),
                kinds_of(has_value(self.params(), "cb_labels_no_l"@), has_value(self.params(), "cb_labels_no_a"@), has_value(self.params(), "cb_labels_no_d"@)),
            ),
            views(r.1@) == fragment_vals(
                value_list(self.params(), "labels_yes"@, "\n"@),
                value_list(self.params(), "labels_any"@, "\n"@).len(),
                value_list(self.params(), "labels_no"@, "\n"@),
                value_list(self.params(), "langs_labels_yes"@, ","@),
                value_list(self.params(), "langs_labels_any"@, ","@),
                value_list(self.params(), "langs_labels_no"@, ","@),
                kinds_of(has_value(self.params(), "cb_labels_yes_l"@), has_value(self.params(), "cb_labels_yes_a"@), has_value(self.params(), "cb_labels_yes_d"@)),
                kinds_of(has_value(self.params(), "cb_labels_any_l"@), has_value(self.params(), "cb_labels_any_a"@), has_value(self.params(), "cb_labels_any_d"@)),
                kinds_of(has_value(self.params(), "cb_labels_no_l"@), has_value(self.params(), "cb_labels_no_a"@), has_value(self.params(), "cb_labels_no_d"@)),
            ),
    {
        proof {
            reveal_strlit("\n");
            reveal_strlit(",");
        }
        let any = self.get_param_as_vec("labels_any", "\n");
        assert(any@.len() == views(any@).len());
        let rules = LabelRules {
            yes: self.get_param_as_vec("labels_yes", "\n"),
            any,
            no: self.get_param_as_vec("labels_no", "\n"),
            langs_yes: self.get_param_as_vec("langs_labels_yes", ","),
            langs_any: self.get_param_as_vec("langs_labels_any", ","),
            langs_no: self.get_param_as_vec("langs_labels_no", ","),
            kinds_yes: self.label_kinds("cb_labels_yes_l", "cb_labels_yes_a", "cb_labels_yes_d"),
            kinds_any: self.label_kinds("cb_labels_any_l", "cb_labels_any_a", "cb_labels_any_d"),
            kinds_no: self.label_kinds("cb_labels_no_l", "cb_labels_no_a", "cb_labels_no_d"),
        };
        label_sql(&rules)
    }

    /// The combination to evaluate: the one that `source_combination` writes (none where
    /// it is no expression), else the union of the named sources.
    fn get_combination(&self, available_sources: &Vec<String>) -> (r: Combination)
        requires
            self.wf(),
        ensures
            has_value(self.params(), "source_combination"@) ==> if well_formed(
                list_of(self.params()["source_combination"@], " "@),
            ) {
                parsed_as(r, list_of(self.params()["source_combination"@], " "@))
            } else {
                r is Empty
            },
            !has_value(self.params(), "source_combination"@) ==> is_default_for(r, views(available_sources@)),
    {
        match self.get_param("source_combination") {
            Some(text) => match parse_combination_string(text.as_str()) {
                Some(c) => c,
                None => Combination::Empty,
            },
            None => Combination::default_for(available_sources),
        }
    }

    /// Keeps the result of combining the sources' results: by the expression that
    /// `source_combination` writes, where it is set (nothing where it is no expression);
    /// else the union of them all, each source in turn joining on the left of the earlier ones.
    pub fn run(&mut self, results: &Vec<(String, Option<PageList>)>)
        requires
            old(self).wf(),
        ensures
            final(self).wf(),
            final(self).params() == old(self).params(),
            final(self).ns_set() == old(self).ns_set(),
            !has_value(old(self).params(), "source_combination"@) ==> final(self).result_view()
                == evaluate_default(results@, result_names(results@)),
            has_value(old(self).params(), "source_combination"@) && well_formed(
                list_of(old(self).params()["source_combination"@], " "@),
            ) ==> exists|c: Combination|
                parsed_as(c, list_of(old(self).params()["source_combination"@], " "@))
                    && final(self).result_view() == evaluate(results@, c),
            has_value(old(self).params(), "source_combination"@) && !well_formed(
                list_of(old(self).params()["source_combination"@], " "@),
            ) ==> final(self).result_view() is None,
    {
        let mut names: Vec<String> = Vec::new();
        let mut i: usize = 0;
        while i < results.len()
            invariant
                i <= results@.len(),
                views(names@) == result_names(results@).subrange(0, i as int),
            decreases results@.len() - i,
        {
            let ghost before = names@;
            names.push(results[i].0.clone());
            assert(views(names@) =~= result_names(results@).subrange(0, i + 1)) by {
                assert(views(names@) =~= views(before).push(results@[i as int].0@));
            }
            i = i + 1;
        }
        assert(result_names(results@).subrange(0, i as int) == result_names(results@));
        let combination = self.get_combination(&names);
        proof {
            if !has_value(self.params(), "source_combination"@) {
                lemma_default_evaluates(results@, combination, views(names@));
            }
        }
        self.result = combine_results(results, &combination);
    }

    /// The result, once the query ran.
    pub fn result(&self) -> (r: &Option<PageList>)
        ensures
            opt_view(*r) == self.result_view(),
    {
        &self.result
    }

    /// The parameters of the query.
    pub fn form_parameters(&self) -> (r: &FormParameters)
        ensures
            r@ == self.params(),
            r.ns_set() == self.ns_set(),
            self.wf() ==> r.wf(),
    {
        &self.form_parameters
    }
}

/// The sources to run: the eligible ones among `primary`, in order; where none is, the
/// fallback alone if it is eligible; and `None`, so that nothing runs, where it is not.
pub fn sources_to_run(primary: &Vec<(String, bool)>, fallback: &(String, bool)) -> (r: Option<
    Vec<String>,
>)
    ensures
        eligible(primary@).len() > 0 ==> r is Some && views(r->Some_0@) == eligible(primary@),
        eligible(primary@).len() == 0 && fallback.1 ==> r is Some && views(r->Some_0@) == seq![
            fallback.0@,
        ],
        r is None <==> eligible(primary@).len() == 0 && !fallback.1,
{
    let mut names: Vec<String> = Vec::new();
    let mut i: usize = 0;
    while i < primary.len()
        invariant
            i <= primary@.len(),
            views(names@) == eligible(primary@.subrange(0, i as int)),
        decreases primary@.len() - i,
    {
        assert(primary@.subrange(0, i + 1).drop_last() == primary@.subrange(0, i as int));
        if primary[i].1 {
            let ghost before = names@;
            names.push(primary[i].0.clone());
            assert(views(names@) =~= views(before).push(primary@[i as int].0@));
        }
        i = i + 1;
    }
    assert(primary@.subrange(0, i as int) == primary@);
    if names.len() > 0 {
        return Some(names);
    }
    if fallback.1 {
        let mut only: Vec<String> = Vec::new();
        only.push(fallback.0.clone());
        assert(views(only@) =~= seq![fallback.0@]);
        Some(only)
    } else {
        None
    }
}

} // verus!
