use vstd::prelude::*;
use crate::text::{all_digits, digits_value, parse_digits, str_eq};

verus! {

/// The key/value pairs, percent-decoded and in order, that a URL query holds; `None`
/// where the text is no valid query.
pub uninterp spec fn decoded_query(q: Seq<char>) -> Option<Seq<(Seq<char>, Seq<char>)>>;

/// The percent-encoded form of a text.
pub uninterp spec fn percent_encoded(s: Seq<char>) -> Seq<char>;

/// The views of a sequence of string pairs.
pub open spec fn pair_views(v: Seq<(String, String)>) -> Seq<(Seq<char>, Seq<char>)> {
    v.map_values(|p: (String, String)| (p.0@, p.1@))
}

/// The map that a sequence of pairs gives: where a key stands twice, the later value wins.
pub open spec fn map_of(s: Seq<(Seq<char>, Seq<char>)>) -> Map<Seq<char>, Seq<char>>
    decreases s.len(),
{
    if s.len() == 0 {
        Map::empty()
    } else {
        map_of(s.drop_last()).insert(s.last().0, s.last().1)
    }
}

/// No key stands twice.
pub open spec fn unique_keys(s: Seq<(Seq<char>, Seq<char>)>) -> bool {
    forall|i: int, j: int| 0 <= i < s.len() && 0 <= j < s.len() && i != j ==> s[i].0 != s[j].0
}

/// The key under which namespace `d` (in decimal digits) is selected.
pub open spec fn ns_key(d: Seq<char>) -> Seq<char> {
    "ns["@ + d + "]"@
}

/// Whether `k` selects namespace `n` by its key alone.
pub open spec fn selects_ns(k: Seq<char>, n: usize) -> bool {
    exists|d: Seq<char>| d.len() > 0 && all_digits(d) && digits_value(d) == n && k == ns_key(d)
}

/// The namespaces that `ns[n]=1` entries select.
pub open spec fn ns_selected(m: Map<Seq<char>, Seq<char>>) -> Set<usize> {
    Set::new(|n: usize| exists|k: Seq<char>| m.contains_key(k) && m[k] == "1"@ && selects_ns(k, n))
}

/// The namespace set of a parameter map: those selected, or namespace 0 alone where
/// none is and `ns=*` stands.
pub open spec fn ns_of(m: Map<Seq<char>, Seq<char>>) -> Set<usize> {
    if ns_selected(m).is_empty() && m.contains_key("ns"@) && m["ns"@] == "*"@ {
        set![0usize]
    } else {
        ns_selected(m)
    }
}

/// Copies the value of `legacy` to `modern` where `modern` is absent or blank.
pub open spec fn fallback_spec(m: Map<Seq<char>, Seq<char>>, modern: Seq<char>, legacy: Seq<char>) -> Map<
    Seq<char>,
    Seq<char>,
> {
    if m.contains_key(legacy) && (!m.contains_key(modern) || m[modern].len() == 0) {
        m.insert(modern, m[legacy])
    } else {
        m
    }
}

/// Sets `key` to `value` where `trigger` is present.
pub open spec fn rewrite_spec(
    m: Map<Seq<char>, Seq<char>>,
    trigger: Seq<char>,
    key: Seq<char>,
    value: Seq<char>,
) -> Map<Seq<char>, Seq<char>> {
    if m.contains_key(trigger) {
        m.insert(key, value)
    } else {
        m
    }
}

/// The map after the renames and rewrites of deprecated parameters.
pub open spec fn normalized(m: Map<Seq<char>, Seq<char>>) -> Map<Seq<char>, Seq<char>> {
    let m1 = fallback_spec(m, "language"@, "lang"@);
    let m2 = fallback_spec(m1, "categories"@, "cats"@);
    let m3 = rewrite_spec(m2, "comb_subset"@, "combination"@, "subset"@);
    let m4 = rewrite_spec(m3, "comb_union"@, "combination"@, "union"@);
    let m5 = rewrite_spec(m4, "get_q"@, "wikidata_item"@, "any"@);
    let m6 = rewrite_spec(m5, "wikidata"@, "wikidata_item"@, "any"@);
    rewrite_spec(m6, "wikidata_no_item"@, "wikidata_item"@, "without"@)
}

/// Whether a map holds none of the deprecated keys that normalization reads.
pub open spec fn has_no_legacy_keys(m: Map<Seq<char>, Seq<char>>) -> bool {
    &&& !m.contains_key("lang"@)
    &&& !m.contains_key("cats"@)
    &&& !m.contains_key("comb_subset"@)
    &&& !m.contains_key("comb_union"@)
    &&& !m.contains_key("get_q"@)
    &&& !m.contains_key("wikidata"@)
    &&& !m.contains_key("wikidata_no_item"@)
}

/// The text that `key=value` pairs serialize to, percent-encoded and joined by `&`.
pub open spec fn serialized(s: Seq<(Seq<char>, Seq<char>)>) -> Seq<char>
    decreases s.len(),
{
    if s.len() == 0 {
        Seq::empty()
    } else {
        let item = percent_encoded(s.last().0) + "="@ + percent_encoded(s.last().1);
        if s.len() == 1 {
            item
        } else {
            serialized(s.drop_last()) + "&"@ + item
        }
    }
}

/// Relies on url::Url::parse and Url::query_pairs: the decoded pairs of the query
/// string, or the parser's error as text.
#[verifier::external_body]
fn decode_query(query: &str) -> (r: Result<Vec<(String, String)>, String>)
    ensures
        match r {
            Ok(v) => decoded_query(query@) == Some(pair_views(v@)),
            Err(_) => decoded_query(query@) is None,
        },
{
    match url::Url::parse(&("https://127.0.0.1/?".to_string() + query)) {
        Ok(url) => Ok(url.query_pairs().into_owned().collect()),
        Err(e) => Err(format!("{:?}", &e)),
    }
}

/// Relies on rocket's RawStr::percent_encode.
#[verifier::external_body]
fn percent_encode(s: &str) -> (r: String)
    ensures
        r@ == percent_encoded(s@),
{
    rocket::http::RawStr::new(s).percent_encode().to_string()
}

/// Relies on regex's Regex::captures with `^ns\[(\d+)\]$`: the captured digits of a
/// namespace key. `\d` takes every Unicode decimal digit, which holds the ASCII ones.
#[verifier::external_body]
fn ns_key_digits(key: &str) -> (r: Option<String>)
    ensures
        r is Some ==> r->Some_0@.len() > 0 && key@ == ns_key(r->Some_0@),
        forall|d: Seq<char>|
            d.len() > 0 && all_digits(d) && key@ == ns_key(d) ==> r is Some && r->Some_0@ == d,
{
    let re = regex::Regex::new(r"^ns\[(\d+)\]$").unwrap();
    re.captures(key).map(|c| c[1].to_string())
}

/// The map in which the keys of `b` fill what `a` lacks or holds blank.
pub open spec fn merged(a: Map<Seq<char>, Seq<char>>, b: Map<Seq<char>, Seq<char>>) -> Map<
    Seq<char>,
    Seq<char>,
> {
    Map::new(
        |k: Seq<char>| a.contains_key(k) || b.contains_key(k),
        |k: Seq<char>|
            if b.contains_key(k) && (!a.contains_key(k) || a[k].len() == 0) {
                b[k]
            } else {
                a[k]
            },
    )
}

/// Whether a pair selects namespace `n`.
pub open spec fn pair_selects(e: (Seq<char>, Seq<char>), n: usize) -> bool {
    e.1 == "1"@ && selects_ns(e.0, n)
}

proof fn lemma_push_contains_usize(s: Seq<usize>, x: usize)
    ensures
        forall|y: usize| #[trigger] s.push(x).contains(y) <==> (s.contains(y) || y == x),
{
    assert forall|y: usize| #[trigger] s.push(x).contains(y) <==> (s.contains(y) || y == x) by {
        if s.push(x).contains(y) {
            let j = choose|j: int| 0 <= j < s.len() + 1 && s.push(x)[j] == y;
            if j < s.len() {
                assert(s[j] == y);
            }
        }
        if s.contains(y) {
            let j = choose|j: int| 0 <= j < s.len() && s[j] == y;
            assert(s.push(x)[j] == y);
        }
        if y == x {
            assert(s.push(x)[s.len() as int] == x);
        }
    }
}

fn contains_usize(v: &Vec<usize>, x: usize) -> (r: bool)
    ensures
        r == v@.contains(x),
{
    let mut i: usize = 0;
    while i < v.len()
        invariant
            i <= v@.len(),
            forall|j: int| 0 <= j < i ==> v@[j] != x,
        decreases v@.len() - i,
    {
        if v[i] == x {
            return true;
        }
        i = i + 1;
    }
    false
}

/// The namespaces that a key with value `1` selects: none or one.
fn key_namespace(key: &str) -> (r: Option<usize>)
    ensures
        r is Some ==> selects_ns(key@, r->Some_0),
        forall|n: usize| selects_ns(key@, n) ==> r == Some(n),
{
    match ns_key_digits(key) {
        Some(d) => match parse_digits(d.as_str()) {
            Some(v) => {
                if v <= usize::MAX as u64 {
                    proof {
                        assert forall|n: usize| selects_ns(key@, n) implies v as usize == n by {
                            let d2 = choose|d2: Seq<char>| d2.len() > 0 && all_digits(d2) && digits_value(d2) == n && key@ == ns_key(d2);
                        }
                    }
                    Some(v as usize)
                } else {
                    None
                }
            },
            None => None,
        },
        None => None,
    }
}

/// A canonical view of the parameters of a request.
#[derive(Debug)]
pub struct FormParameters {
    params: Vec<(String, String)>,
    ns: Vec<usize>,
}

proof fn lemma_map_of_update(s: Seq<(Seq<char>, Seq<char>)>, j: int, v: Seq<char>)
    requires
        unique_keys(s),
        0 <= j < s.len(),
    ensures
        map_of(s.update(j, (s[j].0, v))) == map_of(s).insert(s[j].0, v),
    decreases s.len(),
{
    let u = s.update(j, (s[j].0, v));
    if j == s.len() - 1 {
        assert(u.drop_last() == s.drop_last());
        assert(map_of(s).insert(s[j].0, v) =~= map_of(u));
    } else {
        assert(u.drop_last() == s.drop_last().update(j, (s[j].0, v)));
        lemma_map_of_update(s.drop_last(), j, v);
        assert(s.last().0 != s[j].0);
        assert(map_of(s).insert(s[j].0, v) =~= map_of(u));
    }
}

proof fn lemma_map_of_entries(s: Seq<(Seq<char>, Seq<char>)>)
    requires
        unique_keys(s),
    ensures
        forall|k: Seq<char>| #[trigger] map_of(s).contains_key(k) <==> exists|i: int| 0 <= i < s.len() && s[i].0 == k,
        forall|i: int| 0 <= i < s.len() ==> map_of(s).contains_key(#[trigger] s[i].0) && map_of(s)[s[i].0] == s[i].1,
    decreases s.len(),
{
    if s.len() > 0 {
        let p = s.drop_last();
        assert(unique_keys(p));
        lemma_map_of_entries(p);
        assert forall|k: Seq<char>| #[trigger] map_of(s).contains_key(k) <==> exists|i: int| 0 <= i < s.len() && s[i].0 == k by {
            if map_of(s).contains_key(k) && k == s.last().0 {
                assert(s[s.len() - 1].0 == k);
            }
            if map_of(s).contains_key(k) && k != s.last().0 {
                assert(map_of(p).contains_key(k));
                let i = choose|i: int| 0 <= i < p.len() && p[i].0 == k;
                assert(s[i].0 == k);
            }
            if exists|i: int| 0 <= i < s.len() && s[i].0 == k {
                let i = choose|i: int| 0 <= i < s.len() && s[i].0 == k;
                if i < p.len() {
                    assert(p[i].0 == k);
                }
            }
        }
        assert forall|i: int| 0 <= i < s.len() implies map_of(s).contains_key(#[trigger] s[i].0) && map_of(s)[s[i].0] == s[i].1 by {
            if i < p.len() {
                assert(p[i] == s[i]);
                assert(s[i].0 != s.last().0);
            }
        }
    }
}

impl View for FormParameters {
    type V = Map<Seq<char>, Seq<char>>;

    closed spec fn view(&self) -> Map<Seq<char>, Seq<char>> {
        map_of(pair_views(self.params@))
    }
}

impl FormParameters {
    /// The parameters in the order in which they were first set.
    pub closed spec fn pairs(&self) -> Seq<(Seq<char>, Seq<char>)> {
        pair_views(self.params@)
    }

    /// The selected namespaces.
    pub closed spec fn ns_set(&self) -> Set<usize> {
        self.ns@.to_set()
    }

    pub closed spec fn wf(&self) -> bool {
        unique_keys(pair_views(self.params@)) && self.ns@.no_duplicates()
    }

    /// The pairs hold one entry per key, and as a map they are the view.
    pub proof fn lemma_pairs(&self)
        requires
            self.wf(),
        ensures
            unique_keys(self.pairs()),
            map_of(self.pairs()) == self@,
    {
    }

    /// A parameter set with the single marker that no criteria were supplied.
    pub fn no_query() -> (r: FormParameters)
        ensures
            r.wf(),
            r@ == map![ "show_main_page"@ => "1"@ ],
            r.ns_set() == Set::<usize>::empty(),
    {
        let mut params: Vec<(String, String)> = Vec::new();
        params.push(("show_main_page".to_string(), "1".to_string()));
        let r = FormParameters { params, ns: Vec::new() };
        let ghost pv = pair_views(r.params@);
        assert(pv.len() == 1);
        assert(pv[0] == ("show_main_page"@, "1"@));
        assert(pv.drop_last().len() == 0);
        assert(map_of(pv.drop_last()) == Map::<Seq<char>, Seq<char>>::empty());
        assert(r@ =~= map![ "show_main_page"@ => "1"@ ]);
        assert(r.ns@.to_set() =~= Set::<usize>::empty());
        r
    }

    fn find(&self, key: &str) -> (r: Option<usize>)
        requires
            self.wf(),
        ensures
            match r {
                Some(i) => i < self.params@.len() && self.params@[i as int].0@ == key@,
                None => !self@.contains_key(key@),
            },
    {
        proof {
            lemma_map_of_entries(pair_views(self.params@));
        }
        let mut i: usize = 0;
        while i < self.params.len()
            invariant
                i <= self.params@.len(),
                forall|j: int| 0 <= j < i ==> self.params@[j].0@ != key@,
            decreases self.params@.len() - i,
        {
            if str_eq(self.params[i].0.as_str(), key) {
                return Some(i);
            }
            i = i + 1;
        }
        proof {
            if self@.contains_key(key@) {
                let j = choose|j: int| 0 <= j < self.params@.len() && pair_views(self.params@)[j].0 == key@;
                assert(self.params@[j].0@ == key@);
            }
        }
        None
    }

    /// The value stored under `key`, blank or not.
    pub fn get(&self, key: &str) -> (r: Option<String>)
        requires
            self.wf(),
        ensures
            match r {
                Some(v) => self@.contains_key(key@) && self@[key@] == v@,
                None => !self@.contains_key(key@),
            },
    {
        proof {
            lemma_map_of_entries(pair_views(self.params@));
        }
        match self.find(key) {
            Some(i) => {
                assert(pair_views(self.params@)[i as int].0 == key@);
                Some(self.params[i].1.clone())
            },
            None => None,
        }
    }

    fn has_param(&self, key: &str) -> (r: bool)
        requires
            self.wf(),
        ensures
            r == self@.contains_key(key@),
    {
        proof {
            lemma_map_of_entries(pair_views(self.params@));
        }
        match self.find(key) {
            Some(i) => {
                assert(pair_views(self.params@)[i as int].0 == key@);
                true
            },
            None => false,
        }
    }

    fn set_param(&mut self, key: &str, value: &str)
        requires
            old(self).wf(),
        ensures
            final(self).wf(),
            final(self)@ == old(self)@.insert(key@, value@),
            final(self).ns == old(self).ns,
    {
        let ghost s = pair_views(self.params@);
        match self.find(key) {
            Some(i) => {
                proof {
                    lemma_map_of_update(s, i as int, value@);
                }
                let k = self.params[i].0.clone();
                self.params.set(i, (k, value.to_string()));
                assert(pair_views(self.params@) =~= s.update(i as int, (s[i as int].0, value@)));
            },
            None => {
                proof {
                    lemma_map_of_entries(s);
                }
                self.params.push((key.to_string(), value.to_string()));
                assert(pair_views(self.params@) =~= s.push((key@, value@)));
                assert(pair_views(self.params@).drop_last() == s);
            },
        }
    }

    fn fallback(&mut self, key_primary: &str, key_fallback: &str)
        requires
            old(self).wf(),
        ensures
            final(self).wf(),
            final(self)@ == fallback_spec(old(self)@, key_primary@, key_fallback@),
            final(self).ns == old(self).ns,
    {
        let legacy = match self.get(key_fallback) {
            Some(v) => v,
            None => return,
        };
        let blank = match self.get(key_primary) {
            Some(v) => v.unicode_len() == 0,
            None => true,
        };
        if blank {
            self.set_param(key_primary, legacy.as_str());
        }
    }

    fn rewrite(&mut self, trigger: &str, key: &str, value: &str)
        requires
            old(self).wf(),
        ensures
            final(self).wf(),
            final(self)@ == rewrite_spec(old(self)@, trigger@, key@, value@),
            final(self).ns == old(self).ns,
    {
        if self.has_param(trigger) {
            self.set_param(key, value);
        }
    }

    /// The namespaces that the parameters select.
    fn ns_from_params(&self) -> (r: Vec<usize>)
        requires
            self.wf(),
        ensures
            r@.no_duplicates(),
            r@.to_set() == ns_of(self@),
    {
        let ghost pv = pair_views(self.params@);
        proof {
            lemma_map_of_entries(pv);
        }
        let mut out: Vec<usize> = Vec::new();
        let mut i: usize = 0;
        while i < self.params.len()
            invariant
                pv == pair_views(self.params@),
                i <= pv.len(),
                out@.no_duplicates(),
                forall|n: usize| #[trigger] out@.contains(n) <==> exists|j: int| 0 <= j < i && pair_selects(pv[j], n),
            decreases pv.len() - i,
        {
            let ghost before = out@;
            let one = str_eq(self.params[i].1.as_str(), "1");
            if one {
                match key_namespace(self.params[i].0.as_str()) {
                    Some(n) => {
                        if !contains_usize(&out, n) {
                            proof {
                                lemma_push_contains_usize(out@, n);
                            }
                            out.push(n);
                        }
                        assert(forall|y: usize| #[trigger] out@.contains(y) <==> (before.contains(y) || pair_selects(pv[i as int], y)));
                    },
                    None => {
                        assert(forall|y: usize| #[trigger] out@.contains(y) <==> (before.contains(y) || pair_selects(pv[i as int], y)));
                    },
                }
            }
            proof {
                assert forall|n: usize| #[trigger] out@.contains(n) <==> exists|j: int| 0 <= j < i + 1 && pair_selects(pv[j], n) by {
                    assert(out@.contains(n) <==> (before.contains(n) || pair_selects(pv[i as int], n)));
                    if exists|j: int| 0 <= j < i + 1 && pair_selects(pv[j], n) {
                        let j = choose|j: int| 0 <= j < i + 1 && pair_selects(pv[j], n);
                        if j < i {
                            assert(before.contains(n));
                        }
                    }
                }
            }
            i = i + 1;
        }
        let ghost m = self@;
        proof {
            assert forall|n: usize| #[trigger] ns_selected(m).contains(n) <==> out@.contains(n) by {
                if ns_selected(m).contains(n) {
                    let k = choose|k: Seq<char>| m.contains_key(k) && m[k] == "1"@ && selects_ns(k, n);
                    let j = choose|j: int| 0 <= j < pv.len() && pv[j].0 == k;
                    assert(pair_selects(pv[j], n));
                }
                if out@.contains(n) {
                    let j = choose|j: int| 0 <= j < pv.len() && pair_selects(pv[j], n);
                    assert(m.contains_key(pv[j].0));
                }
            }
        }
        if out.len() == 0 {
            assert(ns_selected(m) =~= Set::<usize>::empty()) by {
                assert forall|n: usize| !ns_selected(m).contains(n) by {
                    assert(!out@.contains(n));
                }
            }
            match self.get("ns") {
                Some(v) => {
                    if str_eq(v.as_str(), "*") {
                        out.push(0);
                        assert(out@.to_set() =~= ns_of(m)) by {
                            lemma_push_contains_usize(Seq::<usize>::empty(), 0);
                            assert(out@ == Seq::<usize>::empty().push(0));
                        }
                        return out;
                    }
                },
                None => {},
            }
            assert(out@.to_set() =~= ns_of(m));
        } else {
            assert(out@.contains(out@[0]));
            assert(ns_selected(m).contains(out@[0]));
            assert(out@.to_set() =~= ns_of(m));
        }
        out
    }

    /// Parses a query string; an error where it is no valid URL query.
    pub fn outcome_from_query(query: &str) -> (r: Result<FormParameters, String>)
        ensures
            match r {
                Ok(fp) => decoded_query(query@) is Some && fp.wf() && fp@ == normalized(
                    map_of(decoded_query(query@)->Some_0),
                ) && fp.ns_set() == ns_of(fp@),
                Err(_) => decoded_query(query@) is None,
            },
    {
        let pairs = match decode_query(query) {
            Ok(p) => p,
            Err(e) => return Err(e),
        };
        let ghost pv = pair_views(pairs@);
        let mut ret = FormParameters { params: Vec::new(), ns: Vec::new() };
        assert(ret@ =~= map_of(pv.subrange(0, 0)));
        let mut i: usize = 0;
        while i < pairs.len()
            invariant
                pv == pair_views(pairs@),
                i <= pv.len(),
                ret.wf(),
                ret@ == map_of(pv.subrange(0, i as int)),
            decreases pv.len() - i,
        {
            assert(pv.subrange(0, i + 1).drop_last() == pv.subrange(0, i as int));
            ret.set_param(pairs[i].0.as_str(), pairs[i].1.as_str());
            i = i + 1;
        }
        assert(pv.subrange(0, i as int) == pv);
        ret.legacy_parameters();
        ret.ns = ret.ns_from_params();
        Ok(ret)
    }

    /// Takes from `base` each parameter that this one lacks or holds blank; never
    /// overwrites a non-blank value. Then derives the namespaces and normalizes anew.
    pub fn rebase(&mut self, base: &FormParameters)
        requires
            old(self).wf(),
            base.wf(),
        ensures
            final(self).wf(),
            final(self)@ == normalized(merged(old(self)@, base@)),
            final(self).ns_set() == ns_of(final(self)@),
    {
        let ghost a = self@;
        let ghost bv = pair_views(base.params@);
        proof {
            lemma_map_of_entries(bv);
            assert(merged(a, map_of(bv.subrange(0, 0))) =~= a);
        }
        let mut i: usize = 0;
        while i < base.params.len()
            invariant
                bv == pair_views(base.params@),
                unique_keys(bv),
                i <= bv.len(),
                self.wf(),
                self@ == merged(a, map_of(bv.subrange(0, i as int))),
            decreases bv.len() - i,
        {
            let ghost pre = bv.subrange(0, i as int);
            let ghost k = bv[i as int].0;
            let ghost v = bv[i as int].1;
            proof {
                assert(bv.subrange(0, i + 1).drop_last() == pre);
                assert(unique_keys(pre));
                lemma_map_of_entries(pre);
                assert(!map_of(pre).contains_key(k)) by {
                    if map_of(pre).contains_key(k) {
                        let j = choose|j: int| 0 <= j < pre.len() && pre[j].0 == k;
                        assert(bv[j].0 == k);
                    }
                }
            }
            let key = base.params[i].0.as_str();
            let blank = match self.get(key) {
                Some(cur) => cur.unicode_len() == 0,
                None => true,
            };
            if blank {
                self.set_param(key, base.params[i].1.as_str());
            }
            assert(self@ =~= merged(a, map_of(bv.subrange(0, i + 1))));
            i = i + 1;
        }
        assert(bv.subrange(0, i as int) == bv);
        self.legacy_parameters();
        self.ns = self.ns_from_params();
    }

    /// The parameters as `key=value` pairs, percent-encoded and joined by `&`.
    pub fn to_string(&self) -> (r: String)
        ensures
            r@ == serialized(self.pairs()),
    {
        let ghost pv = pair_views(self.params@);
        let mut out = String::new();
        let mut i: usize = 0;
        while i < self.params.len()
            invariant
                pv == pair_views(self.params@),
                i <= pv.len(),
                out@ == serialized(pv.subrange(0, i as int)),
            decreases pv.len() - i,
        {
            assert(pv.subrange(0, i + 1).drop_last() == pv.subrange(0, i as int));
            if i > 0 {
                out.append("&");
            }
            let k = percent_encode(self.params[i].0.as_str());
            let v = percent_encode(self.params[i].1.as_str());
            out.append(k.as_str());
            out.append("=");
            out.append(v.as_str());
            i = i + 1;
        }
        assert(pv.subrange(0, i as int) == pv);
        out
    }

    /// A copy with the same parameters and namespaces.
    pub fn duplicate(&self) -> (r: FormParameters)
        requires
            self.wf(),
        ensures
            r.wf(),
            r@ == self@,
            r.pairs() == self.pairs(),
            r.ns_set() == self.ns_set(),
    {
        let mut params: Vec<(String, String)> = Vec::new();
        let mut i: usize = 0;
        while i < self.params.len()
            invariant
                i <= self.params@.len(),
                pair_views(params@) == pair_views(self.params@).subrange(0, i as int),
            decreases self.params@.len() - i,
        {
            let ghost before = params@;
            params.push((self.params[i].0.clone(), self.params[i].1.clone()));
            assert(pair_views(params@) =~= pair_views(self.params@).subrange(0, i + 1)) by {
                assert(pair_views(params@) =~= pair_views(before).push(pair_views(self.params@)[i as int]));
            }
            i = i + 1;
        }
        assert(pair_views(self.params@).subrange(0, i as int) == pair_views(self.params@));
        let ns = self.ns.clone();
        assert(ns@ =~= self.ns@);
        FormParameters { params, ns }
    }

    /// The selected namespaces, each once.
    pub fn ns(&self) -> (r: Vec<usize>)
        requires
            self.wf(),
        ensures
            r@.to_set() == self.ns_set(),
            r@.no_duplicates(),
    {
        let r = self.ns.clone();
        assert(r@ =~= self.ns@);
        r
    }

    fn legacy_parameters(&mut self)
        requires
            old(self).wf(),
        ensures
            final(self).wf(),
            final(self)@ == normalized(old(self)@),
    {
        self.fallback("language", "lang");
        self.fallback("categories", "cats");
        self.rewrite("comb_subset", "combination", "subset");
        self.rewrite("comb_union", "combination", "union");
        self.rewrite("get_q", "wikidata_item", "any");
        self.rewrite("wikidata", "wikidata_item", "any");
        self.rewrite("wikidata_no_item", "wikidata_item", "without");
    }
}

/// Where the query holds no deprecated key, the pairs that a parsed query keeps, and
/// that `to_string` renders, are the decoded pairs: one per key, the last value winning.
pub proof fn lemma_round_trip(q: Seq<char>, fp: FormParameters)
    requires
        decoded_query(q) is Some,
        has_no_legacy_keys(map_of(decoded_query(q)->Some_0)),
        fp.wf(),
        fp@ == normalized(map_of(decoded_query(q)->Some_0)),
    ensures
        unique_keys(fp.pairs()),
        map_of(fp.pairs()) == map_of(decoded_query(q)->Some_0),
{
    fp.lemma_pairs();
}

} // verus!
