use vstd::prelude::*;
use crate::text::views;

verus! {

/// Query text with `?` placeholders, and the values bound to them in order.
pub type SQLtuple = (String, Vec<String>);

/// `n` placeholders joined by commas.
pub open spec fn placeholders(n: nat) -> Seq<char>
    decreases n,
{
    if n == 0 {
        Seq::empty()
    } else if n == 1 {
        "?"@
    } else {
        placeholders((n - 1) as nat) + ",?"@
    }
}

/// ` AND <col> IN (?,..)` with one placeholder per value.
pub open spec fn in_text(col: Seq<char>, n: nat) -> Seq<char> {
    " AND "@ + col + " IN ("@ + placeholders(n) + ")"@
}

/// The term kinds that a group's three toggles select.
pub open spec fn kinds_of(label: bool, alias: bool, description: bool) -> Seq<Seq<char>> {
    (if label { seq!["label"@] } else { Seq::empty() }) + (if alias { seq!["alias"@] } else { Seq::empty() })
        + (if description { seq!["description"@] } else { Seq::empty() })
}

/// The kind predicate of a group: none where no kind is selected.
pub open spec fn kinds_text(kinds: Seq<Seq<char>>, col: Seq<char>) -> Seq<char> {
    if kinds.len() == 0 {
        Seq::empty()
    } else {
        in_text(col, kinds.len())
    }
}

/// The language and kind predicates that follow a matched term, where languages are given.
pub open spec fn scope_text(langs: Seq<Seq<char>>, kinds: Seq<Seq<char>>, prefix: Seq<char>) -> Seq<char> {
    if langs.len() == 0 {
        Seq::empty()
    } else {
        in_text(prefix + "term_language"@, langs.len()) + kinds_text(kinds, prefix + "term_type"@)
    }
}

/// The values that the scope predicates bind.
pub open spec fn scope_vals(langs: Seq<Seq<char>>, kinds: Seq<Seq<char>>) -> Seq<Seq<char>> {
    if langs.len() == 0 {
        Seq::empty()
    } else {
        langs + kinds
    }
}

pub open spec fn base_text() -> Seq<char> {
    "SELECT DISTINCT"@ + " term_full_entity_id"@ + " FROM wb_terms t1"@ + " WHERE"@
        + " term_entity_type='item'"@
}

pub open spec fn yes_item_text(langs: Seq<Seq<char>>, kinds: Seq<Seq<char>>) -> Seq<char> {
    " AND term_text LIKE ?"@ + scope_text(langs, kinds, Seq::empty())
}

pub open spec fn any_item_text(langs: Seq<Seq<char>>, kinds: Seq<Seq<char>>) -> Seq<char> {
    " ( term_text LIKE ?"@ + scope_text(langs, kinds, Seq::empty()) + ")"@
}

pub open spec fn no_item_text(langs: Seq<Seq<char>>, kinds: Seq<Seq<char>>) -> Seq<char> {
    " AND NOT EXISTS (SELECT"@ + " t2.term_full_entity_id"@ + " FROM wb_terms t2"@ + " WHERE"@
        + " t2.term_full_entity_id"@ + "=t1.term_full_entity_id"@
        + " AND t2.term_entity_type='item'"@ + " AND t2.term_text LIKE ?"@ + scope_text(langs, kinds, "t2."@) + ")"@
}

/// The text of a run of `n` matched terms: `sep` between items, `item` for each.
pub open spec fn repeat_text(n: nat, sep: Seq<char>, item: Seq<char>) -> Seq<char>
    decreases n,
{
    if n == 0 {
        Seq::empty()
    } else if n == 1 {
        item
    } else {
        repeat_text((n - 1) as nat, sep, item) + sep + item
    }
}

proof fn lemma_repeat_step(n: nat, sep: Seq<char>, item: Seq<char>)
    ensures
        repeat_text(n + 1, sep, item) == repeat_text(n, sep, item) + (if n == 0 {
            Seq::<char>::empty()
        } else {
            sep
        }) + item,
{
    if n == 0 {
        assert(Seq::<char>::empty() + Seq::<char>::empty() + item =~= item);
    }
}

proof fn lemma_vals_step(terms: Seq<Seq<char>>, i: int, langs: Seq<Seq<char>>, kinds: Seq<Seq<char>>)
    requires
        0 <= i < terms.len(),
    ensures
        repeat_vals(terms.subrange(0, i + 1), langs, kinds) == repeat_vals(terms.subrange(0, i), langs, kinds).push(terms[i]) + scope_vals(langs, kinds),
{
    assert(terms.subrange(0, i + 1).drop_last() == terms.subrange(0, i));
    assert(repeat_vals(terms.subrange(0, i), langs, kinds) + seq![terms[i]] =~= repeat_vals(terms.subrange(0, i), langs, kinds).push(terms[i]));
}

/// The values of a run of matched terms: each term, then the scope values.
pub open spec fn repeat_vals(terms: Seq<Seq<char>>, langs: Seq<Seq<char>>, kinds: Seq<Seq<char>>) -> Seq<
    Seq<char>,
>
    decreases terms.len(),
{
    if terms.len() == 0 {
        Seq::empty()
    } else {
        repeat_vals(terms.drop_last(), langs, kinds) + seq![terms.last()] + scope_vals(langs, kinds)
    }
}

/// The number of placeholders in a text.
pub open spec fn marks(s: Seq<char>) -> nat
    decreases s.len(),
{
    if s.len() == 0 {
        0
    } else {
        marks(s.drop_last()) + if s.last() == '?' { 1nat } else { 0nat }
    }
}

proof fn lemma_marks_concat(a: Seq<char>, b: Seq<char>)
    ensures
        marks(a + b) == marks(a) + marks(b),
    decreases b.len(),
{
    if b.len() == 0 {
        assert(a + b == a);
    } else {
        assert((a + b).drop_last() == a + b.drop_last());
        lemma_marks_concat(a, b.drop_last());
    }
}

proof fn lemma_marks_short()
    ensures
        marks(" AND term_text LIKE ?"@) == 1,
        marks(" ( term_text LIKE ?"@) == 1,
        marks(" AND t2.term_text LIKE ?"@) == 1,
        marks("?"@) == 1,
        marks(",?"@) == 1,
        marks(" AND "@) == 0,
        marks(" IN ("@) == 0,
        marks(")"@) == 0,
        marks(" AND ("@) == 0,
        marks(" OR "@) == 0,
        marks("t2."@) == 0,
        marks("term_language"@) == 0,
        marks("term_type"@) == 0,
        marks(Seq::empty()) == 0,
{
    reveal_with_fuel(marks, 26);
    reveal_strlit(" AND term_text LIKE ?");
    reveal_strlit(" ( term_text LIKE ?");
    reveal_strlit(" AND t2.term_text LIKE ?");
    reveal_strlit("?");
    reveal_strlit(",?");
    reveal_strlit(" AND ");
    reveal_strlit(" IN (");
    reveal_strlit(")");
    reveal_strlit(" AND (");
    reveal_strlit(" OR ");
    reveal_strlit("t2.");
    reveal_strlit("term_language");
    reveal_strlit("term_type");
}

proof fn lemma_marks_words()
    ensures
        marks("SELECT DISTINCT"@) == 0,
        marks(" term_full_entity_id"@) == 0,
        marks(" FROM wb_terms t1"@) == 0,
        marks(" FROM wb_terms t2"@) == 0,
        marks(" WHERE"@) == 0,
        marks(" term_entity_type='item'"@) == 0,
        marks(" AND NOT EXISTS (SELECT"@) == 0,
        marks(" t2.term_full_entity_id"@) == 0,
        marks("=t1.term_full_entity_id"@) == 0,
        marks(" AND t2.term_entity_type='item'"@) == 0,
{
    reveal_with_fuel(marks, 34);
    reveal_strlit("SELECT DISTINCT");
    reveal_strlit(" term_full_entity_id");
    reveal_strlit(" FROM wb_terms t1");
    reveal_strlit(" FROM wb_terms t2");
    reveal_strlit(" WHERE");
    reveal_strlit(" term_entity_type='item'");
    reveal_strlit(" AND NOT EXISTS (SELECT");
    reveal_strlit(" t2.term_full_entity_id");
    reveal_strlit("=t1.term_full_entity_id");
    reveal_strlit(" AND t2.term_entity_type='item'");
}

/// A run of `n` placeholders holds `n` of them.
pub proof fn lemma_marks_placeholders(n: nat)
    ensures
        marks(placeholders(n)) == n,
    decreases n,
{
    lemma_marks_short();
    if n > 1 {
        lemma_marks_placeholders((n - 1) as nat);
        lemma_marks_concat(placeholders((n - 1) as nat), ",?"@);
    }
}

proof fn lemma_marks_in_text(col: Seq<char>, n: nat)
    requires
        marks(col) == 0,
    ensures
        marks(in_text(col, n)) == n,
{
    lemma_marks_short();
    lemma_marks_placeholders(n);
    lemma_marks_concat(" AND "@, col);
    lemma_marks_concat(" AND "@ + col, " IN ("@);
    lemma_marks_concat(" AND "@ + col + " IN ("@, placeholders(n));
    lemma_marks_concat(" AND "@ + col + " IN ("@ + placeholders(n), ")"@);
}

proof fn lemma_marks_scope(langs: Seq<Seq<char>>, kinds: Seq<Seq<char>>, prefix: Seq<char>)
    requires
        prefix == Seq::<char>::empty() || prefix == "t2."@,
    ensures
        marks(scope_text(langs, kinds, prefix)) == scope_vals(langs, kinds).len(),
{
    lemma_marks_short();
    if langs.len() > 0 {
        lemma_marks_concat(prefix, "term_language"@);
        lemma_marks_concat(prefix, "term_type"@);
        lemma_marks_in_text(prefix + "term_language"@, langs.len());
        if kinds.len() > 0 {
            lemma_marks_in_text(prefix + "term_type"@, kinds.len());
        }
        lemma_marks_concat(in_text(prefix + "term_language"@, langs.len()), kinds_text(kinds, prefix + "term_type"@));
    }
}

proof fn lemma_marks_repeat(
    terms: Seq<Seq<char>>,
    sep: Seq<char>,
    item: Seq<char>,
    langs: Seq<Seq<char>>,
    kinds: Seq<Seq<char>>,
)
    requires
        marks(sep) == 0,
        marks(item) == 1 + scope_vals(langs, kinds).len(),
    ensures
        marks(repeat_text(terms.len(), sep, item)) == repeat_vals(terms, langs, kinds).len(),
    decreases terms.len(),
{
    lemma_marks_short();
    if terms.len() > 1 {
        let n = terms.len();
        lemma_marks_repeat(terms.drop_last(), sep, item, langs, kinds);
        lemma_marks_concat(repeat_text((n - 1) as nat, sep, item), sep);
        lemma_marks_concat(repeat_text((n - 1) as nat, sep, item) + sep, item);
        assert(terms.drop_last().len() == n - 1);
        assert(repeat_vals(terms, langs, kinds).len() == repeat_vals(terms.drop_last(), langs, kinds).len() + 1
            + scope_vals(langs, kinds).len());
    } else if terms.len() == 1 {
        assert(terms.drop_last().len() == 0);
        assert(repeat_vals(terms.drop_last(), langs, kinds).len() == 0);
        assert(repeat_vals(terms, langs, kinds).len() == 1 + scope_vals(langs, kinds).len());
    }
}

/// A label filter binds exactly as many values as its text holds placeholders, whatever
/// the rules; so the values can be bound in order.
pub proof fn lemma_fragment_marks(
    yes: Seq<Seq<char>>,
    n_any: nat,
    no: Seq<Seq<char>>,
    ly: Seq<Seq<char>>,
    la: Seq<Seq<char>>,
    ln: Seq<Seq<char>>,
    ky: Seq<Seq<char>>,
    ka: Seq<Seq<char>>,
    kn: Seq<Seq<char>>,
)
    ensures
        marks(fragment_text(yes, n_any, no, ly, la, ln, ky, ka, kn)) == fragment_vals(
            yes,
            n_any,
            no,
            ly,
            la,
            ln,
            ky,
            ka,
            kn,
        ).len(),
{
    lemma_marks_short();
    lemma_marks_words();
    if yes.len() + n_any + no.len() > 0 {
        let b0 = "SELECT DISTINCT"@ + " term_full_entity_id"@;
        lemma_marks_concat("SELECT DISTINCT"@, " term_full_entity_id"@);
        lemma_marks_concat(b0, " FROM wb_terms t1"@);
        lemma_marks_concat(b0 + " FROM wb_terms t1"@, " WHERE"@);
        lemma_marks_concat(b0 + " FROM wb_terms t1"@ + " WHERE"@, " term_entity_type='item'"@);
        // the yes group
        lemma_marks_scope(ly, ky, Seq::empty());
        lemma_marks_concat(" AND term_text LIKE ?"@, scope_text(ly, ky, Seq::empty()));
        lemma_marks_repeat(yes, Seq::empty(), yes_item_text(ly, ky), ly, ky);
        let yt = repeat_text(yes.len(), Seq::empty(), yes_item_text(ly, ky));
        // the any group
        let at = if la.len() == 0 {
            Seq::empty()
        } else {
            " AND ("@ + repeat_text(yes.len(), " OR "@, any_item_text(la, ka)) + ")"@
        };
        if la.len() > 0 {
            lemma_marks_scope(la, ka, Seq::empty());
            lemma_marks_concat(" ( term_text LIKE ?"@, scope_text(la, ka, Seq::empty()));
            lemma_marks_concat(" ( term_text LIKE ?"@ + scope_text(la, ka, Seq::empty()), ")"@);
            lemma_marks_repeat(yes, " OR "@, any_item_text(la, ka), la, ka);
            let rt = repeat_text(yes.len(), " OR "@, any_item_text(la, ka));
            lemma_marks_concat(" AND ("@, rt);
            lemma_marks_concat(" AND ("@ + rt, ")"@);
        }
        // the no group
        let n0 = " AND NOT EXISTS (SELECT"@ + " t2.term_full_entity_id"@;
        let n1 = n0 + " FROM wb_terms t2"@;
        let n2 = n1 + " WHERE"@;
        let n3 = n2 + " t2.term_full_entity_id"@;
        let n4 = n3 + "=t1.term_full_entity_id"@;
        let n5 = n4 + " AND t2.term_entity_type='item'"@;
        let n6 = n5 + " AND t2.term_text LIKE ?"@;
        lemma_marks_concat(" AND NOT EXISTS (SELECT"@, " t2.term_full_entity_id"@);
        lemma_marks_concat(n0, " FROM wb_terms t2"@);
        lemma_marks_concat(n1, " WHERE"@);
        lemma_marks_concat(n2, " t2.term_full_entity_id"@);
        lemma_marks_concat(n3, "=t1.term_full_entity_id"@);
        lemma_marks_concat(n4, " AND t2.term_entity_type='item'"@);
        lemma_marks_concat(n5, " AND t2.term_text LIKE ?"@);
        lemma_marks_scope(ln, kn, "t2."@);
        lemma_marks_concat(n6, scope_text(ln, kn, "t2."@));
        lemma_marks_concat(n6 + scope_text(ln, kn, "t2."@), ")"@);
        lemma_marks_repeat(no, Seq::empty(), no_item_text(ln, kn), ln, kn);
        let nt = repeat_text(no.len(), Seq::empty(), no_item_text(ln, kn));
        lemma_marks_concat(base_text(), yt);
        lemma_marks_concat(base_text() + yt, at);
        lemma_marks_concat(base_text() + yt + at, nt);
    }
}

/// What the label, alias and description rules ask of an item.
pub struct LabelRules {
    /// Terms that must all match.
    pub yes: Vec<String>,
    /// Terms of which one must match.
    pub any: Vec<String>,
    /// Terms that must not match.
    pub no: Vec<String>,
    pub langs_yes: Vec<String>,
    pub langs_any: Vec<String>,
    pub langs_no: Vec<String>,
    pub kinds_yes: Vec<String>,
    pub kinds_any: Vec<String>,
    pub kinds_no: Vec<String>,
}

/// The text of the label filter over the rule lists: the terms of each group (of the
/// `any` group only their number counts), its languages and its term kinds.
pub open spec fn fragment_text(
    yes: Seq<Seq<char>>,
    n_any: nat,
    no: Seq<Seq<char>>,
    ly: Seq<Seq<char>>,
    la: Seq<Seq<char>>,
    ln: Seq<Seq<char>>,
    ky: Seq<Seq<char>>,
    ka: Seq<Seq<char>>,
    kn: Seq<Seq<char>>,
) -> Seq<char> {
    if yes.len() + n_any + no.len() == 0 {
        Seq::empty()
    } else {
        base_text() + repeat_text(yes.len(), Seq::empty(), yes_item_text(ly, ky)) + (if la.len() == 0 {
            Seq::empty()
        } else {
            " AND ("@ + repeat_text(yes.len(), " OR "@, any_item_text(la, ka)) + ")"@
        }) + repeat_text(no.len(), Seq::empty(), no_item_text(ln, kn))
    }
}

/// The values that the label filter binds, in the order of its placeholders.
pub open spec fn fragment_vals(
    yes: Seq<Seq<char>>,
    n_any: nat,
    no: Seq<Seq<char>>,
    ly: Seq<Seq<char>>,
    la: Seq<Seq<char>>,
    ln: Seq<Seq<char>>,
    ky: Seq<Seq<char>>,
    ka: Seq<Seq<char>>,
    kn: Seq<Seq<char>>,
) -> Seq<Seq<char>> {
    if yes.len() + n_any + no.len() == 0 {
        Seq::empty()
    } else {
        repeat_vals(yes, ly, ky) + (if la.len() == 0 {
            Seq::empty()
        } else {
            repeat_vals(yes, la, ka)
        }) + repeat_vals(no, ln, kn)
    }
}

/// The text of the label filter for a set of rules.
pub open spec fn label_text(r: LabelRules) -> Seq<char> {
    fragment_text(views(r.yes@), r.any@.len(), views(r.no@), views(r.langs_yes@), views(r.langs_any@),
        views(r.langs_no@), views(r.kinds_yes@), views(r.kinds_any@), views(r.kinds_no@))
}

/// The values of the label filter for a set of rules.
pub open spec fn label_vals(r: LabelRules) -> Seq<Seq<char>> {
    fragment_vals(views(r.yes@), r.any@.len(), views(r.no@), views(r.langs_yes@), views(r.langs_any@),
        views(r.langs_no@), views(r.kinds_yes@), views(r.kinds_any@), views(r.kinds_no@))
}

pub(crate) fn placeholder_text(n: usize) -> (r: String)
    ensures
        r@ == placeholders(n as nat),
{
    let mut out = String::new();
    let mut i: usize = 0;
    while i < n
        invariant
            i <= n,
            out@ == placeholders(i as nat),
        decreases n - i,
    {
        if i == 0 {
            out.append("?");
        } else {
            out.append(",?");
        }
        i = i + 1;
    }
    out
}

/// Appends each value to `vals`.
fn push_all(vals: &mut Vec<String>, values: &Vec<String>)
    ensures
        views(final(vals)@) == views(old(vals)@) + views(values@),
{
    let mut i: usize = 0;
    while i < values.len()
        invariant
            i <= values@.len(),
            views(vals@) == views(old(vals)@) + views(values@.subrange(0, i as int)),
        decreases values@.len() - i,
    {
        let ghost before = vals@;
        vals.push(values[i].clone());
        assert(views(vals@) == views(before).push(values@[i as int]@));
        assert(views(values@.subrange(0, i + 1)) == views(values@.subrange(0, i as int)).push(values@[i as int]@));
        i = i + 1;
    }
    assert(values@.subrange(0, i as int) == values@);
}

/// Appends ` AND <col> IN (..)` bound to `values`.
fn push_in(ret: &mut SQLtuple, col: &str, values: &Vec<String>)
    ensures
        final(ret).0@ == old(ret).0@ + in_text(col@, values@.len()),
        views(final(ret).1@) == views(old(ret).1@) + views(values@),
{
    let p = placeholder_text(values.len());
    ret.0.append(" AND ");
    ret.0.append(col);
    ret.0.append(" IN (");
    ret.0.append(p.as_str());
    ret.0.append(")");
    push_all(&mut ret.1, values);
    assert(ret.0@ =~= old(ret).0@ + in_text(col@, values@.len()));
}

/// Appends the language and kind predicates of a group, where languages are given.
fn push_scope(ret: &mut SQLtuple, langs: &Vec<String>, kinds: &Vec<String>, t2: bool)
    ensures
        final(ret).0@ == old(ret).0@ + scope_text(views(langs@), views(kinds@), if t2 { "t2."@ } else { Seq::empty() }),
        views(final(ret).1@) == views(old(ret).1@) + scope_vals(views(langs@), views(kinds@)),
{
    let ghost prefix: Seq<char> = if t2 { "t2."@ } else { Seq::empty() };
    if langs.len() == 0 {
        assert(ret.0@ =~= old(ret).0@ + Seq::<char>::empty());
        assert(views(ret.1@) =~= views(old(ret).1@) + Seq::<Seq<char>>::empty());
        return;
    }
    if t2 {
        push_in(ret, "t2.term_language", langs);
    } else {
        push_in(ret, "term_language", langs);
    }
    assert(prefix + "term_language"@ =~= if t2 { "t2.term_language"@ } else { "term_language"@ }) by {
        reveal_strlit("t2.term_language");
        reveal_strlit("term_language");
        reveal_strlit("t2.");
    }
    let ghost mid = *ret;
    if kinds.len() > 0 {
        if t2 {
            push_in(ret, "t2.term_type", kinds);
        } else {
            push_in(ret, "term_type", kinds);
        }
        assert(prefix + "term_type"@ =~= if t2 { "t2.term_type"@ } else { "term_type"@ }) by {
            reveal_strlit("t2.term_type");
            reveal_strlit("term_type");
            reveal_strlit("t2.");
        }
    }
    assert(ret.0@ =~= old(ret).0@ + scope_text(views(langs@), views(kinds@), prefix));
    assert(views(ret.1@) =~= views(old(ret).1@) + scope_vals(views(langs@), views(kinds@)));
}

/// The label filter: a query of the ids of the items whose terms meet the rules.
pub fn label_sql(r: &LabelRules) -> (ret: SQLtuple)
    ensures
        ret.0@ == label_text(*r),
        views(ret.1@) == label_vals(*r),
{
    let mut ret: SQLtuple = (String::new(), Vec::new());
    if r.yes.len() == 0 && r.any.len() == 0 && r.no.len() == 0 {
        assert(views(ret.1@) =~= label_vals(*r));
        return ret;
    }
    let ghost yes = views(r.yes@);
    let ghost ly = views(r.langs_yes@);
    let ghost ky = views(r.kinds_yes@);
    let ghost la = views(r.langs_any@);
    let ghost ka = views(r.kinds_any@);
    ret.0.append("SELECT DISTINCT");
    ret.0.append(" term_full_entity_id");
    ret.0.append(" FROM wb_terms t1");
    ret.0.append(" WHERE");
    ret.0.append(" term_entity_type='item'");
    let ghost start = ret.0@;
    assert(start =~= base_text());
    let mut i: usize = 0;
    while i < r.yes.len()
        invariant
            yes == views(r.yes@),
            ly == views(r.langs_yes@),
            ky == views(r.kinds_yes@),
            i <= yes.len(),
            ret.0@ == start + repeat_text(i as nat, Seq::empty(), yes_item_text(ly, ky)),
            views(ret.1@) == repeat_vals(yes.subrange(0, i as int), ly, ky),
        decreases yes.len() - i,
    {
        let ghost t0 = ret.0@;
        let ghost v0 = views(ret.1@);
        ret.0.append(" AND term_text LIKE ?");
        ret.1.push(r.yes[i].clone());
        assert(views(ret.1@) == v0.push(yes[i as int]));
        let ghost t1 = ret.0@;
        assert(t1 == t0 + " AND term_text LIKE ?"@);
        push_scope(&mut ret, &r.langs_yes, &r.kinds_yes, false);
        proof {
            lemma_repeat_step(i as nat, Seq::empty(), yes_item_text(ly, ky));
            lemma_vals_step(yes, i as int, ly, ky);
            assert(Seq::<char>::empty() + Seq::<char>::empty() == Seq::<char>::empty());
        }
        assert(ret.0@ =~= start + repeat_text((i + 1) as nat, Seq::empty(), yes_item_text(ly, ky)));
        assert(views(ret.1@) =~= repeat_vals(yes.subrange(0, i + 1), ly, ky));
        i = i + 1;
    }
    assert(yes.subrange(0, i as int) == yes);
    let ghost after_yes = ret.0@;
    let ghost vals_yes = views(ret.1@);
    if r.langs_any.len() > 0 {
        ret.0.append(" AND (");
        let ghost open_any = ret.0@;
        let mut j: usize = 0;
        while j < r.yes.len()
            invariant
                yes == views(r.yes@),
                la == views(r.langs_any@),
                ka == views(r.kinds_any@),
                j <= yes.len(),
                ret.0@ == open_any + repeat_text(j as nat, " OR "@, any_item_text(la, ka)),
                views(ret.1@) == vals_yes + repeat_vals(yes.subrange(0, j as int), la, ka),
            decreases yes.len() - j,
        {
            let ghost v0 = views(ret.1@);
            if j > 0 {
                ret.0.append(" OR ");
            }
            let ghost t0 = ret.0@;
            ret.0.append(" ( term_text LIKE ?");
            ret.1.push(r.yes[j].clone());
            assert(views(ret.1@) == v0.push(yes[j as int]));
            push_scope(&mut ret, &r.langs_any, &r.kinds_any, false);
            ret.0.append(")");
            proof {
                lemma_repeat_step(j as nat, " OR "@, any_item_text(la, ka));
                lemma_vals_step(yes, j as int, la, ka);
                assert(ret.0@ =~= t0 + any_item_text(la, ka));
            }
            assert(ret.0@ =~= open_any + repeat_text((j + 1) as nat, " OR "@, any_item_text(la, ka)));
            assert(views(ret.1@) =~= vals_yes + repeat_vals(yes.subrange(0, j + 1), la, ka));
            j = j + 1;
        }
        assert(yes.subrange(0, j as int) == yes);
        ret.0.append(")");
    }
    let ghost after_any = ret.0@;
    let ghost vals_any = views(ret.1@);
    let ghost no = views(r.no@);
    let ghost ln = views(r.langs_no@);
    let ghost kn = views(r.kinds_no@);
    let mut k: usize = 0;
    while k < r.no.len()
        invariant
            no == views(r.no@),
            ln == views(r.langs_no@),
            kn == views(r.kinds_no@),
            k <= no.len(),
            ret.0@ == after_any + repeat_text(k as nat, Seq::empty(), no_item_text(ln, kn)),
            views(ret.1@) == vals_any + repeat_vals(no.subrange(0, k as int), ln, kn),
        decreases no.len() - k,
    {
        let ghost v0 = views(ret.1@);
        let ghost t0 = ret.0@;
        ret.0.append(" AND NOT EXISTS (SELECT");
        ret.0.append(" t2.term_full_entity_id");
        ret.0.append(" FROM wb_terms t2");
        ret.0.append(" WHERE");
        ret.0.append(" t2.term_full_entity_id");
        ret.0.append("=t1.term_full_entity_id");
        ret.0.append(" AND t2.term_entity_type='item'");
        ret.0.append(" AND t2.term_text LIKE ?");
        ret.1.push(r.no[k].clone());
        assert(views(ret.1@) == v0.push(no[k as int]));
        push_scope(&mut ret, &r.langs_no, &r.kinds_no, true);
        ret.0.append(")");
        proof {
            lemma_repeat_step(k as nat, Seq::empty(), no_item_text(ln, kn));
            lemma_vals_step(no, k as int, ln, kn);
            assert(ret.0@ =~= t0 + no_item_text(ln, kn));
        }
        assert(ret.0@ =~= after_any + repeat_text((k + 1) as nat, Seq::empty(), no_item_text(ln, kn)));
        assert(views(ret.1@) =~= vals_any + repeat_vals(no.subrange(0, k + 1), ln, kn));
        k = k + 1;
    }
    assert(no.subrange(0, k as int) == no);
    assert(ret.0@ =~= label_text(*r));
    assert(views(ret.1@) =~= label_vals(*r));
    ret
}

} // verus!
