use vstd::prelude::*;
use crate::pagelist::PageList;
use crate::text::{list_of, split_list, str_eq, views};

verus! {

/// A set-algebra expression over the results of named sources.
#[derive(Debug)]
pub enum Combination {
    /// No source at all.
    Empty,
    /// The result of the source of that name.
    Source(String),
    /// The pages that both sides hold.
    Intersection(Box<Combination>, Box<Combination>),
    /// The pages that either side holds.
    Union(Box<Combination>, Box<Combination>),
    /// The pages of the left side that the right side does not hold.
    Not(Box<Combination>, Box<Combination>),
}

/// What a source handed back, as a set of page ids.
pub open spec fn opt_view(o: Option<PageList>) -> Option<Set<u64>> {
    match o {
        Some(p) => Some(p@),
        None => None,
    }
}

/// The entry stored for `name`; where a name stands twice, the later entry counts.
pub open spec fn lookup(r: Seq<(String, Option<PageList>)>, name: Seq<char>) -> Option<
    Option<Set<u64>>,
>
    decreases r.len(),
{
    if r.len() == 0 {
        None
    } else if r.last().0@ == name {
        Some(opt_view(r.last().1))
    } else {
        lookup(r.drop_last(), name)
    }
}

/// The pages that a combination stands for, given the results of the sources.
pub open spec fn evaluate(r: Seq<(String, Option<PageList>)>, c: Combination) -> Option<Set<u64>>
    decreases c,
{
    match c {
        Combination::Empty => None,
        Combination::Source(s) => match lookup(r, s@) {
            Some(x) => x,
            None => None,
        },
        Combination::Union(a, b) => if *a is Empty {
            evaluate(r, *b)
        } else if *b is Empty {
            evaluate(r, *a)
        } else {
            match evaluate(r, *a) {
                Some(x) => match evaluate(r, *b) {
                    Some(y) => Some(x + y),
                    None => Some(x),
                },
                None => None,
            }
        },
        Combination::Intersection(a, b) => if *a is Empty || *b is Empty {
            None
        } else {
            match (evaluate(r, *a), evaluate(r, *b)) {
                (Some(x), Some(y)) => Some(x.intersect(y)),
                _ => None,
            }
        },
        Combination::Not(a, b) => if *a is Empty {
            None
        } else if *b is Empty {
            evaluate(r, *a)
        } else {
            match evaluate(r, *a) {
                Some(x) => match evaluate(r, *b) {
                    Some(y) => Some(x.difference(y)),
                    None => Some(x),
                },
                None => None,
            }
        },
    }
}

/// Whether `c` is the union chain that the names give when none is chosen:
/// each name in turn joins on the left of what the earlier ones built.
pub open spec fn is_default_for(c: Combination, names: Seq<Seq<char>>) -> bool
    decreases names.len(),
{
    if names.len() == 0 {
        c is Empty
    } else if names.len() == 1 {
        c is Source && c->Source_0@ == names[0]
    } else {
        match c {
            Combination::Union(a, b) => *a is Source && a->Source_0@ == names.last()
                && is_default_for(*b, names.drop_last()),
            _ => false,
        }
    }
}

/// The operator words of the expression grammar.
pub open spec fn is_op(t: Seq<char>) -> bool {
    t == "AND"@ || t == "OR"@ || t == "NOT"@
}

/// Whether the words form an expression: source names joined by operators,
/// `name (op name)*`.
pub open spec fn well_formed(toks: Seq<Seq<char>>) -> bool
    decreases toks.len(),
{
    if toks.len() == 1 {
        !is_op(toks[0])
    } else if toks.len() >= 3 {
        is_op(toks[toks.len() - 2]) && !is_op(toks.last()) && well_formed(
            toks.subrange(0, toks.len() - 2),
        )
    } else {
        false
    }
}

/// Whether `c` is what the words say, read from left to right with no precedence:
/// `a OR b` is a union, `a AND b` an intersection, `a NOT b` the pages of `a` that `b`
/// lacks, and `a OR b AND c` is `(a OR b) AND c`.
pub open spec fn parsed_as(c: Combination, toks: Seq<Seq<char>>) -> bool
    decreases toks.len(),
{
    if toks.len() == 1 {
        c is Source && c->Source_0@ == toks[0]
    } else if toks.len() >= 3 {
        let op = toks[toks.len() - 2];
        let left = toks.subrange(0, toks.len() - 2);
        match c {
            Combination::Union(a, b) => op == "OR"@ && *b is Source && b->Source_0@ == toks.last()
                && parsed_as(*a, left),
            Combination::Intersection(a, b) => op == "AND"@ && *b is Source && b->Source_0@
                == toks.last() && parsed_as(*a, left),
            Combination::Not(a, b) => op == "NOT"@ && *b is Source && b->Source_0@ == toks.last()
                && parsed_as(*a, left),
            _ => false,
        }
    } else {
        false
    }
}

proof fn lemma_well_formed_shape(toks: Seq<Seq<char>>)
    requires
        well_formed(toks),
    ensures
        toks.len() % 2 == 1,
        forall|j: int| 0 <= j < toks.len() ==> (is_op(#[trigger] toks[j]) <==> j % 2 == 1),
    decreases toks.len(),
{
    if toks.len() >= 3 {
        let left = toks.subrange(0, toks.len() - 2);
        lemma_well_formed_shape(left);
        assert forall|j: int| 0 <= j < toks.len() implies (is_op(#[trigger] toks[j]) <==> j % 2 == 1) by {
            if j < toks.len() - 2 {
                assert(left[j] == toks[j]);
            }
        }
    }
}

impl Combination {
    /// Whether this names no source at all.
    pub fn is_empty(&self) -> (r: bool)
        ensures
            r == (*self is Empty),
    {
        match self {
            Combination::Empty => true,
            _ => false,
        }
    }

    /// The combination of `names` when none is chosen: a union of them all.
    pub fn default_for(names: &Vec<String>) -> (r: Combination)
        ensures
            is_default_for(r, crate::text::views(names@)),
    {
        let mut comb = Combination::Empty;
        let mut i: usize = 0;
        while i < names.len()
            invariant
                i <= names@.len(),
                is_default_for(comb, crate::text::views(names@.subrange(0, i as int))),
            decreases names@.len() - i,
        {
            let ghost before = crate::text::views(names@.subrange(0, i as int));
            let ghost after = crate::text::views(names@.subrange(0, i + 1));
            assert(after.drop_last() == before);
            assert(after.last() == names@[i as int]@);
            if comb.is_empty() {
                comb = Combination::Source(names[i].clone());
            } else {
                comb = Combination::Union(
                    Box::new(Combination::Source(names[i].clone())),
                    Box::new(comb),
                );
            }
            i = i + 1;
        }
        assert(names@.subrange(0, i as int) == names@);
        comb
    }
}

/// Reads a combination expression: source names separated by single spaces from the
/// operators `AND`, `OR` and `NOT`, applied from left to right. `None` where the words
/// form no expression.
pub fn parse_combination_string(s: &str) -> (r: Option<Combination>)
    ensures
        r is Some <==> well_formed(list_of(s@, " "@)),
        r is Some ==> parsed_as(r->Some_0, list_of(s@, " "@)),
{
    proof {
        reveal_strlit(" ");
    }
    let toks = split_list(s, " ");
    let ghost t = views(toks@);
    let n = toks.len();
    if n == 0 {
        return None;
    }
    assert(t[0] == toks@[0]@);
    if is_op_word(toks[0].as_str()) {
        proof {
            if well_formed(t) {
                lemma_well_formed_shape(t);
                assert(is_op(t[0]));
            }
        }
        return None;
    }
    let mut comb = Combination::Source(toks[0].clone());
    assert(t.subrange(0, 1).len() == 1);
    let mut i: usize = 1;
    while i < n
        invariant
            t == views(toks@),
            t == list_of(s@, " "@),
            n == t.len(),
            1 <= i <= n,
            i % 2 == 1,
            parsed_as(comb, t.subrange(0, i as int)),
            well_formed(t.subrange(0, i as int)),
        decreases n - i,
    {
        if i + 1 >= n {
            proof {
                if well_formed(t) {
                    lemma_well_formed_shape(t);
                    assert(i == n - 1);
                    assert(false);
                }
            }
            return None;
        }
        let op = toks[i].as_str();
        let name = toks[i + 1].as_str();
        assert(t[i as int] == op@);
        assert(t[i + 1] == name@);
        if !is_op_word(op) || is_op_word(name) {
            proof {
                if well_formed(t) {
                    lemma_well_formed_shape(t);
                    assert(is_op(t[i as int]));
                    assert(!is_op(t[i + 1]));
                }
            }
            return None;
        }
        let ghost next = t.subrange(0, i + 2);
        assert(next.subrange(0, next.len() - 2) == t.subrange(0, i as int));
        assert(next[next.len() - 2] == t[i as int]);
        assert(next.last() == t[i + 1]);
        let leaf = Box::new(Combination::Source(toks[i + 1].clone()));
        if str_eq(op, "OR") {
            comb = Combination::Union(Box::new(comb), leaf);
        } else if str_eq(op, "AND") {
            comb = Combination::Intersection(Box::new(comb), leaf);
        } else {
            comb = Combination::Not(Box::new(comb), leaf);
        }
        i = i + 2;
    }
    assert(t.subrange(0, n as int) == t);
    Some(comb)
}

fn is_op_word(w: &str) -> (r: bool)
    ensures
        r == is_op(w@),
{
    str_eq(w, "AND") || str_eq(w, "OR") || str_eq(w, "NOT")
}

/// The result stored for `name`, if a source of that name ran and found something.
pub fn result_of(results: &Vec<(String, Option<PageList>)>, name: &String) -> (r: Option<PageList>)
    ensures
        opt_view(r) == match lookup(results@, name@) {
            Some(x) => x,
            None => None,
        },
{
    let mut i: usize = results.len();
    assert(results@.subrange(0, i as int) == results@);
    while i > 0
        invariant
            i <= results@.len(),
            lookup(results@, name@) == lookup(results@.subrange(0, i as int), name@),
        decreases i,
    {
        assert(results@.subrange(0, i as int).drop_last() == results@.subrange(0, i - 1));
        if results[i - 1].0 == *name {
            return match &results[i - 1].1 {
                Some(p) => Some(p.duplicate()),
                None => None,
            };
        }
        i = i - 1;
    }
    None
}

/// Evaluates `combination` over the sources' results.
pub fn combine_results(results: &Vec<(String, Option<PageList>)>, combination: &Combination) -> (r:
    Option<PageList>)
    ensures
        opt_view(r) == evaluate(results@, *combination),
    decreases combination,
{
    match combination {
        Combination::Empty => None,
        Combination::Source(s) => result_of(results, s),
        Combination::Union(a, b) => {
            if a.is_empty() {
                combine_results(results, b)
            } else if b.is_empty() {
                combine_results(results, a)
            } else {
                match combine_results(results, a) {
                    Some(mut r1) => {
                        match combine_results(results, b) {
                            Some(r2) => r1.union(&r2),
                            None => {},
                        }
                        Some(r1)
                    },
                    None => None,
                }
            }
        },
        Combination::Intersection(a, b) => {
            if a.is_empty() || b.is_empty() {
                None
            } else {
                match (combine_results(results, a), combine_results(results, b)) {
                    (Some(mut r1), Some(r2)) => {
                        r1.intersection(&r2);
                        Some(r1)
                    },
                    _ => None,
                }
            }
        },
        Combination::Not(a, b) => {
            if a.is_empty() {
                None
            } else if b.is_empty() {
                combine_results(results, a)
            } else {
                match combine_results(results, a) {
                    Some(mut r1) => {
                        match combine_results(results, b) {
                            Some(r2) => r1.difference(&r2),
                            None => {},
                        }
                        Some(r1)
                    },
                    None => None,
                }
            }
        },
    }
}

/// A union with no source on one side is the other side.
pub proof fn lemma_union_empty_is_identity(r: Seq<(String, Option<PageList>)>, x: Combination)
    ensures
        evaluate(r, Combination::Union(Box::new(Combination::Empty), Box::new(x))) == evaluate(
            r,
            x,
        ),
        evaluate(r, Combination::Union(Box::new(x), Box::new(Combination::Empty))) == evaluate(
            r,
            x,
        ),
{
}

/// An intersection with no source on either side finds nothing, whatever the other side holds.
pub proof fn lemma_intersection_empty_is_absent(r: Seq<(String, Option<PageList>)>, x: Combination)
    ensures
        evaluate(r, Combination::Intersection(Box::new(Combination::Empty), Box::new(x))) is None,
        evaluate(r, Combination::Intersection(Box::new(x), Box::new(Combination::Empty))) is None,
{
}

} // verus!
