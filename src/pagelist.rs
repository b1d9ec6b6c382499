use vstd::prelude::*;

verus! {

/// A result set: the ids of the pages that a source found.
#[derive(Debug)]
pub struct PageList {
    pages: Vec<u64>,
}

fn contains(v: &Vec<u64>, x: u64) -> (r: bool)
    ensures
        r == v@.contains(x),
{
    let mut i: usize = 0;
    while i < v.len()
        invariant
            i <= v@.len(),
            forall|j: int| 0 <= j < i ==> v@[j] != x,
        decreases v@.len() - i,
    {
        if v[i] == x {
            return true;
        }
        i = i + 1;
    }
    false
}

proof fn lemma_push_contains(s: Seq<u64>, x: u64)
    ensures
        forall|y: u64| #[trigger] s.push(x).contains(y) <==> (s.contains(y) || y == x),
{
    assert forall|y: u64| #[trigger] s.push(x).contains(y) <==> (s.contains(y) || y == x) by {
        if s.push(x).contains(y) {
            let j = choose|j: int| 0 <= j < s.len() + 1 && s.push(x)[j] == y;
            if j < s.len() {
                assert(s[j] == y);
            }
        }
        if s.contains(y) {
            let j = choose|j: int| 0 <= j < s.len() && s[j] == y;
            assert(s.push(x)[j] == y);
        }
        if y == x {
            assert(s.push(x)[s.len() as int] == x);
        }
    }
}

impl View for PageList {
    type V = Set<u64>;

    closed spec fn view(&self) -> Set<u64> {
        self.pages@.to_set()
    }
}

impl PageList {
    /// A result set of the given pages.
    pub fn new(pages: Vec<u64>) -> (r: PageList)
        ensures
            r@ == pages@.to_set(),
    {
        PageList { pages }
    }

    /// The pages, each once.
    pub fn pages(&self) -> (r: Vec<u64>)
        ensures
            r@.to_set() == self@,
            r@.no_duplicates(),
    {
        let mut out: Vec<u64> = Vec::new();
        let mut i: usize = 0;
        while i < self.pages.len()
            invariant
                i <= self.pages@.len(),
                out@.no_duplicates(),
                forall|x: u64| out@.contains(x) <==> self.pages@.subrange(0, i as int).contains(x),
            decreases self.pages@.len() - i,
        {
            let x = self.pages[i];
            proof {
                assert(self.pages@.subrange(0, i + 1) == self.pages@.subrange(0, i as int).push(x));
                lemma_push_contains(self.pages@.subrange(0, i as int), x);
                lemma_push_contains(out@, x);
            }
            if !contains(&out, x) {
                out.push(x);
            }
            i = i + 1;
        }
        proof {
            assert(self.pages@.subrange(0, i as int) == self.pages@);
            assert(out@.to_set() =~= self@);
        }
        out
    }

    /// A copy holding the same pages.
    pub fn duplicate(&self) -> (r: PageList)
        ensures
            r@ == self@,
    {
        let pages = self.pages.clone();
        assert(pages@ =~= self.pages@);
        PageList { pages }
    }

    /// Adds the pages of `other`.
    pub fn union(&mut self, other: &PageList)
        ensures
            final(self)@ == old(self)@ + other@,
    {
        let mut i: usize = 0;
        while i < other.pages.len()
            invariant
                i <= other.pages@.len(),
                forall|y: u64| #[trigger] self.pages@.contains(y) <==> (old(self).pages@.contains(y) || other.pages@.subrange(0, i as int).contains(y)),
            decreases other.pages@.len() - i,
        {
            let x = other.pages[i];
            proof {
                assert(other.pages@.subrange(0, i + 1) == other.pages@.subrange(0, i as int).push(x));
                lemma_push_contains(other.pages@.subrange(0, i as int), x);
                lemma_push_contains(self.pages@, x);
            }
            if !contains(&self.pages, x) {
                self.pages.push(x);
            }
            i = i + 1;
        }
        assert(other.pages@.subrange(0, i as int) == other.pages@);
        assert(self@ =~= old(self)@ + other@);
    }

    /// Keeps only the pages that `other` holds too.
    pub fn intersection(&mut self, other: &PageList)
        ensures
            final(self)@ == old(self)@.intersect(other@),
    {
        self.keep(other, true);
    }

    /// Removes the pages that `other` holds.
    pub fn difference(&mut self, other: &PageList)
        ensures
            final(self)@ == old(self)@.difference(other@),
    {
        self.keep(other, false);
    }

    fn keep(&mut self, other: &PageList, inside: bool)
        ensures
            forall|x: u64| final(self)@.contains(x) <==> (old(self)@.contains(x) && other@.contains(x) == inside),
            inside ==> final(self)@ == old(self)@.intersect(other@),
            !inside ==> final(self)@ == old(self)@.difference(other@),
    {
        let mut kept: Vec<u64> = Vec::new();
        let mut i: usize = 0;
        while i < self.pages.len()
            invariant
                i <= self.pages@.len(),
                forall|x: u64| kept@.contains(x) <==> (self.pages@.subrange(0, i as int).contains(x) && other.pages@.contains(x) == inside),
            decreases self.pages@.len() - i,
        {
            let x = self.pages[i];
            proof {
                assert(self.pages@.subrange(0, i + 1) == self.pages@.subrange(0, i as int).push(x));
                lemma_push_contains(self.pages@.subrange(0, i as int), x);
                lemma_push_contains(kept@, x);
            }
            if contains(&other.pages, x) == inside {
                kept.push(x);
            }
            i = i + 1;
        }
        assert(self.pages@.subrange(0, i as int) == self.pages@);
        self.pages = kept;
        assert(inside ==> self@ =~= old(self)@.intersect(other@));
        assert(!inside ==> self@ =~= old(self)@.difference(other@));
    }
}

} // verus!
