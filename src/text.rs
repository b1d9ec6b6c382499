use vstd::prelude::*;

verus! {

/// The characters that Unicode marks White_Space, which `str::trim` removes.
pub open spec fn is_ws(c: char) -> bool {
    ('\u{9}' <= c && c <= '\u{d}') || c == ' ' || c == '\u{85}' || c == '\u{a0}' || c
        == '\u{1680}' || ('\u{2000}' <= c && c <= '\u{200a}') || c == '\u{2028}' || c
        == '\u{2029}' || c == '\u{202f}' || c == '\u{205f}' || c == '\u{3000}'
}

pub open spec fn trim_front(s: Seq<char>) -> Seq<char>
    decreases s.len(),
{
    if s.len() > 0 && is_ws(s[0]) {
        trim_front(s.drop_first())
    } else {
        s
    }
}

pub open spec fn trim_back(s: Seq<char>) -> Seq<char>
    decreases s.len(),
{
    if s.len() > 0 && is_ws(s.last()) {
        trim_back(s.drop_last())
    } else {
        s
    }
}

/// `s` without leading and trailing white space.
pub open spec fn trimmed(s: Seq<char>) -> Seq<char> {
    trim_back(trim_front(s))
}

/// The views of a sequence of strings.
pub open spec fn views(v: Seq<String>) -> Seq<Seq<char>> {
    v.map_values(|s: String| s@)
}

/// Whether `sep` occurs in `s` at position `i`.
pub open spec fn occurs_at(s: Seq<char>, sep: Seq<char>, i: int) -> bool {
    0 <= i && i + sep.len() <= s.len() && s.subrange(i, i + sep.len()) == sep
}

/// The pieces of `s` from `start` on, where the current piece began at `piece`.
pub open spec fn split_from(s: Seq<char>, sep: Seq<char>, piece: int, i: int) -> Seq<Seq<char>>
    recommends
        sep.len() > 0,
        0 <= piece <= i <= s.len(),
    decreases s.len() - i,
{
    if sep.len() == 0 || i < 0 || i + sep.len() > s.len() {
        seq![s.subrange(piece, s.len() as int)]
    } else if occurs_at(s, sep, i) {
        seq![s.subrange(piece, i)] + split_from(s, sep, i + sep.len(), i + sep.len())
    } else {
        split_from(s, sep, piece, i + 1)
    }
}

/// The pieces of `s` between the occurrences of `sep`, as `str::split` gives them.
pub open spec fn split_seq(s: Seq<char>, sep: Seq<char>) -> Seq<Seq<char>> {
    split_from(s, sep, 0, 0)
}

/// The pieces, each trimmed, with the empty ones left out; order kept.
pub open spec fn nonblank_pieces(p: Seq<Seq<char>>) -> Seq<Seq<char>>
    decreases p.len(),
{
    if p.len() == 0 {
        Seq::empty()
    } else {
        let rest = nonblank_pieces(p.drop_last());
        let t = trimmed(p.last());
        if t.len() == 0 {
            rest
        } else {
            rest.push(t)
        }
    }
}

/// The list that a separated value stands for.
pub open spec fn list_of(s: Seq<char>, sep: Seq<char>) -> Seq<Seq<char>> {
    nonblank_pieces(split_seq(s, sep))
}

/// Whether `c` is white space, as `char::is_whitespace` says.
pub fn is_whitespace(c: char) -> (r: bool)
    ensures
        r == is_ws(c),
{
    ('\u{9}' <= c && c <= '\u{d}') || c == ' ' || c == '\u{85}' || c == '\u{a0}' || c
        == '\u{1680}' || ('\u{2000}' <= c && c <= '\u{200a}') || c == '\u{2028}' || c
        == '\u{2029}' || c == '\u{202f}' || c == '\u{205f}' || c == '\u{3000}'
}

/// Whether two strings hold the same characters.
pub fn str_eq(a: &str, b: &str) -> (r: bool)
    ensures
        r == (a@ == b@),
{
    let n = a.unicode_len();
    if n != b.unicode_len() {
        return false;
    }
    let mut i: usize = 0;
    while i < n
        invariant
            n == a@.len(),
            n == b@.len(),
            i <= n,
            a@.subrange(0, i as int) == b@.subrange(0, i as int),
        decreases n - i,
    {
        if a.get_char(i) != b.get_char(i) {
            return false;
        }
        assert(a@.subrange(0, i + 1) == a@.subrange(0, i as int).push(a@[i as int]));
        assert(b@.subrange(0, i + 1) == b@.subrange(0, i as int).push(b@[i as int]));
        i = i + 1;
    }
    assert(a@ == a@.subrange(0, n as int));
    assert(b@ == b@.subrange(0, n as int));
    true
}

/// `s` with leading and trailing white space removed.
pub fn trim(s: &str) -> (r: String)
    ensures
        r@ == trimmed(s@),
{
    let n = s.unicode_len();
    let mut lo: usize = 0;
    assert(s@.subrange(0, n as int) == s@);
    while lo < n && is_whitespace(s.get_char(lo))
        invariant
            n == s@.len(),
            lo <= n,
            trim_front(s@) == trim_front(s@.subrange(lo as int, n as int)),
        decreases n - lo,
    {
        assert(s@.subrange(lo as int, n as int).drop_first() == s@.subrange(lo + 1, n as int));
        lo = lo + 1;
    }
    assert(trim_front(s@) == s@.subrange(lo as int, n as int));
    let mut hi: usize = n;
    while hi > lo && is_whitespace(s.get_char(hi - 1))
        invariant
            n == s@.len(),
            lo <= hi <= n,
            trim_back(s@.subrange(lo as int, n as int)) == trim_back(
                s@.subrange(lo as int, hi as int),
            ),
        decreases hi,
    {
        assert(s@.subrange(lo as int, hi as int).drop_last() == s@.subrange(
            lo as int,
            hi - 1,
        ));
        hi = hi - 1;
    }
    s.substring_char(lo, hi).to_string()
}

/// Whether `sep` occurs in `s` at position `i`.
pub fn occurs_at_exec(s: &str, sep: &str, i: usize) -> (r: bool)
    requires
        i <= s@.len(),
    ensures
        r == occurs_at(s@, sep@, i as int),
{
    let n = s.unicode_len();
    let m = sep.unicode_len();
    if m > n - i {
        return false;
    }
    let mut j: usize = 0;
    while j < m
        invariant
            n == s@.len(),
            m == sep@.len(),
            i + m <= n,
            j <= m,
            s@.subrange(i as int, i + j) == sep@.subrange(0, j as int),
        decreases m - j,
    {
        if s.get_char(i + j) != sep.get_char(j) {
            assert(s@.subrange(i as int, i + m)[j as int] != sep@[j as int]);
            return false;
        }
        assert(s@.subrange(i as int, i + j + 1) == s@.subrange(i as int, i + j).push(
            s@[i + j],
        ));
        assert(sep@.subrange(0, j + 1) == sep@.subrange(0, j as int).push(sep@[j as int]));
        j = j + 1;
    }
    assert(sep@ == sep@.subrange(0, m as int));
    true
}

/// Adding a piece adds its trimmed form, unless that is empty.
pub proof fn lemma_nonblank_append(p: Seq<Seq<char>>, x: Seq<char>)
    ensures
        nonblank_pieces(p.push(x)) == if trimmed(x).len() == 0 {
            nonblank_pieces(p)
        } else {
            nonblank_pieces(p).push(trimmed(x))
        },
{
    assert(p.push(x).drop_last() == p);
}

/// Splits `s` at each `sep`, trims each piece and keeps the non-empty ones, in order.
pub fn split_list(s: &str, sep: &str) -> (r: Vec<String>)
    requires
        sep@.len() > 0,
    ensures
        views(r@) == list_of(s@, sep@),
{
    let n = s.unicode_len();
    let m = sep.unicode_len();
    let mut out: Vec<String> = Vec::new();
    let mut piece: usize = 0;
    let mut i: usize = 0;
    let ghost mut done: Seq<Seq<char>> = Seq::empty();
    while m <= n - i
        invariant
            n == s@.len(),
            m == sep@.len(),
            m > 0,
            piece <= i <= n,
            split_seq(s@, sep@) == done + split_from(s@, sep@, piece as int, i as int),
            views(out@) == nonblank_pieces(done),
        decreases n - i,
    {
        if occurs_at_exec(s, sep, i) {
            let t = trim(s.substring_char(piece, i));
            let ghost x = s@.subrange(piece as int, i as int);
            proof {
                lemma_nonblank_append(done, x);
                assert(seq![x] + split_from(s@, sep@, i + m, i + m) == split_from(
                    s@,
                    sep@,
                    piece as int,
                    i as int,
                ));
                assert(done + (seq![x] + split_from(s@, sep@, i + m, i + m)) == done.push(x)
                    + split_from(s@, sep@, i + m, i + m));
                done = done.push(x);
            }
            if t.unicode_len() > 0 {
                let ghost before = out@;
                out.push(t);
                assert(views(out@) == views(before).push(t@));
            }
            i = i + m;
            piece = i;
        } else {
            i = i + 1;
        }
    }
    let t = trim(s.substring_char(piece, n));
    let ghost x = s@.subrange(piece as int, n as int);
    proof {
        lemma_nonblank_append(done, x);
        assert(split_from(s@, sep@, piece as int, i as int) == seq![x]);
        assert(done + seq![x] == done.push(x));
    }
    if t.unicode_len() > 0 {
        let ghost before = out@;
        out.push(t);
        assert(views(out@) == views(before).push(t@));
    }
    out
}

/// The value of a run of decimal digits.
pub open spec fn digits_value(d: Seq<char>) -> nat
    decreases d.len(),
{
    if d.len() == 0 {
        0
    } else {
        digits_value(d.drop_last()) * 10 + (d.last() as nat - '0' as nat) as nat
    }
}

pub open spec fn is_digit(c: char) -> bool {
    '0' <= c && c <= '9'
}

pub open spec fn all_digits(d: Seq<char>) -> bool {
    forall|i: int| 0 <= i < d.len() ==> is_digit(#[trigger] d[i])
}

/// What a decimal numeral says: an optional sign (a minus only where `signed`) and at
/// least one ASCII digit; `None` for any other text.
pub open spec fn numeral_value(s: Seq<char>, signed: bool) -> Option<int> {
    if s.len() > 0 && s[0] == '+' && s.len() > 1 && all_digits(s.drop_first()) {
        Some(digits_value(s.drop_first()) as int)
    } else if signed && s.len() > 1 && s[0] == '-' && all_digits(s.drop_first()) {
        Some(-(digits_value(s.drop_first()) as int))
    } else if s.len() > 0 && all_digits(s) {
        Some(digits_value(s) as int)
    } else {
        None
    }
}

proof fn lemma_digits_grow(d: Seq<char>, k: int)
    requires
        0 <= k <= d.len(),
        all_digits(d),
    ensures
        digits_value(d.subrange(0, k)) <= digits_value(d),
    decreases d.len() - k,
{
    if k < d.len() {
        lemma_digits_grow(d, k + 1);
        assert(d.subrange(0, k + 1).drop_last() == d.subrange(0, k));
        assert(is_digit(d[k]));
    } else {
        assert(d.subrange(0, k) == d);
    }
}

/// The magnitude of a run of ASCII digits, where it fits in a `u64`.
fn digits_u64(s: &str, from: usize) -> (r: Option<u64>)
    requires
        from <= s@.len(),
    ensures
        match r {
            Some(v) => all_digits(s@.subrange(from as int, s@.len() as int)) && v
                == digits_value(s@.subrange(from as int, s@.len() as int)),
            None => !all_digits(s@.subrange(from as int, s@.len() as int)) || digits_value(
                s@.subrange(from as int, s@.len() as int),
            ) > u64::MAX,
        },
{
    let n = s.unicode_len();
    let ghost d = s@.subrange(from as int, n as int);
    let mut acc: u64 = 0;
    let mut i: usize = from;
    let mut overflow = false;
    while i < n
        invariant
            n == s@.len(),
            from <= i <= n,
            d == s@.subrange(from as int, n as int),
            all_digits(d.subrange(0, i - from)),
            !overflow ==> acc == digits_value(d.subrange(0, i - from)),
            overflow ==> digits_value(d.subrange(0, i - from)) > u64::MAX,
        decreases n - i,
    {
        let c = s.get_char(i);
        if !('0' <= c && c <= '9') {
            assert(d[i - from] == c);
            return None;
        }
        let ghost pre = d.subrange(0, i - from);
        assert(d.subrange(0, i - from + 1).drop_last() == pre);
        assert(d.subrange(0, i - from + 1).last() == c);
        let dig = (c as u32 - '0' as u32) as u64;
        if !overflow {
            match acc.checked_mul(10) {
                Some(t) => match t.checked_add(dig) {
                    Some(u) => {
                        acc = u;
                    },
                    None => {
                        overflow = true;
                    },
                },
                None => {
                    overflow = true;
                },
            }
        } else {
            assert(digits_value(d.subrange(0, i - from + 1)) >= digits_value(pre));
        }
        i = i + 1;
    }
    assert(d.subrange(0, n - from) == d);
    if overflow {
        None
    } else {
        Some(acc)
    }
}

/// Reads a run of ASCII digits that fits in a `u64`.
pub fn parse_digits(s: &str) -> (r: Option<u64>)
    ensures
        r is Some <==> (s@.len() > 0 && all_digits(s@) && digits_value(s@) <= u64::MAX),
        r is Some ==> r->Some_0 == digits_value(s@),
{
    if s.unicode_len() == 0 {
        return None;
    }
    assert(s@.subrange(0, s@.len() as int) == s@);
    digits_u64(s, 0)
}

/// Reads an unsigned numeral (as `str::parse` does) no larger than `max`.
pub fn parse_unsigned(s: &str, max: u64) -> (r: Option<u64>)
    ensures
        r == match numeral_value(s@, false) {
            Some(v) => if v <= max {
                Some(v as u64)
            } else {
                None::<u64>
            },
            None => None,
        },
{
    let n = s.unicode_len();
    if n == 0 {
        return None;
    }
    let from: usize = if s.get_char(0) == '+' && n > 1 {
        1
    } else {
        0
    };
    proof {
        if from == 1 {
            assert(s@.subrange(1, n as int) == s@.drop_first());
        } else {
            assert(s@.subrange(0, n as int) == s@);
            if s@[0] == '+' {
                assert(!is_digit(s@[0]));
            }
        }
    }
    match digits_u64(s, from) {
        Some(v) => if v <= max {
            Some(v)
        } else {
            None
        },
        None => None,
    }
}

/// Reads a signed numeral (as `str::parse::<i64>` does).
pub fn parse_i64(s: &str) -> (r: Option<i64>)
    ensures
        r == match numeral_value(s@, true) {
            Some(v) => if i64::MIN <= v <= i64::MAX {
                Some(v as i64)
            } else {
                None::<i64>
            },
            None => None,
        },
{
    let n = s.unicode_len();
    if n == 0 {
        return None;
    }
    let c0 = s.get_char(0);
    if n > 1 && (c0 == '+' || c0 == '-') {
        assert(s@.subrange(1, n as int) == s@.drop_first());
        match digits_u64(s, 1) {
            Some(v) => {
                if c0 == '+' {
                    if v <= 9223372036854775807 {
                        Some(v as i64)
                    } else {
                        None
                    }
                } else if v <= 9223372036854775807 {
                    Some(-(v as i64))
                } else if v == 9223372036854775808 {
                    Some(i64::MIN)
                } else {
                    None
                }
            },
            None => None,
        }
    } else {
        assert(s@.subrange(0, n as int) == s@);
        if c0 == '+' || c0 == '-' {
            assert(!is_digit(s@[0]));
        }
        match digits_u64(s, 0) {
            Some(v) => if v <= 9223372036854775807 {
                Some(v as i64)
            } else {
                None
            },
            None => None,
        }
    }
}

} // verus!
