//! Text primitives over character sequences: substring search, match
//! counting, line splitting, decimal rendering and joining.
use vstd::prelude::*;

verus! {

// ── Specifications ──────────────────────────────────────────────────

/// `p` occurs in `s` starting at position `i`.
pub open spec fn occurs_at(s: Seq<char>, p: Seq<char>, i: int) -> bool {
    0 <= i && i + p.len() <= s.len() && s.subrange(i, i + p.len()) == p
}

/// `p` is a substring of `s` (the empty pattern is a substring of everything).
pub open spec fn contains(s: Seq<char>, p: Seq<char>) -> bool {
    exists|i: int| occurs_at(s, p, i)
}

/// Number of non-overlapping occurrences of a non-empty `p` in `s`, found
/// from left to right.
pub open spec fn count_matches(s: Seq<char>, p: Seq<char>) -> nat
    decreases s.len(),
{
    if p.len() == 0 || s.len() < p.len() {
        0
    } else if s.take(p.len() as int) == p {
        1 + count_matches(s.skip(p.len() as int), p)
    } else {
        count_matches(s.skip(1), p)
    }
}

/// Number of leading characters on which `a` and `b` agree.
pub open spec fn common_prefix_len(a: Seq<char>, b: Seq<char>) -> nat
    decreases a.len(),
{
    if a.len() == 0 || b.len() == 0 || a[0] != b[0] {
        0
    } else {
        1 + common_prefix_len(a.drop_first(), b.drop_first())
    }
}

/// The decimal digit for `d < 10`.
pub open spec fn digit_char(d: nat) -> char {
    if d == 0 { '0' }
    else if d == 1 { '1' }
    else if d == 2 { '2' }
    else if d == 3 { '3' }
    else if d == 4 { '4' }
    else if d == 5 { '5' }
    else if d == 6 { '6' }
    else if d == 7 { '7' }
    else if d == 8 { '8' }
    else { '9' }
}

/// The decimal rendering of `n`, without leading zeros.
pub open spec fn decimal(n: nat) -> Seq<char>
    decreases n,
{
    if n < 10 {
        seq![digit_char(n)]
    } else {
        decimal(n / 10).push(digit_char(n % 10))
    }
}

/// The pieces of `parts` with `sep` between each neighbouring pair.
pub open spec fn join(parts: Seq<Seq<char>>, sep: Seq<char>) -> Seq<char>
    decreases parts.len(),
{
    if parts.len() == 0 {
        Seq::empty()
    } else if parts.len() == 1 {
        parts[0]
    } else {
        join(parts.drop_last(), sep) + sep + parts.last()
    }
}

/// A line without its terminating `\n`: a trailing `\r` goes with the
/// newline.
pub open spec fn strip_cr(line: Seq<char>) -> Seq<char> {
    if line.len() > 0 && line.last() == '\r' {
        line.drop_last()
    } else {
        line
    }
}

/// The lines of `s`, split at `\n` and at `\r\n`; the final line ending is
/// optional, and the empty text has no lines.
pub open spec fn lines(s: Seq<char>) -> Seq<Seq<char>>
    decreases s.len(),
{
    if s.len() == 0 {
        Seq::empty()
    } else {
        lines_from(s, 0)
    }
}

/// The lines of `s` that start at `start`, where `start` is 0 or just after a
/// newline.
pub open spec fn lines_from(s: Seq<char>, start: int) -> Seq<Seq<char>>
    decreases s.len() - start,
{
    if start < 0 || start >= s.len() {
        Seq::empty()
    } else {
        let end = next_newline(s, start);
        proof {
            lemma_next_newline_bounds(s, start);
        }
        if end < s.len() {
            seq![strip_cr(s.subrange(start, end))] + lines_from(s, end + 1)
        } else {
            seq![s.subrange(start, s.len() as int)]
        }
    }
}

/// The position of the first `\n` at or after `start`, or `s.len()`.
pub open spec fn next_newline(s: Seq<char>, start: int) -> int
    decreases s.len() - start,
{
    if start < 0 || start >= s.len() {
        s.len() as int
    } else if s[start] == '\n' {
        start
    } else {
        next_newline(s, start + 1)
    }
}

// ── Lemmas ──────────────────────────────────────────────────────────

pub proof fn lemma_next_newline_bounds(s: Seq<char>, start: int)
    requires
        0 <= start <= s.len(),
    ensures
        start <= next_newline(s, start) <= s.len(),
        next_newline(s, start) < s.len() ==> s[next_newline(s, start)] == '\n',
        forall|k: int| start <= k < next_newline(s, start) ==> s[k] != '\n',
    decreases s.len() - start,
{
    if start < s.len() && s[start] != '\n' {
        lemma_next_newline_bounds(s, start + 1);
    }
}

proof fn lemma_next_newline_is(s: Seq<char>, start: int, end: int)
    requires
        0 <= start <= end <= s.len(),
        end == s.len() || s[end] == '\n',
        forall|k: int| start <= k < end ==> s[k] != '\n',
    ensures
        next_newline(s, start) == end,
    decreases end - start,
{
    if start < end {
        lemma_next_newline_is(s, start + 1, end);
    }
}

proof fn lemma_count_matches_skip(s: Seq<char>, p: Seq<char>, i: int)
    requires
        p.len() > 0,
        0 <= i <= s.len(),
    ensures
        count_matches(s.skip(i), p) <= s.len() - i,
    decreases s.len() - i,
{
    if s.len() - i >= p.len() {
        if s.skip(i).take(p.len() as int) == p {
            assert(s.skip(i).skip(p.len() as int) =~= s.skip(i + p.len()));
            lemma_count_matches_skip(s, p, i + p.len());
        } else {
            assert(s.skip(i).skip(1) =~= s.skip(i + 1));
            lemma_count_matches_skip(s, p, i + 1);
        }
    }
}

/// Non-overlapping matches of `p` take up no more than `s`.
pub proof fn lemma_count_matches_bound(s: Seq<char>, p: Seq<char>)
    requires
        p.len() > 0,
    ensures
        count_matches(s, p) * p.len() <= s.len(),
    decreases s.len(),
{
    if s.len() >= p.len() {
        if s.take(p.len() as int) == p {
            lemma_count_matches_bound(s.skip(p.len() as int), p);
            let c = count_matches(s.skip(p.len() as int), p);
            assert((1 + c) * p.len() == c * p.len() + p.len()) by (nonlinear_arith);
        } else {
            lemma_count_matches_bound(s.skip(1), p);
            assert(count_matches(s, p) == count_matches(s.skip(1), p));
        }
    } else {
        assert(count_matches(s, p) == 0);
        assert(0 * p.len() == 0) by (nonlinear_arith);
    }
}

/// A non-empty pattern is counted at least once exactly when it occurs.
pub proof fn law_count_matches_found(s: Seq<char>, p: Seq<char>)
    requires
        p.len() > 0,
    ensures
        (count_matches(s, p) > 0) == (exists|i: int| 0 <= i && i + p.len() <= s.len() && #[trigger] s.subrange(i, i + p.len()) == p),
    decreases s.len(),
{
    if s.len() < p.len() {
        if exists|i: int| 0 <= i && i + p.len() <= s.len() && #[trigger] s.subrange(i, i + p.len()) == p {
            let i = choose|i: int| 0 <= i && i + p.len() <= s.len() && #[trigger] s.subrange(i, i + p.len()) == p;
            assert(false);
        }
    } else {
        let t = s.skip(1);
        law_count_matches_found(t, p);
        assert(s.take(p.len() as int) =~= s.subrange(0, p.len() as int));
        if s.take(p.len() as int) == p {
            assert(s.subrange(0int, 0int + p.len()) == p);
        } else {
            assert(count_matches(s, p) == count_matches(t, p));
            if exists|i: int| 0 <= i && i + p.len() <= s.len() && #[trigger] s.subrange(i, i + p.len()) == p {
                let i = choose|i: int| 0 <= i && i + p.len() <= s.len() && #[trigger] s.subrange(i, i + p.len()) == p;
                assert(i != 0);
                assert(t.subrange(i - 1, i - 1 + p.len()) =~= s.subrange(i, i + p.len()));
            }
            if exists|i: int| 0 <= i && i + p.len() <= t.len() && #[trigger] t.subrange(i, i + p.len()) == p {
                let i = choose|i: int| 0 <= i && i + p.len() <= t.len() && #[trigger] t.subrange(i, i + p.len()) == p;
                assert(s.subrange(i + 1, i + 1 + p.len()) =~= t.subrange(i, i + p.len()));
            }
        }
    }
}

/// The common prefix of two texts is as long as they agree: both start with
/// the same that many characters, and they differ just after it unless one
/// of them ends there.
pub proof fn law_common_prefix(a: Seq<char>, b: Seq<char>)
    ensures
        common_prefix_len(a, b) <= a.len(),
        common_prefix_len(a, b) <= b.len(),
        a.take(common_prefix_len(a, b) as int) == b.take(common_prefix_len(a, b) as int),
        common_prefix_len(a, b) < a.len() && common_prefix_len(a, b) < b.len()
            ==> a[common_prefix_len(a, b) as int] != b[common_prefix_len(a, b) as int],
    decreases a.len(),
{
    if a.len() > 0 && b.len() > 0 && a[0] == b[0] {
        law_common_prefix(a.drop_first(), b.drop_first());
        let c = common_prefix_len(a.drop_first(), b.drop_first()) as int;
        assert(a.take(c + 1) =~= seq![a[0]] + a.drop_first().take(c));
        assert(b.take(c + 1) =~= seq![b[0]] + b.drop_first().take(c));
    } else {
        assert(a.take(0) =~= b.take(0));
    }
}

// ── Outside text operations ─────────────────────────────────────────

/// What `str::to_lowercase` returns for a string: its Unicode lowercase
/// mapping.
pub uninterp spec fn lowercase(s: Seq<char>) -> Seq<char>;

/// Calls `str::to_lowercase`. The contract names its result `lowercase` of
/// the argument's characters; the Unicode case tables themselves are not
/// restated here.
#[verifier::external_body]
pub(crate) fn to_lowercase(s: &str) -> (res: String)
    ensures
        res@ == lowercase(s@),
{
    s.to_lowercase()
}

/// Calls `String::push`, which appends one character.
#[verifier::external_body]
fn push_char(s: &mut String, c: char)
    ensures
        final(s)@ == old(s)@.push(c),
{
    s.push(c)
}

// ── Executable operations ───────────────────────────────────────────

/// The characters of a string slice, in order.
pub fn chars_of(s: &str) -> (res: Vec<char>)
    ensures
        res@ == s@,
{
    let mut res: Vec<char> = Vec::new();
    for c in it: s.chars()
        invariant
            res@ == it.seq().take(it.index() as int),
            it.seq() == s@,
    {
        res.push(c);
    }
    res
}

/// A string holding exactly the given characters.
pub fn string_of(v: &[char]) -> (res: String)
    ensures
        res@ == v@,
{
    let mut res = String::new();
    let mut i: usize = 0;
    while i < v.len()
        invariant
            i <= v.len(),
            res@ == v@.take(i as int),
        decreases v.len() - i,
    {
        push_char(&mut res, v[i]);
        assert(v@.take(i + 1) =~= v@.take(i as int).push(v@[i as int]));
        i = i + 1;
    }
    assert(v@.take(v.len() as int) =~= v@);
    res
}

/// A copy of the characters.
pub fn copy_chars(v: &[char]) -> (res: Vec<char>)
    ensures
        res@ == v@,
{
    let mut res: Vec<char> = Vec::new();
    let mut i: usize = 0;
    while i < v.len()
        invariant
            i <= v.len(),
            res@ == v@.take(i as int),
        decreases v.len() - i,
    {
        res.push(v[i]);
        assert(v@.take(i + 1) =~= v@.take(i as int).push(v@[i as int]));
        i = i + 1;
    }
    assert(v@.take(v.len() as int) =~= v@);
    res
}

/// The first `n` characters of `v`, or all of them when there are fewer.
pub fn prefix_chars(v: &[char], n: usize) -> (res: Vec<char>)
    ensures
        res@ == (if v@.len() <= n { v@ } else { v@.take(n as int) }),
{
    let m = if v.len() <= n { v.len() } else { n };
    let mut res: Vec<char> = Vec::new();
    let mut i: usize = 0;
    while i < m
        invariant
            i <= m,
            m <= v.len(),
            res@ == v@.take(i as int),
        decreases m - i,
    {
        res.push(v[i]);
        assert(v@.take(i + 1) =~= v@.take(i as int).push(v@[i as int]));
        i = i + 1;
    }
    assert(v@.len() <= n ==> v@.take(m as int) =~= v@);
    res
}

/// Whether two character sequences are equal.
pub fn chars_eq(a: &[char], b: &[char]) -> (res: bool)
    ensures
        res == (a@ == b@),
{
    if a.len() != b.len() {
        return false;
    }
    let mut i: usize = 0;
    while i < a.len()
        invariant
            a.len() == b.len(),
            i <= a.len(),
            forall|j: int| 0 <= j < i ==> a@[j] == b@[j],
        decreases a.len() - i,
    {
        if a[i] != b[i] {
            return false;
        }
        i = i + 1;
    }
    assert(a@ =~= b@);
    true
}

/// Whether `p` occurs in `s` at position `i`.
pub fn occurs_at_exec(s: &[char], p: &[char], i: usize) -> (res: bool)
    ensures
        res == occurs_at(s@, p@, i as int),
{
    if i > s.len() || p.len() > s.len() - i {
        return false;
    }
    let mut k: usize = 0;
    while k < p.len()
        invariant
            i + p.len() <= s.len(),
            k <= p.len(),
            forall|j: int| 0 <= j < k ==> s@[i + j] == p@[j],
        decreases p.len() - k,
    {
        if s[i + k] != p[k] {
            assert(s@.subrange(i as int, i + p.len())[k as int] != p@[k as int]);
            return false;
        }
        k = k + 1;
    }
    assert(s@.subrange(i as int, i + p.len()) =~= p@);
    true
}

/// Whether `p` is a substring of `s`.
pub fn contains_chars(s: &[char], p: &[char]) -> (res: bool)
    ensures
        res == contains(s@, p@),
{
    if p.len() > s.len() {
        assert forall|i: int| !occurs_at(s@, p@, i) by {}
        return false;
    }
    let mut i: usize = 0;
    loop
        invariant
            p.len() <= s.len(),
            i <= s.len() - p.len(),
            forall|j: int| 0 <= j < i ==> !occurs_at(s@, p@, j),
        decreases s.len() - p.len() - i,
    {
        if occurs_at_exec(s, p, i) {
            return true;
        }
        if i == s.len() - p.len() {
            assert forall|j: int| !occurs_at(s@, p@, j) by {
                if 0 <= j <= i {
                }
            }
            return false;
        }
        i = i + 1;
    }
}

/// Whether the text `s` contains the literal `p`.
pub fn contains_str(s: &[char], p: &str) -> (res: bool)
    ensures
        res == contains(s@, p@),
{
    let pc = chars_of(p);
    contains_chars(s, &pc)
}

/// Number of non-overlapping left-to-right occurrences of the non-empty
/// pattern `p` in `s`.
pub fn count_matches_exec(s: &[char], p: &[char]) -> (res: usize)
    requires
        p@.len() > 0,
    ensures
        res == count_matches(s@, p@),
{
    let mut i: usize = 0;
    let mut n: usize = 0;
    proof {
        lemma_count_matches_skip(s@, p@, 0);
        assert(s@.skip(0) =~= s@);
    }
    while i < s.len() && p.len() <= s.len() - i
        invariant
            p@.len() > 0,
            i <= s.len(),
            n + count_matches(s@.skip(i as int), p@) == count_matches(s@, p@),
            n <= i,
        decreases s.len() - i,
    {
        proof {
            lemma_count_matches_skip(s@, p@, i as int);
        }
        if occurs_at_exec(s, p, i) {
            assert(s@.skip(i as int).take(p.len() as int) =~= s@.subrange(i as int, i + p.len()));
            assert(s@.skip(i as int).skip(p.len() as int) =~= s@.skip(i + p.len()));
            n = n + 1;
            i = i + p.len();
        } else {
            assert(s@.skip(i as int).take(p.len() as int) =~= s@.subrange(i as int, i + p.len()));
            assert(s@.skip(i as int).skip(1) =~= s@.skip(i + 1));
            i = i + 1;
        }
    }
    n
}

/// Number of non-overlapping occurrences of the literal `p` in `s`.
pub fn count_str(s: &[char], p: &str) -> (res: usize)
    requires
        p@.len() > 0,
    ensures
        res == count_matches(s@, p@),
{
    let pc = chars_of(p);
    count_matches_exec(s, &pc)
}

/// Length of the longest common prefix of `a` and `b`.
pub fn common_prefix_len_exec(a: &[char], b: &[char]) -> (res: usize)
    ensures
        res == common_prefix_len(a@, b@),
{
    let mut i: usize = 0;
    proof {
        assert(a@.skip(0) =~= a@);
        assert(b@.skip(0) =~= b@);
    }
    while i < a.len() && i < b.len() && a[i] == b[i]
        invariant
            i <= a.len(),
            i <= b.len(),
            common_prefix_len(a@, b@) == i + common_prefix_len(a@.skip(i as int), b@.skip(i as int)),
        decreases a.len() - i,
    {
        assert(a@.skip(i as int).drop_first() =~= a@.skip(i + 1));
        assert(b@.skip(i as int).drop_first() =~= b@.skip(i + 1));
        i = i + 1;
    }
    i
}

/// The decimal digit for `d < 10`.
fn digit_exec(d: usize) -> (c: char)
    requires
        d < 10,
    ensures
        c == digit_char(d as nat),
{
    if d == 0 { '0' }
    else if d == 1 { '1' }
    else if d == 2 { '2' }
    else if d == 3 { '3' }
    else if d == 4 { '4' }
    else if d == 5 { '5' }
    else if d == 6 { '6' }
    else if d == 7 { '7' }
    else if d == 8 { '8' }
    else { '9' }
}

/// The decimal digits of `n`.
pub fn decimal_chars(n: usize) -> (res: Vec<char>)
    ensures
        res@ == decimal(n as nat),
    decreases n,
{
    if n < 10 {
        let mut v = Vec::new();
        v.push(digit_exec(n));
        assert(v@ =~= seq![digit_char(n as nat)]);
        v
    } else {
        let mut v = decimal_chars(n / 10);
        v.push(digit_exec(n % 10));
        v
    }
}

/// `n` rendered in decimal.
pub fn decimal_string(n: usize) -> (res: String)
    ensures
        res@ == decimal(n as nat),
{
    let v = decimal_chars(n);
    string_of(&v)
}

/// The pieces joined with `sep` between neighbours.
pub fn join_chars(parts: &Vec<Vec<char>>, sep: &[char]) -> (res: Vec<char>)
    ensures
        res@ == join(parts@.map_values(|p: Vec<char>| p@), sep@),
{
    let ghost views = parts@.map_values(|p: Vec<char>| p@);
    let mut res: Vec<char> = Vec::new();
    let mut i: usize = 0;
    while i < parts.len()
        invariant
            i <= parts.len(),
            views == parts@.map_values(|p: Vec<char>| p@),
            res@ == join(views.take(i as int), sep@),
        decreases parts.len() - i,
    {
        if i > 0 {
            let mut k: usize = 0;
            let ghost before = res@;
            while k < sep.len()
                invariant
                    k <= sep.len(),
                    res@ == before + sep@.take(k as int),
                decreases sep.len() - k,
            {
                res.push(sep[k]);
                assert(sep@.take(k + 1) =~= sep@.take(k as int).push(sep@[k as int]));
                k = k + 1;
            }
            assert(sep@.take(sep.len() as int) =~= sep@);
        }
        let ghost mid = res@;
        let part = &parts[i];
        let mut k: usize = 0;
        while k < part.len()
            invariant
                k <= part.len(),
                res@ == mid + part@.take(k as int),
            decreases part.len() - k,
        {
            res.push(part[k]);
            assert(part@.take(k + 1) =~= part@.take(k as int).push(part@[k as int]));
            k = k + 1;
        }
        assert(part@.take(part.len() as int) =~= part@);
        assert(views.take(i + 1).drop_last() =~= views.take(i as int));
        assert(views.take(i + 1).last() == part@);
        if i == 0 {
            assert(views.take(1) =~= seq![part@]);
            assert(res@ =~= part@);
        }
        i = i + 1;
    }
    assert(views.take(parts.len() as int) =~= views);
    res
}

/// The lines of `s` (see [`lines`]).
pub fn split_lines(s: &[char]) -> (res: Vec<Vec<char>>)
    ensures
        res@.map_values(|l: Vec<char>| l@) == lines(s@),
{
    let mut res: Vec<Vec<char>> = Vec::new();
    if s.len() == 0 {
        assert(res@.map_values(|l: Vec<char>| l@) =~= lines(s@));
        return res;
    }
    let mut start: usize = 0;
    let ghost sv = s@;
    while start < s.len()
        invariant
            sv == s@,
            s.len() > 0,
            start <= s.len(),
            start == 0 || start == s.len() || sv[start - 1] == '\n',
            lines(sv) == res@.map_values(|l: Vec<char>| l@) + lines_from(sv, start as int),
        decreases s.len() - start,
    {
        let mut end: usize = start;
        while end < s.len() && s[end] != '\n'
            invariant
                start <= end <= s.len(),
                forall|k: int| start <= k < end ==> sv[k] != '\n',
                sv == s@,
            decreases s.len() - end,
        {
            end = end + 1;
        }
        proof {
            lemma_next_newline_is(sv, start as int, end as int);
        }
        let mut line: Vec<char> = Vec::new();
        let mut k: usize = start;
        while k < end
            invariant
                start <= k <= end <= s.len(),
                line@ == sv.subrange(start as int, k as int),
                sv == s@,
            decreases end - k,
        {
            line.push(s[k]);
            assert(sv.subrange(start as int, k + 1) =~= sv.subrange(start as int, k as int).push(sv[k as int]));
            k = k + 1;
        }
        let ghost prev = res@.map_values(|l: Vec<char>| l@);
        if end < s.len() {
            if line.len() > 0 && line[line.len() - 1] == '\r' {
                line.pop();
            }
            assert(line@ == strip_cr(sv.subrange(start as int, end as int)));
            res.push(line);
            assert(res@.map_values(|l: Vec<char>| l@) =~= prev.push(strip_cr(sv.subrange(start as int, end as int))));
            start = end + 1;
        } else {
            res.push(line);
            assert(res@.map_values(|l: Vec<char>| l@) =~= prev.push(sv.subrange(start as int, sv.len() as int)));
            assert(lines_from(sv, end as int) =~= Seq::<Seq<char>>::empty());
            start = end;
        }
    }
    assert(lines_from(sv, start as int) =~= Seq::<Seq<char>>::empty());
    assert(res@.map_values(|l: Vec<char>| l@) =~= lines(sv));
    res
}

} // verus!
