use vstd::prelude::*;

verus! {

/// The characters of a string slice, in order.
pub fn chars_of(s: &str) -> (v: Vec<char>)
    ensures
        v@ == s@,
{
    let mut v: Vec<char> = Vec::new();
    for c in it: s.chars()
        invariant
            v@ == it.seq().take(it.index() as int),
    {
        v.push(c);
    }
    v
}

/// Appends one character to a string.
#[verifier::external_body]
pub fn push_char(s: &mut String, c: char)
    ensures
        final(s)@ == old(s)@.push(c),
{
    s.push(c);
}

} // verus!

verus! {

/// Whether the characters `s[start..end]` spell `lit`.
pub fn seg_eq(s: &Vec<char>, start: usize, end: usize, lit: &str) -> (b: bool)
    requires
        start <= end <= s.len(),
    ensures
        b == (s@.subrange(start as int, end as int) == lit@),
{
    let n = lit.unicode_len();
    if end - start != n {
        return false;
    }
    let mut k: usize = 0;
    while k < n
        invariant
            n == lit@.len(),
            start <= end <= s.len(),
            end - start == n,
            k <= n,
            forall|j: int| 0 <= j < k ==> s@[start + j] == lit@[j],
        decreases n - k,
    {
        if s[start + k] != lit.get_char(k) {
            assert(s@.subrange(start as int, end as int)[k as int] != lit@[k as int]);
            return false;
        }
        k += 1;
    }
    assert(s@.subrange(start as int, end as int) =~= lit@);
    true
}

/// Unicode White_Space, the set that `char::is_whitespace` tests.
pub open spec fn is_whitespace(c: char) -> bool {
    let u = c as u32;
    ||| (0x09 <= u && u <= 0x0d)
    ||| u == 0x20
    ||| u == 0x85
    ||| u == 0xa0
    ||| u == 0x1680
    ||| (0x2000 <= u && u <= 0x200a)
    ||| u == 0x2028
    ||| u == 0x2029
    ||| u == 0x202f
    ||| u == 0x205f
    ||| u == 0x3000
}

pub fn is_ws_char(c: char) -> (b: bool)
    ensures
        b == is_whitespace(c),
{
    let u = c as u32;
    (0x09 <= u && u <= 0x0d) || u == 0x20 || u == 0x85 || u == 0xa0 || u == 0x1680 || (0x2000
        <= u && u <= 0x200a) || u == 0x2028 || u == 0x2029 || u == 0x202f || u == 0x205f || u
        == 0x3000
}

/// A string holding `v[start..end]`.
pub fn string_of(v: &Vec<char>, start: usize, end: usize) -> (r: String)
    requires
        start <= end <= v.len(),
    ensures
        r@ == v@.subrange(start as int, end as int),
{
    let mut r = String::new();
    let mut k = start;
    assert(r@ =~= v@.subrange(start as int, start as int));
    while k < end
        invariant
            start <= k <= end <= v.len(),
            r@ == v@.subrange(start as int, k as int),
        decreases end - k,
    {
        push_char(&mut r, v[k]);
        k += 1;
        assert(r@ =~= v@.subrange(start as int, k as int));
    }
    r
}

/// A copy of `v[start..end]`.
pub fn copy_range(v: &Vec<char>, start: usize, end: usize) -> (r: Vec<char>)
    requires
        start <= end <= v.len(),
    ensures
        r@ == v@.subrange(start as int, end as int),
{
    let mut r: Vec<char> = Vec::new();
    let mut k = start;
    assert(r@ =~= v@.subrange(start as int, start as int));
    while k < end
        invariant
            start <= k <= end <= v.len(),
            r@ == v@.subrange(start as int, k as int),
        decreases end - k,
    {
        r.push(v[k]);
        k += 1;
        assert(r@ =~= v@.subrange(start as int, k as int));
    }
    r
}

/// Whether `p` occurs in `s` at index `i`.
pub open spec fn occurs_at(s: Seq<char>, p: Seq<char>, i: int) -> bool {
    0 <= i && i + p.len() <= s.len() && s.subrange(i, i + p.len()) == p
}

pub open spec fn starts_with(s: Seq<char>, p: Seq<char>) -> bool {
    occurs_at(s, p, 0)
}

pub open spec fn ends_with(s: Seq<char>, p: Seq<char>) -> bool {
    occurs_at(s, p, s.len() - p.len())
}

/// The first index at or after `i` where `p` occurs in `s`.
pub open spec fn find_from(s: Seq<char>, p: Seq<char>, i: int) -> Option<int>
    decreases s.len() - i,
{
    if i < 0 || i + p.len() > s.len() {
        None
    } else if occurs_at(s, p, i) {
        Some(i)
    } else if i >= s.len() {
        None
    } else {
        find_from(s, p, i + 1)
    }
}

/// The last index at or before `i` where `p` occurs in `s`.
pub open spec fn rfind_from(s: Seq<char>, p: Seq<char>, i: int) -> Option<int>
    decreases i + 1,
{
    if i < 0 {
        None
    } else if occurs_at(s, p, i) {
        Some(i)
    } else {
        rfind_from(s, p, i - 1)
    }
}

/// `str::split_once`: the parts before and after the first `p`.
pub open spec fn split_once(s: Seq<char>, p: Seq<char>) -> Option<(Seq<char>, Seq<char>)> {
    match find_from(s, p, 0) {
        Some(i) => Some((s.subrange(0, i), s.subrange(i + p.len(), s.len() as int))),
        None => None,
    }
}

/// `str::rsplit_once`: the parts before and after the last `p`.
pub open spec fn rsplit_once(s: Seq<char>, p: Seq<char>) -> Option<(Seq<char>, Seq<char>)> {
    match rfind_from(s, p, s.len() - p.len()) {
        Some(i) => Some((s.subrange(0, i), s.subrange(i + p.len(), s.len() as int))),
        None => None,
    }
}

/// `str::trim_start_matches`: `s` without every leading copy of `p`.
pub open spec fn trim_start_matches(s: Seq<char>, p: Seq<char>) -> Seq<char>
    decreases s.len(),
{
    if p.len() > 0 && starts_with(s, p) {
        trim_start_matches(s.skip(p.len() as int), p)
    } else {
        s
    }
}

/// `str::trim_start`: `s` without leading whitespace.
pub open spec fn trim_start(s: Seq<char>) -> Seq<char>
    decreases s.len(),
{
    if s.len() > 0 && is_whitespace(s[0]) {
        trim_start(s.drop_first())
    } else {
        s
    }
}

/// `str::trim_end`: `s` without trailing whitespace.
pub open spec fn trim_end(s: Seq<char>) -> Seq<char>
    decreases s.len(),
{
    if s.len() > 0 && is_whitespace(s.last()) {
        trim_end(s.drop_last())
    } else {
        s
    }
}

/// `str::trim`: `s` without leading or trailing whitespace.
pub open spec fn trim(s: Seq<char>) -> Seq<char> {
    trim_end(trim_start(s))
}

proof fn lemma_occurs_at_char(s: Seq<char>, p: Seq<char>, i: int)
    requires
        0 <= i,
        i + p.len() <= s.len(),
    ensures
        occurs_at(s, p, i) <==> forall|j: int| 0 <= j < p.len() ==> s[i + j] == p[j],
{
    if forall|j: int| 0 <= j < p.len() ==> s[i + j] == p[j] {
        assert(s.subrange(i, i + p.len()) =~= p);
    }
    if occurs_at(s, p, i) {
        assert forall|j: int| 0 <= j < p.len() implies s[i + j] == p[j] by {
            assert(s.subrange(i, i + p.len())[j] == s[i + j]);
        }
    }
}

/// Whether `p` occurs in `s` at index `i`.
pub fn occurs_at_exec(s: &Vec<char>, p: &Vec<char>, i: usize) -> (b: bool)
    ensures
        b == occurs_at(s@, p@, i as int),
{
    if i > s.len() || p.len() > s.len() - i {
        return false;
    }
    let mut j: usize = 0;
    while j < p.len()
        invariant
            i + p.len() <= s.len(),
            j <= p.len(),
            forall|k: int| 0 <= k < j ==> s@[i + k] == p@[k],
        decreases p.len() - j,
    {
        if s[i + j] != p[j] {
            proof {
                lemma_occurs_at_char(s@, p@, i as int);
            }
            return false;
        }
        j += 1;
    }
    proof {
        lemma_occurs_at_char(s@, p@, i as int);
    }
    true
}

pub fn starts_with_exec(s: &Vec<char>, p: &Vec<char>) -> (b: bool)
    ensures
        b == starts_with(s@, p@),
{
    occurs_at_exec(s, p, 0)
}

pub fn ends_with_exec(s: &Vec<char>, p: &Vec<char>) -> (b: bool)
    ensures
        b == ends_with(s@, p@),
{
    if p.len() > s.len() {
        return false;
    }
    occurs_at_exec(s, p, s.len() - p.len())
}

/// The first index where `p` occurs in `s`.
pub fn find_exec(s: &Vec<char>, p: &Vec<char>) -> (r: Option<usize>)
    ensures
        r matches Some(i) ==> find_from(s@, p@, 0) == Some(i as int),
        r is None ==> find_from(s@, p@, 0) is None,
{
    if p.len() > s.len() {
        return None;
    }
    let mut i: usize = 0;
    let last = s.len() - p.len();
    while i <= last
        invariant
            p.len() <= s.len(),
            last == s.len() - p.len(),
            i <= last + 1,
            find_from(s@, p@, 0) == find_from(s@, p@, i as int),
        decreases last + 1 - i,
    {
        if occurs_at_exec(s, p, i) {
            return Some(i);
        }
        proof {
            if i >= s.len() {
                assert(s@.subrange(i as int, i + p.len()) =~= p@);
            }
        }
        i += 1;
    }
    None
}

/// The last index where `p` occurs in `s`.
pub fn rfind_exec(s: &Vec<char>, p: &Vec<char>) -> (r: Option<usize>)
    ensures
        r matches Some(i) ==> rfind_from(s@, p@, s@.len() - p@.len()) == Some(i as int),
        r is None ==> rfind_from(s@, p@, s@.len() - p@.len()) is None,
{
    if p.len() > s.len() {
        return None;
    }
    let mut i: usize = s.len() - p.len();
    loop
        invariant
            p.len() <= s.len(),
            i <= s.len() - p.len(),
            rfind_from(s@, p@, s@.len() - p@.len()) == rfind_from(s@, p@, i as int),
        decreases i,
    {
        if occurs_at_exec(s, p, i) {
            return Some(i);
        }
        if i == 0 {
            assert(rfind_from(s@, p@, -1) is None);
            return None;
        }
        i -= 1;
    }
}

pub fn split_once_exec(s: &Vec<char>, p: &Vec<char>) -> (r: Option<(Vec<char>, Vec<char>)>)
    ensures
        match r {
            Some((a, b)) => split_once(s@, p@) == Some((a@, b@)),
            None => split_once(s@, p@) is None,
        },
{
    proof {
        lemma_find_from_bounds(s@, p@, 0);
    }
    match find_exec(s, p) {
        Some(i) => {
            let pl = p.len();
            let sl = s.len();
            assert(i + pl <= sl);
            Some((copy_range(s, 0, i), copy_range(s, i + pl, s.len())))
        },
        None => None,
    }
}

pub fn rsplit_once_exec(s: &Vec<char>, p: &Vec<char>) -> (r: Option<(Vec<char>, Vec<char>)>)
    ensures
        match r {
            Some((a, b)) => rsplit_once(s@, p@) == Some((a@, b@)),
            None => rsplit_once(s@, p@) is None,
        },
{
    proof {
        lemma_rfind_from_bounds(s@, p@, s@.len() - p@.len());
    }
    match rfind_exec(s, p) {
        Some(i) => {
            let pl = p.len();
            let sl = s.len();
            assert(i + pl <= sl);
            Some((copy_range(s, 0, i), copy_range(s, i + pl, s.len())))
        },
        None => None,
    }
}

pub fn trim_start_matches_exec(s: &Vec<char>, p: &Vec<char>) -> (r: Vec<char>)
    ensures
        r@ == trim_start_matches(s@, p@),
{
    if p.len() == 0 {
        return copy_range(s, 0, s.len());
    }
    let mut i: usize = 0;
    assert(s@.skip(0) =~= s@);
    while occurs_at_exec(s, p, i)
        invariant
            p.len() > 0,
            i <= s.len(),
            trim_start_matches(s@, p@) == trim_start_matches(s@.skip(i as int), p@),
        decreases s.len() - i,
    {
        assert(s@.skip(i as int).subrange(0, p.len() as int) =~= s@.subrange(i as int, i + p.len()));
        assert(s@.skip(i as int).skip(p.len() as int) =~= s@.skip(i + p.len()));
        i += p.len();
    }
    assert(s@.skip(i as int).subrange(0, p.len() as int) =~= s@.subrange(i as int, i + p.len()) || i + p.len() > s.len());
    copy_range(s, i, s.len())
}

pub fn trim_exec(s: &Vec<char>) -> (r: Vec<char>)
    ensures
        r@ == trim(s@),
{
    let mut a: usize = 0;
    assert(s@.subrange(0, s@.len() as int) =~= s@);
    while a < s.len() && is_ws_char(s[a])
        invariant
            a <= s.len(),
            trim_start(s@) == trim_start(s@.subrange(a as int, s@.len() as int)),
        decreases s.len() - a,
    {
        assert(s@.subrange(a as int, s@.len() as int).drop_first() =~= s@.subrange(a + 1, s@.len() as int));
        a += 1;
    }
    let mut b: usize = s.len();
    assert(s@.subrange(a as int, b as int).len() == 0 || !is_whitespace(s@.subrange(a as int, b as int)[0]));
    assert(trim_start(s@) == s@.subrange(a as int, b as int));
    while b > a && is_ws_char(s[b - 1])
        invariant
            a <= b <= s.len(),
            trim(s@) == trim_end(s@.subrange(a as int, b as int)),
        decreases b,
    {
        assert(s@.subrange(a as int, b as int).drop_last() =~= s@.subrange(a as int, b - 1));
        b -= 1;
    }
    copy_range(s, a, b)
}

/// `str::lines` from index `i`: split at `\n`, with a `\r` before the `\n`
/// dropped, and no empty line after a final `\n`.
pub open spec fn newline_from(s: Seq<char>, i: int) -> int
    decreases s.len() - i,
{
    if i < 0 || i >= s.len() {
        s.len() as int
    } else if s[i] == '\n' {
        i
    } else {
        newline_from(s, i + 1)
    }
}

pub proof fn lemma_newline_from(s: Seq<char>, i: int)
    requires
        0 <= i <= s.len(),
    ensures
        i <= newline_from(s, i) <= s.len(),
        forall|k: int| i <= k < newline_from(s, i) ==> #[trigger] s[k] != '\n',
        newline_from(s, i) < s.len() ==> s[newline_from(s, i)] == '\n',
    decreases s.len() - i,
{
    if i < s.len() && s[i] != '\n' {
        lemma_newline_from(s, i + 1);
    }
}

/// The line that starts at `i` and ends at the newline `e`.
pub open spec fn line_content(s: Seq<char>, i: int, e: int) -> Seq<char> {
    if e < s.len() && e > i && s[e - 1] == '\r' {
        s.subrange(i, e - 1)
    } else {
        s.subrange(i, e)
    }
}

pub open spec fn lines_from(s: Seq<char>, i: int) -> Seq<Seq<char>>
    decreases s.len() - i,
{
    if i < 0 || i >= s.len() {
        seq![]
    } else {
        let e = newline_from(s, i);
        proof {
            lemma_newline_from(s, i);
        }
        if e < s.len() {
            seq![line_content(s, i, e)] + lines_from(s, e + 1)
        } else {
            seq![line_content(s, i, e)]
        }
    }
}

/// `str::lines`.
pub open spec fn lines(s: Seq<char>) -> Seq<Seq<char>> {
    lines_from(s, 0)
}

/// The line starting at `i`: where its text ends and where the next line starts.
pub fn next_line(s: &Vec<char>, i: usize) -> (r: (usize, usize))
    requires
        i < s.len(),
    ensures
        r.1 == (if newline_from(s@, i as int) < s@.len() {
            newline_from(s@, i as int) + 1
        } else {
            s@.len() as int
        }),
        i <= r.0 <= s.len(),
        s@.subrange(i as int, r.0 as int) == line_content(s@, i as int, newline_from(s@, i as int)),
{
    let mut e = i;
    proof {
        lemma_newline_from(s@, i as int);
    }
    while e < s.len() && s[e] != '\n'
        invariant
            i <= e <= newline_from(s@, i as int) <= s.len(),
            forall|k: int| i <= k < newline_from(s@, i as int) ==> #[trigger] s@[k] != '\n',
            newline_from(s@, i as int) < s.len() ==> s@[newline_from(s@, i as int)] == '\n',
        decreases s.len() - e,
    {
        e += 1;
    }
    let content_end = if e < s.len() && e > i && s[e - 1] == '\r' {
        e - 1
    } else {
        e
    };
    let next = if e < s.len() {
        e + 1
    } else {
        e
    };
    (content_end, next)
}

pub proof fn lemma_lines_step(s: Seq<char>, i: int, content_end: int, next: int)
    requires
        0 <= i < s.len(),
        next == (if newline_from(s, i) < s.len() {
            newline_from(s, i) + 1
        } else {
            s.len() as int
        }),
        s.subrange(i, content_end) == line_content(s, i, newline_from(s, i)),
    ensures
        lines_from(s, i) == seq![s.subrange(i, content_end)] + lines_from(s, next),
{
    lemma_newline_from(s, i);
    if newline_from(s, i) >= s.len() {
        assert(lines_from(s, next) =~= Seq::<Seq<char>>::empty());
        assert(seq![s.subrange(i, content_end)] + Seq::<Seq<char>>::empty() =~= seq![s.subrange(i, content_end)]);
    }
}

/// The lines of `s`, as `str::lines` gives them (see `lines`).
pub fn text_lines(s: &str) -> (r: Vec<String>)
    ensures
        r@.map_values(|l: String| l@) == lines(s@),
{
    let v = chars_of(s);
    let n = v.len();
    let mut out: Vec<String> = Vec::new();
    let mut i: usize = 0;
    assert(out@.map_values(|l: String| l@) + lines_from(v@, 0) =~= lines(s@));
    while i < n
        invariant
            n == v@.len(),
            v@ == s@,
            i <= n,
            out@.map_values(|l: String| l@) + lines_from(v@, i as int) == lines(s@),
        decreases n - i,
    {
        let (content_end, next) = next_line(&v, i);
        proof {
            lemma_lines_step(v@, i as int, content_end as int, next as int);
            lemma_newline_from(v@, i as int);
        }
        let line = string_of(&v, i, content_end);
        let ghost before = out@;
        out.push(line);
        proof {
            let ls = lines_from(v@, i as int);
            assert(out@.map_values(|l: String| l@) =~= before.map_values(|l: String| l@).push(ls[0]));
            assert(ls =~= seq![ls[0]] + lines_from(v@, next as int));
            assert(out@.map_values(|l: String| l@) + lines_from(v@, next as int) =~= before.map_values(
                |l: String| l@,
            ) + ls);
        }
        i = next;
    }
    assert(lines_from(v@, i as int) =~= Seq::<Seq<char>>::empty());
    assert(out@.map_values(|l: String| l@) + Seq::<Seq<char>>::empty() =~= out@.map_values(|l: String| l@));
    out
}

/// The pieces of `s` between the occurrences of `c`, as `str::split` gives them.
pub open spec fn split_char(s: Seq<char>, c: char) -> Seq<Seq<char>>
    decreases s.len(),
{
    match find_from(s, seq![c], 0) {
        Some(i) => {
            proof {
                lemma_find_from_bounds(s, seq![c], 0);
            }
            seq![s.subrange(0, i)] + split_char(s.subrange(i + 1, s.len() as int), c)
        },
        None => seq![s],
    }
}

pub proof fn lemma_find_from_bounds(s: Seq<char>, p: Seq<char>, i: int)
    requires
        0 <= i,
    ensures
        find_from(s, p, i) matches Some(j) ==> i <= j && j + p.len() <= s.len() && occurs_at(s, p, j),
        find_from(s, p, i) matches Some(j) ==> forall|k: int| i <= k < j ==> !occurs_at(s, p, k),
        find_from(s, p, i) is None ==> forall|k: int| i <= k ==> !occurs_at(s, p, k),
    decreases s.len() - i,
{
    if i + p.len() <= s.len() && !occurs_at(s, p, i) && i < s.len() {
        lemma_find_from_bounds(s, p, i + 1);
    }
    if i + p.len() <= s.len() && !occurs_at(s, p, i) && i >= s.len() {
        assert(p.len() == 0);
        assert(s.subrange(i, i + p.len()) =~= p);
    }
}

pub proof fn lemma_rfind_from_bounds(s: Seq<char>, p: Seq<char>, i: int)
    ensures
        rfind_from(s, p, i) matches Some(j) ==> 0 <= j <= i && j + p.len() <= s.len() && occurs_at(s, p, j),
        rfind_from(s, p, i) matches Some(j) ==> forall|k: int| j < k <= i ==> !occurs_at(s, p, k),
        rfind_from(s, p, i) is None ==> forall|k: int| k <= i ==> !occurs_at(s, p, k),
    decreases i + 1,
{
    if i >= 0 && !occurs_at(s, p, i) {
        lemma_rfind_from_bounds(s, p, i - 1);
    }
}

/// The piece at index `k` of `split_char`, or nothing past the last piece.
pub open spec fn nth_piece(s: Seq<char>, c: char, k: int) -> Seq<char> {
    if 0 <= k < split_char(s, c).len() {
        split_char(s, c)[k]
    } else {
        seq![]
    }
}

/// The pieces of `s` between the occurrences of `c`.
pub fn split_char_exec(s: &Vec<char>, c: char) -> (r: Vec<Vec<char>>)
    ensures
        r@.map_values(|v: Vec<char>| v@) == split_char(s@, c),
{
    let mut out: Vec<Vec<char>> = Vec::new();
    let mut start: usize = 0;
    let mut k: usize = 0;
    let ghost sep = seq![c];
    assert(s@.subrange(0, s@.len() as int) =~= s@);
    assert(out@.map_values(|v: Vec<char>| v@) + split_char(s@.subrange(0, s@.len() as int), c) =~= split_char(s@, c));
    while k < s.len()
        invariant
            start <= k <= s.len(),
            sep == seq![c],
            forall|j: int| start <= j < k ==> s@[j] != c,
            out@.map_values(|v: Vec<char>| v@) + split_char(s@.subrange(start as int, s@.len() as int), c) == split_char(s@, c),
        decreases s.len() - k,
    {
        if s[k] == c {
            let ghost rest = s@.subrange(start as int, s@.len() as int);
            proof {
                lemma_find_from_bounds(rest, sep, 0);
                assert(occurs_at(rest, sep, k - start)) by {
                    assert(rest.subrange(k - start, k - start + 1) =~= sep);
                }
                assert forall|j: int| 0 <= j < k - start implies !occurs_at(rest, sep, j) by {
                    assert(rest.subrange(j, j + 1)[0] == s@[start + j]);
                }
                assert(find_from(rest, sep, 0) == Some(k - start)) by {
                    if find_from(rest, sep, 0) is None {
                        assert(!occurs_at(rest, sep, k - start));
                    } else {
                        let j = find_from(rest, sep, 0)->0;
                        assert(!(j < k - start));
                        assert(!(j > k - start));
                    }
                }
                assert(rest.subrange(0, k - start) =~= s@.subrange(start as int, k as int));
                assert(rest.subrange(k - start + 1, rest.len() as int) =~= s@.subrange(k + 1, s@.len() as int));
            }
            let piece = copy_range(s, start, k);
            let ghost before = out@.map_values(|v: Vec<char>| v@);
            out.push(piece);
            proof {
                assert(out@.map_values(|v: Vec<char>| v@) =~= before.push(s@.subrange(start as int, k as int)));
                let tail = split_char(s@.subrange(k + 1, s@.len() as int), c);
                assert(before + (seq![s@.subrange(start as int, k as int)] + tail) =~= before.push(s@.subrange(start as int, k as int)) + tail);
            }
            start = k + 1;
        }
        k += 1;
    }
    let ghost rest = s@.subrange(start as int, s@.len() as int);
    proof {
        lemma_find_from_bounds(rest, sep, 0);
        if find_from(rest, sep, 0) is Some {
            let j = find_from(rest, sep, 0)->0;
            assert(rest.subrange(j, j + 1)[0] == s@[start + j]);
        }
    }
    let last = copy_range(s, start, s.len());
    let ghost before = out@.map_values(|v: Vec<char>| v@);
    out.push(last);
    proof {
        assert(out@.map_values(|v: Vec<char>| v@) =~= before + seq![rest]);
    }
    out
}

/// Whether two strings hold the same characters.
pub fn str_eq(a: &str, b: &str) -> (r: bool)
    ensures
        r == (a@ == b@),
{
    let va = chars_of(a);
    let vb = chars_of(b);
    if va.len() != vb.len() {
        return false;
    }
    let r = occurs_at_exec(&va, &vb, 0);
    assert(va@.subrange(0, vb@.len() as int) =~= va@);
    r
}

/// `s` with every `from` written as `to`.
pub open spec fn replace_char(s: Seq<char>, from: char, to: char) -> Seq<char> {
    s.map_values(|c: char| if c == from { to } else { c })
}

pub fn replace_char_exec(s: &str, from: char, to: char) -> (r: String)
    ensures
        r@ == replace_char(s@, from, to),
{
    let v = chars_of(s);
    let mut r = String::new();
    let mut k: usize = 0;
    while k < v.len()
        invariant
            k <= v.len(),
            v@ == s@,
            r@ == replace_char(v@.take(k as int), from, to),
        decreases v.len() - k,
    {
        let c = v[k];
        if c == from {
            push_char(&mut r, to);
        } else {
            push_char(&mut r, c);
        }
        k += 1;
        assert(r@ =~= replace_char(v@.take(k as int), from, to));
    }
    assert(v@.take(k as int) =~= v@);
    r
}

/// Whether `p` occurs somewhere in `s`.
pub open spec fn contains_seq(s: Seq<char>, p: Seq<char>) -> bool {
    find_from(s, p, 0) is Some
}

pub fn str_contains(s: &str, p: &str) -> (b: bool)
    ensures
        b == contains_seq(s@, p@),
{
    let vs = chars_of(s);
    let vp = chars_of(p);
    find_exec(&vs, &vp).is_some()
}

/// `str::trim_end_matches`: `s` without every trailing copy of `p`.
pub open spec fn trim_end_matches(s: Seq<char>, p: Seq<char>) -> Seq<char>
    decreases s.len(),
{
    if p.len() > 0 && ends_with(s, p) {
        trim_end_matches(s.take(s.len() - p.len()), p)
    } else {
        s
    }
}

pub fn trim_end_matches_exec(s: &str, p: &str) -> (r: String)
    ensures
        r@ == trim_end_matches(s@, p@),
{
    let v = chars_of(s);
    let pv = chars_of(p);
    if pv.len() == 0 {
        return string_of(&v, 0, v.len());
    }
    let mut end: usize = v.len();
    assert(v@.take(end as int) =~= v@);
    while end >= pv.len() && occurs_at_exec(&v, &pv, end - pv.len())
        invariant
            pv@.len() > 0,
            end <= v@.len(),
            v@ == s@,
            pv@ == p@,
            trim_end_matches(s@, p@) == trim_end_matches(v@.take(end as int), pv@),
        decreases end,
    {
        let ghost t = v@.take(end as int);
        assert(t.subrange(t.len() - pv@.len(), t.len() as int) =~= v@.subrange(end - pv@.len(), end as int));
        assert(t.take(t.len() - pv@.len()) =~= v@.take(end - pv@.len()));
        end = end - pv.len();
    }
    proof {
        let t = v@.take(end as int);
        if end >= pv.len() {
            assert(t.subrange(t.len() - pv@.len(), t.len() as int) =~= v@.subrange(end - pv@.len(), end as int));
        }
    }
    string_of(&v, 0, end)
}

} // verus!
