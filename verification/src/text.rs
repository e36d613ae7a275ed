use vstd::prelude::*;

verus! {

broadcast use vstd::string::group_string_axioms;

// --- characters ---------------------------------------------------------------

/// Unicode `White_Space`, the set `char::is_whitespace` and `str::trim`
/// recognise.
pub open spec fn is_ws(c: char) -> bool {
    let u = c as u32;
    ||| (0x09 <= u && u <= 0x0d)
    ||| u == 0x20
    ||| u == 0x85
    ||| u == 0xa0
    ||| u == 0x1680
    ||| (0x2000 <= u && u <= 0x200a)
    ||| u == 0x2028
    ||| u == 0x2029
    ||| u == 0x202f
    ||| u == 0x205f
    ||| u == 0x3000
}

/// Whether `c` is Unicode whitespace.
pub fn char_is_ws(c: char) -> (r: bool)
    ensures
        r == is_ws(c),
{
    let u = c as u32;
    (0x09 <= u && u <= 0x0d) || u == 0x20 || u == 0x85 || u == 0xa0 || u == 0x1680 || (0x2000
        <= u && u <= 0x200a) || u == 0x2028 || u == 0x2029 || u == 0x202f || u == 0x205f || u
        == 0x3000
}

/// The characters of `s`, in order.
pub fn chars_of(s: &str) -> (v: Vec<char>)
    ensures
        v@ == s@,
{
    let mut v: Vec<char> = Vec::new();
    for c in it: s.chars()
        invariant
            v@ == it.seq().take(it.index() as int),
    {
        v.push(c);
    }
    assert(v@ =~= s@);
    v
}

// --- building strings -----------------------------------------------------------

/// Appends one character to `s`.
#[verifier::external_body]
pub(crate) fn push_char(s: &mut String, c: char)
    ensures
        final(s)@ == old(s)@.push(c),
{
    s.push(c);
}

/// Appends `t` to `s`.
pub fn push_str(s: &mut String, t: &str)
    ensures
        final(s)@ == old(s)@ + t@,
{
    let v = chars_of(t);
    push_chars(s, &v, 0, v.len());
}

/// Appends `v[from..to]` to `s`.
pub fn push_chars(s: &mut String, v: &Vec<char>, from: usize, to: usize)
    requires
        from <= to <= v@.len(),
    ensures
        final(s)@ == old(s)@ + v@.subrange(from as int, to as int),
{
    let mut i = from;
    while i < to
        invariant
            from <= i <= to <= v@.len(),
            s@ == old(s)@ + v@.subrange(from as int, i as int),
        decreases to - i,
    {
        push_char(s, v[i]);
        assert(v@.subrange(from as int, i + 1) =~= v@.subrange(from as int, i as int).push(v@[i as int]));
        i += 1;
    }
}

/// A new string holding `v[from..to]`.
pub fn string_of(v: &Vec<char>, from: usize, to: usize) -> (r: String)
    requires
        from <= to <= v@.len(),
    ensures
        r@ == v@.subrange(from as int, to as int),
{
    let mut r = String::new();
    push_chars(&mut r, v, from, to);
    r
}

/// A new string holding `s`.
pub fn string_from(s: &str) -> (r: String)
    ensures
        r@ == s@,
{
    let mut r = String::new();
    push_str(&mut r, s);
    r
}

// --- decimal numbers --------------------------------------------------------------

/// The ASCII digit for `d < 10`.
pub open spec fn digit(d: int) -> char {
    ((d + 48) as u32) as char
}

/// Decimal rendering of a natural number, as `Display` writes it.
pub open spec fn decimal(n: nat) -> Seq<char>
    decreases n,
{
    if n < 10 {
        seq![digit(n as int)]
    } else {
        decimal(n / 10) + seq![digit((n % 10) as int)]
    }
}

/// Appends the decimal rendering of `n` to `s`.
pub fn push_decimal(s: &mut String, n: u64)
    ensures
        final(s)@ == old(s)@ + decimal(n as nat),
    decreases n,
{
    if n >= 10 {
        push_decimal(s, n / 10);
    }
    let d = (n % 10) as u32;
    let c = char_of_digit(d);
    push_char(s, c);
    proof {
        if n >= 10 {
            assert(decimal(n as nat) == decimal((n / 10) as nat) + seq![digit((n % 10) as int)]);
        }
    }
}

fn char_of_digit(d: u32) -> (c: char)
    requires
        d < 10,
    ensures
        c == digit(d as int),
{
    match d {
        0 => '0',
        1 => '1',
        2 => '2',
        3 => '3',
        4 => '4',
        5 => '5',
        6 => '6',
        7 => '7',
        8 => '8',
        _ => '9',
    }
}

/// Whether `c` is an ASCII decimal digit.
pub open spec fn is_digit(c: char) -> bool {
    '0' <= c && c <= '9'
}

/// The value of the digit string `s` (every character a digit).
pub open spec fn digits_value(s: Seq<char>) -> nat
    decreases s.len(),
{
    if s.len() == 0 {
        0
    } else {
        digits_value(s.drop_last()) * 10 + ((s.last() as u32) - 48) as nat
    }
}

/// `str::parse::<usize>`: an optional `+`, then one or more ASCII digits whose
/// value fits in `usize`.
pub open spec fn parse_usize(s: Seq<char>) -> Option<nat> {
    let d = unsigned_digits(s);
    if d.len() == 0 || !all_digits(d) || digits_value(d) > usize::MAX {
        None
    } else {
        Some(digits_value(d))
    }
}

/// `s` without the one leading `+` that an unsigned parse accepts.
pub open spec fn unsigned_digits(s: Seq<char>) -> Seq<char> {
    if s.len() > 0 && s[0] == '+' {
        s.skip(1)
    } else {
        s
    }
}

/// Every character of `d` is an ASCII digit.
pub open spec fn all_digits(d: Seq<char>) -> bool {
    forall|i: int| 0 <= i < d.len() ==> is_digit(#[trigger] d[i])
}

/// Parses `v[from..to]` as `str::parse::<usize>` does.
pub fn parse_usize_in(v: &Vec<char>, from: usize, to: usize) -> (r: Option<usize>)
    requires
        from <= to <= v@.len(),
    ensures
        match parse_usize(v@.subrange(from as int, to as int)) {
            Some(n) => r == Some(n as usize),
            None => r is None,
        },
{
    let ghost s = v@.subrange(from as int, to as int);
    let mut start = from;
    if from < to && v[from] == '+' {
        start = from + 1;
    }
    let ghost d = v@.subrange(start as int, to as int);
    assert(d =~= unsigned_digits(s));
    if start == to {
        return None;
    }
    let mut acc: usize = 0;
    let mut i = start;
    while i < to
        invariant
            from <= start < to <= v@.len(),
            start <= i <= to,
            d == v@.subrange(start as int, to as int),
            s == v@.subrange(from as int, to as int),
            d == unsigned_digits(s),
            d.len() > 0,
            forall|k: int| 0 <= k < i - start ==> is_digit(#[trigger] d[k]),
            acc as nat == digits_value(v@.subrange(start as int, i as int)),
        decreases to - i,
    {
        let c = v[i];
        if !('0' <= c && c <= '9') {
            assert(!is_digit(d[i - start]));
            assert(exists|k: int| 0 <= k < d.len() && !is_digit(#[trigger] d[k]));
            assert(parse_usize(s) is None);
            return None;
        }
        let dv = (c as u32 - 48) as usize;
        assert(v@.subrange(start as int, i + 1).drop_last() =~= v@.subrange(start as int, i as int));
        if acc > (usize::MAX - dv) / 10 {
            proof {
                assert(d.take((i - start) as int + 1) =~= v@.subrange(start as int, i + 1));
                assert(digits_value(v@.subrange(start as int, i + 1)) == acc * 10 + dv);
                assert(acc * 10 + dv > usize::MAX) by (nonlinear_arith)
                    requires
                        acc > (usize::MAX - dv) / 10,
                        dv <= 9,
                ;
                if all_digits(d) {
                    lemma_digits_monotone(d, (i - start) as int + 1);
                    assert(digits_value(d) > usize::MAX);
                }
                assert(parse_usize(s) is None);
            }
            return None;
        }
        acc = acc * 10 + dv;
        i += 1;
    }
    assert(v@.subrange(start as int, i as int) =~= d);
    Some(acc)
}

proof fn lemma_digits_monotone(d: Seq<char>, k: int)
    requires
        0 <= k <= d.len(),
        forall|i: int| 0 <= i < d.len() ==> is_digit(#[trigger] d[i]),
    ensures
        digits_value(d) >= digits_value(d.take(k)),
    decreases d.len(),
{
    if k < d.len() {
        assert(d.drop_last().take(k) =~= d.take(k));
        lemma_digits_monotone(d.drop_last(), k);
    } else {
        assert(d.take(k) =~= d);
    }
}

} // verus!

verus! {

// --- lines ----------------------------------------------------------------------

/// Index of the first `\n` at or after `i`, or `s.len()` when there is none.
pub open spec fn first_nl_from(s: Seq<char>, i: int) -> int
    decreases s.len() - i,
{
    if i >= s.len() {
        s.len() as int
    } else if s[i] == '\n' {
        i
    } else {
        first_nl_from(s, i + 1)
    }
}

pub proof fn lemma_first_nl_bounds(s: Seq<char>, i: int)
    requires
        0 <= i,
    ensures
        i <= first_nl_from(s, i) || (i > s.len() && first_nl_from(s, i) == s.len()),
        first_nl_from(s, i) <= s.len() || i > s.len(),
        first_nl_from(s, i) < s.len() ==> s[first_nl_from(s, i)] == '\n',
        forall|k: int| i <= k < first_nl_from(s, i) ==> s[k] != '\n',
    decreases s.len() - i,
{
    if i < s.len() && s[i] != '\n' {
        lemma_first_nl_bounds(s, i + 1);
    }
}

/// A line body without the `\r` of a `\r\n` ending.
pub open spec fn strip_cr(l: Seq<char>) -> Seq<char> {
    if l.len() > 0 && l.last() == '\r' {
        l.drop_last()
    } else {
        l
    }
}

/// `str::lines` from index `i`: split at `\n`, drop one `\r` before each `\n`,
/// and no empty line after a final `\n`.
pub open spec fn lines_from(s: Seq<char>, i: int) -> Seq<Seq<char>>
    decreases s.len() - i,
{
    if i < 0 || i >= s.len() {
        seq![]
    } else {
        let k = first_nl_from(s, i);
        proof {
            lemma_first_nl_bounds(s, i);
        }
        if k >= s.len() {
            seq![s.subrange(i, s.len() as int)]
        } else {
            seq![strip_cr(s.subrange(i, k))] + lines_from(s, k + 1)
        }
    }
}

/// The lines of `s`, as `str::lines` yields them.
pub open spec fn lines(s: Seq<char>) -> Seq<Seq<char>> {
    lines_from(s, 0)
}

/// The `(start, end)` bounds in `v` of each of its lines.
pub fn line_bounds(v: &Vec<char>) -> (out: Vec<(usize, usize)>)
    ensures
        out@.len() == lines(v@).len(),
        forall|k: int|
            0 <= k < out@.len() ==> {
                let (a, b) = #[trigger] out@[k];
                &&& a <= b <= v@.len()
                &&& v@.subrange(a as int, b as int) == lines(v@)[k]
            },
{
    let n = v.len();
    let mut out: Vec<(usize, usize)> = Vec::new();
    let mut start: usize = 0;
    let ghost mut done: Seq<Seq<char>> = seq![];
    while start < n
        invariant
            n == v@.len(),
            start <= n,
            lines(v@) == done + lines_from(v@, start as int),
            done.len() == out@.len(),
            forall|k: int|
                0 <= k < out@.len() ==> {
                    let (a, b) = #[trigger] out@[k];
                    &&& a <= b <= v@.len()
                    &&& v@.subrange(a as int, b as int) == done[k]
                },
        decreases n - start,
    {
        let mut j = start;
        while j < n && v[j] != '\n'
            invariant
                n == v@.len(),
                start <= j <= n,
                first_nl_from(v@, start as int) == first_nl_from(v@, j as int),
            decreases n - j,
        {
            j += 1;
        }
        proof {
            lemma_first_nl_bounds(v@, start as int);
        }
        assert(first_nl_from(v@, start as int) == j);
        if j == n {
            proof {
                done = done.push(v@.subrange(start as int, n as int));
            }
            out.push((start, n));
            assert(lines_from(v@, n as int) =~= seq![]);
            assert(lines(v@) =~= done);
            start = n;
        } else {
            let end = if j > start && v[j - 1] == '\r' { j - 1 } else { j };
            proof {
                let l = v@.subrange(start as int, j as int);
                assert(strip_cr(l) =~= v@.subrange(start as int, end as int));
                assert(lines_from(v@, start as int) == seq![strip_cr(l)] + lines_from(v@, j + 1));
                done = done.push(strip_cr(l));
                assert(lines(v@) =~= done + lines_from(v@, j + 1));
            }
            out.push((start, end));
            start = j + 1;
        }
    }
    assert(lines_from(v@, start as int) =~= seq![]);
    assert(lines(v@) =~= done);
    out
}

// --- prefixes, suffixes, search ----------------------------------------------------

/// `str::starts_with` for a string pattern.
pub open spec fn starts_with(s: Seq<char>, p: Seq<char>) -> bool {
    p.len() <= s.len() && s.take(p.len() as int) == p
}

/// `str::ends_with` for a string pattern.
pub open spec fn ends_with(s: Seq<char>, p: Seq<char>) -> bool {
    p.len() <= s.len() && s.skip(s.len() - p.len()) == p
}

/// Whether `v[from..to]` starts with `p`.
pub fn span_starts_with(v: &Vec<char>, from: usize, to: usize, p: &Vec<char>) -> (r: bool)
    requires
        from <= to <= v@.len(),
    ensures
        r == starts_with(v@.subrange(from as int, to as int), p@),
{
    let ghost s = v@.subrange(from as int, to as int);
    if p.len() > to - from {
        return false;
    }
    let mut i: usize = 0;
    while i < p.len()
        invariant
            from <= to <= v@.len(),
            p@.len() <= to - from,
            s == v@.subrange(from as int, to as int),
            0 <= i <= p@.len(),
            forall|k: int| 0 <= k < i ==> s[k] == p@[k],
        decreases p@.len() - i,
    {
        if v[from + i] != p[i] {
            assert(s.take(p@.len() as int)[i as int] != p@[i as int]);
            return false;
        }
        i += 1;
    }
    assert(s.take(p@.len() as int) =~= p@);
    true
}

/// Whether `v[from..to]` ends with `p`.
pub fn span_ends_with(v: &Vec<char>, from: usize, to: usize, p: &Vec<char>) -> (r: bool)
    requires
        from <= to <= v@.len(),
    ensures
        r == ends_with(v@.subrange(from as int, to as int), p@),
{
    let ghost s = v@.subrange(from as int, to as int);
    if p.len() > to - from {
        return false;
    }
    let base = to - p.len();
    let r = span_starts_with(v, base, to, p);
    assert(v@.subrange(base as int, to as int) =~= s.skip(s.len() - p@.len()));
    assert(v@.subrange(base as int, to as int).take(p@.len() as int) =~= v@.subrange(base as int, to as int));
    r
}

/// Whether `p` occurs in `s` at index `i`.
pub open spec fn occurs_at(s: Seq<char>, i: int, p: Seq<char>) -> bool {
    0 <= i && i + p.len() <= s.len() && s.subrange(i, i + p.len()) == p
}

/// The first index at or after `i` where `p` occurs in `s`.
pub open spec fn find_from(s: Seq<char>, p: Seq<char>, i: int) -> Option<int>
    decreases s.len() + 1 - i,
{
    if i < 0 || i + p.len() > s.len() {
        None
    } else if occurs_at(s, i, p) {
        Some(i)
    } else {
        find_from(s, p, i + 1)
    }
}

pub proof fn lemma_find_from(s: Seq<char>, p: Seq<char>, i: int)
    requires
        0 <= i,
    ensures
        find_from(s, p, i) matches Some(k) ==> i <= k && occurs_at(s, k, p) && forall|j: int|
            i <= j < k ==> !occurs_at(s, j, p),
        find_from(s, p, i) is None ==> forall|j: int| i <= j ==> !occurs_at(s, j, p),
    decreases s.len() + 1 - i,
{
    if i + p.len() <= s.len() && !occurs_at(s, i, p) {
        lemma_find_from(s, p, i + 1);
    }
}

/// `str::find` for a string pattern.
pub open spec fn find(s: Seq<char>, p: Seq<char>) -> Option<int> {
    find_from(s, p, 0)
}

/// `str::find` over `v[from..to]`, as an index relative to `from`.
pub fn span_find(v: &Vec<char>, from: usize, to: usize, p: &Vec<char>) -> (r: Option<usize>)
    requires
        from <= to <= v@.len(),
    ensures
        match find(v@.subrange(from as int, to as int), p@) {
            Some(i) => r == Some(i as usize),
            None => r is None,
        },
        r matches Some(i) ==> i + p@.len() <= to - from,
{
    proof {
        lemma_find_from(v@.subrange(from as int, to as int), p@, 0);
    }
    let ghost s = v@.subrange(from as int, to as int);
    let mut i: usize = 0;
    while i <= to - from && p.len() <= to - from - i
        invariant
            from <= to <= v@.len(),
            i <= to - from + 1,
            s == v@.subrange(from as int, to as int),
            find(s, p@) == find_from(s, p@, i as int),
        decreases to - from + 1 - i,
    {
        let here = span_starts_with(v, from + i, to, p);
        proof {
            let t = v@.subrange((from + i) as int, to as int);
            if p@.len() <= t.len() {
                assert(t.take(p@.len() as int) =~= s.subrange(i as int, i + p@.len()));
            }
        }
        if here {
            return Some(i);
        }
        if i == to - from {
            assert(find_from(s, p@, i + 1) is None);
            return None;
        }
        i += 1;
    }
    None
}

// --- whitespace ------------------------------------------------------------------

/// Index of the first non-whitespace character at or after `i`.
pub open spec fn ws_lead_from(s: Seq<char>, i: int) -> int
    decreases s.len() - i,
{
    if 0 <= i < s.len() && is_ws(s[i]) {
        ws_lead_from(s, i + 1)
    } else {
        i
    }
}

/// One past the last non-whitespace character before `j`.
pub open spec fn ws_trail_to(s: Seq<char>, j: int) -> int
    decreases j,
{
    if 0 < j <= s.len() && is_ws(s[j - 1]) {
        ws_trail_to(s, j - 1)
    } else {
        j
    }
}

/// `str::trim_start`.
pub open spec fn trim_start(s: Seq<char>) -> Seq<char> {
    s.subrange(ws_lead_from(s, 0), s.len() as int)
}

/// `str::trim_end`.
pub open spec fn trim_end(s: Seq<char>) -> Seq<char> {
    s.subrange(0, ws_trail_to(s, s.len() as int))
}

/// `str::trim`.
pub open spec fn trim(s: Seq<char>) -> Seq<char> {
    trim_end(trim_start(s))
}

pub proof fn lemma_ws_lead_bounds(s: Seq<char>, i: int)
    requires
        0 <= i <= s.len(),
    ensures
        i <= ws_lead_from(s, i) <= s.len(),
        forall|k: int| i <= k < ws_lead_from(s, i) ==> is_ws(s[k]),
        ws_lead_from(s, i) < s.len() ==> !is_ws(s[ws_lead_from(s, i)]),
    decreases s.len() - i,
{
    if i < s.len() && is_ws(s[i]) {
        lemma_ws_lead_bounds(s, i + 1);
    }
}

pub proof fn lemma_ws_trail_bounds(s: Seq<char>, j: int)
    requires
        0 <= j <= s.len(),
    ensures
        0 <= ws_trail_to(s, j) <= j,
        forall|k: int| ws_trail_to(s, j) <= k < j ==> is_ws(s[k]),
        ws_trail_to(s, j) > 0 ==> !is_ws(s[ws_trail_to(s, j) - 1]),
    decreases j,
{
    if 0 < j && is_ws(s[j - 1]) {
        lemma_ws_trail_bounds(s, j - 1);
    }
}

/// The bounds of `trim(v[from..to])` inside `v`.
pub fn span_trim(v: &Vec<char>, from: usize, to: usize) -> (r: (usize, usize))
    requires
        from <= to <= v@.len(),
    ensures
        from <= r.0 <= r.1 <= to,
        v@.subrange(r.0 as int, r.1 as int) == trim(v@.subrange(from as int, to as int)),
{
    let ghost s = v@.subrange(from as int, to as int);
    let mut a = from;
    while a < to && char_is_ws(v[a])
        invariant
            from <= a <= to <= v@.len(),
            s == v@.subrange(from as int, to as int),
            ws_lead_from(s, 0) == ws_lead_from(s, a - from),
        decreases to - a,
    {
        a += 1;
    }
    let ghost t = s.subrange(a - from, s.len() as int);
    proof {
        lemma_ws_lead_bounds(s, (a - from) as int);
        assert(trim_start(s) == t);
    }
    let mut b = to;
    while b > a && char_is_ws(v[b - 1])
        invariant
            from <= a <= b <= to <= v@.len(),
            s == v@.subrange(from as int, to as int),
            t == s.subrange(a - from, s.len() as int),
            ws_trail_to(t, t.len() as int) == ws_trail_to(t, b - a),
        decreases b,
    {
        b -= 1;
    }
    proof {
        lemma_ws_trail_bounds(t, (b - a) as int);
        assert(v@.subrange(a as int, b as int) =~= t.subrange(0, (b - a) as int));
    }
    (a, b)
}

/// `s.trim()` as an owned string.
pub fn trimmed(s: &str) -> (r: String)
    ensures
        r@ == trim(s@),
{
    let v = chars_of(s);
    let (a, b) = span_trim(&v, 0, v.len());
    assert(v@.subrange(0, v@.len() as int) =~= v@);
    string_of(&v, a, b)
}

/// Index of the first whitespace character at or after `i` (or `s.len()`).
pub open spec fn run_end_from(s: Seq<char>, i: int) -> int
    decreases s.len() - i,
{
    if 0 <= i < s.len() && !is_ws(s[i]) {
        run_end_from(s, i + 1)
    } else {
        i
    }
}

pub proof fn lemma_run_end_bounds(s: Seq<char>, i: int)
    requires
        0 <= i <= s.len(),
    ensures
        i <= run_end_from(s, i) <= s.len(),
        forall|k: int| i <= k < run_end_from(s, i) ==> !is_ws(s[k]),
        run_end_from(s, i) < s.len() ==> is_ws(s[run_end_from(s, i)]),
    decreases s.len() - i,
{
    if i < s.len() && !is_ws(s[i]) {
        lemma_run_end_bounds(s, i + 1);
    }
}

/// `str::split_whitespace` from index `i`: the maximal non-empty runs of
/// non-whitespace characters.
pub open spec fn words_from(s: Seq<char>, i: int) -> Seq<Seq<char>>
    decreases s.len() - i,
{
    if i < 0 || i >= s.len() {
        seq![]
    } else {
        let a = ws_lead_from(s, i);
        proof {
            lemma_ws_lead_bounds(s, i);
        }
        if a >= s.len() {
            seq![]
        } else {
            let b = run_end_from(s, a);
            proof {
                lemma_run_end_bounds(s, a);
            }
            seq![s.subrange(a, b)] + words_from(s, b)
        }
    }
}

/// `str::split_whitespace`.
pub open spec fn words(s: Seq<char>) -> Seq<Seq<char>> {
    words_from(s, 0)
}

/// The bounds in `v` of each whitespace-separated word of `v[from..to]`.
pub fn span_words(v: &Vec<char>, from: usize, to: usize) -> (out: Vec<(usize, usize)>)
    requires
        from <= to <= v@.len(),
    ensures
        out@.len() == words(v@.subrange(from as int, to as int)).len(),
        forall|k: int|
            0 <= k < out@.len() ==> {
                let (a, b) = #[trigger] out@[k];
                &&& from <= a <= b <= to
                &&& v@.subrange(a as int, b as int) == words(v@.subrange(from as int, to as int))[k]
            },
{
    let ghost s = v@.subrange(from as int, to as int);
    let mut out: Vec<(usize, usize)> = Vec::new();
    let ghost mut done: Seq<Seq<char>> = seq![];
    let mut i = from;
    while i < to
        invariant
            from <= i <= to <= v@.len(),
            s == v@.subrange(from as int, to as int),
            words(s) == done + words_from(s, i - from),
            done.len() == out@.len(),
            forall|k: int|
                0 <= k < out@.len() ==> {
                    let (a, b) = #[trigger] out@[k];
                    &&& from <= a <= b <= to
                    &&& v@.subrange(a as int, b as int) == done[k]
                },
        decreases to - i,
    {
        let mut a = i;
        while a < to && char_is_ws(v[a])
            invariant
                from <= i <= a <= to <= v@.len(),
                s == v@.subrange(from as int, to as int),
                ws_lead_from(s, i - from) == ws_lead_from(s, a - from),
            decreases to - a,
        {
            a += 1;
        }
        proof {
            lemma_ws_lead_bounds(s, (a - from) as int);
        }
        if a == to {
            assert(words_from(s, i - from) =~= seq![]);
            assert(words(s) =~= done);
            i = to;
        } else {
            let mut b = a;
            while b < to && !char_is_ws(v[b])
                invariant
                    from <= a <= b <= to <= v@.len(),
                    s == v@.subrange(from as int, to as int),
                    run_end_from(s, a - from) == run_end_from(s, b - from),
                decreases to - b,
            {
                b += 1;
            }
            proof {
                lemma_run_end_bounds(s, (b - from) as int);
                assert(v@.subrange(a as int, b as int) =~= s.subrange(a - from, b - from));
                done = done.push(s.subrange(a - from, b - from));
                assert(words(s) =~= done + words_from(s, b - from));
            }
            out.push((a, b));
            i = b;
        }
    }
    assert(words_from(s, i - from) =~= seq![]);
    assert(words(s) =~= done);
    out
}


/// The bounds of `trim_start(v[from..to])` inside `v`.
pub fn span_trim_start(v: &Vec<char>, from: usize, to: usize) -> (r: (usize, usize))
    requires
        from <= to <= v@.len(),
    ensures
        from <= r.0 <= r.1 == to,
        v@.subrange(r.0 as int, r.1 as int) == trim_start(v@.subrange(from as int, to as int)),
{
    let ghost s = v@.subrange(from as int, to as int);
    let mut a = from;
    while a < to && char_is_ws(v[a])
        invariant
            from <= a <= to <= v@.len(),
            s == v@.subrange(from as int, to as int),
            ws_lead_from(s, 0) == ws_lead_from(s, a - from),
        decreases to - a,
    {
        a += 1;
    }
    proof {
        lemma_ws_lead_bounds(s, (a - from) as int);
        assert(v@.subrange(a as int, to as int) =~= trim_start(s));
    }
    (a, to)
}


/// `str::parse::<u32>`.
pub open spec fn parse_u32(s: Seq<char>) -> Option<nat> {
    let d = unsigned_digits(s);
    if d.len() == 0 || !all_digits(d) || digits_value(d) > u32::MAX {
        None
    } else {
        Some(digits_value(d))
    }
}

/// Parses `v[from..to]` as `str::parse::<u32>` does.
pub fn parse_u32_in(v: &Vec<char>, from: usize, to: usize) -> (r: Option<u32>)
    requires
        from <= to <= v@.len(),
    ensures
        match parse_u32(v@.subrange(from as int, to as int)) {
            Some(n) => r == Some(n as u32),
            None => r is None,
        },
{
    match parse_usize_in(v, from, to) {
        Some(n) => {
            if n <= 0xffff_ffffusize {
                Some(n as u32)
            } else {
                None
            }
        },
        None => None,
    }
}

/// Whether `v[from..to]` equals `p`.
pub fn span_eq(v: &Vec<char>, from: usize, to: usize, p: &Vec<char>) -> (r: bool)
    requires
        from <= to <= v@.len(),
    ensures
        r == (v@.subrange(from as int, to as int) == p@),
{
    if to - from != p.len() {
        return false;
    }
    let r = span_starts_with(v, from, to, p);
    assert(v@.subrange(from as int, to as int).take(p@.len() as int) =~= v@.subrange(
        from as int,
        to as int,
    ));
    r
}

/// The parts joined with `sep` between consecutive ones.
pub open spec fn join(parts: Seq<Seq<char>>, sep: Seq<char>) -> Seq<char>
    decreases parts.len(),
{
    if parts.len() == 0 {
        seq![]
    } else if parts.len() == 1 {
        parts[0]
    } else {
        join(parts.drop_last(), sep) + sep + parts.last()
    }
}

/// Joins the parts with `sep` between consecutive ones.
pub fn join_strings(parts: &Vec<String>, sep: &str) -> (r: String)
    ensures
        r@ == join(crate::sorting::views(parts@), sep@),
{
    let ghost pv = crate::sorting::views(parts@);
    let mut out = String::new();
    let mut i: usize = 0;
    while i < parts.len()
        invariant
            0 <= i <= parts@.len(),
            pv == crate::sorting::views(parts@),
            out@ == join(pv.take(i as int), sep@),
        decreases parts@.len() - i,
    {
        let ghost before = out@;
        if i > 0 {
            push_str(&mut out, sep);
        }
        push_str(&mut out, parts[i].as_str());
        assert(pv.take(i + 1).drop_last() =~= pv.take(i as int));
        assert(pv[i as int] == parts@[i as int]@);
        if i == 0 {
            assert(pv.take(1) =~= seq![pv[0]]);
            assert(out@ =~= before + pv[0]);
        }
        i += 1;
    }
    assert(pv.take(i as int) =~= pv);
    out
}

// --- UTF-8 byte cuts ------------------------------------------------------------------

/// The number of bytes `c` takes in UTF-8.
pub open spec fn utf8_width(c: char) -> nat {
    if (c as u32) < 0x80 {
        1
    } else if (c as u32) < 0x800 {
        2
    } else if (c as u32) < 0x10000 {
        3
    } else {
        4
    }
}

/// The number of bytes `s` takes in UTF-8.
pub open spec fn utf8_size(s: Seq<char>) -> nat
    decreases s.len(),
{
    if s.len() == 0 {
        0
    } else {
        utf8_size(s.drop_last()) + utf8_width(s.last())
    }
}

/// Cutting `s` at byte `n` (or at its end, when shorter) falls on a
/// character boundary, so slicing `&s[..n.min(s.len())]` does not panic.
pub open spec fn byte_cut_ok(s: Seq<char>, n: nat) -> bool {
    utf8_size(s) <= n || exists|k: int| 0 <= k <= s.len() && utf8_size(#[trigger] s.take(k)) == n
}

/// The characters of `s` within its first `n` bytes.
pub open spec fn byte_cut(s: Seq<char>, n: nat) -> Seq<char> {
    if utf8_size(s) <= n {
        s
    } else {
        s.take(choose|k: int| 0 <= k <= s.len() && utf8_size(#[trigger] s.take(k)) == n)
    }
}

pub proof fn lemma_utf8_size_grows(s: Seq<char>, j: int, k: int)
    requires
        0 <= j <= k <= s.len(),
    ensures
        utf8_size(s.take(j)) + (k - j) <= utf8_size(s.take(k)),
    decreases k - j,
{
    if j < k {
        lemma_utf8_size_grows(s, j, k - 1);
        assert(s.take(k).drop_last() =~= s.take(k - 1));
    }
}

fn char_width(c: char) -> (r: usize)
    ensures
        r == utf8_width(c),
{
    let u = c as u32;
    if u < 0x80 {
        1
    } else if u < 0x800 {
        2
    } else if u < 0x10000 {
        3
    } else {
        4
    }
}

/// `&s[..n.min(s.len())]`: the characters of `s` within its first `n` bytes.
pub fn cut_at_byte(s: &str, n: usize) -> (r: String)
    requires
        byte_cut_ok(s@, n as nat),
    ensures
        r@ == byte_cut(s@, n as nat),
{
    let v = chars_of(s);
    let ghost id = v@;
    let mut bytes: u128 = 0;
    let mut i: usize = 0;
    while i < v.len() && bytes < n as u128
        invariant
            0 <= i <= v@.len(),
            id == v@,
            bytes == utf8_size(id.take(i as int)),
            bytes < n + 4,
            forall|j: int| 0 <= j < i ==> utf8_size(#[trigger] id.take(j)) < n,
        decreases v@.len() - i,
    {
        proof {
            assert(id.take(i + 1).drop_last() =~= id.take(i as int));
        }
        bytes = bytes + char_width(v[i]) as u128;
        i += 1;
    }
    proof {
        assert(id.take(id.len() as int) =~= id);
        lemma_utf8_size_grows(id, i as int, id.len() as int);
        if bytes > n {
            let k = choose|k: int| 0 <= k <= id.len() && utf8_size(#[trigger] id.take(k)) == n;
            if k < i {
                assert(utf8_size(id.take(k)) < n);
            } else {
                lemma_utf8_size_grows(id, i as int, k);
            }
        }
        assert(bytes <= n);
        if i < v.len() {
            assert(bytes == n);
            assert(utf8_size(id) > n);
            let k = choose|k: int| 0 <= k <= id.len() && utf8_size(#[trigger] id.take(k)) == n;
            if k < i {
                assert(utf8_size(id.take(k)) < n);
            } else if k > i {
                lemma_utf8_size_grows(id, i as int, k);
            }
            assert(k == i);
        } else {
            assert(id.take(i as int) =~= id);
        }
    }
    string_of(&v, 0, i)
}

/// Whether two strings are equal, character by character.
pub fn str_eq(a: &str, b: &str) -> (r: bool)
    ensures
        r == (a@ == b@),
{
    let x = chars_of(a);
    let y = chars_of(b);
    assert(x@.subrange(0, x@.len() as int) =~= x@);
    span_eq(&x, 0, x.len(), &y)
}

/// Index of the last `c` before index `j`.
pub open spec fn rfind_char_to(s: Seq<char>, c: char, j: int) -> Option<int>
    decreases j,
{
    if j <= 0 || j > s.len() {
        None
    } else if s[j - 1] == c {
        Some(j - 1)
    } else {
        rfind_char_to(s, c, j - 1)
    }
}

/// `str::rfind` for one character.
pub open spec fn rfind_char(s: Seq<char>, c: char) -> Option<int> {
    rfind_char_to(s, c, s.len() as int)
}

pub proof fn lemma_rfind_char_to(s: Seq<char>, c: char, j: int)
    requires
        0 <= j <= s.len(),
    ensures
        rfind_char_to(s, c, j) matches Some(k) ==> 0 <= k < j && s[k] == c && forall|i: int|
            k < i < j ==> s[i] != c,
        rfind_char_to(s, c, j) is None ==> forall|i: int| 0 <= i < j ==> s[i] != c,
    decreases j,
{
    if j > 0 && s[j - 1] != c {
        lemma_rfind_char_to(s, c, j - 1);
    }
}

/// The last index of `c` in `v[from..to]`, relative to `from`.
pub fn span_rfind_char(v: &Vec<char>, from: usize, to: usize, c: char) -> (r: Option<usize>)
    requires
        from <= to <= v@.len(),
    ensures
        match rfind_char(v@.subrange(from as int, to as int), c) {
            Some(k) => r == Some(k as usize),
            None => r is None,
        },
        r matches Some(k) ==> k < to - from,
{
    let ghost s = v@.subrange(from as int, to as int);
    let mut j = to - from;
    while j > 0
        invariant
            from <= to <= v@.len(),
            s == v@.subrange(from as int, to as int),
            0 <= j <= to - from,
            rfind_char(s, c) == rfind_char_to(s, c, j as int),
        decreases j,
    {
        if v[from + j - 1] == c {
            return Some(j - 1);
        }
        j -= 1;
    }
    None
}

/// ASCII lower-casing of one character (`char::to_ascii_lowercase`).
pub open spec fn ascii_lower(c: char) -> char {
    if 'A' <= c && c <= 'Z' {
        ((c as u32) + 32) as char
    } else {
        c
    }
}

/// `str::to_ascii_lowercase`.
pub open spec fn ascii_lower_str(s: Seq<char>) -> Seq<char> {
    s.map_values(|c: char| ascii_lower(c))
}

/// `v[from..to]` with ASCII letters lower-cased.
pub fn span_ascii_lower(v: &Vec<char>, from: usize, to: usize) -> (r: Vec<char>)
    requires
        from <= to <= v@.len(),
    ensures
        r@ == ascii_lower_str(v@.subrange(from as int, to as int)),
{
    let mut r: Vec<char> = Vec::new();
    let mut i = from;
    while i < to
        invariant
            from <= i <= to <= v@.len(),
            r@ == ascii_lower_str(v@.subrange(from as int, i as int)),
        decreases to - i,
    {
        let c = v[i];
        let l = if 'A' <= c && c <= 'Z' {
            char_from_u32_exact((c as u32) + 32)
        } else {
            c
        };
        r.push(l);
        assert(ascii_lower_str(v@.subrange(from as int, i + 1)) =~= ascii_lower_str(
            v@.subrange(from as int, i as int),
        ).push(ascii_lower(c)));
        i += 1;
    }
    r
}

fn char_from_u32_exact(u: u32) -> (c: char)
    requires
        0x61 <= u <= 0x7a,
    ensures
        c == u as char,
{
    match u {
        0x61 => 'a', 0x62 => 'b', 0x63 => 'c', 0x64 => 'd', 0x65 => 'e', 0x66 => 'f',
        0x67 => 'g', 0x68 => 'h', 0x69 => 'i', 0x6a => 'j', 0x6b => 'k', 0x6c => 'l',
        0x6d => 'm', 0x6e => 'n', 0x6f => 'o', 0x70 => 'p', 0x71 => 'q', 0x72 => 'r',
        0x73 => 's', 0x74 => 't', 0x75 => 'u', 0x76 => 'v', 0x77 => 'w', 0x78 => 'x',
        0x79 => 'y', _ => 'z',
    }
}


// --- case mapping ------------------------------------------------------------------

/// What `str::to_uppercase` returns for `s` (full Unicode case mapping).
pub uninterp spec fn to_upper(s: Seq<char>) -> Seq<char>;

/// What `str::to_lowercase` returns for `s` (full Unicode case mapping).
pub uninterp spec fn to_lower(s: Seq<char>) -> Seq<char>;

/// `str::to_uppercase`.
#[verifier::external_body]
pub(crate) fn uppercase(s: &str) -> (r: String)
    ensures
        r@ == to_upper(s@),
{
    s.to_uppercase()
}

/// `str::to_lowercase`.
#[verifier::external_body]
pub(crate) fn lowercase(s: &str) -> (r: String)
    ensures
        r@ == to_lower(s@),
{
    s.to_lowercase()
}


// --- ordering --------------------------------------------------------------------

/// `a` sorts strictly before `b` comparing from index `i` on, character by
/// character by code point (the order of `str`'s `Ord`, which compares UTF-8
/// bytes).
pub open spec fn less_from(a: Seq<char>, b: Seq<char>, i: int) -> bool
    decreases a.len() - i,
{
    if i < 0 || i >= a.len() {
        0 <= i < b.len()
    } else if i >= b.len() {
        false
    } else if a[i] != b[i] {
        (a[i] as u32) < (b[i] as u32)
    } else {
        less_from(a, b, i + 1)
    }
}

/// `a < b` for strings.
pub open spec fn str_less(a: Seq<char>, b: Seq<char>) -> bool {
    less_from(a, b, 0)
}

proof fn lemma_less_from_irrefl(a: Seq<char>, i: int)
    requires
        0 <= i,
    ensures
        !less_from(a, a, i),
    decreases a.len() - i,
{
    if i < a.len() {
        lemma_less_from_irrefl(a, i + 1);
    }
}

proof fn lemma_less_from_trans(a: Seq<char>, b: Seq<char>, c: Seq<char>, i: int)
    requires
        0 <= i,
        less_from(a, b, i),
        less_from(b, c, i),
    ensures
        less_from(a, c, i),
    decreases a.len() - i,
{
    if i < a.len() && i < b.len() && i < c.len() && a[i] == b[i] && b[i] == c[i] {
        lemma_less_from_trans(a, b, c, i + 1);
    }
}

proof fn lemma_char_code_injective(x: char, y: char)
    ensures
        x != y ==> (x as u32) != (y as u32),
{
}

proof fn lemma_less_from_total(a: Seq<char>, b: Seq<char>, i: int)
    requires
        0 <= i <= a.len(),
        0 <= i <= b.len(),
        !less_from(a, b, i),
        !less_from(b, a, i),
    ensures
        a.skip(i) =~= b.skip(i),
    decreases a.len() - i,
{
    if i < a.len() && i < b.len() {
        if a[i] == b[i] {
            lemma_less_from_total(a, b, i + 1);
            assert forall|k: int| 0 <= k < a.skip(i).len() implies a.skip(i)[k] == b.skip(i)[k] by {
                if k > 0 {
                    assert(a.skip(i)[k] == a.skip(i + 1)[k - 1]);
                    assert(b.skip(i)[k] == b.skip(i + 1)[k - 1]);
                }
            }
        } else {
            lemma_char_code_injective(a[i], b[i]);
        }
    }
}

/// The string order is a strict total order.
pub proof fn lemma_str_less_order(a: Seq<char>, b: Seq<char>, c: Seq<char>)
    ensures
        !str_less(a, a),
        str_less(a, b) && str_less(b, c) ==> str_less(a, c),
        !str_less(a, b) && !str_less(b, a) ==> a == b,
{
    lemma_less_from_irrefl(a, 0);
    if str_less(a, b) && str_less(b, c) {
        lemma_less_from_trans(a, b, c, 0);
    }
    if !str_less(a, b) && !str_less(b, a) {
        lemma_less_from_total(a, b, 0);
        assert(a.skip(0) =~= a);
        assert(b.skip(0) =~= b);
    }
}

/// Whether `a < b` as strings.
pub fn str_lt(a: &str, b: &str) -> (r: bool)
    ensures
        r == str_less(a@, b@),
{
    let x = chars_of(a);
    let y = chars_of(b);
    let mut i: usize = 0;
    while i < x.len() && i < y.len() && x[i] == y[i]
        invariant
            x@ == a@,
            y@ == b@,
            i <= x@.len(),
            i <= y@.len(),
            str_less(a@, b@) == less_from(a@, b@, i as int),
        decreases x@.len() - i,
    {
        i += 1;
    }
    if i >= x.len() {
        i < y.len()
    } else if i >= y.len() {
        false
    } else {
        (x[i] as u32) < (y[i] as u32)
    }
}

// --- first line, leading characters --------------------------------------------------

/// The first line of `s` (`str::lines().next()`), empty when there is none.
pub open spec fn first_line_spec(s: Seq<char>) -> Seq<char> {
    if lines(s).len() > 0 {
        lines(s)[0]
    } else {
        seq![]
    }
}

/// The first line of `s`, or an empty string.
pub fn first_line_of(s: &str) -> (r: String)
    ensures
        r@ == first_line_spec(s@),
{
    let v = chars_of(s);
    let b = line_bounds(&v);
    if b.len() > 0 {
        let (x, y) = b[0];
        string_of(&v, x, y)
    } else {
        String::new()
    }
}

/// At most the first `n` characters of `s`.
pub open spec fn take_chars(s: Seq<char>, n: nat) -> Seq<char> {
    if s.len() <= n {
        s
    } else {
        s.take(n as int)
    }
}

/// At most the first `n` characters of `s`, without splitting a character.
pub fn truncate_chars(s: &str, n: usize) -> (r: String)
    ensures
        r@ == take_chars(s@, n as nat),
{
    let v = chars_of(s);
    let k = if v.len() <= n {
        v.len()
    } else {
        n
    };
    let r = string_of(&v, 0, k);
    assert(r@ =~= take_chars(s@, n as nat));
    r
}

} // verus!
