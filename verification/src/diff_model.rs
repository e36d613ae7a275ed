//! Diff display model: unified-diff row parsing, per-file section metadata,
//! and the display-row model the viewer pages over.

use vstd::prelude::*;

use crate::text::{lemma_rfind_char_to, ascii_lower_str, decimal, ends_with, parse_u32, parse_u32_in, push_decimal, push_str, rfind_char, span_ascii_lower, span_ends_with, span_eq, span_rfind_char, span_trim, trim, chars_of, line_bounds, lines, span_starts_with, span_trim_start, starts_with, string_from, string_of, trim_start, find, lemma_find_from, parse_usize, parse_usize_in, span_find, span_words, words};

verus! {

broadcast use vstd::string::group_string_axioms;

// --- row model ----------------------------------------------------------------

/// The kind of one parsed diff row.
#[derive(Clone, Copy, Debug, PartialEq, Eq, Structural)]
pub enum RowKind {
    Meta,
    /// Rename metadata, synthesized from the section scan: leads the content
    /// as its own full-width display row.
    RenameHeader,
    Hunk,
    Context,
    Del,
    Add,
}

/// One parsed diff row.
#[derive(Clone, Debug)]
pub struct Row {
    pub kind: RowKind,
    pub text: String,
    /// Owning hunk: the header's own ordinal for `Hunk` rows, the enclosing
    /// hunk for body rows; meta rows own hunk 0.
    pub hunk: usize,
    /// 0-based ordinal over the hunk's changed (+/-) lines, in order.
    pub line_ord: usize,
    /// 1-based old-file line number (0 when not applicable).
    pub old_no: usize,
    /// 1-based new-file line number (0 when not applicable).
    pub new_no: usize,
    /// Raw ordinal in the display model (parse order plus any leading rename
    /// header row).
    pub ord: usize,
}

/// The mathematical value of a [`Row`].
#[verifier::ext_equal]
pub struct RowView {
    pub kind: RowKind,
    pub text: Seq<char>,
    pub hunk: nat,
    pub line_ord: nat,
    pub old_no: nat,
    pub new_no: nat,
    pub ord: nat,
}

impl View for Row {
    type V = RowView;

    open spec fn view(&self) -> RowView {
        RowView {
            kind: self.kind,
            text: self.text@,
            hunk: self.hunk as nat,
            line_ord: self.line_ord as nat,
            old_no: self.old_no as nat,
            new_no: self.new_no as nat,
            ord: self.ord as nat,
        }
    }
}

/// `s` with one leading `c` removed, when it starts with `c`.
pub open spec fn strip_char(s: Seq<char>, c: char) -> Seq<char> {
    if s.len() > 0 && s[0] == c {
        s.skip(1)
    } else {
        s
    }
}

/// The first `,`-separated piece of `s` (`s.split(',').next()`).
pub open spec fn first_piece(s: Seq<char>) -> Seq<char> {
    match find(s, seq![',']) {
        Some(k) => s.take(k),
        None => s,
    }
}

/// The `(old, new)` start lines read from the whitespace words of a hunk
/// header, left to right, each starting at 1.
pub open spec fn starts_from_words(ws: Seq<Seq<char>>) -> (nat, nat)
    decreases ws.len(),
{
    if ws.len() == 0 {
        (1, 1)
    } else {
        let (o, n) = starts_from_words(ws.drop_last());
        let t = ws.last();
        if t.len() > 0 && t[0] == '-' {
            match parse_usize(first_piece(t.skip(1))) {
                Some(v) => (v, n),
                None => (o, n),
            }
        } else if t.len() > 0 && t[0] == '+' {
            match parse_usize(first_piece(t.skip(1))) {
                Some(v) => (o, v),
                None => (o, n),
            }
        } else {
            (o, n)
        }
    }
}

/// `@@ -a,b +c,d @@` gives `(a, c)`; each defaults to 1 when absent.
pub open spec fn hunk_starts_spec(header: Seq<char>) -> (nat, nat) {
    starts_from_words(words(header))
}

/// The start lines `(old, new)` of the hunk header `v[from..to]`.
pub fn hunk_starts(v: &Vec<char>, from: usize, to: usize) -> (r: (usize, usize))
    requires
        from <= to <= v@.len(),
    ensures
        r.0 as nat == hunk_starts_spec(v@.subrange(from as int, to as int)).0,
        r.1 as nat == hunk_starts_spec(v@.subrange(from as int, to as int)).1,
{
    let ghost s = v@.subrange(from as int, to as int);
    let ws = span_words(v, from, to);
    let mut old: usize = 1;
    let mut new: usize = 1;
    let mut i: usize = 0;
    let comma = vec![','];
    while i < ws.len()
        invariant
            from <= to <= v@.len(),
            s == v@.subrange(from as int, to as int),
            comma@ == seq![','],
            ws@.len() == words(s).len(),
            forall|k: int|
                0 <= k < ws@.len() ==> {
                    let (a, b) = #[trigger] ws@[k];
                    &&& from <= a <= b <= to
                    &&& v@.subrange(a as int, b as int) == words(s)[k]
                },
            0 <= i <= ws@.len(),
            (old as nat, new as nat) == starts_from_words(words(s).take(i as int)),
        decreases ws@.len() - i,
    {
        let (a, b) = ws[i];
        let ghost t = words(s)[i as int];
        assert(words(s).take(i + 1).drop_last() =~= words(s).take(i as int));
        if a < b && (v[a] == '-' || v[a] == '+') {
            let found = span_find(v, a + 1, b, &comma);
            let piece_end = match found {
                Some(k) => a + 1 + k,
                None => b,
            };
            proof {
                let r = t.skip(1);
                assert(v@.subrange(a + 1, b as int) =~= r);
                lemma_find_from(r, seq![','], 0);
                match find(r, seq![',']) {
                    Some(k) => {
                        assert(find(v@.subrange(a + 1, b as int), comma@) == Some(k));
                        assert(found == Some(k as usize));
                        assert(v@.subrange(a + 1, piece_end as int) =~= r.take(k));
                    },
                    None => {},
                }
                assert(v@.subrange(a + 1, piece_end as int) =~= first_piece(r));
            }
            match parse_usize_in(v, a + 1, piece_end) {
                Some(n) => {
                    if v[a] == '-' {
                        old = n;
                    } else {
                        new = n;
                    }
                },
                None => {},
            }
        }
        i += 1;
    }
    assert(words(s).take(ws@.len() as int) =~= words(s));
    (old, new)
}


/// The counters the parser threads from line to line.
pub struct ParseState {
    /// Number of hunk headers seen so far.
    pub hunk: nat,
    /// Ordinal of the hunk that encloses the current body line.
    pub enclosing: nat,
    /// Changed (+/-) lines seen so far in the current hunk.
    pub changed: nat,
    /// Next old-file line number.
    pub old_no: nat,
    /// Next new-file line number.
    pub new_no: nat,
}

/// Header and metadata lines that render as `Meta` rows.
pub open spec fn is_meta_line(l: Seq<char>) -> bool {
    ||| starts_with(l, "diff --git"@)
    ||| starts_with(l, "index "@)
    ||| starts_with(l, "---"@)
    ||| starts_with(l, "+++"@)
    ||| starts_with(l, "new file"@)
    ||| starts_with(l, "Binary"@)
    ||| (l.len() > 0 && l[0] == '\\')
}

/// A row with no hunk, ordinal or line numbers.
pub open spec fn bare_row(kind: RowKind, text: Seq<char>) -> RowView {
    RowView { kind, text, hunk: 0, line_ord: 0, old_no: 0, new_no: 0, ord: 0 }
}

/// One parser step: the row line `l` yields, and the counters after it.
pub open spec fn parse_step(st: ParseState, l: Seq<char>) -> (ParseState, RowView) {
    if starts_with(l, "@@"@) {
        let (o, n) = hunk_starts_spec(l);
        (
            ParseState { hunk: st.hunk + 1, enclosing: st.hunk, changed: 0, old_no: o, new_no: n },
            RowView { hunk: st.hunk, ..bare_row(RowKind::Hunk, l) },
        )
    } else if is_meta_line(l) {
        (st, bare_row(RowKind::Meta, l))
    } else if l.len() > 0 && l[0] == '+' {
        (
            ParseState { changed: st.changed + 1, new_no: st.new_no + 1, ..st },
            RowView {
                kind: RowKind::Add,
                text: l.skip(1),
                hunk: st.enclosing,
                line_ord: st.changed,
                old_no: 0,
                new_no: st.new_no,
                ord: 0,
            },
        )
    } else if l.len() > 0 && l[0] == '-' {
        (
            ParseState { changed: st.changed + 1, old_no: st.old_no + 1, ..st },
            RowView {
                kind: RowKind::Del,
                text: l.skip(1),
                hunk: st.enclosing,
                line_ord: st.changed,
                old_no: st.old_no,
                new_no: 0,
                ord: 0,
            },
        )
    } else {
        (
            ParseState { old_no: st.old_no + 1, new_no: st.new_no + 1, ..st },
            RowView {
                kind: RowKind::Context,
                text: strip_char(l, ' '),
                hunk: st.enclosing,
                line_ord: 0,
                old_no: st.old_no,
                new_no: st.new_no,
                ord: 0,
            },
        )
    }
}

/// The counters before the first line.
pub open spec fn initial_state() -> ParseState {
    ParseState { hunk: 0, enclosing: 0, changed: 0, old_no: 1, new_no: 1 }
}

/// The counters and rows after parsing `ls` in order.
pub open spec fn parse_lines(ls: Seq<Seq<char>>) -> (ParseState, Seq<RowView>)
    decreases ls.len(),
{
    if ls.len() == 0 {
        (initial_state(), seq![])
    } else {
        let (st, rows) = parse_lines(ls.drop_last());
        let (st2, row) = parse_step(st, ls.last());
        (st2, rows.push(row))
    }
}

/// The rows a unified-diff text parses into, one per line.
pub open spec fn parse_spec(text: Seq<char>) -> Seq<RowView> {
    parse_lines(lines(text)).1
}

/// The line counters never pass `usize::MAX` (a hunk header can announce a
/// start line that far up).
pub open spec fn parse_in_range(text: Seq<char>) -> bool {
    forall|n: int|
        0 <= n <= lines(text).len() ==> {
            let st = #[trigger] parse_lines(lines(text).take(n)).0;
            st.old_no <= usize::MAX && st.new_no <= usize::MAX
        }
}

/// Parses unified-diff text into renderable rows, tracking 1-based line
/// numbers from each hunk header and per-hunk changed-line ordinals.
pub fn parse(text: &str) -> (rows: Vec<Row>)
    requires
        parse_in_range(text@),
    ensures
        rows@.len() == parse_spec(text@).len(),
        forall|i: int| 0 <= i < rows@.len() ==> (#[trigger] rows@[i])@ == parse_spec(text@)[i],
{
    let v = chars_of(text);
    let bounds = line_bounds(&v);
    let ghost ls = lines(v@);
    let p_hunk = chars_of("@@");
    let p_diff = chars_of("diff --git");
    let p_index = chars_of("index ");
    let p_old = chars_of("---");
    let p_new = chars_of("+++");
    let p_newfile = chars_of("new file");
    let p_binary = chars_of("Binary");
    let mut rows: Vec<Row> = Vec::new();
    let mut hunk: usize = 0;
    let mut enclosing: usize = 0;
    let mut changed: usize = 0;
    let mut old_no: usize = 1;
    let mut new_no: usize = 1;
    let mut i: usize = 0;
    while i < bounds.len()
        invariant
            v@ == text@,
            ls == lines(v@),
            parse_in_range(text@),
            bounds@.len() == ls.len(),
            forall|k: int|
                0 <= k < bounds@.len() ==> {
                    let (a, b) = #[trigger] bounds@[k];
                    &&& a <= b <= v@.len()
                    &&& v@.subrange(a as int, b as int) == ls[k]
                },
            p_hunk@ == "@@"@,
            p_diff@ == "diff --git"@,
            p_index@ == "index "@,
            p_old@ == "---"@,
            p_new@ == "+++"@,
            p_newfile@ == "new file"@,
            p_binary@ == "Binary"@,
            0 <= i <= bounds@.len(),
            hunk <= i,
            changed <= i,
            enclosing <= i,
            ({
                let (st, rs) = parse_lines(ls.take(i as int));
                &&& st == ParseState {
                    hunk: hunk as nat,
                    enclosing: enclosing as nat,
                    changed: changed as nat,
                    old_no: old_no as nat,
                    new_no: new_no as nat,
                }
                &&& rows@.len() == rs.len()
                &&& forall|k: int| 0 <= k < rows@.len() ==> (#[trigger] rows@[k])@ == rs[k]
            }),
        decreases bounds@.len() - i,
    {
        let (a, b) = bounds[i];
        let ghost l = ls[i as int];
        proof {
            assert(ls.take(i + 1).drop_last() =~= ls.take(i as int));
            assert(ls.take(i + 1).last() == l);
            assert(parse_lines(ls.take(i + 1)).0.old_no <= usize::MAX);
            assert(parse_lines(ls.take(i + 1)).0.new_no <= usize::MAX);
        }
        let ghost prev = rows@;
        if span_starts_with(&v, a, b, &p_hunk) {
            let (o, n) = hunk_starts(&v, a, b);
            rows.push(Row {
                kind: RowKind::Hunk,
                text: string_of(&v, a, b),
                hunk,
                line_ord: 0,
                old_no: 0,
                new_no: 0,
                ord: 0,
            });
            old_no = o;
            new_no = n;
            changed = 0;
            enclosing = hunk;
            hunk += 1;
        } else if span_starts_with(&v, a, b, &p_diff) || span_starts_with(&v, a, b, &p_index)
            || span_starts_with(&v, a, b, &p_old) || span_starts_with(&v, a, b, &p_new)
            || span_starts_with(&v, a, b, &p_newfile) || span_starts_with(&v, a, b, &p_binary) || (a
            < b && v[a] == '\\') {
            rows.push(
                Row {
                    kind: RowKind::Meta,
                    text: string_of(&v, a, b),
                    hunk: 0,
                    line_ord: 0,
                    old_no: 0,
                    new_no: 0,
                    ord: 0,
                },
            );
        } else if a < b && v[a] == '+' {
            assert(v@.subrange(a + 1, b as int) =~= l.skip(1));
            rows.push(
                Row {
                    kind: RowKind::Add,
                    text: string_of(&v, a + 1, b),
                    hunk: enclosing,
                    line_ord: changed,
                    old_no: 0,
                    new_no,
                    ord: 0,
                },
            );
            changed += 1;
            new_no += 1;
        } else if a < b && v[a] == '-' {
            assert(v@.subrange(a + 1, b as int) =~= l.skip(1));
            rows.push(
                Row {
                    kind: RowKind::Del,
                    text: string_of(&v, a + 1, b),
                    hunk: enclosing,
                    line_ord: changed,
                    old_no,
                    new_no: 0,
                    ord: 0,
                },
            );
            changed += 1;
            old_no += 1;
        } else {
            let start = if a < b && v[a] == ' ' { a + 1 } else { a };
            assert(v@.subrange(start as int, b as int) =~= strip_char(l, ' '));
            rows.push(
                Row {
                    kind: RowKind::Context,
                    text: string_of(&v, start, b),
                    hunk: enclosing,
                    line_ord: 0,
                    old_no,
                    new_no,
                    ord: 0,
                },
            );
            old_no += 1;
            new_no += 1;
        }
        proof {
            let (st, rs) = parse_lines(ls.take(i + 1));
            assert(rows@.len() == rs.len());
            assert forall|k: int| 0 <= k < rows@.len() implies (#[trigger] rows@[k])@ == rs[k] by {
                if k < prev.len() {
                    assert(rows@[k] == prev[k]);
                }
            }
        }
        i += 1;
    }
    assert(ls.take(i as int) =~= ls);
    rows
}


/// Normalized view of one parsed row: the kind tag, display text, and gutter
/// numbers, flattened for comparison across parsers.
#[derive(Clone, Debug, PartialEq, Eq)]
pub struct RowSummary {
    /// `"meta" | "hunk" | "context" | "del" | "add"`.
    pub kind: &'static str,
    pub text: String,
    pub old_no: usize,
    pub new_no: usize,
}

/// The summary tag of a row kind.
pub open spec fn kind_word(k: RowKind) -> Seq<char> {
    match k {
        RowKind::Meta | RowKind::RenameHeader => "meta"@,
        RowKind::Hunk => "hunk"@,
        RowKind::Context => "context"@,
        RowKind::Del => "del"@,
        RowKind::Add => "add"@,
    }
}

fn kind_tag(k: RowKind) -> (r: &'static str)
    ensures
        r@ == kind_word(k),
{
    match k {
        RowKind::Meta | RowKind::RenameHeader => "meta",
        RowKind::Hunk => "hunk",
        RowKind::Context => "context",
        RowKind::Del => "del",
        RowKind::Add => "add",
    }
}

/// The row stream [`parse`] builds from unified-diff text, normalized into
/// [`RowSummary`]s.
pub fn parsed_rows(text: &str) -> (out: Vec<RowSummary>)
    requires
        parse_in_range(text@),
    ensures
        out@.len() == parse_spec(text@).len(),
        forall|i: int|
            0 <= i < out@.len() ==> {
                let r = parse_spec(text@)[i];
                &&& (#[trigger] out@[i]).kind@ == kind_word(r.kind)
                &&& out@[i].text@ == r.text
                &&& out@[i].old_no as nat == r.old_no
                &&& out@[i].new_no as nat == r.new_no
            },
{
    let rows = parse(text);
    let mut out: Vec<RowSummary> = Vec::new();
    let mut i: usize = 0;
    while i < rows.len()
        invariant
            0 <= i <= rows@.len(),
            rows@.len() == parse_spec(text@).len(),
            forall|k: int| 0 <= k < rows@.len() ==> (#[trigger] rows@[k])@ == parse_spec(text@)[k],
            out@.len() == i,
            forall|k: int|
                0 <= k < i ==> {
                    let r = parse_spec(text@)[k];
                    &&& (#[trigger] out@[k]).kind@ == kind_word(r.kind)
                    &&& out@[k].text@ == r.text
                    &&& out@[k].old_no as nat == r.old_no
                    &&& out@[k].new_no as nat == r.new_no
                },
        decreases rows@.len() - i,
    {
        let row = &rows[i];
        assert(row@ == parse_spec(text@)[i as int]);
        let text_copy = copy_string(&row.text);
        out.push(
            RowSummary {
                kind: kind_tag(row.kind),
                text: text_copy,
                old_no: row.old_no,
                new_no: row.new_no,
            },
        );
        i += 1;
    }
    out
}

/// A fresh copy of `s`.
pub fn copy_string(s: &String) -> (r: String)
    ensures
        r@ == s@,
{
    string_from(s.as_str())
}

// --- per-file section metadata -------------------------------------------------

/// Metadata for one `diff --git` file section: paths, rename detection,
/// file-mode changes and binary-ness, derived from the patch text alone.
#[derive(Clone, Debug, Default, PartialEq, Eq)]
pub struct FileMeta {
    /// Path before the change, from the `diff --git a/… b/…` line.
    pub old_path: Option<String>,
    /// Path after the change, from the same line.
    pub new_path: Option<String>,
    /// `similarity index N%` when git emitted a rename estimate.
    pub similarity: Option<u32>,
    /// `rename from`/`rename to` headers were present.
    pub renamed: bool,
    /// `new file mode` header was present.
    pub new_file: bool,
    /// `deleted file mode` header was present.
    pub deleted_file: bool,
    /// The section body carries `Binary files … differ`.
    pub binary: bool,
}

/// The mathematical value of a [`FileMeta`].
#[verifier::ext_equal]
pub struct FileMetaView {
    pub old_path: Option<Seq<char>>,
    pub new_path: Option<Seq<char>>,
    pub similarity: Option<nat>,
    pub renamed: bool,
    pub new_file: bool,
    pub deleted_file: bool,
    pub binary: bool,
}

/// The view of an optional string.
pub open spec fn opt_view(o: Option<String>) -> Option<Seq<char>> {
    match o {
        Some(s) => Some(s@),
        None => None,
    }
}

impl View for FileMeta {
    type V = FileMetaView;

    open spec fn view(&self) -> FileMetaView {
        FileMetaView {
            old_path: opt_view(self.old_path),
            new_path: opt_view(self.new_path),
            similarity: match self.similarity {
                Some(p) => Some(p as nat),
                None => None,
            },
            renamed: self.renamed,
            new_file: self.new_file,
            deleted_file: self.deleted_file,
            binary: self.binary,
        }
    }
}

/// The `(old, new)` paths of the remainder of a `diff --git` line: git's
/// quoted form `"a/…" "b/…"`, else the plain form split at the first ` b/`.
pub open spec fn split_git_paths_spec(rest: Seq<char>) -> (Option<Seq<char>>, Option<Seq<char>>) {
    let first = rest.skip(1);
    let quoted: Option<(Seq<char>, Seq<char>)> = if rest.len() > 0 && rest[0] == '"' {
        match find(first, seq!['"']) {
            Some(end) => {
                let tail = trim_start(first.skip(end + 1));
                if tail.len() >= 2 && tail[0] == '"' && tail.last() == '"' {
                    Some((first.take(end), tail.subrange(1, tail.len() - 1)))
                } else {
                    None
                }
            },
            None => None,
        }
    } else {
        None
    };
    match quoted {
        Some((o, n)) => (Some(o), Some(n)),
        None => match find(rest, " b/"@) {
            Some(sep) => (Some(rest.take(sep)), Some(rest.skip(sep + 1))),
            None => (None, None),
        },
    }
}

/// Splits the remainder of a `diff --git` line into `(old, new)` paths.
pub fn split_git_paths(rest: &str) -> (r: (Option<String>, Option<String>))
    ensures
        (opt_view(r.0), opt_view(r.1)) == split_git_paths_spec(rest@),
{
    let v = chars_of(rest);
    assert(v@.subrange(0, v@.len() as int) =~= rest@);
    split_git_paths_in(&v, 0, v.len())
}

fn split_git_paths_in(v: &Vec<char>, from: usize, to: usize) -> (r: (Option<String>, Option<String>))
    requires
        from <= to <= v@.len(),
    ensures
        (opt_view(r.0), opt_view(r.1)) == split_git_paths_spec(v@.subrange(from as int, to as int)),
{
    let ghost rest = v@.subrange(from as int, to as int);
    let ghost first = rest.skip(1);
    if from < to && v[from] == '"' {
        let quote = vec!['"'];
        assert(v@.subrange(from + 1, to as int) =~= first);
        assert(quote@ =~= seq!['"']);
        proof {
            lemma_find_from(first, seq!['"'], 0);
        }
        match span_find(v, from + 1, to, &quote) {
            Some(end) => {
                assert(find(first, seq!['"']) == Some(end as int));
                let t0 = from + 1 + end + 1;
                assert(v@.subrange(t0 as int, to as int) =~= first.skip(end + 1));
                let (ta, tb) = span_trim_start(v, t0, to);
                let ghost tail = trim_start(first.skip(end + 1));
                assert(v@.subrange(ta as int, tb as int) == tail);
                if tb - ta >= 2 && v[ta] == '"' && v[tb - 1] == '"' {
                    assert(tail[0] == v@[ta as int]);
                    assert(tail.last() == v@[tb - 1]);
                    assert(v@.subrange(from + 1, from + 1 + end) =~= first.take(end as int));
                    assert(v@.subrange(ta + 1, tb - 1) =~= tail.subrange(1, tail.len() - 1));
                    return (Some(string_of(v, from + 1, from + 1 + end)), Some(string_of(v, ta + 1, tb - 1)));
                }
                proof {
                    if tail.len() >= 2 {
                        assert(tail[0] == v@[ta as int]);
                        assert(tail.last() == v@[tb - 1]);
                    }
                }
            },
            None => {},
        }
    }
    let sep_pat = chars_of(" b/");
    proof {
        reveal_strlit(" b/");
        lemma_find_from(rest, " b/"@, 0);
    }
    match span_find(v, from, to, &sep_pat) {
        Some(sep) => {
            assert(v@.subrange(from as int, from + sep) =~= rest.take(sep as int));
            assert(v@.subrange(from + sep + 1, to as int) =~= rest.skip(sep + 1));
            (Some(string_of(v, from, from + sep)), Some(string_of(v, from + sep + 1, to)))
        },
        None => (None, None),
    }
}

/// A fresh section opened by a `diff --git` line.
pub open spec fn new_meta(paths: (Option<Seq<char>>, Option<Seq<char>>)) -> FileMetaView {
    FileMetaView {
        old_path: paths.0,
        new_path: paths.1,
        similarity: None,
        renamed: false,
        new_file: false,
        deleted_file: false,
        binary: false,
    }
}

/// The `similarity index N%` estimate a line carries, if any.
pub open spec fn similarity_of(l: Seq<char>) -> Option<nat> {
    if starts_with(l, "similarity index "@) {
        let v = trim(l.skip("similarity index "@.len() as int));
        if v.len() > 0 && v.last() == '%' {
            parse_u32(v.drop_last())
        } else {
            None
        }
    } else {
        None
    }
}

/// A section header line refining the open section.
pub open spec fn refine(m: FileMetaView, l: Seq<char>) -> FileMetaView {
    match similarity_of(l) {
        Some(p) => FileMetaView { similarity: Some(p), ..m },
        None => if starts_with(l, "rename from "@) || starts_with(l, "rename to "@) {
            FileMetaView { renamed: true, ..m }
        } else if starts_with(l, "new file mode"@) {
            FileMetaView { new_file: true, ..m }
        } else if starts_with(l, "deleted file mode"@) {
            FileMetaView { deleted_file: true, ..m }
        } else if starts_with(l, "Binary files "@) && ends_with(l, " differ"@) {
            FileMetaView { binary: true, ..m }
        } else {
            m
        },
    }
}

/// Closed sections and the open one after scanning `ls` in order.
pub open spec fn scan_lines(ls: Seq<Seq<char>>) -> (Seq<FileMetaView>, Option<FileMetaView>)
    decreases ls.len(),
{
    if ls.len() == 0 {
        (seq![], None)
    } else {
        let (fs, cur) = scan_lines(ls.drop_last());
        let l = ls.last();
        if starts_with(l, "diff --git "@) {
            let closed = match cur {
                Some(d) => fs.push(d),
                None => fs,
            };
            (closed, Some(new_meta(split_git_paths_spec(l.skip("diff --git "@.len() as int)))))
        } else {
            match cur {
                Some(m) => (fs, Some(refine(m, l))),
                None => (fs, None),
            }
        }
    }
}

/// The per-file sections of a patch text: each `diff --git` line opens a
/// section that following headers refine; lines before the first section are
/// ignored.
pub open spec fn scan_spec(text: Seq<char>) -> Seq<FileMetaView> {
    let (fs, cur) = scan_lines(lines(text));
    match cur {
        Some(c) => fs.push(c),
        None => fs,
    }
}

/// Scans patch text into per-file section metadata.
pub fn scan_files(text: &str) -> (files: Vec<FileMeta>)
    ensures
        files@.len() == scan_spec(text@).len(),
        forall|i: int| 0 <= i < files@.len() ==> (#[trigger] files@[i])@ == scan_spec(text@)[i],
{
    let v = chars_of(text);
    let bounds = line_bounds(&v);
    let ghost ls = lines(v@);
    let p_diff = chars_of("diff --git ");
    let p_sim = chars_of("similarity index ");
    let p_rfrom = chars_of("rename from ");
    let p_rto = chars_of("rename to ");
    let p_new = chars_of("new file mode");
    let p_del = chars_of("deleted file mode");
    let p_bin = chars_of("Binary files ");
    let p_differ = chars_of(" differ");
    let mut files: Vec<FileMeta> = Vec::new();
    let mut current: Option<FileMeta> = None;
    let mut i: usize = 0;
    while i < bounds.len()
        invariant
            v@ == text@,
            ls == lines(v@),
            bounds@.len() == ls.len(),
            forall|k: int|
                0 <= k < bounds@.len() ==> {
                    let (a, b) = #[trigger] bounds@[k];
                    &&& a <= b <= v@.len()
                    &&& v@.subrange(a as int, b as int) == ls[k]
                },
            p_diff@ == "diff --git "@,
            p_sim@ == "similarity index "@,
            p_rfrom@ == "rename from "@,
            p_rto@ == "rename to "@,
            p_new@ == "new file mode"@,
            p_del@ == "deleted file mode"@,
            p_bin@ == "Binary files "@,
            p_differ@ == " differ"@,
            0 <= i <= bounds@.len(),
            ({
                let (fs, cur) = scan_lines(ls.take(i as int));
                &&& files@.len() == fs.len()
                &&& forall|k: int| 0 <= k < files@.len() ==> (#[trigger] files@[k])@ == fs[k]
                &&& match current {
                    Some(m) => cur == Some(m@),
                    None => cur is None,
                }
            }),
        decreases bounds@.len() - i,
    {
        let (a, b) = bounds[i];
        let ghost l = ls[i as int];
        let ghost prev = files@;
        proof {
            assert(ls.take(i + 1).drop_last() =~= ls.take(i as int));
            assert(ls.take(i + 1).last() == l);
        }
        if span_starts_with(&v, a, b, &p_diff) {
            let rest = a + p_diff.len();
            assert(v@.subrange(rest as int, b as int) =~= l.skip("diff --git "@.len() as int));
            let (old_path, new_path) = split_git_paths_in(&v, rest, b);
            match current.take() {
                Some(done) => {
                    files.push(done);
                },
                None => {},
            }
            current = Some(
                FileMeta {
                    old_path,
                    new_path,
                    similarity: None,
                    renamed: false,
                    new_file: false,
                    deleted_file: false,
                    binary: false,
                },
            );
        } else {
            match current.take() {
                Some(mut meta) => {
                    let ghost m0 = meta@;
                    let sim = similarity_in(&v, a, b, &p_sim);
                    match sim {
                        Some(pct) => {
                            meta.similarity = Some(pct);
                        },
                        None => {
                            if span_starts_with(&v, a, b, &p_rfrom) || span_starts_with(&v, a, b, &p_rto) {
                                meta.renamed = true;
                            } else if span_starts_with(&v, a, b, &p_new) {
                                meta.new_file = true;
                            } else if span_starts_with(&v, a, b, &p_del) {
                                meta.deleted_file = true;
                            } else if span_starts_with(&v, a, b, &p_bin) && span_ends_with(&v, a, b, &p_differ) {
                                meta.binary = true;
                            }
                        },
                    }
                    assert(meta@ =~= refine(m0, l));
                    current = Some(meta);
                },
                None => {},
            }
        }
        proof {
            let (fs, cur) = scan_lines(ls.take(i + 1));
            assert(files@.len() == fs.len());
            assert forall|k: int| 0 <= k < files@.len() implies (#[trigger] files@[k])@ == fs[k] by {
                if k < prev.len() {
                    assert(files@[k] == prev[k]);
                }
            }
        }
        i += 1;
    }
    assert(ls.take(i as int) =~= ls);
    let ghost prev = files@;
    match current {
        Some(done) => {
            files.push(done);
        },
        None => {},
    }
    proof {
        assert forall|k: int| 0 <= k < files@.len() implies (#[trigger] files@[k])@ == scan_spec(text@)[k] by {
            if k < prev.len() {
                assert(files@[k] == prev[k]);
            }
        }
    }
    files
}

/// The similarity estimate on the line `v[a..b]`.
fn similarity_in(v: &Vec<char>, a: usize, b: usize, p_sim: &Vec<char>) -> (r: Option<u32>)
    requires
        a <= b <= v@.len(),
        p_sim@ == "similarity index "@,
    ensures
        match similarity_of(v@.subrange(a as int, b as int)) {
            Some(n) => r == Some(n as u32),
            None => r is None,
        },
{
    let ghost l = v@.subrange(a as int, b as int);
    if !span_starts_with(v, a, b, p_sim) {
        return None;
    }
    let rest = a + p_sim.len();
    assert(v@.subrange(rest as int, b as int) =~= l.skip("similarity index "@.len() as int));
    let (ta, tb) = span_trim(v, rest, b);
    if ta < tb && v[tb - 1] == '%' {
        assert(v@.subrange(ta as int, tb - 1) =~= v@.subrange(ta as int, tb as int).drop_last());
        parse_u32_in(v, ta, tb - 1)
    } else {
        None
    }
}

// --- rename header ---------------------------------------------------------------

/// Repo-relative form of a diff-side path: drops git's `a/`/`b/` prefix.
pub open spec fn repo_rel_spec(p: Seq<char>) -> Seq<char> {
    if starts_with(p, seq!['a', '/']) || starts_with(p, seq!['b', '/']) {
        p.skip(2)
    } else {
        p
    }
}

/// Repo-relative form of a diff-side path: drops git's `a/`/`b/` prefix.
pub fn repo_rel_path(path: &str) -> (r: String)
    ensures
        r@ == repo_rel_spec(path@),
{
    let v = chars_of(path);
    if v.len() >= 2 && (v[0] == 'a' || v[0] == 'b') && v[1] == '/' {
        assert(v@.take(2) =~= seq![v@[0], '/']);
        string_of(&v, 2, v.len())
    } else {
        proof {
            if v@.len() >= 2 {
                assert(v@.take(2)[0] == v@[0]);
                assert(v@.take(2)[1] == v@[1]);
            }
        }
        string_of(&v, 0, v.len())
    }
}

/// The formatted rename header for a section carrying rename metadata.
pub open spec fn rename_header_spec(m: FileMetaView) -> Option<Seq<char>> {
    if !m.renamed {
        None
    } else {
        let old = match m.old_path {
            Some(p) => repo_rel_spec(p),
            None => "(unknown)"@,
        };
        Some(
            match m.similarity {
                Some(pct) => "Renamed from "@ + old + " · "@ + decimal(pct) + "% similar"@,
                None => "Renamed from "@ + old,
            },
        )
    }
}

/// Formatted rename-header line for a file section carrying rename
/// metadata; `None` otherwise. The similarity is omitted when git emitted
/// none.
pub fn rename_header_text(meta: &FileMeta) -> (r: Option<String>)
    ensures
        opt_view(r) == rename_header_spec(meta@),
{
    if !meta.renamed {
        return None;
    }
    let old = match &meta.old_path {
        Some(p) => repo_rel_path(p.as_str()),
        None => string_from("(unknown)"),
    };
    let mut out = string_from("Renamed from ");
    push_str(&mut out, old.as_str());
    match meta.similarity {
        Some(pct) => {
            push_str(&mut out, " · ");
            push_decimal(&mut out, pct as u64);
            push_str(&mut out, "% similar");
        },
        None => {},
    }
    Some(out)
}

// --- non-text panes --------------------------------------------------------------

/// Which pane renders the open diff: text rows, an image pair, or the
/// binary-change placeholder.
#[derive(Clone, Copy, Debug, PartialEq, Eq, Structural)]
pub enum PaneKind {
    Text,
    Image,
    Binary,
}

/// The end of `p[..j]` once the separators and `.` segments that close it
/// are dropped, as `std::path` components skip them; a lone leading `/` (the
/// root) or `.` stays.
pub open spec fn tail_end(p: Seq<char>, j: int) -> int
    decreases j,
{
    if 2 <= j <= p.len() && (p[j - 1] == '/' || (p[j - 1] == '.' && p[j - 2] == '/')) {
        tail_end(p, j - 1)
    } else {
        j
    }
}

/// `p` up to its last component.
pub open spec fn path_tail(p: Seq<char>) -> Seq<char> {
    p.take(tail_end(p, p.len() as int))
}

/// The final component of a path (`Path::file_name`): the segment after the
/// last `/` once closing separators and `.` segments are dropped; none for
/// the root, a lone `.`, a `..` or an empty path.
pub open spec fn file_name_spec(p: Seq<char>) -> Option<Seq<char>> {
    let t = path_tail(p);
    let name = match rfind_char(t, '/') {
        Some(k) => t.skip(k + 1),
        None => t,
    };
    if name.len() == 0 || name == seq!['.'] || name == seq!['.', '.'] {
        None
    } else {
        Some(name)
    }
}

pub proof fn lemma_tail_end(p: Seq<char>, j: int)
    requires
        0 <= j <= p.len(),
    ensures
        0 <= tail_end(p, j) <= j,
        j >= 1 ==> tail_end(p, j) >= 1,
        forall|m: int| j <= m <= p.len() ==> #[trigger] tail_end(p.take(m), j) == tail_end(p, j),
    decreases j,
{
    if 2 <= j && (p[j - 1] == '/' || (p[j - 1] == '.' && p[j - 2] == '/')) {
        lemma_tail_end(p, j - 1);
        assert forall|m: int| j <= m <= p.len() implies #[trigger] tail_end(p.take(m), j) == tail_end(p, j) by {
            assert(p.take(m)[j - 1] == p[j - 1]);
            assert(p.take(m)[j - 2] == p[j - 2]);
            assert(tail_end(p.take(m), j - 1) == tail_end(p, j - 1));
        }
    } else {
        assert forall|m: int| j <= m <= p.len() implies #[trigger] tail_end(p.take(m), j) == tail_end(p, j) by {
            if 2 <= j {
                assert(p.take(m)[j - 1] == p[j - 1]);
                assert(p.take(m)[j - 2] == p[j - 2]);
            }
        }
    }
}

/// The end of `v[..j]` once closing separators and `.` segments are
/// dropped.
pub fn tail_end_of(v: &Vec<char>, j: usize) -> (e: usize)
    requires
        j <= v@.len(),
    ensures
        e as int == tail_end(v@, j as int),
        e <= j,
        j >= 1 ==> e >= 1,
{
    let mut e = j;
    while e >= 2 && (v[e - 1] == '/' || (v[e - 1] == '.' && v[e - 2] == '/'))
        invariant
            e <= j <= v@.len(),
            tail_end(v@, j as int) == tail_end(v@, e as int),
            j >= 1 ==> e >= 1,
        decreases e,
    {
        e -= 1;
    }
    e
}

/// The extension of a file name (`Path::extension`): the part after the
/// final `.`, none when there is no `.` or the only one leads the name.
pub open spec fn extension_spec(name: Seq<char>) -> Option<Seq<char>> {
    match rfind_char(name, '.') {
        Some(k) => if k == 0 {
            None
        } else {
            Some(name.skip(k + 1))
        },
        None => None,
    }
}

/// Extensions decoded as images; SVG is deliberately absent.
pub open spec fn is_image_ext(e: Seq<char>) -> bool {
    e == "png"@ || e == "jpg"@ || e == "jpeg"@ || e == "gif"@ || e == "webp"@
}

/// Case-insensitive extension sniff deciding whether a side decodes.
pub open spec fn is_image_spec(p: Seq<char>) -> bool {
    match file_name_spec(p) {
        Some(n) => match extension_spec(n) {
            Some(e) => is_image_ext(ascii_lower_str(e)),
            None => false,
        },
        None => false,
    }
}

/// Extension sniff (case-insensitive) deciding whether a side decodes.
pub fn is_image_path(path: &str) -> (r: bool)
    ensures
        r == is_image_spec(path@),
{
    let v = chars_of(path);
    let (start, q) = match file_name_bounds(&v) {
        Some(bounds) => bounds,
        None => return false,
    };
    let ghost name = v@.subrange(start as int, q as int);
    let dotpos = span_rfind_char(&v, start, q, '.');
    proof {
        lemma_rfind_char_to(name, '.', name.len() as int);
    }
    match dotpos {
        Some(k) => {
            assert(rfind_char(name, '.') == Some(k as int));
            if k == 0 {
                return false;
            }
            let ext = span_ascii_lower(&v, start + k + 1, q);
            assert(v@.subrange(start + k + 1, q as int) =~= name.skip(k + 1));
            let n = ext.len();
            let png = chars_of("png");
            let jpg = chars_of("jpg");
            let jpeg = chars_of("jpeg");
            let gif = chars_of("gif");
            let webp = chars_of("webp");
            assert(ext@.subrange(0, n as int) =~= ext@);
            span_eq(&ext, 0, n, &png) || span_eq(&ext, 0, n, &jpg) || span_eq(&ext, 0, n, &jpeg)
                || span_eq(&ext, 0, n, &gif) || span_eq(&ext, 0, n, &webp)
        },
        None => false,
    }
}

/// The bounds of `file_name_spec(v)` inside `v`.
pub fn file_name_bounds(v: &Vec<char>) -> (r: Option<(usize, usize)>)
    ensures
        match file_name_spec(v@) {
            Some(n) => r matches Some((a, b)) && a <= b <= v@.len() && v@.subrange(a as int, b as int) == n,
            None => r is None,
        },
{
    let ghost p = v@;
    let q = tail_end_of(v, v.len());
    let ghost qs = p.take(q as int);
    assert(v@.subrange(0, q as int) =~= qs);
    let slash = span_rfind_char(v, 0, q, '/');
    let start = match slash {
        Some(k) => k + 1,
        None => 0,
    };
    let ghost name = v@.subrange(start as int, q as int);
    proof {
        lemma_rfind_char_to(qs, '/', qs.len() as int);
        match rfind_char(qs, '/') {
            Some(k) => {
                assert(slash == Some(k as usize));
                assert(name =~= qs.skip(k + 1));
            },
            None => {
                assert(name =~= qs);
            },
        }
    }
    let dot = vec!['.'];
    let dotdot = vec!['.', '.'];
    assert(dot@ =~= seq!['.']);
    assert(dotdot@ =~= seq!['.', '.']);
    if start == q || span_eq(v, start, q, &dot) || span_eq(v, start, q, &dotdot) {
        return None;
    }
    Some((start, q))
}


/// The pane kind for a set of sections: only a single section leaves the
/// row model, as an image pair when both sides sniff as images, else as the
/// binary placeholder when binary.
pub open spec fn pane_kind_spec(files: Seq<FileMetaView>) -> PaneKind {
    if files.len() != 1 {
        PaneKind::Text
    } else {
        let f = files[0];
        let both = (match f.old_path {
            Some(p) => is_image_spec(p),
            None => false,
        }) && (match f.new_path {
            Some(p) => is_image_spec(p),
            None => false,
        });
        if both {
            PaneKind::Image
        } else if f.binary {
            PaneKind::Binary
        } else {
            PaneKind::Text
        }
    }
}

/// Pane kind of the open diff.
pub fn pane_kind(files: &[FileMeta]) -> (r: PaneKind)
    ensures
        r == pane_kind_spec(files@.map_values(|f: FileMeta| f@)),
{
    let ghost fs = files@.map_values(|f: FileMeta| f@);
    if files.len() != 1 {
        return PaneKind::Text;
    }
    let f = &files[0];
    assert(fs[0] == f@);
    let old_img = match &f.old_path {
        Some(p) => is_image_path(p.as_str()),
        None => false,
    };
    let both = old_img && match &f.new_path {
        Some(p) => is_image_path(p.as_str()),
        None => false,
    };
    if both {
        PaneKind::Image
    } else if f.binary {
        PaneKind::Binary
    } else {
        PaneKind::Text
    }
}


// --- display-row model -------------------------------------------------------------

impl Row {
    /// A copy of this row.
    pub fn copy(&self) -> (r: Row)
        ensures
            r@ == self@,
    {
        Row {
            kind: self.kind,
            text: copy_string(&self.text),
            hunk: self.hunk,
            line_ord: self.line_ord,
            old_no: self.old_no,
            new_no: self.new_no,
            ord: self.ord,
        }
    }
}

/// One virtualized display row: a full-width row (meta, hunk header,
/// context), or a side-by-side pair of one Del and/or one Add.
#[derive(Debug)]
pub enum DisplayRow {
    Full(Row),
    Pair(Option<Row>, Option<Row>),
}

/// The mathematical value of a [`DisplayRow`].
pub enum DisplayView {
    Full(RowView),
    Pair(Option<RowView>, Option<RowView>),
}

/// The view of an optional row.
pub open spec fn opt_row(o: Option<Row>) -> Option<RowView> {
    match o {
        Some(r) => Some(r@),
        None => None,
    }
}

impl View for DisplayRow {
    type V = DisplayView;

    open spec fn view(&self) -> DisplayView {
        match self {
            DisplayRow::Full(r) => DisplayView::Full(r@),
            DisplayRow::Pair(d, a) => DisplayView::Pair(opt_row(*d), opt_row(*a)),
        }
    }
}

/// Everything rendering needs from one diff, built once per diff text: the
/// display rows plus the index maps hunk navigation scrolls by, and the
/// per-file section metadata.
#[derive(Debug)]
pub struct DiffModel {
    pub display: Vec<DisplayRow>,
    /// Underlying parsed-row count, including any leading rename-header row.
    pub raw_count: usize,
    /// Underlying-row ordinal to display index.
    pub raw_to_display: Vec<u32>,
    /// Hunk ordinal to the display index of its header row.
    pub hunk_first_display: Vec<u32>,
    /// Per-file section metadata.
    pub files: Vec<FileMeta>,
    /// Formatted rename header of the first renamed section, when any.
    pub rename_header: Option<String>,
}

/// The mathematical value of a [`DiffModel`].
pub struct ModelView {
    pub display: Seq<DisplayView>,
    pub raw_count: nat,
    pub raw_to_display: Seq<u32>,
    pub hunk_first_display: Seq<u32>,
    pub files: Seq<FileMetaView>,
    pub rename_header: Option<Seq<char>>,
}

impl View for DiffModel {
    type V = ModelView;

    open spec fn view(&self) -> ModelView {
        ModelView {
            display: self.display@.map_values(|d: DisplayRow| d@),
            raw_count: self.raw_count as nat,
            raw_to_display: self.raw_to_display@,
            hunk_first_display: self.hunk_first_display@,
            files: self.files@.map_values(|f: FileMeta| f@),
            rename_header: opt_view(self.rename_header),
        }
    }
}

/// The rename header of the first section that has one.
pub open spec fn first_rename_header(files: Seq<FileMetaView>) -> Option<Seq<char>>
    decreases files.len(),
{
    if files.len() == 0 {
        None
    } else {
        match rename_header_spec(files[0]) {
            Some(h) => Some(h),
            None => first_rename_header(files.skip(1)),
        }
    }
}

/// The rows of kind `k` in `s`, in order.
pub open spec fn of_kind(s: Seq<RowView>, k: RowKind) -> Seq<RowView>
    decreases s.len(),
{
    if s.len() == 0 {
        seq![]
    } else if s.last().kind == k {
        of_kind(s.drop_last(), k).push(s.last())
    } else {
        of_kind(s.drop_last(), k)
    }
}

/// Element `j` of `s`, if any.
pub open spec fn nth(s: Seq<RowView>, j: int) -> Option<RowView> {
    if 0 <= j < s.len() {
        Some(s[j])
    } else {
        None
    }
}

/// Whether a row is a changed (Del/Add) row.
pub open spec fn is_changed(k: RowKind) -> bool {
    k == RowKind::Del || k == RowKind::Add
}

/// The display rows and maps while folding, plus the run of changed rows not
/// yet paired.
pub struct FoldState {
    pub display: Seq<DisplayView>,
    pub raw_to_display: Seq<u32>,
    pub hunk_first_display: Seq<u32>,
    pub pending: Seq<RowView>,
}

/// Pairs a run of changed rows: pair `j` holds the run's `j`-th Del and
/// `j`-th Add, and each row maps to the pair that holds it.
pub open spec fn flush(st: FoldState) -> FoldState {
    let p = st.pending;
    let dels = of_kind(p, RowKind::Del);
    let adds = of_kind(p, RowKind::Add);
    let n = if dels.len() >= adds.len() {
        dels.len()
    } else {
        adds.len()
    };
    let base = st.display.len();
    FoldState {
        display: st.display + Seq::new(
            n,
            |j: int| DisplayView::Pair(nth(dels, j), nth(adds, j)),
        ),
        raw_to_display: st.raw_to_display + Seq::new(
            p.len(),
            |k: int| (base + of_kind(p.take(k), p[k].kind).len()) as u32,
        ),
        hunk_first_display: st.hunk_first_display,
        pending: seq![],
    }
}

/// One folding step over row `r`.
pub open spec fn fold_step(st: FoldState, r: RowView) -> FoldState {
    if is_changed(r.kind) {
        FoldState { pending: st.pending.push(r), ..st }
    } else {
        let f = flush(st);
        FoldState {
            display: f.display.push(DisplayView::Full(r)),
            raw_to_display: f.raw_to_display.push(f.display.len() as u32),
            hunk_first_display: if r.kind == RowKind::Hunk {
                f.hunk_first_display.push(f.display.len() as u32)
            } else {
                f.hunk_first_display
            },
            pending: seq![],
        }
    }
}

/// Folding `rows` in order from `st`.
pub open spec fn fold_rows(st: FoldState, rows: Seq<RowView>) -> FoldState
    decreases rows.len(),
{
    if rows.len() == 0 {
        st
    } else {
        fold_step(fold_rows(st, rows.drop_last()), rows.last())
    }
}

/// `rows` with raw ordinals `offset, offset + 1, …`.
pub open spec fn with_ords(rows: Seq<RowView>, offset: nat) -> Seq<RowView> {
    Seq::new(rows.len(), |i: int| RowView { ord: (i + offset) as nat, ..rows[i] })
}

/// The leading rename-header row.
pub open spec fn header_row(text: Seq<char>) -> RowView {
    bare_row(RowKind::RenameHeader, text)
}

/// The display model of parsed rows plus the section scan: consecutive
/// Del/Add runs collapse into paired rows while meta/hunk/context stay
/// full-width, and a rename header, when any section has one, leads as its
/// own full-width row.
pub open spec fn model_spec(rows: Seq<RowView>, files: Seq<FileMetaView>) -> ModelView {
    let header = first_rename_header(files);
    let offset: nat = if header is Some {
        1
    } else {
        0
    };
    let start = match header {
        Some(h) => FoldState {
            display: seq![DisplayView::Full(header_row(h))],
            raw_to_display: seq![0u32],
            hunk_first_display: seq![],
            pending: seq![],
        },
        None => FoldState {
            display: seq![],
            raw_to_display: seq![],
            hunk_first_display: seq![],
            pending: seq![],
        },
    };
    let f = flush(fold_rows(start, with_ords(rows, offset)));
    ModelView {
        display: f.display,
        raw_count: rows.len() + offset,
        raw_to_display: f.raw_to_display,
        hunk_first_display: f.hunk_first_display,
        files,
        rename_header: header,
    }
}


/// The views of a vector of rows.
pub open spec fn row_views(v: Seq<Row>) -> Seq<RowView> {
    v.map_values(|r: Row| r@)
}

/// The views of a vector of display rows.
pub open spec fn display_views(v: Seq<DisplayRow>) -> Seq<DisplayView> {
    v.map_values(|d: DisplayRow| d@)
}

fn nth_copy(v: &Vec<Row>, j: usize) -> (r: Option<Row>)
    ensures
        opt_row(r) == nth(row_views(v@), j as int),
{
    if j < v.len() {
        Some(v[j].copy())
    } else {
        None
    }
}

/// Folds a buffered run of consecutive Del/Add rows into paired display
/// rows, recording each underlying row's display index in parse order.
fn flush_changed_run(pending: &mut Vec<Row>, display: &mut Vec<DisplayRow>, raw_to_display: &mut Vec<u32>)
    requires
        old(display)@.len() + old(pending)@.len() <= u32::MAX,
        forall|i: int| 0 <= i < old(pending)@.len() ==> is_changed(#[trigger] old(pending)@[i].kind),
    ensures
        ({
            let f = flush(
                FoldState {
                    display: display_views(old(display)@),
                    raw_to_display: old(raw_to_display)@,
                    hunk_first_display: seq![],
                    pending: row_views(old(pending)@),
                },
            );
            &&& display_views(final(display)@) == f.display
            &&& final(raw_to_display)@ == f.raw_to_display
        }),
        final(pending)@.len() == 0,
        final(display)@.len() <= old(display)@.len() + old(pending)@.len(),
{
    let ghost p = row_views(pending@);
    let ghost d0 = display_views(display@);
    let ghost m0 = raw_to_display@;
    let start = display.len() as u32;
    let mut dels: Vec<Row> = Vec::new();
    let mut adds: Vec<Row> = Vec::new();
    let mut slots: Vec<u32> = Vec::new();
    let mut i: usize = 0;
    while i < pending.len()
        invariant
            p == row_views(pending@),
            0 <= i <= pending@.len(),
            pending@.len() + start <= u32::MAX,
            forall|k: int| 0 <= k < pending@.len() ==> is_changed(#[trigger] pending@[k].kind),
            row_views(dels@) == of_kind(p.take(i as int), RowKind::Del),
            row_views(adds@) == of_kind(p.take(i as int), RowKind::Add),
            dels@.len() + adds@.len() == i,
            slots@.len() == i,
            forall|k: int|
                0 <= k < i ==> #[trigger] slots@[k] == of_kind(p.take(k), p[k].kind).len(),
        decreases pending@.len() - i,
    {
        let row = pending[i].copy();
        assert(p.take(i + 1).drop_last() =~= p.take(i as int));
        assert(p.take(i + 1).last() == p[i as int]);
        if row.kind == RowKind::Del {
            slots.push(dels.len() as u32);
            dels.push(row);
            assert(row_views(dels@) =~= of_kind(p.take(i as int), RowKind::Del).push(p[i as int]));
            assert(row_views(adds@) =~= of_kind(p.take(i + 1), RowKind::Add));
        } else {
            slots.push(adds.len() as u32);
            adds.push(row);
            assert(row_views(adds@) =~= of_kind(p.take(i as int), RowKind::Add).push(p[i as int]));
            assert(row_views(dels@) =~= of_kind(p.take(i + 1), RowKind::Del));
        }
        i += 1;
    }
    assert(p.take(i as int) =~= p);
    let pairs = if dels.len() >= adds.len() {
        dels.len()
    } else {
        adds.len()
    };
    let ghost dv = of_kind(p, RowKind::Del);
    let ghost av = of_kind(p, RowKind::Add);
    let mut j: usize = 0;
    while j < pairs
        invariant
            row_views(dels@) == dv,
            row_views(adds@) == av,
            pairs == (if dv.len() >= av.len() {
                dv.len()
            } else {
                av.len()
            }),
            0 <= j <= pairs,
            display_views(display@) == d0 + Seq::new(
                j as nat,
                |q: int| DisplayView::Pair(nth(dv, q), nth(av, q)),
            ),
        decreases pairs - j,
    {
        let d = nth_copy(&dels, j);
        let a = nth_copy(&adds, j);
        let ghost before = display@;
        let item = DisplayRow::Pair(d, a);
        assert(item@ == DisplayView::Pair(nth(dv, j as int), nth(av, j as int)));
        display.push(item);
        assert(display@ == before.push(item));
        assert(display_views(display@) =~= display_views(before).push(item@));
        assert(display_views(display@) =~= d0 + Seq::new(
            (j + 1) as nat,
            |q: int| DisplayView::Pair(nth(dv, q), nth(av, q)),
        ));
        j += 1;
    }
    let mut k: usize = 0;
    while k < slots.len()
        invariant
            slots@.len() == p.len(),
            p.len() + start <= u32::MAX,
            start == d0.len(),
            forall|q: int|
                0 <= q < p.len() ==> #[trigger] slots@[q] == of_kind(p.take(q), p[q].kind).len(),
            0 <= k <= slots@.len(),
            raw_to_display@ == m0 + Seq::new(
                k as nat,
                |q: int| (d0.len() + of_kind(p.take(q), p[q].kind).len()) as u32,
            ),
        decreases slots@.len() - k,
    {
        proof {
            lemma_of_kind_len(p.take(k as int), p[k as int].kind);
        }
        raw_to_display.push(start + slots[k]);
        assert(raw_to_display@ =~= m0 + Seq::new(
            (k + 1) as nat,
            |q: int| (d0.len() + of_kind(p.take(q), p[q].kind).len()) as u32,
        ));
        k += 1;
    }
    pending.clear();
    proof {
        lemma_of_kind_len(p, RowKind::Del);
        lemma_of_kind_len(p, RowKind::Add);
    }
}

pub proof fn lemma_of_kind_len(s: Seq<RowView>, k: RowKind)
    ensures
        of_kind(s, k).len() <= s.len(),
    decreases s.len(),
{
    if s.len() > 0 {
        lemma_of_kind_len(s.drop_last(), k);
    }
}


/// The views of a vector of section metadata.
pub open spec fn file_views(v: Seq<FileMeta>) -> Seq<FileMetaView> {
    v.map_values(|f: FileMeta| f@)
}

fn first_rename_header_of(files: &Vec<FileMeta>) -> (r: Option<String>)
    ensures
        opt_view(r) == first_rename_header(file_views(files@)),
{
    let ghost fs = file_views(files@);
    assert(fs.skip(0) =~= fs);
    let mut i: usize = 0;
    while i < files.len()
        invariant
            fs == file_views(files@),
            0 <= i <= files@.len(),
            first_rename_header(fs) == first_rename_header(fs.skip(i as int)),
        decreases files@.len() - i,
    {
        assert(fs.skip(i as int)[0] == files@[i as int]@);
        assert(fs.skip(i as int).skip(1) =~= fs.skip(i + 1));
        match rename_header_text(&files[i]) {
            Some(h) => {
                return Some(h);
            },
            None => {},
        }
        i += 1;
    }
    assert(fs.skip(i as int).len() == 0);
    None
}

/// Folds parsed rows plus the per-file section scan into the display-row
/// model: consecutive Del/Add runs collapse into paired display rows while
/// meta/hunk/context stay full-width, and a rename header, when the scan
/// found one, leads as its own full-width row.
pub fn build_model(rows: Vec<Row>, files: Vec<FileMeta>) -> (m: DiffModel)
    requires
        rows@.len() + 1 <= u32::MAX,
    ensures
        m@ == model_spec(row_views(rows@), file_views(files@)),
{
    let ghost rv = row_views(rows@);
    let ghost fv = file_views(files@);
    let mut display: Vec<DisplayRow> = Vec::new();
    let mut raw_to_display: Vec<u32> = Vec::new();
    let mut hunk_first_display: Vec<u32> = Vec::new();
    let rename_header = first_rename_header_of(&files);
    let offset: usize = match &rename_header {
        Some(text) => {
            raw_to_display.push(0);
            display.push(
                DisplayRow::Full(
                    Row {
                        kind: RowKind::RenameHeader,
                        text: copy_string(text),
                        hunk: 0,
                        line_ord: 0,
                        old_no: 0,
                        new_no: 0,
                        ord: 0,
                    },
                ),
            );
            1
        },
        None => 0,
    };
    let ghost start = match first_rename_header(fv) {
        Some(h) => FoldState {
            display: seq![DisplayView::Full(header_row(h))],
            raw_to_display: seq![0u32],
            hunk_first_display: seq![],
            pending: seq![],
        },
        None => FoldState {
            display: seq![],
            raw_to_display: seq![],
            hunk_first_display: seq![],
            pending: seq![],
        },
    };
    let ghost ords = with_ords(rv, offset as nat);
    assert(display_views(display@) =~= start.display);
    assert(raw_to_display@ =~= start.raw_to_display);
    let mut pending: Vec<Row> = Vec::new();
    let mut i: usize = 0;
    while i < rows.len()
        invariant
            rv == row_views(rows@),
            ords == with_ords(rv, offset as nat),
            rows@.len() + 1 <= u32::MAX,
            offset <= 1,
            0 <= i <= rows@.len(),
            display@.len() + pending@.len() <= i + offset,
            forall|k: int| 0 <= k < pending@.len() ==> is_changed(#[trigger] pending@[k].kind),
            ({
                let st = fold_rows(start, ords.take(i as int));
                &&& display_views(display@) == st.display
                &&& raw_to_display@ == st.raw_to_display
                &&& hunk_first_display@ == st.hunk_first_display
                &&& row_views(pending@) == st.pending
            }),
        decreases rows@.len() - i,
    {
        let mut row = rows[i].copy();
        row.ord = i + offset;
        let ghost r = row@;
        proof {
            assert(ords.take(i + 1).drop_last() =~= ords.take(i as int));
            assert(ords.take(i + 1).last() == r);
        }
        let ghost st = fold_rows(start, ords.take(i as int));
        let ghost hfd0 = hunk_first_display@;
        match row.kind {
            RowKind::Del | RowKind::Add => {
                pending.push(row);
                assert(row_views(pending@) =~= st.pending.push(r));
            },
            RowKind::Meta | RowKind::RenameHeader | RowKind::Context => {
                flush_changed_run(&mut pending, &mut display, &mut raw_to_display);
                let ghost before = display@;
                raw_to_display.push(display.len() as u32);
                let item = DisplayRow::Full(row);
                display.push(item);
                assert(display_views(display@) =~= display_views(before).push(item@));
            },
            RowKind::Hunk => {
                flush_changed_run(&mut pending, &mut display, &mut raw_to_display);
                hunk_first_display.push(display.len() as u32);
                let ghost before = display@;
                raw_to_display.push(display.len() as u32);
                let item = DisplayRow::Full(row);
                display.push(item);
                assert(display_views(display@) =~= display_views(before).push(item@));
            },
        }
        i += 1;
    }
    assert(ords.take(i as int) =~= ords);
    flush_changed_run(&mut pending, &mut display, &mut raw_to_display);
    DiffModel {
        display,
        raw_count: rows.len() + offset,
        raw_to_display,
        hunk_first_display,
        files,
        rename_header,
    }
}

impl DiffModel {
    /// Number of parsed hunks.
    pub fn hunk_count(&self) -> (r: usize)
        ensures
            r == self@.hunk_first_display.len(),
    {
        self.hunk_first_display.len()
    }

    /// Whether the open diff is a pure rename: a detected rename with 100%
    /// similarity, no content hunks, and no file-mode creation/deletion.
    pub fn pure_rename(&self) -> (r: bool)
        ensures
            r == (self@.hunk_first_display.len() == 0 && self@.files.len() > 0 && ({
                let f = self@.files[0];
                f.renamed && f.similarity == Some(100nat) && !f.new_file && !f.deleted_file
            })),
    {
        if self.hunk_count() != 0 || self.files.len() == 0 {
            return false;
        }
        let f = &self.files[0];
        assert(self@.files[0] == f@);
        f.renamed && f.similarity == Some(100u32) && !f.new_file && !f.deleted_file
    }

    /// First display-row index aiming at `hunk`: the paired-model index in
    /// side-by-side mode, otherwise the raw ordinal of the header row.
    pub fn first_row_for_hunk(&self, hunk: usize, side_by_side: bool) -> (r: Option<usize>)
        requires
            forall|h: int|
                0 <= h < self@.hunk_first_display.len() ==> (#[trigger] self@.hunk_first_display[h])
                    < self@.display.len(),
        ensures
            r == first_row_spec(self@, hunk as int, side_by_side),
    {
        if hunk >= self.hunk_first_display.len() {
            return None;
        }
        let disp = self.hunk_first_display[hunk] as usize;
        if side_by_side {
            Some(disp)
        } else {
            assert(self@.display[disp as int] == self.display@[disp as int]@);
            match &self.display[disp] {
                DisplayRow::Full(row) => Some(row.ord),
                DisplayRow::Pair(..) => Some(disp),
            }
        }
    }
}

/// The display index [`DiffModel::first_row_for_hunk`] aims at.
pub open spec fn first_row_spec(m: ModelView, hunk: int, side_by_side: bool) -> Option<usize> {
    if hunk < 0 || hunk >= m.hunk_first_display.len() {
        None
    } else {
        let disp = m.hunk_first_display[hunk] as int;
        if side_by_side {
            Some(disp as usize)
        } else {
            match m.display[disp] {
                DisplayView::Full(row) => Some(row.ord as usize),
                DisplayView::Pair(..) => Some(disp as usize),
            }
        }
    }
}


// --- memoized model ------------------------------------------------------------------

pub proof fn lemma_parse_len(ls: Seq<Seq<char>>)
    ensures
        parse_lines(ls).1.len() == ls.len(),
    decreases ls.len(),
{
    if ls.len() > 0 {
        lemma_parse_len(ls.drop_last());
    }
}

/// The texts the model is built for: counters stay in range and the row
/// indices fit the `u32` maps.
pub open spec fn model_text_ok(text: Seq<char>) -> bool {
    parse_in_range(text) && lines(text).len() + 1 <= u32::MAX
}

/// The display model of a diff text.
pub open spec fn model_of_text(text: Seq<char>) -> ModelView {
    model_spec(parse_spec(text), scan_spec(text))
}

/// Builds the display model of `text`.
pub fn model_for_text(text: &str) -> (m: DiffModel)
    requires
        model_text_ok(text@),
    ensures
        m@ == model_of_text(text@),
{
    let rows = parse(text);
    let files = scan_files(text);
    proof {
        lemma_parse_len(lines(text@));
        assert(row_views(rows@) =~= parse_spec(text@));
        assert(file_views(files@) =~= scan_spec(text@));
    }
    build_model(rows, files)
}

/// A second handle on the same shared model.
#[verifier::external_body]
fn share(m: &std::rc::Rc<DiffModel>) -> (r: std::rc::Rc<DiffModel>)
    ensures
        r == *m,
{
    std::rc::Rc::clone(m)
}


/// Single-entry memo of the last built display model, keyed by the raw diff
/// text itself, so a frame that shows the same diff again reuses the model.
pub struct DiffModelMemo {
    last: Option<(String, std::rc::Rc<DiffModel>)>,
}

impl DiffModelMemo {
    /// The cached model, if any, is the model of the cached text.
    pub closed spec fn wf(&self) -> bool {
        match self.last {
            Some((t, m)) => m@ == model_of_text(t@),
            None => true,
        }
    }

    /// The text whose model is cached.
    pub closed spec fn cached_text(&self) -> Option<Seq<char>> {
        match self.last {
            Some((t, _)) => Some(t@),
            None => None,
        }
    }

    /// An empty memo.
    pub fn new() -> (r: Self)
        ensures
            r.wf(),
            r.cached_text() is None,
    {
        DiffModelMemo { last: None }
    }

    /// The display model of `text`, built only when the text differs from the
    /// cached one.
    pub fn model(&mut self, text: &str) -> (r: std::rc::Rc<DiffModel>)
        requires
            old(self).wf(),
            model_text_ok(text@),
        ensures
            final(self).wf(),
            final(self).cached_text() == Some(text@),
            r@ == model_of_text(text@),
    {
        let cached = match &self.last {
            Some((existing, m)) => if crate::text::str_eq(existing.as_str(), text) {
                Some(share(m))
            } else {
                None
            },
            None => None,
        };
        match cached {
            Some(m) => m,
            None => {
                let fresh = std::rc::Rc::new(model_for_text(text));
                self.last = Some((string_from(text), share(&fresh)));
                fresh
            },
        }
    }
}

} // verus!
