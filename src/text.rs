use vstd::prelude::*;

verus! {

/// The pieces of `s` between occurrences of `d`; there is always at least one.
pub open spec fn split_on(s: Seq<char>, d: char) -> Seq<Seq<char>>
    decreases s.len(),
{
    if s.len() == 0 {
        seq![seq![]]
    } else {
        let p = split_on(s.drop_last(), d);
        if s.last() == d {
            p.push(seq![])
        } else {
            p.update(p.len() - 1, p.last().push(s.last()))
        }
    }
}

/// The characters that `char::is_whitespace` accepts: those with the Unicode
/// `White_Space` property.
pub open spec fn is_whitespace(c: char) -> bool {
    ('\u{9}' <= c && c <= '\u{d}') || c == ' ' || c == '\u{85}' || c == '\u{a0}' || c
        == '\u{1680}' || ('\u{2000}' <= c && c <= '\u{200a}') || c == '\u{2028}' || c
        == '\u{2029}' || c == '\u{202f}' || c == '\u{205f}' || c == '\u{3000}'
}

/// What is trimmed from the ends of a line or a cell.
#[derive(Clone, Copy, PartialEq, Eq, Structural, Debug)]
pub enum Pad {
    Bar,
    Space,
}

/// True of the characters that `p` trims.
pub open spec fn is_pad(c: char, p: Pad) -> bool {
    match p {
        Pad::Bar => c == '|',
        Pad::Space => is_whitespace(c),
    }
}

/// `s` without its leading pad characters.
pub open spec fn trim_front(s: Seq<char>, p: Pad) -> Seq<char>
    decreases s.len(),
{
    if s.len() > 0 && is_pad(s[0], p) {
        trim_front(s.drop_first(), p)
    } else {
        s
    }
}

/// `s` without its trailing pad characters.
pub open spec fn trim_back(s: Seq<char>, p: Pad) -> Seq<char>
    decreases s.len(),
{
    if s.len() > 0 && is_pad(s.last(), p) {
        trim_back(s.drop_last(), p)
    } else {
        s
    }
}

/// `s` without the pad characters at either end.
pub open spec fn trim(s: Seq<char>, p: Pad) -> Seq<char> {
    trim_back(trim_front(s, p), p)
}

/// The lines of a text, as `str::lines` gives them: split at `'\n'`, and a
/// `'\r'` right before a `'\n'` dropped. A last empty line is kept here; it
/// holds no cell delimiter and never becomes a row.
pub open spec fn report_lines(text: Seq<char>) -> Seq<Seq<char>> {
    let p = split_on(text, '\n');
    Seq::new(
        p.len(),
        |i: int|
            if i + 1 < p.len() && p[i].len() > 0 && p[i].last() == '\r' {
                p[i].drop_last()
            } else {
                p[i]
            },
    )
}

/// The cells of a table line: the line without its outer `|` characters,
/// split at each `|`, each piece without surrounding whitespace.
pub open spec fn row_cells(line: Seq<char>) -> Seq<Seq<char>> {
    split_on(trim(line, Pad::Bar), '|').map_values(|c: Seq<char>| trim(c, Pad::Space))
}

/// The rows of the lines that hold a `|`, in order.
pub open spec fn rows_of_lines(lines: Seq<Seq<char>>) -> Seq<Seq<Seq<char>>>
    decreases lines.len(),
{
    if lines.len() == 0 {
        seq![]
    } else if lines.last().contains('|') {
        rows_of_lines(lines.drop_last()).push(row_cells(lines.last()))
    } else {
        rows_of_lines(lines.drop_last())
    }
}

/// The table rows of a report text.
pub open spec fn report_rows(text: Seq<char>) -> Seq<Seq<Seq<char>>> {
    rows_of_lines(report_lines(text))
}

/// The characters of `text`, in order.
fn chars_of(text: &str) -> (r: Vec<char>)
    ensures
        r@ == text@,
{
    broadcast use vstd::string::group_string_axioms;

    let mut v: Vec<char> = Vec::new();
    for c in it: text.chars()
        invariant
            v@ == it.seq().take(it.index() as int),
            it.seq() == text@,
    {
        v.push(c);
    }
    v
}

/// The pieces of `s` that the ranges `rs` cover.
pub open spec fn range_views(s: Seq<char>, rs: Seq<(usize, usize)>) -> Seq<Seq<char>> {
    rs.map_values(|r: (usize, usize)| s.subrange(r.0 as int, r.1 as int))
}

/// The ranges of the pieces of `v[lo..hi]` between occurrences of `d`.
fn split_ranges(v: &Vec<char>, lo: usize, hi: usize, d: char) -> (r: Vec<(usize, usize)>)
    requires
        lo <= hi <= v@.len(),
    ensures
        range_views(v@, r@) == split_on(v@.subrange(lo as int, hi as int), d),
        forall|k: int| 0 <= k < r@.len() ==> lo <= (#[trigger] r@[k]).0 <= r@[k].1 <= hi,
{
    let mut ranges: Vec<(usize, usize)> = Vec::new();
    let mut cur: usize = lo;
    let mut i: usize = lo;
    assert(v@.subrange(lo as int, lo as int) =~= Seq::<char>::empty());
    assert(range_views(v@, ranges@).push(v@.subrange(cur as int, i as int)) =~= seq![seq![]]);
    while i < hi
        invariant
            lo <= cur <= i <= hi,
            hi <= v@.len(),
            range_views(v@, ranges@).push(v@.subrange(cur as int, i as int)) == split_on(
                v@.subrange(lo as int, i as int),
                d,
            ),
            forall|k: int| 0 <= k < ranges@.len() ==> lo <= (#[trigger] ranges@[k]).0 <= ranges@[k].1 <= cur,
        decreases hi - i,
    {
        let ghost s = v@.subrange(lo as int, i + 1);
        assert(s.drop_last() =~= v@.subrange(lo as int, i as int));
        assert(s.last() == v@[i as int]);
        let ghost before = range_views(v@, ranges@);
        if v[i] == d {
            ranges.push((cur, i));
            cur = i + 1;
            assert(range_views(v@, ranges@) =~= before.push(v@.subrange(ranges@.last().0 as int, i as int)));
            assert(v@.subrange(cur as int, i + 1) =~= Seq::<char>::empty());
        } else {
            assert(v@.subrange(cur as int, i + 1) =~= v@.subrange(cur as int, i as int).push(v@[i as int]));
        }
        i = i + 1;
        assert(range_views(v@, ranges@).push(v@.subrange(cur as int, i as int)) =~= split_on(
            v@.subrange(lo as int, i as int),
            d,
        ));
    }
    let ghost before = range_views(v@, ranges@);
    ranges.push((cur, hi));
    assert(range_views(v@, ranges@) =~= before.push(v@.subrange(cur as int, hi as int)));
    ranges
}

} // verus!

verus! {

proof fn lemma_trim_front(s: Seq<char>, p: Pad, k: int)
    requires
        0 <= k <= s.len(),
        forall|j: int| 0 <= j < k ==> is_pad(#[trigger] s[j], p),
        k == s.len() || !is_pad(s[k], p),
    ensures
        trim_front(s, p) == s.skip(k),
    decreases k,
{
    if k > 0 {
        assert forall|j: int| 0 <= j < k - 1 implies is_pad(#[trigger] s.drop_first()[j], p) by {
            assert(s.drop_first()[j] == s[j + 1]);
        }
        lemma_trim_front(s.drop_first(), p, k - 1);
        assert(s.drop_first().skip(k - 1) =~= s.skip(k));
    } else {
        assert(s.skip(0) =~= s);
    }
}

proof fn lemma_trim_back(s: Seq<char>, p: Pad, k: int)
    requires
        0 <= k <= s.len(),
        forall|j: int| k <= j < s.len() ==> is_pad(#[trigger] s[j], p),
        k == 0 || !is_pad(s[k - 1], p),
    ensures
        trim_back(s, p) == s.take(k),
    decreases s.len() - k,
{
    if k < s.len() {
        assert(is_pad(s.last(), p));
        lemma_trim_back(s.drop_last(), p, k);
        assert(s.drop_last().take(k) =~= s.take(k));
    } else {
        assert(s.take(k) =~= s);
    }
}

fn pad_char(c: char, p: Pad) -> (r: bool)
    ensures
        r == is_pad(c, p),
{
    match p {
        Pad::Bar => c == '|',
        Pad::Space => ('\u{9}' <= c && c <= '\u{d}') || c == ' ' || c == '\u{85}' || c == '\u{a0}'
            || c == '\u{1680}' || ('\u{2000}' <= c && c <= '\u{200a}') || c == '\u{2028}' || c
            == '\u{2029}' || c == '\u{202f}' || c == '\u{205f}' || c == '\u{3000}',
    }
}

/// The range of `v[lo..hi]` left once the pad characters at both ends are dropped.
fn trim_range(v: &Vec<char>, lo: usize, hi: usize, p: Pad) -> (r: (usize, usize))
    requires
        lo <= hi <= v@.len(),
    ensures
        lo <= r.0 <= r.1 <= hi,
        v@.subrange(r.0 as int, r.1 as int) == trim(v@.subrange(lo as int, hi as int), p),
{
    let ghost s = v@.subrange(lo as int, hi as int);
    let mut a: usize = lo;
    while a < hi && pad_char(v[a], p)
        invariant
            lo <= a <= hi,
            hi <= v@.len(),
            s == v@.subrange(lo as int, hi as int),
            forall|j: int| 0 <= j < a - lo ==> is_pad(#[trigger] s[j], p),
        decreases hi - a,
    {
        assert(s[a - lo] == v@[a as int]);
        a = a + 1;
    }
    assert(a < hi ==> s[a - lo] == v@[a as int]);
    proof {
        lemma_trim_front(s, p, a - lo);
    }
    let ghost t = v@.subrange(a as int, hi as int);
    assert(s.skip(a - lo) =~= t);
    let mut b: usize = hi;
    while b > a && pad_char(v[b - 1], p)
        invariant
            a <= b <= hi,
            hi <= v@.len(),
            t == v@.subrange(a as int, hi as int),
            forall|j: int| b - a <= j < t.len() ==> is_pad(#[trigger] t[j], p),
        decreases b - a,
    {
        assert(t[b - 1 - a] == v@[b - 1]);
        b = b - 1;
    }
    assert(b > a ==> t[b - 1 - a] == v@[b - 1]);
    proof {
        lemma_trim_back(t, p, b - a);
    }
    assert(t.take(b - a) =~= v@.subrange(a as int, b as int));
    (a, b)
}

/// The cells of the line `v[lo..hi]`, whose text is `line`.
fn cells_of(line: &str, v: &Vec<char>, lo: usize, hi: usize) -> (r: Vec<String>)
    requires
        lo <= hi <= v@.len(),
        line@ == v@.subrange(lo as int, hi as int),
    ensures
        r.deep_view() == row_cells(v@.subrange(lo as int, hi as int)),
{
    let (a, b) = trim_range(v, lo, hi, Pad::Bar);
    let pieces = split_ranges(v, a, b, '|');
    let ghost sp = split_on(v@.subrange(a as int, b as int), '|');
    let mut cells: Vec<String> = Vec::new();
    let mut k: usize = 0;
    while k < pieces.len()
        invariant
            k <= pieces@.len(),
            lo <= a <= b <= hi,
            hi <= v@.len(),
            line@ == v@.subrange(lo as int, hi as int),
            range_views(v@, pieces@) == sp,
            forall|q: int| 0 <= q < pieces@.len() ==> a <= (#[trigger] pieces@[q]).0 <= pieces@[q].1 <= b,
            cells.deep_view() == sp.take(k as int).map_values(|c: Seq<char>| trim(c, Pad::Space)),
        decreases pieces@.len() - k,
    {
        let (x, y) = pieces[k];
        assert(sp[k as int] == v@.subrange(x as int, y as int));
        let (x2, y2) = trim_range(v, x, y, Pad::Space);
        let cell = line.substring_char(x2 - lo, y2 - lo).to_owned();
        assert(cell@ =~= v@.subrange(x2 as int, y2 as int));
        let ghost before = cells.deep_view();
        cells.push(cell);
        assert(cells.deep_view() =~= before.push(cell@));
        assert(sp.take(k + 1) =~= sp.take(k as int).push(sp[k as int]));
        assert(cells.deep_view() =~= sp.take(k + 1).map_values(|c: Seq<char>| trim(c, Pad::Space)));
        k = k + 1;
    }
    assert(sp.take(k as int) =~= sp);
    cells
}

/// True when `v[lo..hi]` holds `c`.
fn has_char(v: &Vec<char>, lo: usize, hi: usize, c: char) -> (r: bool)
    requires
        lo <= hi <= v@.len(),
    ensures
        r == v@.subrange(lo as int, hi as int).contains(c),
{
    let ghost s = v@.subrange(lo as int, hi as int);
    let mut i: usize = lo;
    while i < hi
        invariant
            lo <= i <= hi,
            hi <= v@.len(),
            s == v@.subrange(lo as int, hi as int),
            forall|j: int| 0 <= j < i - lo ==> s[j] != c,
        decreases hi - i,
    {
        if v[i] == c {
            assert(s[i - lo] == c);
            return true;
        }
        i = i + 1;
    }
    false
}

/// The table rows of a report: each line that holds a `|`, with its outer
/// `|` characters dropped, split at `|`, and each cell trimmed of whitespace.
pub fn tokenize(text: &str) -> (r: Vec<Vec<String>>)
    ensures
        r.deep_view() == report_rows(text@),
{
    let v = chars_of(text);
    let n = v.len();
    let lines = split_ranges(&v, 0, n, '\n');
    let ghost p = split_on(text@, '\n');
    let ghost ls = report_lines(text@);
    assert(v@.subrange(0, n as int) =~= text@);
    let mut rows: Vec<Vec<String>> = Vec::new();
    let mut k: usize = 0;
    while k < lines.len()
        invariant
            k <= lines@.len(),
            v@ == text@,
            n == v@.len(),
            range_views(v@, lines@) == p,
            p == split_on(text@, '\n'),
            ls == report_lines(text@),
            forall|q: int| 0 <= q < lines@.len() ==> 0 <= (#[trigger] lines@[q]).0 <= lines@[q].1 <= n,
            rows.deep_view() == rows_of_lines(ls.take(k as int)),
        decreases lines@.len() - k,
    {
        let (start, end) = lines[k];
        assert(p[k as int] == v@.subrange(start as int, end as int));
        let mut stop = end;
        if k + 1 < lines.len() && end > start && v[end - 1] == '\r' {
            stop = end - 1;
            assert(p[k as int].drop_last() =~= v@.subrange(start as int, stop as int));
        }
        assert(ls[k as int] == v@.subrange(start as int, stop as int));
        assert(ls.take(k + 1).drop_last() =~= ls.take(k as int));
        if has_char(&v, start, stop, '|') {
            let line = text.substring_char(start, stop);
            let ghost before = rows.deep_view();
            rows.push(cells_of(line, &v, start, stop));
            assert(rows.deep_view() =~= before.push(row_cells(ls[k as int])));
        }
        k = k + 1;
    }
    assert(ls.take(k as int) =~= ls);
    rows
}

} // verus!
