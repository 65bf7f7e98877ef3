use vstd::prelude::*;

use crate::lines::{split_lines, text_lines, lines_view};
use crate::rename_table::{pair_insert, RenameTable};

verus! {

/// What starts a line that the probe's marker macro produced: the quoted
/// marker token and one space.
pub open spec fn marker() -> Seq<char> {
    seq!['"', 'R', 'U', 'S', 'T', '_', 'R', 'E', 'N', 'A', 'M', 'E', 'D', '"', ' ']
}

/// `s` without its double quotes.
pub open spec fn unquote(s: Seq<char>) -> Seq<char>
    decreases s.len(),
{
    if s.len() == 0 {
        s
    } else if s.last() == '"' {
        unquote(s.drop_last())
    } else {
        unquote(s.drop_last()).push(s.last())
    }
}

/// `i` is the position of the first space in `s`.
pub open spec fn is_first_space(s: Seq<char>, i: int) -> bool {
    0 <= i < s.len() && s[i] == ' ' && forall|j: int| 0 <= j < i ==> s[j] != ' '
}

/// The rename that a line of preprocessed output records, if it records one.
///
/// The line must start with the marker; what follows, without quotes, is the
/// visible name behind one extra leading character, a space, and the name it
/// expands to. A name that expands to itself or to nothing is no rename.
pub open spec fn rename_of_line(line: Seq<char>) -> Option<(Seq<char>, Seq<char>)> {
    let m = marker().len() as int;
    if line.len() >= m && line.subrange(0, m) == marker() {
        let rest = unquote(line.subrange(m, line.len() as int));
        if exists|i: int| is_first_space(rest, i) {
            let i = choose|i: int| is_first_space(rest, i);
            let visible = rest.subrange(1, i);
            let expanded = rest.subrange(i + 1, rest.len() as int);
            if i >= 1 && visible != expanded && expanded.len() > 0 {
                Some((visible, expanded))
            } else {
                None
            }
        } else {
            None
        }
    } else {
        None
    }
}

/// The rename table recorded by `lines`, read from the last line to the
/// first: where two lines disagree, the earlier line wins.
pub open spec fn table_of_lines(lines: Seq<Seq<char>>) -> Map<Seq<char>, Seq<char>>
    decreases lines.len(),
{
    if lines.len() == 0 {
        Map::empty()
    } else {
        let rest = table_of_lines(lines.drop_first());
        match rename_of_line(lines[0]) {
            Some((visible, expanded)) => pair_insert(rest, visible, expanded),
            None => rest,
        }
    }
}

/// The rename table recorded by the preprocessed text `text`.
pub open spec fn table_of_text(text: Seq<char>) -> Map<Seq<char>, Seq<char>> {
    table_of_lines(text_lines(text))
}

/// No visible name maps to itself or to an empty name.
pub open spec fn has_no_trivial_rename(m: Map<Seq<char>, Seq<char>>) -> bool {
    forall|k: Seq<char>| #[trigger] m.contains_key(k) ==> m[k] != k && m[k].len() > 0
}

pub open spec fn opt_pair_view(o: Option<(String, String)>) -> Option<(Seq<char>, Seq<char>)> {
    match o {
        Some((a, b)) => Some((a@, b@)),
        None => None,
    }
}

/// Relies on `String::push`: appends one character.
#[verifier::external_body]
fn push_char(s: &mut String, c: char)
    ensures
        final(s)@ == old(s)@.push(c),
{
    s.push(c);
}

/// The characters `v[from..to]` as a string.
fn string_of(v: &Vec<char>, from: usize, to: usize) -> (s: String)
    requires
        from <= to <= v.len(),
    ensures
        s@ == v@.subrange(from as int, to as int),
{
    let mut s = String::new();
    let mut k = from;
    while k < to
        invariant
            from <= k <= to <= v.len(),
            s@ == v@.subrange(from as int, k as int),
        decreases to - k,
    {
        push_char(&mut s, v[k]);
        assert(s@ =~= v@.subrange(from as int, k + 1));
        k += 1;
    }
    s
}

fn marker_chars() -> (v: Vec<char>)
    ensures
        v@ == marker(),
{
    let v = vec!['"', 'R', 'U', 'S', 'T', '_', 'R', 'E', 'N', 'A', 'M', 'E', 'D', '"', ' '];
    assert(v@ =~= marker());
    v
}

/// Whether `line` starts with the marker.
fn starts_with_marker(line: &Vec<char>) -> (b: bool)
    ensures
        b == (line@.len() >= marker().len() && line@.subrange(0, marker().len() as int)
            == marker()),
{
    let m = marker_chars();
    if line.len() < m.len() {
        return false;
    }
    let mut k: usize = 0;
    while k < m.len()
        invariant
            m@ == marker(),
            m.len() <= line.len(),
            k <= m.len(),
            forall|j: int| 0 <= j < k ==> line@[j] == m@[j],
        decreases m.len() - k,
    {
        if line[k] != m[k] {
            assert(line@.subrange(0, m.len() as int)[k as int] != marker()[k as int]);
            return false;
        }
        k += 1;
    }
    assert(line@.subrange(0, m.len() as int) =~= marker());
    true
}

/// `line[from..]` without its double quotes.
fn unquoted_tail(line: &Vec<char>, from: usize) -> (r: Vec<char>)
    requires
        from <= line.len(),
    ensures
        r@ == unquote(line@.subrange(from as int, line.len() as int)),
{
    let mut r: Vec<char> = Vec::new();
    let mut k = from;
    while k < line.len()
        invariant
            from <= k <= line.len(),
            r@ == unquote(line@.subrange(from as int, k as int)),
        decreases line.len() - k,
    {
        let ghost before = line@.subrange(from as int, k as int);
        let ghost after = line@.subrange(from as int, k + 1);
        assert(after.drop_last() =~= before);
        assert(after.last() == line@[k as int]);
        if line[k] != '"' {
            r.push(line[k]);
        }
        assert(r@ =~= unquote(after));
        k += 1;
    }
    r
}

/// Reads the rename recorded by one line of preprocessed output.
pub fn rename_in_line(line: &Vec<char>) -> (r: Option<(String, String)>)
    ensures
        opt_pair_view(r) == rename_of_line(line@),
{
    if !starts_with_marker(line) {
        return None;
    }
    let rest = unquoted_tail(line, 15);
    let mut i: usize = 0;
    while i < rest.len() && rest[i] != ' '
        invariant
            i <= rest.len(),
            forall|j: int| 0 <= j < i ==> rest@[j] != ' ',
        decreases rest.len() - i,
    {
        i += 1;
    }
    if i == rest.len() {
        assert(!exists|p: int| is_first_space(rest@, p)) by {
            assert forall|p: int| !is_first_space(rest@, p) by {
                if 0 <= p < rest@.len() {
                    assert(rest@[p] != ' ');
                }
            }
        }
        return None;
    }
    assert(is_first_space(rest@, i as int));
    let ghost c = choose|p: int| is_first_space(rest@, p);
    assert(c == i) by {
        if c < i {
            assert(rest@[c] != ' ');
        }
        if i < c {
            assert(rest@[i as int] != ' ');
        }
    }
    if i == 0 {
        return None;
    }
    if i + 1 == rest.len() {
        return None;
    }
    let visible = string_of(&rest, 1, i);
    let expanded = string_of(&rest, i + 1, rest.len());
    if visible == expanded {
        return None;
    }
    Some((visible, expanded))
}

/// Reads the rename table out of the text that the preprocessor made of the
/// probe source.
pub fn parse_expansion(text: &str) -> (t: RenameTable)
    ensures
        t.wf(),
        t@ == table_of_text(text@),
        has_no_trivial_rename(t@),
{
    let lines = split_lines(text);
    let mut t = RenameTable::new();
    let n = lines.len();
    let mut k: usize = n;
    let ghost all = lines_view(lines@);
    assert(all.subrange(n as int, n as int) =~= Seq::<Seq<char>>::empty());
    while k > 0
        invariant
            k <= n == lines.len(),
            all == lines_view(lines@),
            t.wf(),
            t@ == table_of_lines(all.subrange(k as int, n as int)),
        decreases k,
    {
        k -= 1;
        let ghost tail = all.subrange(k as int, n as int);
        assert(tail.drop_first() =~= all.subrange(k + 1, n as int));
        assert(tail[0] == lines@[k as int]@);
        match rename_in_line(&lines[k]) {
            Some((visible, expanded)) => {
                t.insert(visible, expanded);
            },
            None => {},
        }
    }
    assert(all.subrange(0, n as int) =~= all);
    proof {
        lemma_no_trivial_rename(all);
    }
    t
}

/// A table read from preprocessed output never holds a name that maps to
/// itself or to nothing, whatever the output is.
pub proof fn lemma_no_trivial_rename(lines: Seq<Seq<char>>)
    ensures
        has_no_trivial_rename(table_of_lines(lines)),
    decreases lines.len(),
{
    if lines.len() > 0 {
        lemma_no_trivial_rename(lines.drop_first());
    }
}

/// Inserting the same pair twice in a row is inserting it once.
proof fn lemma_pair_insert_twice(m: Map<Seq<char>, Seq<char>>, l: Seq<char>, r: Seq<char>)
    ensures
        pair_insert(pair_insert(m, l, r), l, r) == pair_insert(m, l, r),
{
    assert(pair_insert(pair_insert(m, l, r), l, r) =~= pair_insert(m, l, r));
}

/// What a later insertion of `(l, r)` keeps of a map depends only on the
/// pairs that hold neither `l` nor `r`, and an insertion before it keeps that
/// dependence.
proof fn lemma_pair_insert_commutes_under(
    a: Map<Seq<char>, Seq<char>>,
    b: Map<Seq<char>, Seq<char>>,
    l: Seq<char>,
    r: Seq<char>,
    x: Seq<char>,
    y: Seq<char>,
)
    requires
        pair_insert(a, l, r) == pair_insert(b, l, r),
    ensures
        pair_insert(pair_insert(a, x, y), l, r) == pair_insert(pair_insert(b, x, y), l, r),
{
    assert forall|k: Seq<char>| k != l implies (a.contains_key(k) && a[k] != r) == (b.contains_key(
        k,
    ) && b[k] != r) && (a.contains_key(k) && a[k] != r ==> a[k] == b[k]) by {
        assert(pair_insert(a, l, r).contains_key(k) == (a.contains_key(k) && a[k] != r));
        assert(pair_insert(b, l, r).contains_key(k) == (b.contains_key(k) && b[k] != r));
        if a.contains_key(k) && a[k] != r {
            assert(pair_insert(a, l, r)[k] == a[k]);
            assert(pair_insert(b, l, r)[k] == b[k]);
            assert(pair_insert(a, l, r)[k] == pair_insert(b, l, r)[k]);
        }
    }
    assert(pair_insert(pair_insert(a, x, y), l, r) =~= pair_insert(pair_insert(b, x, y), l, r));
}

/// A line that records no rename can be left out.
proof fn lemma_drop_silent_line(lines: Seq<Seq<char>>, k: int)
    requires
        0 <= k < lines.len(),
        rename_of_line(lines[k]) is None,
    ensures
        table_of_lines(lines) == table_of_lines(lines.remove(k)),
    decreases k,
{
    if k == 0 {
        assert(lines.remove(0) =~= lines.drop_first());
    } else {
        lemma_drop_silent_line(lines.drop_first(), k - 1);
        assert(lines.remove(k).drop_first() =~= lines.drop_first().remove(k - 1));
        assert(lines.remove(k)[0] == lines[0]);
    }
}

/// Ahead of a line with the rename `(l, r)`, a later line with the same
/// rename can be left out.
proof fn lemma_drop_covered_line(lines: Seq<Seq<char>>, k: int, l: Seq<char>, r: Seq<char>)
    requires
        0 <= k < lines.len(),
        rename_of_line(lines[k]) == Some((l, r)),
    ensures
        pair_insert(table_of_lines(lines), l, r) == pair_insert(
            table_of_lines(lines.remove(k)),
            l,
            r,
        ),
    decreases k,
{
    if k == 0 {
        assert(lines.remove(0) =~= lines.drop_first());
        lemma_pair_insert_twice(table_of_lines(lines.drop_first()), l, r);
    } else {
        let tail = lines.drop_first();
        lemma_drop_covered_line(tail, k - 1, l, r);
        assert(lines.remove(k).drop_first() =~= tail.remove(k - 1));
        assert(lines.remove(k)[0] == lines[0]);
        match rename_of_line(lines[0]) {
            Some((x, y)) => {
                lemma_pair_insert_commutes_under(
                    table_of_lines(tail),
                    table_of_lines(tail.remove(k - 1)),
                    l,
                    r,
                    x,
                    y,
                );
            },
            None => {},
        }
    }
}

/// A line of preprocessed output that repeats an earlier line changes
/// nothing in the table: a macro name probed twice gives the table it gives
/// when probed once.
pub proof fn lemma_repeated_line(lines: Seq<Seq<char>>, i: int, j: int)
    requires
        0 <= i < j < lines.len(),
        lines[i] == lines[j],
    ensures
        table_of_lines(lines) == table_of_lines(lines.remove(j)),
    decreases i,
{
    let tail = lines.drop_first();
    assert(lines.remove(j).drop_first() =~= tail.remove(j - 1));
    assert(lines.remove(j)[0] == lines[0]);
    if i > 0 {
        lemma_repeated_line(tail, i - 1, j - 1);
    } else {
        match rename_of_line(lines[0]) {
            Some((l, r)) => {
                lemma_drop_covered_line(tail, j - 1, l, r);
            },
            None => {
                lemma_drop_silent_line(tail, j - 1);
            },
        }
    }
}

} // verus!
