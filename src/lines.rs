use vstd::prelude::*;
use vstd::std_specs::iter::IteratorSpec;

verus! {

broadcast use vstd::string::group_string_axioms;

/// `line` without one trailing carriage return.
pub open spec fn strip_cr(line: Seq<char>) -> Seq<char> {
    if line.len() > 0 && line.last() == '\r' {
        line.drop_last()
    } else {
        line
    }
}

/// The lines of a text whose split has already produced `done` and holds the
/// unfinished line `cur`, when `rest` is what is left of the text.
///
/// A line ends at `\n`, and a `\r` just before that `\n` belongs to the line
/// ending; the text's last line needs no `\n`, and an empty text has no lines.
pub open spec fn lines_from(done: Seq<Seq<char>>, cur: Seq<char>, rest: Seq<char>) -> Seq<
    Seq<char>,
>
    decreases rest.len(),
{
    if rest.len() == 0 {
        if cur.len() == 0 {
            done
        } else {
            done.push(cur)
        }
    } else if rest[0] == '\n' {
        lines_from(done.push(strip_cr(cur)), Seq::empty(), rest.drop_first())
    } else {
        lines_from(done, cur.push(rest[0]), rest.drop_first())
    }
}

/// The lines of `text`.
pub open spec fn text_lines(text: Seq<char>) -> Seq<Seq<char>> {
    lines_from(Seq::empty(), Seq::empty(), text)
}

/// The contents of a vector of lines.
pub open spec fn lines_view(v: Seq<Vec<char>>) -> Seq<Seq<char>> {
    v.map_values(|l: Vec<char>| l@)
}

/// Splits `text` into its lines.
pub fn split_lines(text: &str) -> (r: Vec<Vec<char>>)
    ensures
        lines_view(r@) == text_lines(text@),
{
    let mut done: Vec<Vec<char>> = Vec::new();
    let mut cur: Vec<char> = Vec::new();
    let ghost n = text@.len();
    let ghost mut i: int = 0;
    let mut chars = text.chars();
    assert(text@.subrange(0, n as int) =~= text@);
    assert(lines_view(done@) =~= Seq::<Seq<char>>::empty());
    loop
        invariant
            n == text@.len(),
            0 <= i <= n,
            chars.remaining() == text@.subrange(i, n as int),
            lines_from(lines_view(done@), cur@, text@.subrange(i, n as int)) == text_lines(text@),
        ensures
            i == n,
            lines_from(lines_view(done@), cur@, Seq::empty()) == text_lines(text@),
        decreases n - i,
    {
        let ghost rest = text@.subrange(i, n as int);
        let next = chars.next();
        let c = match next {
            Some(c) => c,
            None => {
                break;
            },
        };
        assert(i < n);
        assert(rest[0] == c);
        assert(rest.drop_first() =~= text@.subrange(i + 1, n as int));
        if c == '\n' {
            let ghost old_done = done@;
            let ghost open_line = cur@;
            let len = cur.len();
            if len > 0 && cur[len - 1] == '\r' {
                cur.pop();
            }
            assert(cur@ == strip_cr(open_line)) by {
                if open_line.len() > 0 && open_line.last() == '\r' {
                    assert(cur@ =~= open_line.drop_last());
                }
            }
            let line = cur;
            cur = Vec::new();
            done.push(line);
            assert(lines_view(done@) =~= lines_view(old_done).push(strip_cr(open_line)));
        } else {
            cur.push(c);
        }
        proof {
            i = i + 1;
        }
    }
    if cur.len() > 0 {
        let ghost old_done = done@;
        let ghost last_line = cur@;
        done.push(cur);
        assert(lines_view(done@) =~= lines_view(old_done).push(last_line));
    }
    done
}

} // verus!
