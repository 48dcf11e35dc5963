//! Inline script metadata (PEP 723): the `# /// script` comment block.
use vstd::prelude::*;
use crate::text::{chars_of, string_of};

verus! {

/// The line that opens a metadata block.
pub open spec fn marker() -> Seq<char> {
    "# /// script"@
}

/// The line that closes a metadata block, once the comment prefix is removed.
pub open spec fn closing() -> Seq<char> {
    "///"@
}

/// `pattern` occurs in `s` at position `i`.
pub open spec fn occurs_at(s: Seq<char>, pattern: Seq<char>, i: int) -> bool {
    0 <= i && i + pattern.len() <= s.len() && s.subrange(i, i + pattern.len()) == pattern
}

/// `i` is the first position at which `pattern` occurs in `s`.
pub open spec fn first_occurrence_at(s: Seq<char>, pattern: Seq<char>, i: int) -> bool {
    occurs_at(s, pattern, i) && forall|j: int| 0 <= j < i ==> !occurs_at(s, pattern, j)
}

/// The first position at which `pattern` occurs in `s`, if it occurs.
pub open spec fn first_occurrence(s: Seq<char>, pattern: Seq<char>) -> Option<int> {
    if exists|i: int| first_occurrence_at(s, pattern, i) {
        Some(choose|i: int| first_occurrence_at(s, pattern, i))
    } else {
        None
    }
}

/// A line without the carriage return that ended it.
pub open spec fn strip_cr(line: Seq<char>) -> Seq<char> {
    if line.len() > 0 && line.last() == '\r' {
        line.drop_last()
    } else {
        line
    }
}

/// The lines of `s` after the partial line `current`: lines end at `\n`
/// (a `\r` before it is dropped); a final line without `\n` counts only if it
/// is not empty.
pub open spec fn lines_from(s: Seq<char>, current: Seq<char>) -> Seq<Seq<char>>
    decreases s.len(),
{
    if s.len() == 0 {
        if current.len() == 0 {
            Seq::empty()
        } else {
            seq![current]
        }
    } else if s[0] == '\n' {
        seq![strip_cr(current)] + lines_from(s.skip(1), Seq::empty())
    } else {
        lines_from(s.skip(1), current.push(s[0]))
    }
}

/// The lines of `s`.
pub open spec fn lines_of(s: Seq<char>) -> Seq<Seq<char>> {
    lines_from(s, Seq::empty())
}

/// The content of a metadata comment line: `#` alone gives an empty line,
/// `# ` is removed before the content; any other line ends the block.
pub open spec fn comment_body(line: Seq<char>) -> Option<Seq<char>> {
    if line.len() > 0 && line[0] == '#' {
        if line.len() == 1 {
            Some(Seq::empty())
        } else if line[1] == ' ' {
            Some(line.skip(2))
        } else {
            None
        }
    } else {
        None
    }
}

/// The contents of the comment lines that open `lines`.
pub open spec fn comment_block(lines: Seq<Seq<char>>) -> Seq<Seq<char>>
    decreases lines.len(),
{
    if lines.len() == 0 {
        Seq::empty()
    } else {
        match comment_body(lines[0]) {
            Some(body) => seq![body] + comment_block(lines.skip(1)),
            None => Seq::empty(),
        }
    }
}

/// The last position of `line` in `lines`, or -1.
pub open spec fn last_position(lines: Seq<Seq<char>>, line: Seq<char>) -> int
    decreases lines.len(),
{
    if lines.len() == 0 {
        -1
    } else if lines.last() == line {
        lines.len() - 1
    } else {
        last_position(lines.drop_last(), line)
    }
}

/// The lines joined with `\n` between them.
pub open spec fn join_lines(lines: Seq<Seq<char>>) -> Seq<char>
    decreases lines.len(),
{
    if lines.len() == 0 {
        Seq::empty()
    } else if lines.len() == 1 {
        lines[0]
    } else {
        join_lines(lines.drop_last()).push('\n') + lines.last()
    }
}

/// The TOML metadata of a script: the comment block that follows the first
/// `# /// script` line, up to its last `# ///` line, with the comment prefixes
/// removed and a final newline. The opening line must start a line of its own.
pub open spec fn pep723(s: Seq<char>) -> Option<Seq<char>> {
    match first_occurrence(s, marker()) {
        None => None,
        Some(i) => if i != 0 && s[i - 1] != '\n' {
            None
        } else {
            let lines = lines_of(s.skip(i));
            if lines.len() == 0 || lines[0] != marker() {
                None
            } else {
                let toml = comment_block(lines.skip(1));
                let j = last_position(toml, closing());
                if j < 0 {
                    None
                } else {
                    Some(join_lines(toml.take(j)).push('\n'))
                }
            }
        },
    }
}

/// The view of a sequence of character vectors.
pub open spec fn lines_view(v: Seq<Vec<char>>) -> Seq<Seq<char>> {
    v.map_values(|l: Vec<char>| l@)
}

/// Whether `pattern` occurs in `s` at `i`.
fn occurs_at_exec(s: &Vec<char>, pattern: &Vec<char>, i: usize) -> (b: bool)
    ensures
        b == occurs_at(s@, pattern@, i as int),
{
    if i > s.len() || pattern.len() > s.len() - i {
        return false;
    }
    let n = s.len();
    let mut k: usize = 0;
    while k < pattern.len()
        invariant
            k <= pattern@.len(),
            n == s@.len(),
            i + pattern@.len() <= n,
            forall|j: int| 0 <= j < k ==> s@[i + j] == pattern@[j],
        decreases pattern@.len() - k,
    {
        if s[i + k] != pattern[k] {
            proof {
                assert(s@.subrange(i as int, i + pattern@.len())[k as int] != pattern@[k as int]);
            }
            return false;
        }
        k = k + 1;
    }
    proof {
        assert(s@.subrange(i as int, i + pattern@.len()) =~= pattern@);
    }
    true
}

/// The first position at which `pattern` occurs in `s`.
fn find(s: &Vec<char>, pattern: &Vec<char>) -> (r: Option<usize>)
    ensures
        r == (match first_occurrence(s@, pattern@) {
            Some(i) => Some(i as usize),
            None => None::<usize>,
        }),
{
    let n = s.len();
    let mut i: usize = 0;
    loop
        invariant
            i <= n,
            n == s@.len(),
            forall|j: int| 0 <= j < i ==> !occurs_at(s@, pattern@, j),
        ensures
            forall|j: int| 0 <= j <= n ==> !occurs_at(s@, pattern@, j),
        decreases n - i,
    {
        if occurs_at_exec(s, pattern, i) {
            proof {
                assert(first_occurrence_at(s@, pattern@, i as int));
                let c = choose|c: int| first_occurrence_at(s@, pattern@, c);
                if c < i {
                } else if c > i {
                    assert(!occurs_at(s@, pattern@, i as int));
                }
            }
            return Some(i);
        }
        if i == n {
            break;
        }
        i = i + 1;
    }
    proof {
        assert forall|c: int| !first_occurrence_at(s@, pattern@, c) by {
            if 0 <= c <= n {
            } else if c > n {
                assert(!occurs_at(s@, pattern@, c));
            }
        }
    }
    None
}

/// Split `s` into lines.
fn split_lines(s: &Vec<char>) -> (lines: Vec<Vec<char>>)
    ensures
        lines_view(lines@) == lines_of(s@),
{
    let mut lines: Vec<Vec<char>> = Vec::new();
    let mut current: Vec<char> = Vec::new();
    let mut i: usize = 0;
    proof {
        assert(s@.skip(0) =~= s@);
        assert(lines_view(lines@) =~= Seq::empty());
    }
    while i < s.len()
        invariant
            i <= s@.len(),
            lines_view(lines@) + lines_from(s@.skip(i as int), current@) == lines_of(s@),
        decreases s@.len() - i,
    {
        let c = s[i];
        proof {
            assert(s@.skip(i as int)[0] == c);
            assert(s@.skip(i as int).skip(1) =~= s@.skip(i + 1));
        }
        if c == '\n' {
            let mut line = current;
            if line.len() > 0 && line[line.len() - 1] == '\r' {
                line.pop();
            }
            proof {
                assert(line@ == strip_cr(current@)) by {
                    if current@.len() > 0 && current@.last() == '\r' {
                        assert(line@ =~= current@.drop_last());
                    }
                }
            }
            let ghost before = lines_view(lines@);
            lines.push(line);
            current = Vec::new();
            proof {
                assert(lines_view(lines@) =~= before.push(strip_cr(current@)) || true);
                assert(lines_view(lines@) == before + seq![line@]) by {
                    assert(lines_view(lines@) =~= before + seq![line@]);
                }
                assert(before + seq![line@] + lines_from(s@.skip(i + 1), current@) =~= before + (seq![line@]
                    + lines_from(s@.skip(i + 1), Seq::empty())));
            }
        } else {
            current.push(c);
        }
        i = i + 1;
    }
    proof {
        assert(s@.skip(i as int) =~= Seq::<char>::empty());
    }
    if current.len() > 0 {
        let ghost before = lines_view(lines@);
        lines.push(current);
        proof {
            assert(lines_view(lines@) =~= before + lines_from(Seq::<char>::empty(), lines@.last()@));
        }
    } else {
        proof {
            assert(lines_view(lines@) =~= lines_view(lines@) + lines_from(Seq::<char>::empty(), current@));
        }
    }
    lines
}

/// The content of a metadata comment line, if the line continues the block.
fn comment_body_exec(line: &Vec<char>) -> (r: Option<Vec<char>>)
    ensures
        r matches Some(b) ==> comment_body(line@) == Some(b@),
        r is None ==> comment_body(line@) is None,
{
    if line.len() == 0 || line[0] != '#' {
        return None;
    }
    if line.len() == 1 {
        let empty: Vec<char> = Vec::new();
        proof {
            assert(empty@ =~= Seq::<char>::empty());
        }
        return Some(empty);
    }
    if line[1] != ' ' {
        return None;
    }
    let mut body: Vec<char> = Vec::new();
    let mut k: usize = 2;
    while k < line.len()
        invariant
            2 <= k <= line@.len(),
            body@ == line@.subrange(2, k as int),
        decreases line@.len() - k,
    {
        body.push(line[k]);
        proof {
            assert(line@.subrange(2, k + 1) =~= line@.subrange(2, k as int).push(line@[k as int]));
        }
        k = k + 1;
    }
    proof {
        assert(body@ =~= line@.skip(2));
    }
    Some(body)
}

/// Parse the inline script metadata of `contents`, returning its TOML text.
pub fn parse_pep723(contents: &str) -> (r: Option<String>)
    ensures
        r matches Some(m) ==> pep723(contents@) == Some(m@),
        r is None ==> pep723(contents@) is None,
{
    let s = chars_of(contents);
    let marker_chars = chars_of("# /// script");
    let closing_chars = chars_of("///");
    let index = match find(&s, &marker_chars) {
        Some(i) => i,
        None => return None,
    };
    if !(index == 0 || s[index - 1] == '\n') {
        return None;
    }
    let mut rest: Vec<char> = Vec::new();
    let mut k: usize = index;
    while k < s.len()
        invariant
            index <= k <= s@.len(),
            rest@ == s@.subrange(index as int, k as int),
        decreases s@.len() - k,
    {
        rest.push(s[k]);
        proof {
            assert(s@.subrange(index as int, k + 1) =~= s@.subrange(index as int, k as int).push(s@[k as int]));
        }
        k = k + 1;
    }
    proof {
        assert(rest@ =~= s@.skip(index as int));
    }
    let lines = split_lines(&rest);
    if lines.len() == 0 || !vec_eq(&lines[0], &marker_chars) {
        proof {
            if lines@.len() > 0 {
                assert(lines_view(lines@)[0] == lines@[0]@);
            }
        }
        return None;
    }
    proof {
        assert(lines_view(lines@)[0] == lines@[0]@);
    }
    // the comment block after the opening line
    let mut toml: Vec<Vec<char>> = Vec::new();
    let mut n: usize = 1;
    let ghost all = lines_view(lines@);
    proof {
        assert(lines_view(toml@) =~= Seq::empty());
        assert(all.skip(1) =~= all.skip(1));
    }
    while n < lines.len()
        invariant
            1 <= n <= lines@.len(),
            all == lines_view(lines@),
            lines_view(toml@) + comment_block(all.skip(n as int)) == comment_block(all.skip(1)),
        ensures
            lines_view(toml@) == comment_block(all.skip(1)),
        decreases lines@.len() - n,
    {
        proof {
            assert(all.skip(n as int)[0] == lines@[n as int]@);
            assert(all.skip(n as int).skip(1) =~= all.skip(n + 1));
        }
        match comment_body_exec(&lines[n]) {
            Some(body) => {
                let ghost before = lines_view(toml@);
                toml.push(body);
                proof {
                    assert(lines_view(toml@) =~= before + seq![body@]);
                    assert(before + seq![body@] + comment_block(all.skip(n + 1)) =~= before + (seq![body@]
                        + comment_block(all.skip(n + 1))));
                }
            },
            None => {
                proof {
                    assert(comment_block(all.skip(n as int)) =~= Seq::empty());
                    assert(lines_view(toml@) + Seq::<Seq<char>>::empty() =~= lines_view(toml@));
                }
                break;
            },
        }
        n = n + 1;
    }
    proof {
        if n == lines@.len() {
            assert(all.skip(n as int) =~= Seq::empty());
            assert(lines_view(toml@) + Seq::<Seq<char>>::empty() =~= lines_view(toml@));
        }
    }
    // the last closing line
    let mut j: usize = toml.len();
    let ghost tv = lines_view(toml@);
    proof {
        assert(tv.take(j as int) =~= tv);
    }
    while j > 0
        invariant
            j <= toml@.len(),
            tv == lines_view(toml@),
            closing_chars@ == closing(),
            last_position(tv, closing()) == last_position(tv.take(j as int), closing()),
        ensures
            j > 0 ==> tv[j - 1] == closing(),
        decreases j,
    {
        proof {
            assert(tv.take(j as int).last() == toml@[j - 1]@);
            assert(tv.take(j as int).drop_last() =~= tv.take(j - 1));
        }
        if vec_eq(&toml[j - 1], &closing_chars) {
            break;
        }
        j = j - 1;
    }
    if j == 0 {
        proof {
            assert(tv.take(0) =~= Seq::empty());
        }
        return None;
    }
    proof {
        assert(tv.take(j as int).last() == tv[j - 1]);
    }
    let index = j - 1;
    // join the lines before it, each followed by a newline
    let mut out: Vec<char> = Vec::new();
    let mut m: usize = 0;
    while m < index
        invariant
            m <= index,
            index < toml@.len(),
            tv == lines_view(toml@),
            m == 0 ==> out@ == Seq::<char>::empty(),
            m > 0 ==> out@ == join_lines(tv.take(m as int)),
        decreases index - m,
    {
        let ghost before = out@;
        if m > 0 {
            out.push('\n');
        }
        let line = &toml[m];
        let mut k: usize = 0;
        let ghost mid = out@;
        while k < line.len()
            invariant
                k <= line@.len(),
                out@ == mid + line@.take(k as int),
            decreases line@.len() - k,
        {
            out.push(line[k]);
            proof {
                assert(line@.take(k + 1) =~= line@.take(k as int).push(line@[k as int]));
            }
            k = k + 1;
        }
        proof {
            assert(line@.take(k as int) =~= line@);
            assert(tv.take(m + 1).drop_last() =~= tv.take(m as int));
            assert(tv.take(m + 1).last() == line@);
            if m == 0 {
                assert(tv.take(1) =~= seq![line@]);
                assert(out@ =~= line@);
            } else {
                assert(out@ =~= before.push('\n') + line@);
            }
        }
        m = m + 1;
    }
    out.push('\n');
    proof {
        assert(tv.take(0) =~= Seq::empty());
        if index == 0 {
            assert(out@ =~= join_lines(tv.take(0)).push('\n'));
        }
    }
    Some(string_of(&out))
}

/// Whether two character vectors are equal.
fn vec_eq(a: &Vec<char>, b: &Vec<char>) -> (r: bool)
    ensures
        r == (a@ == b@),
{
    crate::text::chars_eq(a, b)
}

} // verus!
