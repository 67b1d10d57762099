//! Character-sequence utilities shared by the two renderers: splitting a
//! label into lines, repeated glyphs, columns of a rectangular label, and
//! the row-wise interleaving of columns.

use vstd::prelude::*;
use vstd::string::StrSliceExecFns;

verus! {

/// `n` copies of `c` (empty when `n` is not positive).
pub open spec fn rep(c: char, n: int) -> Seq<char> {
    Seq::new((if n >= 0 { n } else { 0 }) as nat, |i: int| c)
}

/// Index of the first line break in `s`, or `-1` when there is none.
pub open spec fn first_nl(s: Seq<char>) -> int
    decreases s.len(),
{
    if s.len() == 0 {
        -1
    } else if s[0] == '\n' {
        0
    } else {
        let r = first_nl(s.drop_first());
        if r < 0 {
            -1
        } else {
            r + 1
        }
    }
}

/// The lines of `s`: `s` split on line breaks. There is always at least
/// one line, and a line never holds a break itself.
pub open spec fn split_lines(s: Seq<char>) -> Seq<Seq<char>>
    decreases s.len(),
{
    let i = first_nl(s);
    if 0 <= i < s.len() {
        seq![s.take(i)] + split_lines(s.skip(i + 1))
    } else {
        seq![s]
    }
}

/// All lines of a label are as wide as the first one.
pub open spec fn line_widths_equal(lines: Seq<Seq<char>>) -> bool {
    forall|j: int| 0 <= j < lines.len() ==> (#[trigger] lines[j]).len() == lines[0].len()
}

/// What the top-down renderer asks of one node's label: a non-empty
/// rectangle of characters, all lines equally wide.
pub open spec fn label_ok(lab: Seq<char>) -> bool {
    &&& split_lines(lab)[0].len() >= 1
    &&& line_widths_equal(split_lines(lab))
}

/// Column `j` of a rectangular block of lines, read top to bottom.
pub open spec fn column_of(lines: Seq<Seq<char>>, j: int) -> Seq<char> {
    Seq::new(lines.len(), |r: int| lines[r][j])
}

/// The length of the longest column.
pub open spec fn max_len(cols: Seq<Seq<char>>) -> int
    decreases cols.len(),
{
    if cols.len() == 0 {
        0
    } else {
        let m = max_len(cols.drop_last());
        if cols.last().len() > m {
            cols.last().len() as int
        } else {
            m
        }
    }
}

/// Row `i` of a set of columns: column `j` contributes its `i`-th
/// character, or a space when it is shorter than that.
pub open spec fn row_at(cols: Seq<Seq<char>>, i: int) -> Seq<char> {
    Seq::new(cols.len(), |j: int| if i < cols[j].len() {
        cols[j][i]
    } else {
        ' '
    })
}

/// The first `r` rows of the interleaving, each terminated by a line
/// break.
pub open spec fn rows_upto(cols: Seq<Seq<char>>, r: int) -> Seq<char>
    decreases r,
{
    if r <= 0 {
        Seq::empty()
    } else {
        rows_upto(cols, r - 1) + row_at(cols, r - 1) + seq!['\n']
    }
}

/// The full interleaving of a non-empty set of columns: one row per
/// character of the longest column, plus one closing row of blanks.
pub open spec fn interleave(cols: Seq<Seq<char>>) -> Seq<char> {
    rows_upto(cols, max_len(cols) + 1)
}

pub proof fn lemma_first_nl_append(a: Seq<char>, b: Seq<char>)
    requires
        forall|i: int| 0 <= i < a.len() ==> a[i] != '\n',
    ensures
        first_nl(a + b) == if first_nl(b) < 0 {
            -1
        } else {
            a.len() + first_nl(b)
        },
    decreases a.len(),
{
    if a.len() == 0 {
        assert(a + b =~= b);
    } else {
        assert((a + b)[0] == a[0]);
        assert((a + b).drop_first() =~= a.drop_first() + b);
        lemma_first_nl_append(a.drop_first(), b);
    }
}

/// Splitting at the first break: the part before it becomes the first
/// line and the rest is split on its own.
pub proof fn lemma_split_lines_break(a: Seq<char>, b: Seq<char>)
    requires
        forall|i: int| 0 <= i < a.len() ==> a[i] != '\n',
    ensures
        split_lines(a + seq!['\n'] + b) == seq![a] + split_lines(b),
{
    let s = a + seq!['\n'] + b;
    assert(s =~= a + (seq!['\n'] + b));
    lemma_first_nl_append(a, seq!['\n'] + b);
    assert((seq!['\n'] + b)[0] == '\n');
    assert(first_nl(seq!['\n'] + b) == 0);
    assert(first_nl(s) == a.len());
    assert(s.take(a.len() as int) =~= a);
    assert(s.skip(a.len() as int + 1) =~= b);
    assert(split_lines(s) == seq![a] + split_lines(b));
}

/// A text without line breaks is a single line.
pub proof fn lemma_split_lines_whole(a: Seq<char>)
    requires
        forall|i: int| 0 <= i < a.len() ==> a[i] != '\n',
    ensures
        split_lines(a) == seq![a],
{
    lemma_first_nl_append(a, Seq::empty());
    assert(a + Seq::<char>::empty() =~= a);
    assert(first_nl(Seq::<char>::empty()) == -1);
    assert(first_nl(a) == -1);
}

/// `max_len` bounds every column's length and is reached by one of them.
pub proof fn lemma_max_len(cols: Seq<Seq<char>>)
    ensures
        max_len(cols) >= 0,
        forall|j: int| 0 <= j < cols.len() ==> (#[trigger] cols[j]).len() <= max_len(cols),
        cols.len() > 0 ==> exists|j: int|
            0 <= j < cols.len() && (#[trigger] cols[j]).len() == max_len(cols),
    decreases cols.len(),
{
    if cols.len() > 0 {
        lemma_max_len(cols.drop_last());
        let m = max_len(cols.drop_last());
        assert forall|j: int| 0 <= j < cols.len() implies (#[trigger] cols[j]).len() <= max_len(
            cols,
        ) by {
            if j < cols.len() - 1 {
                assert(cols.drop_last()[j] == cols[j]);
            } else {
                assert(cols[j] == cols.last());
            }
        }
        if cols.last().len() > m {
            assert(cols[cols.len() - 1].len() == max_len(cols));
        } else if cols.len() > 1 {
            let j = choose|j: int|
                0 <= j < cols.drop_last().len() && (#[trigger] cols.drop_last()[j]).len() == m;
            assert(cols[j] == cols.drop_last()[j]);
            assert(cols[j].len() == max_len(cols));
        } else {
            assert(cols[0] == cols.last());
            assert(cols[0].len() == max_len(cols));
        }
    }
}

/// Relies on `String::push` of std: it appends exactly the one character
/// `c` to the string.
#[verifier::external_body]
pub(crate) fn push_char(s: &mut String, c: char)
    ensures
        final(s)@ == old(s)@.push(c),
{
    s.push(c);
}

/// Builds the string holding exactly the characters of `v`.
pub fn chars_to_string(v: &Vec<char>) -> (r: String)
    ensures
        r@ == v@,
{
    let mut r = String::new();
    let mut i: usize = 0;
    while i < v.len()
        invariant
            i <= v@.len(),
            r@ =~= v@.take(i as int),
        decreases v@.len() - i,
    {
        push_char(&mut r, v[i]);
        proof {
            assert(v@.take(i as int).push(v@[i as int]) =~= v@.take(i as int + 1));
        }
        i += 1;
    }
    proof {
        assert(v@.take(v@.len() as int) =~= v@);
    }
    r
}

/// The characters of `s`, in order.
pub fn str_to_chars(s: &str) -> (r: Vec<char>)
    ensures
        r@ == s@,
{
    let n = s.unicode_len();
    let mut r: Vec<char> = Vec::new();
    let mut i: usize = 0;
    while i < n
        invariant
            n == s@.len(),
            i <= n,
            r@ =~= s@.take(i as int),
        decreases n - i,
    {
        let c = s.get_char(i);
        r.push(c);
        proof {
            assert(s@.take(i as int).push(s@[i as int]) =~= s@.take(i as int + 1));
        }
        i += 1;
    }
    proof {
        assert(s@.take(n as int) =~= s@);
    }
    r
}

/// Appends every character of `src` to `out`.
pub fn push_all(out: &mut Vec<char>, src: &Vec<char>)
    ensures
        final(out)@ == old(out)@ + src@,
{
    let mut i: usize = 0;
    while i < src.len()
        invariant
            i <= src@.len(),
            out@ =~= old(out)@ + src@.take(i as int),
        decreases src@.len() - i,
    {
        out.push(src[i]);
        proof {
            assert((old(out)@ + src@.take(i as int)).push(src@[i as int]) =~= old(out)@
                + src@.take(i as int + 1));
        }
        i += 1;
    }
    proof {
        assert(old(out)@ + src@.take(src@.len() as int) =~= old(out)@ + src@);
    }
}

/// Appends `n` copies of `c` to `out`.
pub fn push_repeat(out: &mut Vec<char>, c: char, n: usize)
    ensures
        final(out)@ == old(out)@ + rep(c, n as int),
{
    let mut i: usize = 0;
    while i < n
        invariant
            i <= n,
            out@ =~= old(out)@ + rep(c, i as int),
        decreases n - i,
    {
        out.push(c);
        proof {
            assert((old(out)@ + rep(c, i as int)).push(c) =~= old(out)@ + rep(c, i as int + 1));
        }
        i += 1;
    }
}

/// Splits `s` into its lines, mirroring [`split_lines`].
pub fn split_lines_exec(s: &Vec<char>) -> (r: Vec<Vec<char>>)
    ensures
        r.deep_view() == split_lines(s@),
        r@.len() >= 1,
{
    let mut done: Vec<Vec<char>> = Vec::new();
    let mut cur: Vec<char> = Vec::new();
    let mut i: usize = 0;
    proof {
        assert(cur@ + s@.skip(0) =~= s@);
        assert(done.deep_view() + split_lines(s@) =~= split_lines(s@));
    }
    while i < s.len()
        invariant
            i <= s@.len(),
            forall|k: int| 0 <= k < cur@.len() ==> cur@[k] != '\n',
            split_lines(s@) =~= done.deep_view() + split_lines(cur@ + s@.skip(i as int)),
        decreases s@.len() - i,
    {
        let c = s[i];
        if c == '\n' {
            proof {
                lemma_split_lines_break(cur@, s@.skip(i as int + 1));
                assert(cur@ + s@.skip(i as int) =~= cur@ + seq!['\n'] + s@.skip(i as int + 1));
            }
            let ghost done_pre = done;
            let ghost cur_spec = cur@;
            done.push(cur);
            cur = Vec::new();
            proof {
                lemma_deep_view_push(done_pre, done, cur_spec);
                assert(Seq::<char>::empty() + s@.skip(i as int + 1) =~= s@.skip(i as int + 1));
                assert(done_pre.deep_view() + (seq![cur_spec] + split_lines(
                    s@.skip(i as int + 1),
                )) =~= done.deep_view() + split_lines(cur@ + s@.skip(i as int + 1)));
            }
        } else {
            proof {
                assert(cur@.push(c) + s@.skip(i as int + 1) =~= cur@ + s@.skip(i as int));
            }
            cur.push(c);
        }
        i += 1;
    }
    proof {
        assert(cur@ + s@.skip(s@.len() as int) =~= cur@);
        lemma_split_lines_whole(cur@);
    }
    let ghost done_pre = done;
    let ghost cur_spec = cur@;
    done.push(cur);
    proof {
        lemma_deep_view_push(done_pre, done, cur_spec);
        assert(done.deep_view() =~= split_lines(s@));
    }
    done
}

/// Pushing a vector onto a vector of vectors pushes its view onto the
/// deep view.
pub proof fn lemma_deep_view_push(pre: Vec<Vec<char>>, post: Vec<Vec<char>>, x: Seq<char>)
    requires
        post@.len() == pre@.len() + 1,
        forall|k: int| 0 <= k < pre@.len() ==> post@[k] == pre@[k],
        post@[pre@.len() as int]@ == x,
    ensures
        post.deep_view() =~= pre.deep_view().push(x),
{
    assert forall|k: int| 0 <= k < post.deep_view().len() implies post.deep_view()[k]
        == pre.deep_view().push(x)[k] by {
        lemma_vec_char_deep(post@[k]);
        if k < pre@.len() {
            lemma_vec_char_deep(pre@[k]);
        }
    }
}

/// Inserting a vector into a vector of vectors inserts its view into the
/// deep view.
pub proof fn lemma_deep_view_insert(pre: Vec<Vec<char>>, post: Vec<Vec<char>>, at: int, x: Seq<
    char,
>)
    requires
        0 <= at <= pre@.len(),
        post@.len() == pre@.len() + 1,
        forall|k: int| 0 <= k < at ==> post@[k] == pre@[k],
        post@[at]@ == x,
        forall|k: int| at < k < post@.len() ==> post@[k] == pre@[k - 1],
    ensures
        post.deep_view() =~= pre.deep_view().insert(at, x),
{
    assert forall|k: int| 0 <= k < post.deep_view().len() implies post.deep_view()[k]
        == pre.deep_view().insert(at, x)[k] by {
        lemma_vec_char_deep(post@[k]);
        if k < at {
            lemma_vec_char_deep(pre@[k]);
        } else if k > at {
            lemma_vec_char_deep(pre@[k - 1]);
        }
    }
}

/// The deep view of a character vector is its view.
pub proof fn lemma_vec_char_deep(v: Vec<char>)
    ensures
        v.deep_view() =~= v@,
{
}

} // verus!
