//! Character-level text model: lines, whitespace and trimming.
use vstd::prelude::*;

verus! {

/// Unicode `White_Space`, the set that `char::is_whitespace` and `\s` use.
pub open spec fn is_ws(c: char) -> bool {
    c == ' ' || ('\t' <= c && c <= '\r') || c == '\u{85}' || c == '\u{a0}' || c == '\u{1680}'
        || ('\u{2000}' <= c && c <= '\u{200a}') || c == '\u{2028}' || c == '\u{2029}'
        || c == '\u{202f}' || c == '\u{205f}' || c == '\u{3000}'
}

pub fn is_ws_char(c: char) -> (r: bool)
    ensures
        r == is_ws(c),
{
    c == ' ' || ('\t' <= c && c <= '\r') || c == '\u{85}' || c == '\u{a0}' || c == '\u{1680}'
        || ('\u{2000}' <= c && c <= '\u{200a}') || c == '\u{2028}' || c == '\u{2029}'
        || c == '\u{202f}' || c == '\u{205f}' || c == '\u{3000}'
}

pub open spec fn trim_start(s: Seq<char>) -> Seq<char>
    decreases s.len(),
{
    if s.len() > 0 && is_ws(s[0]) {
        trim_start(s.drop_first())
    } else {
        s
    }
}

pub open spec fn trim_end(s: Seq<char>) -> Seq<char>
    decreases s.len(),
{
    if s.len() > 0 && is_ws(s.last()) {
        trim_end(s.drop_last())
    } else {
        s
    }
}

/// Whitespace removed at both ends, as `str::trim` does.
pub open spec fn trim(s: Seq<char>) -> Seq<char> {
    trim_end(trim_start(s))
}

pub open spec fn is_blank(s: Seq<char>) -> bool {
    trim(s).len() == 0
}

/// The pieces of `s` between newline characters; always one more than there are newlines.
pub open spec fn segments(s: Seq<char>) -> Seq<Seq<char>>
    decreases s.len(),
{
    if s.len() == 0 {
        seq![Seq::<char>::empty()]
    } else {
        let init = segments(s.drop_last());
        if s.last() == '\n' {
            init.push(Seq::<char>::empty())
        } else {
            init.update(init.len() - 1, init.last().push(s.last()))
        }
    }
}

/// The contents of a sequence of char vectors.
pub open spec fn char_vecs(v: Seq<Vec<char>>) -> Seq<Seq<char>> {
    v.map_values(|l: Vec<char>| l@)
}

/// A line that ended in a newline loses one carriage return before it.
pub open spec fn strip_cr(l: Seq<char>) -> Seq<char> {
    if l.len() > 0 && l.last() == '\r' {
        l.drop_last()
    } else {
        l
    }
}

/// The lines of `s` in the sense of `str::lines`: split at `\n` or `\r\n`, and a final
/// line ending is optional.
pub open spec fn lines_of(s: Seq<char>) -> Seq<Seq<char>> {
    let segs = segments(s);
    let n = segs.len() - 1;
    let ended = segs.take(n).map_values(|l: Seq<char>| strip_cr(l));
    if segs[n].len() > 0 {
        ended.push(segs[n])
    } else {
        ended
    }
}

/// Lines joined by a newline character.
pub open spec fn join_lines(s: Seq<Seq<char>>) -> Seq<char>
    decreases s.len(),
{
    if s.len() == 0 {
        Seq::<char>::empty()
    } else if s.len() == 1 {
        s[0]
    } else {
        join_lines(s.drop_last()) + seq!['\n'] + s.last()
    }
}

/// The characters of a string slice.
pub fn chars_of(s: &str) -> (r: Vec<char>)
    ensures
        r@ == s@,
{
    let mut r: Vec<char> = Vec::new();
    for c in it: s.chars()
        invariant
            r@ == it.seq().take(it.index() as int),
    {
        r.push(c);
    }
    r
}

/// Relies on `FromIterator<&char>` for `String`: the string holds the chars in order.
#[verifier::external_body]
pub fn string_of(v: &Vec<char>, from: usize, to: usize) -> (r: String)
    requires
        from <= to <= v.len(),
    ensures
        r@ == v@.subrange(from as int, to as int),
{
    v[from..to].iter().collect()
}

/// A copy of `v[from..to]`.
pub fn copy_range(v: &Vec<char>, from: usize, to: usize) -> (r: Vec<char>)
    requires
        from <= to <= v.len(),
    ensures
        r@ == v@.subrange(from as int, to as int),
{
    let mut r: Vec<char> = Vec::new();
    let mut i: usize = from;
    while i < to
        invariant
            from <= i <= to <= v.len(),
            r@ == v@.subrange(from as int, i as int),
        decreases to - i,
    {
        r.push(v[i]);
        i = i + 1;
    }
    r
}

/// The bounds of `trim(v[from..to])` inside `v`.
pub fn trim_bounds(v: &Vec<char>, from: usize, to: usize) -> (r: (usize, usize))
    requires
        from <= to <= v.len(),
    ensures
        from <= r.0 <= r.1 <= to,
        v@.subrange(r.0 as int, r.1 as int) == trim(v@.subrange(from as int, to as int)),
{
    let mut a: usize = from;
    while a < to && is_ws_char(v[a])
        invariant
            from <= a <= to <= v.len(),
            trim_start(v@.subrange(from as int, to as int)) == trim_start(
                v@.subrange(a as int, to as int),
            ),
        decreases to - a,
    {
        assert(v@.subrange(a as int, to as int).drop_first() =~= v@.subrange(
            a + 1,
            to as int,
        ));
        a = a + 1;
    }
    let mut b: usize = to;
    while b > a && is_ws_char(v[b - 1])
        invariant
            from <= a <= b <= to <= v.len(),
            trim_end(v@.subrange(a as int, to as int)) == trim_end(
                v@.subrange(a as int, b as int),
            ),
        decreases b - a,
    {
        assert(v@.subrange(a as int, b as int).drop_last() =~= v@.subrange(
            a as int,
            b - 1,
        ));
        b = b - 1;
    }
    (a, b)
}

/// Whether `v[from..to]` holds only whitespace.
pub fn is_blank_range(v: &Vec<char>, from: usize, to: usize) -> (r: bool)
    requires
        from <= to <= v.len(),
    ensures
        r == is_blank(v@.subrange(from as int, to as int)),
{
    let (a, b) = trim_bounds(v, from, to);
    a == b
}

/// The lines of `s`, as `lines_of` describes them.
pub fn split_lines(s: &Vec<char>) -> (r: Vec<Vec<char>>)
    ensures
        char_vecs(r@) == lines_of(s@),
{
    let mut done: Vec<Vec<char>> = Vec::new();
    let mut start: usize = 0;
    let mut i: usize = 0;
    proof {
        assert(s@.take(0) =~= Seq::<char>::empty());
    }
    while i < s.len()
        invariant
            start <= i <= s.len(),
            segments(s@.take(i as int)).len() == done.len() + 1,
            segments(s@.take(i as int)).last() == s@.subrange(start as int, i as int),
            char_vecs(done@) == segments(s@.take(i as int)).take(done.len() as int).map_values(
                |l: Seq<char>| strip_cr(l),
            ),
        decreases s.len() - i,
    {
        let ghost pre = s@.take(i as int);
        assert(s@.take(i + 1).drop_last() =~= pre);
        if s[i] == '\n' {
            let end: usize = if i > start && s[i - 1] == '\r' {
                i - 1
            } else {
                i
            };
            let line = copy_range(s, start, end);
            proof {
                assert(line@ =~= strip_cr(s@.subrange(start as int, i as int)));
            }
            let ghost old_done = done@;
            done.push(line);
            start = i + 1;
            proof {
                let segs = segments(s@.take(i + 1));
                assert(segs =~= segments(pre).push(Seq::<char>::empty()));
                assert(char_vecs(done@) =~= char_vecs(old_done).push(line@));
                assert(char_vecs(done@) =~= segs.take(done.len() as int).map_values(
                    |l: Seq<char>| strip_cr(l),
                ));
                assert(s@.subrange(start as int, i + 1) =~= Seq::<char>::empty());
            }
        } else {
            proof {
                let segs = segments(s@.take(i + 1));
                assert(segs =~= segments(pre).update(
                    segments(pre).len() - 1,
                    segments(pre).last().push(s@[i as int]),
                ));
                assert(s@.subrange(start as int, i + 1) =~= s@.subrange(
                    start as int,
                    i as int,
                ).push(s@[i as int]));
                assert(segs.take(done.len() as int) =~= segments(pre).take(done.len() as int));
            }
        }
        i = i + 1;
    }
    assert(s@.take(s.len() as int) =~= s@);
    let ghost body = done@;
    if start < s.len() {
        let last = copy_range(s, start, s.len());
        done.push(last);
        assert(char_vecs(done@) =~= char_vecs(body).push(last@));
    }
    proof {
        let segs = segments(s@);
        let n = segs.len() - 1;
        let ended = segs.take(n).map_values(|l: Seq<char>| strip_cr(l));
        if segs[n].len() > 0 {
            assert(char_vecs(done@) =~= ended.push(segs[n]));
        } else {
            assert(char_vecs(done@) =~= ended);
        }
    }
    done
}


/// The position of the first non-whitespace character at or after `i`, or the length.
pub open spec fn skip_ws(l: Seq<char>, i: nat) -> nat
    decreases l.len() - i,
{
    if i < l.len() && is_ws(l[i as int]) {
        skip_ws(l, i + 1)
    } else {
        i
    }
}

/// The position of the first `c` at or after `i`, or the length when there is none.
pub open spec fn find_char(l: Seq<char>, i: nat, c: char) -> nat
    decreases l.len() - i,
{
    if i < l.len() && l[i as int] != c {
        find_char(l, i + 1, c)
    } else {
        i
    }
}

pub fn skip_ws_exec(l: &Vec<char>, from: usize) -> (r: usize)
    requires
        from <= l.len(),
    ensures
        r == skip_ws(l@, from as nat),
        from <= r <= l.len(),
{
    let mut i: usize = from;
    while i < l.len() && is_ws_char(l[i])
        invariant
            from <= i <= l.len(),
            skip_ws(l@, from as nat) == skip_ws(l@, i as nat),
        decreases l.len() - i,
    {
        i = i + 1;
    }
    i
}

pub fn find_char_exec(l: &Vec<char>, from: usize, c: char) -> (r: usize)
    requires
        from <= l.len(),
    ensures
        r == find_char(l@, from as nat, c),
        from <= r <= l.len(),
{
    let mut i: usize = from;
    while i < l.len() && l[i] != c
        invariant
            from <= i <= l.len(),
            find_char(l@, from as nat, c) == find_char(l@, i as nat, c),
        decreases l.len() - i,
    {
        i = i + 1;
    }
    i
}

/// Whether `v[from..to]` is exactly `pat`.
pub fn range_eq(v: &Vec<char>, from: usize, to: usize, pat: &Vec<char>) -> (r: bool)
    requires
        from <= to <= v.len(),
    ensures
        r == (v@.subrange(from as int, to as int) == pat@),
{
    if to - from != pat.len() {
        return false;
    }
    let mut i: usize = 0;
    while i < pat.len()
        invariant
            to - from == pat.len(),
            from <= to <= v.len(),
            i <= pat.len(),
            forall|j: int| 0 <= j < i ==> v@[from + j] == pat@[j],
        decreases pat.len() - i,
    {
        if v[from + i] != pat[i] {
            assert(v@.subrange(from as int, to as int)[i as int] != pat@[i as int]);
            return false;
        }
        i = i + 1;
    }
    assert(v@.subrange(from as int, to as int) =~= pat@);
    true
}

/// Whether `pat` occurs in `v` at position `at`.
pub open spec fn occurs_at(v: Seq<char>, at: int, pat: Seq<char>) -> bool {
    0 <= at && at + pat.len() <= v.len() && v.subrange(at, at + pat.len()) == pat
}

pub open spec fn contains(v: Seq<char>, pat: Seq<char>) -> bool {
    exists|at: int| occurs_at(v, at, pat)
}

/// Whether `pat` occurs in `v[from..to]`.
pub fn contains_in(v: &Vec<char>, from: usize, to: usize, pat: &Vec<char>) -> (r: bool)
    requires
        from <= to <= v.len(),
    ensures
        r == contains(v@.subrange(from as int, to as int), pat@),
{
    let ghost s = v@.subrange(from as int, to as int);
    if pat.len() > to - from {
        assert forall|at: int| !occurs_at(s, at, pat@) by {}
        return false;
    }
    if pat.len() == 0 {
        assert(s.subrange(0, 0) =~= pat@);
        assert(occurs_at(s, 0, pat@));
        return true;
    }
    let mut i: usize = from;
    while i <= to - pat.len()
        invariant
            from <= i <= to <= v.len(),
            0 < pat.len() <= to - from,
            s == v@.subrange(from as int, to as int),
            forall|at: int| 0 <= at < i - from ==> !occurs_at(s, at, pat@),
        decreases to - i,
    {
        if range_eq(v, i, i + pat.len(), pat) {
            assert(s.subrange(i - from, i - from + pat.len()) =~= v@.subrange(
                i as int,
                i + pat.len(),
            ));
            assert(occurs_at(s, i - from, pat@));
            return true;
        }
        assert(s.subrange(i - from, i - from + pat.len()) =~= v@.subrange(
            i as int,
            i + pat.len(),
        ));
        i = i + 1;
    }
    assert forall|at: int| !occurs_at(s, at, pat@) by {
        if 0 <= at && at < i - from {
        }
    }
    false
}

/// The lines of `s` joined by newlines, as one char vector.
pub fn join_char_lines(ls: &Vec<Vec<char>>) -> (r: Vec<char>)
    ensures
        r@ == join_lines(char_vecs(ls@)),
{
    let mut r: Vec<char> = Vec::new();
    let mut i: usize = 0;
    while i < ls.len()
        invariant
            i <= ls.len(),
            r@ == join_lines(char_vecs(ls@).take(i as int)),
        decreases ls.len() - i,
    {
        let ghost prev = char_vecs(ls@).take(i as int);
        assert(char_vecs(ls@).take(i + 1).drop_last() =~= prev);
        if i > 0 {
            r.push('\n');
        }
        let l = &ls[i];
        let mut j: usize = 0;
        let ghost base = r@;
        while j < l.len()
            invariant
                j <= l.len(),
                r@ == base + l@.take(j as int),
            decreases l.len() - j,
        {
            r.push(l[j]);
            assert(l@.take(j + 1) =~= l@.take(j as int).push(l@[j as int]));
            j = j + 1;
        }
        assert(l@.take(j as int) =~= l@);
        if i == 0 {
            assert(char_vecs(ls@).take(1) =~= seq![l@]);
        }
        assert(char_vecs(ls@).take(i + 1).last() == l@);
        i = i + 1;
    }
    assert(char_vecs(ls@).take(i as int) =~= char_vecs(ls@));
    r
}

} // verus!
