//! Verified text primitives over `Seq<char>` models.

use vstd::prelude::*;

verus! {

/// `c` has the Unicode White_Space property (what `char::is_whitespace` tests).
pub open spec fn is_white(c: char) -> bool {
    let u = c as u32;
    ||| 0x09 <= u <= 0x0D
    ||| u == 0x20 || u == 0x85 || u == 0xA0 || u == 0x1680
    ||| 0x2000 <= u <= 0x200A
    ||| u == 0x2028 || u == 0x2029 || u == 0x202F || u == 0x205F || u == 0x3000
}

/// ASCII case folding of one character.
pub open spec fn lower_char(c: char) -> char {
    if 'A' <= c && c <= 'Z' {
        ((c as u8) + 32u8) as char
    } else {
        c
    }
}

/// ASCII case folding of a character sequence.
pub open spec fn lower(s: Seq<char>) -> Seq<char> {
    s.map_values(|c: char| lower_char(c))
}

/// `n` occurs in `h` starting at position `i`.
pub open spec fn occurs_at(h: Seq<char>, n: Seq<char>, i: int) -> bool {
    0 <= i && i + n.len() <= h.len() && h.subrange(i, i + n.len()) == n
}

/// `n` occurs somewhere in `h`.
pub open spec fn contains(h: Seq<char>, n: Seq<char>) -> bool {
    exists|i: int| occurs_at(h, n, i)
}

/// `n` occurs in `h` when both are ASCII case folded.
pub open spec fn contains_ci(h: Seq<char>, n: Seq<char>) -> bool {
    contains(lower(h), lower(n))
}

/// Exec test of `is_white`.
pub fn is_white_char(c: char) -> (r: bool)
    ensures
        r == is_white(c),
{
    let u = c as u32;
    (0x09 <= u && u <= 0x0D) || u == 0x20 || u == 0x85 || u == 0xA0 || u == 0x1680 || (0x2000
        <= u && u <= 0x200A) || u == 0x2028 || u == 0x2029 || u == 0x202F || u == 0x205F || u
        == 0x3000
}

/// The characters of a string, in order.
pub fn chars_of(s: &str) -> (r: Vec<char>)
    ensures
        r@ == s@,
{
    let mut r: Vec<char> = Vec::new();
    for c in it: s.chars()
        invariant
            it.seq() == s@,
            r@ == it.seq().take(it.index()),
    {
        r.push(c);
    }
    r
}

/// ASCII case folding of a character vector.
pub fn lower_chars(v: &Vec<char>) -> (r: Vec<char>)
    ensures
        r@ == lower(v@),
{
    let mut r: Vec<char> = Vec::new();
    let mut i: usize = 0;
    while i < v.len()
        invariant
            i <= v.len(),
            r@ == lower(v@.take(i as int)),
        decreases v.len() - i,
    {
        let c = v[i];
        let d = if 'A' <= c && c <= 'Z' {
            ((c as u8) + 32u8) as char
        } else {
            c
        };
        r.push(d);
        i += 1;
        assert(lower(v@.take(i as int)) =~= lower(v@.take((i - 1) as int)).push(lower_char(c)));
    }
    assert(v@.take(v.len() as int) =~= v@);
    r
}

/// Whether `n` occurs in `h` at position `i`.
pub fn occurs_at_exec(h: &Vec<char>, n: &Vec<char>, i: usize) -> (r: bool)
    ensures
        r == occurs_at(h@, n@, i as int),
{
    if i > h.len() || n.len() > h.len() - i {
        return false;
    }
    let mut k: usize = 0;
    while k < n.len()
        invariant
            i + n.len() <= h.len(),
            k <= n.len(),
            forall|j: int| 0 <= j < k ==> h@[i + j] == n@[j],
        decreases n.len() - k,
    {
        if h[i + k] != n[k] {
            assert(h@.subrange(i as int, i + n.len())[k as int] != n@[k as int]);
            return false;
        }
        k += 1;
    }
    assert(h@.subrange(i as int, i + n.len()) =~= n@);
    true
}

/// The first position at or after `from` where `n` occurs in `h`.
pub fn find_from(h: &Vec<char>, n: &Vec<char>, from: usize) -> (r: Option<usize>)
    ensures
        match r {
            Some(i) => from <= i && occurs_at(h@, n@, i as int) && forall|j: int|
                from <= j < i ==> !occurs_at(h@, n@, j),
            None => forall|j: int| from <= j ==> !occurs_at(h@, n@, j),
        },
{
    let mut i: usize = from;
    if i > h.len() {
        return None;
    }
    while i <= h.len()
        invariant
            from <= i,
            i <= h.len(),
            forall|j: int| from <= j < i ==> !occurs_at(h@, n@, j),
        decreases h.len() - i,
    {
        if occurs_at_exec(h, n, i) {
            return Some(i);
        }
        if i == h.len() {
            return None;
        }
        i += 1;
    }
    None
}

/// Whether `n` occurs in `h`.
pub fn contains_exec(h: &Vec<char>, n: &Vec<char>) -> (r: bool)
    ensures
        r == contains(h@, n@),
{
    match find_from(h, n, 0) {
        Some(i) => true,
        None => false,
    }
}

/// Whether `n` occurs in `h`, case sensitively.
pub fn str_contains(h: &str, n: &str) -> (r: bool)
    ensures
        r == contains(h@, n@),
{
    contains_exec(&chars_of(h), &chars_of(n))
}

/// Whether `n` occurs in `h` under ASCII case folding.
pub fn str_contains_ci(h: &str, n: &str) -> (r: bool)
    ensures
        r == contains_ci(h@, n@),
{
    contains_exec(&lower_chars(&chars_of(h)), &lower_chars(&chars_of(n)))
}

/// Whether two strings hold the same characters.
pub fn str_eq(a: &str, b: &str) -> (r: bool)
    ensures
        r == (a@ == b@),
{
    let x = chars_of(a);
    let y = chars_of(b);
    if x.len() != y.len() {
        return false;
    }
    let r = occurs_at_exec(&x, &y, 0);
    assert(x@.subrange(0, y@.len() as int) =~= x@);
    r
}


/// Relies on `String::push`: appends one character at the end.
#[verifier::external_body]
pub(crate) fn push_char(s: &mut String, c: char)
    ensures
        final(s)@ == old(s)@.push(c),
{
    s.push(c)
}

/// The string holding the characters `v[from..to]`.
pub fn string_of(v: &Vec<char>, from: usize, to: usize) -> (r: String)
    requires
        from <= to <= v.len(),
    ensures
        r@ == v@.subrange(from as int, to as int),
{
    let mut r = String::new();
    let mut i: usize = from;
    while i < to
        invariant
            from <= i <= to <= v.len(),
            r@ == v@.subrange(from as int, i as int),
        decreases to - i,
    {
        push_char(&mut r, v[i]);
        i += 1;
        assert(r@ =~= v@.subrange(from as int, i as int));
    }
    r
}

/// The parts joined with one space between neighbours.
pub open spec fn join_space(parts: Seq<Seq<char>>) -> Seq<char>
    decreases parts.len(),
{
    if parts.len() == 0 {
        Seq::empty()
    } else if parts.len() == 1 {
        parts[0]
    } else {
        join_space(parts.drop_last()) + seq![' '] + parts.last()
    }
}

/// The views of a sequence of strings.
pub open spec fn views(v: Seq<String>) -> Seq<Seq<char>> {
    v.map_values(|s: String| s@)
}

/// The views of a sequence of string slices.
pub open spec fn str_views(v: Seq<&str>) -> Seq<Seq<char>> {
    v.map_values(|s: &str| s@)
}

/// Joins the parts with one space between neighbours.
pub fn join_strs(parts: &Vec<&str>) -> (r: String)
    ensures
        r@ == join_space(str_views(parts@)),
{
    let mut r = String::new();
    let mut i: usize = 0;
    while i < parts.len()
        invariant
            i <= parts.len(),
            r@ == join_space(str_views(parts@.take(i as int))),
        decreases parts.len() - i,
    {
        let ghost before = r@;
        if i > 0 {
            push_char(&mut r, ' ');
        }
        r.append(parts[i]);
        i += 1;
        assert(str_views(parts@.take(i as int)).drop_last() =~= str_views(parts@.take(i - 1)));
        if i == 1 {
            assert(r@ =~= join_space(str_views(parts@.take(i as int))));
        } else {
            assert(r@ =~= join_space(str_views(parts@.take(i as int))));
        }
    }
    assert(parts@.take(parts.len() as int) =~= parts@);
    r
}

/// Owned copies of string slices.
pub fn to_strings(v: &Vec<&str>) -> (r: Vec<String>)
    ensures
        views(r@) == str_views(v@),
{
    let mut r: Vec<String> = Vec::new();
    let mut i: usize = 0;
    while i < v.len()
        invariant
            i <= v.len(),
            r@.len() == i,
            views(r@) == str_views(v@.take(i as int)),
        decreases v.len() - i,
    {
        let ghost prev = r@;
        r.push(v[i].to_owned());
        i += 1;
        assert forall|j: int| 0 <= j < i implies #[trigger] views(r@)[j] == str_views(
            v@.take(i as int),
        )[j] by {
            if j < i - 1 {
                assert(r@[j] == prev[j]);
                assert(views(prev)[j] == str_views(v@.take(i - 1))[j]);
            }
        }
        assert(views(r@) =~= str_views(v@.take(i as int)));
    }
    assert(v@.take(v.len() as int) =~= v@);
    r
}

/// A copy of `v[from..to]`.
pub fn slice_chars(v: &Vec<char>, from: usize, to: usize) -> (r: Vec<char>)
    requires
        from <= to <= v.len(),
    ensures
        r@ == v@.subrange(from as int, to as int),
{
    let mut r: Vec<char> = Vec::new();
    let mut i: usize = from;
    while i < to
        invariant
            from <= i <= to <= v.len(),
            r@ == v@.subrange(from as int, i as int),
        decreases to - i,
    {
        r.push(v[i]);
        i += 1;
        assert(r@ =~= v@.subrange(from as int, i as int));
    }
    r
}

/// Whether two character vectors are equal.
pub fn chars_eq(a: &Vec<char>, b: &Vec<char>) -> (r: bool)
    ensures
        r == (a@ == b@),
{
    if a.len() != b.len() {
        return false;
    }
    let r = occurs_at_exec(a, b, 0);
    assert(a@.subrange(0, b@.len() as int) =~= a@);
    r
}

/// Position of the first `c` in `s`, or `s.len()` when there is none.
pub open spec fn index_of(s: Seq<char>, c: char) -> nat
    decreases s.len(),
{
    if s.len() == 0 {
        0
    } else if s[0] == c {
        0
    } else {
        1 + index_of(s.drop_first(), c)
    }
}

pub proof fn lemma_index_of(s: Seq<char>, c: char, p: int)
    requires
        0 <= p <= s.len(),
        forall|k: int| 0 <= k < p ==> s[k] != c,
        p == s.len() || s[p] == c,
    ensures
        index_of(s, c) == p,
    decreases p,
{
    if p > 0 {
        lemma_index_of(s.drop_first(), c, p - 1);
    }
}

/// The first position at or after `from` holding `c`, or `v.len()`.
pub fn find_char(v: &Vec<char>, c: char, from: usize) -> (r: usize)
    requires
        from <= v.len(),
    ensures
        from <= r <= v.len(),
        forall|k: int| from <= k < r ==> v@[k] != c,
        r == v.len() || v@[r as int] == c,
{
    let mut i: usize = from;
    while i < v.len()
        invariant
            from <= i <= v.len(),
            forall|k: int| from <= k < i ==> v@[k] != c,
        decreases v.len() - i,
    {
        if v[i] == c {
            return i;
        }
        i += 1;
    }
    i
}

/// The pieces of `s` between newlines, always at least one.
pub open spec fn segments(s: Seq<char>) -> Seq<Seq<char>>
    decreases s.len(),
{
    if s.len() == 0 {
        seq![Seq::empty()]
    } else {
        let g = segments(s.drop_last());
        if s.last() == '\n' {
            g.push(Seq::empty())
        } else {
            g.drop_last().push(g.last().push(s.last()))
        }
    }
}

/// A line without its carriage return.
pub open spec fn strip_cr(l: Seq<char>) -> Seq<char> {
    if l.len() > 0 && l.last() == '\r' {
        l.drop_last()
    } else {
        l
    }
}

/// The lines of a text as `str::lines` gives them: split at each newline,
/// a carriage return before a newline dropped, no empty last line.
pub open spec fn lines_of(s: Seq<char>) -> Seq<Seq<char>> {
    let g = segments(s);
    g.drop_last().map_values(|l: Seq<char>| strip_cr(l)) + if g.last().len() > 0 {
        seq![g.last()]
    } else {
        Seq::empty()
    }
}

/// The views of a sequence of character vectors.
pub open spec fn char_views(v: Seq<Vec<char>>) -> Seq<Seq<char>> {
    v.map_values(|l: Vec<char>| l@)
}

/// Splits a text into its lines.
pub fn split_lines(v: &Vec<char>) -> (r: Vec<Vec<char>>)
    ensures
        char_views(r@) == lines_of(v@),
{
    let mut segs: Vec<Vec<char>> = Vec::new();
    segs.push(Vec::new());
    let mut i: usize = 0;
    assert(char_views(segs@) =~= segments(v@.take(0)));
    while i < v.len()
        invariant
            i <= v.len(),
            segs@.len() > 0,
            char_views(segs@) == segments(v@.take(i as int)),
        decreases v.len() - i,
    {
        let c = v[i];
        let ghost prev = char_views(segs@);
        assert(v@.take(i + 1).drop_last() =~= v@.take(i as int));
        if c == '\n' {
            segs.push(Vec::new());
            assert(char_views(segs@) =~= prev.push(Seq::empty()));
        } else {
            let mut last = segs.pop().unwrap();
            last.push(c);
            segs.push(last);
            assert(char_views(segs@) =~= prev.drop_last().push(prev.last().push(c)));
        }
        i += 1;
    }
    assert(v@.take(v.len() as int) =~= v@);
    let n = segs.len();
    let mut r: Vec<Vec<char>> = Vec::new();
    let mut j: usize = 0;
    while j + 1 < n
        invariant
            n == segs.len(),
            n > 0,
            j < n,
            char_views(segs@) == segments(v@),
            char_views(r@) == segments(v@).take(j as int).map_values(|l: Seq<char>| strip_cr(l)),
        decreases n - j,
    {
        let l = &segs[j];
        let ln = l.len();
        let piece = if ln > 0 && l[ln - 1] == '\r' {
            slice_chars(l, 0, ln - 1)
        } else {
            slice_chars(l, 0, ln)
        };
        proof {
            assert(l@ == segments(v@)[j as int]);
            assert(l@.subrange(0, ln as int) =~= l@);
            assert(l@.subrange(0, ln - 1) =~= l@.drop_last());
        }
        let ghost prev = char_views(r@);
        r.push(piece);
        j += 1;
        assert(char_views(r@) =~= prev.push(strip_cr(segments(v@)[j - 1])));
        assert(char_views(r@) =~= segments(v@).take(j as int).map_values(
            |l: Seq<char>| strip_cr(l),
        ));
    }
    let last = &segs[n - 1];
    assert(last@ == segments(v@).last());
    if last.len() > 0 {
        let ghost prev = char_views(r@);
        r.push(slice_chars(last, 0, last.len()));
        assert(last@.subrange(0, last@.len() as int) =~= last@);
        assert(char_views(r@) =~= prev.push(last@));
    }
    assert(segments(v@).take(j as int) =~= segments(v@).drop_last());
    assert(char_views(r@) =~= lines_of(v@));
    r
}

/// `s` without its leading white space.
pub open spec fn trim_start(s: Seq<char>) -> Seq<char>
    decreases s.len(),
{
    if s.len() > 0 && is_white(s[0]) {
        trim_start(s.drop_first())
    } else {
        s
    }
}

/// `s` without its trailing white space.
pub open spec fn trim_end(s: Seq<char>) -> Seq<char>
    decreases s.len(),
{
    if s.len() > 0 && is_white(s.last()) {
        trim_end(s.drop_last())
    } else {
        s
    }
}

/// `s` without leading and trailing white space, as `str::trim` gives it.
pub open spec fn trim(s: Seq<char>) -> Seq<char> {
    trim_end(trim_start(s))
}

proof fn lemma_trim_start(s: Seq<char>, q: int)
    requires
        0 <= q <= s.len(),
        forall|k: int| 0 <= k < q ==> is_white(s[k]),
        q == s.len() || !is_white(s[q]),
    ensures
        trim_start(s) == s.subrange(q, s.len() as int),
    decreases q,
{
    if q == 0 {
        assert(s.subrange(0, s.len() as int) =~= s);
    } else {
        lemma_trim_start(s.drop_first(), q - 1);
        assert(s.drop_first().subrange(q - 1, s.len() - 1) =~= s.subrange(q, s.len() as int));
    }
}

proof fn lemma_trim_end(s: Seq<char>, q: int)
    requires
        0 <= q <= s.len(),
        forall|k: int| q <= k < s.len() ==> is_white(s[k]),
        q == 0 || !is_white(s[q - 1]),
    ensures
        trim_end(s) == s.subrange(0, q),
    decreases s.len() - q,
{
    if q == s.len() {
        assert(s.subrange(0, q) =~= s);
    } else {
        lemma_trim_end(s.drop_last(), q);
        assert(s.drop_last().subrange(0, q) =~= s.subrange(0, q));
    }
}

/// The bounds of `trim(v[from..to])` within `v`.
pub fn trim_bounds(v: &Vec<char>, from: usize, to: usize) -> (r: (usize, usize))
    requires
        from <= to <= v.len(),
    ensures
        from <= r.0 <= r.1 <= to,
        v@.subrange(r.0 as int, r.1 as int) == trim(v@.subrange(from as int, to as int)),
{
    let ghost s = v@.subrange(from as int, to as int);
    let mut a: usize = from;
    while a < to && is_white_char(v[a])
        invariant
            from <= a <= to <= v.len(),
            forall|k: int| from <= k < a ==> is_white(v@[k]),
        decreases to - a,
    {
        a += 1;
    }
    proof {
        lemma_trim_start(s, a - from);
        assert(s.subrange(a - from, s.len() as int) =~= v@.subrange(a as int, to as int));
    }
    let mut b: usize = to;
    while b > a && is_white_char(v[b - 1])
        invariant
            from <= a <= b <= to <= v.len(),
            forall|k: int| b <= k < to ==> is_white(v@[k]),
        decreases b - a,
    {
        b -= 1;
    }
    proof {
        let t = v@.subrange(a as int, to as int);
        lemma_trim_end(t, b - a);
        assert(t.subrange(0, b - a) =~= v@.subrange(a as int, b as int));
    }
    (a, b)
}

/// The trimmed copy of `v[from..to]`.
pub fn trimmed(v: &Vec<char>, from: usize, to: usize) -> (r: Vec<char>)
    requires
        from <= to <= v.len(),
    ensures
        r@ == trim(v@.subrange(from as int, to as int)),
{
    let (a, b) = trim_bounds(v, from, to);
    slice_chars(v, a, b)
}

/// The maximal runs of non-white characters, as `str::split_whitespace`
/// gives them.
pub open spec fn words(s: Seq<char>) -> Seq<Seq<char>>
    decreases s.len(),
{
    if s.len() == 0 {
        Seq::empty()
    } else {
        let w = words(s.drop_last());
        let c = s.last();
        if is_white(c) {
            w
        } else if s.len() >= 2 && !is_white(s[s.len() - 2]) {
            w.drop_last().push(w.last().push(c))
        } else {
            w.push(seq![c])
        }
    }
}

proof fn lemma_words_nonempty(s: Seq<char>)
    requires
        s.len() > 0,
        !is_white(s.last()),
    ensures
        words(s).len() > 0,
{
}

/// Splits a character vector into its words.
pub fn split_words(v: &Vec<char>) -> (r: Vec<Vec<char>>)
    ensures
        char_views(r@) == words(v@),
{
    let mut r: Vec<Vec<char>> = Vec::new();
    let mut i: usize = 0;
    assert(char_views(r@) =~= words(v@.take(0)));
    while i < v.len()
        invariant
            i <= v.len(),
            char_views(r@) == words(v@.take(i as int)),
        decreases v.len() - i,
    {
        let c = v[i];
        let ghost prev = char_views(r@);
        let ghost t = v@.take(i + 1);
        assert(t.drop_last() =~= v@.take(i as int));
        if is_white_char(c) {
        } else if i >= 1 && !is_white_char(v[i - 1]) {
            proof {
                lemma_words_nonempty(v@.take(i as int));
            }
            let mut last = r.pop().unwrap();
            last.push(c);
            r.push(last);
            assert(char_views(r@) =~= prev.drop_last().push(prev.last().push(c)));
        } else {
            let mut w: Vec<char> = Vec::new();
            w.push(c);
            r.push(w);
            assert(char_views(r@) =~= prev.push(seq![c]));
        }
        i += 1;
    }
    assert(v@.take(v.len() as int) =~= v@);
    r
}

/// `s` with every non-overlapping occurrence of `pat` removed, left to right,
/// as `str::replace(pat, "")` gives it.
pub open spec fn remove_all(s: Seq<char>, pat: Seq<char>) -> Seq<char>
    decreases s.len(),
{
    if pat.len() == 0 || s.len() == 0 {
        s
    } else if s.len() >= pat.len() && s.subrange(0, pat.len() as int) == pat {
        remove_all(s.subrange(pat.len() as int, s.len() as int), pat)
    } else {
        seq![s[0]] + remove_all(s.drop_first(), pat)
    }
}

/// Removes every occurrence of a non-empty pattern.
pub fn remove_all_exec(v: &Vec<char>, pat: &Vec<char>) -> (r: Vec<char>)
    requires
        pat.len() > 0,
    ensures
        r@ == remove_all(v@, pat@),
{
    let mut r: Vec<char> = Vec::new();
    let mut i: usize = 0;
    let n = v.len();
    assert(v@.subrange(0, n as int) =~= v@);
    while i < n
        invariant
            n == v.len(),
            pat.len() > 0,
            i <= n,
            r@ + remove_all(v@.subrange(i as int, n as int), pat@) == remove_all(v@, pat@),
        decreases n - i,
    {
        let ghost rest = v@.subrange(i as int, n as int);
        if occurs_at_exec(v, pat, i) {
            assert(rest.subrange(0, pat.len() as int) =~= v@.subrange(i as int, i + pat.len()));
            assert(rest.subrange(pat.len() as int, rest.len() as int) =~= v@.subrange(
                i + pat.len(),
                n as int,
            ));
            i += pat.len();
        } else {
            proof {
                if rest.len() >= pat.len() {
                    assert(rest.subrange(0, pat.len() as int) =~= v@.subrange(
                        i as int,
                        i + pat.len(),
                    ));
                }
            }
            assert(rest.drop_first() =~= v@.subrange(i + 1, n as int));
            let ghost prev = r@;
            r.push(v[i]);
            assert(r@ =~= prev + seq![v@[i as int]]);
            assert(r@ + remove_all(v@.subrange(i + 1, n as int), pat@) =~= prev + (seq![rest[0]]
                + remove_all(rest.drop_first(), pat@)));
            i += 1;
        }
    }
    assert(v@.subrange(n as int, n as int) =~= Seq::<char>::empty());
    assert(r@ + Seq::<char>::empty() =~= r@);
    r
}

/// Joins `ws[from..]` with one space between neighbours.
pub fn join_chars_from(ws: &Vec<Vec<char>>, from: usize) -> (r: Vec<char>)
    requires
        from <= ws.len(),
    ensures
        r@ == join_space(char_views(ws@).subrange(from as int, ws.len() as int)),
{
    let mut r: Vec<char> = Vec::new();
    let mut i: usize = from;
    while i < ws.len()
        invariant
            from <= i <= ws.len(),
            r@ == join_space(char_views(ws@).subrange(from as int, i as int)),
        decreases ws.len() - i,
    {
        let ghost parts = char_views(ws@).subrange(from as int, i + 1);
        assert(parts.drop_last() =~= char_views(ws@).subrange(from as int, i as int));
        if i > from {
            r.push(' ');
        }
        let w = &ws[i];
        let mut k: usize = 0;
        let ghost base = r@;
        while k < w.len()
            invariant
                k <= w.len(),
                r@ == base + w@.take(k as int),
            decreases w.len() - k,
        {
            r.push(w[k]);
            k += 1;
            assert(r@ =~= base + w@.take(k as int));
        }
        assert(w@.take(w.len() as int) =~= w@);
        assert(parts.last() == w@);
        i += 1;
        if i - 1 == from {
            assert(r@ =~= join_space(parts));
        } else {
            assert(r@ =~= join_space(parts));
        }
    }
    r
}

/// Owned strings from character vectors.
pub fn strings_of(ws: &Vec<Vec<char>>) -> (r: Vec<String>)
    ensures
        views(r@) == char_views(ws@),
{
    let mut r: Vec<String> = Vec::new();
    let mut i: usize = 0;
    while i < ws.len()
        invariant
            i <= ws.len(),
            r@.len() == i,
            views(r@) == char_views(ws@).take(i as int),
        decreases ws.len() - i,
    {
        let ghost prev = r@;
        r.push(string_of(&ws[i], 0, ws[i].len()));
        i += 1;
        assert forall|j: int| 0 <= j < i implies #[trigger] views(r@)[j] == char_views(ws@).take(
            i as int,
        )[j] by {
            if j < i - 1 {
                assert(r@[j] == prev[j]);
                assert(views(prev)[j] == char_views(ws@).take(i - 1)[j]);
            } else {
                assert(ws@[j]@.subrange(0, ws@[j]@.len() as int) =~= ws@[j]@);
            }
        }
        assert(views(r@) =~= char_views(ws@).take(i as int));
    }
    assert(char_views(ws@).take(ws.len() as int) =~= char_views(ws@));
    r
}

/// `trim_start(s)` is `s` from the first non-white position `q` on.
pub proof fn lemma_trim_start_at(s: Seq<char>, q: int)
    requires
        0 <= q <= s.len(),
        forall|k: int| 0 <= k < q ==> is_white(s[k]),
        q == s.len() || !is_white(s[q]),
    ensures
        trim_start(s) == s.subrange(q, s.len() as int),
{
    lemma_trim_start(s, q);
}

/// `trim_start(s)` is a suffix of `s`.
pub proof fn lemma_trim_start_suffix(s: Seq<char>)
    ensures
        trim_start(s).len() <= s.len(),
        trim_start(s) == s.subrange(s.len() - trim_start(s).len(), s.len() as int),
    decreases s.len(),
{
    if s.len() > 0 && is_white(s[0]) {
        lemma_trim_start_suffix(s.drop_first());
        let t = trim_start(s.drop_first());
        assert(s.drop_first().subrange(s.len() - 1 - t.len(), s.len() - 1) =~= s.subrange(
            s.len() - t.len(),
            s.len() as int,
        ));
    } else {
        assert(s.subrange(0, s.len() as int) =~= s);
    }
}

/// Joins the parts with ", " between neighbours.
pub open spec fn join_comma(parts: Seq<Seq<char>>) -> Seq<char>
    decreases parts.len(),
{
    if parts.len() == 0 {
        Seq::empty()
    } else if parts.len() == 1 {
        parts[0]
    } else {
        join_comma(parts.drop_last()) + ", "@ + parts.last()
    }
}

/// Joins strings with ", " between neighbours.
pub fn join_comma_strings(parts: &Vec<String>) -> (r: String)
    ensures
        r@ == join_comma(views(parts@)),
{
    let mut r = String::new();
    let mut k: usize = 0;
    while k < parts.len()
        invariant
            k <= parts.len(),
            r@ == join_comma(views(parts@).take(k as int)),
        decreases parts.len() - k,
    {
        let ghost ps = views(parts@).take(k + 1);
        assert(ps.drop_last() =~= views(parts@).take(k as int));
        if k > 0 {
            r.append(", ");
        }
        r.append(parts[k].as_str());
        k += 1;
        assert(r@ =~= join_comma(ps));
    }
    assert(views(parts@).take(parts.len() as int) =~= views(parts@));
    r
}

} // verus!
