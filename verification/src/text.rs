//! Character-level text helpers shared by the renderers and parsers: the
//! mathematical meaning of `lines`, `trim`, prefix stripping and joining, and
//! executable versions proved against it.
use vstd::prelude::*;

verus! {

/// `String::push` appends one character.
pub assume_specification[ std::string::String::push ](s: &mut std::string::String, ch: char)
    ensures
        final(s)@ == old(s)@.push(ch),
;

// ---------------------------------------------------------------------------
// Specifications
// ---------------------------------------------------------------------------

/// Unicode `White_Space`, the property `char::is_whitespace` tests.
pub open spec fn is_ws(c: char) -> bool {
    ||| c == '\t'
    ||| c == '\n'
    ||| c == '\x0B'
    ||| c == '\x0C'
    ||| c == '\r'
    ||| c == ' '
    ||| c == '\u{85}'
    ||| c == '\u{A0}'
    ||| c == '\u{1680}'
    ||| ('\u{2000}' <= c && c <= '\u{200A}')
    ||| c == '\u{2028}'
    ||| c == '\u{2029}'
    ||| c == '\u{202F}'
    ||| c == '\u{205F}'
    ||| c == '\u{3000}'
}

/// `s` with its trailing whitespace removed (`str::trim_end`).
pub open spec fn trim_end(s: Seq<char>) -> Seq<char>
    decreases s.len(),
{
    if s.len() > 0 && is_ws(s.last()) {
        trim_end(s.drop_last())
    } else {
        s
    }
}

/// `s` with its leading whitespace removed (`str::trim_start`).
pub open spec fn trim_start(s: Seq<char>) -> Seq<char>
    decreases s.len(),
{
    if s.len() > 0 && is_ws(s[0]) {
        trim_start(s.drop_first())
    } else {
        s
    }
}

/// `str::trim`.
pub open spec fn trim(s: Seq<char>) -> Seq<char> {
    trim_start(trim_end(s))
}

/// `s` without trailing occurrences of `c` (`trim_end_matches(c)`).
pub open spec fn trim_end_char(s: Seq<char>, c: char) -> Seq<char>
    decreases s.len(),
{
    if s.len() > 0 && s.last() == c {
        trim_end_char(s.drop_last(), c)
    } else {
        s
    }
}

/// Index of the first `c` in `s`, or `s.len()` when there is none.
pub open spec fn index_of_char(s: Seq<char>, c: char) -> nat
    decreases s.len(),
{
    if s.len() == 0 {
        0
    } else if s[0] == c {
        0
    } else {
        1 + index_of_char(s.drop_first(), c)
    }
}

/// One line as `str::lines` yields it: a trailing `\r` is dropped only from
/// a line that a `\n` ended.
pub open spec fn strip_cr(s: Seq<char>) -> Seq<char> {
    if s.len() > 0 && s.last() == '\r' {
        s.drop_last()
    } else {
        s
    }
}

/// `str::lines`: the pieces between `\n`s, without a final empty piece after
/// a trailing `\n`, each `\r\n` ending counted as one ending.
pub open spec fn lines(s: Seq<char>) -> Seq<Seq<char>>
    decreases s.len(),
{
    if s.len() == 0 {
        seq![]
    } else {
        let i = index_of_char(s, '\n') as int;
        if i >= s.len() {
            seq![s]
        } else {
            seq![strip_cr(s.take(i))] + lines(s.skip(i + 1))
        }
    }
}

/// `parts` joined with `sep` between neighbours (`[..].join(sep)`).
pub open spec fn join(parts: Seq<Seq<char>>, sep: Seq<char>) -> Seq<char>
    decreases parts.len(),
{
    if parts.len() == 0 {
        seq![]
    } else if parts.len() == 1 {
        parts[0]
    } else {
        join(parts.drop_last(), sep) + sep + parts.last()
    }
}

/// `a` followed by a part: `join` extends by one separator and the part.
pub proof fn lemma_join_push(parts: Seq<Seq<char>>, sep: Seq<char>, p: Seq<char>)
    ensures
        join(parts.push(p), sep) == if parts.len() == 0 {
            p
        } else {
            join(parts, sep) + sep + p
        },
{
    assert(parts.push(p).drop_last() =~= parts);
}

/// The decimal digits of `n`, most significant first, as `to_string` spells it.
pub open spec fn decimal(n: nat) -> Seq<char>
    decreases n,
{
    if n < 10 {
        seq![digit_char(n)]
    } else {
        decimal(n / 10).push(digit_char(n % 10))
    }
}

pub open spec fn digit_char(d: nat) -> char {
    if d == 0 {
        '0'
    } else if d == 1 {
        '1'
    } else if d == 2 {
        '2'
    } else if d == 3 {
        '3'
    } else if d == 4 {
        '4'
    } else if d == 5 {
        '5'
    } else if d == 6 {
        '6'
    } else if d == 7 {
        '7'
    } else if d == 8 {
        '8'
    } else {
        '9'
    }
}

// ---------------------------------------------------------------------------
// Executable helpers
// ---------------------------------------------------------------------------

/// The characters of `s`, in order.
pub fn chars_of(s: &str) -> (out: Vec<char>)
    ensures
        out@ == s@,
{
    let mut out: Vec<char> = Vec::new();
    for c in it: s.chars()
        invariant
            out@ == it.seq().take(it.index() as int),
    {
        out.push(c);
    }
    out
}

/// A `String` holding exactly `cs`.
pub fn string_of(cs: &[char]) -> (out: String)
    ensures
        out@ == cs@,
{
    let mut out = String::new();
    push_chars(&mut out, cs);
    out
}

/// Append `cs` to `out`.
pub fn push_chars(out: &mut String, cs: &[char])
    ensures
        final(out)@ == old(out)@ + cs@,
{
    let ghost start = out@;
    let mut i: usize = 0;
    while i < cs.len()
        invariant
            i <= cs.len(),
            out@ == start + cs@.take(i as int),
        decreases cs.len() - i,
    {
        out.push(cs[i]);
        i += 1;
        assert(out@ =~= start + cs@.take(i as int));
    }
    assert(cs@.take(cs.len() as int) =~= cs@);
}

/// Append `s` to `out`.
pub fn push_str(out: &mut String, s: &str)
    ensures
        final(out)@ == old(out)@ + s@,
{
    let ghost start = out@;
    for c in it: s.chars()
        invariant
            out@ == start + it.seq().take(it.index() as int),
    {
        out.push(c);
    }
}

/// Character-wise equality of two strings.
pub fn str_eq(a: &str, b: &str) -> (r: bool)
    ensures
        r == (a@ == b@),
{
    let x = chars_of(a);
    let y = chars_of(b);
    seq_eq(&x, &y)
}

/// Element-wise equality of two character slices.
pub fn seq_eq(a: &[char], b: &[char]) -> (r: bool)
    ensures
        r == (a@ == b@),
{
    if a.len() != b.len() {
        return false;
    }
    let mut i: usize = 0;
    while i < a.len()
        invariant
            i <= a.len(),
            a.len() == b.len(),
            forall|k: int| 0 <= k < i ==> a@[k] == b@[k],
        decreases a.len() - i,
    {
        if a[i] != b[i] {
            return false;
        }
        i += 1;
    }
    assert(a@ =~= b@);
    true
}

/// Whether `s` begins with `p`.
pub fn starts_with(s: &[char], p: &[char]) -> (r: bool)
    ensures
        r == (p@.len() <= s@.len() && s@.take(p@.len() as int) == p@),
{
    if p.len() > s.len() {
        return false;
    }
    let mut i: usize = 0;
    while i < p.len()
        invariant
            i <= p.len(),
            p.len() <= s.len(),
            forall|k: int| 0 <= k < i ==> s@[k] == p@[k],
        decreases p.len() - i,
    {
        if s[i] != p[i] {
            assert(s@.take(p@.len() as int)[i as int] != p@[i as int]);
            return false;
        }
        i += 1;
    }
    assert(s@.take(p@.len() as int) =~= p@);
    true
}

/// Whether `s` ends with `p`.
pub fn ends_with(s: &[char], p: &[char]) -> (r: bool)
    ensures
        r == (p@.len() <= s@.len() && s@.skip(s@.len() - p@.len()) == p@),
{
    if p.len() > s.len() {
        return false;
    }
    let off = s.len() - p.len();
    let mut i: usize = 0;
    while i < p.len()
        invariant
            i <= p.len(),
            off + p.len() == s.len(),
            forall|k: int| 0 <= k < i ==> s@[off + k] == p@[k],
        decreases p.len() - i,
    {
        if s[off + i] != p[i] {
            assert(s@.skip(off as int)[i as int] != p@[i as int]);
            return false;
        }
        i += 1;
    }
    assert(s@.skip(off as int) =~= p@);
    true
}

/// The characters `s[lo..hi]`.
pub fn slice_vec(s: &[char], lo: usize, hi: usize) -> (out: Vec<char>)
    requires
        lo <= hi <= s@.len(),
    ensures
        out@ == s@.subrange(lo as int, hi as int),
{
    let mut out: Vec<char> = Vec::new();
    let mut i = lo;
    while i < hi
        invariant
            lo <= i <= hi,
            hi <= s@.len(),
            out@ == s@.subrange(lo as int, i as int),
        decreases hi - i,
    {
        out.push(s[i]);
        i += 1;
        assert(out@ =~= s@.subrange(lo as int, i as int));
    }
    out
}

/// Whether `c` is Unicode whitespace (`char::is_whitespace`).
pub fn is_whitespace(c: char) -> (r: bool)
    ensures
        r == is_ws(c),
{
    c == '\t' || c == '\n' || c == '\x0B' || c == '\x0C' || c == '\r' || c == ' '
        || c == '\u{85}' || c == '\u{A0}' || c == '\u{1680}' || ('\u{2000}' <= c && c
        <= '\u{200A}') || c == '\u{2028}' || c == '\u{2029}' || c == '\u{202F}' || c
        == '\u{205F}' || c == '\u{3000}'
}

/// Length of `trim_end(s)`.
pub fn trim_end_len(s: &[char]) -> (n: usize)
    ensures
        n <= s@.len(),
        trim_end(s@) == s@.take(n as int),
{
    let mut n = s.len();
    assert(s@.take(n as int) =~= s@);
    while n > 0 && is_whitespace(s[n - 1])
        invariant
            n <= s@.len(),
            trim_end(s@) == trim_end(s@.take(n as int)),
        decreases n,
    {
        assert(s@.take(n as int).drop_last() =~= s@.take(n - 1));
        n -= 1;
    }
    n
}

/// Number of leading whitespace characters of `s`.
pub fn trim_start_len(s: &[char]) -> (n: usize)
    ensures
        n <= s@.len(),
        trim_start(s@) == s@.skip(n as int),
{
    let mut n: usize = 0;
    assert(s@.skip(0) =~= s@);
    while n < s.len() && is_whitespace(s[n])
        invariant
            n <= s@.len(),
            trim_start(s@) == trim_start(s@.skip(n as int)),
        decreases s.len() - n,
    {
        assert(s@.skip(n as int).drop_first() =~= s@.skip(n + 1));
        n += 1;
    }
    n
}

/// `trim(s)`.
pub fn trim_vec(s: &[char]) -> (out: Vec<char>)
    ensures
        out@ == trim(s@),
{
    let e = trim_end_len(s);
    let t = slice_vec(s, 0, e);
    let b = trim_start_len(&t);
    assert(t@ == s@.take(e as int));
    slice_vec(&t, b, t.len())
}

/// `trim_end(s)`.
pub fn trim_end_vec(s: &[char]) -> (out: Vec<char>)
    ensures
        out@ == trim_end(s@),
{
    let e = trim_end_len(s);
    slice_vec(s, 0, e)
}

/// The first index `>= from` holding `c`, or `s.len()`.
pub fn find_char_from(s: &[char], c: char, from: usize) -> (i: usize)
    requires
        from <= s@.len(),
    ensures
        from <= i <= s@.len(),
        i < s@.len() ==> s@[i as int] == c,
        forall|k: int| from <= k < i ==> s@[k] != c,
{
    let mut i = from;
    while i < s.len() && s[i] != c
        invariant
            from <= i <= s@.len(),
            forall|k: int| from <= k < i ==> s@[k] != c,
        decreases s.len() - i,
    {
        i += 1;
    }
    i
}

/// `index_of_char` is the first position holding `c`.
pub proof fn lemma_index_of_char(s: Seq<char>, c: char, m: int)
    requires
        0 <= m <= s.len(),
        forall|k: int| 0 <= k < m ==> s[k] != c,
        m < s.len() ==> s[m] == c,
    ensures
        index_of_char(s, c) == m,
    decreases s.len(),
{
    if s.len() == 0 {
    } else if s[0] == c {
    } else {
        lemma_index_of_char(s.drop_first(), c, m - 1);
    }
}

/// `strip_cr` of a slice.
fn strip_cr_vec(s: Vec<char>) -> (out: Vec<char>)
    ensures
        out@ == strip_cr(s@),
{
    if s.len() > 0 && s[s.len() - 1] == '\r' {
        let mut t = s;
        t.pop();
        t
    } else {
        s
    }
}

/// The lines of `s`, as `str::lines` yields them.
pub fn lines_vec(s: &[char]) -> (out: Vec<Vec<char>>)
    ensures
        out@.len() == lines(s@).len(),
        forall|k: int| 0 <= k < out@.len() ==> #[trigger] out@[k]@ == lines(s@)[k],
{
    let mut out: Vec<Vec<char>> = Vec::new();
    let ghost mut done: Seq<Seq<char>> = seq![];
    let mut pos: usize = 0;
    assert(s@.skip(0) =~= s@);
    while pos < s.len()
        invariant
            pos <= s@.len(),
            out@.len() == done.len(),
            forall|k: int| 0 <= k < out@.len() ==> #[trigger] out@[k]@ == done[k],
            lines(s@) == done + lines(s@.skip(pos as int)),
        decreases s.len() - pos,
    {
        let ghost rest = s@.skip(pos as int);
        let j = find_char_from(s, '\n', pos);
        proof {
            lemma_index_of_char(rest, '\n', j - pos);
        }
        let seg = slice_vec(s, pos, j);
        assert(seg@ =~= rest.take(j - pos));
        if j >= s.len() {
            proof {
                assert(rest =~= seg@);
                done = done.push(rest);
                assert(s@.skip(s@.len() as int) =~= Seq::<char>::empty());
            }
            out.push(seg);
            pos = s.len();
            proof {
                assert(lines(s@) =~= done + lines(s@.skip(pos as int)));
            }
        } else {
            let line = strip_cr_vec(seg);
            proof {
                assert(rest.skip(j - pos + 1) =~= s@.skip(j + 1));
                done = done.push(strip_cr(rest.take(j - pos)));
                assert(lines(s@) =~= done + lines(s@.skip(j + 1)));
            }
            out.push(line);
            pos = j + 1;
        }
    }
    assert(s@.skip(pos as int) =~= Seq::<char>::empty());
    assert(lines(s@) =~= done);
    out
}

/// Decimal spelling of `n`.
pub fn usize_to_string(n: usize) -> (out: String)
    ensures
        out@ == decimal(n as nat),
    decreases n,
{
    let d = n % 10;
    let c = if d == 0 {
        '0'
    } else if d == 1 {
        '1'
    } else if d == 2 {
        '2'
    } else if d == 3 {
        '3'
    } else if d == 4 {
        '4'
    } else if d == 5 {
        '5'
    } else if d == 6 {
        '6'
    } else if d == 7 {
        '7'
    } else if d == 8 {
        '8'
    } else {
        '9'
    };
    if n < 10 {
        let mut out = String::new();
        out.push(c);
        assert(out@ =~= seq![digit_char(n as nat)]);
        out
    } else {
        let mut out = usize_to_string(n / 10);
        out.push(c);
        out
    }
}

/// Decimal spelling of a `u64`.
pub fn u64_to_string(n: u64) -> (out: String)
    ensures
        out@ == decimal(n as nat),
    decreases n,
{
    let d = (n % 10) as usize;
    if n < 10 {
        usize_to_string(d)
    } else {
        let mut out = u64_to_string(n / 10);
        out.push(if d == 0 {
            '0'
        } else if d == 1 {
            '1'
        } else if d == 2 {
            '2'
        } else if d == 3 {
            '3'
        } else if d == 4 {
            '4'
        } else if d == 5 {
            '5'
        } else if d == 6 {
            '6'
        } else if d == 7 {
            '7'
        } else if d == 8 {
            '8'
        } else {
            '9'
        });
        out
    }
}

/// Join `parts` with `sep`.
pub fn join_strings(parts: &Vec<String>, sep: &str) -> (out: String)
    ensures
        out@ == join(parts@.map_values(|p: String| p@), sep@),
{
    let ghost views = parts@.map_values(|p: String| p@);
    let mut out = String::new();
    let mut i: usize = 0;
    while i < parts.len()
        invariant
            i <= parts.len(),
            views == parts@.map_values(|p: String| p@),
            out@ == join(views.take(i as int), sep@),
        decreases parts.len() - i,
    {
        proof {
            lemma_join_push(views.take(i as int), sep@, views[i as int]);
            assert(views.take(i + 1) =~= views.take(i as int).push(views[i as int]));
        }
        if i > 0 {
            push_str(&mut out, sep);
        }
        push_str(&mut out, parts[i].as_str());
        i += 1;
    }
    assert(views.take(parts.len() as int) =~= views);
    out
}

/// Whether `p` occurs in `s` at index `i`.
pub open spec fn occurs_at(s: Seq<char>, p: Seq<char>, i: int) -> bool {
    0 <= i && i + p.len() <= s.len() && s.subrange(i, i + p.len()) == p
}

/// The start of the last occurrence of `p` in `s` (`rsplit_once`'s split).
pub open spec fn last_occurrence(s: Seq<char>, p: Seq<char>) -> Option<int>
    decreases s.len(),
{
    if s.len() < p.len() {
        None
    } else if occurs_at(s, p, s.len() - p.len()) {
        Some(s.len() - p.len())
    } else if s.len() == 0 {
        None
    } else {
        last_occurrence(s.drop_last(), p)
    }
}

/// The start of the first occurrence of `p` in `s` (`split_once`'s split).
pub open spec fn first_occurrence(s: Seq<char>, p: Seq<char>) -> Option<int>
    decreases s.len(),
{
    if s.len() < p.len() {
        None
    } else if occurs_at(s, p, 0) {
        Some(0)
    } else if s.len() == 0 {
        None
    } else {
        match first_occurrence(s.drop_first(), p) {
            Some(i) => Some(i + 1),
            None => None,
        }
    }
}

/// Whether `p` occurs in `s` at `i`.
pub fn matches_at(s: &[char], p: &[char], i: usize) -> (r: bool)
    requires
        i <= s@.len(),
    ensures
        r == occurs_at(s@, p@, i as int),
{
    if p.len() > s.len() - i {
        return false;
    }
    let mut k: usize = 0;
    while k < p.len()
        invariant
            k <= p.len(),
            i + p.len() <= s.len(),
            forall|j: int| 0 <= j < k ==> s@[i + j] == p@[j],
        decreases p.len() - k,
    {
        if s[i + k] != p[k] {
            assert(s@.subrange(i as int, i + p.len())[k as int] != p@[k as int]);
            return false;
        }
        k += 1;
    }
    assert(s@.subrange(i as int, i + p.len()) =~= p@);
    true
}

/// `last_occurrence` looks at the end first, then shortens `s`.
proof fn lemma_last_occurrence_take(s: Seq<char>, p: Seq<char>, n: int)
    requires
        0 <= n <= s.len(),
        p.len() <= n,
        !occurs_at(s.take(n), p, n - p.len()),
        n > 0,
    ensures
        last_occurrence(s.take(n), p) == last_occurrence(s.take(n - 1), p),
{
    let t = s.take(n);
    assert(t.subrange(n - p.len(), n) =~= s.subrange(n - p.len(), n));
    assert(t.drop_last() =~= s.take(n - 1));
}

/// Start of the last occurrence of `p` in `s`.
pub fn rfind_sub(s: &[char], p: &[char]) -> (r: Option<usize>)
    ensures
        match r {
            Some(i) => last_occurrence(s@, p@) == Some(i as int) && occurs_at(s@, p@, i as int),
            None => last_occurrence(s@, p@) is None,
        },
{
    let mut n = s.len();
    assert(s@.take(n as int) =~= s@);
    while n >= p.len()
        invariant
            n <= s@.len(),
            last_occurrence(s@, p@) == last_occurrence(s@.take(n as int), p@),
        decreases n,
    {
        let i = n - p.len();
        let t = slice_vec(s, 0, n);
        assert(t@ == s@.take(n as int));
        if matches_at(&t, p, i) {
            assert(t@.subrange(i as int, i + p@.len()) =~= s@.subrange(i as int, i + p@.len()));
            return Some(i);
        }
        if n == 0 {
            assert(last_occurrence(s@.take(0), p@) is None);
            return None;
        }
        proof {
            lemma_last_occurrence_take(s@, p@, n as int);
        }
        n -= 1;
    }
    None
}

/// Start of the first occurrence of `p` in `s`.
pub fn find_sub(s: &[char], p: &[char]) -> (r: Option<usize>)
    ensures
        match r {
            Some(i) => first_occurrence(s@, p@) == Some(i as int) && occurs_at(s@, p@, i as int),
            None => first_occurrence(s@, p@) is None,
        },
{
    let mut i: usize = 0;
    assert(s@.skip(0) =~= s@);
    while i <= s.len()
        invariant
            i <= s@.len(),
            first_occurrence(s@, p@) == match first_occurrence(
                s@.skip(i as int),
                p@,
            ) {
                Some(j) => Some(j + i),
                None => None,
            },
        decreases s.len() + 1 - i,
    {
        let ghost t = s@.skip(i as int);
        if p.len() > s.len() - i {
            assert(first_occurrence(t, p@) is None);
            return None;
        }
        if matches_at(s, p, i) {
            assert(t.subrange(0, p@.len() as int) =~= s@.subrange(i as int, i + p@.len()));
            return Some(i);
        }
        assert(t.subrange(0, p@.len() as int) =~= s@.subrange(i as int, i + p@.len()));
        if i == s.len() {
            return None;
        }
        assert(t.drop_first() =~= s@.skip(i + 1));
        i += 1;
    }
    None
}

} // verus!
