//! Repairing export priors: a consumer that reads another task's export must
//! list that task in its `**Prior:**` line. The rewriter touches one metadata
//! line of one task and keeps every other byte, newline spelling included.
use vstd::prelude::*;
use crate::paths::split_on;
use crate::report::Report;
use crate::text::{
    chars_of, find_char_from, index_of_char, is_ws, join, lemma_index_of_char, lemma_join_push,
    push_chars, push_str, seq_eq, slice_vec, starts_with, strip_cr, trim, trim_vec,
};

verus! {

// ---------------------------------------------------------------------------
// The plan text as lines
// ---------------------------------------------------------------------------

pub open spec fn starts_with_spec(s: Seq<char>, p: Seq<char>) -> bool {
    p.len() <= s.len() && s.take(p.len() as int) == p
}

/// `### `, the start of a task heading.
pub open spec fn heading_mark() -> Seq<char> {
    seq!['#', '#', '#', ' ']
}

/// `**`, the start of a metadata field line.
pub open spec fn field_mark() -> Seq<char> {
    seq!['*', '*']
}

/// `**Prior:**`.
pub open spec fn prior_mark() -> Seq<char> {
    seq!['*', '*', 'P', 'r', 'i', 'o', 'r', ':', '*', '*']
}

/// `**State:**`.
pub open spec fn state_mark() -> Seq<char> {
    seq!['*', '*', 'S', 't', 'a', 't', 'e', ':', '*', '*']
}

/// The separator of a reference list.
pub open spec fn list_sep() -> Seq<char> {
    seq![',', ' ']
}

/// A task heading `### <kind> <id>:` for task `id`.
pub open spec fn is_heading_of(line: Seq<char>, id: Seq<char>) -> bool {
    &&& starts_with_spec(line, heading_mark())
    &&& {
        let r = line.skip(4);
        let sp = index_of_char(r, ' ') as int;
        0 < sp < r.len() && starts_with_spec(r.skip(sp + 1), id.push(':'))
    }
}

/// The first heading of task `id` at or after line `from`, or the number of
/// lines.
pub open spec fn find_heading(ls: Seq<Seq<char>>, id: Seq<char>, from: int) -> int
    decreases ls.len() - from,
{
    if from < 0 || from >= ls.len() {
        ls.len() as int
    } else if is_heading_of(ls[from], id) {
        from
    } else {
        find_heading(ls, id, from + 1)
    }
}

/// The end of the run of metadata lines that starts at `from`.
pub open spec fn block_end(ls: Seq<Seq<char>>, from: int) -> int
    decreases ls.len() - from,
{
    if from < 0 || from >= ls.len() {
        ls.len() as int
    } else if !starts_with_spec(ls[from], field_mark()) {
        from
    } else {
        block_end(ls, from + 1)
    }
}

/// The first line in `[from, to)` that starts with `mark`, or `to`.
pub open spec fn find_marked(ls: Seq<Seq<char>>, mark: Seq<char>, from: int, to: int) -> int
    decreases to - from,
{
    if from >= to || from < 0 || to > ls.len() {
        to
    } else if starts_with_spec(ls[from], mark) {
        from
    } else {
        find_marked(ls, mark, from + 1, to)
    }
}

/// The `\r` a line keeps before its `\n`, if any.
pub open spec fn cr_of(line: Seq<char>) -> Seq<char> {
    if line.len() > 0 && line.last() == '\r' {
        seq!['\r']
    } else {
        seq![]
    }
}

/// The value of a `**Prior:**` line.
pub open spec fn prior_value(line: Seq<char>) -> Seq<char> {
    strip_cr(line).skip(10)
}

/// The references a `**Prior:**` line lists.
pub open spec fn prior_items(line: Seq<char>) -> Seq<Seq<char>> {
    split_on(prior_value(line), ',').map_values(|x: Seq<char>| trim(x))
}

/// The references of `refs.take(n)` that are not listed yet, each once, in
/// their first order.
pub open spec fn additions(refs: Seq<Seq<char>>, listed: Seq<Seq<char>>, n: nat) -> Seq<Seq<char>>
    decreases n,
{
    if n == 0 || n > refs.len() {
        seq![]
    } else {
        let prev = additions(refs, listed, (n - 1) as nat);
        let r = refs[n - 1];
        if listed.contains(r) || prev.contains(r) {
            prev
        } else {
            prev.push(r)
        }
    }
}

/// A fresh `**Prior:**` line listing `adds`, ending as `like` ends.
pub open spec fn fresh_prior_line(adds: Seq<Seq<char>>, like: Seq<char>) -> Seq<char> {
    prior_mark() + seq![' '] + join(adds, list_sep()) + cr_of(like)
}

/// `line` with `adds` appended to its list.
pub open spec fn extended_prior_line(line: Seq<char>, adds: Seq<Seq<char>>) -> Seq<char> {
    if trim(prior_value(line)).len() == 0 {
        fresh_prior_line(adds, line)
    } else {
        strip_cr(line) + list_sep() + join(adds, list_sep()) + cr_of(line)
    }
}

/// The repaired lines: in the metadata block under task `id`'s heading, the
/// `**Prior:**` line gains every reference it does not list yet; without one,
/// a new `**Prior:**` line follows the `**State:**` line, or the heading when
/// there is no state. Nothing to add leaves the lines as they are; no such
/// task gives `None`.
pub open spec fn rewrite_lines(ls: Seq<Seq<char>>, id: Seq<char>, refs: Seq<Seq<char>>) -> Option<
    Seq<Seq<char>>,
> {
    let h = find_heading(ls, id, 0);
    if h >= ls.len() {
        None
    } else {
        let end = block_end(ls, h + 1);
        let p = find_marked(ls, prior_mark(), h + 1, end);
        if p < end {
            let adds = additions(refs, prior_items(ls[p]), refs.len());
            if adds.len() == 0 {
                Some(ls)
            } else {
                Some(ls.update(p, extended_prior_line(ls[p], adds)))
            }
        } else {
            let adds = additions(refs, seq![], refs.len());
            if adds.len() == 0 {
                Some(ls)
            } else {
                let s = find_marked(ls, state_mark(), h + 1, end);
                let anchor = if s < end {
                    s
                } else {
                    h
                };
                Some(ls.insert(anchor + 1, fresh_prior_line(adds, ls[anchor])))
            }
        }
    }
}

/// The repaired plan text.
pub open spec fn rewrite_spec(text: Seq<char>, id: Seq<char>, refs: Seq<Seq<char>>) -> Option<
    Seq<char>,
> {
    match rewrite_lines(split_on(text, '\n'), id, refs) {
        Some(ls) => Some(join(ls, seq!['\n'])),
        None => None,
    }
}

/// A reference as a `**Prior:**` list holds it: non-empty, without
/// surrounding whitespace, without `,` or a line break.
pub open spec fn well_formed_reference(r: Seq<char>) -> bool {
    &&& r.len() > 0
    &&& !is_ws(r[0])
    &&& !is_ws(r.last())
    &&& forall|k: int| 0 <= k < r.len() ==> r[k] != ',' && r[k] != '\n'
}

/// The views of string slices.
pub open spec fn str_views(v: Seq<&str>) -> Seq<Seq<char>> {
    v.map_values(|s: &str| s@)
}

/// The views of character vectors.
pub open spec fn line_views(v: Seq<Vec<char>>) -> Seq<Seq<char>> {
    v.map_values(|l: Vec<char>| l@)
}

// ---------------------------------------------------------------------------
// Executable pieces
// ---------------------------------------------------------------------------

/// The pieces of `s` between occurrences of `c`.
pub fn split_char(s: &[char], c: char) -> (out: Vec<Vec<char>>)
    ensures
        line_views(out@) == split_on(s@, c),
{
    let mut out: Vec<Vec<char>> = Vec::new();
    let mut pos: usize = 0;
    assert(s@.skip(0) =~= s@);
    assert(line_views(out@) + split_on(s@.skip(0), c) =~= split_on(s@, c));
    loop
        invariant
            pos <= s@.len(),
            line_views(out@) + split_on(s@.skip(pos as int), c) == split_on(s@, c),
        decreases s@.len() - pos,
    {
        let ghost rest = s@.skip(pos as int);
        let j = find_char_from(s, c, pos);
        proof {
            lemma_index_of_char(rest, c, j - pos);
        }
        let seg = slice_vec(s, pos, j);
        assert(seg@ =~= rest.take(j - pos));
        let ghost before = out@;
        out.push(seg);
        assert(line_views(out@) =~= line_views(before).push(seg@));
        if j >= s.len() {
            assert(rest =~= seg@);
            assert(line_views(out@) =~= split_on(s@, c));
            return out;
        }
        assert(rest.skip(j - pos + 1) =~= s@.skip(j + 1));
        assert(line_views(out@) + split_on(s@.skip(j + 1), c) =~= split_on(s@, c));
        pos = j + 1;
    }
}

/// `ls` joined with `sep` between neighbours.
pub fn join_lines(ls: &Vec<Vec<char>>, sep: char) -> (out: String)
    ensures
        out@ == join(line_views(ls@), seq![sep]),
{
    let ghost views = line_views(ls@);
    let mut out = String::new();
    let mut i: usize = 0;
    while i < ls.len()
        invariant
            i <= ls@.len(),
            views == line_views(ls@),
            out@ == join(views.take(i as int), seq![sep]),
        decreases ls.len() - i,
    {
        proof {
            lemma_join_push(views.take(i as int), seq![sep], views[i as int]);
            assert(views.take(i + 1) =~= views.take(i as int).push(views[i as int]));
        }
        if i > 0 {
            out.push(sep);
        }
        push_chars(&mut out, &ls[i]);
        i += 1;
    }
    assert(views.take(ls@.len() as int) =~= views);
    out
}

fn heading_chars() -> (out: Vec<char>)
    ensures
        out@ == heading_mark(),
{
    let v = vec!['#', '#', '#', ' '];
    assert(v@ =~= heading_mark());
    v
}

fn field_chars() -> (out: Vec<char>)
    ensures
        out@ == field_mark(),
{
    let v = vec!['*', '*'];
    assert(v@ =~= field_mark());
    v
}

fn prior_chars() -> (out: Vec<char>)
    ensures
        out@ == prior_mark(),
{
    let v = vec!['*', '*', 'P', 'r', 'i', 'o', 'r', ':', '*', '*'];
    assert(v@ =~= prior_mark());
    v
}

fn state_chars() -> (out: Vec<char>)
    ensures
        out@ == state_mark(),
{
    let v = vec!['*', '*', 'S', 't', 'a', 't', 'e', ':', '*', '*'];
    assert(v@ =~= state_mark());
    v
}

/// Whether `line` is the heading of task `id`.
fn is_heading(line: &Vec<char>, id: &Vec<char>) -> (r: bool)
    ensures
        r == is_heading_of(line@, id@),
{
    let mark = heading_chars();
    if !starts_with(line, &mark) {
        return false;
    }
    let rest = slice_vec(line, 4, line.len());
    assert(rest@ =~= line@.skip(4));
    let sp = find_char_from(&rest, ' ', 0);
    proof {
        lemma_index_of_char(rest@, ' ', sp as int);
    }
    if sp == 0 || sp >= rest.len() {
        return false;
    }
    let after = slice_vec(&rest, sp + 1, rest.len());
    assert(after@ =~= rest@.skip(sp + 1));
    let mut want = id.clone();
    want.push(':');
    starts_with(&after, &want)
}

/// The first heading of task `id`, or the number of lines.
fn locate_heading(ls: &Vec<Vec<char>>, id: &Vec<char>) -> (h: usize)
    ensures
        h == find_heading(line_views(ls@), id@, 0),
{
    let ghost views = line_views(ls@);
    let mut i: usize = ls.len();
    // Search from the end so that the first match is the one kept.
    let mut found: usize = ls.len();
    assert(find_heading(views, id@, ls@.len() as int) == ls@.len());
    while i > 0
        invariant
            i <= ls@.len(),
            views == line_views(ls@),
            found == find_heading(views, id@, i as int),
        decreases i,
    {
        i -= 1;
        assert(views[i as int] == ls@[i as int]@);
        if is_heading(&ls[i], id) {
            found = i;
        }
    }
    found
}

/// The end of the run of metadata lines starting at `from`.
fn locate_block_end(ls: &Vec<Vec<char>>, from: usize) -> (e: usize)
    requires
        from <= ls@.len(),
    ensures
        e == block_end(line_views(ls@), from as int),
        from <= e <= ls@.len(),
{
    let ghost views = line_views(ls@);
    let mark = field_chars();
    let mut i = from;
    while i < ls.len() && starts_with(&ls[i], &mark)
        invariant
            from <= i <= ls@.len(),
            views == line_views(ls@),
            mark@ == field_mark(),
            block_end(views, from as int) == block_end(views, i as int),
        decreases ls.len() - i,
    {
        assert(views[i as int] == ls@[i as int]@);
        i += 1;
    }
    if i < ls.len() {
        assert(views[i as int] == ls@[i as int]@);
    }
    i
}

/// The first line in `[from, to)` starting with `mark`, or `to`.
fn locate_marked(ls: &Vec<Vec<char>>, mark: &Vec<char>, from: usize, to: usize) -> (k: usize)
    requires
        from <= to <= ls@.len(),
    ensures
        k == find_marked(line_views(ls@), mark@, from as int, to as int),
        from <= k <= to,
{
    let ghost views = line_views(ls@);
    let mut i = from;
    while i < to && !starts_with(&ls[i], mark)
        invariant
            from <= i <= to,
            to <= ls@.len(),
            views == line_views(ls@),
            find_marked(views, mark@, from as int, to as int) == find_marked(
                views,
                mark@,
                i as int,
                to as int,
            ),
        decreases to - i,
    {
        assert(views[i as int] == ls@[i as int]@);
        i += 1;
    }
    if i < to {
        assert(views[i as int] == ls@[i as int]@);
    }
    i
}

/// `line` without a final `\r`.
fn without_cr(line: &Vec<char>) -> (out: Vec<char>)
    ensures
        out@ == strip_cr(line@),
{
    if line.len() > 0 && line[line.len() - 1] == '\r' {
        let out = slice_vec(line, 0, line.len() - 1);
        assert(out@ =~= line@.drop_last());
        out
    } else {
        let out = slice_vec(line, 0, line.len());
        assert(out@ =~= line@);
        out
    }
}

/// The references a `**Prior:**` line lists.
fn listed_priors(line: &Vec<char>) -> (out: Vec<Vec<char>>)
    requires
        starts_with_spec(line@, prior_mark()),
    ensures
        line_views(out@) == prior_items(line@),
{
    let body = without_cr(line);
    let value = if body.len() >= 10 {
        slice_vec(&body, 10, body.len())
    } else {
        Vec::new()
    };
    assert(value@ =~= prior_value(line@));
    let pieces = split_char(&value, ',');
    let ghost pv = line_views(pieces@);
    let mut out: Vec<Vec<char>> = Vec::new();
    let mut i: usize = 0;
    while i < pieces.len()
        invariant
            i <= pieces@.len(),
            pv == line_views(pieces@),
            pv == split_on(value@, ','),
            line_views(out@) =~= pv.take(i as int).map_values(|x: Seq<char>| trim(x)),
        decreases pieces.len() - i,
    {
        let ghost before = out@;
        out.push(trim_vec(&pieces[i]));
        assert(line_views(out@) =~= line_views(before).push(trim(pv[i as int])));
        assert(pv.take(i + 1).map_values(|x: Seq<char>| trim(x)) =~= pv.take(i as int).map_values(
            |x: Seq<char>| trim(x),
        ).push(trim(pv[i as int])));
        i += 1;
    }
    assert(pv.take(pieces@.len() as int) =~= pv);
    out
}

/// Whether `x` is among `v`.
fn contains_line(v: &Vec<Vec<char>>, x: &Vec<char>) -> (r: bool)
    ensures
        r == line_views(v@).contains(x@),
{
    let ghost views = line_views(v@);
    let mut i: usize = 0;
    while i < v.len()
        invariant
            i <= v@.len(),
            views == line_views(v@),
            forall|k: int| 0 <= k < i ==> views[k] != x@,
        decreases v.len() - i,
    {
        if seq_eq(&v[i], x) {
            assert(views[i as int] == x@);
            return true;
        }
        i += 1;
    }
    false
}

/// The references not listed yet, each once, in their first order.
fn missing_references(refs: &[&str], listed: &Vec<Vec<char>>) -> (out: Vec<Vec<char>>)
    ensures
        line_views(out@) == additions(str_views(refs@), line_views(listed@), refs@.len()),
{
    let ghost rv = str_views(refs@);
    let mut out: Vec<Vec<char>> = Vec::new();
    let mut k: usize = 0;
    while k < refs.len()
        invariant
            k <= refs@.len(),
            rv == str_views(refs@),
            line_views(out@) == additions(rv, line_views(listed@), k as nat),
        decreases refs.len() - k,
    {
        let r = chars_of(refs[k]);
        assert(rv[k as int] == r@);
        if !contains_line(listed, &r) && !contains_line(&out, &r) {
            let ghost before = out@;
            out.push(r);
            assert(line_views(out@) =~= line_views(before).push(r@));
        }
        k += 1;
    }
    out
}

/// `parts` joined with `, `.
fn push_list(out: &mut String, parts: &Vec<Vec<char>>)
    ensures
        final(out)@ == old(out)@ + join(line_views(parts@), list_sep()),
{
    let ghost views = line_views(parts@);
    let ghost start = out@;
    let mut i: usize = 0;
    while i < parts.len()
        invariant
            i <= parts@.len(),
            views == line_views(parts@),
            out@ == start + join(views.take(i as int), list_sep()),
        decreases parts.len() - i,
    {
        proof {
            lemma_join_push(views.take(i as int), list_sep(), views[i as int]);
            assert(views.take(i + 1) =~= views.take(i as int).push(views[i as int]));
        }
        if i > 0 {
            out.push(',');
            out.push(' ');
        }
        push_chars(out, &parts[i]);
        i += 1;
        assert(out@ =~= start + join(views.take(i as int), list_sep()));
    }
    assert(views.take(parts@.len() as int) =~= views);
}

/// The characters of a fresh `**Prior:**` line listing `adds`, ending like
/// `like`.
fn fresh_line(adds: &Vec<Vec<char>>, like: &Vec<char>) -> (out: Vec<char>)
    ensures
        out@ == fresh_prior_line(line_views(adds@), like@),
{
    let mut text = String::new();
    let mark = prior_chars();
    push_chars(&mut text, &mark);
    text.push(' ');
    push_list(&mut text, adds);
    if like.len() > 0 && like[like.len() - 1] == '\r' {
        text.push('\r');
    }
    let out = chars_of(text.as_str());
    assert(out@ =~= fresh_prior_line(line_views(adds@), like@));
    out
}

/// The characters of `line` with `adds` appended to its list.
fn extended_line(line: &Vec<char>, adds: &Vec<Vec<char>>) -> (out: Vec<char>)
    requires
        starts_with_spec(line@, prior_mark()),
    ensures
        out@ == extended_prior_line(line@, line_views(adds@)),
{
    let body = without_cr(line);
    let value = if body.len() >= 10 {
        slice_vec(&body, 10, body.len())
    } else {
        Vec::new()
    };
    assert(value@ =~= prior_value(line@));
    let trimmed = trim_vec(&value);
    if trimmed.len() == 0 {
        return fresh_line(adds, line);
    }
    let mut text = String::new();
    push_chars(&mut text, &body);
    text.push(',');
    text.push(' ');
    push_list(&mut text, adds);
    if line.len() > 0 && line[line.len() - 1] == '\r' {
        text.push('\r');
    }
    let out = chars_of(text.as_str());
    assert(out@ =~= extended_prior_line(line@, line_views(adds@)));
    out
}

/// A line that `find_marked` stops at carries the mark.
proof fn lemma_find_marked(ls: Seq<Seq<char>>, mark: Seq<char>, from: int, to: int)
    requires
        0 <= from <= to <= ls.len(),
    ensures
        from <= find_marked(ls, mark, from, to) <= to,
        find_marked(ls, mark, from, to) < to ==> starts_with_spec(
            ls[find_marked(ls, mark, from, to)],
            mark,
        ),
        forall|k: int| from <= k < find_marked(ls, mark, from, to) ==> !starts_with_spec(#[trigger] ls[k], mark),
    decreases to - from,
{
    if from < to && !starts_with_spec(ls[from], mark) {
        lemma_find_marked(ls, mark, from + 1, to);
    }
}

/// The refusal when the plan holds no heading for the consumer.
pub open spec fn missing_consumer_message(id: Seq<char>) -> Seq<char> {
    "no heading for consumer task '"@ + id + "'"@
}

/// Add `references` to the `**Prior:**` line of task `consumer` in one plan
/// text: appended to an existing line, or on a new line after the task's
/// `**State:**` line. References already listed are not added again, so a
/// repaired text comes back unchanged; every other line, and every line
/// ending, stays as it was.
pub fn rewrite_one_consumer(text: &str, consumer: &str, references: &[&str]) -> (out: Result<
    String,
    Report,
>)
    ensures
        match rewrite_spec(text@, consumer@, str_views(references@)) {
            Some(t) => out matches Ok(o) && o@ == t,
            None => out matches Err(r) && r.message@ == missing_consumer_message(consumer@),
        },
{
    let cs = chars_of(text);
    let mut ls = split_char(&cs, '\n');
    let ghost original = line_views(ls@);
    let id = chars_of(consumer);
    let h = locate_heading(&ls, &id);
    if h >= ls.len() {
        let mut message = String::new();
        push_str(&mut message, "no heading for consumer task '");
        push_str(&mut message, consumer);
        push_str(&mut message, "'");
        return Err(Report::plain(message));
    }
    let end = locate_block_end(&ls, h + 1);
    let prior = prior_chars();
    let p = locate_marked(&ls, &prior, h + 1, end);
    proof {
        lemma_find_marked(original, prior_mark(), h + 1, end as int);
    }
    if p < end {
        assert(original[p as int] == ls@[p as int]@);
        let listed = listed_priors(&ls[p]);
        let adds = missing_references(references, &listed);
        if adds.len() == 0 {
            return Ok(join_lines(&ls, '\n'));
        }
        let line = extended_line(&ls[p], &adds);
        ls.set(p, line);
        assert(line_views(ls@) =~= original.update(p as int, line@));
    } else {
        let none: Vec<Vec<char>> = Vec::new();
        assert(line_views(none@) =~= Seq::<Seq<char>>::empty());
        let adds = missing_references(references, &none);
        if adds.len() == 0 {
            return Ok(join_lines(&ls, '\n'));
        }
        let state = state_chars();
        let s = locate_marked(&ls, &state, h + 1, end);
        let anchor = if s < end {
            s
        } else {
            h
        };
        assert(original[anchor as int] == ls@[anchor as int]@);
        let line = fresh_line(&adds, &ls[anchor]);
        ls.insert(anchor + 1, line);
        assert(line_views(ls@) =~= original.insert(anchor + 1, line@));
    }
    Ok(join_lines(&ls, '\n'))
}

// ---------------------------------------------------------------------------
// Splitting and joining lines
// ---------------------------------------------------------------------------

proof fn lemma_index_of_char_concat(a: Seq<char>, r: Seq<char>, c: char)
    ensures
        index_of_char(a + r, c) == if index_of_char(a, c) < a.len() {
            index_of_char(a, c)
        } else {
            a.len() + index_of_char(r, c)
        },
    decreases a.len(),
{
    if a.len() == 0 {
        assert(a + r =~= r);
    } else if a[0] == c {
    } else {
        assert((a + r).drop_first() =~= a.drop_first() + r);
        lemma_index_of_char_concat(a.drop_first(), r, c);
    }
}

proof fn lemma_index_of_char_bound(s: Seq<char>, c: char)
    ensures
        index_of_char(s, c) <= s.len(),
        index_of_char(s, c) < s.len() ==> s[index_of_char(s, c) as int] == c,
        forall|k: int| 0 <= k < index_of_char(s, c) ==> s[k] != c,
    decreases s.len(),
{
    if s.len() > 0 && s[0] != c {
        lemma_index_of_char_bound(s.drop_first(), c);
        assert forall|k: int| 0 <= k < index_of_char(s, c) implies s[k] != c by {
            if k > 0 {
                assert(s[k] == s.drop_first()[k - 1]);
            }
        }
    }
}

/// Splitting at one separator splits both sides.
proof fn lemma_split_concat(a: Seq<char>, b: Seq<char>, c: char)
    ensures
        split_on(a + seq![c] + b, c) == split_on(a, c) + split_on(b, c),
    decreases a.len(),
{
    let s = a + seq![c] + b;
    lemma_index_of_char_concat(a, seq![c] + b, c);
    assert(a + (seq![c] + b) =~= s);
    lemma_index_of_char_bound(a, c);
    let i = index_of_char(a, c) as int;
    if i < a.len() {
        assert(s.take(i) =~= a.take(i));
        assert(s.skip(i + 1) =~= a.skip(i + 1) + seq![c] + b);
        lemma_split_concat(a.skip(i + 1), b, c);
        assert(split_on(a, c) =~= seq![a.take(i)] + split_on(a.skip(i + 1), c));
        assert(split_on(s, c) =~= seq![a.take(i)] + split_on(a.skip(i + 1), c) + split_on(b, c));
    } else {
        assert(index_of_char(seq![c] + b, c) == 0);
        assert(s.take(a.len() as int) =~= a);
        assert(s.skip(a.len() as int + 1) =~= b);
        assert(split_on(a, c) =~= seq![a]);
        assert(split_on(s, c) =~= seq![a] + split_on(b, c));
    }
}

/// A piece without the separator splits into itself.
proof fn lemma_split_single(s: Seq<char>, c: char)
    requires
        !s.contains(c),
    ensures
        split_on(s, c) == seq![s],
{
    lemma_index_of_char_bound(s, c);
}

/// No piece of a split holds the separator, and there is at least one.
proof fn lemma_split_pieces(s: Seq<char>, c: char)
    ensures
        split_on(s, c).len() >= 1,
        forall|k: int| 0 <= k < split_on(s, c).len() ==> !(#[trigger] split_on(s, c)[k]).contains(c),
    decreases s.len(),
{
    lemma_index_of_char_bound(s, c);
    let i = index_of_char(s, c) as int;
    if i < s.len() {
        lemma_split_pieces(s.skip(i + 1), c);
        let rest = split_on(s.skip(i + 1), c);
        assert(split_on(s, c) =~= seq![s.take(i)] + rest);
        assert forall|k: int| 0 <= k < split_on(s, c).len() implies !(#[trigger] split_on(s, c)[k]).contains(c) by {
            if k > 0 {
                assert(split_on(s, c)[k] == rest[k - 1]);
            } else {
                assert(split_on(s, c)[0] == s.take(i));
            }
        }
    }
}

/// Joining lines that hold no separator and splitting again gives the lines.
proof fn lemma_split_join(ls: Seq<Seq<char>>, c: char)
    requires
        ls.len() >= 1,
        forall|k: int| 0 <= k < ls.len() ==> !(#[trigger] ls[k]).contains(c),
    ensures
        split_on(join(ls, seq![c]), c) == ls,
    decreases ls.len(),
{
    if ls.len() == 1 {
        lemma_split_single(ls[0], c);
        assert(seq![ls[0]] =~= ls);
    } else {
        let init = ls.drop_last();
        assert forall|k: int| 0 <= k < init.len() implies !(#[trigger] init[k]).contains(c) by {
            assert(init[k] == ls[k]);
        }
        lemma_split_join(init, c);
        lemma_split_concat(join(init, seq![c]), ls.last(), c);
        lemma_split_single(ls.last(), c);
        assert(join(ls, seq![c]) == join(init, seq![c]) + seq![c] + ls.last());
        assert(init + seq![ls.last()] =~= ls);
    }
}

/// A join of pieces free of `x` holds no `x` if the separator holds none.
proof fn lemma_join_free(ls: Seq<Seq<char>>, sep: Seq<char>, x: char)
    requires
        !sep.contains(x),
        forall|k: int| 0 <= k < ls.len() ==> !(#[trigger] ls[k]).contains(x),
    ensures
        !join(ls, sep).contains(x),
    decreases ls.len(),
{
    if ls.len() > 1 {
        let init = ls.drop_last();
        assert forall|k: int| 0 <= k < init.len() implies !(#[trigger] init[k]).contains(x) by {
            assert(init[k] == ls[k]);
        }
        lemma_join_free(init, sep, x);
        let j = join(init, sep) + sep + ls.last();
        assert(!ls.last().contains(x)) by {
            assert(ls.last() == ls[ls.len() - 1]);
        }
        assert forall|k: int| 0 <= k < j.len() implies j[k] != x by {
            if k < join(init, sep).len() {
                assert(j[k] == join(init, sep)[k]);
            } else if k < join(init, sep).len() + sep.len() {
                assert(j[k] == sep[k - join(init, sep).len()]);
            } else {
                assert(j[k] == ls.last()[k - join(init, sep).len() - sep.len()]);
            }
        }
    } else if ls.len() == 1 {
        assert(join(ls, sep) == ls[0]);
    }
}

// ---------------------------------------------------------------------------
// Reference lists
// ---------------------------------------------------------------------------

pub open spec fn all_well_formed(refs: Seq<Seq<char>>) -> bool {
    forall|k: int| 0 <= k < refs.len() ==> well_formed_reference(#[trigger] refs[k])
}

proof fn lemma_trim_spaced(x: Seq<char>)
    requires
        well_formed_reference(x),
    ensures
        trim(seq![' '] + x) == x,
{
    let s = seq![' '] + x;
    assert(s.last() == x.last());
    assert(crate::text::trim_end(s) == s);
    assert(s.drop_first() =~= x);
    assert(crate::text::trim_start(x) == x);
}

/// `" " + join(xs, ", ")` splits at its commas into `" " + x` for each `x`.
proof fn lemma_split_list(xs: Seq<Seq<char>>)
    requires
        xs.len() >= 1,
        all_well_formed(xs),
    ensures
        split_on(seq![' '] + join(xs, list_sep()), ',') == xs.map_values(|x: Seq<char>| seq![' '] + x),
    decreases xs.len(),
{
    let last = xs.last();
    assert(well_formed_reference(last));
    assert(!(seq![' '] + last).contains(',')) by {
        assert forall|k: int| 0 <= k < (seq![' '] + last).len() implies (seq![' '] + last)[k] != ',' by {
            if k > 0 {
                assert((seq![' '] + last)[k] == last[k - 1]);
            }
        }
    }
    lemma_split_single(seq![' '] + last, ',');
    if xs.len() == 1 {
        assert(join(xs, list_sep()) == xs[0]);
        assert(xs.map_values(|x: Seq<char>| seq![' '] + x) =~= seq![seq![' '] + xs[0]]);
    } else {
        let init = xs.drop_last();
        assert(all_well_formed(init)) by {
            assert forall|k: int| 0 <= k < init.len() implies well_formed_reference(#[trigger] init[k]) by {
                assert(init[k] == xs[k]);
            }
        }
        lemma_split_list(init);
        assert(join(xs, list_sep()) == join(init, list_sep()) + list_sep() + last);
        assert(seq![' '] + join(xs, list_sep()) =~= (seq![' '] + join(init, list_sep())) + seq![','] + (
        seq![' '] + last));
        lemma_split_concat(seq![' '] + join(init, list_sep()), seq![' '] + last, ',');
        assert(xs.map_values(|x: Seq<char>| seq![' '] + x) =~= init.map_values(
            |x: Seq<char>| seq![' '] + x,
        ) + seq![seq![' '] + last]);
    }
}

/// The trimmed items of `" " + join(xs, ", ")` are `xs`.
proof fn lemma_list_items(xs: Seq<Seq<char>>)
    requires
        xs.len() >= 1,
        all_well_formed(xs),
    ensures
        split_on(seq![' '] + join(xs, list_sep()), ',').map_values(|x: Seq<char>| trim(x)) == xs,
{
    lemma_split_list(xs);
    let spaced = xs.map_values(|x: Seq<char>| seq![' '] + x);
    assert forall|k: int| 0 <= k < xs.len() implies trim(#[trigger] spaced[k]) == xs[k] by {
        lemma_trim_spaced(xs[k]);
    }
    assert(spaced.map_values(|x: Seq<char>| trim(x)) =~= xs);
}

/// Nothing is added when every reference is listed.
proof fn lemma_additions_empty(refs: Seq<Seq<char>>, listed: Seq<Seq<char>>, n: nat)
    requires
        n <= refs.len(),
        forall|k: int| 0 <= k < n ==> listed.contains(#[trigger] refs[k]),
    ensures
        additions(refs, listed, n) == Seq::<Seq<char>>::empty(),
    decreases n,
{
    if n > 0 {
        lemma_additions_empty(refs, listed, (n - 1) as nat);
    }
}

/// Every reference is listed already or among the additions, and every
/// addition is a reference.
proof fn lemma_additions_cover(refs: Seq<Seq<char>>, listed: Seq<Seq<char>>, n: nat)
    requires
        n <= refs.len(),
    ensures
        forall|k: int| 0 <= k < n ==> listed.contains(#[trigger] refs[k]) || additions(refs, listed, n).contains(refs[k]),
        forall|j: int| 0 <= j < additions(refs, listed, n).len() ==> refs.contains(#[trigger] additions(refs, listed, n)[j]),
    decreases n,
{
    if n > 0 {
        lemma_additions_cover(refs, listed, (n - 1) as nat);
        let prev = additions(refs, listed, (n - 1) as nat);
        let cur = additions(refs, listed, n);
        assert forall|k: int| 0 <= k < n implies listed.contains(#[trigger] refs[k]) || cur.contains(refs[k]) by {
            if k < n - 1 && !listed.contains(refs[k]) {
                assert(prev.contains(refs[k]));
                let j = choose|j: int| 0 <= j < prev.len() && prev[j] == refs[k];
                assert(cur[j] == refs[k]);
            }
            if k == n - 1 && !listed.contains(refs[k]) && !prev.contains(refs[k]) {
                assert(cur[cur.len() - 1] == refs[k]);
            }
            if k == n - 1 && !listed.contains(refs[k]) && prev.contains(refs[k]) {
                assert(cur == prev);
            }
        }
        assert forall|j: int| 0 <= j < cur.len() implies refs.contains(#[trigger] cur[j]) by {
            if j < prev.len() {
                assert(cur[j] == prev[j]);
            } else {
                assert(cur[j] == refs[n - 1]);
            }
        }
    }
}

// ---------------------------------------------------------------------------
// The rewritten `**Prior:**` line
// ---------------------------------------------------------------------------

/// The last character of a join is its last piece's last character.
proof fn lemma_join_last(xs: Seq<Seq<char>>, sep: Seq<char>)
    requires
        xs.len() >= 1,
        xs.last().len() >= 1,
    ensures
        join(xs, sep).len() >= 1,
        join(xs, sep).last() == xs.last().last(),
{
    if xs.len() > 1 {
        let j = join(xs.drop_last(), sep) + sep + xs.last();
        assert(j.last() == xs.last().last());
    }
}

proof fn lemma_list_facts(adds: Seq<Seq<char>>)
    requires
        adds.len() >= 1,
        all_well_formed(adds),
    ensures
        join(adds, list_sep()).len() >= 1,
        join(adds, list_sep()).last() != '\r',
        !join(adds, list_sep()).contains('\n'),
{
    assert(well_formed_reference(adds.last()));
    lemma_join_last(adds, list_sep());
    assert forall|k: int| 0 <= k < adds.len() implies !(#[trigger] adds[k]).contains('\n') by {
        assert(well_formed_reference(adds[k]));
    }
    assert(!list_sep().contains('\n'));
    lemma_join_free(adds, list_sep(), '\n');
}

proof fn lemma_no_newline_concat(a: Seq<char>, b: Seq<char>)
    requires
        !a.contains('\n'),
        !b.contains('\n'),
    ensures
        !(a + b).contains('\n'),
{
    assert forall|k: int| 0 <= k < (a + b).len() implies (a + b)[k] != '\n' by {
        if k < a.len() {
            assert((a + b)[k] == a[k]);
        } else {
            assert((a + b)[k] == b[k - a.len()]);
        }
    }
}

/// A fresh `**Prior:**` line lists exactly the additions.
proof fn lemma_fresh_line(adds: Seq<Seq<char>>, like: Seq<char>)
    requires
        adds.len() >= 1,
        all_well_formed(adds),
    ensures
        starts_with_spec(fresh_prior_line(adds, like), prior_mark()),
        starts_with_spec(fresh_prior_line(adds, like), field_mark()),
        prior_items(fresh_prior_line(adds, like)) == adds,
        !fresh_prior_line(adds, like).contains('\n'),
{
    let j = join(adds, list_sep());
    lemma_list_facts(adds);
    let body = prior_mark() + seq![' '] + j;
    let f = fresh_prior_line(adds, like);
    assert(f == body + cr_of(like));
    assert(strip_cr(f) =~= body);
    assert(f.take(10) =~= prior_mark());
    assert(f.take(2) =~= field_mark());
    assert(prior_value(f) =~= seq![' '] + j);
    lemma_list_items(adds);
    lemma_no_newline_concat(prior_mark() + seq![' '], j);
    lemma_no_newline_concat(body, cr_of(like));
}

/// An extended `**Prior:**` line lists what it listed, then the additions.
proof fn lemma_extended_line(line: Seq<char>, adds: Seq<Seq<char>>)
    requires
        starts_with_spec(line, prior_mark()),
        !line.contains('\n'),
        adds.len() >= 1,
        all_well_formed(adds),
    ensures
        starts_with_spec(extended_prior_line(line, adds), prior_mark()),
        starts_with_spec(extended_prior_line(line, adds), field_mark()),
        trim(prior_value(line)).len() == 0 ==> prior_items(extended_prior_line(line, adds)) == adds,
        trim(prior_value(line)).len() > 0 ==> prior_items(extended_prior_line(line, adds)) == prior_items(
            line,
        ) + adds,
        !extended_prior_line(line, adds).contains('\n'),
{
    if trim(prior_value(line)).len() == 0 {
        lemma_fresh_line(adds, line);
    } else {
        let j = join(adds, list_sep());
        lemma_list_facts(adds);
        let base = strip_cr(line);
        assert(line[9] == '*') by {
            assert(line.take(10)[9] == prior_mark()[9]);
        }
        assert(base.len() >= 10);
        assert(base.take(10) =~= line.take(10));
        let body = base + list_sep() + j;
        let x = extended_prior_line(line, adds);
        assert(x == body + cr_of(line));
        assert(strip_cr(x) =~= body);
        assert(x.take(10) =~= prior_mark());
        assert(x.take(2) =~= field_mark());
        assert(prior_value(x) =~= base.skip(10) + seq![','] + (seq![' '] + j));
        lemma_split_concat(base.skip(10), seq![' '] + j, ',');
        lemma_list_items(adds);
        let left = split_on(base.skip(10), ',');
        let right = split_on(seq![' '] + j, ',');
        assert((left + right).map_values(|p: Seq<char>| trim(p)) =~= left.map_values(
            |p: Seq<char>| trim(p),
        ) + right.map_values(|p: Seq<char>| trim(p)));
        assert(!base.contains('\n')) by {
            assert forall|k: int| 0 <= k < base.len() implies base[k] != '\n' by {
                assert(base[k] == line[k]);
            }
        }
        lemma_no_newline_concat(base, list_sep());
        lemma_no_newline_concat(base + list_sep(), j);
        lemma_no_newline_concat(body, cr_of(line));
    }
}

// ---------------------------------------------------------------------------
// Where things are in the lines
// ---------------------------------------------------------------------------

proof fn lemma_find_heading_char(ls: Seq<Seq<char>>, id: Seq<char>, from: int)
    requires
        0 <= from <= ls.len(),
    ensures
        from <= find_heading(ls, id, from) <= ls.len(),
        find_heading(ls, id, from) < ls.len() ==> is_heading_of(ls[find_heading(ls, id, from)], id),
        forall|i: int| from <= i < find_heading(ls, id, from) ==> !is_heading_of(#[trigger] ls[i], id),
    decreases ls.len() - from,
{
    if from < ls.len() && !is_heading_of(ls[from], id) {
        lemma_find_heading_char(ls, id, from + 1);
    }
}

proof fn lemma_find_heading_eq(ls: Seq<Seq<char>>, id: Seq<char>, from: int, r: int)
    requires
        0 <= from <= r < ls.len(),
        is_heading_of(ls[r], id),
        forall|i: int| from <= i < r ==> !is_heading_of(#[trigger] ls[i], id),
    ensures
        find_heading(ls, id, from) == r,
    decreases r - from,
{
    if from < r {
        lemma_find_heading_eq(ls, id, from + 1, r);
    }
}

proof fn lemma_block_end_char(ls: Seq<Seq<char>>, from: int)
    requires
        0 <= from <= ls.len(),
    ensures
        from <= block_end(ls, from) <= ls.len(),
        block_end(ls, from) < ls.len() ==> !starts_with_spec(ls[block_end(ls, from)], field_mark()),
        forall|i: int| from <= i < block_end(ls, from) ==> starts_with_spec(#[trigger] ls[i], field_mark()),
    decreases ls.len() - from,
{
    if from < ls.len() && starts_with_spec(ls[from], field_mark()) {
        lemma_block_end_char(ls, from + 1);
    }
}

proof fn lemma_block_end_eq(ls: Seq<Seq<char>>, from: int, e: int)
    requires
        0 <= from <= e <= ls.len(),
        e < ls.len() ==> !starts_with_spec(ls[e], field_mark()),
        forall|i: int| from <= i < e ==> starts_with_spec(#[trigger] ls[i], field_mark()),
    ensures
        block_end(ls, from) == e,
    decreases e - from,
{
    if from < e {
        lemma_block_end_eq(ls, from + 1, e);
    }
}

proof fn lemma_find_marked_eq(ls: Seq<Seq<char>>, mark: Seq<char>, from: int, k: int, to: int)
    requires
        0 <= from <= k <= to <= ls.len(),
        k < to ==> starts_with_spec(ls[k], mark),
        forall|i: int| from <= i < k ==> !starts_with_spec(#[trigger] ls[i], mark),
    ensures
        find_marked(ls, mark, from, to) == k,
    decreases k - from,
{
    if from < k {
        lemma_find_marked_eq(ls, mark, from + 1, k, to);
    }
}

/// The references a task's metadata block lists in its `**Prior:**` line,
/// when the task has a heading and the block such a line.
pub open spec fn consumer_priors(ls: Seq<Seq<char>>, id: Seq<char>) -> Option<Seq<Seq<char>>> {
    let h = find_heading(ls, id, 0);
    if h >= ls.len() {
        None
    } else {
        let end = block_end(ls, h + 1);
        let p = find_marked(ls, prior_mark(), h + 1, end);
        if p < end {
            Some(prior_items(ls[p]))
        } else {
            None
        }
    }
}

/// Whether the task's `**Prior:**` line lists `r`.
pub open spec fn lists_reference(ls: Seq<Seq<char>>, id: Seq<char>, r: Seq<char>) -> bool {
    match consumer_priors(ls, id) {
        Some(items) => items.contains(r),
        None => false,
    }
}

proof fn lemma_all_ws_pieces(s: Seq<char>, c: char)
    requires
        forall|k: int| 0 <= k < s.len() ==> is_ws(#[trigger] s[k]),
    ensures
        forall|j: int| 0 <= j < split_on(s, c).len() ==> trim(#[trigger] split_on(s, c)[j]).len() == 0,
    decreases s.len(),
{
    lemma_index_of_char_bound(s, c);
    let i = index_of_char(s, c) as int;
    if i < s.len() {
        lemma_all_ws_pieces(s.skip(i + 1), c);
        lemma_all_ws_trim(s.take(i));
        assert forall|j: int| 0 <= j < split_on(s, c).len() implies trim(#[trigger] split_on(s, c)[j]).len() == 0 by {
            if j > 0 {
                assert(split_on(s, c)[j] == split_on(s.skip(i + 1), c)[j - 1]);
            }
        }
    } else {
        lemma_all_ws_trim(s);
    }
}

proof fn lemma_all_ws_trim(s: Seq<char>)
    requires
        forall|k: int| 0 <= k < s.len() ==> is_ws(#[trigger] s[k]),
    ensures
        trim(s).len() == 0,
    decreases s.len(),
{
    lemma_all_ws_trim_end(s);
}

proof fn lemma_all_ws_trim_end(s: Seq<char>)
    requires
        forall|k: int| 0 <= k < s.len() ==> is_ws(#[trigger] s[k]),
    ensures
        crate::text::trim_end(s).len() == 0,
    decreases s.len(),
{
    if s.len() > 0 {
        assert(is_ws(s[s.len() - 1]));
        lemma_all_ws_trim_end(s.drop_last());
    }
}

proof fn lemma_trim_empty_all_ws(s: Seq<char>)
    requires
        trim(s).len() == 0,
    ensures
        forall|k: int| 0 <= k < s.len() ==> is_ws(#[trigger] s[k]),
{
    lemma_trim_end_prefix(s);
    let e = crate::text::trim_end(s);
    lemma_trim_start_empty(e);
    assert forall|k: int| 0 <= k < s.len() implies is_ws(#[trigger] s[k]) by {
        if k < e.len() {
            assert(s[k] == s.take(e.len() as int)[k]);
            assert(is_ws(e[k]));
        }
    }
}

/// `trim_end(s)` is a prefix of `s` after which only whitespace follows.
proof fn lemma_trim_end_prefix(s: Seq<char>)
    ensures
        crate::text::trim_end(s).len() <= s.len(),
        crate::text::trim_end(s) == s.take(crate::text::trim_end(s).len() as int),
        forall|k: int| crate::text::trim_end(s).len() <= k < s.len() ==> is_ws(#[trigger] s[k]),
    decreases s.len(),
{
    if s.len() > 0 && is_ws(s.last()) {
        lemma_trim_end_prefix(s.drop_last());
        let e = crate::text::trim_end(s.drop_last());
        assert(s.drop_last().take(e.len() as int) =~= s.take(e.len() as int));
        assert forall|k: int| e.len() <= k < s.len() implies is_ws(#[trigger] s[k]) by {
            if k < s.len() - 1 {
                assert(s[k] == s.drop_last()[k]);
            }
        }
    } else {
        assert(s.take(s.len() as int) =~= s);
    }
}

proof fn lemma_trim_start_empty(s: Seq<char>)
    requires
        crate::text::trim_start(s).len() == 0,
    ensures
        forall|k: int| 0 <= k < s.len() ==> is_ws(#[trigger] s[k]),
    decreases s.len(),
{
    if s.len() > 0 {
        lemma_trim_start_empty(s.drop_first());
        assert forall|k: int| 0 <= k < s.len() implies is_ws(#[trigger] s[k]) by {
            if k > 0 {
                assert(s[k] == s.drop_first()[k - 1]);
            }
        }
    }
}

/// A `**Prior:**` line with a blank value lists no reference.
proof fn lemma_blank_prior_lists_nothing(line: Seq<char>, r: Seq<char>)
    requires
        trim(prior_value(line)).len() == 0,
        well_formed_reference(r),
    ensures
        !prior_items(line).contains(r),
{
    lemma_trim_empty_all_ws(prior_value(line));
    lemma_all_ws_pieces(prior_value(line), ',');
}

// ---------------------------------------------------------------------------
// Repairing twice is repairing once
// ---------------------------------------------------------------------------

pub open spec fn lines_free_of_newlines(ls: Seq<Seq<char>>) -> bool {
    forall|k: int| 0 <= k < ls.len() ==> !(#[trigger] ls[k]).contains('\n')
}

/// The repair of a task with a `**Prior:**` line.
proof fn lemma_rewrite_with_prior(ls: Seq<Seq<char>>, id: Seq<char>, refs: Seq<Seq<char>>)
    requires
        all_well_formed(refs),
        lines_free_of_newlines(ls),
        rewrite_lines(ls, id, refs) is Some,
        ({
            let h = find_heading(ls, id, 0);
            let end = block_end(ls, h + 1);
            find_marked(ls, prior_mark(), h + 1, end) < end
        }),
    ensures
        ({
            let l2 = rewrite_lines(ls, id, refs)->0;
            &&& rewrite_lines(l2, id, refs) == Some(l2)
            &&& lines_free_of_newlines(l2)
            &&& l2.len() == ls.len()
            &&& forall|k: int| 0 <= k < refs.len() ==> lists_reference(l2, id, #[trigger] refs[k])
        }),
{
    let h = find_heading(ls, id, 0);
    lemma_find_heading_char(ls, id, 0);
    lemma_block_end_char(ls, h + 1);
    let end = block_end(ls, h + 1);
    lemma_find_marked(ls, prior_mark(), h + 1, end);
    let p = find_marked(ls, prior_mark(), h + 1, end);
    let line = ls[p];
    let listed = prior_items(line);
    let n = refs.len();
    let adds = additions(refs, listed, n);
    lemma_additions_cover(refs, listed, n);
    if adds.len() == 0 {
        assert forall|k: int| 0 <= k < refs.len() implies lists_reference(ls, id, #[trigger] refs[k]) by {
            assert(listed.contains(refs[k]) || adds.contains(refs[k]));
        }
    } else {
        assert(all_well_formed(adds)) by {
            assert forall|j: int| 0 <= j < adds.len() implies well_formed_reference(#[trigger] adds[j]) by {
                assert(refs.contains(adds[j]));
                let k = choose|k: int| 0 <= k < refs.len() && refs[k] == adds[j];
                assert(well_formed_reference(refs[k]));
            }
        }
        assert(!line.contains('\n'));
        lemma_extended_line(line, adds);
        let x = extended_prior_line(line, adds);
        let l2 = ls.update(p, x);
        assert(rewrite_lines(ls, id, refs) == Some(l2));
        // The heading, the block and the line stay where they were.
        lemma_find_heading_eq(l2, id, 0, h);
        lemma_block_end_eq(l2, h + 1, end);
        lemma_find_marked_eq(l2, prior_mark(), h + 1, p, end);
        // Everything is listed now.
        let items = prior_items(x);
        assert forall|k: int| 0 <= k < refs.len() implies items.contains(#[trigger] refs[k]) by {
            assert(well_formed_reference(refs[k]));
            if trim(prior_value(line)).len() == 0 {
                lemma_blank_prior_lists_nothing(line, refs[k]);
                assert(adds.contains(refs[k]));
            } else {
                if listed.contains(refs[k]) {
                    let i = choose|i: int| 0 <= i < listed.len() && listed[i] == refs[k];
                    assert(items[i] == refs[k]);
                } else {
                    assert(adds.contains(refs[k]));
                    let j = choose|j: int| 0 <= j < adds.len() && adds[j] == refs[k];
                    assert(items[listed.len() + j] == refs[k]);
                }
            }
        }
        lemma_additions_empty(refs, items, n);
        assert(lines_free_of_newlines(l2)) by {
            assert forall|k: int| 0 <= k < l2.len() implies !(#[trigger] l2[k]).contains('\n') by {
                if k != p {
                    assert(l2[k] == ls[k]);
                }
            }
        }
    }
}

/// The repair of a task without a `**Prior:**` line.
proof fn lemma_rewrite_without_prior(ls: Seq<Seq<char>>, id: Seq<char>, refs: Seq<Seq<char>>)
    requires
        all_well_formed(refs),
        lines_free_of_newlines(ls),
        rewrite_lines(ls, id, refs) is Some,
        ({
            let h = find_heading(ls, id, 0);
            let end = block_end(ls, h + 1);
            find_marked(ls, prior_mark(), h + 1, end) >= end
        }),
    ensures
        ({
            let l2 = rewrite_lines(ls, id, refs)->0;
            &&& rewrite_lines(l2, id, refs) == Some(l2)
            &&& lines_free_of_newlines(l2)
            &&& l2.len() >= ls.len()
            &&& forall|k: int| 0 <= k < refs.len() ==> lists_reference(l2, id, #[trigger] refs[k])
        }),
{
    let h = find_heading(ls, id, 0);
    lemma_find_heading_char(ls, id, 0);
    lemma_block_end_char(ls, h + 1);
    let end = block_end(ls, h + 1);
    lemma_find_marked(ls, prior_mark(), h + 1, end);
    let n = refs.len();
    let empty = Seq::<Seq<char>>::empty();
    let adds = additions(refs, empty, n);
    lemma_additions_cover(refs, empty, n);
    if adds.len() == 0 {
        if n > 0 {
            assert(adds.contains(refs[0]));
        }
    } else {
        assert(all_well_formed(adds)) by {
            assert forall|j: int| 0 <= j < adds.len() implies well_formed_reference(#[trigger] adds[j]) by {
                assert(refs.contains(adds[j]));
                let k = choose|k: int| 0 <= k < refs.len() && refs[k] == adds[j];
                assert(well_formed_reference(refs[k]));
            }
        }
        lemma_find_marked(ls, state_mark(), h + 1, end);
        let st = find_marked(ls, state_mark(), h + 1, end);
        let anchor = if st < end {
            st
        } else {
            h
        };
        lemma_fresh_line(adds, ls[anchor]);
        let f = fresh_prior_line(adds, ls[anchor]);
        let l2 = ls.insert(anchor + 1, f);
        assert(rewrite_lines(ls, id, refs) == Some(l2));
        assert(l2.len() == ls.len() + 1);
        assert(forall|i: int| 0 <= i <= anchor ==> l2[i] == ls[i]);
        assert(l2[anchor + 1] == f);
        assert(forall|i: int| anchor + 1 < i < l2.len() ==> l2[i] == ls[i - 1]);
        lemma_find_heading_eq(l2, id, 0, h);
        assert forall|i: int| h + 1 <= i < end + 1 implies starts_with_spec(#[trigger] l2[i], field_mark()) by {
            if i <= anchor {
                assert(l2[i] == ls[i]);
            } else if i > anchor + 1 {
                assert(l2[i] == ls[i - 1]);
            }
        }
        if end + 1 < l2.len() {
            assert(l2[end + 1] == ls[end]);
        }
        lemma_block_end_eq(l2, h + 1, end + 1);
        assert forall|i: int| h + 1 <= i < anchor + 1 implies !starts_with_spec(#[trigger] l2[i], prior_mark()) by {
            assert(l2[i] == ls[i]);
        }
        lemma_find_marked_eq(l2, prior_mark(), h + 1, anchor + 1, end + 1);
        let items = prior_items(f);
        assert forall|k: int| 0 <= k < refs.len() implies items.contains(#[trigger] refs[k]) by {
            assert(!empty.contains(refs[k]));
        }
        lemma_additions_empty(refs, items, n);
        assert(lines_free_of_newlines(l2)) by {
            assert forall|k: int| 0 <= k < l2.len() implies !(#[trigger] l2[k]).contains('\n') by {
                if k <= anchor {
                    assert(l2[k] == ls[k]);
                } else if k > anchor + 1 {
                    assert(l2[k] == ls[k - 1]);
                }
            }
        }
    }
}

proof fn lemma_join_prepend(a: Seq<char>, rest: Seq<Seq<char>>, sep: Seq<char>)
    requires
        rest.len() >= 1,
    ensures
        join(seq![a] + rest, sep) == a + sep + join(rest, sep),
    decreases rest.len(),
{
    let all = seq![a] + rest;
    if rest.len() == 1 {
        assert(all.drop_last() =~= seq![a]);
        assert(join(seq![a], sep) == a);
        assert(join(rest, sep) == rest[0]);
        assert(all.last() == rest[0]);
        assert(join(all, sep) == join(all.drop_last(), sep) + sep + all.last());
    } else {
        lemma_join_prepend(a, rest.drop_last(), sep);
        assert(all.drop_last() =~= seq![a] + rest.drop_last());
        assert(all.last() == rest.last());
        assert(join(all, sep) == join(all.drop_last(), sep) + sep + all.last());
        assert(join(rest, sep) == join(rest.drop_last(), sep) + sep + rest.last());
        assert(join(all, sep) =~= a + sep + join(rest, sep));
    }
}

/// Splitting and joining again gives the text back.
proof fn lemma_join_split(s: Seq<char>, c: char)
    ensures
        join(split_on(s, c), seq![c]) == s,
    decreases s.len(),
{
    lemma_index_of_char_bound(s, c);
    let i = index_of_char(s, c) as int;
    if i < s.len() {
        lemma_join_split(s.skip(i + 1), c);
        lemma_split_pieces(s.skip(i + 1), c);
        lemma_join_prepend(s.take(i), split_on(s.skip(i + 1), c), seq![c]);
        assert(s.take(i) + seq![c] + s.skip(i + 1) =~= s);
    }
}

/// Repairing a repaired plan text changes nothing: the references a repair
/// adds are listed afterwards, so a second repair finds nothing to add.
pub proof fn repair_twice_is_repair_once(text: Seq<char>, id: Seq<char>, refs: Seq<Seq<char>>)
    requires
        all_well_formed(refs),
        rewrite_spec(text, id, refs) is Some,
    ensures
        rewrite_spec(rewrite_spec(text, id, refs)->0, id, refs) == rewrite_spec(text, id, refs),
        forall|k: int| 0 <= k < refs.len() ==> lists_reference(
            split_on(rewrite_spec(text, id, refs)->0, '\n'),
            id,
            #[trigger] refs[k],
        ),
{
    let ls = split_on(text, '\n');
    lemma_split_pieces(text, '\n');
    let h = find_heading(ls, id, 0);
    let end = block_end(ls, h + 1);
    if find_marked(ls, prior_mark(), h + 1, end) < end {
        lemma_rewrite_with_prior(ls, id, refs);
    } else {
        lemma_rewrite_without_prior(ls, id, refs);
    }
    let l2 = rewrite_lines(ls, id, refs)->0;
    lemma_split_join(l2, '\n');
}

/// A plan text whose consumer lists every reference already comes back
/// unchanged, byte for byte.
pub proof fn repair_of_a_repaired_text_is_unchanged(text: Seq<char>, id: Seq<char>, refs: Seq<Seq<char>>)
    requires
        find_heading(split_on(text, '\n'), id, 0) < split_on(text, '\n').len(),
        forall|k: int| 0 <= k < refs.len() ==> lists_reference(split_on(text, '\n'), id, #[trigger] refs[k]),
    ensures
        rewrite_spec(text, id, refs) == Some(text),
{
    let ls = split_on(text, '\n');
    let h = find_heading(ls, id, 0);
    let end = block_end(ls, h + 1);
    let p = find_marked(ls, prior_mark(), h + 1, end);
    if p < end {
        assert forall|k: int| 0 <= k < refs.len() implies prior_items(ls[p]).contains(#[trigger] refs[k]) by {
            assert(lists_reference(ls, id, refs[k]));
        }
        lemma_additions_empty(refs, prior_items(ls[p]), refs.len());
    } else {
        if refs.len() > 0 {
            assert(lists_reference(ls, id, refs[0]));
        }
        lemma_additions_empty(refs, Seq::<Seq<char>>::empty(), refs.len());
    }
    lemma_join_split(text, '\n');
}

} // verus!
