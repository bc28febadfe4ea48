//! The command-line side of direct block composition: mount and seam
//! operands, mounted input values, the schema check that lets a parent
//! input bind a child input, and the split of `--execute` arguments from
//! template inputs.
use vstd::prelude::*;
use crate::report::Report;
use crate::yaml::{Yaml, YamlEntry};
use crate::registry::{reg_get, reg_insert, sorted};
use crate::text::{chars_of, find_char_from, index_of_char, join, join_strings, push_str, seq_eq, slice_vec, starts_with, str_eq, string_of, lemma_index_of_char};

verus! {

// ---------------------------------------------------------------------------
// Input schemas
// ---------------------------------------------------------------------------

/// The declared shape of one template input.
#[derive(Debug)]
pub struct TemplateValueSchema {
    pub value_type: String,
    pub validate: Option<String>,
    pub format: Option<String>,
    /// The element schema of a list.
    pub items: Option<Box<TemplateValueSchema>>,
    /// The member schemas of an object, by name.
    pub properties: Vec<(String, TemplateValueSchema)>,
}

/// Two optional strings spell the same thing.
pub open spec fn opt_str_eq(a: Option<String>, b: Option<String>) -> bool {
    match (a, b) {
        (Some(x), Some(y)) => x@ == y@,
        (None, None) => true,
        _ => false,
    }
}

/// The schema of the first property named `name`.
pub open spec fn prop_get(props: Seq<(String, TemplateValueSchema)>, name: Seq<char>) -> Option<
    TemplateValueSchema,
>
    decreases props.len(),
{
    if props.len() == 0 {
        None
    } else if props[0].0@ == name {
        Some(props[0].1)
    } else {
        prop_get(props.drop_first(), name)
    }
}

/// A parent input may bind a child input when both declare the same type,
/// validation and format, compatible items, and the same properties, each
/// compatible with its namesake.
pub open spec fn schema_compatible(left: TemplateValueSchema, right: TemplateValueSchema) -> bool
    decreases left,
{
    &&& left.value_type@ == right.value_type@
    &&& opt_str_eq(left.validate, right.validate)
    &&& opt_str_eq(left.format, right.format)
    &&& match (left.items, right.items) {
        (Some(a), Some(b)) => schema_compatible(*a, *b),
        (None, None) => true,
        _ => false,
    }
    &&& left.properties@.len() == right.properties@.len()
    &&& forall|i: int|
        0 <= i < left.properties@.len() ==> match prop_get(
            right.properties@,
            #[trigger] left.properties@[i].0@,
        ) {
            Some(r) => schema_compatible(left.properties@[i].1, r),
            None => false,
        }
}

/// An optional string as text.
pub open spec fn opt_chars(o: Option<String>) -> Option<Seq<char>> {
    match o {
        Some(x) => Some(x@),
        None => None,
    }
}

/// A parent input binds a child input only when both declare the same type,
/// the same validation and the same format: a differing `validate`, `format`
/// or `type` refuses the bind.
pub proof fn binding_needs_equal_type_validation_and_format(left: TemplateValueSchema, right: TemplateValueSchema)
    ensures
        opt_chars(left.validate) != opt_chars(right.validate) ==> !schema_compatible(left, right),
        opt_chars(left.format) != opt_chars(right.format) ==> !schema_compatible(left, right),
        left.value_type@ != right.value_type@ ==> !schema_compatible(left, right),
{
}

fn opt_eq(a: &Option<String>, b: &Option<String>) -> (r: bool)
    ensures
        r == opt_str_eq(*a, *b),
{
    match (a, b) {
        (Some(x), Some(y)) => str_eq(x.as_str(), y.as_str()),
        (None, None) => true,
        _ => false,
    }
}

fn find_prop<'a>(props: &'a Vec<(String, TemplateValueSchema)>, name: &str) -> (out: Option<
    &'a TemplateValueSchema,
>)
    ensures
        match out {
            Some(s) => prop_get(props@, name@) == Some(*s),
            None => prop_get(props@, name@) is None,
        },
{
    let mut i: usize = 0;
    assert(props@.skip(0) =~= props@);
    while i < props.len()
        invariant
            i <= props.len(),
            prop_get(props@, name@) == prop_get(props@.skip(i as int), name@),
        decreases props.len() - i,
    {
        assert(props@.skip(i as int)[0] == props@[i as int]);
        assert(props@.skip(i as int).drop_first() =~= props@.skip(i + 1));
        if str_eq(props[i].0.as_str(), name) {
            return Some(&props[i].1);
        }
        i += 1;
    }
    None
}

/// Bind schemas use existing input types: whether `left` can feed `right`.
pub fn compatible_input_schema(left: &TemplateValueSchema, right: &TemplateValueSchema) -> (r:
    bool)
    ensures
        r == schema_compatible(*left, *right),
        r ==> left.value_type@ == right.value_type@ && opt_chars(left.validate) == opt_chars(right.validate)
            && opt_chars(left.format) == opt_chars(right.format),
    decreases left,
{
    proof {
        binding_needs_equal_type_validation_and_format(*left, *right);
    }
    if !str_eq(left.value_type.as_str(), right.value_type.as_str()) {
        return false;
    }
    if !opt_eq(&left.validate, &right.validate) || !opt_eq(&left.format, &right.format) {
        return false;
    }
    let items_ok = match (&left.items, &right.items) {
        (Some(a), Some(b)) => compatible_input_schema(a, b),
        (None, None) => true,
        _ => false,
    };
    if !items_ok {
        return false;
    }
    if left.properties.len() != right.properties.len() {
        return false;
    }
    let mut i: usize = 0;
    while i < left.properties.len()
        invariant
            i <= left.properties@.len(),
            forall|k: int|
                0 <= k < i ==> match prop_get(right.properties@, #[trigger] left.properties@[k].0@) {
                    Some(r) => schema_compatible(left.properties@[k].1, r),
                    None => false,
                },
        decreases left.properties.len() - i,
    {
        let (name, schema) = &left.properties[i];
        match find_prop(&right.properties, name.as_str()) {
            Some(r) => {
                assert(decreases_to!(*left => left.properties));
                assert(decreases_to!(left.properties => left.properties@));
                assert(decreases_to!(left.properties@ => left.properties@[i as int]));
                assert(decreases_to!(left.properties@[i as int] => left.properties@[i as int].1));
                if !compatible_input_schema(schema, r) {
                    return false;
                }
            },
            None => {
                return false;
            },
        }
        i += 1;
    }
    true
}

/// Every object in the schema names each property once.
pub open spec fn schema_wf(s: TemplateValueSchema) -> bool
    decreases s,
{
    &&& (forall|i: int, j: int|
        0 <= i < j < s.properties@.len() ==> #[trigger] s.properties@[i].0@ != #[trigger] s.properties@[j].0@)
    &&& match s.items {
        Some(a) => schema_wf(*a),
        None => true,
    }
    &&& forall|i: int| 0 <= i < s.properties@.len() ==> schema_wf(#[trigger] s.properties@[i].1)
}

/// With unique names, the lookup of the `i`-th name finds the `i`-th entry.
proof fn lemma_prop_get_unique(props: Seq<(String, TemplateValueSchema)>, i: int)
    requires
        0 <= i < props.len(),
        forall|a: int, b: int| 0 <= a < b < props.len() ==> #[trigger] props[a].0@ != #[trigger] props[b].0@,
    ensures
        prop_get(props, props[i].0@) == Some(props[i].1),
    decreases props.len(),
{
    if i > 0 {
        let rest = props.drop_first();
        assert(props[0].0@ != props[i].0@);
        assert forall|a: int, b: int| 0 <= a < b < rest.len() implies #[trigger] rest[a].0@ != #[trigger] rest[b].0@ by {
            assert(rest[a] == props[a + 1] && rest[b] == props[b + 1]);
        }
        lemma_prop_get_unique(rest, i - 1);
        assert(rest[i - 1] == props[i]);
    }
}

/// A found property comes from the list.
proof fn lemma_prop_get_found(props: Seq<(String, TemplateValueSchema)>, name: Seq<char>)
    requires
        prop_get(props, name) is Some,
    ensures
        exists|i: int| 0 <= i < props.len() && props[i].0@ == name && prop_get(props, name) == Some(
            props[i].1,
        ),
    decreases props.len(),
{
    if props[0].0@ != name {
        lemma_prop_get_found(props.drop_first(), name);
        let i = choose|i: int|
            0 <= i < props.drop_first().len() && props.drop_first()[i].0@ == name && prop_get(
                props.drop_first(),
                name,
            ) == Some(props.drop_first()[i].1);
        assert(props[i + 1] == props.drop_first()[i]);
    }
}

/// An absent name is in no entry.
proof fn lemma_prop_get_absent(props: Seq<(String, TemplateValueSchema)>, name: Seq<char>, i: int)
    requires
        prop_get(props, name) is None,
        0 <= i < props.len(),
    ensures
        props[i].0@ != name,
    decreases props.len(),
{
    if i > 0 && props[0].0@ != name {
        lemma_prop_get_absent(props.drop_first(), name, i - 1);
        assert(props.drop_first()[i - 1] == props[i]);
    }
}

/// Every well-formed schema can bind itself.
pub proof fn compatible_input_schema_is_reflexive(s: TemplateValueSchema)
    requires
        schema_wf(s),
    ensures
        schema_compatible(s, s),
    decreases s,
{
    match s.items {
        Some(a) => {
            compatible_input_schema_is_reflexive(*a);
        },
        None => {},
    }
    assert forall|i: int| 0 <= i < s.properties@.len() implies match prop_get(
        s.properties@,
        #[trigger] s.properties@[i].0@,
    ) {
        Some(r) => schema_compatible(s.properties@[i].1, r),
        None => false,
    } by {
        lemma_prop_get_unique(s.properties@, i);
        assert(decreases_to!(s => s.properties));
        assert(decreases_to!(s.properties => s.properties@));
        assert(decreases_to!(s.properties@ => s.properties@[i]));
        compatible_input_schema_is_reflexive(s.properties@[i].1);
    }
}

/// The property names of a list.
pub open spec fn prop_names(props: Seq<(String, TemplateValueSchema)>) -> Seq<Seq<char>> {
    props.map_values(|p: (String, TemplateValueSchema)| p.0@)
}

/// Binding is symmetric between well-formed schemas: a parent input that can
/// feed a child input can equally be fed by it.
pub proof fn compatible_input_schema_is_symmetric(l: TemplateValueSchema, r: TemplateValueSchema)
    requires
        schema_wf(l),
        schema_wf(r),
        schema_compatible(l, r),
    ensures
        schema_compatible(r, l),
    decreases l,
{
    match (l.items, r.items) {
        (Some(a), Some(b)) => {
            compatible_input_schema_is_symmetric(*a, *b);
        },
        _ => {},
    }
    let lp = l.properties@;
    let rp = r.properties@;
    let ln = prop_names(lp);
    let rn = prop_names(rp);
    // Every name of `l` is a name of `r`; both lists are duplicate free and of
    // one length, so they name the same set.
    assert(ln.no_duplicates()) by {
        assert forall|a: int, b: int| 0 <= a < ln.len() && 0 <= b < ln.len() && a != b implies ln[a] != ln[b] by {
            if a < b {
                assert(lp[a].0@ != lp[b].0@);
            } else {
                assert(lp[b].0@ != lp[a].0@);
            }
        }
    }
    assert(rn.no_duplicates()) by {
        assert forall|a: int, b: int| 0 <= a < rn.len() && 0 <= b < rn.len() && a != b implies rn[a] != rn[b] by {
            if a < b {
                assert(rp[a].0@ != rp[b].0@);
            } else {
                assert(rp[b].0@ != rp[a].0@);
            }
        }
    }
    assert(ln.to_set().subset_of(rn.to_set())) by {
        assert forall|x: Seq<char>| ln.to_set().contains(x) implies rn.to_set().contains(x) by {
            let i = choose|i: int| 0 <= i < ln.len() && ln[i] == x;
            assert(ln.contains(x) ==> exists|i: int| 0 <= i < ln.len() && ln[i] == x);
            assert(lp[i].0@ == x);
            let found = prop_get(rp, lp[i].0@);
            assert(found is Some);
            lemma_prop_get_found(rp, x);
            let j = choose|j: int| 0 <= j < rp.len() && rp[j].0@ == x && prop_get(rp, x) == Some(
                rp[j].1,
            );
            assert(rn[j] == x);
        }
    }
    ln.unique_seq_to_set();
    rn.unique_seq_to_set();
    vstd::set_lib::lemma_subset_equality(ln.to_set(), rn.to_set());
    assert forall|j: int| 0 <= j < rp.len() implies match prop_get(lp, #[trigger] rp[j].0@) {
        Some(x) => schema_compatible(rp[j].1, x),
        None => false,
    } by {
        let name = rp[j].0@;
        assert(rn[j] == name);
        assert(rn.to_set().contains(name));
        assert(ln.to_set().contains(name));
        let i = choose|i: int| 0 <= i < ln.len() && ln[i] == name;
        assert(lp[i].0@ == name);
        lemma_prop_get_unique(lp, i);
        lemma_prop_get_unique(rp, j);
        assert(prop_get(rp, lp[i].0@) == Some(rp[j].1));
        assert(schema_compatible(lp[i].1, rp[j].1));
        assert(decreases_to!(l => l.properties));
        assert(decreases_to!(l.properties => l.properties@));
        assert(decreases_to!(l.properties@ => l.properties@[i]));
        assert(schema_wf(lp[i].1));
        assert(schema_wf(rp[j].1));
        compatible_input_schema_is_symmetric(lp[i].1, rp[j].1);
    }
}

// ---------------------------------------------------------------------------
// Execute arguments
// ---------------------------------------------------------------------------

/// The views of a list of strings.
pub open spec fn strs(v: Seq<String>) -> Seq<Seq<char>> {
    v.map_values(|s: String| s@)
}

/// Whether `tail` ends `all`.
pub open spec fn is_tail(all: Seq<Seq<char>>, tail: Seq<Seq<char>>) -> bool {
    tail.len() <= all.len() && all.skip(all.len() - tail.len()) == tail
}

fn clone_strings(v: &[String], lo: usize, hi: usize) -> (out: Vec<String>)
    requires
        lo <= hi <= v@.len(),
    ensures
        strs(out@) == strs(v@).subrange(lo as int, hi as int),
{
    let mut out: Vec<String> = Vec::new();
    let mut i = lo;
    while i < hi
        invariant
            lo <= i <= hi <= v@.len(),
            strs(out@) == strs(v@).subrange(lo as int, i as int),
        decreases hi - i,
    {
        let ghost before = out@;
        out.push(v[i].clone());
        assert(strs(out@) =~= strs(before).push(v@[i as int]@));
        i += 1;
        assert(strs(out@) =~= strs(v@).subrange(lo as int, i as int));
    }
    out
}

/// Everything after `--execute` was parsed as trailing template inputs too;
/// strip exactly that tail so the template sees only its own inputs.
pub fn template_input_args_without_execute_args(
    input_args: &Vec<String>,
    execute_args: &Vec<String>,
) -> (out: Result<Vec<String>, Report>)
    ensures
        out is Ok <==> is_tail(strs(input_args@), strs(execute_args@)),
        match out {
            Ok(kept) => strs(kept@) + strs(execute_args@) == strs(input_args@),
            Err(e) => e.message@ == if strs(input_args@).len() < strs(execute_args@).len() {
                "internal error: execute arguments were not present in parsed template inputs"@
            } else {
                "internal error: execute arguments did not match trailing parsed template inputs"@
            },
        },
{
    let ghost ins = strs(input_args@);
    let ghost exs = strs(execute_args@);
    if execute_args.len() == 0 {
        let kept = clone_strings(input_args, 0, input_args.len());
        assert(ins.subrange(0, ins.len() as int) =~= ins);
        assert(exs =~= Seq::<Seq<char>>::empty());
        assert(ins.skip(ins.len() as int) =~= exs);
        assert(strs(kept@) + exs =~= ins);
        return Ok(kept);
    }
    if input_args.len() < execute_args.len() {
        let mut message = String::new();
        push_str(&mut message, "internal error: execute arguments were not present in parsed template inputs");
        return Err(Report::plain(message));
    }
    let split_at = input_args.len() - execute_args.len();
    assert(input_args@.len() == input_args.len());
    let mut i: usize = 0;
    while i < execute_args.len()
        invariant
            i <= execute_args@.len(),
            split_at + execute_args@.len() == input_args@.len(),
            input_args@.len() <= usize::MAX,
            ins == strs(input_args@),
            exs == strs(execute_args@),
            forall|k: int| 0 <= k < i ==> ins[split_at + k] == exs[k],
        decreases execute_args.len() - i,
    {
        if !str_eq(input_args[split_at + i].as_str(), execute_args[i].as_str()) {
            proof {
                assert(ins.skip(split_at as int)[i as int] != exs[i as int]);
            }
            let mut message = String::new();
            push_str(&mut message, "internal error: execute arguments did not match trailing parsed template inputs");
            return Err(Report::plain(message));
        }
        i += 1;
    }
    assert(ins.skip(split_at as int) =~= exs);
    let kept = clone_strings(input_args, 0, split_at);
    assert(strs(kept@) + exs =~= ins);
    Ok(kept)
}

// ---------------------------------------------------------------------------
// Mounted input values
// ---------------------------------------------------------------------------

/// Values already reduced through the direct-composition precedence chain,
/// keyed by `<mount>.<input>`, in key order.
#[derive(Debug)]
pub struct MountedInputValues {
    pub values: Vec<(String, Yaml)>,
}

/// The key with `alias.` removed, when it starts so.
pub open spec fn strip_alias(key: Seq<char>, alias: Seq<char>) -> Option<Seq<char>> {
    let p = alias.push('.');
    if p.len() <= key.len() && key.take(p.len() as int) == p {
        Some(key.skip(p.len() as int))
    } else {
        None
    }
}

/// The inputs of one mount, each under its key without the alias prefix.
pub open spec fn for_alias_spec(values: Seq<(String, Yaml)>, alias: Seq<char>) -> Seq<
    (Seq<char>, Yaml),
>
    decreases values.len(),
{
    if values.len() == 0 {
        seq![]
    } else {
        let rest = for_alias_spec(values.drop_last(), alias);
        match strip_alias(values.last().0@, alias) {
            Some(k) => rest.push((k, values.last().1)),
            None => rest,
        }
    }
}

/// The view of a list of borrowed entries.
pub open spec fn entry_views(v: Seq<(String, &Yaml)>) -> Seq<(Seq<char>, Yaml)> {
    v.map_values(|e: (String, &Yaml)| (e.0@, *e.1))
}

/// `s` with a trailing dot.
fn dotted(alias: &str) -> (out: Vec<char>)
    ensures
        out@ == alias@.push('.'),
{
    let mut p = chars_of(alias);
    p.push('.');
    p
}

/// A refusal as the contract speaks of it: a message and, where there is
/// one, a help line.
pub open spec fn refusal_is(e: Report, expected: (Seq<char>, Option<Seq<char>>)) -> bool {
    &&& e.message@ == expected.0
    &&& match expected.1 {
        Some(h) => e.help matches Some(x) && x@ == h,
        None => e.help is None,
    }
}

/// The `<alias>.<input>` assignments of one mount's values, or the refusal of
/// a non-string input name.
pub open spec fn mount_assignments(alias: Seq<char>, entries: Seq<YamlEntry>) -> Result<Seq<(Seq<char>, Yaml)>, (Seq<char>, Option<Seq<char>>)>
    decreases entries.len(),
{
    if entries.len() == 0 {
        Ok(Seq::empty())
    } else {
        match mount_assignments(alias, entries.drop_last()) {
            Err(e) => Err(e),
            Ok(prev) => match entries.last().key {
                Yaml::Str(k) => Ok(prev.push((alias + "."@ + k@, entries.last().value))),
                _ => Err(("values for mount '"@ + alias + "' contain a non-string input name"@, None)),
            },
        }
    }
}

/// The assignments of one values file's `alias: { input: value }` entries, in
/// order, or the refusal of its first malformed entry.
pub open spec fn file_assignments(file: Seq<char>, entries: Seq<(String, Yaml)>) -> Result<Seq<(Seq<char>, Yaml)>, (Seq<char>, Option<Seq<char>>)>
    decreases entries.len(),
{
    if entries.len() == 0 {
        Ok(Seq::empty())
    } else {
        match file_assignments(file, entries.drop_last()) {
            Err(e) => Err(e),
            Ok(prev) => {
                let (alias, nested) = entries.last();
                match nested {
                    Yaml::Mapping(es) => match mount_assignments(alias@, es@) {
                        Ok(a) => Ok(prev + a),
                        Err(e) => Err(e),
                    },
                    _ => Err(("values file '"@ + file + "' entry '"@ + alias@ + "' must be a mapping of mounted inputs"@,
                        Some("use an alias mapping, for example `review: { target: HEAD }`."@))),
                }
            },
        }
    }
}

/// The assignments of all values files, in order.
pub open spec fn files_assignments(files: Seq<(String, Vec<(String, Yaml)>)>) -> Result<Seq<(Seq<char>, Yaml)>, (Seq<char>, Option<Seq<char>>)>
    decreases files.len(),
{
    if files.len() == 0 {
        Ok(Seq::empty())
    } else {
        match files_assignments(files.drop_last()) {
            Err(e) => Err(e),
            Ok(prev) => match file_assignments(files.last().0@, files.last().1@) {
                Ok(a) => Ok(prev + a),
                Err(e) => Err(e),
            },
        }
    }
}

/// `--set` and `--set-file` assignments, each a string value.
pub open spec fn string_assignments(pairs: Seq<(String, String)>) -> Seq<(Seq<char>, Yaml)> {
    pairs.map_values(|p: (String, String)| (p.0@, Yaml::Str(p.1)))
}

/// The value the last assignment to `key` gives it.
pub open spec fn assigned(assignments: Seq<(Seq<char>, Yaml)>, key: Seq<char>) -> Option<Yaml>
    decreases assignments.len(),
{
    if assignments.len() == 0 {
        None
    } else if assignments.last().0 == key {
        Some(assignments.last().1)
    } else {
        assigned(assignments.drop_last(), key)
    }
}

fn insert_all(r: &mut Vec<(String, Yaml)>, items: Vec<(String, Yaml)>, Ghost(done): Ghost<Seq<(Seq<char>, Yaml)>>)
    requires
        sorted(old(r)@),
        forall|k: Seq<char>| #[trigger] reg_get(old(r)@, k) == assigned(done, k),
    ensures
        sorted(final(r)@),
        forall|k: Seq<char>| #[trigger] reg_get(final(r)@, k) == assigned(done + items@.map_values(|e: (String, Yaml)| (e.0@, e.1)), k),
{
    let ghost all = items@.map_values(|e: (String, Yaml)| (e.0@, e.1));
    let mut items = items;
    let mut i: usize = 0;
    let ghost n = items.len();
    while items.len() > 0
        invariant
            sorted(r@),
            i + items.len() == n,
            all.len() == n,
            forall|j: int| 0 <= j < items.len() ==> (#[trigger] items@[j]).0@ == all[i + j].0 && items@[j].1 == all[i + j].1,
            forall|k: Seq<char>| #[trigger] reg_get(r@, k) == assigned(done + all.take(i as int), k),
        decreases items.len(),
    {
        let (key, value) = items.remove(0);
        let ghost kv = key@;
        let ghost vv = value;
        assert(kv == all[i as int].0 && vv == all[i as int].1);
        reg_insert(r, key, value);
        proof {
            let pre = done + all.take(i as int);
            let post = done + all.take(i + 1);
            assert(post =~= pre.push((kv, vv)));
            assert(post.drop_last() =~= pre);
            assert forall|k: Seq<char>| #[trigger] reg_get(r@, k) == assigned(post, k) by {
                assert(post.last() == (kv, vv));
            }
        }
        i = i + 1;
    }
    assert(all.take(n as int) =~= all);
}

fn mount_entries(alias: &String, entries: &mut Vec<YamlEntry>) -> (out: Result<Vec<(String, Yaml)>, Report>)
    ensures
        match mount_assignments(alias@, old(entries)@) {
            Ok(a) => out matches Ok(v) && v@.map_values(|e: (String, Yaml)| (e.0@, e.1)) == a,
            Err(x) => out matches Err(e) && refusal_is(e, x),
        },
{
    let ghost all = old(entries)@;
    let mut out: Vec<(String, Yaml)> = Vec::new();
    let mut i: usize = 0;
    let ghost n = entries.len();
    while entries.len() > 0
        invariant
            i + entries.len() == n,
            all.len() == n,
            forall|j: int| 0 <= j < entries.len() ==> #[trigger] entries@[j] == all[i + j],
            all == old(entries)@,
            mount_assignments(alias@, all.take(i as int)) matches Ok(a) && out@.map_values(|e: (String, Yaml)| (e.0@, e.1)) == a,
        decreases entries.len(),
    {
        let entry = entries.remove(0);
        assert(entry == all[i as int]);
        assert(all.take(i + 1).drop_last() =~= all.take(i as int));
        assert(all.take(i + 1).last() == entry);
        match entry.key {
            Yaml::Str(k) => {
                let mut key = String::new();
                push_str(&mut key, alias.as_str());
                push_str(&mut key, ".");
                push_str(&mut key, k.as_str());
                let ghost before = out@;
                out.push((key, entry.value));
                assert(out@.map_values(|e: (String, Yaml)| (e.0@, e.1)) =~= before.map_values(|e: (String, Yaml)| (e.0@, e.1)).push((alias@ + "."@ + k@, entry.value)));
            },
            _ => {
                let mut message = String::new();
                push_str(&mut message, "values for mount '");
                push_str(&mut message, alias.as_str());
                push_str(&mut message, "' contain a non-string input name");
                proof {
                    let t = all.take(i + 1);
                    assert(t.drop_last() =~= all.take(i as int));
                    assert(t.last() == entry);
                    assert(!(t.last().key is Str));
                    assert(mount_assignments(alias@, t) == Err::<Seq<(Seq<char>, Yaml)>, (Seq<char>, Option<Seq<char>>)>((message@, None)));
                    lemma_mount_error_persists(alias@, all, i as int + 1);
                }
                return Err(Report::plain(message));
            },
        }
        i = i + 1;
    }
    assert(all.take(n as int) =~= all);
    Ok(out)
}

proof fn lemma_mount_error_persists(alias: Seq<char>, all: Seq<YamlEntry>, m: int)
    requires
        0 <= m <= all.len(),
        mount_assignments(alias, all.take(m)) is Err,
    ensures
        mount_assignments(alias, all) == mount_assignments(alias, all.take(m)),
    decreases all.len() - m,
{
    if m < all.len() {
        assert(all.take(m + 1).drop_last() =~= all.take(m));
        lemma_mount_error_persists(alias, all, m + 1);
    } else {
        assert(all.take(m) =~= all);
    }
}

/// The view of owned assignments.
pub open spec fn owned_views(v: Seq<(String, Yaml)>) -> Seq<(Seq<char>, Yaml)> {
    v.map_values(|e: (String, Yaml)| (e.0@, e.1))
}

proof fn lemma_file_error_persists(file: Seq<char>, all: Seq<(String, Yaml)>, m: int)
    requires
        0 <= m <= all.len(),
        file_assignments(file, all.take(m)) is Err,
    ensures
        file_assignments(file, all) == file_assignments(file, all.take(m)),
    decreases all.len() - m,
{
    if m < all.len() {
        assert(all.take(m + 1).drop_last() =~= all.take(m));
        lemma_file_error_persists(file, all, m + 1);
    } else {
        assert(all.take(m) =~= all);
    }
}

proof fn lemma_files_error_persists(all: Seq<(String, Vec<(String, Yaml)>)>, m: int)
    requires
        0 <= m <= all.len(),
        files_assignments(all.take(m)) is Err,
    ensures
        files_assignments(all) == files_assignments(all.take(m)),
    decreases all.len() - m,
{
    if m < all.len() {
        assert(all.take(m + 1).drop_last() =~= all.take(m));
        lemma_files_error_persists(all, m + 1);
    } else {
        assert(all.take(m) =~= all);
    }
}

fn file_entries(
    file: &String,
    entries: &mut Vec<(String, Yaml)>,
    r: &mut Vec<(String, Yaml)>,
    Ghost(done): Ghost<Seq<(Seq<char>, Yaml)>>,
) -> (out: Result<(), Report>)
    requires
        sorted(old(r)@),
        forall|k: Seq<char>| #[trigger] reg_get(old(r)@, k) == assigned(done, k),
    ensures
        match file_assignments(file@, old(entries)@) {
            Ok(a) => out is Ok && sorted(final(r)@)
                && forall|k: Seq<char>| #[trigger] reg_get(final(r)@, k) == assigned(done + a, k),
            Err(x) => out matches Err(e) && refusal_is(e, x),
        },
{
    let ghost all = old(entries)@;
    let mut i: usize = 0;
    let ghost n = entries.len();
    while entries.len() > 0
        invariant
            i + entries.len() == n,
            all.len() == n,
            all == old(entries)@,
            forall|j: int| 0 <= j < entries.len() ==> #[trigger] entries@[j] == all[i + j],
            sorted(r@),
            file_assignments(file@, all.take(i as int)) matches Ok(a)
                && forall|k: Seq<char>| #[trigger] reg_get(r@, k) == assigned(done + a, k),
        decreases entries.len(),
    {
        let ghost prev = file_assignments(file@, all.take(i as int))->Ok_0;
        let (alias, nested) = entries.remove(0);
        let ghost t = all.take(i + 1);
        assert(t.drop_last() =~= all.take(i as int));
        assert(t.last() == (alias, nested));
        match nested {
            Yaml::Mapping(mut es) => {
                let ghost es0 = es@;
                match mount_entries(&alias, &mut es) {
                    Ok(items) => {
                        let ghost a = owned_views(items@);
                        assert(file_assignments(file@, t) == Ok::<Seq<(Seq<char>, Yaml)>, (Seq<char>, Option<Seq<char>>)>(prev + a));
                        insert_all(r, items, Ghost(done + prev));
                        assert(done + prev + a =~= done + (prev + a));
                    },
                    Err(e) => {
                        proof {
                            lemma_file_error_persists(file@, all, i as int + 1);
                        }
                        return Err(e);
                    },
                }
            },
            _ => {
                let mut message = String::new();
                push_str(&mut message, "values file '");
                push_str(&mut message, file.as_str());
                push_str(&mut message, "' entry '");
                push_str(&mut message, alias.as_str());
                push_str(&mut message, "' must be a mapping of mounted inputs");
                let mut help = String::new();
                push_str(&mut help, "use an alias mapping, for example `review: { target: HEAD }`.");
                proof {
                    lemma_file_error_persists(file@, all, i as int + 1);
                }
                return Err(Report::with_help(message, help));
            },
        }
        i = i + 1;
    }
    assert(all.take(n as int) =~= all);
    Ok(())
}

fn files_entries(
    files: &mut Vec<(String, Vec<(String, Yaml)>)>,
    r: &mut Vec<(String, Yaml)>,
) -> (out: Result<(), Report>)
    requires
        old(r)@.len() == 0,
    ensures
        match files_assignments(old(files)@) {
            Ok(a) => out is Ok && sorted(final(r)@)
                && forall|k: Seq<char>| #[trigger] reg_get(final(r)@, k) == assigned(a, k),
            Err(x) => out matches Err(e) && refusal_is(e, x),
        },
{
    let ghost all = old(files)@;
    let mut i: usize = 0;
    let ghost n = files.len();
    assert(all.take(0) =~= Seq::<(String, Vec<(String, Yaml)>)>::empty());
    while files.len() > 0
        invariant
            i + files.len() == n,
            all.len() == n,
            all == old(files)@,
            forall|j: int| 0 <= j < files.len() ==> #[trigger] files@[j] == all[i + j],
            sorted(r@),
            files_assignments(all.take(i as int)) matches Ok(a)
                && forall|k: Seq<char>| #[trigger] reg_get(r@, k) == assigned(a, k),
        decreases files.len(),
    {
        let ghost prev = files_assignments(all.take(i as int))->Ok_0;
        let (file, mut entries) = files.remove(0);
        let ghost t = all.take(i + 1);
        assert(t.drop_last() =~= all.take(i as int));
        assert(t.last() == (file, entries));
        match file_entries(&file, &mut entries, r, Ghost(prev)) {
            Ok(()) => {},
            Err(e) => {
                proof {
                    lemma_files_error_persists(all, i as int + 1);
                }
                return Err(e);
            },
        }
        i = i + 1;
    }
    assert(all.take(n as int) =~= all);
    Ok(())
}

fn string_values(pairs: Vec<(String, String)>) -> (out: Vec<(String, Yaml)>)
    ensures
        owned_views(out@) == string_assignments(pairs@),
{
    let ghost all = pairs@;
    let mut pairs = pairs;
    let mut out: Vec<(String, Yaml)> = Vec::new();
    let mut i: usize = 0;
    let ghost n = pairs.len();
    while pairs.len() > 0
        invariant
            i + pairs.len() == n,
            all.len() == n,
            forall|j: int| 0 <= j < pairs.len() ==> #[trigger] pairs@[j] == all[i + j],
            owned_views(out@) == string_assignments(all.take(i as int)),
        decreases pairs.len(),
    {
        let pair = pairs.remove(0);
        assert(pair == all[i as int]);
        let (key, value) = pair;
        let ghost before = out@;
        out.push((key, Yaml::Str(value)));
        assert(owned_views(out@) =~= owned_views(before).push((all[i as int].0@, Yaml::Str(all[i as int].1))));
        assert(string_assignments(all.take(i + 1)) =~= string_assignments(all.take(i as int)).push((all[i as int].0@, Yaml::Str(all[i as int].1))));
        i = i + 1;
    }
    assert(all.take(n as int) =~= all);
    out
}

/// All assignments in precedence order: the values files, then `--set`, then
/// `--set-file`; or the refusal of the first malformed values-file entry.
pub open spec fn cli_assignments(
    files: Seq<(String, Vec<(String, Yaml)>)>,
    sets: Seq<(String, String)>,
    set_files: Seq<(String, String)>,
) -> Result<Seq<(Seq<char>, Yaml)>, (Seq<char>, Option<Seq<char>>)> {
    match files_assignments(files) {
        Ok(a) => Ok(a + string_assignments(sets) + string_assignments(set_files)),
        Err(e) => Err(e),
    }
}

impl MountedInputValues {
    /// Gather mounted input values from the command line: each parsed values
    /// file (its display name and its `alias: { input: value }` entries), then
    /// the parsed `--set` assignments, then the `--set-file` ones with the
    /// files' contents, each later value replacing an earlier one under the
    /// same `<alias>.<input>` key.
    pub fn from_cli(
        values_files: Vec<(String, Vec<(String, Yaml)>)>,
        set_values: Vec<(String, String)>,
        set_files: Vec<(String, String)>,
    ) -> (out: Result<MountedInputValues, Report>)
        ensures
            match cli_assignments(values_files@, set_values@, set_files@) {
                Ok(a) => out matches Ok(v) && sorted(v.values@)
                    && forall|k: Seq<char>| #[trigger] reg_get(v.values@, k) == assigned(a, k),
                Err(x) => out matches Err(e) && refusal_is(e, x),
            },
    {
        let mut files = values_files;
        let mut values: Vec<(String, Yaml)> = Vec::new();
        match files_entries(&mut files, &mut values) {
            Ok(()) => {},
            Err(e) => return Err(e),
        }
        let ghost a = files_assignments(values_files@)->Ok_0;
        let sets = string_values(set_values);
        insert_all(&mut values, sets, Ghost(a));
        let ghost b = a + string_assignments(set_values@);
        let set_file_values = string_values(set_files);
        insert_all(&mut values, set_file_values, Ghost(b));
        Ok(MountedInputValues { values })
    }

    /// The values addressed to one mount, keyed by the mount's own input
    /// names.
    pub fn for_alias(&self, alias: &str) -> (out: Vec<(String, &Yaml)>)
        ensures
            entry_views(out@) == for_alias_spec(self.values@, alias@),
    {
        let prefix = dotted(alias);
        let mut out: Vec<(String, &Yaml)> = Vec::new();
        let mut i: usize = 0;
        while i < self.values.len()
            invariant
                i <= self.values@.len(),
                prefix@ == alias@.push('.'),
                entry_views(out@) == for_alias_spec(self.values@.take(i as int), alias@),
            decreases self.values.len() - i,
        {
            assert(self.values@.take(i + 1).drop_last() =~= self.values@.take(i as int));
            let key = chars_of(self.values[i].0.as_str());
            if starts_with(&key, &prefix) {
                let rest = slice_vec(&key, prefix.len(), key.len());
                assert(rest@ =~= key@.skip(prefix@.len() as int));
                let ghost before = out@;
                out.push((string_of(&rest), &self.values[i].1));
                assert(entry_views(out@) =~= entry_views(before).push(
                    (rest@, self.values@[i as int].1),
                ));
            }
            i += 1;
        }
        assert(self.values@.take(self.values.len() as int) =~= self.values@);
        out
    }

    /// Every key must be `<alias>.<input>` for a known alias; the first key
    /// that is not is refused.
    pub fn validate_aliases(&self, aliases: &Vec<String>) -> (out: Result<(), Report>)
        ensures
            out is Ok <==> alias_error(self.values@, strs(aliases@)) is None,
            match out {
                Err(e) => alias_error(self.values@, strs(aliases@)) == Some(e.message@),
                Ok(()) => true,
            },
    {
        let mut i: usize = 0;
        assert(self.values@.skip(0) =~= self.values@);
        while i < self.values.len()
            invariant
                i <= self.values@.len(),
                alias_error(self.values@, strs(aliases@)) == alias_error(
                    self.values@.skip(i as int),
                    strs(aliases@),
                ),
            decreases self.values.len() - i,
        {
            assert(self.values@.skip(i as int)[0] == self.values@[i as int]);
            assert(self.values@.skip(i as int).drop_first() =~= self.values@.skip(i + 1));
            let key = chars_of(self.values[i].0.as_str());
            let dot = find_char_from(&key, '.', 0);
            proof {
                lemma_index_of_char(key@, '.', dot as int);
            }
            if dot >= key.len() {
                let mut message = String::new();
                push_str(&mut message, "mounted input '");
                push_str(&mut message, self.values[i].0.as_str());
                push_str(&mut message, "' is not qualified by an alias");
                let mut help = String::new();
                push_str(&mut help, "mounted inputs use `<alias>.<input>`, for example `review.target`.");
                return Err(Report::with_help(message, help));
            }
            let alias = slice_vec(&key, 0, dot);
            let mut known = false;
            let mut k: usize = 0;
            while k < aliases.len()
                invariant
                    k <= aliases@.len(),
                    known == exists|m: int| 0 <= m < k && #[trigger] strs(aliases@)[m] == alias@,
                decreases aliases.len() - k,
            {
                let a = chars_of(aliases[k].as_str());
                if seq_eq(&a, &alias) {
                    known = true;
                }
                assert(strs(aliases@)[k as int] == a@);
                k += 1;
            }
            if !known {
                let mut message = String::new();
                push_str(&mut message, "mounted input '");
                push_str(&mut message, self.values[i].0.as_str());
                push_str(&mut message, "' names unknown alias '");
                let alias_text = string_of(&alias);
                push_str(&mut message, alias_text.as_str());
                push_str(&mut message, "'");
                let mut help = String::new();
                push_str(&mut help, "available mount aliases: ");
                let listed = join_strings(aliases, ", ");
                push_str(&mut help, listed.as_str());
                return Err(Report::with_help(message, help));
            }
            i += 1;
        }
        assert(self.values@.skip(self.values.len() as int) =~= Seq::<(String, Yaml)>::empty());
        Ok(())
    }
}

/// The refusal, if any, of the first value key that names no known alias.
pub open spec fn alias_error(values: Seq<(String, Yaml)>, aliases: Seq<Seq<char>>) -> Option<
    Seq<char>,
>
    decreases values.len(),
{
    if values.len() == 0 {
        None
    } else {
        let key = values[0].0@;
        let dot = index_of_char(key, '.') as int;
        if dot >= key.len() {
            Some("mounted input '"@ + key + "' is not qualified by an alias"@)
        } else if !aliases.contains(key.take(dot)) {
            Some("mounted input '"@ + key + "' names unknown alias '"@ + key.take(dot) + "'"@)
        } else {
            alias_error(values.drop_first(), aliases)
        }
    }
}

// ---------------------------------------------------------------------------
// Mount and seam operands
// ---------------------------------------------------------------------------

/// An ASCII letter.
pub open spec fn is_alpha(c: char) -> bool {
    ('a' <= c && c <= 'z') || ('A' <= c && c <= 'Z')
}

/// An identifier: a letter, then letters, digits, `_` or `-`.
pub open spec fn is_identifier(s: Seq<char>) -> bool {
    s.len() > 0 && is_alpha(s[0]) && forall|i: int|
        1 <= i < s.len() ==> is_alpha(#[trigger] s[i]) || ('0' <= s[i] && s[i] <= '9') || s[i]
            == '_' || s[i] == '-'
}

/// Whether `s` is a valid mount alias.
pub fn valid_identifier(s: &str) -> (r: bool)
    ensures
        r == is_identifier(s@),
{
    let cs = chars_of(s);
    if cs.len() == 0 {
        return false;
    }
    let c0 = cs[0];
    if !(('a' <= c0 && c0 <= 'z') || ('A' <= c0 && c0 <= 'Z')) {
        return false;
    }
    let mut i: usize = 1;
    while i < cs.len()
        invariant
            1 <= i <= cs@.len(),
            cs@ == s@,
            forall|k: int|
                1 <= k < i ==> is_alpha(#[trigger] cs@[k]) || ('0' <= cs@[k] && cs@[k] <= '9')
                    || cs@[k] == '_' || cs@[k] == '-',
        decreases cs.len() - i,
    {
        let c = cs[i];
        if !(('a' <= c && c <= 'z') || ('A' <= c && c <= 'Z') || ('0' <= c && c <= '9') || c
            == '_' || c == '-') {
            return false;
        }
        i += 1;
    }
    true
}

/// `split_once(c)`: the text before and after the first `c`.
pub open spec fn split_once_spec(s: Seq<char>, c: char) -> Option<(Seq<char>, Seq<char>)> {
    let i = index_of_char(s, c) as int;
    if i >= s.len() {
        None
    } else {
        Some((s.take(i), s.skip(i + 1)))
    }
}

/// `split_once(c)`.
pub fn split_once(s: &str, c: char) -> (out: Option<(String, String)>)
    ensures
        match out {
            Some((a, b)) => split_once_spec(s@, c) == Some((a@, b@)),
            None => split_once_spec(s@, c) is None,
        },
{
    let cs = chars_of(s);
    let i = find_char_from(&cs, c, 0);
    proof {
        lemma_index_of_char(cs@, c, i as int);
    }
    if i >= cs.len() {
        return None;
    }
    let a = slice_vec(&cs, 0, i);
    let b = slice_vec(&cs, i + 1, cs.len());
    assert(a@ =~= cs@.take(i as int));
    assert(b@ =~= cs@.skip(i + 1));
    Some((string_of(&a), string_of(&b)))
}

/// A data endpoint `<alias>.<name>`: split at the first `.`, both parts
/// present.
pub open spec fn split_endpoint_spec(s: Seq<char>) -> Option<(Seq<char>, Seq<char>)> {
    match split_once_spec(s, '.') {
        Some((a, b)) => if a.len() > 0 && b.len() > 0 {
            Some((a, b))
        } else {
            None
        },
        None => None,
    }
}

/// Split a data endpoint into its mount alias and endpoint name.
pub fn split_endpoint(s: &str) -> (out: Option<(String, String)>)
    ensures
        match out {
            Some((a, b)) => split_endpoint_spec(s@) == Some((a@, b@)),
            None => split_endpoint_spec(s@) is None,
        },
{
    match split_once(s, '.') {
        Some((a, b)) => {
            if !a.as_str().is_empty() && !b.as_str().is_empty() {
                Some((a, b))
            } else {
                None
            }
        },
        None => None,
    }
}

/// One `--mount ALIAS=BLOCK` operand.
#[derive(Debug)]
pub struct Mount {
    pub alias: String,
    pub block: String,
}

/// The block an earlier mount under `alias` named.
pub open spec fn mounted_block(ms: Seq<(Seq<char>, Seq<char>)>, alias: Seq<char>) -> Option<
    Seq<char>,
>
    decreases ms.len(),
{
    if ms.len() == 0 {
        None
    } else if ms.last().0 == alias {
        Some(ms.last().1)
    } else {
        mounted_block(ms.drop_last(), alias)
    }
}

/// The mounts of `raw.take(n)`, or the refusal of the first bad operand.
pub open spec fn parse_mounts_spec(raw: Seq<Seq<char>>, n: nat) -> Result<Seq<(Seq<char>, Seq<char>)>, Seq<char>>
    decreases n,
{
    if n == 0 || n > raw.len() {
        Ok(seq![])
    } else {
        match parse_mounts_spec(raw, (n - 1) as nat) {
            Err(e) => Err(e),
            Ok(ms) => {
                let v = raw[n - 1];
                match split_once_spec(v, '=') {
                    None => Err("--mount expects ALIAS=BLOCK, got '"@ + v + "'"@),
                    Some((alias, block)) => if !is_identifier(alias) {
                        Err("invalid mount alias '"@ + alias + "'"@)
                    } else {
                        match mounted_block(ms, alias) {
                            Some(previous) => Err(
                                "duplicate mount alias '"@ + alias + "': manifests '"@ + previous
                                    + "' and '"@ + block + "'"@,
                            ),
                            None => Ok(ms.push((alias, block))),
                        }
                    },
                }
            },
        }
    }
}

/// The views of parsed mounts.
pub open spec fn mount_views(ms: Seq<Mount>) -> Seq<(Seq<char>, Seq<char>)> {
    ms.map_values(|m: Mount| (m.alias@, m.block@))
}

fn find_mount(ms: &Vec<Mount>, alias: &str) -> (out: Option<usize>)
    ensures
        match out {
            Some(i) => i < ms@.len() && mounted_block(mount_views(ms@), alias@) == Some(ms@[i as int].block@),
            None => mounted_block(mount_views(ms@), alias@) is None,
        },
{
    let mut i = ms.len();
    assert(mount_views(ms@).take(i as int) =~= mount_views(ms@));
    while i > 0
        invariant
            i <= ms@.len(),
            mounted_block(mount_views(ms@), alias@) == mounted_block(mount_views(ms@).take(i as int), alias@),
        decreases i,
    {
        assert(mount_views(ms@).take(i as int).drop_last() =~= mount_views(ms@).take(i - 1));
        if str_eq(ms[i - 1].alias.as_str(), alias) {
            return Some(i - 1);
        }
        i -= 1;
    }
    None
}

/// The explicit direct-composition grammar: `ALIAS=BLOCK` operands with
/// identifier aliases, each alias once.
pub fn parse_mounts(raw: &Vec<String>) -> (out: Result<Vec<Mount>, Report>)
    ensures
        match out {
            Ok(ms) => parse_mounts_spec(strs(raw@), raw@.len()) == Ok::<_, Seq<char>>(mount_views(ms@)),
            Err(e) => parse_mounts_spec(strs(raw@), raw@.len()) == Err::<Seq<(Seq<char>, Seq<char>)>, _>(e.message@),
        },
{
    let mut mounts: Vec<Mount> = Vec::new();
    assert(mount_views(mounts@) =~= seq![]);
    let mut i: usize = 0;
    while i < raw.len()
        invariant
            i <= raw@.len(),
            parse_mounts_spec(strs(raw@), i as nat) == Ok::<_, Seq<char>>(mount_views(mounts@)),
        decreases raw.len() - i,
    {
        let value = raw[i].as_str();
        assert(strs(raw@)[i as int] == value@);
        let Some((alias, block)) = split_once(value, '=') else {
            let mut message = String::new();
            push_str(&mut message, "--mount expects ALIAS=BLOCK, got '");
            push_str(&mut message, value);
            push_str(&mut message, "'");
            proof {
                lemma_mounts_err_sticky(strs(raw@), (i + 1) as nat, raw@.len());
            }
            return Err(Report::plain(message));
        };
        if !valid_identifier(alias.as_str()) {
            let mut message = String::new();
            push_str(&mut message, "invalid mount alias '");
            push_str(&mut message, alias.as_str());
            push_str(&mut message, "'");
            let mut help = String::new();
            push_str(&mut help, "an alias must start with a letter and continue with letters, digits, '_' or '-'.");
            proof {
                lemma_mounts_err_sticky(strs(raw@), (i + 1) as nat, raw@.len());
            }
            return Err(Report::with_help(message, help));
        }
        if let Some(previous) = find_mount(&mounts, alias.as_str()) {
            let mut message = String::new();
            push_str(&mut message, "duplicate mount alias '");
            push_str(&mut message, alias.as_str());
            push_str(&mut message, "': manifests '");
            push_str(&mut message, mounts[previous].block.as_str());
            push_str(&mut message, "' and '");
            push_str(&mut message, block.as_str());
            push_str(&mut message, "'");
            proof {
                lemma_mounts_err_sticky(strs(raw@), (i + 1) as nat, raw@.len());
            }
            return Err(Report::plain(message));
        }
        let ghost before = mounts@;
        mounts.push(Mount { alias, block });
        assert(mount_views(mounts@) =~= mount_views(before).push((alias@, block@)));
        i += 1;
    }
    Ok(mounts)
}

/// One `--seam SOURCE=TARGET`, with the passes routed through it.
#[derive(Debug)]
pub struct Seam {
    pub from: String,
    pub to: String,
    /// `SOURCE -> TARGET` data passes, each source once.
    pub pass: Vec<(String, String)>,
}

/// The passes of a seam as a map.
pub open spec fn pass_map(p: Seq<(String, String)>) -> Map<Seq<char>, Seq<char>>
    decreases p.len(),
{
    if p.len() == 0 {
        Map::empty()
    } else {
        pass_map(p.drop_last()).insert(p.last().0@, p.last().1@)
    }
}

/// The mathematical seam.
pub struct SeamView {
    pub from: Seq<char>,
    pub to: Seq<char>,
    pub pass: Map<Seq<char>, Seq<char>>,
}

pub open spec fn seam_view(s: Seam) -> SeamView {
    SeamView { from: s.from@, to: s.to@, pass: pass_map(s.pass@) }
}

pub open spec fn seam_views(s: Seq<Seam>) -> Seq<SeamView> {
    s.map_values(|x: Seam| seam_view(x))
}

/// The alias part of an endpoint.
pub open spec fn endpoint_alias(s: Seq<char>) -> Option<Seq<char>> {
    match split_endpoint_spec(s) {
        Some((a, _)) => Some(a),
        None => None,
    }
}

/// Whether a seam runs between the two aliases.
pub open spec fn seam_between(s: SeamView, from_alias: Seq<char>, to_alias: Seq<char>) -> bool {
    endpoint_alias(s.from) == Some(from_alias) && endpoint_alias(s.to) == Some(to_alias)
}

/// How many seams run between the two aliases.
pub open spec fn count_between(s: Seq<SeamView>, fa: Seq<char>, ta: Seq<char>) -> nat
    decreases s.len(),
{
    if s.len() == 0 {
        0
    } else {
        count_between(s.drop_last(), fa, ta) + if seam_between(s.last(), fa, ta) {
            1nat
        } else {
            0nat
        }
    }
}

/// The declared seams of `raw.take(n)`, or the refusal of the first bad one.
pub open spec fn parse_seams_spec(raw: Seq<Seq<char>>, n: nat) -> Result<Seq<SeamView>, Seq<char>>
    decreases n,
{
    if n == 0 || n > raw.len() {
        Ok(seq![])
    } else {
        match parse_seams_spec(raw, (n - 1) as nat) {
            Err(e) => Err(e),
            Ok(ss) => match split_once_spec(raw[n - 1], '=') {
                None => Err("--seam expects SOURCE=TARGET, got '"@ + raw[n - 1] + "'"@),
                Some((from, to)) => Ok(ss.push(SeamView { from, to, pass: Map::empty() })),
            },
        }
    }
}

/// Route one pass into the unique seam between its endpoint aliases.
pub open spec fn apply_pass(ss: Seq<SeamView>, raw: Seq<char>) -> Result<Seq<SeamView>, Seq<char>> {
    match split_once_spec(raw, '=') {
        None => Err("--pass expects SOURCE=TARGET, got '"@ + raw + "'"@),
        Some((from, to)) => match (endpoint_alias(from), endpoint_alias(to)) {
            (None, _) => Err("invalid data endpoint '"@ + from + "'"@),
            (Some(_), None) => Err("invalid data endpoint '"@ + to + "'"@),
            (Some(fa), Some(ta)) => if count_between(ss, fa, ta) != 1 {
                Err("pass '"@ + from + "="@ + to + "' must match exactly one declared seam between '"@
                    + fa + "' and '"@ + ta + "'"@)
            } else {
                let i = choose|i: int| 0 <= i < ss.len() && seam_between(ss[i], fa, ta);
                Ok(ss.update(i, SeamView { pass: ss[i].pass.insert(from, to), ..ss[i] }))
            },
        },
    }
}

/// The seams after the passes of `passes.take(n)`.
pub open spec fn apply_passes(ss: Seq<SeamView>, passes: Seq<Seq<char>>, n: nat) -> Result<
    Seq<SeamView>,
    Seq<char>,
>
    decreases n,
{
    if n == 0 || n > passes.len() {
        Ok(ss)
    } else {
        match apply_passes(ss, passes, (n - 1) as nat) {
            Err(e) => Err(e),
            Ok(cur) => apply_pass(cur, passes[n - 1]),
        }
    }
}

/// No seams: nothing when there are no passes either, a refusal otherwise;
/// with seams, the declared seams after every pass is routed.
pub open spec fn parse_cli_seams_spec(seams: Seq<Seq<char>>, passes: Seq<Seq<char>>) -> Result<
    Option<Seq<SeamView>>,
    Seq<char>,
> {
    if seams.len() == 0 {
        if passes.len() == 0 {
            Ok(None)
        } else {
            Err("--pass requires a declared --seam between its endpoint mounts"@)
        }
    } else {
        match parse_seams_spec(seams, seams.len()) {
            Err(e) => Err(e),
            Ok(ss) => match apply_passes(ss, passes, passes.len()) {
                Err(e) => Err(e),
                Ok(done) => Ok(Some(done)),
            },
        }
    }
}

fn endpoint_alias_of(s: &str) -> (out: Option<String>)
    ensures
        match out {
            Some(a) => endpoint_alias(s@) == Some(a@),
            None => endpoint_alias(s@) is None,
        },
{
    match split_endpoint(s) {
        Some((a, _)) => Some(a),
        None => None,
    }
}

fn insert_pass(pass: &mut Vec<(String, String)>, from: String, to: String)
    ensures
        pass_map(final(pass)@) == pass_map(old(pass)@).insert(from@, to@),
{
    let ghost before = pass@;
    pass.push((from, to));
    assert(final(pass)@.drop_last() =~= before);
}

/// Parse `--seam` declarations and route each `--pass` into the one seam
/// that runs between its endpoint mounts.
pub fn parse_cli_seams(raw_seams: &Vec<String>, raw_passes: &Vec<String>) -> (out: Result<
    Option<Vec<Seam>>,
    Report,
>)
    ensures
        match out {
            Ok(None) => parse_cli_seams_spec(strs(raw_seams@), strs(raw_passes@)) == Ok::<
                Option<Seq<SeamView>>,
                Seq<char>,
            >(None),
            Ok(Some(ss)) => parse_cli_seams_spec(strs(raw_seams@), strs(raw_passes@)) == Ok::<
                Option<Seq<SeamView>>,
                Seq<char>,
            >(Some(seam_views(ss@))),
            Err(e) => parse_cli_seams_spec(strs(raw_seams@), strs(raw_passes@)) == Err::<
                Option<Seq<SeamView>>,
                Seq<char>,
            >(e.message@),
        },
{
    if raw_seams.len() == 0 {
        if raw_passes.len() == 0 {
            return Ok(None);
        }
        let mut message = String::new();
        push_str(&mut message, "--pass requires a declared --seam between its endpoint mounts");
        return Err(Report::plain(message));
    }
    let mut seams: Vec<Seam> = Vec::new();
    assert(seam_views(seams@) =~= seq![]);
    let mut i: usize = 0;
    while i < raw_seams.len()
        invariant
            i <= raw_seams@.len(),
            parse_seams_spec(strs(raw_seams@), i as nat) == Ok::<_, Seq<char>>(seam_views(seams@)),
        decreases raw_seams.len() - i,
    {
        let raw = raw_seams[i].as_str();
        assert(strs(raw_seams@)[i as int] == raw@);
        let Some((from, to)) = split_once(raw, '=') else {
            let mut message = String::new();
            push_str(&mut message, "--seam expects SOURCE=TARGET, got '");
            push_str(&mut message, raw);
            push_str(&mut message, "'");
            proof {
                lemma_seams_err_sticky(strs(raw_seams@), (i + 1) as nat, raw_seams@.len());
            }
            return Err(Report::plain(message));
        };
        let ghost before = seams@;
        let seam = Seam { from, to, pass: Vec::new() };
        assert(pass_map(seam.pass@) =~= Map::<Seq<char>, Seq<char>>::empty());
        seams.push(seam);
        assert(seam_views(seams@) =~= seam_views(before).push(seam_view(seam)));
        i += 1;
    }
    let ghost declared = seam_views(seams@);
    let mut p: usize = 0;
    while p < raw_passes.len()
        invariant
            p <= raw_passes@.len(),
            raw_seams@.len() > 0,
            strs(raw_seams@).len() == raw_seams@.len(),
            strs(raw_passes@).len() == raw_passes@.len(),
            parse_seams_spec(strs(raw_seams@), raw_seams@.len()) == Ok::<_, Seq<char>>(declared),
            apply_passes(declared, strs(raw_passes@), p as nat) == Ok::<_, Seq<char>>(seam_views(seams@)),
        decreases raw_passes.len() - p,
    {
        let raw = raw_passes[p].as_str();
        assert(strs(raw_passes@)[p as int] == raw@);
        assert(apply_passes(declared, strs(raw_passes@), (p + 1) as nat) == apply_pass(
            seam_views(seams@),
            raw@,
        ));
        match route_pass(&mut seams, raw) {
            Ok(()) => {},
            Err(e) => {
                proof {
                    lemma_passes_err_sticky(declared, strs(raw_passes@), (p + 1) as nat, raw_passes@.len());
                }
                return Err(e);
            },
        }
        p += 1;
    }
    Ok(Some(seams))
}

/// Route one `--pass SOURCE=TARGET` into the one seam between its endpoint
/// aliases.
fn route_pass(seams: &mut Vec<Seam>, raw: &str) -> (out: Result<(), Report>)
    ensures
        match apply_pass(seam_views(old(seams)@), raw@) {
            Ok(next) => out is Ok && seam_views(final(seams)@) == next,
            Err(e) => out matches Err(r) && r.message@ == e,
        },
{
    let ghost cur = seam_views(seams@);
    let Some((from, to)) = split_once(raw, '=') else {
        let mut message = String::new();
        push_str(&mut message, "--pass expects SOURCE=TARGET, got '");
        push_str(&mut message, raw);
        push_str(&mut message, "'");
        return Err(Report::plain(message));
    };
    let Some(from_alias) = endpoint_alias_of(from.as_str()) else {
        let mut message = String::new();
        push_str(&mut message, "invalid data endpoint '");
        push_str(&mut message, from.as_str());
        push_str(&mut message, "'");
        return Err(Report::plain(message));
    };
    let Some(to_alias) = endpoint_alias_of(to.as_str()) else {
        let mut message = String::new();
        push_str(&mut message, "invalid data endpoint '");
        push_str(&mut message, to.as_str());
        push_str(&mut message, "'");
        return Err(Report::plain(message));
    };
    // Count the seams between the two aliases, remembering the last one.
    let mut count: usize = 0;
    let mut found: usize = 0;
    let mut k: usize = 0;
    while k < seams.len()
        invariant
            k <= seams@.len(),
            cur == seam_views(seams@),
            count <= k,
            count == count_between(cur.take(k as int), from_alias@, to_alias@),
            count > 0 ==> found < k && seam_between(cur[found as int], from_alias@, to_alias@),
        decreases seams.len() - k,
    {
        assert(cur.take(k + 1).drop_last() =~= cur.take(k as int));
        assert(cur[k as int] == seam_view(seams@[k as int]));
        let fa = endpoint_alias_of(seams[k].from.as_str());
        let ta = endpoint_alias_of(seams[k].to.as_str());
        let between = match (fa, ta) {
            (Some(x), Some(y)) => str_eq(x.as_str(), from_alias.as_str()) && str_eq(
                y.as_str(),
                to_alias.as_str(),
            ),
            _ => false,
        };
        if between {
            count += 1;
            found = k;
        }
        k += 1;
    }
    assert(cur.take(seams.len() as int) =~= cur);
    if count != 1 {
        let mut message = String::new();
        push_str(&mut message, "pass '");
        push_str(&mut message, from.as_str());
        push_str(&mut message, "=");
        push_str(&mut message, to.as_str());
        push_str(&mut message, "' must match exactly one declared seam between '");
        push_str(&mut message, from_alias.as_str());
        push_str(&mut message, "' and '");
        push_str(&mut message, to_alias.as_str());
        push_str(&mut message, "'");
        return Err(Report::plain(message));
    }
    proof {
        lemma_unique_between(cur, from_alias@, to_alias@, found as int);
    }
    let ghost fv = from@;
    let ghost tv = to@;
    let mut seam = seams.remove(found);
    insert_pass(&mut seam.pass, from, to);
    seams.insert(found, seam);
    proof {
        let i = choose|i: int| 0 <= i < cur.len() && seam_between(cur[i], from_alias@, to_alias@);
        assert(i == found);
        assert(seam_views(seams@) =~= cur.update(
            found as int,
            SeamView { pass: cur[found as int].pass.insert(fv, tv), ..cur[found as int] },
        ));
    }
    Ok(())
}

/// With exactly one seam between the aliases, it is the one found.
proof fn lemma_unique_between(s: Seq<SeamView>, fa: Seq<char>, ta: Seq<char>, f: int)
    requires
        count_between(s, fa, ta) == 1,
        0 <= f < s.len(),
        seam_between(s[f], fa, ta),
    ensures
        forall|i: int| 0 <= i < s.len() && seam_between(s[i], fa, ta) ==> i == f,
    decreases s.len(),
{
    assert forall|i: int| 0 <= i < s.len() && seam_between(s[i], fa, ta) implies i == f by {
        if i != f {
            lemma_count_two(s, fa, ta, i, f);
        }
    }
}

/// Two distinct seams between the aliases count at least twice.
proof fn lemma_count_two(s: Seq<SeamView>, fa: Seq<char>, ta: Seq<char>, i: int, j: int)
    requires
        0 <= i < s.len(),
        0 <= j < s.len(),
        i != j,
        seam_between(s[i], fa, ta),
        seam_between(s[j], fa, ta),
    ensures
        count_between(s, fa, ta) >= 2,
    decreases s.len(),
{
    let last = s.len() - 1;
    if i == last || j == last {
        let other = if i == last { j } else { i };
        lemma_count_one(s.drop_last(), fa, ta, other);
    } else {
        lemma_count_two(s.drop_last(), fa, ta, i, j);
    }
}

/// A seam between the aliases counts at least once.
proof fn lemma_count_one(s: Seq<SeamView>, fa: Seq<char>, ta: Seq<char>, i: int)
    requires
        0 <= i < s.len(),
        seam_between(s[i], fa, ta),
    ensures
        count_between(s, fa, ta) >= 1,
    decreases s.len(),
{
    if i < s.len() - 1 {
        lemma_count_one(s.drop_last(), fa, ta, i);
    }
}

/// A refused mount operand stays refused whatever follows it.
proof fn lemma_mounts_err_sticky(raw: Seq<Seq<char>>, n: nat, m: nat)
    requires
        n <= m <= raw.len(),
        parse_mounts_spec(raw, n) is Err,
    ensures
        parse_mounts_spec(raw, m) == parse_mounts_spec(raw, n),
    decreases m - n,
{
    if m > n {
        lemma_mounts_err_sticky(raw, n, (m - 1) as nat);
    }
}

/// A refused seam operand stays refused whatever follows it.
proof fn lemma_seams_err_sticky(raw: Seq<Seq<char>>, n: nat, m: nat)
    requires
        n <= m <= raw.len(),
        parse_seams_spec(raw, n) is Err,
    ensures
        parse_seams_spec(raw, m) == parse_seams_spec(raw, n),
    decreases m - n,
{
    if m > n {
        lemma_seams_err_sticky(raw, n, (m - 1) as nat);
    }
}

/// A refused pass stays refused whatever follows it.
proof fn lemma_passes_err_sticky(ss: Seq<SeamView>, passes: Seq<Seq<char>>, n: nat, m: nat)
    requires
        n <= m <= passes.len(),
        apply_passes(ss, passes, n) is Err,
    ensures
        apply_passes(ss, passes, m) == apply_passes(ss, passes, n),
    decreases m - n,
{
    if m > n {
        lemma_passes_err_sticky(ss, passes, n, (m - 1) as nat);
    }
}

// ---------------------------------------------------------------------------
// Bindings from a parent's inputs to its mounted children
// ---------------------------------------------------------------------------

/// Whether a mounted block is spelled as a path, resolved against the
/// mounting block's directory, rather than as a catalog name: it holds a `/`
/// (as every absolute path here does) or starts with `.`.
pub fn mount_reference_is_path(block: &str) -> (b: bool)
    ensures
        b == ((exists|i: int| 0 <= i < block@.len() && block@[i] == '/') || (block@.len() > 0 && block@[0] == '.')),
{
    let cs = chars_of(block);
    let mut i: usize = 0;
    while i < cs.len()
        invariant
            i <= cs.len(),
            cs@ == block@,
            forall|j: int| 0 <= j < i ==> cs@[j] != '/',
        decreases cs.len() - i,
    {
        if cs[i] == '/' {
            return true;
        }
        i = i + 1;
    }
    cs.len() > 0 && cs[0] == '.'
}

/// Whether some entry of `s` spells `x`.
pub open spec fn spells(s: Seq<String>, x: Seq<char>) -> bool {
    exists|j: int| 0 <= j < s.len() && #[trigger] s[j]@ == x
}

fn spells_exec(s: &Vec<String>, x: &str) -> (r: bool)
    ensures
        r == spells(s@, x@),
{
    let mut i: usize = 0;
    while i < s.len()
        invariant
            i <= s.len(),
            forall|j: int| 0 <= j < i ==> s@[j]@ != x@,
        decreases s.len() - i,
    {
        if str_eq(s[i].as_str(), x) {
            return true;
        }
        i = i + 1;
    }
    false
}

/// The refusal of the first `bind` whose target is not `<alias>.<input>` for a
/// mounted alias.
pub open spec fn bind_target_error(binds: Seq<(String, String)>, aliases: Seq<String>, manifest: Seq<char>) -> Option<Seq<char>>
    decreases binds.len(),
{
    if binds.len() == 0 {
        None
    } else {
        match bind_target_error(binds.drop_last(), aliases, manifest) {
            Some(e) => Some(e),
            None => {
                let to = binds.last().0@;
                match split_endpoint_spec(to) {
                    None => Some("invalid bind target '"@ + to + "' in '"@ + manifest + "'"@),
                    Some((alias, _)) => if !spells(aliases, alias) {
                        Some("bind target '"@ + to + "' names unknown child alias '"@ + alias + "' in '"@ + manifest + "'"@)
                    } else {
                        None
                    },
                }
            },
        }
    }
}

/// Check that every `bind` (its `to` and parent `input`) targets a mounted
/// alias; `manifest` is the mounting manifest as messages show it.
pub fn validate_bind_targets(binds: &Vec<(String, String)>, aliases: &Vec<String>, manifest: &str) -> (out: Result<(), Report>)
    ensures
        match bind_target_error(binds@, aliases@, manifest@) {
            Some(m) => out matches Err(e) && e.message@ == m && e.help is None,
            None => out is Ok,
        },
{
    let mut i: usize = 0;
    assert(binds@.take(0) =~= Seq::<(String, String)>::empty());
    while i < binds.len()
        invariant
            i <= binds.len(),
            bind_target_error(binds@.take(i as int), aliases@, manifest@) is None,
        decreases binds.len() - i,
    {
        assert(binds@.take(i + 1).drop_last() =~= binds@.take(i as int));
        assert(binds@.take(i + 1).last() == binds@[i as int]);
        let to = binds[i].0.as_str();
        match split_endpoint(to) {
            None => {
                let mut m = String::new();
                push_str(&mut m, "invalid bind target '");
                push_str(&mut m, to);
                push_str(&mut m, "' in '");
                push_str(&mut m, manifest);
                push_str(&mut m, "'");
                proof { lemma_bind_error_persists(binds@, aliases@, manifest@, i as int + 1); }
                return Err(Report::plain(m));
            },
            Some((alias, _)) => {
                if !spells_exec(aliases, alias.as_str()) {
                    let mut m = String::new();
                    push_str(&mut m, "bind target '");
                    push_str(&mut m, to);
                    push_str(&mut m, "' names unknown child alias '");
                    push_str(&mut m, alias.as_str());
                    push_str(&mut m, "' in '");
                    push_str(&mut m, manifest);
                    push_str(&mut m, "'");
                    proof { lemma_bind_error_persists(binds@, aliases@, manifest@, i as int + 1); }
                    return Err(Report::plain(m));
                }
            },
        }
        i = i + 1;
    }
    assert(binds@.take(binds.len() as int) =~= binds@);
    Ok(())
}

proof fn lemma_bind_error_persists(binds: Seq<(String, String)>, aliases: Seq<String>, manifest: Seq<char>, m: int)
    requires
        0 <= m <= binds.len(),
        bind_target_error(binds.take(m), aliases, manifest) is Some,
    ensures
        bind_target_error(binds, aliases, manifest) == bind_target_error(binds.take(m), aliases, manifest),
    decreases binds.len() - m,
{
    if m < binds.len() {
        assert(binds.take(m + 1).drop_last() =~= binds.take(m));
        lemma_bind_error_persists(binds, aliases, manifest, m + 1);
    } else {
        assert(binds.take(m) =~= binds);
    }
}

/// The schema of the first input named `name`.
pub open spec fn input_schema(inputs: Seq<(String, TemplateValueSchema)>, name: Seq<char>) -> Option<TemplateValueSchema>
    decreases inputs.len(),
{
    if inputs.len() == 0 {
        None
    } else if inputs[0].0@ == name {
        Some(inputs[0].1)
    } else {
        input_schema(inputs.drop_first(), name)
    }
}

fn lookup_input<'a>(inputs: &'a Vec<(String, TemplateValueSchema)>, name: &str) -> (out: Option<&'a TemplateValueSchema>)
    ensures
        match out {
            Some(s) => input_schema(inputs@, name@) == Some(*s),
            None => input_schema(inputs@, name@) is None,
        },
{
    let mut i: usize = 0;
    assert(inputs@.subrange(0, inputs.len() as int) =~= inputs@);
    while i < inputs.len()
        invariant
            i <= inputs.len(),
            input_schema(inputs@, name@) == input_schema(inputs@.subrange(i as int, inputs.len() as int), name@),
        decreases inputs.len() - i,
    {
        assert(inputs@.subrange(i as int, inputs.len() as int).drop_first() =~= inputs@.subrange(i + 1, inputs.len() as int));
        if str_eq(inputs[i].0.as_str(), name) {
            return Some(&inputs[i].1);
        }
        i = i + 1;
    }
    None
}

/// Each child input qualified by the mount alias.
pub open spec fn qualified_inputs(alias: Seq<char>, inputs: Seq<(String, TemplateValueSchema)>) -> Seq<Seq<char>> {
    inputs.map_values(|p: (String, TemplateValueSchema)| alias + "."@ + p.0@)
}

/// The child inputs bound so far.
pub open spec fn bound_targets(pairs: Seq<(Seq<char>, Seq<char>)>) -> Seq<Seq<char>> {
    pairs.map_values(|p: (Seq<char>, Seq<char>)| p.0)
}

/// One binding to the mount: the child input it fills from which parent
/// input, or why it cannot.
pub open spec fn binding_step(
    pairs: Seq<(Seq<char>, Seq<char>)>,
    to: Seq<char>,
    input: Seq<char>,
    alias: Seq<char>,
    target: Seq<char>,
    parent_inputs: Seq<(String, TemplateValueSchema)>,
    child_inputs: Seq<(String, TemplateValueSchema)>,
    value_names: Seq<String>,
    manifest: Seq<char>,
    child_manifest: Seq<char>,
) -> Result<Seq<(Seq<char>, Seq<char>)>, (Seq<char>, Option<Seq<char>>)> {
    match input_schema(parent_inputs, input) {
        None => Err(("bind '"@ + to + "' in '"@ + manifest + "' names missing parent input '"@ + input + "'"@, None)),
        Some(ps) => match input_schema(child_inputs, target) {
            None => Err(("bind target '"@ + to + "' from '"@ + manifest + "' does not exist in '"@ + child_manifest + "'"@,
                Some("valid child inputs: "@ + join(qualified_inputs(alias, child_inputs), ", "@)))),
            Some(cs) => if !schema_compatible(ps, cs) {
                Err(("bind '"@ + to + "' connects incompatible input schemas in '"@ + manifest + "' and '"@ + child_manifest + "'"@, None))
            } else if bound_targets(pairs).contains(target) {
                Err(("bind target '"@ + to + "' is assigned more than once"@, None))
            } else if !spells(value_names, input) {
                Err(("resolved parent input '"@ + input + "' is missing"@, None))
            } else {
                Ok(pairs.push((target, input)))
            },
        },
    }
}

/// The child inputs the parent's `bind` entries fill for the mount `alias`,
/// each with the parent input it takes, in order; or the refusal of the
/// first binding that names a missing parent or child input, joins
/// incompatible schemas, fills one input twice, or has no resolved value.
pub open spec fn mount_bindings_spec(
    binds: Seq<(String, String)>,
    alias: Seq<char>,
    parent_inputs: Seq<(String, TemplateValueSchema)>,
    child_inputs: Seq<(String, TemplateValueSchema)>,
    value_names: Seq<String>,
    manifest: Seq<char>,
    child_manifest: Seq<char>,
) -> Result<Seq<(Seq<char>, Seq<char>)>, (Seq<char>, Option<Seq<char>>)>
    decreases binds.len(),
{
    if binds.len() == 0 {
        Ok(Seq::empty())
    } else {
        match mount_bindings_spec(binds.drop_last(), alias, parent_inputs, child_inputs, value_names, manifest, child_manifest) {
            Err(e) => Err(e),
            Ok(pairs) => {
                let to = binds.last().0@;
                let input = binds.last().1@;
                match split_endpoint_spec(to) {
                    Some((a, target)) => if a == alias {
                        binding_step(pairs, to, input, alias, target, parent_inputs, child_inputs, value_names, manifest, child_manifest)
                    } else {
                        Ok(pairs)
                    },
                    None => Ok(pairs),
                }
            },
        }
    }
}

proof fn lemma_mount_bindings_error_persists(
    binds: Seq<(String, String)>,
    alias: Seq<char>,
    parent_inputs: Seq<(String, TemplateValueSchema)>,
    child_inputs: Seq<(String, TemplateValueSchema)>,
    value_names: Seq<String>,
    manifest: Seq<char>,
    child_manifest: Seq<char>,
    m: int,
)
    requires
        0 <= m <= binds.len(),
        mount_bindings_spec(binds.take(m), alias, parent_inputs, child_inputs, value_names, manifest, child_manifest) is Err,
    ensures
        mount_bindings_spec(binds, alias, parent_inputs, child_inputs, value_names, manifest, child_manifest)
            == mount_bindings_spec(binds.take(m), alias, parent_inputs, child_inputs, value_names, manifest, child_manifest),
    decreases binds.len() - m,
{
    if m < binds.len() {
        assert(binds.take(m + 1).drop_last() =~= binds.take(m));
        lemma_mount_bindings_error_persists(binds, alias, parent_inputs, child_inputs, value_names, manifest, child_manifest, m + 1);
    } else {
        assert(binds.take(m) =~= binds);
    }
}

/// The pairs as text.
pub open spec fn pair_views(v: Seq<(String, String)>) -> Seq<(Seq<char>, Seq<char>)> {
    v.map_values(|p: (String, String)| (p.0@, p.1@))
}

fn text3(a: &str, b: &str, c: &str) -> (out: String)
    ensures
        out@ == a@ + b@ + c@,
{
    let mut out = String::new();
    push_str(&mut out, a);
    push_str(&mut out, b);
    push_str(&mut out, c);
    out
}

fn text7(a: &str, b: &str, c: &str, d: &str, e: &str, f: &str, g: &str) -> (out: String)
    ensures
        out@ == a@ + b@ + c@ + d@ + e@ + f@ + g@,
{
    let mut out = text3(a, b, c);
    push_str(&mut out, d);
    push_str(&mut out, e);
    push_str(&mut out, f);
    push_str(&mut out, g);
    out
}

fn qualified_names(alias: &str, inputs: &Vec<(String, TemplateValueSchema)>) -> (out: Vec<String>)
    ensures
        out@.map_values(|p: String| p@) == qualified_inputs(alias@, inputs@),
{
    let mut out: Vec<String> = Vec::new();
    let mut i: usize = 0;
    while i < inputs.len()
        invariant
            i <= inputs.len(),
            out@.map_values(|p: String| p@) == qualified_inputs(alias@, inputs@.take(i as int)),
        decreases inputs.len() - i,
    {
        let mut q = String::new();
        push_str(&mut q, alias);
        push_str(&mut q, ".");
        push_str(&mut q, inputs[i].0.as_str());
        let ghost before = out@;
        out.push(q);
        assert(inputs@.take(i + 1) =~= inputs@.take(i as int).push(inputs@[i as int]));
        assert(qualified_inputs(alias@, inputs@.take(i + 1)) =~= qualified_inputs(alias@, inputs@.take(i as int)).push(alias@ + "."@ + inputs@[i as int].0@));
        assert(out@.map_values(|p: String| p@) =~= before.map_values(|p: String| p@).push(q@));
        i = i + 1;
    }
    assert(inputs@.take(inputs.len() as int) =~= inputs@);
    out
}

fn targets_contain(pairs: &Vec<(String, String)>, target: &str) -> (r: bool)
    ensures
        r == bound_targets(pair_views(pairs@)).contains(target@),
{
    let mut i: usize = 0;
    while i < pairs.len()
        invariant
            i <= pairs.len(),
            forall|j: int| 0 <= j < i ==> pairs@[j].0@ != target@,
        decreases pairs.len() - i,
    {
        if str_eq(pairs[i].0.as_str(), target) {
            assert(bound_targets(pair_views(pairs@))[i as int] == target@);
            return true;
        }
        i = i + 1;
    }
    assert forall|j: int| 0 <= j < pairs@.len() implies bound_targets(pair_views(pairs@))[j] != target@ by {
        assert(bound_targets(pair_views(pairs@))[j] == pairs@[j].0@);
    }
    false
}

/// A binding refusal as the contract describes it.
pub open spec fn refused_as(e: Report, x: (Seq<char>, Option<Seq<char>>)) -> bool {
    &&& e.message@ == x.0
    &&& match x.1 {
        Some(h) => e.help matches Some(g) && g@ == h,
        None => e.help is None,
    }
}

fn bind_one(
    out: &Vec<(String, String)>,
    to: &str,
    input: &str,
    alias: &str,
    target: &str,
    parent_inputs: &Vec<(String, TemplateValueSchema)>,
    child_inputs: &Vec<(String, TemplateValueSchema)>,
    value_names: &Vec<String>,
    manifest: &str,
    child_manifest: &str,
) -> (r: Result<(String, String), Report>)
    ensures
        match binding_step(pair_views(out@), to@, input@, alias@, target@, parent_inputs@, child_inputs@, value_names@, manifest@, child_manifest@) {
            Ok(p) => r matches Ok(x) && p == pair_views(out@).push((x.0@, x.1@)),
            Err(x) => r matches Err(e) && refused_as(e, x),
        },
{
    let ps = match lookup_input(parent_inputs, input) {
        Some(ps) => ps,
        None => {
            return Err(Report::plain(text7("bind '", to, "' in '", manifest, "' names missing parent input '", input, "'")));
        },
    };
    let cs = match lookup_input(child_inputs, target) {
        Some(cs) => cs,
        None => {
            let m = text7("bind target '", to, "' from '", manifest, "' does not exist in '", child_manifest, "'");
            let names = qualified_names(alias, child_inputs);
            let listed = join_strings(&names, ", ");
            let mut h = String::new();
            push_str(&mut h, "valid child inputs: ");
            push_str(&mut h, listed.as_str());
            return Err(Report::with_help(m, h));
        },
    };
    if !compatible_input_schema(ps, cs) {
        return Err(Report::plain(text7("bind '", to, "' connects incompatible input schemas in '", manifest, "' and '", child_manifest, "'")));
    }
    if targets_contain(out, target) {
        return Err(Report::plain(text3("bind target '", to, "' is assigned more than once")));
    }
    if !spells_exec(value_names, input) {
        return Err(Report::plain(text3("resolved parent input '", input, "' is missing")));
    }
    let mut t = String::new();
    push_str(&mut t, target);
    let mut n = String::new();
    push_str(&mut n, input);
    Ok((t, n))
}

/// The child inputs the mounting manifest's `bind` entries (`to`, parent
/// `input`) fill for the mount `alias`, each paired with its parent input.
/// `value_names` are the parent inputs that resolved to a value;
/// `manifest` and `child_manifest` name the two manifests in messages.
pub fn mount_bindings(
    binds: &Vec<(String, String)>,
    alias: &str,
    parent_inputs: &Vec<(String, TemplateValueSchema)>,
    child_inputs: &Vec<(String, TemplateValueSchema)>,
    value_names: &Vec<String>,
    manifest: &str,
    child_manifest: &str,
) -> (out: Result<Vec<(String, String)>, Report>)
    ensures
        match mount_bindings_spec(binds@, alias@, parent_inputs@, child_inputs@, value_names@, manifest@, child_manifest@) {
            Ok(p) => out matches Ok(v) && pair_views(v@) == p,
            Err(x) => out matches Err(e) && refused_as(e, x),
        },
{
    let mut out: Vec<(String, String)> = Vec::new();
    let mut i: usize = 0;
    assert(binds@.take(0) =~= Seq::<(String, String)>::empty());
    assert(pair_views(out@) =~= Seq::<(Seq<char>, Seq<char>)>::empty());
    while i < binds.len()
        invariant
            i <= binds.len(),
            mount_bindings_spec(binds@.take(i as int), alias@, parent_inputs@, child_inputs@, value_names@, manifest@,
                child_manifest@) == Ok::<Seq<(Seq<char>, Seq<char>)>, (Seq<char>, Option<Seq<char>>)>(pair_views(out@)),
        decreases binds.len() - i,
    {
        assert(binds@.take(i + 1).drop_last() =~= binds@.take(i as int));
        assert(binds@.take(i + 1).last() == binds@[i as int]);
        let to = binds[i].0.as_str();
        let input = binds[i].1.as_str();
        if let Some((a, target)) = split_endpoint(to) {
            if str_eq(a.as_str(), alias) {
                match bind_one(&out, to, input, alias, target.as_str(), parent_inputs, child_inputs, value_names, manifest, child_manifest) {
                    Ok(pair) => {
                        let ghost before = out@;
                        out.push(pair);
                        assert(pair_views(out@) =~= pair_views(before).push((pair.0@, pair.1@)));
                    },
                    Err(e) => {
                        proof {
                            lemma_mount_bindings_error_persists(binds@, alias@, parent_inputs@, child_inputs@, value_names@, manifest@, child_manifest@, i as int + 1);
                        }
                        return Err(e);
                    },
                }
            }
        }
        i = i + 1;
    }
    assert(binds@.take(binds.len() as int) =~= binds@);
    Ok(out)
}

} // verus!
